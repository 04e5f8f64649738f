//! Verified core of an Azure neural text-to-speech voice engine for SAPI5:
//! sentence splitting with word-boundary offsets, SSML request building,
//! PCM decoding and framing, the speaking loop with its pacing, and the setup tool's
//! command, registry-path and voice-table logic.

pub mod azure;
pub mod cli;
pub mod config;
pub mod engine;
pub mod logger;
pub mod registry;
pub mod sentence;
pub mod speak;
pub mod text;
