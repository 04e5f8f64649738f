//! The engine's log: where it is written and what a record looks like. The
//! engine runs inside host processes where standard output is useless, so
//! everything of interest goes to `engine.log` in the assets directory.

use vstd::prelude::*;

use crate::config::{adjoined, is_verbatim, join_path};
use crate::text::{decimal, ends_with, push_decimal, push_str, string_of};

verus! {

/// Name of the log file.
pub const LOG_FILE_NAME: &'static str = "engine.log";

/// Points the log at `engine.log` in `dir`.
pub fn set_dir(log_path: &mut Option<String>, dir: &str)
    ensures
        *final(log_path) matches Some(p) && ends_with(p@, "engine.log"@) && (!is_verbatim(dir@)
            ==> adjoined(dir@, "engine.log"@, p@)),
{
    proof {
        reveal_strlit("engine.log");
    }
    *log_path = Some(join_path(dir, LOG_FILE_NAME));
}

/// One log record: the time in whole seconds since the Unix epoch in
/// brackets, a space, the message and a line break.
pub open spec fn log_record(secs: u64, msg: Seq<char>) -> Seq<char> {
    seq!['['] + decimal(secs as nat) + seq![']', ' '] + msg + seq!['\n']
}

/// The record to append for `msg` at time `secs`, or nothing while the log
/// has no file.
pub fn log(log_path: &Option<String>, secs: u64, msg: &str) -> (r: Option<String>)
    ensures
        log_path is None ==> r is None,
        log_path is Some ==> (r matches Some(line) && line@ == log_record(secs, msg@)),
{
    if log_path.is_none() {
        return None;
    }
    let mut v: Vec<char> = Vec::new();
    v.push('[');
    push_decimal(&mut v, secs);
    v.push(']');
    v.push(' ');
    push_str(&mut v, msg);
    v.push('\n');
    assert(v@ =~= log_record(secs, msg@));
    Some(string_of(v.as_slice()))
}

} // verus!
