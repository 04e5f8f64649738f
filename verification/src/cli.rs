//! The setup tool's command line and answers: which command the arguments
//! select, whether an answer to "Continue?" agrees, and how the Azure
//! credentials are taken from the environment or checked when prompted.

use vstd::prelude::*;

use crate::registry::{string_views, SetupError};
use crate::text::{lowercase, starts_with, str_eq, str_starts_with, to_lowercase, trim, trim_string};

verus! {

/// The voice used when a command names none.
pub const DEFAULT_TOKEN: &'static str = "AzureThomas";

/// A command of the setup tool.
#[derive(Debug)]
pub enum Command {
    /// No arguments: ask, then install.
    Interactive,
    /// Register the voices.
    Install,
    /// Remove the registration; `purge` also deletes the install directory.
    Uninstall { purge: bool },
    /// Make a voice the default.
    DefaultVoice(String),
    /// Set the speed multiplier; the argument is parsed by the caller.
    Rate(Option<String>),
    /// Speak a test sentence with a voice.
    Test(String),
    /// Anything else: print the usage.
    Usage,
}

/// Mathematical model of a [`Command`].
pub enum CommandSpec {
    Interactive,
    Install,
    Uninstall { purge: bool },
    DefaultVoice(Seq<char>),
    Rate(Option<Seq<char>>),
    Test(Seq<char>),
    Usage,
}

impl View for Command {
    type V = CommandSpec;

    open spec fn view(&self) -> CommandSpec {
        match self {
            Command::Interactive => CommandSpec::Interactive,
            Command::Install => CommandSpec::Install,
            Command::Uninstall { purge } => CommandSpec::Uninstall { purge: *purge },
            Command::DefaultVoice(t) => CommandSpec::DefaultVoice(t@),
            Command::Rate(a) => CommandSpec::Rate(
                match a {
                    Some(s) => Some(s@),
                    None => None,
                },
            ),
            Command::Test(t) => CommandSpec::Test(t@),
            Command::Usage => CommandSpec::Usage,
        }
    }
}

/// The voice token a command acts on: the second argument unless it is
/// missing or starts with `--`, else the default voice.
pub open spec fn token_arg(args: Seq<Seq<char>>) -> Seq<char> {
    if args.len() > 1 && !starts_with(args[1], "--"@) {
        args[1]
    } else {
        "AzureThomas"@
    }
}

/// Whether some argument (the command included) equals `flag`.
pub open spec fn has_flag(args: Seq<Seq<char>>, flag: Seq<char>) -> bool {
    exists|i: int| 0 <= i < args.len() && args[i] == flag
}

/// The command that the arguments (program name excluded) select.
pub open spec fn command_of(args: Seq<Seq<char>>) -> CommandSpec {
    let cmd = if args.len() > 0 {
        args[0]
    } else {
        Seq::empty()
    };
    if cmd.len() == 0 {
        CommandSpec::Interactive
    } else if cmd == "install"@ {
        CommandSpec::Install
    } else if cmd == "uninstall"@ {
        CommandSpec::Uninstall { purge: has_flag(args, "--purge"@) }
    } else if cmd == "default-voice"@ {
        CommandSpec::DefaultVoice(token_arg(args))
    } else if cmd == "rate"@ {
        CommandSpec::Rate(
            if args.len() > 1 {
                Some(args[1])
            } else {
                None
            },
        )
    } else if cmd == "test"@ {
        CommandSpec::Test(token_arg(args))
    } else {
        CommandSpec::Usage
    }
}

fn has_flag_exec(args: &Vec<String>, flag: &str) -> (b: bool)
    ensures
        b == has_flag(string_views(args@), flag@),
{
    let mut i: usize = 0;
    while i < args.len()
        invariant
            i <= args@.len(),
            forall|k: int| 0 <= k < i ==> args@[k]@ != flag@,
        decreases args@.len() - i,
    {
        if str_eq(args[i].as_str(), flag) {
            assert(string_views(args@)[i as int] == flag@);
            return true;
        }
        i = i + 1;
    }
    assert forall|k: int| 0 <= k < args@.len() implies string_views(args@)[k] != flag@ by {
        assert(string_views(args@)[k] == args@[k]@);
    }
    false
}

fn token_arg_exec(args: &Vec<String>) -> (t: String)
    ensures
        t@ == token_arg(string_views(args@)),
{
    if args.len() > 1 && !str_starts_with(args[1].as_str(), "--") {
        args[1].clone()
    } else {
        String::from_str(DEFAULT_TOKEN)
    }
}

/// Selects the command (see [`command_of`]).
pub fn parse_command(args: &Vec<String>) -> (c: Command)
    ensures
        c@ == command_of(string_views(args@)),
{
    let ghost a = string_views(args@);
    if args.len() == 0 || args[0].as_str().is_empty() {
        return Command::Interactive;
    }
    assert(a[0] == args@[0]@);
    let cmd = args[0].as_str();
    if str_eq(cmd, "install") {
        Command::Install
    } else if str_eq(cmd, "uninstall") {
        Command::Uninstall { purge: has_flag_exec(args, "--purge") }
    } else if str_eq(cmd, "default-voice") {
        Command::DefaultVoice(token_arg_exec(args))
    } else if str_eq(cmd, "rate") {
        if args.len() > 1 {
            assert(a[1] == args@[1]@);
            Command::Rate(Some(args[1].clone()))
        } else {
            Command::Rate(None)
        }
    } else if str_eq(cmd, "test") {
        Command::Test(token_arg_exec(args))
    } else {
        Command::Usage
    }
}

/// Whether an answer to "Continue? [Y/n]" agrees: empty, `y` or `yes`,
/// ignoring surrounding whitespace and case.
pub open spec fn agrees(line: Seq<char>) -> bool {
    let a = lowercase(trim(line));
    a == Seq::<char>::empty() || a == "y"@ || a == "yes"@
}

/// Whether an answer agrees (see [`agrees`]).
pub fn is_affirmative(line: &str) -> (b: bool)
    ensures
        b == agrees(line@),
{
    let t = trim_string(line);
    let a = to_lowercase(t.as_str());
    assert(a@.len() == 0 ==> a@ =~= Seq::<char>::empty());
    a.as_str().is_empty() || str_eq(a.as_str(), "y") || str_eq(a.as_str(), "yes")
}

/// A credential taken from the environment: its trimmed value when that is
/// not empty; otherwise the user is asked.
pub fn env_credential(value: Option<String>) -> (r: Option<String>)
    ensures
        value matches Some(v) && trim(v@).len() > 0 ==> (r matches Some(t) && t@ == trim(
            value->0@,
        )),
        !(value matches Some(v) && trim(v@).len() > 0) ==> r is None,
{
    match value {
        Some(v) => {
            let t = trim_string(v.as_str());
            if t.as_str().is_empty() {
                None
            } else {
                Some(t)
            }
        },
        None => None,
    }
}

/// Accepts the region and key only when both are given.
pub fn check_credentials(region: String, key: String) -> (r: Result<(String, String), SetupError>)
    ensures
        r is Err <==> region@.len() == 0 || key@.len() == 0,
        r matches Err(e) ==> e is MissingCredentials,
        r matches Ok(p) ==> p.0 == region && p.1 == key,
{
    if region.as_str().is_empty() || key.as_str().is_empty() {
        Err(SetupError::MissingCredentials)
    } else {
        Ok((region, key))
    }
}

/// Law: `test` and `default-voice` act on the voice named after them. With
/// a second argument that does not start with `--`, the command carries
/// exactly that argument; otherwise it carries the default voice
/// `AzureThomas`. Both commands follow the same rule.
pub proof fn law_voice_commands_take_their_token(args: Seq<Seq<char>>)
    requires
        args.len() >= 1,
        args[0] == "test"@ || args[0] == "default-voice"@,
    ensures
        ({
            let t = if args.len() >= 2 && !starts_with(args[1], "--"@) {
                args[1]
            } else {
                "AzureThomas"@
            };
            &&& args[0] == "test"@ ==> command_of(args) == CommandSpec::Test(t)
            &&& args[0] == "default-voice"@ ==> command_of(args) == CommandSpec::DefaultVoice(t)
        }),
{
    reveal_strlit("test");
    reveal_strlit("default-voice");
    reveal_strlit("install");
    reveal_strlit("uninstall");
    reveal_strlit("rate");
    assert("test"@.len() == 4);
    assert("default-voice"@.len() == 13);
    assert("install"@.len() == 7);
    assert("uninstall"@.len() == 9);
    assert("test"@[0] != "rate"@[0]);
    assert("test"@ != "rate"@);
    assert("test"@ != "install"@);
    assert("test"@ != "uninstall"@);
    assert("test"@ != "default-voice"@);
    assert("default-voice"@ != "install"@);
    assert("default-voice"@ != "uninstall"@);
}

/// Whether some argument is `--purge`.
pub open spec fn has_purge(args: Seq<Seq<char>>) -> bool {
    exists|i: int| 0 <= i < args.len() && args[i] == "--purge"@
}

/// Law: the other commands. No arguments, or an empty first one, is the
/// interactive install; `install` installs; `uninstall` uninstalls, purging
/// exactly when some argument is `--purge`; `rate` carries its second
/// argument as given, or none; any other word is the usage.
pub proof fn law_other_commands(args: Seq<Seq<char>>)
    ensures
        args.len() == 0 || args[0].len() == 0 ==> command_of(args) == CommandSpec::Interactive,
        args.len() >= 1 && args[0] == "install"@ ==> command_of(args) == CommandSpec::Install,
        args.len() >= 1 && args[0] == "uninstall"@ ==> command_of(args) == (CommandSpec::Uninstall {
            purge: has_purge(args),
        }),
        args.len() >= 1 && args[0] == "rate"@ ==> command_of(args) == CommandSpec::Rate(
            if args.len() >= 2 {
                Some(args[1])
            } else {
                None
            },
        ),
        args.len() >= 1 && args[0].len() > 0 && args[0] != "install"@ && args[0] != "uninstall"@
            && args[0] != "default-voice"@ && args[0] != "rate"@ && args[0] != "test"@
            ==> command_of(args) == CommandSpec::Usage,
{
    reveal_strlit("test");
    reveal_strlit("default-voice");
    reveal_strlit("install");
    reveal_strlit("uninstall");
    reveal_strlit("rate");
    assert("default-voice"@.len() == 13);
    assert("install"@.len() == 7);
    assert("uninstall"@.len() == 9);
    assert("rate"@.len() == 4);
    assert("install"@ != "uninstall"@);
    assert("uninstall"@ != "install"@);
    assert("rate"@ != "install"@);
    assert("rate"@ != "uninstall"@);
    assert("rate"@ != "default-voice"@);
}

} // verus!
