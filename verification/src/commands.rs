//! The developer tool suite's commands: their options, the result they
//! give, and the choice of the command to run.

use vstd::prelude::*;
use crate::epochtime::EpochTime;
use crate::text::{push_signed_decimal, signed_decimal};

verus! {

/// What a command gives: its text on success, a message on failure.
pub type CommandResult = Result<String, String>;

/// A command of the suite, run at a level of verbosity.
pub trait HdctCommand {
    /// Whether the command can run to its end on its options.
    spec fn runnable(&self) -> bool;

    fn run(self, verbosity: i32) -> CommandResult
        requires
            self.runnable(),
    ;
}

/// Creates a UUID.
pub struct Uuid {
    /// Format of the resulting uuids - with or without hyphens
    pub hyphens: bool,
    /// Convert the uuid to upper case
    pub upper: bool,
}

/// A simple test command.
pub struct Test {
    /// Print debug info
    pub debug: bool,
}

impl HdctCommand for Uuid {
    open spec fn runnable(&self) -> bool {
        true
    }

    /// A fresh version-4 UUID as text, in the form the options ask for.
    /// Drawing the random bytes panics where the operating system's random
    /// source fails.
    fn run(self, verbosity: i32) -> (r: CommandResult)
        ensures
            r matches Ok(s) && exists|b: Seq<u8>|
                crate::uuidgen::is_v4(b) && s@ == crate::uuidgen::uuid_text(
                    b,
                    self.hyphens,
                    self.upper,
                ),
    {
        Ok(crate::uuidgen::generate_uuid(self.hyphens, self.upper))
    }
}


/// The command that the suite is asked to run.
pub enum SubCommand {
    Uuid(Uuid),
    EpochTime(EpochTime),
}

/// A suite (in progress!) of handy developer command line tools.
pub struct Opts {
    /// A level of verbosity, and can be used multiple times
    pub verbose: i32,
    /// Place the result of the command on the clipboard
    pub clipboard: bool,
    /// The required subcommand
    pub subcmd: SubCommand,
}

/// Whether the chosen command can run to its end.
pub open spec fn subcommand_runnable(subcmd: SubCommand) -> bool {
    match subcmd {
        SubCommand::Uuid(u) => u.runnable(),
        SubCommand::EpochTime(e) => e.runnable(),
    }
}

/// Runs the chosen command. The commands read the system clock or the
/// operating system's random source, and panic where those fail (see each
/// command's `run`).
pub fn run_subcommand(subcmd: SubCommand, verbosity: i32) -> (r: CommandResult)
    requires
        subcommand_runnable(subcmd),
    ensures
        subcmd matches SubCommand::Uuid(u) ==> r matches Ok(s) && exists|b: Seq<u8>|
            crate::uuidgen::is_v4(b) && s@ == crate::uuidgen::uuid_text(b, u.hyphens, u.upper),
        subcmd matches SubCommand::EpochTime(e) ==> r matches Ok(s) && exists|
            now_secs: i64,
            now_nanos: u32,
        |
            crate::epochtime::now_ok(now_secs, now_nanos) && s@
                == crate::epochtime::epoch_summary_text(
                e.input,
                crate::epochtime::utc_display(e.input),
                now_secs,
                now_nanos,
            ),
{
    match subcmd {
        SubCommand::Uuid(u) => u.run(verbosity),
        SubCommand::EpochTime(e) => e.run(verbosity),
    }
}

/// The line announcing the verbosity, printed when the level is not zero.
pub fn verbosity_message(verbose: i32) -> (r: Option<String>)
    ensures
        verbose == 0 <==> r is None,
        r matches Some(s) ==> s@ == "Verbosity level "@ + signed_decimal(verbose as int),
{
    if verbose == 0 {
        None
    } else {
        let mut s = String::new();
        s.append("Verbosity level ");
        push_signed_decimal(&mut s, verbose as i64);
        Some(s)
    }
}

/// The line a command prints before it runs at a verbosity above zero.
pub fn announcement(subcmd: &SubCommand, verbosity: i32) -> (r: Option<String>)
    ensures
        verbosity <= 0 <==> r is None,
        r matches Some(s) ==> (subcmd matches SubCommand::Uuid(_) ==> s@ == "Creating UUID"@),
        r matches Some(s) ==> (subcmd matches SubCommand::EpochTime(e) ==> s@
            == "Creating epoch time value from "@ + signed_decimal(e.input as int)),
{
    if verbosity <= 0 {
        return None;
    }
    match subcmd {
        SubCommand::Uuid(_) => Some("Creating UUID".to_owned()),
        SubCommand::EpochTime(e) => {
            let mut s = String::new();
            s.append("Creating epoch time value from ");
            push_signed_decimal(&mut s, e.input);
            Some(s)
        },
    }
}

/// What goes on the clipboard after a command: its text, when it succeeded
/// and the clipboard was asked for.
pub fn clipboard_text(clipboard: bool, result: &CommandResult) -> (r: Option<String>)
    ensures
        r is Some <==> clipboard && result is Ok,
        r matches Some(t) ==> t@ == result->Ok_0@,
{
    match result {
        Ok(t) => {
            if clipboard {
                Some(t.clone())
            } else {
                None
            }
        },
        Err(_) => None,
    }
}

} // verus!
