//! Launching at login: the command Windows is told to run, and which autostart errors mean
//! only that there was nothing registered.
use vstd::prelude::*;

use crate::text::{chars_of, contains, contains_exec, lower_seq, lowercase, push_str, string_of};

verus! {

/// The argument a login launch starts the app with.
pub const AUTOSTART_ARGUMENT: &'static str = "--autostart";

/// The Run-key command: the executable's path in quotes, then the autostart argument.
pub fn windows_autostart_command(executable: &str) -> (s: String)
    ensures
        s@ == seq!['"'] + executable@ + seq!['"', ' '] + AUTOSTART_ARGUMENT@,
{
    let mut m: Vec<char> = Vec::new();
    m.push('"');
    push_str(&mut m, executable);
    m.push('"');
    m.push(' ');
    push_str(&mut m, AUTOSTART_ARGUMENT);
    string_of(m.as_slice())
}

/// An autostart error that only says the entry was not there, in any ASCII case.
pub open spec fn not_found_error(message: Seq<char>) -> bool {
    let m = lower_seq(message);
    contains(m, "os error 2"@) || contains(m, "the system cannot find the file"@) || contains(
        m,
        "cannot find the file specified"@,
    )
}

pub fn is_autostart_not_found_error(message: &str) -> (b: bool)
    ensures
        b == not_found_error(message@),
{
    let m = lowercase(chars_of(message).as_slice());
    contains_exec(m.as_slice(), chars_of("os error 2").as_slice())
        || contains_exec(m.as_slice(), chars_of("the system cannot find the file").as_slice())
        || contains_exec(m.as_slice(), chars_of("cannot find the file specified").as_slice())
}

/// Whether launching at login is on, from what asking the system answered: its answer, or,
/// when it was being turned off and the entry is simply gone, off; any other error stands.
pub fn launch_state_from_query(enabled: bool, query: Result<bool, String>) -> (r: Result<bool, String>)
    ensures
        match query {
            Ok(state) => r == Ok::<bool, String>(state),
            Err(e) => if !enabled && not_found_error(e@) {
                r == Ok::<bool, String>(false)
            } else {
                r matches Err(m) && m@ == e@
            },
        },
{
    match query {
        Ok(state) => Ok(state),
        Err(e) => {
            if !enabled && is_autostart_not_found_error(e.as_str()) {
                Ok(false)
            } else {
                Err(e)
            }
        },
    }
}

} // verus!
