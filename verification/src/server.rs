//! The lock that keeps a second server from starting.
use crate::command::{owned, CommandSpec, CommandView};
use crate::error::{ErrorView, Result, ServerError};
use crate::state::Paths;
use crate::text::{
    decimal, numbers_are_parsed_back, parse_u32, parsed_u32, to_decimal, trim, trimmed, views,
};
use vstd::prelude::*;
use vstd::string::*;

verus! {

/// The process that a lock file names.
pub open spec fn lock_owner(contents: Seq<char>) -> Option<u32> {
    parsed_u32(trimmed(contents))
}

/// Reads the process that a lock file names: a number, with white space around it.
pub fn lock_holder(contents: &str) -> (r: Option<u32>)
    ensures
        r == lock_owner(contents@),
{
    parse_u32(trim(contents))
}

/// What a process writes to its lock file.
pub fn lock_contents(pid: u32) -> (r: String)
    ensures
        r@ == decimal(pid as nat),
{
    to_decimal(pid as u64)
}

/// The command that succeeds where the process is alive.
pub open spec fn probe(pid: u32) -> CommandView {
    CommandView { program: "kill"@, args: seq!["-0"@, decimal(pid as nat)], current_dir: None }
}

/// Builds the command that tells whether a process is alive.
pub fn probe_command(pid: u32) -> (r: CommandSpec)
    ensures
        r@ == probe(pid),
{
    let number = to_decimal(pid as u64);
    let args = owned(&["-0", number.as_str()]);
    assert(views(args@) =~= seq!["-0"@, number@]);
    CommandSpec { program: "kill".to_owned(), args, current_dir: None }
}

/// What to do about a lock file before the own one is written.
#[derive(Debug, Clone, Copy, PartialEq, Eq, Structural)]
pub enum LockAction {
    /// Write over whatever there is.
    Write,
    /// Remove the lock file and the socket file of a server that is gone, then write.
    CleanUpAndWrite,
}

/// Decides on a lock file that names that process, or none. One whose process
/// lives is held.
pub fn judge_lock(paths: &Paths, holder: Option<u32>, alive: bool) -> (r: Result<LockAction>)
    ensures
        match holder {
            Some(pid) => if alive {
                r matches Err(e) && e@ == (ErrorView::LockfileHeld { pid, path: paths.lock_file@ })
            } else {
                r == Ok::<LockAction, ServerError>(LockAction::CleanUpAndWrite)
            },
            None => r == Ok::<LockAction, ServerError>(LockAction::Write),
        },
{
    match holder {
        Some(pid) => {
            if alive {
                Err(ServerError::LockfileHeld { pid, path: paths.lock_file.clone() })
            } else {
                Ok(LockAction::CleanUpAndWrite)
            }
        },
        None => Ok(LockAction::Write),
    }
}

/// A lock file names the process that wrote it.
pub proof fn locks_name_their_writer(pid: u32)
    ensures
        lock_owner(decimal(pid as nat)) == Some(pid),
{
    numbers_are_parsed_back(pid);
}

} // verus!
