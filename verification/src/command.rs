//! Commands for other programs to run.
use crate::text::{opt_view, views};
use vstd::prelude::*;

verus! {

/// A program with its arguments, run directly and not through a shell.
#[derive(Debug, Clone, PartialEq, Eq)]
pub struct CommandSpec {
    pub program: String,
    pub args: Vec<String>,
    /// Where it runs, where that is not the directory of the server.
    pub current_dir: Option<String>,
}

pub struct CommandView {
    pub program: Seq<char>,
    pub args: Seq<Seq<char>>,
    pub current_dir: Option<Seq<char>>,
}

impl View for CommandSpec {
    type V = CommandView;

    open spec fn view(&self) -> CommandView {
        CommandView {
            program: self.program@,
            args: views(self.args@),
            current_dir: opt_view(self.current_dir),
        }
    }
}

/// What an optional command says.
pub open spec fn opt_command_view(c: Option<CommandSpec>) -> Option<CommandView> {
    match c {
        Some(c) => Some(c@),
        None => None,
    }
}

/// The strings of a list, as owned strings.
pub fn owned(items: &[&str]) -> (r: Vec<String>)
    ensures
        views(r@) == items@.map_values(|s: &str| s@),
{
    let mut r: Vec<String> = Vec::new();
    let mut i: usize = 0;
    assert(views(r@) =~= items@.take(0).map_values(|s: &str| s@));
    while i < items.len()
        invariant
            i <= items@.len(),
            views(r@) == items@.take(i as int).map_values(|s: &str| s@),
        decreases items@.len() - i,
    {
        let ghost before = r@;
        r.push(items[i].to_owned());
        proof {
            assert(views(r@) =~= views(before).push(items@[i as int]@));
            assert(items@.take(i + 1) =~= items@.take(i as int).push(items@[i as int]));
            assert(views(r@) =~= items@.take(i + 1).map_values(|s: &str| s@));
        }
        i = i + 1;
    }
    assert(items@.take(i as int) =~= items@);
    r
}

} // verus!
