//! The kinds of command the surrounding program can ask the ledger to run.

use vstd::prelude::*;

verus! {

/// Which operation a parsed command line asks for.
#[derive(Debug)]
pub enum CommandKind {
    NoCommand,
    InitCommand,
    AddCommand,
    EpicCommand,
    ListCommand,
    HtmlCommand,
}

} // verus!
