//! The command error shared by the budget commands.

use vstd::prelude::*;

verus! {

/// Why a command was refused.
#[derive(Debug)]
pub enum CommandError {
    Validation(String),
    Conflict(String),
    NotFound(String),
}

/// The mathematical value of a command error.
pub enum CommandErrorView {
    Validation(Seq<char>),
    Conflict(Seq<char>),
    NotFound(Seq<char>),
}

impl View for CommandError {
    type V = CommandErrorView;

    open spec fn view(&self) -> CommandErrorView {
        match self {
            CommandError::Validation(m) => CommandErrorView::Validation(m@),
            CommandError::Conflict(m) => CommandErrorView::Conflict(m@),
            CommandError::NotFound(m) => CommandErrorView::NotFound(m@),
        }
    }
}

} // verus!
