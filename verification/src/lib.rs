//! A verified command interpreter for an interactive, JSON-backed to-do list:
//! a lexer for the command language, a parser producing a closed set of
//! actions, the in-memory task store, the session state machine that sequences
//! file lifecycle with task mutation, and the codec for the backing file.
use vstd::prelude::*;

pub mod codec;
pub mod lexer;
pub mod parser;
pub mod session;
pub mod tasks;
pub mod text;

use lexer::{lex, lex_error_message, lex_spec, LexError, LexErrorModel};
use parser::{parse_error_message, parse_spec, parse_target, Action, ActionModel, ParseError,
    ParseErrorModel};

verus! {

/// What can be wrong with one input line: either a token or the grammar.
pub enum CommandError {
    Lex(LexError),
    Parse(ParseError),
}

/// Mathematical image of a command error.
pub enum CommandErrorModel {
    Lex(LexErrorModel),
    Parse(ParseErrorModel),
}

impl View for CommandError {
    type V = CommandErrorModel;

    open spec fn view(&self) -> CommandErrorModel {
        match self {
            CommandError::Lex(e) => CommandErrorModel::Lex(e@),
            CommandError::Parse(e) => CommandErrorModel::Parse(e@),
        }
    }
}

/// The report line for a command error.
pub open spec fn command_error_message(e: CommandErrorModel) -> Seq<char> {
    match e {
        CommandErrorModel::Lex(le) => lex_error_message(le),
        CommandErrorModel::Parse(pe) => parse_error_message(pe),
    }
}

impl CommandError {
    /// Renders the error as its report line: exactly `command_error_message`.
    pub fn message(&self) -> (s: String)
        ensures
            s@ == command_error_message(self@),
    {
        match self {
            CommandError::Lex(e) => e.message(),
            CommandError::Parse(e) => e.message(),
        }
    }
}

/// What one input line means: its tokens parsed into an action, or the first
/// error on the way there.
pub open spec fn line_spec(s: Seq<char>) -> Result<ActionModel, CommandErrorModel> {
    match lex_spec(s) {
        Ok(ts) => match parse_spec(ts) {
            Ok(a) => Ok(a),
            Err(e) => Err(CommandErrorModel::Parse(e)),
        },
        Err(e) => Err(CommandErrorModel::Lex(e)),
    }
}

/// Turns one input line into the action it commands: exactly what `line_spec`
/// says of the line's characters.
pub fn line_to_action(line: &str) -> (r: Result<Action, CommandError>)
    ensures
        (match r {
            Ok(a) => line_spec(line@) == Ok::<ActionModel, CommandErrorModel>(a@),
            Err(e) => line_spec(line@) == Err::<ActionModel, CommandErrorModel>(e@),
        }),
{
    match lex(line) {
        Ok(tokens) => match parse_target(&tokens) {
            Ok(a) => Ok(a),
            Err(e) => Err(CommandError::Parse(e)),
        },
        Err(e) => Err(CommandError::Lex(e)),
    }
}

} // verus!
