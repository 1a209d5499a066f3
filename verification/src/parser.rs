//! The parser: turns a token sequence into exactly one well-typed action, or
//! a descriptive error. The first token decides the rule; extra trailing
//! tokens are silently ignored.
use crate::codec::{push_int, push_lit};
use crate::lexer::{Token, TokenModel};
use crate::text::chars_to_string;
use vstd::prelude::*;

verus! {

/// A fully parsed command.
pub enum Action {
    /// Open an existing list file and work on it.
    Open(String),
    /// Create a fresh list file and work on it.
    CreateList(String),
    /// Append a task with the given title and priority.
    CreateTask(String, u8),
    /// Remove a list file from the filesystem.
    DeleteList(String),
    /// Remove the task at the given 1-based index.
    DeleteTask(usize),
    /// Mark the task at the given 1-based index as completed.
    Complete(usize),
    Help,
    Close,
    Save,
    Exit,
    /// An empty line.
    NoOp,
}

/// Mathematical image of an action.
pub enum ActionModel {
    Open(Seq<char>),
    CreateList(Seq<char>),
    CreateTask(Seq<char>, u8),
    DeleteList(Seq<char>),
    DeleteTask(usize),
    Complete(usize),
    Help,
    Close,
    Save,
    Exit,
    NoOp,
}

impl View for Action {
    type V = ActionModel;

    open spec fn view(&self) -> ActionModel {
        match self {
            Action::Open(p) => ActionModel::Open(p@),
            Action::CreateList(p) => ActionModel::CreateList(p@),
            Action::CreateTask(t, n) => ActionModel::CreateTask(t@, *n),
            Action::DeleteList(p) => ActionModel::DeleteList(p@),
            Action::DeleteTask(i) => ActionModel::DeleteTask(*i),
            Action::Complete(i) => ActionModel::Complete(*i),
            Action::Help => ActionModel::Help,
            Action::Close => ActionModel::Close,
            Action::Save => ActionModel::Save,
            Action::Exit => ActionModel::Exit,
            Action::NoOp => ActionModel::NoOp,
        }
    }
}

/// The token category a rule was waiting for when it met something else.
pub enum Expected {
    Identifier,
    Number,
    TaskOrList,
    Command,
}

/// What can be wrong with a line at the level of the grammar.
pub enum ParseError {
    /// The named token stood where the named category was required.
    UnexpectedToken(Token, Expected),
    /// A required follow-up token was missing.
    UnexpectedEndOfStatement,
}

/// Mathematical image of a parse error.
pub enum ParseErrorModel {
    UnexpectedToken(TokenModel, Expected),
    UnexpectedEndOfStatement,
}

impl View for ParseError {
    type V = ParseErrorModel;

    open spec fn view(&self) -> ParseErrorModel {
        match self {
            ParseError::UnexpectedToken(t, e) => ParseErrorModel::UnexpectedToken(t@, *e),
            ParseError::UnexpectedEndOfStatement => ParseErrorModel::UnexpectedEndOfStatement,
        }
    }
}

/// The text under which a token is reported in a parse error: its name, and
/// for free text or a number also its payload.
pub open spec fn token_text(t: TokenModel) -> Seq<char> {
    match t {
        TokenModel::Open => "Open"@,
        TokenModel::Close => "Close"@,
        TokenModel::Create => "Create"@,
        TokenModel::Delete => "Delete"@,
        TokenModel::Complete => "Complete"@,
        TokenModel::Save => "Save"@,
        TokenModel::Help => "Help"@,
        TokenModel::Exit => "Exit"@,
        TokenModel::Task => "Task"@,
        TokenModel::List => "List"@,
        TokenModel::Identifier(s) => "Identifier(\""@ + s + "\")"@,
        TokenModel::Number(n) => "Number("@ + crate::codec::int_rep(n as int) + ")"@,
    }
}

/// The name under which an expected category is reported.
pub open spec fn expected_name(e: Expected) -> Seq<char> {
    match e {
        Expected::Identifier => "Identifier"@,
        Expected::Number => "Number"@,
        Expected::TaskOrList => "Task/List"@,
        Expected::Command => "a command"@,
    }
}

/// The human-readable report for a parse error: the offending token with its
/// payload, and the category the rule was waiting for.
pub open spec fn parse_error_message(e: ParseErrorModel) -> Seq<char> {
    match e {
        ParseErrorModel::UnexpectedToken(t, ex) => "Unexpected token "@ + token_text(t)
            + ". Expected "@ + expected_name(ex),
        ParseErrorModel::UnexpectedEndOfStatement => "Unexpected end of statement"@,
    }
}

/// The grammar. An empty line is a no-op; otherwise the first token picks the
/// rule, each rule demands its follow-up tokens in order, and a number is
/// reinterpreted at fixed width where a priority or an index is wanted —
/// bounds are checked at use, not here.
pub open spec fn parse_spec(ts: Seq<TokenModel>) -> Result<ActionModel, ParseErrorModel> {
    if ts.len() == 0 {
        Ok(ActionModel::NoOp)
    } else {
        match ts[0] {
            TokenModel::Open => {
                if ts.len() < 2 {
                    Err(ParseErrorModel::UnexpectedEndOfStatement)
                } else {
                    match ts[1] {
                        TokenModel::Identifier(p) => Ok(ActionModel::Open(p)),
                        t => Err(ParseErrorModel::UnexpectedToken(t, Expected::Identifier)),
                    }
                }
            },
            TokenModel::Create => {
                if ts.len() < 2 {
                    Err(ParseErrorModel::UnexpectedEndOfStatement)
                } else {
                    match ts[1] {
                        TokenModel::List => {
                            if ts.len() < 3 {
                                Err(ParseErrorModel::UnexpectedEndOfStatement)
                            } else {
                                match ts[2] {
                                    TokenModel::Identifier(p) => Ok(ActionModel::CreateList(p)),
                                    t => Err(
                                        ParseErrorModel::UnexpectedToken(t, Expected::Identifier),
                                    ),
                                }
                            }
                        },
                        TokenModel::Task => {
                            if ts.len() < 3 {
                                Err(ParseErrorModel::UnexpectedEndOfStatement)
                            } else {
                                match ts[2] {
                                    TokenModel::Identifier(title) => {
                                        if ts.len() < 4 {
                                            Err(ParseErrorModel::UnexpectedEndOfStatement)
                                        } else {
                                            match ts[3] {
                                                TokenModel::Number(n) => Ok(
                                                    ActionModel::CreateTask(title, n as u8),
                                                ),
                                                t => Err(
                                                    ParseErrorModel::UnexpectedToken(
                                                        t,
                                                        Expected::Number,
                                                    ),
                                                ),
                                            }
                                        }
                                    },
                                    t => Err(
                                        ParseErrorModel::UnexpectedToken(t, Expected::Identifier),
                                    ),
                                }
                            }
                        },
                        t => Err(ParseErrorModel::UnexpectedToken(t, Expected::TaskOrList)),
                    }
                }
            },
            TokenModel::Delete => {
                if ts.len() < 2 {
                    Err(ParseErrorModel::UnexpectedEndOfStatement)
                } else {
                    match ts[1] {
                        TokenModel::List => {
                            if ts.len() < 3 {
                                Err(ParseErrorModel::UnexpectedEndOfStatement)
                            } else {
                                match ts[2] {
                                    TokenModel::Identifier(p) => Ok(ActionModel::DeleteList(p)),
                                    t => Err(
                                        ParseErrorModel::UnexpectedToken(t, Expected::Identifier),
                                    ),
                                }
                            }
                        },
                        TokenModel::Task => {
                            if ts.len() < 3 {
                                Err(ParseErrorModel::UnexpectedEndOfStatement)
                            } else {
                                match ts[2] {
                                    TokenModel::Number(n) => Ok(
                                        ActionModel::DeleteTask(n as usize),
                                    ),
                                    t => Err(ParseErrorModel::UnexpectedToken(t, Expected::Number)),
                                }
                            }
                        },
                        t => Err(ParseErrorModel::UnexpectedToken(t, Expected::TaskOrList)),
                    }
                }
            },
            TokenModel::Complete => {
                if ts.len() < 2 {
                    Err(ParseErrorModel::UnexpectedEndOfStatement)
                } else {
                    match ts[1] {
                        TokenModel::Number(n) => Ok(ActionModel::Complete(n as usize)),
                        t => Err(ParseErrorModel::UnexpectedToken(t, Expected::Number)),
                    }
                }
            },
            TokenModel::Help => Ok(ActionModel::Help),
            TokenModel::Close => Ok(ActionModel::Close),
            TokenModel::Exit => Ok(ActionModel::Exit),
            TokenModel::Save => Ok(ActionModel::Save),
            t => Err(ParseErrorModel::UnexpectedToken(t, Expected::Command)),
        }
    }
}

fn push_token_text(buf: &mut Vec<char>, t: &Token)
    ensures
        final(buf)@ == old(buf)@ + token_text(t@),
{
    match t {
        Token::Open => push_lit(buf, "Open"),
        Token::Close => push_lit(buf, "Close"),
        Token::Create => push_lit(buf, "Create"),
        Token::Delete => push_lit(buf, "Delete"),
        Token::Complete => push_lit(buf, "Complete"),
        Token::Save => push_lit(buf, "Save"),
        Token::Help => push_lit(buf, "Help"),
        Token::Exit => push_lit(buf, "Exit"),
        Token::Task => push_lit(buf, "Task"),
        Token::List => push_lit(buf, "List"),
        Token::Identifier(s) => {
            push_lit(buf, "Identifier(\"");
            push_lit(buf, s.as_str());
            push_lit(buf, "\")");
            proof {
                assert(buf@ =~= old(buf)@ + token_text(t@));
            }
        },
        Token::Number(n) => {
            push_lit(buf, "Number(");
            push_int(buf, *n);
            push_lit(buf, ")");
            proof {
                assert(buf@ =~= old(buf)@ + token_text(t@));
            }
        },
    }
}

fn expected_name_x(e: &Expected) -> (s: &'static str)
    ensures
        s@ == expected_name(*e),
{
    match e {
        Expected::Identifier => "Identifier",
        Expected::Number => "Number",
        Expected::TaskOrList => "Task/List",
        Expected::Command => "a command",
    }
}

impl ParseError {
    /// Renders the error as its report line: exactly `parse_error_message`.
    pub fn message(&self) -> (s: String)
        ensures
            s@ == parse_error_message(self@),
    {
        match self {
            ParseError::UnexpectedToken(t, ex) => {
                let mut buf: Vec<char> = Vec::new();
                push_lit(&mut buf, "Unexpected token ");
                push_token_text(&mut buf, t);
                push_lit(&mut buf, ". Expected ");
                push_lit(&mut buf, expected_name_x(ex));
                proof {
                    assert(buf@ =~= parse_error_message(self@));
                }
                chars_to_string(&buf)
            },
            ParseError::UnexpectedEndOfStatement => String::from_str(
                "Unexpected end of statement",
            ),
        }
    }
}

/// Parses a token sequence into exactly the action `parse_spec` gives it, or
/// exactly the error `parse_spec` gives it.
pub fn parse_target(tokens: &Vec<Token>) -> (r: Result<Action, ParseError>)
    ensures
        (match r {
            Ok(a) => parse_spec(tokens.deep_view()) == Ok::<ActionModel, ParseErrorModel>(a@),
            Err(e) => parse_spec(tokens.deep_view()) == Err::<ActionModel, ParseErrorModel>(e@),
        }),
{
    let ghost ts = tokens.deep_view();
    if tokens.len() == 0 {
        return Ok(Action::NoOp);
    }
    match &tokens[0] {
        Token::Open => {
            if tokens.len() < 2 {
                Err(ParseError::UnexpectedEndOfStatement)
            } else {
                match &tokens[1] {
                    Token::Identifier(p) => Ok(Action::Open(p.clone())),
                    t => Err(ParseError::UnexpectedToken(t.clone(), Expected::Identifier)),
                }
            }
        },
        Token::Create => {
            if tokens.len() < 2 {
                Err(ParseError::UnexpectedEndOfStatement)
            } else {
                match &tokens[1] {
                    Token::List => {
                        if tokens.len() < 3 {
                            Err(ParseError::UnexpectedEndOfStatement)
                        } else {
                            match &tokens[2] {
                                Token::Identifier(p) => Ok(Action::CreateList(p.clone())),
                                t => Err(
                                    ParseError::UnexpectedToken(t.clone(), Expected::Identifier),
                                ),
                            }
                        }
                    },
                    Token::Task => {
                        if tokens.len() < 3 {
                            Err(ParseError::UnexpectedEndOfStatement)
                        } else {
                            match &tokens[2] {
                                Token::Identifier(title) => {
                                    if tokens.len() < 4 {
                                        Err(ParseError::UnexpectedEndOfStatement)
                                    } else {
                                        match &tokens[3] {
                                            Token::Number(n) => Ok(
                                                Action::CreateTask(title.clone(), *n as u8),
                                            ),
                                            t => Err(
                                                ParseError::UnexpectedToken(
                                                    t.clone(),
                                                    Expected::Number,
                                                ),
                                            ),
                                        }
                                    }
                                },
                                t => Err(
                                    ParseError::UnexpectedToken(t.clone(), Expected::Identifier),
                                ),
                            }
                        }
                    },
                    t => Err(ParseError::UnexpectedToken(t.clone(), Expected::TaskOrList)),
                }
            }
        },
        Token::Delete => {
            if tokens.len() < 2 {
                Err(ParseError::UnexpectedEndOfStatement)
            } else {
                match &tokens[1] {
                    Token::List => {
                        if tokens.len() < 3 {
                            Err(ParseError::UnexpectedEndOfStatement)
                        } else {
                            match &tokens[2] {
                                Token::Identifier(p) => Ok(Action::DeleteList(p.clone())),
                                t => Err(
                                    ParseError::UnexpectedToken(t.clone(), Expected::Identifier),
                                ),
                            }
                        }
                    },
                    Token::Task => {
                        if tokens.len() < 3 {
                            Err(ParseError::UnexpectedEndOfStatement)
                        } else {
                            match &tokens[2] {
                                Token::Number(n) => Ok(Action::DeleteTask(*n as usize)),
                                t => Err(ParseError::UnexpectedToken(t.clone(), Expected::Number)),
                            }
                        }
                    },
                    t => Err(ParseError::UnexpectedToken(t.clone(), Expected::TaskOrList)),
                }
            }
        },
        Token::Complete => {
            if tokens.len() < 2 {
                Err(ParseError::UnexpectedEndOfStatement)
            } else {
                match &tokens[1] {
                    Token::Number(n) => Ok(Action::Complete(*n as usize)),
                    t => Err(ParseError::UnexpectedToken(t.clone(), Expected::Number)),
                }
            }
        },
        Token::Help => Ok(Action::Help),
        Token::Close => Ok(Action::Close),
        Token::Exit => Ok(Action::Exit),
        Token::Save => Ok(Action::Save),
        t => Err(ParseError::UnexpectedToken(t.clone(), Expected::Command)),
    }
}

} // verus!
