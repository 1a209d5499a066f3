use todo_list::lexer::{lex, LexError, Token};
use todo_list::parser::{parse_target, Action, Expected, ParseError};

fn lex_ok(line: &str) -> Vec<Token> {
    match lex(line) {
        Ok(toks) => toks,
        Err(e) => panic!("lexing failed: {}", e.message()),
    }
}

#[test]
fn lexes_keywords_case_insensitively() {
    let toks = lex_ok("CREATE Task exit SAVE dElEtE");
    assert_eq!(toks.len(), 5);
    assert!(matches!(toks[0], Token::Create));
    assert!(matches!(toks[1], Token::Task));
    assert!(matches!(toks[2], Token::Exit));
    assert!(matches!(toks[3], Token::Save));
    assert!(matches!(toks[4], Token::Delete));
}

#[test]
fn lexes_all_keywords() {
    let toks = lex_ok("create open close complete help exit task list save delete");
    assert_eq!(toks.len(), 10);
    assert!(matches!(toks[0], Token::Create));
    assert!(matches!(toks[1], Token::Open));
    assert!(matches!(toks[2], Token::Close));
    assert!(matches!(toks[3], Token::Complete));
    assert!(matches!(toks[4], Token::Help));
    assert!(matches!(toks[5], Token::Exit));
    assert!(matches!(toks[6], Token::Task));
    assert!(matches!(toks[7], Token::List));
    assert!(matches!(toks[8], Token::Save));
    assert!(matches!(toks[9], Token::Delete));
}

#[test]
fn quoted_text_survives_verbatim() {
    let toks = lex_ok("\"a b:1, c!?  d\"");
    assert_eq!(toks.len(), 1);
    match &toks[0] {
        Token::Identifier(s) => assert_eq!(s, "a b:1, c!?  d"),
        _ => panic!("expected an identifier token"),
    }
}

#[test]
fn either_quote_opens_and_either_closes() {
    let toks = lex_ok("'path.json\" \"x'");
    assert_eq!(toks.len(), 2);
    match &toks[0] {
        Token::Identifier(s) => assert_eq!(s, "path.json"),
        _ => panic!("expected an identifier token"),
    }
    match &toks[1] {
        Token::Identifier(s) => assert_eq!(s, "x"),
        _ => panic!("expected an identifier token"),
    }
}

#[test]
fn unterminated_quote_runs_to_end_of_line() {
    let toks = lex_ok("\"no closing quote here");
    assert_eq!(toks.len(), 1);
    match &toks[0] {
        Token::Identifier(s) => assert_eq!(s, "no closing quote here"),
        _ => panic!("expected an identifier token"),
    }
}

#[test]
fn lexes_numbers() {
    let toks = lex_ok("complete 42");
    assert_eq!(toks.len(), 2);
    assert!(matches!(toks[1], Token::Number(42)));
}

#[test]
fn number_overflow_is_invalid() {
    match lex("99999999999999999999999999") {
        Err(LexError::InvalidNumber(w)) => {
            assert_eq!(w, "99999999999999999999999999");
        }
        _ => panic!("expected an invalid-number error"),
    }
}

#[test]
fn unknown_word_is_invalid_token() {
    match lex("creat list \"x\"") {
        Err(LexError::InvalidToken(w)) => {
            assert_eq!(w, "creat");
        }
        _ => panic!("expected an invalid-token error"),
    }
}

#[test]
fn stray_punctuation_is_invalid_token() {
    match lex("complete @1") {
        Err(LexError::InvalidToken(w)) => assert_eq!(w, "@"),
        _ => panic!("expected an invalid-token error"),
    }
}

#[test]
fn whitespace_only_line_has_no_tokens() {
    let toks = lex_ok(" \t \r\n");
    assert_eq!(toks.len(), 0);
}

#[test]
fn lex_error_messages_name_the_offence() {
    match lex("xyzzy") {
        Err(e) => assert_eq!(e.message(), "Invalid token: xyzzy"),
        Ok(_) => panic!("expected an error"),
    }
    match lex("123456789012345678901234567890") {
        Err(e) => assert_eq!(
            e.message(),
            "Invalid number: 123456789012345678901234567890"
        ),
        Ok(_) => panic!("expected an error"),
    }
}

#[test]
fn parses_open() {
    let toks = lex_ok("open \"a.json\"");
    match parse_target(&toks) {
        Ok(Action::Open(p)) => assert_eq!(p, "a.json"),
        _ => panic!("expected an open action"),
    }
}

#[test]
fn parses_create_list() {
    let toks = lex_ok("create list \"b.json\"");
    match parse_target(&toks) {
        Ok(Action::CreateList(p)) => assert_eq!(p, "b.json"),
        _ => panic!("expected a create-list action"),
    }
}

#[test]
fn parses_create_task() {
    let toks = lex_ok("create task \"Buy milk\" 3");
    match parse_target(&toks) {
        Ok(Action::CreateTask(t, p)) => {
            assert_eq!(t, "Buy milk");
            assert_eq!(p, 3);
        }
        _ => panic!("expected a create-task action"),
    }
}

#[test]
fn create_task_priority_truncates_to_eight_bits() {
    let toks = vec![
        Token::Create,
        Token::Task,
        Token::Identifier(String::from("t")),
        Token::Number(300),
    ];
    match parse_target(&toks) {
        Ok(Action::CreateTask(_, p)) => assert_eq!(p, 44),
        _ => panic!("expected a create-task action"),
    }
}

#[test]
fn negative_number_reinterprets_as_huge_index() {
    let toks = vec![Token::Complete, Token::Number(-1)];
    match parse_target(&toks) {
        Ok(Action::Complete(i)) => assert_eq!(i, usize::MAX),
        _ => panic!("expected a complete action"),
    }
}

#[test]
fn parses_delete_list_and_delete_task() {
    let toks = lex_ok("delete list \"c.json\"");
    match parse_target(&toks) {
        Ok(Action::DeleteList(p)) => assert_eq!(p, "c.json"),
        _ => panic!("expected a delete-list action"),
    }
    let toks = lex_ok("delete task 2");
    match parse_target(&toks) {
        Ok(Action::DeleteTask(i)) => assert_eq!(i, 2),
        _ => panic!("expected a delete-task action"),
    }
}

#[test]
fn parses_complete_and_nullary_commands() {
    let toks = lex_ok("complete 7");
    match parse_target(&toks) {
        Ok(Action::Complete(i)) => assert_eq!(i, 7),
        _ => panic!("expected a complete action"),
    }
    assert!(matches!(parse_target(&lex_ok("help")), Ok(Action::Help)));
    assert!(matches!(parse_target(&lex_ok("close")), Ok(Action::Close)));
    assert!(matches!(parse_target(&lex_ok("exit")), Ok(Action::Exit)));
    assert!(matches!(parse_target(&lex_ok("save")), Ok(Action::Save)));
}

#[test]
fn empty_line_is_a_no_op() {
    assert!(matches!(parse_target(&lex_ok("")), Ok(Action::NoOp)));
}

#[test]
fn trailing_tokens_are_ignored() {
    let toks = lex_ok("close save exit");
    assert!(matches!(parse_target(&toks), Ok(Action::Close)));
}

#[test]
fn missing_follow_up_is_end_of_statement() {
    assert!(matches!(
        parse_target(&lex_ok("open")),
        Err(ParseError::UnexpectedEndOfStatement)
    ));
    assert!(matches!(
        parse_target(&lex_ok("create")),
        Err(ParseError::UnexpectedEndOfStatement)
    ));
    assert!(matches!(
        parse_target(&lex_ok("create task \"t\"")),
        Err(ParseError::UnexpectedEndOfStatement)
    ));
    assert!(matches!(
        parse_target(&lex_ok("delete task")),
        Err(ParseError::UnexpectedEndOfStatement)
    ));
    assert!(matches!(
        parse_target(&lex_ok("complete")),
        Err(ParseError::UnexpectedEndOfStatement)
    ));
}

#[test]
fn wrong_token_kind_is_reported_with_expectation() {
    match parse_target(&lex_ok("open close")) {
        Err(ParseError::UnexpectedToken(t, e)) => {
            assert!(matches!(t, Token::Close));
            assert!(matches!(e, Expected::Identifier));
        }
        _ => panic!("expected an unexpected-token error"),
    }
    match parse_target(&lex_ok("create close")) {
        Err(ParseError::UnexpectedToken(t, e)) => {
            assert!(matches!(t, Token::Close));
            assert!(matches!(e, Expected::TaskOrList));
        }
        _ => panic!("expected an unexpected-token error"),
    }
    match parse_target(&lex_ok("complete \"x\"")) {
        Err(ParseError::UnexpectedToken(t, e)) => {
            assert!(matches!(t, Token::Identifier(_)));
            assert!(matches!(e, Expected::Number));
        }
        _ => panic!("expected an unexpected-token error"),
    }
}

#[test]
fn parse_error_messages_name_token_and_expectation() {
    match parse_target(&lex_ok("open close")) {
        Err(e) => assert_eq!(e.message(), "Unexpected token Close. Expected Identifier"),
        _ => panic!("expected an error"),
    }
    match parse_target(&lex_ok("open")) {
        Err(e) => assert_eq!(e.message(), "Unexpected end of statement"),
        _ => panic!("expected an error"),
    }
}

#[test]
fn parse_error_messages_carry_the_token_payload() {
    match parse_target(&vec![Token::Open, Token::Number(3)]) {
        Err(e) => assert_eq!(e.message(), "Unexpected token Number(3). Expected Identifier"),
        _ => panic!("expected an error"),
    }
    match parse_target(&vec![Token::Open, Token::Number(-7)]) {
        Err(e) => assert_eq!(e.message(), "Unexpected token Number(-7). Expected Identifier"),
        _ => panic!("expected an error"),
    }
    match parse_target(&vec![Token::Complete, Token::Identifier(String::from("x y"))]) {
        Err(e) => assert_eq!(
            e.message(),
            "Unexpected token Identifier(\"x y\"). Expected Number"
        ),
        _ => panic!("expected an error"),
    }
}

#[test]
fn words_use_full_unicode_classes() {
    // a word containing a non-ASCII letter is consumed and reported whole
    match lex("a\u{00E9}") {
        Err(LexError::InvalidToken(w)) => assert_eq!(w, "a\u{00E9}"),
        _ => panic!("expected an invalid-token error"),
    }
    // a keyword cased through a character that lowercases into ASCII matches
    let toks = lex_ok("tas\u{212A}");
    assert_eq!(toks.len(), 1);
    assert!(matches!(toks[0], Token::Task));
}

#[test]
fn non_ascii_digit_runs_are_invalid_numbers() {
    match lex("\u{0663}") {
        Err(LexError::InvalidNumber(w)) => assert_eq!(w, "\u{0663}"),
        _ => panic!("expected an invalid-number error"),
    }
    match lex("12\u{0663}4") {
        Err(LexError::InvalidNumber(w)) => assert_eq!(w, "12\u{0663}4"),
        _ => panic!("expected an invalid-number error"),
    }
}
