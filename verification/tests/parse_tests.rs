use lua_comment_stripper::parse::{diagnostic, parse_statements, ParseFailure, StripError};

#[test]
fn parse_statements_yields_each_statement() {
    assert_eq!(parse_statements(b"").map(|s| s.len()), Ok(0));
    assert_eq!(parse_statements(b"-- hi\n").map(|s| s.len()), Ok(0));
    assert_eq!(parse_statements(b"local x = 1 -- set x\n").map(|s| s.len()), Ok(1));
    let src = b"local x = 1\nlocal function f() return x end\nprint(f())\n";
    assert_eq!(parse_statements(src).map(|s| s.len()), Ok(3));
}

#[test]
fn parse_statements_keeps_the_comments_with_their_statement() {
    let statements = parse_statements(b"local x = 1 -- set x\n").unwrap();
    assert_eq!(statements[0].comments.len(), 1);
    assert_eq!(statements[0].comments[0].span.start, 12);
}

#[test]
fn parse_statements_stops_at_the_first_malformed_statement() {
    let res = parse_statements(b"local x = 1\nlocal = 2\nlocal = 3\n").map(|s| s.len());
    match res {
        Err(StripError::Malformed(ParseFailure::UnexpectedToken { offset, message })) => {
            assert_eq!(offset, 18);
            assert_eq!(message, "Expected Punct(OpenParen) found Punct(Equal)");
        }
        other => panic!("unexpected result: {:?}", other),
    }
}

#[test]
fn parse_statements_reports_the_end_of_input() {
    let res = parse_statements(b"local x =").map(|s| s.len());
    assert_eq!(res, Err(StripError::Malformed(ParseFailure::UnexpectedEof)));
}

#[test]
fn parse_statements_turns_down_an_open_long_bracket() {
    let res = parse_statements(b"x = 1 --[[ never closed").map(|s| s.len());
    assert_eq!(res, Err(StripError::OpenLongBracket { offset: 8 }));
}

#[test]
fn diagnostic_of_an_unexpected_token_shows_the_line() {
    let lua = b"local x = 1\nlocal = 2\n";
    let error = StripError::Malformed(ParseFailure::UnexpectedToken {
        offset: 18,
        message: "Expected name found Punct(Equal)".to_string(),
    });
    assert_eq!(
        diagnostic(lua, &error),
        "Unexpected token: Expected name found Punct(Equal)\nlocal = 2\n      ^"
    );
}

#[test]
fn diagnostic_of_the_other_errors() {
    assert_eq!(
        diagnostic(b"local x =", &StripError::Malformed(ParseFailure::UnexpectedEof)),
        "Error parsing: Unexpected End of Input"
    );
    assert_eq!(
        diagnostic(b"x = 1\ny = [[ab", &StripError::OpenLongBracket { offset: 10 }),
        "Error parsing: long bracket is never closed\ny = [[ab\n    ^"
    );
}

#[test]
fn diagnostic_of_a_parsed_failure() {
    let lua = b"local = 2\n";
    let error = parse_statements(lua).map(|s| s.len()).unwrap_err();
    assert_eq!(
        diagnostic(lua, &error),
        "Unexpected token: Expected Punct(OpenParen) found Punct(Equal)\nlocal = 2\n      ^"
    );
}

#[test]
fn diagnostic_of_an_offset_past_the_end_names_the_offset() {
    let error = StripError::Malformed(ParseFailure::UnexpectedToken {
        offset: 99,
        message: "Expected name".to_string(),
    });
    assert_eq!(
        diagnostic(b"x = 1", &error),
        "Error parsing: Unexpected token starting at byte 99: Expected name"
    );
    assert_eq!(
        diagnostic(b"x = 1", &StripError::OpenLongBracket { offset: 6 }),
        "Error parsing: long bracket is never closed at byte 6"
    );
}

#[test]
fn a_bracket_in_a_string_does_not_hide_a_malformed_statement() {
    let lua = b"print(\"[[\")\nlocal = 2\n";
    let error = parse_statements(lua).map(|s| s.len()).unwrap_err();
    assert_eq!(
        diagnostic(lua, &error),
        "Unexpected token: Expected Punct(OpenParen) found Punct(Equal)\nlocal = 2\n      ^"
    );
    assert_eq!(parse_statements(b"print(\"[[\")\n-- see [[wiki\n").map(|s| s.len()), Ok(1));
}

#[test]
fn parse_statements_keeps_the_order_of_the_buffer() {
    let statements = parse_statements(b"a = 1\nb = 2\nc = 3\n").unwrap();
    let starts: Vec<Option<usize>> = statements.iter().map(|s| s.start()).collect();
    assert_eq!(starts, vec![Some(0), Some(6), Some(12)]);
}

#[test]
fn a_malformed_statement_before_an_open_bracket_is_reported_first() {
    let lua = b"x = = 1\ny = [[ open";
    let error = parse_statements(lua).map(|s| s.len()).unwrap_err();
    let message = match &error {
        StripError::Malformed(ParseFailure::UnexpectedToken { offset, message }) => {
            assert_eq!(*offset, 4);
            message.clone()
        }
        other => panic!("unexpected error: {:?}", other),
    };
    assert_eq!(
        diagnostic(lua, &error),
        format!("Unexpected token: {message}\nx = = 1\n    ^")
    );
}

#[test]
fn an_open_bracket_ends_the_input_of_the_statement_before_it() {
    assert_eq!(
        parse_statements(b"y = [[ open").map(|s| s.len()),
        Err(StripError::OpenLongBracket { offset: 4 })
    );
    assert_eq!(
        parse_statements(b"x = 1\nf(\n--[==[ open ]=]").map(|s| s.len()),
        Err(StripError::OpenLongBracket { offset: 11 })
    );
    assert_eq!(
        parse_statements(b"x = 1\ny = 2 [[ open").map(|s| s.len()),
        Err(StripError::OpenLongBracket { offset: 12 })
    );
}
