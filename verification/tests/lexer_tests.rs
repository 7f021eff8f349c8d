use lua_comment_stripper::brackets::first_open_long_bracket;
use lua_comment_stripper::lexer::lex;
use lua_comment_stripper::token::{bytes_equal, Span, Token, TokenKind};

fn kinds(tokens: &[Token]) -> Vec<TokenKind> {
    tokens.iter().map(|t| t.kind).collect()
}

#[test]
fn lex_reads_a_local_assignment() {
    let tokens = lex(b"local x = 1 -- set x\n").unwrap();
    assert_eq!(
        kinds(&tokens),
        vec![
            TokenKind::Keyword,
            TokenKind::Name,
            TokenKind::Punct,
            TokenKind::Numeral,
            TokenKind::Comment
        ]
    );
    assert_eq!(tokens[0].text, b"local".to_vec());
    assert_eq!(tokens[1].text, b"x".to_vec());
    assert_eq!(tokens[2].text, b"Equal".to_vec());
    assert_eq!(tokens[3].text, b"1".to_vec());
    assert_eq!(tokens[4].text, b"-- set x".to_vec());
    assert_eq!(tokens[0].span, Span { start: 0, end: 5 });
    assert_eq!(tokens[1].span, Span { start: 6, end: 7 });
    assert_eq!(tokens[4].span, Span { start: 12, end: 20 });
}

#[test]
fn lex_of_an_empty_buffer_is_empty() {
    assert_eq!(lex(b""), Ok(vec![]));
    assert_eq!(lex(b"  \n\t ").map(|t| t.len()), Ok(0));
}

#[test]
fn lex_reads_strings_and_long_brackets() {
    let tokens = lex(b"s = 'a' .. [[b]] --[==[ c ]==]").unwrap();
    assert_eq!(
        kinds(&tokens),
        vec![
            TokenKind::Name,
            TokenKind::Punct,
            TokenKind::LiteralString,
            TokenKind::Punct,
            TokenKind::LiteralString,
            TokenKind::Comment
        ]
    );
    assert_eq!(tokens[2].text, b"'a'".to_vec());
    assert_eq!(tokens[3].text, b"DoubleDot".to_vec());
    assert_eq!(tokens[4].text, b"[[b]]".to_vec());
    assert_eq!(tokens[5].text, b"--[==[ c ]==]".to_vec());
}

#[test]
fn lex_marks_what_it_cannot_classify() {
    let tokens = lex(b"x = $").unwrap();
    assert_eq!(tokens[2].kind, TokenKind::Unknown);
    assert_eq!(tokens[2].text, b"$".to_vec());
    assert_eq!(tokens[2].span, Span { start: 4, end: 5 });
    let tokens = lex(b"x = \"abc").unwrap();
    assert_eq!(tokens[2].kind, TokenKind::Unknown);
    assert_eq!(tokens[2].span.start, 4);
}

#[test]
fn lex_turns_down_an_open_long_bracket() {
    assert_eq!(lex(b"x = 1 --[[ never closed"), Err(8));
    assert_eq!(lex(b"x = [==[ abc ]=]"), Err(4));
    assert_eq!(lex(b"x = [[ abc ]]").map(|t| t.len()), Ok(3));
}

#[test]
fn every_token_lies_in_its_buffer() {
    let src = b"local function f(a, b) return a + b end -- sum\n";
    for t in lex(src).unwrap() {
        assert!(t.span.start < t.span.end);
        assert!(t.span.end <= src.len());
    }
}

#[test]
fn first_open_long_bracket_finds_the_bracket_that_nothing_closes() {
    assert_eq!(first_open_long_bracket(b""), None);
    assert_eq!(first_open_long_bracket(b"a[1] = b[2]"), None);
    assert_eq!(first_open_long_bracket(b"[[x]]"), None);
    assert_eq!(first_open_long_bracket(b"[=[x]=]"), None);
    assert_eq!(first_open_long_bracket(b"[==[x]==]"), None);
    assert_eq!(first_open_long_bracket(b"[[x]"), Some(0));
    assert_eq!(first_open_long_bracket(b"[=[x]]"), Some(0));
    assert_eq!(first_open_long_bracket(b"[[a]] [==[x]=]"), Some(6));
    assert_eq!(first_open_long_bracket(b"[[a]] [=[b]=] [["), Some(14));
    assert_eq!(first_open_long_bracket(b"[="), Some(0));
    assert_eq!(first_open_long_bracket(b"a[[1]]"), None);
    assert_eq!(first_open_long_bracket(b"["), None);
    assert_eq!(first_open_long_bracket(b"]]"), None);
    assert_eq!(first_open_long_bracket(b"--[[ x"), Some(2));
    assert_eq!(first_open_long_bracket(b"--[==[ x ]=]"), Some(2));
    assert_eq!(first_open_long_bracket(b"--[==[ x ]==]"), None);
    assert_eq!(first_open_long_bracket(b"--[== x"), None);
}

#[test]
fn a_closing_sequence_before_the_opening_one_does_not_count() {
    assert_eq!(first_open_long_bracket(b"]] [["), Some(3));
    assert_eq!(first_open_long_bracket(b"]=] [=["), Some(4));
}

#[test]
fn an_opening_sequence_in_a_string_or_a_line_comment_opens_nothing() {
    let sources: [&[u8]; 12] = [
        b"\"[[\"",
        b"print(\"[[\")",
        b"s:find(\"[[]\")",
        b"-- see [[wiki\nx = 1",
        b"x = '[==['",
        b"x = \"a\\\"[[\"",
        b"x = '\\\\' y = 1",
        b"-- [=[\n",
        b"x = 1 - -- [[ y",
        b"--x [[",
        b"x = \"[[",
        b"# [[ not at the start",
    ];
    for src in sources {
        assert_eq!(first_open_long_bracket(src), None);
        assert!(lex(src).is_ok());
    }
    assert_eq!(lex(b"\"[[\"").unwrap().len(), 1);
    assert_eq!(lex(b"\"[[\"").unwrap()[0].kind, TokenKind::LiteralString);
}

#[test]
fn a_string_that_ends_lets_a_later_bracket_open() {
    assert_eq!(first_open_long_bracket(b"x = \"a\" .. [[b"), Some(11));
    assert_eq!(first_open_long_bracket(b"x = '\\'' .. [[b"), Some(12));
    assert_eq!(first_open_long_bracket(b"x = '\\\\' .. [[b"), Some(12));
    assert_eq!(first_open_long_bracket(b"-- c\n[[b"), Some(5));
}

#[test]
fn a_hash_starts_a_comment_at_the_start_of_the_buffer_only() {
    assert_eq!(first_open_long_bracket(b"#[[ x"), Some(1));
    assert_eq!(first_open_long_bracket(b"#! [[ x\ny = 1"), None);
    assert_eq!(first_open_long_bracket(b" #[[ x"), Some(2));
    assert_eq!(first_open_long_bracket(b"x #[=[ x"), Some(3));
}

#[test]
fn a_numeral_takes_the_sign_of_its_exponent() {
    assert_eq!(first_open_long_bracket(b"1e--[[ x"), Some(4));
    assert_eq!(first_open_long_bracket(b"1e--\"[["), None);
    assert_eq!(first_open_long_bracket(b"a1e--[[ x"), Some(5));
    assert_eq!(first_open_long_bracket(b"a1e--\"[[\n"), None);
    assert_eq!(first_open_long_bracket(b"0x1p--[[ x"), Some(6));
    assert_eq!(first_open_long_bracket(b"0x1e--'[[\n"), None);
    assert_eq!(first_open_long_bracket(b".5e--[[ x"), Some(5));
    assert_eq!(first_open_long_bracket(b"..5.5e--[[ x"), Some(8));
    assert_eq!(first_open_long_bracket(b"1..--[[ x"), Some(5));
}

fn closed_with(src: &[u8], level: usize) -> Vec<u8> {
    let mut closed = src.to_vec();
    closed.push(b']');
    for _ in 0..level {
        closed.push(b'=');
    }
    closed.push(b']');
    closed
}

#[test]
fn the_lexer_is_inside_the_bracket_that_is_reported() {
    let cases: [(&[u8], usize, usize); 10] = [
        (b"x = [[ abc", 4, 0),
        (b"x = [==[ abc", 4, 2),
        (b"-- c\n--[=[ abc", 7, 1),
        (b"#[[ abc", 1, 0),
        (b"1e--[[ x", 4, 0),
        (b"a1e--[[ x", 5, 0),
        (b"x = \"[[\" .. [[ y", 12, 0),
        (b"x = [= abc", 4, 1),
        (b"0x1p--[[ x", 6, 0),
        (b"..5.5e--[[ x", 8, 0),
    ];
    for (src, open, level) in cases {
        assert_eq!(first_open_long_bracket(src), Some(open));
        let closed = closed_with(src, level);
        assert_eq!(first_open_long_bracket(&closed), None);
        let tokens = lex(&closed).unwrap();
        let last = &tokens[tokens.len() - 1];
        assert!(last.kind == TokenKind::LiteralString || last.kind == TokenKind::Comment);
        assert!(last.span.start <= open);
        assert_eq!(last.span.end, closed.len());
    }
}

#[test]
fn the_lexer_comes_back_from_every_buffer_that_passes() {
    let sources: [&[u8]; 10] = [
        b"1e--\"[[",
        b"a1e--\"[[\n",
        b"0x1e--'[[\n",
        b"x = [[a]] .. [=[b]=] --[==[ c ]==]",
        b"x = [=[ ]] ]==] ]=]",
        b"--[[ a ]=] b ]]\nx = 1",
        b"x = \"unterminated [[",
        b"--[= not long [[",
        b"a.b.c = 1 .. 2 ... 0x.1p-2",
        b"\xff\xfe [[x]] \xef\xbf\xbd",
    ];
    for src in sources {
        assert_eq!(first_open_long_bracket(src), None);
        assert!(lex(src).is_ok());
    }
}

#[test]
fn tokens_stand_in_the_order_of_the_buffer() {
    let src = b"local t = { [1] = 'a', [[b]], --[[ c ]] 0x10 }\n";
    let tokens = lex(src).unwrap();
    for pair in tokens.windows(2) {
        assert!(pair[0].span.end <= pair[1].span.start);
    }
}

#[test]
fn bytes_equal_compares_length_and_content() {
    assert!(bytes_equal(b"", b""));
    assert!(bytes_equal(b"abc", b"abc"));
    assert!(!bytes_equal(b"abc", b"abd"));
    assert!(!bytes_equal(b"abc", b"ab"));
    assert!(!bytes_equal(b"", b"a"));
}

#[test]
fn same_value_looks_at_kind_and_text_only() {
    let a = Token { kind: TokenKind::Name, text: b"x".to_vec(), span: Span { start: 0, end: 1 } };
    let b = Token { kind: TokenKind::Name, text: b"x".to_vec(), span: Span { start: 9, end: 10 } };
    let c = Token { kind: TokenKind::Name, text: b"y".to_vec(), span: Span { start: 0, end: 1 } };
    let d = Token {
        kind: TokenKind::LiteralString,
        text: b"x".to_vec(),
        span: Span { start: 0, end: 1 },
    };
    assert!(a.same_value(&b));
    assert!(!a.same_value(&c));
    assert!(!a.same_value(&d));
}

fn check_agreement(src: &[u8]) {
    match first_open_long_bracket(src) {
        None => {
            assert!(lex(src).is_ok());
        }
        Some(open) => {
            assert_eq!(src[open], b'[');
            let level = src[open + 1..].iter().take_while(|b| **b == b'=').count();
            let closed = closed_with(src, level);
            assert_eq!(first_open_long_bracket(&closed), None);
            let tokens = lex(&closed).unwrap();
            let inside = tokens.iter().any(|t| {
                (t.kind == TokenKind::LiteralString || t.kind == TokenKind::Comment)
                    && t.span.start <= open
                    && open < t.span.end
                    && t.span.end > src.len()
            });
            assert!(inside);
        }
    }
}

fn for_each_string(alphabet: &[u8], length: usize, current: &mut Vec<u8>) {
    check_agreement(current);
    if current.len() == length {
        return;
    }
    for b in alphabet {
        current.push(*b);
        for_each_string(alphabet, length, current);
        current.pop();
    }
}

#[test]
fn the_scan_agrees_with_the_lexer_on_all_short_buffers() {
    let alphabet = b"[]=-\"'\\\n#01xep.+a ";
    for_each_string(alphabet, 4, &mut Vec::new());
}

#[test]
fn the_scan_agrees_with_the_lexer_on_brackets_and_comments() {
    let alphabet = b"[]=-\"\\\n1e";
    for_each_string(alphabet, 6, &mut Vec::new());
}

#[test]
fn the_scan_agrees_with_the_lexer_on_numerals() {
    let alphabet = b"019.xXeEpPaf+-[";
    for_each_string(alphabet, 5, &mut Vec::new());
}
