use lua_comment_stripper::audit::{describe_failure, generate_diff, DiffFailure, DiffMode};
use lua_comment_stripper::line_diff::{fits_table, generate_line_diff, render_line_diff, LineChange};
use lua_comment_stripper::token_diff::{Buffer, DiffError, Fault};

#[test]
fn trailing_comment_gives_one_removed_and_one_added_line() {
    let report = generate_line_diff(b"local x = 1 -- set x\n", b"local x = 1\n", "a.lua", "b.lua");
    assert_eq!(
        report,
        Some("--- a.lua\n+++ b.lua\n- local x = 1 -- set x\n+ local x = 1\n".to_string())
    );
}

#[test]
fn equal_texts_have_no_line_report() {
    assert_eq!(generate_line_diff(b"a\nb\n", b"a\nb\n", "o", "s"), None);
    assert_eq!(generate_line_diff(b"", b"", "o", "s"), None);
}

#[test]
fn removed_comment_line_is_listed() {
    let report = generate_line_diff(b"-- hi\nx = 1\n", b"x = 1\n", "o", "s");
    assert_eq!(report, Some("--- o\n+++ s\n- -- hi\n".to_string()));
}

#[test]
fn missing_final_newline_is_listed_as_an_empty_line() {
    let report = generate_line_diff(b"x = 1\n", b"x = 1", "o", "s");
    assert_eq!(report, Some("--- o\n+++ s\n- \n".to_string()));
}

#[test]
fn invalid_bytes_are_replaced_not_fatal() {
    let report = generate_line_diff(b"a\xfe\n", b"a\n", "o", "s");
    assert_eq!(report, Some("--- o\n+++ s\n- a\u{fffd}\n+ a\n".to_string()));
}

#[test]
fn render_line_diff_lists_one_sided_lines_only() {
    let changes = vec![
        LineChange::Both("a".to_string(), "a".to_string()),
        LineChange::Left("b".to_string()),
        LineChange::Right("c".to_string()),
        LineChange::Both("".to_string(), "".to_string()),
        LineChange::Right("".to_string()),
    ];
    assert_eq!(
        render_line_diff(&changes, "in/x.lua", "out/x.lua"),
        Some("--- in/x.lua\n+++ out/x.lua\n- b\n+ c\n+ \n".to_string())
    );
    let common = vec![LineChange::Both("a".to_string(), "a".to_string())];
    assert_eq!(render_line_diff(&common, "o", "s"), None);
    assert_eq!(render_line_diff(&vec![], "o", "s"), None);
}

#[test]
fn fits_table_bounds_the_product() {
    assert!(fits_table(0, 0));
    assert!(fits_table(1000, 1000));
    assert!(!fits_table(usize::MAX, 0));
    assert!(!fits_table(0, usize::MAX));
    assert!(!fits_table(usize::MAX / 2, usize::MAX / 2));
    let max = isize::MAX as usize;
    assert!(fits_table(max / 4 - 1, 0));
    assert!(!fits_table(max / 4, 0));
    assert!(!fits_table(max / 8, 1));
    assert!(fits_table(max / 8 - 1, 1));
}

#[test]
fn generate_diff_selects_the_engine() {
    let orig = b"local x = 1 -- set x\n";
    let stripped = b"local x = 1\n";
    assert_eq!(generate_diff(DiffMode::Tokens, orig, stripped, "o", "s"), Ok(None));
    assert_eq!(
        generate_diff(DiffMode::Lines, orig, stripped, "o", "s"),
        Ok(Some("--- o\n+++ s\n- local x = 1 -- set x\n+ local x = 1\n".to_string()))
    );
    assert_eq!(
        generate_diff(DiffMode::Tokens, b"x = 1\n", b"x = 2\n", "o", "s"),
        Ok(Some("line number 0\n--- o\n+++ s\n+ x = 2\n- x = 1\n".to_string()))
    );
    assert_eq!(
        generate_diff(DiffMode::Tokens, b"x = 1\n", b"x = ?\n", "o", "s"),
        Err(DiffFailure::Lex(DiffError {
            buffer: Buffer::Stripped,
            fault: Fault::UnknownToken,
            offset: 4
        }))
    );
    assert_eq!(generate_diff(DiffMode::Lines, b"x = ?\n", b"x = ?\n", "o", "s"), Ok(None));
}

#[test]
fn describe_failure_names_buffer_and_offset() {
    let unknown = DiffFailure::Lex(DiffError {
        buffer: Buffer::Original,
        fault: Fault::UnknownToken,
        offset: 10,
    });
    assert_eq!(describe_failure(&unknown, "in/a.lua", "out/a.lua"), "unknown token in in/a.lua at byte 10");
    let open = DiffFailure::Lex(DiffError {
        buffer: Buffer::Stripped,
        fault: Fault::OpenLongBracket,
        offset: 0,
    });
    assert_eq!(
        describe_failure(&open, "in/a.lua", "out/a.lua"),
        "long bracket is never closed in out/a.lua at byte 0"
    );
    assert_eq!(
        describe_failure(&DiffFailure::TableTooLarge, "o", "s"),
        "buffers are too large for a line comparison"
    );
}
