//! Tests of the line protocol codec and the layout engine.

use navi::flows::extract_from_selections;
use navi::layout::{get_widths, limit_str};
use navi::writer::{
    escape_newlines, fix_newlines, variable_prompt, with_new_lines, Item, Writer,
};

const DELIMITER: &str = "  \u{2800}";

#[test]
fn round_trip_long_snippet() {
    let snippet: String = "x".repeat(500);
    let writer = Writer::new(80, 20, 40);
    let item = Item {
        tags: String::from("git"),
        comment: String::from("a comment far longer than the comment column width of the terminal"),
        snippet: snippet.clone(),
        file_index: 7,
    };
    let line = writer.write(&item);
    assert!(line.ends_with('\n'));
    let chosen = &line[..line.len() - 1];
    let (key, tags, got) = extract_from_selections(chosen, false).unwrap();
    assert_eq!(key, "enter");
    assert_eq!(tags, "git");
    assert_eq!(with_new_lines(&got), snippet);
}

#[test]
fn round_trip_multiline_snippet() {
    let writer = Writer::new(100, 20, 40);
    let item = Item {
        tags: String::from("shell"),
        comment: String::from("spans lines"),
        snippet: String::from("echo one\necho two\necho three"),
        file_index: 0,
    };
    let line = writer.write(&item);
    let chosen = &line[..line.len() - 1];
    // The physical line holds no raw newline: the snippet stays on one line.
    assert!(!chosen.contains('\n'));
    let (_, tags, got) = extract_from_selections(chosen, false).unwrap();
    assert_eq!(tags, "shell");
    assert_eq!(with_new_lines(&got), "echo one\necho two\necho three");
}

#[test]
fn round_trip_with_key_line() {
    let writer = Writer::new(80, 20, 40);
    let item = Item {
        tags: String::from("t"),
        comment: String::from("c"),
        snippet: String::from("echo <x>"),
        file_index: 3,
    };
    let line = writer.write(&item);
    let raw = format!("ctrl-y\n{}", &line[..line.len() - 1]);
    let (key, tags, snippet) = extract_from_selections(&raw, true).unwrap();
    assert_eq!(key, "ctrl-y");
    assert_eq!(tags, "t");
    assert_eq!(snippet, "echo <x>");
}

#[test]
fn extract_missing_second_line_is_malformed() {
    let r = extract_from_selections("only-one-line", true);
    assert!(matches!(r, Err(navi::error::NaviError::MalformedOutput)));
}

#[test]
fn extract_short_line_is_malformed() {
    // A record line with fewer fields than the codec requires means the
    // selector broke the protocol.
    let r = extract_from_selections("bare", false);
    assert!(matches!(r, Err(navi::error::NaviError::MalformedOutput)));
}

#[test]
fn sentinel_is_a_bijection() {
    for text in [
        "",
        "no newlines at all",
        "one\ntrailing newline\n",
        "\n\n\n",
        "mixed \n content\nhere",
    ] {
        assert_eq!(with_new_lines(&escape_newlines(text)), text);
    }
}

#[test]
fn escape_newlines_uses_sentinel() {
    assert_eq!(escape_newlines("a\nb"), "a \u{15} b");
    assert_eq!(with_new_lines("a \u{15} b"), "a\nb");
}

#[test]
fn encoded_line_has_seven_columns_and_trailing_delimiter() {
    let writer = Writer::new(80, 20, 40);
    let item = Item {
        tags: String::from("tag"),
        comment: String::from("comment"),
        snippet: String::from("snip"),
        file_index: 42,
    };
    let line = writer.write(&item);
    let body = &line[..line.len() - 1];
    let fields: Vec<&str> = body.split(DELIMITER).collect();
    assert_eq!(fields.len(), 8);
    assert_eq!(fields[3], "tag");
    assert_eq!(fields[4], "comment");
    assert_eq!(fields[5], "snip");
    assert_eq!(fields[6], "42");
    assert_eq!(fields[7], "");
}

#[test]
fn limit_str_truncates_with_ellipsis() {
    assert_eq!(limit_str("abcdefgh", 5), "abcd\u{2026}");
    assert_eq!(limit_str("ab", 5), "ab   ");
    assert_eq!(limit_str("abcde", 5), "abcde");
}

#[test]
fn get_widths_formula() {
    // 80 * 20 / 100 = 16, 80 * 40 / 100 = 32, 80 * 5 / 100 = 4 -> min 10.
    let (t, c, s) = get_widths(80, 4, 20, 4, 40, 10, 5);
    assert_eq!(t, 16);
    assert_eq!(c, 32);
    assert_eq!(s, 10);
    // Small terminals fall back to the minima.
    let (t, c, _) = get_widths(10, 4, 20, 4, 40, 4, 25);
    assert_eq!(t, 4);
    assert_eq!(c, 4);
}

#[test]
fn writer_widths_have_floor_of_four() {
    let w = Writer::new(10, 20, 40);
    assert_eq!(w.tag_width, 4);
    assert_eq!(w.comment_width, 4);
    let w = Writer::new(200, 20, 40);
    assert_eq!(w.tag_width, 40);
    assert_eq!(w.comment_width, 80);
}

#[test]
fn stty_width_reads_the_second_token() {
    assert_eq!(navi::layout::stty_width("24 80\n"), Some(80));
    assert_eq!(navi::layout::stty_width("  24\t132  "), Some(132));
    assert_eq!(navi::layout::stty_width("24"), None);
    assert_eq!(navi::layout::stty_width("24 eighty"), None);
    assert_eq!(navi::layout::stty_width("24 99999"), None);
}

#[test]
fn variable_prompt_appends_colon() {
    assert_eq!(variable_prompt("branch"), "branch: ");
}

#[test]
fn fix_newlines_cleans_sentinels_and_continuations() {
    // Without the escape character the text is unchanged.
    assert_eq!(fix_newlines("plain text"), "plain text");
    // Sentinels become two spaces.
    assert_eq!(fix_newlines("a \u{15} b"), "a  b");
    // Backslash line continuations disappear.
    assert_eq!(fix_newlines("a \u{15} \\  b"), "a  b");
}
