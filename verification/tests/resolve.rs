//! Tests of the variable resolution engine.

use navi::error::NaviError;
use navi::flows::{post_dispatch, DispatchAction};
use navi::finder::{parse, process};
use navi::flows::{gen_replacement, ResolutionState};
use navi::structures::{Suggestion, VariableMap};

#[test]
fn repeated_placeholder_prompts_once_and_shares_value() {
    let mut st = ResolutionState::start("cp <file> <file>.bak");
    assert_eq!(st.next_variable().unwrap(), "file");
    st.apply_value("notes.txt");
    // Only one prompt: nothing is pending after the single answer.
    assert!(st.is_resolved());
    assert_eq!(st.finish(), "cp notes.txt notes.txt.bak");
}

#[test]
fn distinct_placeholders_resolve_in_order_of_first_appearance() {
    let mut st = ResolutionState::start("scp <src> <host>:<src>");
    assert_eq!(st.next_variable().unwrap(), "src");
    st.apply_value("a.txt");
    assert_eq!(st.next_variable().unwrap(), "host");
    st.apply_value("box");
    assert!(st.is_resolved());
    assert_eq!(st.finish(), "scp a.txt box:a.txt");
}

#[test]
fn value_with_space_is_quoted_value_without_is_not() {
    assert_eq!(gen_replacement("two words"), "\"two words\"");
    assert_eq!(gen_replacement("single"), "single");

    let mut st = ResolutionState::start("git commit -m <message>");
    st.apply_value("fix the bug");
    assert_eq!(st.finish(), "git commit -m \"fix the bug\"");

    let mut st = ResolutionState::start("git checkout <branch>");
    st.apply_value("main");
    assert_eq!(st.finish(), "git checkout main");
}

#[test]
fn newline_value_deletes_the_placeholder() {
    let mut st = ResolutionState::start("echo <x> done");
    st.apply_value("\n");
    assert_eq!(st.finish(), "echo  done");
}

#[test]
fn column_extraction_with_default_delimiter() {
    let got = process(String::from("a  b  c"), Some(2), None).unwrap();
    assert_eq!(got, "b");
}

#[test]
fn column_extraction_with_custom_delimiter() {
    let got = process(String::from("a;b;c"), Some(3), Some(";")).unwrap();
    assert_eq!(got, "c");
}

#[test]
fn column_extraction_without_column_keeps_text() {
    let got = process(String::from("kept as is"), None, Some(";")).unwrap();
    assert_eq!(got, "kept as is");
}

#[test]
fn invalid_delimiter_pattern_is_reported() {
    let r = process(String::from("a b"), Some(1), Some("("));
    assert!(matches!(r, Err(NaviError::InvalidDelimiter)));
}

#[test]
fn missing_column_is_reported() {
    let r = process(String::from("a  b"), Some(5), None);
    assert!(matches!(r, Err(NaviError::ColumnOutOfRange)));
}

#[test]
fn end_to_end_suggestion_resolution() {
    // The variable map knows a suggestion for ("git", "branch").
    let mut map = VariableMap::new();
    map.insert(
        "git",
        "branch",
        Suggestion { command: String::from("echo main"), options: None },
    );

    // The user picked this snippet under the "git" tag scope.
    let mut st = ResolutionState::start("git checkout <branch>");
    let var = st.next_variable().unwrap();
    assert_eq!(var, "branch");

    // The engine finds the suggestion command for the variable.
    let suggestion = map.get("git", &var).unwrap();
    assert_eq!(suggestion.command, "echo main");

    // Running `echo main` through a shell yields one candidate line, which
    // the selector reports on its standard output with status 0.
    let candidates = b"main\n".to_vec();
    let chosen = parse(Some(0), candidates, Vec::new(), None, None).unwrap();
    let value = chosen.trim_end_matches('\n');
    assert_eq!(value, "main");

    st.apply_value(value);
    assert!(st.is_resolved());
    assert_eq!(st.finish(), "git checkout main");
}

#[test]
fn first_writer_wins_in_variable_map() {
    let mut map = VariableMap::new();
    map.insert("git", "branch", Suggestion { command: String::from("echo first"), options: None });
    map.insert("git", "branch", Suggestion { command: String::from("echo second"), options: None });
    assert_eq!(map.len(), 1);
    assert_eq!(map.get("git", "branch").unwrap().command, "echo first");
    assert!(map.get("docker", "branch").is_none());
}

#[test]
fn post_dispatch_picks_the_documented_action() {
    assert!(matches!(
        post_dispatch("ctrl-y", true, &None, "ls"),
        DispatchAction::CopyToClipboard
    ));
    assert!(matches!(
        post_dispatch("enter", true, &None, "ls"),
        DispatchAction::PrintToStdout
    ));
    assert!(matches!(
        post_dispatch("enter", false, &Some("out.txt".to_string()), "ls"),
        DispatchAction::SaveToFile { path } if path == "out.txt"
    ));
    assert!(matches!(
        post_dispatch("enter", false, &None, "navi repo browse"),
        DispatchAction::RecurseIntoProgram
    ));
    assert!(matches!(
        post_dispatch("enter", false, &None, "ls -la"),
        DispatchAction::ExecuteWithShell
    ));
}

#[test]
fn cancellation_status_stops_everything() {
    // Status 130 at any step yields the cancellation error and no text.
    let r = parse(Some(130), b"ignored".to_vec(), Vec::new(), None, None);
    match r {
        Err(e) => assert!(e.is_cancelled()),
        Ok(_) => panic!("cancellation must not yield a selection"),
    }
}

#[test]
fn no_match_statuses_still_parse_output() {
    for code in [0, 1, 2] {
        let r = parse(Some(code), b"text".to_vec(), Vec::new(), None, None).unwrap();
        assert_eq!(r, "text");
    }
}

#[test]
fn other_statuses_are_fatal_with_stderr() {
    let r = parse(Some(33), Vec::new(), b"boom".to_vec(), None, None);
    match r {
        Err(NaviError::FinderFailed { stderr }) => assert_eq!(stderr, b"boom".to_vec()),
        _ => panic!("unexpected outcome"),
    }
}

#[test]
fn invalid_utf8_output_is_reported() {
    let r = parse(Some(0), vec![0xff, 0xfe], Vec::new(), None, None);
    assert!(matches!(r, Err(NaviError::InvalidUtf8)));
}
