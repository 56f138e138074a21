//! Tests of the cheatsheet text shaping, the command dispatch, and the
//! preview renderer.

use navi::cheatsh::{decode_fetched, lines, map_line, Fetcher};
use navi::handler::{handle, Command, HandleAction, RepoCommand};
use navi::preview::{env_key, lookup_binding, preview_var, Binding};

#[test]
fn map_line_trims_and_drops_colons() {
    assert_eq!(map_line("  ls -la:  "), "ls -la");
    assert_eq!(map_line("plain"), "plain");
    assert_eq!(map_line("a:b::"), "a:b");
    assert_eq!(map_line("\t spaced \r"), "spaced");
}

#[test]
fn lines_prepends_tag_header() {
    let got = lines("tar", "# extract:\n tar xf <file> \n");
    assert_eq!(got, vec!["% tar, cheat.sh", "# extract", "tar xf <file>"]);
}

#[test]
fn fetcher_keeps_its_query() {
    let f = Fetcher::new("curl".to_string());
    assert_eq!(f.query, "curl");
}

#[test]
fn decode_fetched_strips_ansi() {
    let bytes = b"\x1b[31mred\x1b[0m text".to_vec();
    assert_eq!(decode_fetched(&bytes).unwrap(), "red text");
}

#[test]
fn handle_dispatches_each_command() {
    assert!(matches!(handle(&None), HandleAction::RunCore));
    assert!(matches!(
        handle(&Some(Command::Preview { line: "l".into() })),
        HandleAction::RunPreview { line } if line == "l"
    ));
    assert!(matches!(
        handle(&Some(Command::Widget { shell: "zsh".into() })),
        HandleAction::PrintWidget { shell } if shell == "zsh"
    ));
    assert!(matches!(
        handle(&Some(Command::Repo { cmd: RepoCommand::Add { uri: "u/r".into() } })),
        HandleAction::ImportThenCore { uri } if uri == "u/r"
    ));
    assert!(matches!(
        handle(&Some(Command::Repo { cmd: RepoCommand::Browse })),
        HandleAction::BrowseImportThenCore
    ));
    assert!(matches!(
        handle(&Some(Command::PreviewVar {
            selection: "s".into(),
            query: "q".into(),
            variable: "v".into()
        })),
        HandleAction::RunPreviewVar { selection, query, variable }
            if selection == "s" && query == "q" && variable == "v"
    ));
}

#[test]
fn preview_builds_styled_lines() {
    let got = navi::writer::preview("# comment", "git", "echo a \u{15} echo b", "C", "T", "S", "R");
    assert_eq!(got, "C# commentR T[git]R \nSecho a  echo bR");
}

#[test]
fn affirmative_answers_start_with_y() {
    assert!(navi::flows::is_affirmative("Yes"));
    assert!(navi::flows::is_affirmative("y"));
    assert!(!navi::flows::is_affirmative("No"));
    assert!(!navi::flows::is_affirmative(""));
}

#[test]
fn env_key_replaces_hyphens() {
    assert_eq!(env_key("my-var-name"), "my_var_name");
    assert_eq!(env_key("plain"), "plain");
}

#[test]
fn lookup_binding_reads_first_match_or_empty() {
    let bs = vec![
        Binding { name: "a".into(), value: "1".into() },
        Binding { name: "b".into(), value: "2".into() },
        Binding { name: "a".into(), value: "3".into() },
    ];
    assert_eq!(lookup_binding(&bs, "a"), "1");
    assert_eq!(lookup_binding(&bs, "b"), "2");
    assert_eq!(lookup_binding(&bs, "c"), "");
}

#[test]
fn preview_var_renders_plain_lines() {
    // Empty color prefixes keep the output comparable as plain text.
    let resolved = vec![Binding { name: "host".into(), value: "box".into() }];
    let (header, snippet, vars) = preview_var(
        "'main'",
        "",
        "branch",
        "git push <host> <branch>",
        "git",
        "push a branch",
        None,
        None,
        &resolved,
        "",
        "",
        "",
    )
    .unwrap();
    assert_eq!(header, "push a branch [git]");
    assert_eq!(snippet, "git push <host> <branch>");
    assert_eq!(vars, "\nhost = box\nbranch = main");
}

#[test]
fn preview_var_falls_back_to_query_and_sole_variable() {
    // The active variable does not occur in the snippet: it is shown alone,
    // and the empty selection falls back to the query text.
    let (_, _, vars) = preview_var(
        "''",
        "typed",
        "name",
        "echo fixed",
        "t",
        "c",
        None,
        None,
        &Vec::new(),
        "",
        "",
        "",
    )
    .unwrap();
    assert_eq!(vars, "\nname = typed");
}

#[test]
fn preview_var_colors_the_active_placeholder() {
    let (header, snippet, vars) = preview_var(
        "'v'",
        "",
        "x",
        "run <x>",
        "tag",
        "com",
        None,
        None,
        &Vec::new(),
        "[A]",
        "[I]",
        "[R]",
    )
    .unwrap();
    assert_eq!(header, "[I]com[R] [A][tag][R]");
    assert_eq!(snippet, "run [A]<x>[R]");
    assert_eq!(vars, "\n[A]x[R] = v");
}

#[test]
fn preview_var_applies_column_hints() {
    let (_, _, vars) = preview_var(
        "'one  two'",
        "",
        "x",
        "use <x>",
        "t",
        "c",
        Some(2),
        None,
        &Vec::new(),
        "",
        "",
        "",
    )
    .unwrap();
    assert_eq!(vars, "\nx = two");
}
