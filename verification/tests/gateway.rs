//! Tests of the selector gateway's argument construction.

use navi::finder::FinderChoice;
use navi::flows::{gen_core_finder_opts, gen_prompt_opts, gen_suggestion_opts, Variant};
use navi::structures::{Opts, SuggestionOptions, SuggestionType};

#[test]
fn executable_names() {
    assert_eq!(FinderChoice::Fzf.executable_name(), "fzf");
    assert_eq!(FinderChoice::Skim.executable_name(), "sk");
}

#[test]
fn default_opts() {
    let o: Opts = Default::default();
    assert!(o.query.is_none());
    assert!(o.filter.is_none());
    assert!(o.prompt.is_none());
    assert!(o.preview.is_none());
    assert!(o.overrides.is_none());
    assert!(o.header.is_none());
    assert!(o.column.is_none());
    assert!(o.delimiter.is_none());
    assert!(o.autoselect);
    assert_eq!(o.header_lines, 0);
    assert_eq!(o.suggestion_type, SuggestionType::SingleSelection);
}

#[test]
fn fixed_args_for_fzf() {
    let o: Opts = Default::default();
    let args = FinderChoice::Fzf.finder_args(&o);
    let expected: Vec<String> = [
        "--preview",
        "",
        "--preview-window",
        "up:2:nohidden",
        "--with-nth",
        "1,2,3",
        "--delimiter",
        "  \u{2800}",
        "--ansi",
        "--bind",
        "ctrl-j:down,ctrl-k:up",
        "--exact",
        "--select-1",
    ]
    .iter()
    .map(|s| s.to_string())
    .collect();
    assert_eq!(args, expected);
}

#[test]
fn skim_gets_taller_preview_and_no_select_1() {
    let o: Opts = Default::default();
    let args = FinderChoice::Skim.finder_args(&o);
    assert!(args.contains(&"up:3:nohidden".to_string()));
    assert!(!args.contains(&"--select-1".to_string()));
}

#[test]
fn multi_select_flags() {
    let o = Opts { suggestion_type: SuggestionType::MultipleSelections, ..Default::default() };
    let args = FinderChoice::Fzf.finder_args(&o);
    assert!(args.contains(&"--multi".to_string()));
    assert!(args.contains(&"ctrl-j:down,ctrl-k:up,ctrl-r:toggle-all".to_string()));
}

#[test]
fn disabled_prompts_print_the_query_on_fzf_only() {
    let o = Opts { suggestion_type: SuggestionType::Disabled, ..Default::default() };
    let fzf = FinderChoice::Fzf.finder_args(&o);
    assert!(fzf.contains(&"--print-query".to_string()));
    assert!(fzf.contains(&"--no-select-1".to_string()));
    let skim = FinderChoice::Skim.finder_args(&o);
    assert!(!skim.contains(&"--print-query".to_string()));
}

#[test]
fn snippet_selection_expects_keys() {
    let o = Opts { suggestion_type: SuggestionType::SnippetSelection, ..Default::default() };
    let args = FinderChoice::Fzf.finder_args(&o);
    let at = args.iter().position(|a| a == "--expect").unwrap();
    assert_eq!(args[at + 1], "ctrl-y,ctrl-o,enter");
}

#[test]
fn optional_fields_and_overrides() {
    let o = Opts {
        query: Some("que".to_string()),
        prompt: Some("pro: ".to_string()),
        header_lines: 2,
        overrides: Some("  --height 40%   ".to_string()),
        ..Default::default()
    };
    let args = FinderChoice::Fzf.finder_args(&o);
    let at = args.iter().position(|a| a == "--query").unwrap();
    assert_eq!(args[at + 1], "que");
    let at = args.iter().position(|a| a == "--header-lines").unwrap();
    assert_eq!(args[at + 1], "2");
    // Overrides are whitespace-split with empty tokens dropped.
    assert!(args.contains(&"--height".to_string()));
    assert!(args.contains(&"40%".to_string()));
    assert!(!args.contains(&"".to_string()) || args.iter().filter(|a| a.is_empty()).count() == 1);
    // The single empty argument is the fixed empty preview value.
    assert_eq!(args.iter().filter(|a| a.is_empty()).count(), 1);
}

#[test]
fn core_finder_opts() {
    let o = gen_core_finder_opts(
        Variant::Query("git".to_string()),
        false,
        false,
        Some("--height 3".to_string()),
        "/usr/bin/navi",
    );
    assert_eq!(o.preview.as_deref(), Some("/usr/bin/navi preview {}"));
    assert!(o.autoselect);
    assert_eq!(o.suggestion_type, SuggestionType::SnippetSelection);
    assert_eq!(o.query.as_deref(), Some("git"));
    assert!(o.filter.is_none());
    assert_eq!(o.overrides.as_deref(), Some("--height 3"));

    let o = gen_core_finder_opts(Variant::Filter("f".to_string()), true, true, None, "navi");
    assert!(o.preview.is_none());
    assert!(!o.autoselect);
    assert_eq!(o.filter.as_deref(), Some("f"));
}

#[test]
fn suggestion_opts_inherit_hints() {
    let sugg = Some(SuggestionOptions {
        suggestion_type: SuggestionType::MultipleSelections,
        header_lines: 1,
        column: Some(2),
        delimiter: Some(";".to_string()),
    });
    let o = gen_suggestion_opts("branch", false, None, &sugg);
    assert_eq!(o.prompt.as_deref(), Some("branch: "));
    assert_eq!(o.suggestion_type, SuggestionType::MultipleSelections);
    assert_eq!(o.header_lines, 1);
    assert_eq!(o.column, Some(2));
    assert_eq!(o.delimiter.as_deref(), Some(";"));

    let o = gen_suggestion_opts("branch", false, None, &None);
    assert_eq!(o.suggestion_type, SuggestionType::SingleSelection);
    assert!(o.column.is_none());
}

#[test]
fn free_prompt_opts() {
    let o = gen_prompt_opts("name");
    assert!(!o.autoselect);
    assert_eq!(o.prompt.as_deref(), Some("name: "));
    assert_eq!(o.suggestion_type, SuggestionType::Disabled);
    assert_eq!(o.preview_window.as_deref(), Some("up:1"));
}
