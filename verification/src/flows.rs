//! Variable resolution engine: finds the bracketed placeholders of a
//! selected snippet, walks them in order of first appearance, and
//! substitutes each resolved value into the working copy.

use vstd::prelude::*;
use crate::error::NaviError;
use crate::structures::Opts;
use crate::structures::SuggestionOptions;
use crate::structures::SuggestionType;
use crate::text::matches_at;
use crate::text::push_char;
use crate::text::replace_all;
use crate::text::split_all;
use crate::text::str_contains_char;
use crate::text::str_eq;
use crate::text::str_replace_all;
use crate::text::str_split;
use crate::writer::delimiter;
use crate::writer::delimiter_str;
use crate::writer::newline_str;
use crate::writer::with_new_lines;
use crate::writer::with_new_lines_spec;

verus! {

/// How the snippet browser is entered: plainly, with a pre-applied filter,
/// or with an initial query.
pub enum Variant {
    Core,
    Filter(String),
    Query(String),
}

// ---------------------------------------------------------------------------
// Placeholder grammar
// ---------------------------------------------------------------------------

/// First character of a placeholder name: a word character.
pub open spec fn is_word_char(c: char) -> bool {
    ('a' <= c && c <= 'z') || ('A' <= c && c <= 'Z') || ('0' <= c && c <= '9') || c == '_'
}

/// Later characters of a placeholder name: word characters and the hyphen.
pub open spec fn is_name_char(c: char) -> bool {
    is_word_char(c) || c == '-'
}

/// Length of the run of name characters starting at `i`.
pub open spec fn name_run(s: Seq<char>, i: int) -> int
    decreases s.len() - i,
{
    if i < 0 || i >= s.len() || !is_name_char(s[i]) {
        0
    } else {
        1 + name_run(s, i + 1)
    }
}

/// The name-character run is non-negative and stays inside the text.
pub proof fn lemma_name_run_bounds(s: Seq<char>, i: int)
    ensures
        0 <= name_run(s, i),
        0 <= i <= s.len() ==> i + name_run(s, i) <= s.len(),
    decreases s.len() - i,
{
    if i < 0 || i >= s.len() || !is_name_char(s[i]) {
    } else {
        lemma_name_run_bounds(s, i + 1);
    }
}

/// The run over a stretch of known name characters reaches exactly the
/// first non-name character.
pub proof fn lemma_name_run_value(s: Seq<char>, a: int, b: int)
    requires
        0 <= a <= b <= s.len(),
        forall|k: int| a <= k < b ==> is_name_char(s[k]),
        b == s.len() || !is_name_char(s[b]),
    ensures
        name_run(s, a) == b - a,
    decreases b - a,
{
    if a == b {
    } else {
        lemma_name_run_value(s, a + 1, b);
    }
}

/// Index just past the name of a placeholder that opens at `i`: the
/// position where the closing bracket must stand.
pub open spec fn ph_end(s: Seq<char>, i: int) -> int {
    i + 2 + name_run(s, i + 2)
}

/// A placeholder occurrence at `i`: an opening bracket, a word character,
/// the longest run of name characters, and a closing bracket.
pub open spec fn ph_match_at(s: Seq<char>, i: int) -> bool {
    &&& 0 <= i
    &&& i + 1 < s.len()
    &&& s[i] == '<'
    &&& is_word_char(s[i + 1])
    &&& ph_end(s, i) < s.len()
    &&& s[ph_end(s, i)] == '>'
}

/// The placeholder names of the suffix of `s` starting at `i`, leftmost
/// first, non-overlapping, repeats kept.
pub open spec fn scan_from(s: Seq<char>, i: int) -> Seq<Seq<char>>
    decreases s.len() - i,
    when true
    via scan_from_decreases
{
    if i < 0 || i >= s.len() {
        Seq::<Seq<char>>::empty()
    } else if ph_match_at(s, i) {
        seq![s.subrange(i + 1, ph_end(s, i))] + scan_from(s, ph_end(s, i) + 1)
    } else {
        scan_from(s, i + 1)
    }
}

#[via_fn]
proof fn scan_from_decreases(s: Seq<char>, i: int) {
    if 0 <= i < s.len() && ph_match_at(s, i) {
        lemma_name_run_bounds(s, i + 2);
    }
}

/// The names kept after dropping every repeat of an earlier name.
pub open spec fn dedup_rec(names: Seq<Seq<char>>, seen: Seq<Seq<char>>) -> Seq<Seq<char>>
    decreases names.len(),
{
    if names.len() == 0 {
        seen
    } else if seen.contains(names[0]) {
        dedup_rec(names.drop_first(), seen)
    } else {
        dedup_rec(names.drop_first(), seen.push(names[0]))
    }
}

/// The distinct placeholder names of a snippet, in order of first
/// appearance.
pub open spec fn distinct_names(s: Seq<char>) -> Seq<Seq<char>> {
    dedup_rec(scan_from(s, 0), Seq::<Seq<char>>::empty())
}

/// No two entries of a sequence of names are equal.
pub open spec fn distinct_seq(xs: Seq<Seq<char>>) -> bool {
    forall|i: int, j: int| 0 <= i < j < xs.len() ==> xs[i] != xs[j]
}

/// Deduplication never repeats a name.
proof fn lemma_dedup_distinct(names: Seq<Seq<char>>, seen: Seq<Seq<char>>)
    requires
        distinct_seq(seen),
    ensures
        distinct_seq(dedup_rec(names, seen)),
    decreases names.len(),
{
    if names.len() == 0 {
    } else if seen.contains(names[0]) {
        lemma_dedup_distinct(names.drop_first(), seen);
    } else {
        let pushed = seen.push(names[0]);
        assert forall|i: int, j: int| 0 <= i < j < pushed.len() implies pushed[i] != pushed[j] by {
            if j < seen.len() {
            } else {
                assert(pushed[j] == names[0]);
                assert(pushed[i] == seen[i]);
                if seen[i] == names[0] {
                    assert(seen.contains(names[0]));
                }
            }
        }
        lemma_dedup_distinct(names.drop_first(), pushed);
    }
}

/// A snippet that repeats a placeholder name still yields that name only
/// once: the engine prompts exactly once per distinct name, and the single
/// substitution step puts the same resolved value at every occurrence.
pub proof fn lemma_prompts_once(s: Seq<char>)
    ensures
        distinct_seq(distinct_names(s)),
{
    lemma_dedup_distinct(scan_from(s, 0), Seq::<Seq<char>>::empty());
}

// ---------------------------------------------------------------------------
// Executable scanning
// ---------------------------------------------------------------------------

/// Whether `c` may start a placeholder name.
pub fn is_word_char_exec(c: char) -> (r: bool)
    ensures
        r == is_word_char(c),
{
    ('a' <= c && c <= 'z') || ('A' <= c && c <= 'Z') || ('0' <= c && c <= '9') || c == '_'
}

/// Whether `c` may continue a placeholder name.
pub fn is_name_char_exec(c: char) -> (r: bool)
    ensures
        r == is_name_char(c),
{
    is_word_char_exec(c) || c == '-'
}

/// Try to match a placeholder at position `i`; yields the position of the
/// closing bracket on success.
fn match_placeholder(s: &str, n: usize, i: usize) -> (r: Option<usize>)
    requires
        n == s@.len(),
        i < n,
    ensures
        match r {
            Some(e) => ph_match_at(s@, i as int) && e == ph_end(s@, i as int) && i + 2 <= e < n,
            None => !ph_match_at(s@, i as int),
        },
{
    if s.get_char(i) != '<' {
        return None;
    }
    if i + 1 >= n {
        return None;
    }
    if !is_word_char_exec(s.get_char(i + 1)) {
        return None;
    }
    let mut j: usize = i + 2;
    while j < n && is_name_char_exec(s.get_char(j))
        invariant
            n == s@.len(),
            i + 2 <= j <= n,
            forall|k: int| i + 2 <= k < j ==> is_name_char(s@[k]),
        decreases n - j,
    {
        j = j + 1;
    }
    proof {
        lemma_name_run_value(s@, i as int + 2, j as int);
        assert(ph_end(s@, i as int) == j);
    }
    if j < n && s.get_char(j) == '>' {
        Some(j)
    } else {
        None
    }
}

/// Every placeholder name of `snippet`, leftmost first, repeats kept.
pub fn placeholder_names(snippet: &str) -> (r: Vec<String>)
    ensures
        r.deep_view() == scan_from(snippet@, 0),
{
    let n = snippet.unicode_len();
    let mut out: Vec<String> = Vec::new();
    let mut i: usize = 0;
    proof {
        assert(out.deep_view() + scan_from(snippet@, 0) =~= scan_from(snippet@, 0));
    }
    while i < n
        invariant
            n == snippet@.len(),
            i <= n,
            scan_from(snippet@, 0) == out.deep_view() + scan_from(snippet@, i as int),
        decreases n - i,
    {
        let ghost prev = out.deep_view();
        match match_placeholder(snippet, n, i) {
            Some(e) => {
                let name = snippet.substring_char(i + 1, e);
                out.push(String::from_str(name));
                proof {
                    assert(out.deep_view() =~= prev.push(name@));
                    assert(scan_from(snippet@, i as int) == seq![
                        snippet@.subrange(i as int + 1, e as int)
                    ] + scan_from(snippet@, e as int + 1));
                    assert(prev.push(name@) + scan_from(snippet@, e as int + 1) =~= prev + (seq![
                        name@
                    ] + scan_from(snippet@, e as int + 1)));
                }
                i = e + 1;
            },
            None => {
                proof {
                    assert(scan_from(snippet@, i as int) == scan_from(snippet@, i as int + 1));
                }
                i = i + 1;
            },
        }
    }
    proof {
        assert(out.deep_view() + scan_from(snippet@, i as int) =~= out.deep_view());
    }
    out
}

/// Drop every repeat of an earlier name, keeping first-appearance order.
pub fn dedup_names(names: Vec<String>) -> (r: Vec<String>)
    ensures
        r.deep_view() == dedup_rec(names.deep_view(), Seq::<Seq<char>>::empty()),
{
    let mut out: Vec<String> = Vec::new();
    let n = names.len();
    let mut i: usize = 0;
    proof {
        assert(names.deep_view().skip(0) =~= names.deep_view());
        assert(out.deep_view() =~= Seq::<Seq<char>>::empty());
    }
    while i < n
        invariant
            n == names@.len(),
            i <= n,
            dedup_rec(names.deep_view(), Seq::<Seq<char>>::empty()) == dedup_rec(
                names.deep_view().skip(i as int),
                out.deep_view(),
            ),
        decreases n - i,
    {
        let ghost nd = names.deep_view();
        let ghost prev = out.deep_view();
        let name = &names[i];
        let m = out.len();
        let mut k: usize = 0;
        let mut found = false;
        while k < m
            invariant
                m == out@.len(),
                k <= m,
                found == exists|t: int| 0 <= t < k && out.deep_view()[t] == name@,
            decreases m - k,
        {
            proof {
                assert(out.deep_view()[k as int] == out@[k as int]@);
            }
            if str_eq(out[k].as_str(), name.as_str()) {
                found = true;
            }
            k = k + 1;
        }
        proof {
            assert(found == prev.contains(name@));
            assert(nd.skip(i as int)[0] == nd[i as int]);
            assert(nd[i as int] == names@[i as int]@);
            assert(nd.skip(i as int).drop_first() =~= nd.skip(i as int + 1));
        }
        if !found {
            out.push(name.clone());
            proof {
                assert(out.deep_view() =~= prev.push(name@));
            }
        }
        i = i + 1;
    }
    proof {
        assert(names.deep_view().skip(n as int) =~= Seq::<Seq<char>>::empty());
    }
    out
}

// ---------------------------------------------------------------------------
// Substitution
// ---------------------------------------------------------------------------

/// The bracketed token of a placeholder name.
pub open spec fn bracket(name: Seq<char>) -> Seq<char> {
    seq!['<'] + name + seq!['>']
}

/// What a resolved value becomes before substitution: deleted when it is
/// exactly one newline, wrapped in double quotes when it holds a space,
/// kept as it is otherwise.
pub open spec fn subst_value(v: Seq<char>) -> Seq<char> {
    if v == seq!['\n'] {
        Seq::<char>::empty()
    } else if v.contains(' ') {
        seq!['"'] + v + seq!['"']
    } else {
        v
    }
}

/// Quote a resolved value when it holds a space, exactly when it does.
pub fn gen_replacement(value: &str) -> (r: String)
    ensures
        value@.contains(' ') ==> r@ == seq!['"'] + value@ + seq!['"'],
        !value@.contains(' ') ==> r@ == value@,
{
    if str_contains_char(value, ' ') {
        let mut out = String::new();
        push_char(&mut out, '"');
        out.append(value);
        push_char(&mut out, '"');
        proof {
            assert(out@ =~= seq!['"'] + value@ + seq!['"']);
        }
        out
    } else {
        String::from_str(value)
    }
}

/// The walking state of one resolution: the working copy of the snippet
/// and the distinct placeholder names not yet resolved, in order.
pub struct ResolutionState {
    pub working: String,
    pub pending: Vec<String>,
}

impl ResolutionState {
    /// Start resolving a selected snippet: the working copy is the snippet
    /// and every distinct placeholder name is pending, in order of first
    /// appearance.
    pub fn start(snippet: &str) -> (st: Self)
        ensures
            st.working@ == snippet@,
            st.pending.deep_view() == distinct_names(snippet@),
    {
        let names = placeholder_names(snippet);
        ResolutionState { working: String::from_str(snippet), pending: dedup_names(names) }
    }

    /// The next variable to resolve, if any is left.
    pub fn next_variable(&self) -> (r: Option<String>)
        ensures
            match r {
                Some(s) => self.pending@.len() > 0 && s@ == self.pending.deep_view()[0],
                None => self.pending@.len() == 0,
            },
    {
        if self.pending.len() > 0 {
            Some(self.pending[0].clone())
        } else {
            None
        }
    }

    /// Whether every placeholder has been resolved.
    pub fn is_resolved(&self) -> (r: bool)
        ensures
            r == (self.pending@.len() == 0),
    {
        self.pending.len() == 0
    }

    /// Substitute the resolved value of the first pending variable: every
    /// occurrence of its bracketed token gets the same prepared value, and
    /// the variable stops being pending.
    pub fn apply_value(&mut self, value: &str)
        requires
            old(self).pending@.len() > 0,
        ensures
            final(self).working@ == replace_all(
                old(self).working@,
                bracket(old(self).pending.deep_view()[0]),
                subst_value(value@),
            ),
            final(self).pending.deep_view() == old(self).pending.deep_view().drop_first(),
    {
        let name = self.pending.remove(0);
        let mut pat = String::new();
        push_char(&mut pat, '<');
        pat.append(name.as_str());
        push_char(&mut pat, '>');
        proof {
            assert(pat@ =~= bracket(name@));
        }
        let one_newline = newline_str();
        let rep = if str_eq(value, one_newline) {
            String::new()
        } else {
            gen_replacement(value)
        };
        proof {
            assert(rep@ == subst_value(value@));
        }
        let new_working = str_replace_all(self.working.as_str(), pat.as_str(), rep.as_str());
        self.working = new_working;
        proof {
            assert(self.pending.deep_view() =~= old(self).pending.deep_view().drop_first());
        }
    }

    /// The fully interpolated command text, the newline sentinel reversed
    /// back to real newlines.
    pub fn finish(&self) -> (r: String)
        requires
            self.pending@.len() == 0,
        ensures
            r@ == with_new_lines_spec(self.working@),
    {
        with_new_lines(self.working.as_str())
    }
}

// ---------------------------------------------------------------------------
// Gateway option derivation
// ---------------------------------------------------------------------------

/// Options for the initial snippet pick: snippet selection with a preview
/// command built from the program's own executable, the browse variant's
/// filter or query applied.
pub fn gen_core_finder_opts(
    variant: Variant,
    no_preview: bool,
    no_autoselect: bool,
    fzf_overrides: Option<String>,
    exe: &str,
) -> (r: Opts)
    ensures
        no_preview ==> r.preview is None,
        !no_preview ==> (r.preview matches Some(p) && p@ == exe@ + " preview {}"@),
        r.autoselect == !no_autoselect,
        r.overrides == fzf_overrides,
        r.suggestion_type == SuggestionType::SnippetSelection,
        (variant is Core ==> r.filter is None && r.query is None),
        (variant matches Variant::Filter(f) ==> r.filter == Some(f) && r.query is None),
        (variant matches Variant::Query(q) ==> r.query == Some(q) && r.filter is None),
        r.prompt is None,
        r.header is None,
        r.header_lines == 0,
        r.column is None,
        r.delimiter is None,
        r.preview_window is None,
{
    let preview = if no_preview {
        None
    } else {
        Some(String::from_str(exe).concat(" preview {}"))
    };
    let mut opts = Opts {
        preview,
        autoselect: !no_autoselect,
        overrides: fzf_overrides,
        suggestion_type: SuggestionType::SnippetSelection,
        ..Default::default()
    };
    match variant {
        Variant::Core => (),
        Variant::Filter(f) => opts.filter = Some(f),
        Variant::Query(q) => opts.query = Some(q),
    }
    opts
}

/// Options for one per-variable suggestion pick: the variable's prompt,
/// the caller's auto-select and override configuration, and the
/// suggestion's own type, header lines, column and delimiter.
pub fn gen_suggestion_opts(
    varname: &str,
    no_autoselect: bool,
    overrides_var: Option<String>,
    sugg: &Option<SuggestionOptions>,
) -> (r: Opts)
    ensures
        r.autoselect == !no_autoselect,
        r.overrides == overrides_var,
        r.prompt matches Some(p) && p@ == varname@ + ": "@,
        match *sugg {
            Some(o) => r.suggestion_type == o.suggestion_type && r.header_lines == o.header_lines
                && r.column == o.column && (match (o.delimiter, r.delimiter) {
                (Some(d), Some(rd)) => rd@ == d@,
                (None, None) => true,
                _ => false,
            }),
            None => r.suggestion_type == SuggestionType::SingleSelection && r.header_lines == 0
                && r.column is None && r.delimiter is None,
        },
        r.query is None,
        r.filter is None,
        r.preview is None,
        r.preview_window is None,
        r.header is None,
{
    let mut opts: Opts = Default::default();
    if let Some(o) = sugg {
        opts.suggestion_type = o.suggestion_type;
        opts.header_lines = o.header_lines;
        opts.column = o.column;
        opts.delimiter = match &o.delimiter {
            Some(d) => Some(d.clone()),
            None => None,
        };
    }
    opts.autoselect = !no_autoselect;
    opts.overrides = overrides_var;
    opts.prompt = Some(crate::writer::variable_prompt(varname));
    opts
}

/// Options for a free-text prompt: no candidate list, no auto-accept, a
/// one-row preview window.
pub fn gen_prompt_opts(varname: &str) -> (r: Opts)
    ensures
        r.autoselect == false,
        r.prompt matches Some(p) && p@ == varname@ + ": "@,
        r.suggestion_type == SuggestionType::Disabled,
        r.preview_window matches Some(w) && w@ == "up:1"@,
        r.query is None,
        r.filter is None,
        r.preview is None,
        r.overrides is None,
        r.header is None,
        r.header_lines == 0,
        r.column is None,
        r.delimiter is None,
{
    let mut opts: Opts = Default::default();
    opts.autoselect = false;
    opts.prompt = Some(crate::writer::variable_prompt(varname));
    opts.suggestion_type = SuggestionType::Disabled;
    opts.preview_window = Some(String::from_str("up:1"));
    opts
}

/// What becomes of the interpolated text once every variable is resolved.
pub enum DispatchAction {
    /// Hand the text to the clipboard collaborator.
    CopyToClipboard,
    /// Emit the text to standard output.
    PrintToStdout,
    /// Write the text to the configured file path.
    SaveToFile { path: String },
    /// The text re-invokes the program itself: recurse into its own
    /// argument handling.
    RecurseIntoProgram,
    /// Execute the text as a shell command.
    ExecuteWithShell,
}

/// Decide the post-resolution dispatch: the copy key wins, then the print
/// and save configuration, then re-invocation for a text that calls the
/// program itself, else shell execution.
pub fn post_dispatch(key: &str, print: bool, save: &Option<String>, interpolated: &str) -> (r:
    DispatchAction)
    ensures
        key@ == "ctrl-y"@ ==> r is CopyToClipboard,
        key@ != "ctrl-y"@ && print ==> r is PrintToStdout,
        key@ != "ctrl-y"@ && !print ==> (match save {
            Some(p) => r matches DispatchAction::SaveToFile { path } && path == p,
            None => if matches_at(interpolated@, "navi"@, 0) {
                r is RecurseIntoProgram
            } else {
                r is ExecuteWithShell
            },
        }),
{
    if str_eq(key, "ctrl-y") {
        DispatchAction::CopyToClipboard
    } else if print {
        DispatchAction::PrintToStdout
    } else if let Some(p) = save {
        DispatchAction::SaveToFile { path: p.clone() }
    } else if crate::text::str_starts_with(interpolated, "navi") {
        DispatchAction::RecurseIntoProgram
    } else {
        DispatchAction::ExecuteWithShell
    }
}

/// Whether a yes/no answer is affirmative: it begins with `y` in either
/// case.
pub fn is_affirmative(response: &str) -> (r: bool)
    ensures
        r == (response@.len() > 0 && (response@[0] == 'y' || response@[0] == 'Y')),
{
    let n = response.unicode_len();
    if n == 0 {
        false
    } else {
        let c = response.get_char(0);
        c == 'y' || c == 'Y'
    }
}

// ---------------------------------------------------------------------------
// Selection decoding
// ---------------------------------------------------------------------------

/// The lines of the selector's raw output.
pub open spec fn output_lines(raw: Seq<char>) -> Seq<Seq<char>> {
    split_all(raw, seq!['\n'])
}

/// The delimited fields of one selected record line.
pub open spec fn record_fields(line: Seq<char>) -> Seq<Seq<char>> {
    split_all(line, delimiter())
}

/// Round trip of one record through the wire protocol: the encoded line
/// body is a single output line, and decoding it recovers the full tags,
/// comment and snippet exactly, whatever its truncated display columns
/// hold.
pub proof fn lemma_record_roundtrip(
    tags: Seq<char>,
    comment: Seq<char>,
    snippet: Seq<char>,
    idx: nat,
    tw: int,
    cw: int,
)
    requires
        tw >= 1,
        cw >= 1,
        forall|k: int| 0 <= k < tags.len() ==> tags[k] != '\u{2800}' && tags[k] != '\n',
        forall|k: int| 0 <= k < comment.len() ==> comment[k] != '\u{2800}' && comment[k] != '\n',
        forall|k: int|
            0 <= k < snippet.len() ==> snippet[k] != '\u{2800}' && snippet[k]
                != crate::writer::newline_escape_char(),
    ensures
        ({
            let body = crate::writer::line_body_spec(tags, comment, snippet, idx, tw, cw);
            &&& output_lines(body) == seq![body]
            &&& record_fields(body).len() == 8
            &&& record_fields(body)[3] == tags
            &&& record_fields(body)[4] == comment
            &&& with_new_lines_spec(record_fields(body)[5]) == snippet
        }),
{
    crate::writer::lemma_line_roundtrip(tags, comment, snippet, idx, tw, cw);
    let body = crate::writer::line_body_spec(tags, comment, snippet, idx, tw, cw);
    assert forall|j: int| !matches_at(body, seq!['\n'], j) by {
        if matches_at(body, seq!['\n'], j) {
            assert(body.subrange(j, j + 1)[0] == body[j]);
        }
    }
    crate::writer::lemma_split_whole(body, seq!['\n'], 0);
    assert(body.skip(0) =~= body);
}

/// Decode the selector's raw output into the pressed key, the full tag
/// field and the full one-line snippet field.  The first output line is the
/// key when one was requested, else the key defaults to confirm; display
/// fields and the comment are skipped.  Fails exactly when a key was
/// requested but no second line exists, or when the record line holds
/// fewer fields than the codec requires: then the external selector broke
/// the protocol.
pub fn extract_from_selections(raw_snippet: &str, contains_key: bool) -> (r: Result<
    (String, String, String),
    NaviError,
>)
    ensures
        ({
            let lines = output_lines(raw_snippet@);
            if contains_key && lines.len() < 2 {
                r matches Err(e) && e is MalformedOutput
            } else {
                let key = if contains_key {
                    lines[0]
                } else {
                    "enter"@
                };
                let rec = if contains_key {
                    lines[1]
                } else {
                    lines[0]
                };
                let parts = record_fields(rec);
                if parts.len() <= 5 {
                    r matches Err(e) && e is MalformedOutput
                } else {
                    r matches Ok(t) && t.0@ == key && t.1@ == parts[3] && t.2@ == parts[5]
                }
            }
        }),
{
    proof {
        reveal_strlit("\n");
        assert("\n"@ =~= seq!['\n']);
    }
    let lines = str_split(raw_snippet, "\n");
    let key: String;
    let record: String;
    if contains_key {
        if lines.len() < 2 {
            return Err(NaviError::MalformedOutput);
        }
        key = lines[0].clone();
        record = lines[1].clone();
    } else {
        key = String::from_str("enter");
        record = lines[0].clone();
    }
    proof {
        reveal_strlit("enter");
        assert(lines.deep_view()[0] == lines@[0]@);
        if contains_key {
            assert(lines.deep_view()[1] == lines@[1]@);
        }
    }
    let parts = str_split(record.as_str(), delimiter_str());
    if parts.len() <= 5 {
        return Err(NaviError::MalformedOutput);
    }
    let tags = parts[3].clone();
    let snippet = parts[5].clone();
    proof {
        assert(parts.deep_view()[3] == parts@[3]@);
        assert(parts.deep_view()[5] == parts@[5]@);
    }
    Ok((key, tags, snippet))
}

} // verus!
