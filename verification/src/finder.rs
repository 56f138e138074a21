//! Selector gateway: the argument set handed to one of the two external
//! interactive selectors, the exit-status policy for its output, and the
//! column post-processing of a chosen line.

use vstd::prelude::*;
use crate::error::NaviError;
use crate::structures::Opts;
use crate::structures::SuggestionType;
use crate::text::string_from_utf8;
use crate::writer::delimiter;
use crate::writer::delimiter_str;

verus! {

/// The two interchangeable selector backends.
#[derive(Clone, Copy, Debug, PartialEq, Eq, Structural)]
pub enum FinderChoice {
    Fzf,
    Skim,
}

// ---------------------------------------------------------------------------
// Argument construction
// ---------------------------------------------------------------------------

/// View of an optional flag with a value: the flag and the value, or
/// nothing.
pub open spec fn opt_args_spec(flag: Seq<char>, o: Option<String>) -> Seq<Seq<char>> {
    match o {
        Some(s) => seq![flag, s@],
        None => seq![],
    }
}

/// The navigation-key bindings, extended with toggle-all for multi-select.
pub open spec fn bind_args_spec(o: Opts) -> Seq<char> {
    if o.suggestion_type == SuggestionType::MultipleSelections {
        "ctrl-j:down,ctrl-k:up"@ + ",ctrl-r:toggle-all"@
    } else {
        "ctrl-j:down,ctrl-k:up"@
    }
}

/// The preview window geometry: one row higher for skim.
pub open spec fn preview_window_spec(c: FinderChoice) -> Seq<char> {
    if c == FinderChoice::Skim {
        "up:3:nohidden"@
    } else {
        "up:2:nohidden"@
    }
}

/// The fixed argument set of every invocation: an empty preview, the
/// preview window geometry, visible columns restricted to the three display
/// columns, the protocol delimiter, color passthrough, the navigation keys,
/// and exact matching; fzf additionally auto-accepts a single match.
pub open spec fn fixed_args_spec(c: FinderChoice, o: Opts) -> Seq<Seq<char>> {
    seq![
        "--preview"@,
        ""@,
        "--preview-window"@,
        preview_window_spec(c),
        "--with-nth"@,
        "1,2,3"@,
        "--delimiter"@,
        delimiter(),
        "--ansi"@,
        "--bind"@,
        bind_args_spec(o),
        "--exact"@,
    ] + if c == FinderChoice::Fzf {
        seq!["--select-1"@]
    } else {
        Seq::<Seq<char>>::empty()
    }
}

/// Variant flags keyed off the suggestion type.
pub open spec fn variant_args_spec(c: FinderChoice, o: Opts) -> Seq<Seq<char>> {
    match o.suggestion_type {
        SuggestionType::MultipleSelections => seq!["--multi"@],
        SuggestionType::Disabled => if c == FinderChoice::Fzf {
            seq!["--print-query"@, "--no-select-1"@]
        } else {
            Seq::<Seq<char>>::empty()
        },
        SuggestionType::SnippetSelection => seq!["--expect"@, "ctrl-y,ctrl-o,enter"@],
        SuggestionType::SingleRecommendation => seq![
            "--print-query"@,
            "--expect"@,
            "tab,enter"@,
        ],
        SuggestionType::SingleSelection => Seq::<Seq<char>>::empty(),
    }
}

/// The header-lines flag, present only for a positive count.
pub open spec fn header_lines_args_spec(o: Opts) -> Seq<Seq<char>> {
    if o.header_lines > 0 {
        seq!["--header-lines"@, crate::text::dec_str(o.header_lines as nat)]
    } else {
        Seq::<Seq<char>>::empty()
    }
}

/// Free-form overrides: split on spaces, empty tokens dropped.
pub open spec fn keep_nonempty(parts: Seq<Seq<char>>) -> Seq<Seq<char>>
    decreases parts.len(),
{
    if parts.len() == 0 {
        Seq::<Seq<char>>::empty()
    } else if parts[0].len() > 0 {
        seq![parts[0]] + keep_nonempty(parts.drop_first())
    } else {
        keep_nonempty(parts.drop_first())
    }
}

/// The override tokens of one gateway call.
pub open spec fn overrides_args_spec(o: Opts) -> Seq<Seq<char>> {
    match o.overrides {
        Some(s) => keep_nonempty(crate::text::split_all(s@, seq![' '])),
        None => Seq::<Seq<char>>::empty(),
    }
}

/// The complete argument list of one selector invocation.
pub open spec fn finder_args_spec(c: FinderChoice, o: Opts) -> Seq<Seq<char>> {
    fixed_args_spec(c, o) + variant_args_spec(c, o) + opt_args_spec("--preview"@, o.preview)
        + opt_args_spec("--query"@, o.query) + opt_args_spec("--filter"@, o.filter)
        + opt_args_spec("--header"@, o.header) + opt_args_spec("--prompt"@, o.prompt)
        + opt_args_spec("--preview-window"@, o.preview_window) + header_lines_args_spec(o)
        + overrides_args_spec(o)
}

/// Push one literal argument.
fn push_arg(args: &mut Vec<String>, s: &str)
    ensures
        final(args).deep_view() == old(args).deep_view().push(s@),
{
    args.push(String::from_str(s));
    proof {
        assert(args.deep_view() =~= old(args).deep_view().push(s@));
    }
}

/// Push one owned argument.
fn push_arg_string(args: &mut Vec<String>, s: String)
    ensures
        final(args).deep_view() == old(args).deep_view().push(s@),
{
    args.push(s);
    proof {
        assert(args.deep_view() =~= old(args).deep_view().push(s@));
    }
}

/// Push an optional flag with its value.
fn push_opt_pair(args: &mut Vec<String>, flag: &str, o: &Option<String>)
    ensures
        final(args).deep_view() == old(args).deep_view() + opt_args_spec(flag@, *o),
{
    if let Some(s) = o {
        push_arg(args, flag);
        push_arg_string(args, s.clone());
        proof {
            assert(args.deep_view() =~= old(args).deep_view() + seq![flag@, s@]);
        }
    } else {
        proof {
            assert(args.deep_view() =~= old(args).deep_view() + opt_args_spec(flag@, *o));
        }
    }
}

/// Push the fixed argument set.
fn push_fixed_args(c: &FinderChoice, args: &mut Vec<String>, opts: &Opts)
    ensures
        final(args).deep_view() == old(args).deep_view() + fixed_args_spec(*c, *opts),
{
    push_arg(args, "--preview");
    push_arg(args, "");
    push_arg(args, "--preview-window");
    match c {
        FinderChoice::Skim => push_arg(args, "up:3:nohidden"),
        FinderChoice::Fzf => push_arg(args, "up:2:nohidden"),
    }
    push_arg(args, "--with-nth");
    push_arg(args, "1,2,3");
    push_arg(args, "--delimiter");
    push_arg(args, delimiter_str());
    push_arg(args, "--ansi");
    push_arg(args, "--bind");
    if opts.suggestion_type == SuggestionType::MultipleSelections {
        push_arg_string(
            args,
            String::from_str("ctrl-j:down,ctrl-k:up").concat(",ctrl-r:toggle-all"),
        );
    } else {
        push_arg(args, "ctrl-j:down,ctrl-k:up");
    }
    push_arg(args, "--exact");
    if let FinderChoice::Fzf = c {
        push_arg(args, "--select-1");
    }
    proof {
        assert(args.deep_view() =~= old(args).deep_view() + fixed_args_spec(*c, *opts));
    }
}

/// Push the variant flags for the suggestion type.
fn push_variant_args(c: &FinderChoice, args: &mut Vec<String>, opts: &Opts)
    ensures
        final(args).deep_view() == old(args).deep_view() + variant_args_spec(*c, *opts),
{
    match opts.suggestion_type {
        SuggestionType::MultipleSelections => {
            push_arg(args, "--multi");
        },
        SuggestionType::Disabled => {
            if let FinderChoice::Fzf = c {
                push_arg(args, "--print-query");
                push_arg(args, "--no-select-1");
            }
        },
        SuggestionType::SnippetSelection => {
            push_arg(args, "--expect");
            push_arg(args, "ctrl-y,ctrl-o,enter");
        },
        SuggestionType::SingleRecommendation => {
            push_arg(args, "--print-query");
            push_arg(args, "--expect");
            push_arg(args, "tab,enter");
        },
        SuggestionType::SingleSelection => {},
    }
    proof {
        assert(args.deep_view() =~= old(args).deep_view() + variant_args_spec(*c, *opts));
    }
}

/// Push the header-lines flag where the count is positive.
fn push_header_lines_args(args: &mut Vec<String>, opts: &Opts)
    ensures
        final(args).deep_view() == old(args).deep_view() + header_lines_args_spec(*opts),
{
    if opts.header_lines > 0 {
        push_arg(args, "--header-lines");
        push_arg_string(args, crate::text::usize_to_string(opts.header_lines as usize));
    }
    proof {
        assert(args.deep_view() =~= old(args).deep_view() + header_lines_args_spec(*opts));
    }
}

/// Push the whitespace-split override tokens, dropping empty ones.
fn push_overrides_args(args: &mut Vec<String>, opts: &Opts)
    ensures
        final(args).deep_view() == old(args).deep_view() + overrides_args_spec(*opts),
{
    let ghost base = old(args).deep_view();
    if let Some(ov) = &opts.overrides {
        proof {
            reveal_strlit(" ");
            assert(" "@ =~= seq![' ']);
        }
        let parts = crate::text::str_split(ov.as_str(), " ");
        let ghost all = crate::text::split_all(ov@, seq![' ']);
        proof {
            assert(base + keep_nonempty(all.take(0)) =~= base);
        }
        let np = parts.len();
        let mut j: usize = 0;
        while j < np
            invariant
                np == parts@.len(),
                j <= np,
                all == parts.deep_view(),
                args.deep_view() == base + keep_nonempty(all.take(j as int)),
            decreases np - j,
        {
            let part = &parts[j];
            if part.unicode_len() > 0 {
                push_arg_string(args, part.clone());
            }
            proof {
                lemma_keep_nonempty_snoc(all, j as int);
                assert(parts.deep_view()[j as int] == parts@[j as int]@);
                assert(args.deep_view() =~= base + keep_nonempty(all.take(j as int + 1)));
            }
            j = j + 1;
        }
        proof {
            assert(all.take(np as int) =~= all);
        }
    } else {
        proof {
            assert(base + overrides_args_spec(*opts) =~= base);
        }
    }
}

impl FinderChoice {
    /// The executable each backend is started as.
    pub fn executable_name(&self) -> (r: &'static str)
        ensures
            *self == FinderChoice::Fzf ==> r@ == "fzf"@,
            *self == FinderChoice::Skim ==> r@ == "sk"@,
    {
        match self {
            FinderChoice::Fzf => "fzf",
            FinderChoice::Skim => "sk",
        }
    }

    /// Build the full argument list for one invocation of this backend.
    pub fn finder_args(&self, opts: &Opts) -> (r: Vec<String>)
        ensures
            r.deep_view() == finder_args_spec(*self, *opts),
    {
        let mut args: Vec<String> = Vec::new();
        push_fixed_args(self, &mut args, opts);
        push_variant_args(self, &mut args, opts);
        push_opt_pair(&mut args, "--preview", &opts.preview);
        push_opt_pair(&mut args, "--query", &opts.query);
        push_opt_pair(&mut args, "--filter", &opts.filter);
        push_opt_pair(&mut args, "--header", &opts.header);
        push_opt_pair(&mut args, "--prompt", &opts.prompt);
        push_opt_pair(&mut args, "--preview-window", &opts.preview_window);
        push_header_lines_args(&mut args, opts);
        push_overrides_args(&mut args, opts);
        proof {
            assert(args.deep_view() =~= finder_args_spec(*self, *opts));
        }
        args
    }
}

/// Extending the prefix by one part extends the kept tokens by that part
/// exactly when it is non-empty.
pub(crate) proof fn lemma_keep_nonempty_snoc(parts: Seq<Seq<char>>, j: int)
    requires
        0 <= j < parts.len(),
    ensures
        parts[j].len() > 0 ==> keep_nonempty(parts.take(j + 1)) == keep_nonempty(
            parts.take(j),
        ).push(parts[j]),
        parts[j].len() == 0 ==> keep_nonempty(parts.take(j + 1)) == keep_nonempty(parts.take(j)),
    decreases j,
{
    if j == 0 {
        assert(parts.take(1) =~= seq![parts[0]]);
        assert(parts.take(0) =~= Seq::<Seq<char>>::empty());
        assert(parts.take(1).drop_first() =~= Seq::<Seq<char>>::empty());
        if parts[0].len() > 0 {
            assert(keep_nonempty(parts.take(1)) =~= keep_nonempty(parts.take(0)).push(parts[0]));
        }
    } else {
        lemma_keep_nonempty_snoc(parts.drop_first(), j - 1);
        assert(parts.take(j + 1).drop_first() =~= parts.drop_first().take(j));
        assert(parts.take(j).drop_first() =~= parts.drop_first().take(j - 1));
        assert(parts.take(j + 1)[0] == parts[0]);
        assert(parts.take(j)[0] == parts[0]);
        assert(parts.drop_first()[j - 1] == parts[j]);
        if parts[0].len() > 0 && parts[j].len() > 0 {
            assert(keep_nonempty(parts.take(j + 1)) == seq![parts[0]] + keep_nonempty(
                parts.drop_first().take(j),
            ));
            assert(seq![parts[0]] + keep_nonempty(parts.drop_first().take(j - 1)).push(
                parts[j],
            ) =~= (seq![parts[0]] + keep_nonempty(parts.drop_first().take(j - 1))).push(
                parts[j],
            ));
        }
    }
}

// ---------------------------------------------------------------------------
// Output post-processing
// ---------------------------------------------------------------------------

/// Whether a pattern is accepted by the regex engine; a function of the
/// pattern alone.
pub uninterp spec fn regex_ok(pattern: Seq<char>) -> bool;

/// The fields of `text` between matches of `pattern`; a function of the
/// pattern and the text alone.
pub uninterp spec fn regex_split_of(pattern: Seq<char>, text: Seq<char>) -> Seq<Seq<char>>;

/// Relies on `regex::Regex::new`, which accepts exactly the valid patterns,
/// and `regex::Regex::split`, which yields the parts of `text` between
/// matches of the compiled pattern; both depend on pattern and text alone.
#[verifier::external_body]
fn regex_split(pattern: &str, text: &str) -> (r: Option<Vec<String>>)
    ensures
        (r is Some) <==> regex_ok(pattern@),
        r matches Some(parts) ==> parts.deep_view() == regex_split_of(pattern@, text@),
{
    match regex::Regex::new(pattern) {
        Ok(re) => Some(re.split(text).map(|p| p.to_string()).collect()),
        Err(_) => None,
    }
}

/// View of an optional string slice.
pub open spec fn opt_str_view(o: Option<&str>) -> Option<Seq<char>> {
    match o {
        Some(d) => Some(d@),
        None => None,
    }
}

/// What column extraction returns: without a column the text is unchanged;
/// with a 1-based column the text is split on the delimiter pattern (two or
/// more whitespace characters by default) and that column is returned, a
/// missing column or an invalid pattern being errors.
pub open spec fn process_post(
    text: Seq<char>,
    column: Option<u8>,
    delimiter_pat: Option<Seq<char>>,
    r: Result<String, NaviError>,
) -> bool {
    match column {
        None => r matches Ok(s) && s@ == text,
        Some(c) => {
            let pat = match delimiter_pat {
                Some(d) => d,
                None => "\\s\\s+"@,
            };
            if !regex_ok(pat) {
                r matches Err(e) && e is InvalidDelimiter
            } else if c == 0 || regex_split_of(pat, text).len() < c as int {
                r matches Err(e) && e is ColumnOutOfRange
            } else {
                r matches Ok(s) && s@ == regex_split_of(pat, text)[c as int - 1]
            }
        },
    }
}

/// What column extraction yields, `None` standing for any failure.
pub open spec fn process_spec(
    text: Seq<char>,
    column: Option<u8>,
    delimiter_pat: Option<Seq<char>>,
) -> Option<Seq<char>> {
    match column {
        None => Some(text),
        Some(c) => {
            let pat = match delimiter_pat {
                Some(d) => d,
                None => "\\s\\s+"@,
            };
            if !regex_ok(pat) {
                None
            } else if c == 0 || regex_split_of(pat, text).len() < c as int {
                None
            } else {
                Some(regex_split_of(pat, text)[c as int - 1])
            }
        },
    }
}

/// Post-process a chosen line: extract the requested 1-based column, split
/// on the given delimiter pattern or on runs of two or more whitespace
/// characters.
pub fn process(text: String, column: Option<u8>, delimiter_pat: Option<&str>) -> (r: Result<
    String,
    NaviError,
>)
    ensures
        process_post(text@, column, opt_str_view(delimiter_pat), r),
        match process_spec(text@, column, opt_str_view(delimiter_pat)) {
            Some(v) => r matches Ok(s) && s@ == v,
            None => r is Err,
        },
{
    match column {
        None => Ok(text),
        Some(c) => {
            let pat: &str = match delimiter_pat {
                Some(d) => d,
                None => "\\s\\s+",
            };
            match regex_split(pat, text.as_str()) {
                None => Err(NaviError::InvalidDelimiter),
                Some(parts) => {
                    if c == 0 || parts.len() < c as usize {
                        proof {
                            assert(parts@.len() == parts.deep_view().len());
                        }
                        Err(NaviError::ColumnOutOfRange)
                    } else {
                        let idx: usize = c as usize - 1;
                        let part = parts[idx].clone();
                        proof {
                            assert(parts.deep_view()[idx as int] == parts@[idx as int]@);
                        }
                        Ok(part)
                    }
                },
            }
        },
    }
}

// ---------------------------------------------------------------------------
// Exit-status policy
// ---------------------------------------------------------------------------

/// Exit statuses whose standard output is treated as a valid selection;
/// one and two mean "no match" but the bytes are still parsed.
pub open spec fn is_success_code(code: Option<i32>) -> bool {
    code == Some(0i32) || code == Some(1i32) || code == Some(2i32)
}

/// The user-cancellation exit status.
pub open spec fn is_cancel_code(code: Option<i32>) -> bool {
    code == Some(130i32)
}

/// Apply the exit-status policy to a finished selector process and
/// post-process its output.  Cancellation is reported if and only if the
/// selector exited with the cancellation status; no selection text is ever
/// produced from it.
pub fn parse(
    code: Option<i32>,
    stdout: Vec<u8>,
    stderr: Vec<u8>,
    column: Option<u8>,
    delimiter_pat: Option<&str>,
) -> (r: Result<String, NaviError>)
    ensures
        is_cancel_code(code) <==> (r matches Err(e) && e is Cancelled),
        !is_success_code(code) && !is_cancel_code(code) ==> (r matches Err(e) && e matches
            NaviError::FinderFailed { stderr: sb } && sb@ == stderr@),
        is_success_code(code) && !vstd::utf8::valid_utf8(stdout@) ==> (r matches Err(e)
            && e is InvalidUtf8),
        is_success_code(code) && vstd::utf8::valid_utf8(stdout@) ==> process_post(
            vstd::utf8::decode_utf8(stdout@),
            column,
            opt_str_view(delimiter_pat),
            r,
        ),
{
    let success = match code {
        Some(c) => c == 0 || c == 1 || c == 2,
        None => false,
    };
    if success {
        match string_from_utf8(stdout) {
            Some(text) => {
                let r = process(text, column, delimiter_pat);
                proof {
                    assert(!(r matches Err(e) && e is Cancelled));
                }
                r
            },
            None => Err(NaviError::InvalidUtf8),
        }
    } else {
        let cancelled = match code {
            Some(c) => c == 130,
            None => false,
        };
        if cancelled {
            Err(NaviError::Cancelled)
        } else {
            Err(NaviError::FinderFailed { stderr })
        }
    }
}

} // verus!
