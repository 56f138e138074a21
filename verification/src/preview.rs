//! Context channel and preview rendering: the well-known environment
//! binding names that carry rendering state to a preview sub-invocation,
//! and the pure renderer that colors the active placeholder and lists the
//! resolved values.

use vstd::prelude::*;
use crate::error::NaviError;
use crate::finder::opt_str_view;
use crate::finder::process;
use crate::finder::process_spec;
use crate::flows::bracket;
use crate::flows::dedup_names;
use crate::flows::distinct_names;
use crate::flows::placeholder_names;
use crate::text::contains_pat;
use crate::text::push_char;
use crate::text::replace_all;
use crate::text::str_contains;
use crate::text::str_eq;
use crate::text::str_replace_all;
use crate::text::trim_char;
use crate::text::trim_char_spec;
use crate::writer::fix_newlines;
use crate::writer::fix_newlines_spec;

verus! {

/// One environment binding: a name and its value.
pub struct Binding {
    pub name: String,
    pub value: String,
}

// ---------------------------------------------------------------------------
// Well-known binding names
// ---------------------------------------------------------------------------

/// Binding carrying the snippet being resolved.
pub fn preview_snippet_var() -> (r: &'static str)
    ensures
        r@ == "NAVI_PREVIEW_INITIAL_SNIPPET"@,
{
    "NAVI_PREVIEW_INITIAL_SNIPPET"
}

/// Binding carrying the selected record's tags.
pub fn preview_tags_var() -> (r: &'static str)
    ensures
        r@ == "NAVI_PREVIEW_TAGS"@,
{
    "NAVI_PREVIEW_TAGS"
}

/// Binding carrying the selected record's comment.
pub fn preview_comment_var() -> (r: &'static str)
    ensures
        r@ == "NAVI_PREVIEW_COMMENT"@,
{
    "NAVI_PREVIEW_COMMENT"
}

/// Binding carrying the active suggestion's column hint.
pub fn preview_column_var() -> (r: &'static str)
    ensures
        r@ == "NAVI_PREVIEW_COLUMN"@,
{
    "NAVI_PREVIEW_COLUMN"
}

/// Binding carrying the active suggestion's delimiter hint.
pub fn preview_delimiter_var() -> (r: &'static str)
    ensures
        r@ == "NAVI_PREVIEW_DELIMITER"@,
{
    "NAVI_PREVIEW_DELIMITER"
}

/// Binding carrying the active suggestion's map hint.
pub fn preview_map_var() -> (r: &'static str)
    ensures
        r@ == "NAVI_PREVIEW_MAP"@,
{
    "NAVI_PREVIEW_MAP"
}

/// The environment name under which a resolved variable's value is kept:
/// hyphens become underscores.
pub open spec fn env_key_spec(name: Seq<char>) -> Seq<char> {
    replace_all(name, seq!['-'], seq!['_'])
}

/// Build the environment name for a variable.
pub fn env_key(name: &str) -> (r: String)
    ensures
        r@ == env_key_spec(name@),
{
    proof {
        reveal_strlit("-");
        reveal_strlit("_");
        assert("-"@ =~= seq!['-']);
        assert("_"@ =~= seq!['_']);
    }
    str_replace_all(name, "-", "_")
}

/// The value of the first binding with the given name, or empty.
pub open spec fn binding_value(bs: Seq<Binding>, name: Seq<char>) -> Seq<char>
    decreases bs.len(),
{
    if bs.len() == 0 {
        Seq::<char>::empty()
    } else if bs[0].name@ == name {
        bs[0].value@
    } else {
        binding_value(bs.drop_first(), name)
    }
}

/// Look a name up in an environment snapshot; absent names read as empty.
pub fn lookup_binding(bs: &Vec<Binding>, name: &str) -> (r: String)
    ensures
        r@ == binding_value(bs@, name@),
{
    let n = bs.len();
    let mut i: usize = 0;
    proof {
        assert(bs@.skip(0) =~= bs@);
    }
    while i < n
        invariant
            n == bs@.len(),
            i <= n,
            binding_value(bs@, name@) == binding_value(bs@.skip(i as int), name@),
        decreases n - i,
    {
        let b = &bs[i];
        proof {
            assert(bs@.skip(i as int)[0] == bs@[i as int]);
            assert(bs@.skip(i as int).drop_first() =~= bs@.skip(i as int + 1));
        }
        if str_eq(b.name.as_str(), name) {
            return b.value.clone();
        }
        i = i + 1;
    }
    proof {
        assert(bs@.skip(n as int) =~= Seq::<Binding>::empty());
    }
    String::new()
}

// ---------------------------------------------------------------------------
// Rendering
// ---------------------------------------------------------------------------

/// A text wrapped in a color prefix and a reset suffix.
pub open spec fn styled(prefix: Seq<char>, x: Seq<char>, reset: Seq<char>) -> Seq<char> {
    prefix + x + reset
}

/// Wrap a text in a color prefix and a reset suffix.
pub fn style_str(prefix: &str, x: &str, reset: &str) -> (r: String)
    ensures
        r@ == styled(prefix@, x@, reset@),
{
    let mut out = String::new();
    out.append(prefix);
    out.append(x);
    out.append(reset);
    proof {
        assert(out@ =~= styled(prefix@, x@, reset@));
    }
    out
}

/// The value shown for the variable being resolved: the current selection
/// stripped of single quotes, or the current query when that is empty.
pub open spec fn current_value(selection: Seq<char>, query: Seq<char>) -> Seq<char> {
    if trim_char_spec(selection, '\'').len() == 0 {
        trim_char_spec(query, '\'')
    } else {
        trim_char_spec(selection, '\'')
    }
}

/// The placeholder names a preview renders: the snippet's distinct names
/// where the active variable's token occurs in it, else the active
/// variable alone.
pub open spec fn preview_names(snippet: Seq<char>, variable: Seq<char>) -> Seq<Seq<char>> {
    if contains_pat(snippet, bracket(variable)) {
        distinct_names(snippet)
    } else {
        seq![variable]
    }
}

/// One pass over the names from index `k` on: each bracketed token in the
/// working snippet is wrapped in its color, and one `name = value` line is
/// appended per name; `None` when a value's column extraction fails.
pub open spec fn preview_fold(
    names: Seq<Seq<char>>,
    k: int,
    variable: Seq<char>,
    selection: Seq<char>,
    query: Seq<char>,
    resolved: Seq<Binding>,
    column: Option<u8>,
    delim: Option<Seq<char>>,
    active: Seq<char>,
    inactive: Seq<char>,
    reset: Seq<char>,
    colored: Seq<char>,
    vars: Seq<char>,
) -> Option<(Seq<char>, Seq<char>)>
    decreases names.len() - k,
{
    if k < 0 || k >= names.len() {
        Some((colored, vars))
    } else {
        let name = names[k];
        let color = if name == variable {
            active
        } else {
            inactive
        };
        let value = if name == variable {
            current_value(selection, query)
        } else {
            binding_value(resolved, env_key_spec(name))
        };
        match process_spec(value, column, delim) {
            None => None,
            Some(pv) => preview_fold(
                names,
                k + 1,
                variable,
                selection,
                query,
                resolved,
                column,
                delim,
                active,
                inactive,
                reset,
                replace_all(colored, bracket(name), styled(color, bracket(name), reset)),
                vars + seq!['\n'] + styled(color, name, reset) + " = "@ + pv,
            ),
        }
    }
}

/// The first output line: the styled comment and bracketed tags.
pub open spec fn preview_header(
    comment: Seq<char>,
    tags: Seq<char>,
    active: Seq<char>,
    inactive: Seq<char>,
    reset: Seq<char>,
) -> Seq<char> {
    styled(inactive, comment, reset) + seq![' '] + styled(
        active,
        seq!['['] + tags + seq![']'],
        reset,
    )
}

/// Render the preview of a variable being resolved: the header line, the
/// snippet with every placeholder token colored (the active one in the
/// active color), and one `name = value` line per distinct placeholder,
/// values taken from the current selection or the resolved bindings and
/// column-extracted per the suggestion's hints.  Fails exactly when a
/// value's column extraction fails.
#[verifier::rlimit(80)]
pub fn preview_var(
    selection: &str,
    query: &str,
    variable: &str,
    snippet: &str,
    tags: &str,
    comment: &str,
    column: Option<u8>,
    delimiter_pat: Option<&str>,
    resolved: &Vec<Binding>,
    active: &str,
    inactive: &str,
    reset: &str,
) -> (r: Result<(String, String, String), NaviError>)
    ensures
        ({
            let names = preview_names(snippet@, variable@);
            match preview_fold(
                names,
                0,
                variable@,
                selection@,
                query@,
                resolved@,
                column,
                opt_str_view(delimiter_pat),
                active@,
                inactive@,
                reset@,
                snippet@,
                Seq::<char>::empty(),
            ) {
                Some(cv) => r matches Ok(t) && t.0@ == preview_header(
                    comment@,
                    tags@,
                    active@,
                    inactive@,
                    reset@,
                ) && t.1@ == fix_newlines_spec(cv.0) && t.2@ == cv.1,
                None => r is Err,
            }
        }),
{
    let mut br_tags = String::new();
    push_char(&mut br_tags, '[');
    br_tags.append(tags);
    push_char(&mut br_tags, ']');
    let mut header = style_str(inactive, comment, reset);
    push_char(&mut header, ' ');
    let styled_tags = style_str(active, br_tags.as_str(), reset);
    header.append(styled_tags.as_str());
    proof {
        assert(br_tags@ =~= seq!['['] + tags@ + seq![']']);
        assert(header@ =~= preview_header(comment@, tags@, active@, inactive@, reset@));
    }

    let mut br_var = String::new();
    push_char(&mut br_var, '<');
    br_var.append(variable);
    push_char(&mut br_var, '>');
    proof {
        assert(br_var@ =~= bracket(variable@));
    }
    let names: Vec<String> = if str_contains(snippet, br_var.as_str()) {
        dedup_names(placeholder_names(snippet))
    } else {
        let mut v: Vec<String> = Vec::new();
        v.push(String::from_str(variable));
        v
    };
    proof {
        assert(names.deep_view() =~= preview_names(snippet@, variable@));
    }
    let ghost names_s = names.deep_view();

    let mut colored = String::from_str(snippet);
    let mut vars = String::new();
    let n = names.len();
    let mut k: usize = 0;
    while k < n
        invariant
            n == names@.len(),
            k <= n,
            names_s == names.deep_view(),
            names_s == preview_names(snippet@, variable@),
            preview_fold(
                names_s,
                0,
                variable@,
                selection@,
                query@,
                resolved@,
                column,
                opt_str_view(delimiter_pat),
                active@,
                inactive@,
                reset@,
                snippet@,
                Seq::<char>::empty(),
            ) == preview_fold(
                names_s,
                k as int,
                variable@,
                selection@,
                query@,
                resolved@,
                column,
                opt_str_view(delimiter_pat),
                active@,
                inactive@,
                reset@,
                colored@,
                vars@,
            ),
        decreases n - k,
    {
        let ghost prev_colored = colored@;
        let ghost prev_vars = vars@;
        let name = &names[k];
        proof {
            assert(names_s[k as int] == names@[k as int]@);
        }
        let is_cur = str_eq(name.as_str(), variable);
        let color = if is_cur {
            active
        } else {
            inactive
        };
        let value: String = if is_cur {
            let v = trim_char(selection, '\'');
            if v.unicode_len() == 0 {
                trim_char(query, '\'')
            } else {
                v
            }
        } else {
            let ek = env_key(name.as_str());
            lookup_binding(resolved, ek.as_str())
        };
        let ghost value_v = value@;
        let processed = match process(value, column, delimiter_pat) {
            Ok(p) => p,
            Err(e) => {
                proof {
                    let spec_name = names_s[k as int];
                    assert(value_v == if spec_name == variable@ {
                        current_value(selection@, query@)
                    } else {
                        binding_value(resolved@, env_key_spec(spec_name))
                    });
                    assert(process_spec(value_v, column, opt_str_view(delimiter_pat)) is None);
                    assert(preview_fold(
                        names_s,
                        k as int,
                        variable@,
                        selection@,
                        query@,
                        resolved@,
                        column,
                        opt_str_view(delimiter_pat),
                        active@,
                        inactive@,
                        reset@,
                        colored@,
                        vars@,
                    ) is None);
                }
                return Err(e);
            },
        };
        let mut br = String::new();
        push_char(&mut br, '<');
        br.append(name.as_str());
        push_char(&mut br, '>');
        proof {
            assert(br@ =~= bracket(names_s[k as int]));
        }
        let styled_tok = style_str(color, br.as_str(), reset);
        let new_colored = str_replace_all(colored.as_str(), br.as_str(), styled_tok.as_str());
        colored = new_colored;
        push_char(&mut vars, '\n');
        let styled_name = style_str(color, name.as_str(), reset);
        vars.append(styled_name.as_str());
        vars.append(" = ");
        vars.append(processed.as_str());
        proof {
            assert(vars@ =~= prev_vars + seq!['\n'] + styled(color@, names_s[k as int], reset@)
                + " = "@ + processed@);
        }
        k = k + 1;
    }
    let snippet_line = fix_newlines(colored.as_str());
    Ok((header, snippet_line, vars))
}

} // verus!
