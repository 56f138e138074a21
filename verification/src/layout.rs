//! Layout engine: terminal-width-derived column widths and display
//! truncation or padding of column text.

use vstd::prelude::*;
use crate::text::push_char;

verus! {

/// Width of a column: never below the configured minimum, otherwise the
/// given percentage of the total width.
pub open spec fn width_spec(total: int, min: int, pct: int) -> int {
    if total * pct / 100 > min {
        total * pct / 100
    } else {
        min
    }
}

/// Display form of `s` in a column of `length` cells: over-long text is cut
/// to `length - 1` characters plus an ellipsis, shorter text is padded on
/// the right with spaces to exactly `length` characters.
pub open spec fn limit_spec(s: Seq<char>, length: int) -> Seq<char>
    recommends
        length >= 1,
{
    if s.len() > length {
        s.take(length - 1).push('\u{2026}')
    } else {
        s + Seq::new((length - s.len()) as nat, |i: int| ' ')
    }
}

/// Column widths for the tag, comment and snippet columns, derived from the
/// terminal width and one minimum/percentage configuration pair per column.
pub fn get_widths(
    width: u16,
    tag_min: u16,
    tag_pct: u16,
    comment_min: u16,
    comment_pct: u16,
    snippet_min: u16,
    snippet_pct: u16,
) -> (r: (usize, usize, usize))
    ensures
        r.0 == width_spec(width as int, tag_min as int, tag_pct as int),
        r.1 == width_spec(width as int, comment_min as int, comment_pct as int),
        r.2 == width_spec(width as int, snippet_min as int, snippet_pct as int),
{
    (
        one_width(width, tag_min, tag_pct),
        one_width(width, comment_min, comment_pct),
        one_width(width, snippet_min, snippet_pct),
    )
}

/// One column width from the terminal width and a minimum/percentage pair.
pub fn one_width(width: u16, min: u16, pct: u16) -> (r: usize)
    ensures
        r == width_spec(width as int, min as int, pct as int),
{
    proof {
        assert((width as int) * (pct as int) <= 65535 * 65535) by (nonlinear_arith)
            requires
                0 <= width as int <= 65535,
                0 <= pct as int <= 65535,
        ;
    }
    let scaled: usize = (width as usize) * (pct as usize) / 100;
    if scaled > min as usize {
        scaled
    } else {
        min as usize
    }
}

/// The text with every whitespace character mapped to a plain space.
pub open spec fn ws_to_space(s: Seq<char>) -> Seq<char> {
    s.map_values(
        |c: char|
            if crate::text::is_ws(c) {
                ' '
            } else {
                c
            },
    )
}

/// The whitespace-separated tokens of a report.
pub open spec fn ws_tokens(s: Seq<char>) -> Seq<Seq<char>> {
    crate::finder::keep_nonempty(crate::text::split_all(ws_to_space(s), seq![' ']))
}

/// The terminal width in a `stty size` report: its second
/// whitespace-separated token read as a decimal number; fails exactly when
/// that token is missing, not a number, or too large.
pub fn stty_width(report: &str) -> (r: Option<u16>)
    ensures
        ({
            let tokens = ws_tokens(report@);
            match r {
                Some(v) => tokens.len() >= 2 && crate::text::all_digits(tokens[1]) && v as int
                    == crate::text::digits_val(tokens[1]),
                None => tokens.len() < 2 || tokens[1].len() == 0 || !crate::text::all_digits(
                    tokens[1],
                ) || crate::text::digits_val(tokens[1]) > u16::MAX,
            }
        }),
{
    let n: usize = report.unicode_len();
    let mut mapped = String::new();
    let mut i: usize = 0;
    while i < n
        invariant
            n == report@.len(),
            i <= n,
            mapped@.len() == i,
            forall|j: int|
                0 <= j < i ==> mapped@[j] == (if crate::text::is_ws(report@[j]) {
                    ' '
                } else {
                    report@[j]
                }),
        decreases n - i,
    {
        let c = report.get_char(i);
        if crate::text::is_ws_exec(c) {
            crate::text::push_char(&mut mapped, ' ');
        } else {
            crate::text::push_char(&mut mapped, c);
        }
        i = i + 1;
    }
    proof {
        assert(mapped@ =~= ws_to_space(report@));
        reveal_strlit(" ");
        assert(" "@ =~= seq![' ']);
    }
    let parts = crate::text::str_split(mapped.as_str(), " ");
    let ghost all = crate::text::split_all(mapped@, seq![' ']);
    let mut tokens: Vec<String> = Vec::new();
    let np = parts.len();
    let mut j: usize = 0;
    proof {
        assert(tokens.deep_view() =~= crate::finder::keep_nonempty(all.take(0)));
    }
    while j < np
        invariant
            np == parts@.len(),
            j <= np,
            all == parts.deep_view(),
            tokens.deep_view() == crate::finder::keep_nonempty(all.take(j as int)),
        decreases np - j,
    {
        let ghost prev = tokens.deep_view();
        let part = &parts[j];
        if part.unicode_len() > 0 {
            tokens.push(part.clone());
        }
        proof {
            crate::finder::lemma_keep_nonempty_snoc(all, j as int);
            assert(parts.deep_view()[j as int] == parts@[j as int]@);
            if parts@[j as int]@.len() > 0 {
                assert(tokens.deep_view() =~= prev.push(parts@[j as int]@));
            }
            assert(tokens.deep_view() =~= crate::finder::keep_nonempty(all.take(j as int + 1)));
        }
        j = j + 1;
    }
    proof {
        assert(all.take(np as int) =~= all);
    }
    if tokens.len() < 2 {
        None
    } else {
        let r = crate::text::parse_u16(tokens[1].as_str());
        proof {
            assert(tokens.deep_view()[1] == tokens@[1]@);
        }
        r
    }
}

/// Truncate or pad `text` to exactly `length` display characters.
pub fn limit_str(text: &str, length: usize) -> (r: String)
    requires
        length >= 1,
    ensures
        r@ == limit_spec(text@, length as int),
{
    let n: usize = text.unicode_len();
    let mut out = String::new();
    if n > length {
        let mut i: usize = 0;
        while i < length - 1
            invariant
                n == text@.len(),
                n > length >= 1,
                i <= length - 1,
                out@ == text@.take(i as int),
            decreases length - i,
        {
            let c = text.get_char(i);
            push_char(&mut out, c);
            proof {
                assert(text@.take(i as int).push(c) =~= text@.take(i as int + 1));
            }
            i = i + 1;
        }
        push_char(&mut out, '\u{2026}');
        out
    } else {
        let mut i: usize = 0;
        while i < n
            invariant
                n == text@.len(),
                n <= length,
                i <= n,
                out@ == text@.take(i as int),
            decreases n - i,
        {
            let c = text.get_char(i);
            push_char(&mut out, c);
            proof {
                assert(text@.take(i as int).push(c) =~= text@.take(i as int + 1));
            }
            i = i + 1;
        }
        while i < length
            invariant
                n == text@.len(),
                n <= i <= length,
                out@ == text@ + Seq::new((i - n) as nat, |k: int| ' '),
            decreases length - i,
        {
            push_char(&mut out, ' ');
            proof {
                assert((text@ + Seq::new((i - n) as nat, |k: int| ' ')).push(' ') =~= text@
                    + Seq::new((i + 1 - n) as nat, |k: int| ' '));
            }
            i = i + 1;
        }
        out
    }
}

} // verus!
