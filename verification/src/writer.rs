//! Line protocol codec: encodes records into single delimited lines for the
//! selector and keeps multi-line snippets on one physical line through a
//! newline sentinel.

use vstd::prelude::*;
use crate::text::is_ws;
use crate::text::is_ws_exec;
use crate::text::lemma_replace_from_shift;
use crate::text::matches_at;
use crate::text::push_char;
use crate::text::replace_all;
use crate::text::replace_from;
use crate::text::split_all;
use crate::text::str_contains_char;
use crate::text::str_replace_all;

verus! {

// ---------------------------------------------------------------------------
// Protocol constants
// ---------------------------------------------------------------------------

/// The column delimiter of the wire protocol: two spaces followed by a
/// braille blank, a sequence that does not occur in natural text.
pub open spec fn delimiter() -> Seq<char> {
    seq![' ', ' ', '\u{2800}']
}

/// The sentinel that stands for one newline inside a single-line column.
pub open spec fn line_separator() -> Seq<char> {
    seq![' ', '\u{15}', ' ']
}

/// A single newline character.
pub open spec fn newline_seq() -> Seq<char> {
    seq!['\n']
}

/// The escape character at the middle of the newline sentinel.
pub open spec fn newline_escape_char() -> char {
    '\u{15}'
}

/// The delimiter as a string slice.
pub fn delimiter_str() -> (r: &'static str)
    ensures
        r@ == delimiter(),
{
    let s = "  \u{2800}";
    proof {
        reveal_strlit("  \u{2800}");
        assert(s@ =~= delimiter());
    }
    s
}

/// The newline sentinel as a string slice.
pub fn line_separator_str() -> (r: &'static str)
    ensures
        r@ == line_separator(),
{
    let s = " \u{15} ";
    proof {
        reveal_strlit(" \u{15} ");
        assert(s@ =~= line_separator());
    }
    s
}

/// A newline as a string slice.
pub fn newline_str() -> (r: &'static str)
    ensures
        r@ == newline_seq(),
{
    let s = "\n";
    proof {
        reveal_strlit("\n");
        assert(s@ =~= newline_seq());
    }
    s
}

// ---------------------------------------------------------------------------
// Newline sentinel
// ---------------------------------------------------------------------------

/// Text with every newline replaced by the sentinel.
pub open spec fn escape_newlines_spec(s: Seq<char>) -> Seq<char> {
    replace_all(s, newline_seq(), line_separator())
}

/// Text with every sentinel replaced back by a newline.
pub open spec fn with_new_lines_spec(s: Seq<char>) -> Seq<char> {
    replace_all(s, line_separator(), newline_seq())
}

/// Replace every newline in `txt` by the sentinel.
pub fn escape_newlines(txt: &str) -> (r: String)
    ensures
        r@ == escape_newlines_spec(txt@),
{
    str_replace_all(txt, newline_str(), line_separator_str())
}

/// Replace every sentinel in `txt` back by a newline.
pub fn with_new_lines(txt: &str) -> (r: String)
    ensures
        r@ == with_new_lines_spec(txt@),
{
    str_replace_all(txt, line_separator_str(), newline_str())
}

/// Escaped text that held no escape character never begins with it.
proof fn lemma_escape_head(s: Seq<char>)
    requires
        forall|k: int| 0 <= k < s.len() ==> s[k] != newline_escape_char(),
    ensures
        escape_newlines_spec(s).len() > 0 ==> escape_newlines_spec(s)[0] != newline_escape_char(),
{
    let e = escape_newlines_spec(s);
    if s.len() == 0 {
    } else if matches_at(s, newline_seq(), 0) {
        assert(e == line_separator() + replace_from(s, newline_seq(), line_separator(), 1));
        assert(e[0] == ' ');
    } else {
        assert(e == seq![s[0]] + replace_from(s, newline_seq(), line_separator(), 1));
        assert(e[0] == s[0]);
    }
}

/// The newline sentinel is a bijection on texts free of the escape
/// character: escaping and unescaping returns the original text exactly,
/// whatever newlines it holds.
pub proof fn lemma_newline_roundtrip(s: Seq<char>)
    requires
        forall|k: int| 0 <= k < s.len() ==> s[k] != newline_escape_char(),
    ensures
        with_new_lines_spec(escape_newlines_spec(s)) == s,
    decreases s.len(),
{
    let nl = newline_seq();
    let sep = line_separator();
    if s.len() == 0 {
        assert(escape_newlines_spec(s) =~= Seq::<char>::empty());
        assert(with_new_lines_spec(escape_newlines_spec(s)) =~= s);
    } else {
        assert forall|k: int| 0 <= k < s.skip(1).len() implies s.skip(1)[k]
            != newline_escape_char() by {
            assert(s.skip(1)[k] == s[k + 1]);
        }
        lemma_newline_roundtrip(s.skip(1));
        lemma_escape_head(s.skip(1));
        let t = escape_newlines_spec(s.skip(1));
        let e = escape_newlines_spec(s);
        lemma_replace_from_shift(s, nl, sep, 1, 0);
        if matches_at(s, nl, 0) {
            assert(s[0] == '\n') by {
                assert(s.subrange(0, 1)[0] == s[0]);
            }
            assert(e == sep + t);
            assert(matches_at(e, sep, 0)) by {
                assert(e.subrange(0, 3) =~= sep);
            }
            lemma_replace_from_shift(e, sep, nl, 3, 0);
            assert(e.skip(3) =~= t);
            assert(with_new_lines_spec(e) == nl + with_new_lines_spec(t));
            assert(nl + s.skip(1) =~= s);
        } else {
            assert(s[0] != '\n') by {
                if s[0] == '\n' {
                    assert(s.subrange(0, 1) =~= nl);
                }
            }
            assert(e == seq![s[0]] + t);
            assert(!matches_at(e, sep, 0)) by {
                if matches_at(e, sep, 0) {
                    assert(e.subrange(0, 3)[1] == sep[1]);
                    assert(e[1] == newline_escape_char());
                    assert(e[1] == t[0]);
                }
            }
            lemma_replace_from_shift(e, sep, nl, 1, 0);
            assert(e.skip(1) =~= t);
            assert(with_new_lines_spec(e) == seq![e[0]] + with_new_lines_spec(t));
            assert(e[0] == s[0]);
            assert(seq![s[0]] + s.skip(1) =~= s);
        }
    }
}

// ---------------------------------------------------------------------------
// Display cleanup
// ---------------------------------------------------------------------------

/// Text with every backslash-then-whitespace run removed; `skipping` tells
/// whether the scan stands inside such a run.
pub open spec fn strip_continuations_from(s: Seq<char>, i: int, skipping: bool) -> Seq<char>
    decreases s.len() - i,
{
    if i < 0 || i >= s.len() {
        Seq::<char>::empty()
    } else if skipping && is_ws(s[i]) {
        strip_continuations_from(s, i + 1, true)
    } else if s[i] == '\\' && i + 1 < s.len() && is_ws(s[i + 1]) {
        strip_continuations_from(s, i + 1, true)
    } else {
        seq![s[i]] + strip_continuations_from(s, i + 1, false)
    }
}

/// Display form of a snippet column: sentinels become two spaces and
/// backslash line continuations disappear; text without any escape
/// character is kept as it is.
pub open spec fn fix_newlines_spec(s: Seq<char>) -> Seq<char> {
    if s.contains(newline_escape_char()) {
        strip_continuations_from(replace_all(s, line_separator(), seq![' ', ' ']), 0, false)
    } else {
        s
    }
}

/// Clean a snippet column for display.
pub fn fix_newlines(txt: &str) -> (r: String)
    ensures
        r@ == fix_newlines_spec(txt@),
{
    if !str_contains_char(txt, '\u{15}') {
        let mut out = String::new();
        out.append(txt);
        return out;
    }
    let two_spaces = "  ";
    proof {
        reveal_strlit("  ");
        assert(two_spaces@ =~= seq![' ', ' ']);
    }
    let replaced = str_replace_all(txt, line_separator_str(), two_spaces);
    let s = replaced.as_str();
    let n: usize = s.unicode_len();
    let mut out = String::new();
    let mut skipping = false;
    let mut i: usize = 0;
    while i < n
        invariant
            n == s@.len(),
            i <= n,
            strip_continuations_from(s@, 0, false) == out@ + strip_continuations_from(
                s@,
                i as int,
                skipping,
            ),
        decreases n - i,
    {
        let ghost prev = out@;
        let c = s.get_char(i);
        if skipping && is_ws_exec(c) {
        } else if c == '\\' && i + 1 < n && is_ws_exec(s.get_char(i + 1)) {
            skipping = true;
        } else {
            push_char(&mut out, c);
            skipping = false;
            proof {
                let tail = strip_continuations_from(s@, i as int + 1, false);
                assert(prev.push(c) + tail =~= prev + (seq![c] + tail));
            }
        }
        i = i + 1;
    }
    proof {
        assert(out@ + strip_continuations_from(s@, i as int, skipping) =~= out@);
    }
    out
}

// ---------------------------------------------------------------------------
// Record encoding
// ---------------------------------------------------------------------------

/// One selectable candidate: tags, comment, snippet template and the index
/// of the source file it came from.
pub struct Item {
    pub tags: String,
    pub comment: String,
    pub snippet: String,
    pub file_index: usize,
}

/// Encodes items into protocol lines using fixed display column widths.
pub struct Writer {
    pub tag_width: usize,
    pub comment_width: usize,
}

/// The given fields joined by the delimiter, each field followed by one
/// delimiter occurrence.
pub open spec fn join_fields(fields: Seq<Seq<char>>) -> Seq<char>
    decreases fields.len(),
{
    if fields.len() == 0 {
        Seq::<char>::empty()
    } else {
        fields[0] + delimiter() + join_fields(fields.drop_first())
    }
}

/// The seven column values of one encoded record: truncated display copies
/// of tags and comment, the one-line display snippet, then the full tags,
/// comment and one-line snippet, then the file index in decimal.
pub open spec fn line_fields(
    tags: Seq<char>,
    comment: Seq<char>,
    snippet: Seq<char>,
    idx: nat,
    tw: int,
    cw: int,
) -> Seq<Seq<char>> {
    seq![
        crate::layout::limit_spec(tags, tw),
        crate::layout::limit_spec(comment, cw),
        escape_newlines_spec(snippet),
        tags,
        comment,
        escape_newlines_spec(snippet),
        crate::text::dec_str(idx),
    ]
}

/// One encoded record line, without its terminating newline.
pub open spec fn line_body_spec(
    tags: Seq<char>,
    comment: Seq<char>,
    snippet: Seq<char>,
    idx: nat,
    tw: int,
    cw: int,
) -> Seq<char> {
    join_fields(line_fields(tags, comment, snippet, idx, tw, cw))
}

/// One encoded record line, newline-terminated.
pub open spec fn line_spec(
    tags: Seq<char>,
    comment: Seq<char>,
    snippet: Seq<char>,
    idx: nat,
    tw: int,
    cw: int,
) -> Seq<char> {
    line_body_spec(tags, comment, snippet, idx, tw, cw) + newline_seq()
}

/// Joining seven fields spells them out flat, each followed by a delimiter.
proof fn lemma_join7(
    a: Seq<char>,
    b: Seq<char>,
    c: Seq<char>,
    d: Seq<char>,
    e: Seq<char>,
    f: Seq<char>,
    g: Seq<char>,
)
    ensures
        join_fields(seq![a, b, c, d, e, f, g]) == a + delimiter() + b + delimiter() + c
            + delimiter() + d + delimiter() + e + delimiter() + f + delimiter() + g + delimiter(),
{
    reveal_with_fuel(join_fields, 9);
    let s7 = seq![a, b, c, d, e, f, g];
    let s6 = seq![b, c, d, e, f, g];
    let s5 = seq![c, d, e, f, g];
    let s4 = seq![d, e, f, g];
    let s3 = seq![e, f, g];
    let s2 = seq![f, g];
    let s1 = seq![g];
    let s0 = Seq::<Seq<char>>::empty();
    assert(s7.drop_first() =~= s6);
    assert(s6.drop_first() =~= s5);
    assert(s5.drop_first() =~= s4);
    assert(s4.drop_first() =~= s3);
    assert(s3.drop_first() =~= s2);
    assert(s2.drop_first() =~= s1);
    assert(s1.drop_first() =~= s0);
    assert(join_fields(s7) == a + delimiter() + join_fields(s6));
    assert(join_fields(s1) == g + delimiter() + join_fields(s0));
    assert(join_fields(s0) == Seq::<char>::empty());
    assert(join_fields(s7) =~= a + delimiter() + b + delimiter() + c + delimiter() + d
        + delimiter() + e + delimiter() + f + delimiter() + g + delimiter());
}

impl Writer {
    /// A writer whose display widths are at least four cells and otherwise
    /// the given percentages of the terminal width.
    pub fn new(width: u16, tag_pct: u16, comment_pct: u16) -> (w: Writer)
        ensures
            w.tag_width == crate::layout::width_spec(width as int, 4, tag_pct as int),
            w.comment_width == crate::layout::width_spec(width as int, 4, comment_pct as int),
            w.tag_width >= 4,
            w.comment_width >= 4,
    {
        Writer {
            tag_width: crate::layout::one_width(width, 4, tag_pct),
            comment_width: crate::layout::one_width(width, 4, comment_pct),
        }
    }

    /// Encode one item as a newline-terminated protocol line.
    pub fn write(&self, item: &Item) -> (r: String)
        requires
            self.tag_width >= 1,
            self.comment_width >= 1,
        ensures
            r@ == line_spec(
                item.tags@,
                item.comment@,
                item.snippet@,
                item.file_index as nat,
                self.tag_width as int,
                self.comment_width as int,
            ),
    {
        let tags_short = crate::layout::limit_str(item.tags.as_str(), self.tag_width);
        let comment_short = crate::layout::limit_str(item.comment.as_str(), self.comment_width);
        let snippet_esc = escape_newlines(item.snippet.as_str());
        let idx = crate::text::usize_to_string(item.file_index);
        let d = delimiter_str();
        let mut out = String::new();
        out.append(tags_short.as_str());
        out.append(d);
        out.append(comment_short.as_str());
        out.append(d);
        out.append(snippet_esc.as_str());
        out.append(d);
        out.append(item.tags.as_str());
        out.append(d);
        out.append(item.comment.as_str());
        out.append(d);
        out.append(snippet_esc.as_str());
        out.append(d);
        out.append(idx.as_str());
        out.append(d);
        push_char(&mut out, '\n');
        proof {
            lemma_join7(
                tags_short@,
                comment_short@,
                snippet_esc@,
                item.tags@,
                item.comment@,
                snippet_esc@,
                idx@,
            );
            assert(out@ =~= line_spec(
                item.tags@,
                item.comment@,
                item.snippet@,
                item.file_index as nat,
                self.tag_width as int,
                self.comment_width as int,
            ));
        }
        out
    }
}

// ---------------------------------------------------------------------------
// Round trip of an encoded record
// ---------------------------------------------------------------------------

/// A column free of the braille blank admits no delimiter occurrence that
/// begins inside it, whatever follows the delimiter behind it.
proof fn lemma_field_boundary(f: Seq<char>, rest: Seq<char>)
    requires
        forall|k: int| 0 <= k < f.len() ==> f[k] != '\u{2800}',
    ensures
        forall|i: int| 0 <= i < f.len() ==> !matches_at(f + delimiter() + rest, delimiter(), i),
{
    let s = f + delimiter() + rest;
    assert forall|i: int| 0 <= i < f.len() implies !matches_at(s, delimiter(), i) by {
        if matches_at(s, delimiter(), i) {
            assert(s.subrange(i, i + 3)[2] == delimiter()[2]);
            assert(s[i + 2] == '\u{2800}');
            if i + 2 < f.len() {
                assert(s[i + 2] == f[i + 2]);
            } else if i + 2 == f.len() {
                assert(s[i + 2] == delimiter()[0]);
            } else {
                assert(s[i + 2] == delimiter()[1]);
            }
        }
    }
}

/// Splitting a text without any pattern occurrence yields that text alone.
pub proof fn lemma_split_whole(s: Seq<char>, pat: Seq<char>, i: int)
    requires
        pat.len() > 0,
        0 <= i <= s.len(),
        forall|j: int| !matches_at(s, pat, j),
    ensures
        crate::text::split_from(s, pat, i) == seq![s.skip(i)],
    decreases s.len() - i,
{
    if i >= s.len() {
        assert(s.skip(i) =~= Seq::<char>::empty());
    } else {
        lemma_split_whole(s, pat, i + 1);
        assert(seq![s[i]] + s.skip(i + 1) =~= s.skip(i));
        assert(crate::text::split_from(s, pat, i) =~= seq![s.skip(i)]);
    }
}

/// Splitting joined braille-free fields on the delimiter recovers the
/// fields, followed by one empty field for the trailing delimiter.
proof fn lemma_join_split(fields: Seq<Seq<char>>)
    requires
        forall|j: int, k: int|
            0 <= j < fields.len() && 0 <= k < fields[j].len() ==> fields[j][k] != '\u{2800}',
    ensures
        split_all(join_fields(fields), delimiter()) == fields.push(Seq::<char>::empty()),
    decreases fields.len(),
{
    if fields.len() == 0 {
        assert(join_fields(fields) == Seq::<char>::empty());
        assert(split_all(Seq::<char>::empty(), delimiter()) =~= seq![Seq::<char>::empty()]);
        assert(fields.push(Seq::<char>::empty()) =~= seq![Seq::<char>::empty()]);
    } else {
        let f0 = fields[0];
        let rest = join_fields(fields.drop_first());
        lemma_field_boundary(f0, rest);
        crate::text::lemma_split_concat(f0, delimiter(), rest);
        assert forall|j: int, k: int|
            0 <= j < fields.drop_first().len() && 0 <= k < fields.drop_first()[j].len()
            implies fields.drop_first()[j][k] != '\u{2800}' by {
            assert(fields.drop_first()[j] == fields[j + 1]);
        }
        lemma_join_split(fields.drop_first());
        assert(split_all(join_fields(fields), delimiter()) == seq![f0] + fields.drop_first().push(
            Seq::<char>::empty(),
        ));
        assert(seq![f0] + fields.drop_first().push(Seq::<char>::empty()) =~= fields.push(
            Seq::<char>::empty(),
        ));
    }
}

/// Joined fields hold no character that neither the fields nor the
/// delimiter hold.
proof fn lemma_join_plain(fields: Seq<Seq<char>>, c: char)
    requires
        c != ' ' && c != '\u{2800}',
        forall|j: int, k: int|
            0 <= j < fields.len() && 0 <= k < fields[j].len() ==> fields[j][k] != c,
    ensures
        forall|k: int| 0 <= k < join_fields(fields).len() ==> join_fields(fields)[k] != c,
    decreases fields.len(),
{
    if fields.len() == 0 {
    } else {
        assert forall|j: int, k: int|
            0 <= j < fields.drop_first().len() && 0 <= k < fields.drop_first()[j].len()
            implies fields.drop_first()[j][k] != c by {
            assert(fields.drop_first()[j] == fields[j + 1]);
        }
        lemma_join_plain(fields.drop_first(), c);
        assert(forall|k: int| 0 <= k < fields[0].len() ==> fields[0][k] != c);
        crate::text::lemma_concat_absent(fields[0], delimiter(), c);
        crate::text::lemma_concat_absent(
            fields[0] + delimiter(),
            join_fields(fields.drop_first()),
            c,
        );
        assert(join_fields(fields) == (fields[0] + delimiter()) + join_fields(
            fields.drop_first(),
        ));
    }
}

/// Truncation or padding never introduces a character other than the
/// ellipsis and the space.
proof fn lemma_limit_plain(s: Seq<char>, length: int, c: char)
    requires
        length >= 1,
        c != '\u{2026}' && c != ' ',
        forall|k: int| 0 <= k < s.len() ==> s[k] != c,
    ensures
        forall|k: int|
            0 <= k < crate::layout::limit_spec(s, length).len() ==> crate::layout::limit_spec(
                s,
                length,
            )[k] != c,
{
    let r = crate::layout::limit_spec(s, length);
    assert forall|k: int| 0 <= k < r.len() implies r[k] != c by {
        if s.len() > length {
            if k < length - 1 {
                assert(r[k] == s[k]);
            } else {
                assert(r[k] == '\u{2026}');
            }
        } else {
            if k < s.len() {
                assert(r[k] == s[k]);
            } else {
                assert(r[k] == ' ');
            }
        }
    }
}

/// Decimal digits are digits.
proof fn lemma_dec_str_plain(n: nat, c: char)
    requires
        c != '0' && c != '1' && c != '2' && c != '3' && c != '4' && c != '5' && c != '6' && c
            != '7' && c != '8' && c != '9',
    ensures
        forall|k: int|
            0 <= k < crate::text::dec_str(n).len() ==> crate::text::dec_str(n)[k] != c,
    decreases n,
{
    if n < 10 {
        assert(crate::text::dec_str(n) =~= seq![crate::text::digit_char(n)]);
        assert(crate::text::digit_char(n) != c);
    } else {
        lemma_dec_str_plain(n / 10, c);
        let prefix = crate::text::dec_str(n / 10);
        let whole = prefix.push(crate::text::digit_char(n % 10));
        assert(crate::text::dec_str(n) == whole);
        assert forall|k: int| 0 <= k < whole.len() implies whole[k] != c by {
            if k < prefix.len() {
                assert(whole[k] == prefix[k]);
            } else {
                assert(whole[k] == crate::text::digit_char(n % 10));
            }
        }
    }
}

/// Round trip of the codec: splitting an encoded record line on the
/// delimiter yields exactly the seven fields and one trailing empty field;
/// the full tag, comment and snippet columns recover the original values,
/// the snippet after reversing the newline sentinel.  Holds whatever the
/// truncated display columns did to the text.
pub proof fn lemma_line_roundtrip(
    tags: Seq<char>,
    comment: Seq<char>,
    snippet: Seq<char>,
    idx: nat,
    tw: int,
    cw: int,
)
    requires
        tw >= 1,
        cw >= 1,
        forall|k: int| 0 <= k < tags.len() ==> tags[k] != '\u{2800}' && tags[k] != '\n',
        forall|k: int| 0 <= k < comment.len() ==> comment[k] != '\u{2800}' && comment[k] != '\n',
        forall|k: int|
            0 <= k < snippet.len() ==> snippet[k] != '\u{2800}' && snippet[k]
                != newline_escape_char(),
    ensures
        ({
            let body = line_body_spec(tags, comment, snippet, idx, tw, cw);
            let parts = split_all(body, delimiter());
            &&& parts.len() == 8
            &&& parts[3] == tags
            &&& parts[4] == comment
            &&& with_new_lines_spec(parts[5]) == snippet
            &&& forall|k: int| 0 <= k < body.len() ==> body[k] != '\n'
        }),
{
    let fields = line_fields(tags, comment, snippet, idx, tw, cw);
    let esc = escape_newlines_spec(snippet);

    // No field holds the braille blank.
    lemma_limit_plain(tags, tw, '\u{2800}');
    lemma_limit_plain(comment, cw, '\u{2800}');
    crate::text::lemma_replace_char_absent(snippet, '\n', line_separator(), '\u{2800}', 0);
    lemma_dec_str_plain(idx, '\u{2800}');
    assert forall|j: int, k: int|
        0 <= j < fields.len() && 0 <= k < fields[j].len() implies fields[j][k] != '\u{2800}' by {
        assert(fields[0] == crate::layout::limit_spec(tags, tw));
        assert(fields[1] == crate::layout::limit_spec(comment, cw));
        assert(fields[2] == esc);
        assert(fields[3] == tags);
        assert(fields[4] == comment);
        assert(fields[5] == esc);
        assert(fields[6] == crate::text::dec_str(idx));
    }
    lemma_join_split(fields);
    assert(split_all(line_body_spec(tags, comment, snippet, idx, tw, cw), delimiter())
        == fields.push(Seq::<char>::empty()));
    assert(fields.push(Seq::<char>::empty()).len() == 8);
    assert(fields.push(Seq::<char>::empty())[3] == tags);
    assert(fields.push(Seq::<char>::empty())[4] == comment);
    assert(fields.push(Seq::<char>::empty())[5] == esc);
    lemma_newline_roundtrip(snippet);

    // The line body holds no raw newline.
    lemma_limit_plain(tags, tw, '\n');
    lemma_limit_plain(comment, cw, '\n');
    crate::text::lemma_replace_char_absent(snippet, '\n', line_separator(), '\n', 0);
    lemma_dec_str_plain(idx, '\n');
    assert forall|j: int, k: int|
        0 <= j < fields.len() && 0 <= k < fields[j].len() implies fields[j][k] != '\n' by {
        assert(fields[0] == crate::layout::limit_spec(tags, tw));
        assert(fields[1] == crate::layout::limit_spec(comment, cw));
        assert(fields[2] == esc);
        assert(fields[3] == tags);
        assert(fields[4] == comment);
        assert(fields[5] == esc);
        assert(fields[6] == crate::text::dec_str(idx));
    }
    lemma_join_plain(fields, '\n');
}

// ---------------------------------------------------------------------------
// Prompts
// ---------------------------------------------------------------------------

/// The preview of a selected record: the styled comment, the bracketed
/// styled tags, and the cleaned snippet on its own line.
pub open spec fn preview_spec(
    comment: Seq<char>,
    tags: Seq<char>,
    snippet: Seq<char>,
    comment_color: Seq<char>,
    tag_color: Seq<char>,
    snippet_color: Seq<char>,
    reset: Seq<char>,
) -> Seq<char> {
    comment_color + comment + reset + seq![' '] + tag_color + seq!['['] + tags + seq![']'] + reset
        + seq![' ', '\n'] + snippet_color + fix_newlines_spec(snippet) + reset
}

/// Build the preview text of a selected record.
pub fn preview(
    comment: &str,
    tags: &str,
    snippet: &str,
    comment_color: &str,
    tag_color: &str,
    snippet_color: &str,
    reset: &str,
) -> (r: String)
    ensures
        r@ == preview_spec(
            comment@,
            tags@,
            snippet@,
            comment_color@,
            tag_color@,
            snippet_color@,
            reset@,
        ),
{
    let mut out = String::new();
    out.append(comment_color);
    out.append(comment);
    out.append(reset);
    push_char(&mut out, ' ');
    out.append(tag_color);
    push_char(&mut out, '[');
    out.append(tags);
    push_char(&mut out, ']');
    out.append(reset);
    push_char(&mut out, ' ');
    push_char(&mut out, '\n');
    out.append(snippet_color);
    let cleaned = fix_newlines(snippet);
    out.append(cleaned.as_str());
    out.append(reset);
    proof {
        assert(out@ =~= preview_spec(
            comment@,
            tags@,
            snippet@,
            comment_color@,
            tag_color@,
            snippet_color@,
            reset@,
        ));
    }
    out
}

/// The selector prompt shown while one variable is being resolved.
pub fn variable_prompt(varname: &str) -> (r: String)
    ensures
        r@ == varname@ + ": "@,
{
    let mut out = String::new();
    out.append(varname);
    out.append(": ");
    out
}

} // verus!
