//! Character-level text algorithms: substring matching, replacement,
//! splitting, and decimal rendering, with full functional specifications.

use vstd::prelude::*;

verus! {

// ---------------------------------------------------------------------------
// Specifications
// ---------------------------------------------------------------------------

/// The pattern `pat` occurs in `s` starting at index `i`.
pub open spec fn matches_at(s: Seq<char>, pat: Seq<char>, i: int) -> bool {
    0 <= i && i + pat.len() <= s.len() && s.subrange(i, i + pat.len() as int) == pat
}

/// `s` contains an occurrence of `pat` somewhere.
pub open spec fn contains_pat(s: Seq<char>, pat: Seq<char>) -> bool {
    exists|i: int| matches_at(s, pat, i)
}

/// Result of replacing every non-overlapping occurrence of `pat` (leftmost
/// first) by `rep` in the suffix of `s` starting at `i`.  Text inserted for
/// `rep` is not rescanned, matching the usual single-pass semantics.
pub open spec fn replace_from(s: Seq<char>, pat: Seq<char>, rep: Seq<char>, i: int) -> Seq<char>
    decreases s.len() - i,
{
    if i < 0 || i >= s.len() {
        Seq::<char>::empty()
    } else if pat.len() > 0 && matches_at(s, pat, i) {
        rep + replace_from(s, pat, rep, i + pat.len() as int)
    } else {
        seq![s[i]] + replace_from(s, pat, rep, i + 1)
    }
}

/// Single-pass replacement of every occurrence of `pat` by `rep` in `s`.
pub open spec fn replace_all(s: Seq<char>, pat: Seq<char>, rep: Seq<char>) -> Seq<char> {
    replace_from(s, pat, rep, 0)
}

/// The fields obtained by splitting the suffix of `s` starting at `i` on
/// occurrences of `pat`, leftmost first.  Always yields at least one field.
pub open spec fn split_from(s: Seq<char>, pat: Seq<char>, i: int) -> Seq<Seq<char>>
    decreases s.len() - i,
{
    if i < 0 || i >= s.len() {
        seq![Seq::<char>::empty()]
    } else if pat.len() > 0 && matches_at(s, pat, i) {
        seq![Seq::<char>::empty()] + split_from(s, pat, i + pat.len() as int)
    } else {
        let rest = split_from(s, pat, i + 1);
        seq![seq![s[i]] + rest[0]] + rest.drop_first()
    }
}

/// The fields obtained by splitting `s` on occurrences of `pat`.
pub open spec fn split_all(s: Seq<char>, pat: Seq<char>) -> Seq<Seq<char>> {
    split_from(s, pat, 0)
}

/// Whitespace characters.
pub open spec fn is_ws(c: char) -> bool {
    c == ' ' || c == '\t' || c == '\n' || c == '\r' || c == '\u{b}' || c == '\u{c}'
}

/// Text without its leading run of the character `c`.
pub open spec fn drop_leading_char(s: Seq<char>, c: char) -> Seq<char>
    decreases s.len(),
{
    if s.len() > 0 && s[0] == c {
        drop_leading_char(s.drop_first(), c)
    } else {
        s
    }
}

/// Text without its trailing run of the character `c`.
pub open spec fn drop_trailing_char(s: Seq<char>, c: char) -> Seq<char>
    decreases s.len(),
{
    if s.len() > 0 && s.last() == c {
        drop_trailing_char(s.drop_last(), c)
    } else {
        s
    }
}

/// Text without its leading whitespace.
pub open spec fn drop_leading_ws(s: Seq<char>) -> Seq<char>
    decreases s.len(),
{
    if s.len() > 0 && is_ws(s[0]) {
        drop_leading_ws(s.drop_first())
    } else {
        s
    }
}

/// Text without its trailing whitespace.
pub open spec fn drop_trailing_ws(s: Seq<char>) -> Seq<char>
    decreases s.len(),
{
    if s.len() > 0 && is_ws(s.last()) {
        drop_trailing_ws(s.drop_last())
    } else {
        s
    }
}

/// Text trimmed of whitespace on both ends.
pub open spec fn trim_ws_spec(s: Seq<char>) -> Seq<char> {
    drop_trailing_ws(drop_leading_ws(s))
}

/// Text trimmed of the character `c` on both ends.
pub open spec fn trim_char_spec(s: Seq<char>, c: char) -> Seq<char> {
    drop_trailing_char(drop_leading_char(s, c), c)
}

/// Decimal digit characters of `n`, most significant first.
pub open spec fn dec_str(n: nat) -> Seq<char>
    decreases n,
{
    if n < 10 {
        seq![digit_char(n)]
    } else {
        dec_str(n / 10).push(digit_char(n % 10))
    }
}

/// The character for a single decimal digit.
pub open spec fn digit_char(d: nat) -> char {
    if d == 0 {
        '0'
    } else if d == 1 {
        '1'
    } else if d == 2 {
        '2'
    } else if d == 3 {
        '3'
    } else if d == 4 {
        '4'
    } else if d == 5 {
        '5'
    } else if d == 6 {
        '6'
    } else if d == 7 {
        '7'
    } else if d == 8 {
        '8'
    } else {
        '9'
    }
}

// ---------------------------------------------------------------------------
// Basic lemmas
// ---------------------------------------------------------------------------

/// Splitting never yields an empty field list.
pub proof fn lemma_split_from_len(s: Seq<char>, pat: Seq<char>, i: int)
    ensures
        split_from(s, pat, i).len() >= 1,
    decreases s.len() - i,
{
    if i < 0 || i >= s.len() {
    } else if pat.len() > 0 && matches_at(s, pat, i) {
        lemma_split_from_len(s, pat, i + pat.len() as int);
    } else {
        lemma_split_from_len(s, pat, i + 1);
    }
}

/// Matching at offset `i + j` of `s` is matching at offset `j` of `s.skip(i)`.
pub proof fn lemma_matches_at_skip(s: Seq<char>, pat: Seq<char>, i: int, j: int)
    requires
        0 <= i <= s.len(),
        0 <= j,
    ensures
        matches_at(s, pat, i + j) == matches_at(s.skip(i), pat, j),
{
    if matches_at(s, pat, i + j) {
        assert(s.skip(i).subrange(j, j + pat.len() as int) =~= s.subrange(
            i + j,
            i + j + pat.len() as int,
        ));
    }
    if matches_at(s.skip(i), pat, j) {
        assert(s.subrange(i + j, i + j + pat.len() as int) =~= s.skip(i).subrange(
            j,
            j + pat.len() as int,
        ));
    }
}

/// Replacement from offset `i + j` equals replacement from offset `j` of the
/// suffix `s.skip(i)`.
pub proof fn lemma_replace_from_shift(s: Seq<char>, pat: Seq<char>, rep: Seq<char>, i: int, j: int)
    requires
        pat.len() > 0,
        0 <= i <= s.len(),
        0 <= j,
    ensures
        replace_from(s, pat, rep, i + j) == replace_from(s.skip(i), pat, rep, j),
    decreases s.len() - i - j,
{
    lemma_matches_at_skip(s, pat, i, j);
    if i + j >= s.len() {
    } else if matches_at(s, pat, i + j) {
        lemma_replace_from_shift(s, pat, rep, i, j + pat.len() as int);
    } else {
        lemma_replace_from_shift(s, pat, rep, i, j + 1);
        assert(s.skip(i)[j] == s[i + j]);
    }
}

/// Splitting from offset `i + j` equals splitting from offset `j` of the
/// suffix `s.skip(i)`.
pub proof fn lemma_split_from_shift(s: Seq<char>, pat: Seq<char>, i: int, j: int)
    requires
        pat.len() > 0,
        0 <= i <= s.len(),
        0 <= j,
    ensures
        split_from(s, pat, i + j) == split_from(s.skip(i), pat, j),
    decreases s.len() - i - j,
{
    lemma_matches_at_skip(s, pat, i, j);
    if i + j >= s.len() {
    } else if matches_at(s, pat, i + j) {
        lemma_split_from_shift(s, pat, i, j + pat.len() as int);
    } else {
        lemma_split_from_shift(s, pat, i, j + 1);
        assert(s.skip(i)[j] == s[i + j]);
    }
}

/// Splitting `a + pat + rest` on `pat` yields `a` followed by the fields of
/// `rest`, provided no occurrence of `pat` begins inside `a`.
pub proof fn lemma_split_concat(a: Seq<char>, pat: Seq<char>, rest: Seq<char>)
    requires
        pat.len() > 0,
        forall|i: int| 0 <= i < a.len() ==> !matches_at(a + pat + rest, pat, i),
    ensures
        split_all(a + pat + rest, pat) == seq![a] + split_all(rest, pat),
    decreases a.len(),
{
    let s = a + pat + rest;
    if a.len() == 0 {
        assert(matches_at(s, pat, 0)) by {
            assert(s.subrange(0, pat.len() as int) =~= pat);
        }
        lemma_split_from_shift(s, pat, pat.len() as int, 0);
        assert(s.skip(pat.len() as int) =~= rest);
        assert(a =~= Seq::<char>::empty());
        assert(seq![Seq::<char>::empty()] + split_all(rest, pat) =~= seq![a] + split_all(
            rest,
            pat,
        ));
    } else {
        assert(!matches_at(s, pat, 0));
        lemma_split_from_shift(s, pat, 1, 0);
        assert(s.skip(1) =~= a.skip(1) + pat + rest);
        assert forall|i: int| 0 <= i < a.skip(1).len() implies !matches_at(
            a.skip(1) + pat + rest,
            pat,
            i,
        ) by {
            lemma_matches_at_skip(s, pat, 1, i);
        }
        lemma_split_concat(a.skip(1), pat, rest);
        lemma_split_from_len(s, pat, 1);
        let r = split_from(s, pat, 1);
        assert(r == seq![a.skip(1)] + split_all(rest, pat));
        assert(split_all(s, pat) == seq![seq![s[0]] + r[0]] + r.drop_first());
        assert(seq![s[0]] + r[0] =~= a);
        assert(r.drop_first() =~= split_all(rest, pat));
        assert(seq![seq![s[0]] + r[0]] + r.drop_first() =~= seq![a] + split_all(rest, pat));
    }
}

/// Replacing a single character `c0` by `rep` yields a text free of `c`,
/// provided `rep` is free of `c` and either `c` is the replaced character or
/// the source never held it.
pub proof fn lemma_replace_char_absent(s: Seq<char>, c0: char, rep: Seq<char>, c: char, i: int)
    requires
        forall|k: int| 0 <= k < rep.len() ==> rep[k] != c,
        c == c0 || forall|k: int| 0 <= k < s.len() ==> s[k] != c,
    ensures
        forall|k: int|
            0 <= k < replace_from(s, seq![c0], rep, i).len() ==> replace_from(
                s,
                seq![c0],
                rep,
                i,
            )[k] != c,
    decreases s.len() - i,
{
    let pat = seq![c0];
    if i < 0 || i >= s.len() {
    } else if matches_at(s, pat, i) {
        lemma_replace_char_absent(s, c0, rep, c, i + 1);
        lemma_replace_char_absent(s, c0, rep, c, i + pat.len() as int);
        let tail = replace_from(s, pat, rep, i + pat.len() as int);
        assert forall|k: int| 0 <= k < (rep + tail).len() implies (rep + tail)[k] != c by {
            if k < rep.len() {
            } else {
                assert((rep + tail)[k] == tail[k - rep.len()]);
            }
        }
    } else {
        lemma_replace_char_absent(s, c0, rep, c, i + 1);
        let tail = replace_from(s, pat, rep, i + 1);
        assert(s[i] != c) by {
            if c == c0 && s[i] == c0 {
                assert(s.subrange(i, i + 1) =~= pat);
            }
        }
        assert forall|k: int|
            0 <= k < (seq![s[i]] + tail).len() implies (seq![s[i]] + tail)[k] != c by {
            if k == 0 {
            } else {
                assert((seq![s[i]] + tail)[k] == tail[k - 1]);
            }
        }
    }
}

/// A concatenation of two texts free of `c` is free of `c`.
pub proof fn lemma_concat_absent(x: Seq<char>, y: Seq<char>, c: char)
    requires
        forall|k: int| 0 <= k < x.len() ==> x[k] != c,
        forall|k: int| 0 <= k < y.len() ==> y[k] != c,
    ensures
        forall|k: int| 0 <= k < (x + y).len() ==> (x + y)[k] != c,
{
    assert forall|k: int| 0 <= k < (x + y).len() implies (x + y)[k] != c by {
        if k < x.len() {
            assert((x + y)[k] == x[k]);
        } else {
            assert((x + y)[k] == y[k - x.len()]);
        }
    }
}

// ---------------------------------------------------------------------------
// Executable functions
// ---------------------------------------------------------------------------

/// Relies on `String::from_utf8`: returns the decoded string exactly when
/// the bytes are valid UTF-8.
#[verifier::external_body]
pub fn string_from_utf8(bytes: Vec<u8>) -> (r: Option<String>)
    ensures
        (r is Some) <==> vstd::utf8::valid_utf8(bytes@),
        r matches Some(s) ==> s@ == vstd::utf8::decode_utf8(bytes@),
{
    String::from_utf8(bytes).ok()
}

/// Relies on `String::push`: appends the given character to the end of the
/// string.
#[verifier::external_body]
pub fn push_char(s: &mut String, c: char)
    ensures
        final(s)@ == old(s)@.push(c),
{
    s.push(c);
}

/// Whether `c` occurs in `s`.
pub fn str_contains_char(s: &str, c: char) -> (b: bool)
    ensures
        b == s@.contains(c),
{
    let n: usize = s.unicode_len();
    let mut i: usize = 0;
    let mut found = false;
    while i < n
        invariant
            n == s@.len(),
            i <= n,
            found == exists|j: int| 0 <= j < i && s@[j] == c,
        decreases n - i,
    {
        if s.get_char(i) == c {
            found = true;
        }
        i = i + 1;
    }
    found
}

/// Whether `pat` occurs in `s` at position `i`.  `n` and `m` are the cached
/// character lengths of `s` and `pat`.
pub fn str_matches_at(s: &str, n: usize, pat: &str, m: usize, i: usize) -> (b: bool)
    requires
        n == s@.len(),
        m == pat@.len(),
        i <= n,
    ensures
        b == matches_at(s@, pat@, i as int),
{
    if m > n - i {
        assert(!matches_at(s@, pat@, i as int));
        return false;
    }
    let mut j: usize = 0;
    let mut ok = true;
    while j < m
        invariant
            n == s@.len(),
            m == pat@.len(),
            i + m <= n,
            j <= m,
            ok == forall|k: int| 0 <= k < j ==> s@[i + k] == pat@[k],
        decreases m - j,
    {
        if s.get_char(i + j) != pat.get_char(j) {
            ok = false;
        }
        j = j + 1;
    }
    if ok {
        assert(s@.subrange(i as int, i + m as int) =~= pat@);
    } else {
        assert(!matches_at(s@, pat@, i as int)) by {
            assert(exists|k: int| 0 <= k < m && s@[i + k] != pat@[k]);
            let k = choose|k: int| 0 <= k < m && s@[i + k] != pat@[k];
            if matches_at(s@, pat@, i as int) {
                assert(s@.subrange(i as int, i + m as int)[k] == pat@[k]);
            }
        }
    }
    ok
}

/// Whether `s` contains an occurrence of `pat`.
pub fn str_contains(s: &str, pat: &str) -> (b: bool)
    requires
        pat@.len() > 0,
    ensures
        b == contains_pat(s@, pat@),
{
    let n: usize = s.unicode_len();
    let m: usize = pat.unicode_len();
    let mut i: usize = 0;
    let mut found = false;
    while i < n
        invariant
            n == s@.len(),
            m == pat@.len(),
            m > 0,
            i <= n,
            found == exists|j: int| 0 <= j < i && matches_at(s@, pat@, j),
        decreases n - i,
    {
        if str_matches_at(s, n, pat, m, i) {
            found = true;
        }
        i = i + 1;
    }
    if found {
        true
    } else {
        assert forall|j: int| !matches_at(s@, pat@, j) by {
            if matches_at(s@, pat@, j) {
                assert(0 <= j < n);
            }
        }
        false
    }
}

/// Whether `s` begins with `prefix`.
pub fn str_starts_with(s: &str, prefix: &str) -> (b: bool)
    ensures
        b == matches_at(s@, prefix@, 0),
{
    let n: usize = s.unicode_len();
    let m: usize = prefix.unicode_len();
    if m > n {
        assert(!matches_at(s@, prefix@, 0));
        false
    } else {
        str_matches_at(s, n, prefix, m, 0)
    }
}

/// Whether two string slices hold the same characters.
pub fn str_eq(a: &str, b: &str) -> (r: bool)
    ensures
        r == (a@ == b@),
{
    let n: usize = a.unicode_len();
    let m: usize = b.unicode_len();
    if n != m {
        return false;
    }
    let mut i: usize = 0;
    let mut ok = true;
    while i < n
        invariant
            n == a@.len(),
            n == b@.len(),
            i <= n,
            ok == forall|k: int| 0 <= k < i ==> a@[k] == b@[k],
        decreases n - i,
    {
        if a.get_char(i) != b.get_char(i) {
            ok = false;
        }
        i = i + 1;
    }
    if ok {
        assert(a@ =~= b@);
    } else {
        assert(exists|k: int| 0 <= k < n && a@[k] != b@[k]);
    }
    ok
}

/// Single-pass replacement of every occurrence of `pat` by `rep` in `s`.
pub fn str_replace_all(s: &str, pat: &str, rep: &str) -> (r: String)
    requires
        pat@.len() > 0,
    ensures
        r@ == replace_all(s@, pat@, rep@),
{
    let n: usize = s.unicode_len();
    let m: usize = pat.unicode_len();
    let mut out = String::new();
    let mut i: usize = 0;
    while i < n
        invariant
            n == s@.len(),
            m == pat@.len(),
            m > 0,
            i <= n,
            replace_all(s@, pat@, rep@) == out@ + replace_from(s@, pat@, rep@, i as int),
        decreases n - i,
    {
        let ghost prev = out@;
        if str_matches_at(s, n, pat, m, i) {
            out.append(rep);
            proof {
                let tail = replace_from(s@, pat@, rep@, i as int + m as int);
                assert(replace_from(s@, pat@, rep@, i as int) == rep@ + tail);
                assert((prev + rep@) + tail =~= prev + (rep@ + tail));
            }
            i = i + m;
        } else {
            let c = s.get_char(i);
            push_char(&mut out, c);
            proof {
                let tail = replace_from(s@, pat@, rep@, i as int + 1);
                assert(replace_from(s@, pat@, rep@, i as int) == seq![s@[i as int]] + tail);
                assert(prev.push(c) + tail =~= prev + (seq![c] + tail));
            }
            i = i + 1;
        }
    }
    proof {
        assert(out@ + replace_from(s@, pat@, rep@, i as int) =~= out@);
    }
    out
}

/// Split `s` on every occurrence of `pat`; yields at least one field.
pub fn str_split(s: &str, pat: &str) -> (r: Vec<String>)
    requires
        pat@.len() > 0,
    ensures
        r.deep_view() == split_all(s@, pat@),
        r.len() >= 1,
{
    let n: usize = s.unicode_len();
    let m: usize = pat.unicode_len();
    let mut done: Vec<String> = Vec::new();
    let mut cur = String::new();
    let mut i: usize = 0;
    proof {
        lemma_split_from_len(s@, pat@, 0);
        let f = split_from(s@, pat@, 0);
        assert(done.deep_view() + seq![cur@ + f[0]] + f.drop_first() =~= f);
    }
    while i < n
        invariant
            n == s@.len(),
            m == pat@.len(),
            m > 0,
            i <= n,
            split_all(s@, pat@) == done.deep_view() + seq![cur@ + split_from(s@, pat@, i as int)[0]]
                + split_from(s@, pat@, i as int).drop_first(),
        decreases n - i,
    {
        let ghost f = split_from(s@, pat@, i as int);
        let ghost prev_done = done.deep_view();
        let ghost prev_cur = cur@;
        if str_matches_at(s, n, pat, m, i) {
            proof {
                lemma_split_from_len(s@, pat@, i as int + m as int);
            }
            done.push(cur);
            cur = String::new();
            i = i + m;
            proof {
                let f2 = split_from(s@, pat@, i as int);
                assert(f == seq![Seq::<char>::empty()] + f2);
                assert(f[0] =~= Seq::<char>::empty());
                assert(f.drop_first() =~= f2);
                assert(done.deep_view() =~= prev_done.push(prev_cur));
                assert(prev_done + seq![prev_cur + f[0]] + f.drop_first() =~= prev_done.push(
                    prev_cur,
                ) + seq![cur@ + f2[0]] + f2.drop_first());
            }
        } else {
            proof {
                lemma_split_from_len(s@, pat@, i as int + 1);
            }
            let c = s.get_char(i);
            push_char(&mut cur, c);
            i = i + 1;
            proof {
                let f2 = split_from(s@, pat@, i as int);
                assert(f == seq![seq![s@[i as int - 1]] + f2[0]] + f2.drop_first());
                assert(f[0] == seq![s@[i as int - 1]] + f2[0]);
                assert(prev_cur + f[0] =~= cur@ + f2[0]);
                assert(f.drop_first() =~= f2.drop_first());
                assert(prev_done + seq![prev_cur + f[0]] + f.drop_first() =~= prev_done + seq![
                    cur@ + f2[0]
                ] + f2.drop_first());
            }
        }
    }
    let ghost f = split_from(s@, pat@, i as int);
    let ghost prev_done = done.deep_view();
    let ghost prev_cur = cur@;
    done.push(cur);
    proof {
        assert(f =~= seq![Seq::<char>::empty()]);
        assert(done.deep_view() =~= prev_done.push(prev_cur));
        assert(prev_done + seq![prev_cur + f[0]] + f.drop_first() =~= prev_done.push(prev_cur));
    }
    done
}

/// A run of `c` of length `a` at the start is exactly what leading trim
/// drops.
proof fn lemma_drop_leading_char_run(s: Seq<char>, c: char, a: int)
    requires
        0 <= a <= s.len(),
        forall|k: int| 0 <= k < a ==> s[k] == c,
        a == s.len() || s[a] != c,
    ensures
        drop_leading_char(s, c) == s.skip(a),
    decreases a,
{
    if a == 0 {
        assert(s.skip(0) =~= s);
    } else {
        assert(s[0] == c);
        assert forall|k: int| 0 <= k < a - 1 implies s.drop_first()[k] == c by {
            assert(s.drop_first()[k] == s[k + 1]);
        }
        lemma_drop_leading_char_run(s.drop_first(), c, a - 1);
        assert(s.drop_first().skip(a - 1) =~= s.skip(a));
    }
}

/// A run of `c` of length `s.len() - b` at the end is exactly what
/// trailing trim drops.
proof fn lemma_drop_trailing_char_run(s: Seq<char>, c: char, b: int)
    requires
        0 <= b <= s.len(),
        forall|k: int| b <= k < s.len() ==> s[k] == c,
        b == 0 || s[b - 1] != c,
    ensures
        drop_trailing_char(s, c) == s.take(b),
    decreases s.len() - b,
{
    if b == s.len() {
        assert(s.take(b) =~= s);
    } else {
        assert(s.last() == c);
        lemma_drop_trailing_char_run(s.drop_last(), c, b);
        assert(s.drop_last().take(b) =~= s.take(b));
    }
}

/// A whitespace run of length `a` at the start is exactly what leading
/// trim drops.
proof fn lemma_drop_leading_ws_run(s: Seq<char>, a: int)
    requires
        0 <= a <= s.len(),
        forall|k: int| 0 <= k < a ==> is_ws(s[k]),
        a == s.len() || !is_ws(s[a]),
    ensures
        drop_leading_ws(s) == s.skip(a),
    decreases a,
{
    if a == 0 {
        assert(s.skip(0) =~= s);
    } else {
        assert(is_ws(s[0]));
        assert forall|k: int| 0 <= k < a - 1 implies is_ws(s.drop_first()[k]) by {
            assert(s.drop_first()[k] == s[k + 1]);
        }
        lemma_drop_leading_ws_run(s.drop_first(), a - 1);
        assert(s.drop_first().skip(a - 1) =~= s.skip(a));
    }
}

/// A whitespace run of length `s.len() - b` at the end is exactly what
/// trailing trim drops.
proof fn lemma_drop_trailing_ws_run(s: Seq<char>, b: int)
    requires
        0 <= b <= s.len(),
        forall|k: int| b <= k < s.len() ==> is_ws(s[k]),
        b == 0 || !is_ws(s[b - 1]),
    ensures
        drop_trailing_ws(s) == s.take(b),
    decreases s.len() - b,
{
    if b == s.len() {
        assert(s.take(b) =~= s);
    } else {
        assert(is_ws(s.last()));
        lemma_drop_trailing_ws_run(s.drop_last(), b);
        assert(s.drop_last().take(b) =~= s.take(b));
    }
}

/// Whether `c` is whitespace.
pub fn is_ws_exec(c: char) -> (r: bool)
    ensures
        r == is_ws(c),
{
    c == ' ' || c == '\t' || c == '\n' || c == '\r' || c == '\u{b}' || c == '\u{c}'
}

/// Trim the character `c` off both ends of `s`.
pub fn trim_char(s: &str, c: char) -> (r: String)
    ensures
        r@ == trim_char_spec(s@, c),
{
    let n: usize = s.unicode_len();
    let mut a: usize = 0;
    while a < n && s.get_char(a) == c
        invariant
            n == s@.len(),
            a <= n,
            forall|k: int| 0 <= k < a ==> s@[k] == c,
        decreases n - a,
    {
        a = a + 1;
    }
    let mut b: usize = n;
    while b > a && s.get_char(b - 1) == c
        invariant
            n == s@.len(),
            a <= b <= n,
            forall|k: int| b <= k < n ==> s@[k] == c,
        decreases b,
    {
        b = b - 1;
    }
    proof {
        lemma_drop_leading_char_run(s@, c, a as int);
        lemma_drop_trailing_char_run(s@.skip(a as int), c, b as int - a as int);
        assert(s@.skip(a as int).take(b as int - a as int) =~= s@.subrange(a as int, b as int));
    }
    let out = s.substring_char(a, b);
    String::from_str(out)
}

/// Trim whitespace off both ends of `s`.
pub fn trim_ws(s: &str) -> (r: String)
    ensures
        r@ == trim_ws_spec(s@),
{
    let n: usize = s.unicode_len();
    let mut a: usize = 0;
    while a < n && is_ws_exec(s.get_char(a))
        invariant
            n == s@.len(),
            a <= n,
            forall|k: int| 0 <= k < a ==> is_ws(s@[k]),
        decreases n - a,
    {
        a = a + 1;
    }
    let mut b: usize = n;
    while b > a && is_ws_exec(s.get_char(b - 1))
        invariant
            n == s@.len(),
            a <= b <= n,
            forall|k: int| b <= k < n ==> is_ws(s@[k]),
        decreases b,
    {
        b = b - 1;
    }
    proof {
        lemma_drop_leading_ws_run(s@, a as int);
        lemma_drop_trailing_ws_run(s@.skip(a as int), b as int - a as int);
        assert(s@.skip(a as int).take(b as int - a as int) =~= s@.subrange(a as int, b as int));
    }
    let out = s.substring_char(a, b);
    String::from_str(out)
}

/// Trim the character `c` off the end of `s`.
pub fn trim_end_char(s: &str, c: char) -> (r: String)
    ensures
        r@ == drop_trailing_char(s@, c),
{
    let n: usize = s.unicode_len();
    let mut b: usize = n;
    while b > 0 && s.get_char(b - 1) == c
        invariant
            n == s@.len(),
            b <= n,
            forall|k: int| b <= k < n ==> s@[k] == c,
        decreases b,
    {
        b = b - 1;
    }
    proof {
        lemma_drop_trailing_char_run(s@, c, b as int);
        assert(s@.take(b as int) =~= s@.subrange(0, b as int));
    }
    let out = s.substring_char(0, b);
    String::from_str(out)
}

/// Whether `c` is a decimal digit.
pub open spec fn is_digit(c: char) -> bool {
    '0' <= c && c <= '9'
}

/// The value of a decimal digit character; other characters count as zero.
pub open spec fn digit_val(c: char) -> int {
    if c == '0' {
        0
    } else if c == '1' {
        1
    } else if c == '2' {
        2
    } else if c == '3' {
        3
    } else if c == '4' {
        4
    } else if c == '5' {
        5
    } else if c == '6' {
        6
    } else if c == '7' {
        7
    } else if c == '8' {
        8
    } else if c == '9' {
        9
    } else {
        0
    }
}

/// Whether every character of `s` is a decimal digit.
pub open spec fn all_digits(s: Seq<char>) -> bool {
    forall|k: int| 0 <= k < s.len() ==> is_digit(s[k])
}

/// The number a sequence of decimal digits denotes.
pub open spec fn digits_val(s: Seq<char>) -> int
    decreases s.len(),
{
    if s.len() == 0 {
        0
    } else {
        digits_val(s.drop_last()) * 10 + digit_val(s.last())
    }
}

/// Digit sequences denote non-negative numbers.
pub proof fn lemma_digits_val_nonneg(s: Seq<char>)
    ensures
        digits_val(s) >= 0,
    decreases s.len(),
{
    if s.len() > 0 {
        lemma_digits_val_nonneg(s.drop_last());
    }
}

/// Whether `c` is a decimal digit.
pub fn is_digit_exec(c: char) -> (r: bool)
    ensures
        r == is_digit(c),
{
    '0' <= c && c <= '9'
}

/// The value of a decimal digit character.
pub fn digit_value(c: char) -> (r: u32)
    ensures
        r as int == digit_val(c),
        r <= 9,
{
    if c == '0' {
        0
    } else if c == '1' {
        1
    } else if c == '2' {
        2
    } else if c == '3' {
        3
    } else if c == '4' {
        4
    } else if c == '5' {
        5
    } else if c == '6' {
        6
    } else if c == '7' {
        7
    } else if c == '8' {
        8
    } else if c == '9' {
        9
    } else {
        0
    }
}

/// Parse a decimal number that fits a sixteen-bit word: succeeds exactly on
/// non-empty all-digit texts whose value is small enough.
pub fn parse_u16(s: &str) -> (r: Option<u16>)
    ensures
        match r {
            Some(v) => s@.len() > 0 && all_digits(s@) && v as int == digits_val(s@),
            None => s@.len() == 0 || !all_digits(s@) || digits_val(s@) > u16::MAX,
        },
{
    let n: usize = s.unicode_len();
    if n == 0 {
        return None;
    }
    let mut acc: u32 = 0;
    let mut over = false;
    let mut i: usize = 0;
    while i < n
        invariant
            n == s@.len(),
            i <= n,
            all_digits(s@.take(i as int)),
            !over ==> acc <= 65535 && acc as int == digits_val(s@.take(i as int)),
            over ==> digits_val(s@.take(i as int)) > 65535,
        decreases n - i,
    {
        let c = s.get_char(i);
        if !is_digit_exec(c) {
            assert(!all_digits(s@));
            return None;
        }
        let d = digit_value(c);
        proof {
            assert(s@.take(i as int + 1).drop_last() =~= s@.take(i as int));
            assert(s@.take(i as int + 1).last() == s@[i as int]);
        }
        if !over {
            let next = acc * 10 + d;
            if next > 65535 {
                over = true;
            } else {
                acc = next;
            }
        } else {
            proof {
                lemma_digits_val_nonneg(s@.take(i as int));
            }
        }
        i = i + 1;
    }
    proof {
        assert(s@.take(n as int) =~= s@);
    }
    if over {
        None
    } else {
        Some(acc as u16)
    }
}

/// Render `x` in decimal.
pub fn usize_to_string(x: usize) -> (r: String)
    ensures
        r@ == dec_str(x as nat),
    decreases x,
{
    if x < 10 {
        let mut s = String::new();
        let c = digit_to_char(x);
        push_char(&mut s, c);
        proof {
            assert(Seq::<char>::empty().push(digit_char(x as nat)) =~= seq![
                digit_char(x as nat)
            ]);
        }
        s
    } else {
        let mut s = usize_to_string(x / 10);
        let c = digit_to_char(x % 10);
        push_char(&mut s, c);
        s
    }
}

/// The character for decimal digit `d`.
pub fn digit_to_char(d: usize) -> (c: char)
    requires
        d < 10,
    ensures
        c == digit_char(d as nat),
{
    if d == 0 {
        '0'
    } else if d == 1 {
        '1'
    } else if d == 2 {
        '2'
    } else if d == 3 {
        '3'
    } else if d == 4 {
        '4'
    } else if d == 5 {
        '5'
    } else if d == 6 {
        '6'
    } else if d == 7 {
        '7'
    } else if d == 8 {
        '8'
    } else {
        '9'
    }
}

} // verus!
