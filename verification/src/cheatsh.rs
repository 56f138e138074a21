//! Remote cheatsheet text handling: cleaning fetched output and shaping it
//! into parser lines.

use vstd::prelude::*;
use crate::error::NaviError;
use crate::text::drop_trailing_char;
use crate::text::split_all;
use crate::text::str_split;
use crate::text::string_from_utf8;
use crate::text::trim_end_char;
use crate::text::trim_ws;
use crate::text::trim_ws_spec;

verus! {

/// A fetched line cleaned for the parser: whitespace trimmed, any trailing
/// colons dropped.
pub open spec fn map_line_spec(line: Seq<char>) -> Seq<char> {
    drop_trailing_char(trim_ws_spec(line), ':')
}

/// Clean one fetched line.
pub fn map_line(line: &str) -> (r: String)
    ensures
        r@ == map_line_spec(line@),
{
    let trimmed = trim_ws(line);
    trim_end_char(trimmed.as_str(), ':')
}

/// The lines of a text, the trailing empty line of a newline-terminated
/// text dropped.
pub open spec fn lines_of(s: Seq<char>) -> Seq<Seq<char>> {
    let parts = split_all(s, seq!['\n']);
    if s.len() > 0 && s.last() == '\n' {
        parts.drop_last()
    } else {
        parts
    }
}

/// The fetched sheet shaped for the parser: a tag header naming the query
/// and the source, then the markdown, each line cleaned.
pub open spec fn lines_spec(query: Seq<char>, markdown: Seq<char>) -> Seq<Seq<char>> {
    lines_of("% "@ + query + ", cheat.sh\n"@ + markdown).map_values(|l: Seq<char>| map_line_spec(l))
}

/// Shape a fetched sheet into cleaned parser lines.
pub fn lines(query: &str, markdown: &str) -> (r: Vec<String>)
    ensures
        r.deep_view() == lines_spec(query@, markdown@),
{
    let mut full = String::new();
    full.append("% ");
    full.append(query);
    full.append(", cheat.sh\n");
    full.append(markdown);
    proof {
        assert(full@ =~= "% "@ + query@ + ", cheat.sh\n"@ + markdown@);
        reveal_strlit("\n");
        assert("\n"@ =~= seq!['\n']);
    }
    let mut parts = str_split(full.as_str(), "\n");
    let flen = full.unicode_len();
    if flen > 0 && full.as_str().get_char(flen - 1) == '\n' {
        let ghost before = parts.deep_view();
        parts.pop();
        proof {
            crate::text::lemma_split_from_len(full@, seq!['\n'], 0);
            assert(parts.deep_view() =~= before.drop_last());
        }
    }
    let ghost kept = parts.deep_view();
    proof {
        assert(kept == lines_of(full@));
    }
    let n = parts.len();
    let mut out: Vec<String> = Vec::new();
    let mut i: usize = 0;
    while i < n
        invariant
            n == parts@.len(),
            i <= n,
            kept == parts.deep_view(),
            out.deep_view().len() == i,
            forall|j: int| 0 <= j < i ==> out.deep_view()[j] == map_line_spec(kept[j]),
        decreases n - i,
    {
        let ghost prev = out.deep_view();
        let cleaned = map_line(parts[i].as_str());
        out.push(cleaned);
        proof {
            assert(out.deep_view() =~= prev.push(map_line_spec(parts@[i as int]@)));
            assert(kept[i as int] == parts@[i as int]@);
        }
        i = i + 1;
    }
    proof {
        assert(out.deep_view() =~= kept.map_values(|l: Seq<char>| map_line_spec(l)));
    }
    out
}

/// A remote lookup bound to one query.
pub struct Fetcher {
    pub query: String,
}

impl Fetcher {
    /// A fetcher for the given query.
    pub fn new(query: String) -> (f: Fetcher)
        ensures
            f.query == query,
    {
        Fetcher { query }
    }
}

/// What ANSI stripping leaves of a byte text; a function of the bytes
/// alone.
pub uninterp spec fn strip_ansi_of(bytes: Seq<u8>) -> Seq<u8>;

/// Relies on `strip_ansi_escapes::strip`: removes ANSI escape sequences
/// from the bytes; the result depends on the bytes alone.
#[verifier::external_body]
fn strip_ansi(bytes: &Vec<u8>) -> (r: Vec<u8>)
    ensures
        r@ == strip_ansi_of(bytes@),
{
    strip_ansi_escapes::strip(bytes)
}

/// Clean fetched output: ANSI escapes stripped, then decoded as UTF-8.
pub fn decode_fetched(bytes: &Vec<u8>) -> (r: Result<String, NaviError>)
    ensures
        vstd::utf8::valid_utf8(strip_ansi_of(bytes@)) ==> (r matches Ok(s) && s@
            == vstd::utf8::decode_utf8(strip_ansi_of(bytes@))),
        !vstd::utf8::valid_utf8(strip_ansi_of(bytes@)) ==> (r matches Err(e) && e is InvalidUtf8),
{
    let plain = strip_ansi(bytes);
    match string_from_utf8(plain) {
        Some(s) => Ok(s),
        None => Err(NaviError::InvalidUtf8),
    }
}

} // verus!
