//! Data model: suggestion descriptors, selector gateway options, and the
//! scoped variable map built while streaming records to the selector.

use vstd::prelude::*;
use crate::text::push_char;

verus! {

/// Governs selector flags and output shape for one gateway call.
#[derive(Clone, Copy, Debug, PartialEq, Eq, Structural)]
pub enum SuggestionType {
    /// Pick one line of the candidate list.
    SingleSelection,
    /// Pick any number of lines.
    MultipleSelections,
    /// Pick a snippet and report which designated key was pressed.
    SnippetSelection,
    /// Print the query text and report whether tab or confirm was pressed.
    SingleRecommendation,
    /// Free-text prompt with no candidate list.
    Disabled,
}

/// How a suggestion's candidate list is gathered and post-processed.
pub struct SuggestionOptions {
    pub suggestion_type: SuggestionType,
    pub header_lines: u8,
    pub column: Option<u8>,
    pub delimiter: Option<String>,
}

/// A shell command whose output becomes a candidate list for one variable,
/// plus optional post-processing hints.
pub struct Suggestion {
    pub command: String,
    pub options: Option<SuggestionOptions>,
}

/// Immutable per-call configuration of the selector gateway.
pub struct Opts {
    pub query: Option<String>,
    pub filter: Option<String>,
    pub prompt: Option<String>,
    pub preview: Option<String>,
    pub preview_window: Option<String>,
    pub autoselect: bool,
    pub overrides: Option<String>,
    pub header_lines: u8,
    pub header: Option<String>,
    pub suggestion_type: SuggestionType,
    pub column: Option<u8>,
    pub delimiter: Option<String>,
}

impl Default for Opts {
    /// A plain single-selection call: no optional field set, auto-select
    /// enabled, no header lines.
    fn default() -> (r: Self)
        ensures
            r.query is None,
            r.filter is None,
            r.prompt is None,
            r.preview is None,
            r.preview_window is None,
            r.autoselect == true,
            r.overrides is None,
            r.header_lines == 0,
            r.header is None,
            r.suggestion_type == SuggestionType::SingleSelection,
            r.column is None,
            r.delimiter is None,
    {
        Opts {
            query: None,
            filter: None,
            prompt: None,
            preview: None,
            preview_window: None,
            autoselect: true,
            overrides: None,
            header_lines: 0,
            header: None,
            suggestion_type: SuggestionType::SingleSelection,
            column: None,
            delimiter: None,
        }
    }
}

// ---------------------------------------------------------------------------
// Variable map
// ---------------------------------------------------------------------------

/// One entry of the variable map: a scope key and its suggestion.
pub struct VarEntry {
    pub key: String,
    pub suggestion: Suggestion,
}

/// Mapping from (tag scope, variable name) to a suggestion; keys are unique
/// and the first writer wins.
pub struct VariableMap {
    pub entries: Vec<VarEntry>,
}

/// The lookup key for a variable: tag scope and name joined by a semicolon.
pub open spec fn map_key(tags: Seq<char>, name: Seq<char>) -> Seq<char> {
    tags + seq![';'] + name
}

/// First entry with the given key, if any.
pub open spec fn lookup(entries: Seq<VarEntry>, key: Seq<char>) -> Option<Suggestion>
    decreases entries.len(),
{
    if entries.len() == 0 {
        None
    } else if entries[0].key@ == key {
        Some(entries[0].suggestion)
    } else {
        lookup(entries.drop_first(), key)
    }
}

/// Build the executable lookup key for a scope and name.
pub fn make_key(tags: &str, name: &str) -> (r: String)
    ensures
        r@ == map_key(tags@, name@),
{
    let mut key = String::new();
    key.append(tags);
    push_char(&mut key, ';');
    key.append(name);
    proof {
        assert(key@ =~= map_key(tags@, name@));
    }
    key
}

impl VariableMap {
    /// An empty map.
    pub fn new() -> (r: Self)
        ensures
            r.entries@.len() == 0,
    {
        VariableMap { entries: Vec::new() }
    }

    /// Number of entries.
    pub fn len(&self) -> (r: usize)
        ensures
            r == self.entries@.len(),
    {
        self.entries.len()
    }

    /// Insert a suggestion for (tag scope, variable name); a key already
    /// present keeps its first suggestion and the map is unchanged.
    pub fn insert(&mut self, tags: &str, name: &str, suggestion: Suggestion)
        ensures
            lookup(old(self).entries@, map_key(tags@, name@)) is Some ==> final(self).entries@
                == old(self).entries@,
            lookup(old(self).entries@, map_key(tags@, name@)) is None ==> {
                &&& final(self).entries@.len() == old(self).entries@.len() + 1
                &&& final(self).entries@.take(old(self).entries@.len() as int) == old(
                    self,
                ).entries@
                &&& final(self).entries@.last().key@ == map_key(tags@, name@)
                &&& final(self).entries@.last().suggestion == suggestion
            },
    {
        let key = make_key(tags, name);
        if self.find_index(key.as_str()).is_none() {
            let ghost prev = self.entries@;
            self.entries.push(VarEntry { key, suggestion });
            proof {
                assert(final(self).entries@.take(prev.len() as int) =~= prev);
            }
        }
    }

    /// The suggestion registered for (tag scope, variable name), if any.
    pub fn get(&self, tags: &str, name: &str) -> (r: Option<&Suggestion>)
        ensures
            match r {
                Some(s) => lookup(self.entries@, map_key(tags@, name@)) == Some(*s),
                None => lookup(self.entries@, map_key(tags@, name@)) is None,
            },
    {
        let key = make_key(tags, name);
        match self.find_index(key.as_str()) {
            Some(i) => Some(&self.entries[i].suggestion),
            None => None,
        }
    }

    /// Index of the first entry whose key equals `key`.
    fn find_index(&self, key: &str) -> (r: Option<usize>)
        ensures
            match r {
                Some(i) => i < self.entries@.len() && lookup(self.entries@, key@) == Some(
                    self.entries@[i as int].suggestion,
                ),
                None => lookup(self.entries@, key@) is None,
            },
    {
        let n = self.entries.len();
        let mut i: usize = 0;
        proof {
            assert(self.entries@.skip(0) =~= self.entries@);
        }
        while i < n
            invariant
                n == self.entries@.len(),
                i <= n,
                lookup(self.entries@, key@) == lookup(self.entries@.skip(i as int), key@),
            decreases n - i,
        {
            let e = &self.entries[i];
            if crate::text::str_eq(e.key.as_str(), key) {
                proof {
                    assert(self.entries@.skip(i as int)[0] == self.entries@[i as int]);
                }
                return Some(i);
            }
            proof {
                assert(self.entries@.skip(i as int).drop_first() =~= self.entries@.skip(
                    i as int + 1,
                ));
                assert(self.entries@.skip(i as int)[0] == self.entries@[i as int]);
            }
            i = i + 1;
        }
        proof {
            assert(self.entries@.skip(n as int) =~= Seq::<VarEntry>::empty());
        }
        None
    }
}

} // verus!
