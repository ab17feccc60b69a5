//! The in-memory lookup store: one immutable word/definition map per
//! language code, installed when a pipeline run succeeds and evicted when
//! the backing file is deleted.
use crate::helper::str_eq;
use crate::json::{entries_view, json_dict_entries, parse_dict_entries};
use crate::registry::{registry_index, OfflineDict};
use crate::textnorm::{lower_of, normalize_word, trimmed_of};
use vstd::prelude::*;

verus! {

/// The non-fatal lookup failures: no dictionary is available for the code,
/// or the dictionary does not hold the word.
#[derive(Debug, Clone, Copy, PartialEq, Eq, Structural)]
pub enum LookupError {
    DictionaryUnavailable,
    NotFound,
}

/// A loaded dictionary: the word/definition pairs of a rectified JSON file,
/// in file order.
pub struct Dictionary {
    pub entries: Vec<(String, String)>,
}

/// The mapping an entry list denotes: for a duplicated word, the later pair
/// wins.
pub open spec fn map_of_entries(es: Seq<(Seq<char>, Seq<char>)>) -> Map<Seq<char>, Seq<char>>
    decreases es.len(),
{
    if es.len() == 0 {
        Map::empty()
    } else {
        map_of_entries(es.drop_last()).insert(es.last().0, es.last().1)
    }
}

proof fn lemma_map_of_entries_get(es: Seq<(Seq<char>, Seq<char>)>, w: Seq<char>, k: int)
    requires
        0 <= k < es.len(),
        es[k].0 == w,
        forall|j: int| k < j < es.len() ==> es[j].0 != w,
    ensures
        map_of_entries(es).contains_key(w),
        map_of_entries(es)[w] == es[k].1,
    decreases es.len(),
{
    if k < es.len() - 1 {
        lemma_map_of_entries_get(es.drop_last(), w, k);
    }
}

proof fn lemma_map_of_entries_absent(es: Seq<(Seq<char>, Seq<char>)>, w: Seq<char>)
    requires
        forall|j: int| 0 <= j < es.len() ==> es[j].0 != w,
    ensures
        !map_of_entries(es).contains_key(w),
    decreases es.len(),
{
    if es.len() > 0 {
        lemma_map_of_entries_absent(es.drop_last(), w);
    }
}

impl View for Dictionary {
    type V = Map<Seq<char>, Seq<char>>;

    open spec fn view(&self) -> Map<Seq<char>, Seq<char>> {
        map_of_entries(entries_view(self.entries@))
    }
}

impl Dictionary {
    /// Reads a rectified JSON text into a dictionary; `None` exactly when
    /// the text is not a JSON object.
    pub fn parse(text: &str) -> (r: Option<Dictionary>)
        ensures
            match r {
                Some(d) => json_dict_entries(text@) == Some(entries_view(d.entries@)),
                None => json_dict_entries(text@) is None,
            },
    {
        match parse_dict_entries(text) {
            Some(v) => Some(Dictionary { entries: v }),
            None => None,
        }
    }

    /// Looks an already-normalized key up; for a duplicated word the later
    /// pair wins.
    pub fn get(&self, word: &str) -> (r: Option<String>)
        ensures
            match r {
                Some(v) => self@.contains_key(word@) && v@ == self@[word@],
                None => !self@.contains_key(word@),
            },
    {
        let ghost es = entries_view(self.entries@);
        let mut i = self.entries.len();
        while i > 0
            invariant
                i <= self.entries.len(),
                es == entries_view(self.entries@),
                forall|j: int| i <= j < es.len() ==> es[j].0 != word@,
            decreases i,
        {
            i = i - 1;
            if str_eq(self.entries[i].0.as_str(), word) {
                proof {
                    lemma_map_of_entries_get(es, word@, i as int);
                }
                return Some(self.entries[i].1.clone());
            }
        }
        proof {
            lemma_map_of_entries_absent(es, word@);
        }
        None
    }
}

/// What a lookup returns, given the loaded dictionaries and a normalized
/// query.
pub open spec fn spec_lookup(
    loaded: Map<Seq<char>, Map<Seq<char>, Seq<char>>>,
    code: Seq<char>,
    word: Seq<char>,
) -> Result<Seq<char>, LookupError> {
    if !loaded.contains_key(code) {
        Err(LookupError::DictionaryUnavailable)
    } else if !loaded[code].contains_key(word) {
        Err(LookupError::NotFound)
    } else {
        Ok(loaded[code][word])
    }
}

/// The dictionary store: the registry, and one slot per registry entry that
/// holds the loaded dictionary when the language's rectified file has been
/// read.
pub struct DictionaryStore {
    pub registry: Vec<OfflineDict>,
    pub slots: Vec<Option<Dictionary>>,
}

impl DictionaryStore {
    /// One slot per registry entry, and codes unique, so that a code names
    /// one slot.
    pub open spec fn wf(&self) -> bool {
        &&& self.slots@.len() == self.registry@.len()
        &&& forall|i: int, j: int|
            0 <= i < j < self.registry@.len() ==> self.registry@[i].code@
                != self.registry@[j].code@
    }

    /// The loaded dictionaries, keyed by language code.
    pub open spec fn loaded(&self) -> Map<Seq<char>, Map<Seq<char>, Seq<char>>> {
        Map::new(
            |c: Seq<char>|
                exists|i: int|
                    0 <= i < self.registry@.len() && self.registry@[i].code@ == c
                        && self.slots@[i] is Some,
            |c: Seq<char>|
                {
                    let i = choose|i: int|
                        0 <= i < self.registry@.len() && self.registry@[i].code@ == c
                            && self.slots@[i] is Some;
                    self.slots@[i].unwrap()@
                },
        )
    }

    /// An empty store over a registry: nothing loaded yet.
    pub fn new(registry: Vec<OfflineDict>) -> (r: DictionaryStore)
        requires
            forall|i: int, j: int|
                0 <= i < j < registry@.len() ==> registry@[i].code@ != registry@[j].code@,
        ensures
            r.wf(),
            r.loaded() =~= Map::<Seq<char>, Map<Seq<char>, Seq<char>>>::empty(),
            r.registry == registry,
    {
        let n = registry.len();
        let mut slots: Vec<Option<Dictionary>> = Vec::new();
        let mut k: usize = 0;
        while k < n
            invariant
                k <= n,
                slots@.len() == k,
                forall|i: int| 0 <= i < k ==> slots@[i] is None,
            decreases n - k,
        {
            slots.push(None);
            k += 1;
        }
        let r = DictionaryStore { registry, slots };
        proof {
            assert forall|c: Seq<char>| !r.loaded().dom().contains(c) by {}
        }
        r
    }

    /// Whether a dictionary is loaded for the code.
    pub fn is_loaded(&self, code: &str) -> (r: bool)
        requires
            self.wf(),
        ensures
            r == self.loaded().contains_key(code@),
    {
        match registry_index(&self.registry, code) {
            None => false,
            Some(i) => self.slots[i].is_some(),
        }
    }

    /// Installs the dictionary loaded for a code; returns whether the code
    /// is in the registry (nothing changes when it is not).
    pub fn install(&mut self, code: &str, dict: Dictionary) -> (r: bool)
        requires
            old(self).wf(),
        ensures
            final (self).wf(),
            final (self).registry == old(self).registry,
            r == exists|i: int|
                0 <= i < old(self).registry@.len() && old(self).registry@[i].code@ == code@,
            r ==> final (self).loaded() =~= old(self).loaded().insert(code@, dict@),
            !r ==> final (self).loaded() =~= old(self).loaded(),
    {
        match registry_index(&self.registry, code) {
            None => false,
            Some(i) => {
                self.slots.set(i, Some(dict));
                proof {
                    assert forall|c: Seq<char>|
                        final (self).loaded().dom().contains(c) == old(self).loaded().insert(
                            code@,
                            dict@,
                        ).dom().contains(c) by {
                        if c == code@ {
                            assert(final (self).slots@[i as int] is Some);
                        } else {
                            if old(self).loaded().dom().contains(c) {
                                let w = choose|j: int|
                                    0 <= j < old(self).registry@.len() && old(self).registry@[j].code@ == c && old(self).slots@[j] is Some;
                                assert(final (self).slots@[w] == old(self).slots@[w]);
                            }
                            if final (self).loaded().dom().contains(c) {
                                let w = choose|j: int|
                                    0 <= j < final (self).registry@.len() && final(self).registry@[j].code@ == c && final (self).slots@[j] is Some;
                                assert(old(self).slots@[w] == final (self).slots@[w]);
                            }
                        }
                    }
                    assert forall|c: Seq<char>| final (self).loaded().dom().contains(
                        c,
                    ) implies final (self).loaded()[c] == old(self).loaded().insert(
                        code@,
                        dict@,
                    )[c] by {
                        let w = choose|j: int|
                            0 <= j < final (self).registry@.len() && final(self).registry@[j].code@ == c && final (self).slots@[j] is Some;
                        if c == code@ {
                            assert(w == i as int);
                        } else {
                            assert(final (self).slots@[w] == old(self).slots@[w]);
                            assert(old(self).loaded().dom().contains(c));
                            let w2 = choose|j: int|
                                0 <= j < old(self).registry@.len() && old(self).registry@[j].code@
                                    == c && old(self).slots@[j] is Some;
                            assert(w2 == w);
                        }
                    }
                }
                true
            },
        }
    }

    /// Evicts the dictionary loaded for a code; returns whether the code is
    /// in the registry. A later lookup for the code reports the dictionary
    /// unavailable.
    pub fn delete(&mut self, code: &str) -> (r: bool)
        requires
            old(self).wf(),
        ensures
            final (self).wf(),
            final (self).registry == old(self).registry,
            r == exists|i: int|
                0 <= i < old(self).registry@.len() && old(self).registry@[i].code@ == code@,
            r ==> final (self).loaded() =~= old(self).loaded().remove(code@),
            !r ==> final (self).loaded() =~= old(self).loaded(),
    {
        match registry_index(&self.registry, code) {
            None => false,
            Some(i) => {
                self.slots.set(i, None);
                proof {
                    assert forall|c: Seq<char>|
                        final (self).loaded().dom().contains(c) == old(self).loaded().remove(
                            code@,
                        ).dom().contains(c) by {
                        if c != code@ {
                            if old(self).loaded().dom().contains(c) {
                                let w = choose|j: int|
                                    0 <= j < old(self).registry@.len() && old(self).registry@[j].code@ == c && old(self).slots@[j] is Some;
                                assert(final (self).slots@[w] == old(self).slots@[w]);
                            }
                            if final (self).loaded().dom().contains(c) {
                                let w = choose|j: int|
                                    0 <= j < final (self).registry@.len() && final(self).registry@[j].code@ == c && final (self).slots@[j] is Some;
                                assert(old(self).slots@[w] == final (self).slots@[w]);
                            }
                        } else {
                            if final (self).loaded().dom().contains(c) {
                                let w = choose|j: int|
                                    0 <= j < final (self).registry@.len() && final(self).registry@[j].code@ == c && final (self).slots@[j] is Some;
                                assert(w == i as int);
                            }
                        }
                    }
                    assert forall|c: Seq<char>| final (self).loaded().dom().contains(
                        c,
                    ) implies final (self).loaded()[c] == old(self).loaded().remove(code@)[c] by {
                        let w = choose|j: int|
                            0 <= j < final (self).registry@.len() && final(self).registry@[j].code@ == c && final (self).slots@[j] is Some;
                        assert(final (self).slots@[w] == old(self).slots@[w]);
                        assert(old(self).loaded().dom().contains(c));
                        let w2 = choose|j: int|
                            0 <= j < old(self).registry@.len() && old(self).registry@[j].code@ == c
                                && old(self).slots@[j] is Some;
                        assert(w2 == w);
                    }
                }
                true
            },
        }
    }

    /// Looks a word up in the dictionary loaded for a code. The query is
    /// normalized — trimmed, then lowercased — before the key comparison.
    pub fn lookup(&self, code: &str, word: &str) -> (r: Result<String, LookupError>)
        requires
            self.wf(),
        ensures
            match r {
                Ok(v) => spec_lookup(self.loaded(), code@, lower_of(trimmed_of(word@))) == Ok::<
                    Seq<char>,
                    LookupError,
                >(v@),
                Err(e) => spec_lookup(self.loaded(), code@, lower_of(trimmed_of(word@))) == Err::<
                    Seq<char>,
                    LookupError,
                >(e),
            },
    {
        let normalized = normalize_word(word);
        let ghost w = lower_of(trimmed_of(word@));
        match registry_index(&self.registry, code) {
            None => Err(LookupError::DictionaryUnavailable),
            Some(i) => match &self.slots[i] {
                None => {
                    proof {
                        if self.loaded().dom().contains(code@) {
                            let j = choose|j: int|
                                0 <= j < self.registry@.len() && self.registry@[j].code@ == code@
                                    && self.slots@[j] is Some;
                            assert(j == i as int);
                        }
                    }
                    Err(LookupError::DictionaryUnavailable)
                },
                Some(d) => {
                    proof {
                        assert(self.loaded().dom().contains(code@));
                        let j = choose|j: int|
                            0 <= j < self.registry@.len() && self.registry@[j].code@ == code@
                                && self.slots@[j] is Some;
                        assert(j == i as int);
                        assert(self.loaded()[code@] == d@);
                    }
                    match d.get(normalized.as_str()) {
                        Some(v) => Ok(v),
                        None => Err(LookupError::NotFound),
                    }
                },
            },
        }
    }
}

/// Lookup lifecycle: with nothing loaded a lookup reports the dictionary
/// unavailable; once a dictionary holding the word is installed for the
/// code, the lookup returns its stored definition; after a deletion of the
/// code it reports the dictionary unavailable again.
pub proof fn lemma_lookup_lifecycle(
    loaded: Map<Seq<char>, Map<Seq<char>, Seq<char>>>,
    code: Seq<char>,
    word: Seq<char>,
    dict: Map<Seq<char>, Seq<char>>,
)
    ensures
        spec_lookup(Map::<Seq<char>, Map<Seq<char>, Seq<char>>>::empty(), code, word) == Err::<
            Seq<char>,
            LookupError,
        >(LookupError::DictionaryUnavailable),
        dict.contains_key(word) ==> spec_lookup(loaded.insert(code, dict), code, word) == Ok::<
            Seq<char>,
            LookupError,
        >(dict[word]),
        spec_lookup(loaded.remove(code), code, word) == Err::<Seq<char>, LookupError>(
            LookupError::DictionaryUnavailable,
        ),
{
}

} // verus!
