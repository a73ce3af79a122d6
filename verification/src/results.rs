//! The result tables: a map from concrete pattern to its occurrence count,
//! and, for the combinatorial mode, a map from candidate word to such a
//! table. Keys are the original strings; inserting an existing key
//! overwrites, so the last write wins.

use vstd::prelude::*;
use vstd::string::*;

verus! {

/// The map that a sequence of key-count entries denotes, later entries
/// overwriting earlier ones.
pub open spec fn count_entries_map(es: Seq<(String, usize)>) -> Map<Seq<char>, nat>
    decreases es.len(),
{
    if es.len() == 0 {
        Map::empty()
    } else {
        count_entries_map(es.drop_last()).insert(es.last().0@, es.last().1 as nat)
    }
}

proof fn lemma_count_entries_found(es: Seq<(String, usize)>, j: int, key: Seq<char>)
    requires
        0 <= j < es.len(),
        es[j].0@ == key,
        forall|l: int| j < l < es.len() ==> (#[trigger] es[l]).0@ != key,
    ensures
        count_entries_map(es).contains_key(key),
        count_entries_map(es)[key] == es[j].1 as nat,
    decreases es.len(),
{
    if j < es.len() - 1 {
        lemma_count_entries_found(es.drop_last(), j, key);
    }
}

proof fn lemma_count_entries_absent(es: Seq<(String, usize)>, key: Seq<char>)
    requires
        forall|l: int| 0 <= l < es.len() ==> (#[trigger] es[l]).0@ != key,
    ensures
        !count_entries_map(es).contains_key(key),
    decreases es.len(),
{
    if es.len() > 0 {
        lemma_count_entries_absent(es.drop_last(), key);
    }
}

/// A table of per-pattern occurrence counts, keyed by the concrete pattern
/// string. A lookup structure: its contents do not depend on construction
/// order beyond the last write to each key.
#[derive(Debug, Clone, PartialEq, Eq)]
pub struct ResultMap {
    entries: Vec<(String, usize)>,
}

impl View for ResultMap {
    type V = Map<Seq<char>, nat>;

    closed spec fn view(&self) -> Map<Seq<char>, nat> {
        count_entries_map(self.entries@)
    }
}

impl ResultMap {
    pub fn new() -> (r: Self)
        ensures
            r@ == Map::<Seq<char>, nat>::empty(),
    {
        ResultMap { entries: Vec::new() }
    }

    pub fn insert(&mut self, key: String, count: usize)
        ensures
            final(self)@ == old(self)@.insert(key@, count as nat),
    {
        let ghost before = self.entries@;
        let ghost k = key@;
        let ghost c = count;
        self.entries.push((key, count));
        proof {
            assert(self.entries@.drop_last() =~= before);
            assert(self.entries@.last().0@ == k && self.entries@.last().1 == c);
        }
    }

    /// The count recorded for `key`, or `None` when no pattern with that
    /// exact text was counted.
    pub fn get(&self, key: &str) -> (r: Option<usize>)
        ensures
            match r {
                Some(n) => self@.contains_key(key@) && self@[key@] == n as nat,
                None => !self@.contains_key(key@),
            },
    {
        let wanted: String = key.to_owned();
        let mut j = self.entries.len();
        while j > 0
            invariant
                j <= self.entries@.len(),
                wanted@ == key@,
                forall|l: int|
                    j <= l < self.entries@.len() ==> (#[trigger] self.entries@[l]).0@ != key@,
            decreases j,
        {
            j = j - 1;
            if self.entries[j].0 == wanted {
                proof {
                    lemma_count_entries_found(self.entries@, j as int, key@);
                }
                return Some(self.entries[j].1);
            }
        }
        proof {
            lemma_count_entries_absent(self.entries@, key@);
        }
        None
    }
}

/// The map that a sequence of word-table entries denotes, later entries
/// overwriting earlier ones.
pub open spec fn nested_entries_map(es: Seq<(String, ResultMap)>) -> Map<
    Seq<char>,
    Map<Seq<char>, nat>,
>
    decreases es.len(),
{
    if es.len() == 0 {
        Map::empty()
    } else {
        nested_entries_map(es.drop_last()).insert(es.last().0@, es.last().1@)
    }
}

proof fn lemma_nested_entries_found(es: Seq<(String, ResultMap)>, j: int, key: Seq<char>)
    requires
        0 <= j < es.len(),
        es[j].0@ == key,
        forall|l: int| j < l < es.len() ==> (#[trigger] es[l]).0@ != key,
    ensures
        nested_entries_map(es).contains_key(key),
        nested_entries_map(es)[key] == es[j].1@,
    decreases es.len(),
{
    if j < es.len() - 1 {
        lemma_nested_entries_found(es.drop_last(), j, key);
    }
}

proof fn lemma_nested_entries_absent(es: Seq<(String, ResultMap)>, key: Seq<char>)
    requires
        forall|l: int| 0 <= l < es.len() ==> (#[trigger] es[l]).0@ != key,
    ensures
        !nested_entries_map(es).contains_key(key),
    decreases es.len(),
{
    if es.len() > 0 {
        lemma_nested_entries_absent(es.drop_last(), key);
    }
}

/// The combinatorial result table: one per-pattern table for each candidate
/// word, keyed by the word.
#[derive(Debug, Clone, PartialEq, Eq)]
pub struct NestedMap {
    entries: Vec<(String, ResultMap)>,
}

impl View for NestedMap {
    type V = Map<Seq<char>, Map<Seq<char>, nat>>;

    closed spec fn view(&self) -> Map<Seq<char>, Map<Seq<char>, nat>> {
        nested_entries_map(self.entries@)
    }
}

impl NestedMap {
    pub fn new() -> (r: Self)
        ensures
            r@ == Map::<Seq<char>, Map<Seq<char>, nat>>::empty(),
    {
        NestedMap { entries: Vec::new() }
    }

    pub fn insert(&mut self, key: String, table: ResultMap)
        ensures
            final(self)@ == old(self)@.insert(key@, table@),
    {
        let ghost before = self.entries@;
        let ghost k = key@;
        let ghost t = table@;
        self.entries.push((key, table));
        proof {
            assert(self.entries@.drop_last() =~= before);
            assert(self.entries@.last().0@ == k && self.entries@.last().1@ == t);
        }
    }

    /// The table recorded for `key`, or `None` when no candidate word with
    /// that exact text was expanded.
    pub fn get(&self, key: &str) -> (r: Option<&ResultMap>)
        ensures
            match r {
                Some(m) => self@.contains_key(key@) && self@[key@] == m@,
                None => !self@.contains_key(key@),
            },
    {
        let wanted: String = key.to_owned();
        let mut j = self.entries.len();
        while j > 0
            invariant
                j <= self.entries@.len(),
                wanted@ == key@,
                forall|l: int|
                    j <= l < self.entries@.len() ==> (#[trigger] self.entries@[l]).0@ != key@,
            decreases j,
        {
            j = j - 1;
            if self.entries[j].0 == wanted {
                proof {
                    lemma_nested_entries_found(self.entries@, j as int, key@);
                }
                return Some(&self.entries[j].1);
            }
        }
        proof {
            lemma_nested_entries_absent(self.entries@, key@);
        }
        None
    }
}

} // verus!
