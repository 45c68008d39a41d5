//! A case-insensitive header mapping: names are ASCII lower-cased on entry,
//! a later insertion of the same name overwrites the earlier one, and entry
//! order inside one message is irrelevant to the mapping it denotes.
//!
//! The store is an append-only association list; its meaning is the map
//! obtained by folding the entries in order, later entries winning.

use crate::text::{bytes_eq, lower_bytes, lower_vec};
use vstd::prelude::*;

verus! {

/// The mapping denoted by an entry list: entries folded in order with ASCII
/// lower-cased names, a later entry overwriting an earlier one.
pub open spec fn map_of(entries: Seq<(Seq<u8>, Seq<u8>)>) -> Map<Seq<u8>, Seq<u8>>
    decreases entries.len(),
{
    if entries.len() == 0 {
        Map::empty()
    } else {
        map_of(entries.drop_last()).insert(lower_bytes(entries.last().0), entries.last().1)
    }
}

/// Entries folded in order on top of an existing mapping `m`.
pub open spec fn merge_entries(
    m: Map<Seq<u8>, Seq<u8>>,
    entries: Seq<(Seq<u8>, Seq<u8>)>,
) -> Map<Seq<u8>, Seq<u8>>
    decreases entries.len(),
{
    if entries.len() == 0 {
        m
    } else {
        merge_entries(m, entries.drop_last()).insert(
            lower_bytes(entries.last().0),
            entries.last().1,
        )
    }
}

/// A header name → value mapping with case-insensitive, unique names.
pub struct Headers {
    entries: Vec<(Vec<u8>, Vec<u8>)>,
}

impl View for Headers {
    type V = Seq<(Seq<u8>, Seq<u8>)>;

    closed spec fn view(&self) -> Seq<(Seq<u8>, Seq<u8>)> {
        self.entries.deep_view()
    }
}

impl Headers {
    /// The mapping this value denotes.
    pub open spec fn as_map(&self) -> Map<Seq<u8>, Seq<u8>> {
        map_of(self@)
    }

    /// An empty mapping.
    pub fn new() -> (h: Headers)
        ensures
            h@ =~= Seq::<(Seq<u8>, Seq<u8>)>::empty(),
            h.as_map() == Map::<Seq<u8>, Seq<u8>>::empty(),
    {
        Headers { entries: Vec::new() }
    }

    /// The number of stored entries (shadowed entries included).
    pub fn entry_count(&self) -> (n: usize)
        ensures
            n == self@.len(),
    {
        self.entries.len()
    }

    /// The entry at position `i`, with its name as stored (lower-cased).
    pub fn entry_at(&self, i: usize) -> (e: &(Vec<u8>, Vec<u8>))
        requires
            i < self@.len(),
        ensures
            e.deep_view() == self@[i as int],
    {
        &self.entries[i]
    }

    /// Sets `name` (case-insensitively) to `value`, overwriting any earlier
    /// value for the same name.
    pub fn insert(&mut self, name: Vec<u8>, value: Vec<u8>)
        ensures
            final(self)@ == old(self)@.push((lower_bytes(name@), value@)),
            final(self).as_map() == old(self).as_map().insert(lower_bytes(name@), value@),
    {
        let lowered = lower_vec(&name);
        let ghost before = self@;
        self.entries.push((lowered, value));
        proof {
            assert(self@ =~~= before.push((lower_bytes(name@), value@)));
            assert(lower_bytes(lower_bytes(name@)) =~= lower_bytes(name@));
            assert(self@.drop_last() =~= before);
        }
    }

    /// Looks `name` up case-insensitively.
    pub fn get(&self, name: &Vec<u8>) -> (r: Option<&Vec<u8>>)
        ensures
            match r {
                Some(v) => self.as_map().contains_key(lower_bytes(name@)) && v@
                    == self.as_map().index(lower_bytes(name@)),
                None => !self.as_map().contains_key(lower_bytes(name@)),
            },
    {
        let key = lower_vec(name);
        let mut i: usize = self.entries.len();
        while i > 0
            invariant
                i <= self@.len(),
                key@ == lower_bytes(name@),
                forall|t: int|
                    i <= t < self@.len() ==> lower_bytes(#[trigger] self@[t].0) != key@,
            decreases i,
        {
            i -= 1;
            let stored = lower_vec(&self.entries[i].0);
            proof {
                assert(self@[i as int].0 =~= self.entries@[i as int].0@);
                assert(self@[i as int].1 =~= self.entries@[i as int].1@);
            }
            if bytes_eq(&stored, &key) {
                proof {
                    lemma_map_of_scan(self@, key@, i + 1);
                    assert(self@.subrange(0, i + 1).drop_last() =~= self@.subrange(0, i as int));
                    assert(self@.subrange(0, i + 1).last() == self@[i as int]);
                }
                return Some(&self.entries[i].1);
            }
        }
        proof {
            lemma_map_of_scan(self@, key@, 0);
            assert(self@.subrange(0, 0) =~= Seq::<(Seq<u8>, Seq<u8>)>::empty());
        }
        None
    }
}

/// When no entry at or after position `j` has the (lower-cased) name `k`,
/// the fold of the whole list and the fold of its first `j` entries agree
/// on `k`.
proof fn lemma_map_of_scan(entries: Seq<(Seq<u8>, Seq<u8>)>, k: Seq<u8>, j: int)
    requires
        0 <= j <= entries.len(),
        forall|t: int| j <= t < entries.len() ==> lower_bytes(#[trigger] entries[t].0) != k,
    ensures
        map_of(entries).contains_key(k) == map_of(entries.subrange(0, j)).contains_key(k),
        map_of(entries).contains_key(k) ==> map_of(entries)[k] == map_of(
            entries.subrange(0, j),
        )[k],
    decreases entries.len() - j,
{
    if j == entries.len() {
        assert(entries.subrange(0, j) =~= entries);
    } else {
        lemma_map_of_scan(entries, k, j + 1);
        assert(entries.subrange(0, j + 1).drop_last() =~= entries.subrange(0, j));
        assert(entries.subrange(0, j + 1).last() == entries[j]);
    }
}

} // verus!
