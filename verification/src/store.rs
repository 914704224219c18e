use vstd::prelude::*;

use crate::model::InsertOutcome;
use crate::model::Mapping;
use crate::model::valid_alias;

verus! {

/// The map held by a sequence of entries, later entries shadowing earlier
/// ones. A well-formed store never holds two entries under one alias, so no
/// shadowing actually occurs.
pub open spec fn map_of(entries: Seq<Mapping>) -> Map<Seq<char>, Seq<char>>
    decreases entries.len(),
{
    if entries.len() == 0 {
        Map::empty()
    } else {
        map_of(entries.drop_last()).insert(entries.last().alias@, entries.last().long_url@)
    }
}

/// No two entries share an alias.
pub open spec fn distinct_aliases(entries: Seq<Mapping>) -> bool {
    forall|i: int, j: int|
        0 <= i < j < entries.len() ==> (#[trigger] entries[i].alias@) != (
        #[trigger] entries[j].alias@)
}

/// A key is in the map exactly when some entry carries it as its alias.
proof fn lemma_map_of_contains(entries: Seq<Mapping>, k: Seq<char>)
    ensures
        map_of(entries).contains_key(k) <==> (exists|i: int|
            0 <= i < entries.len() && (#[trigger] entries[i].alias@) == k),
    decreases entries.len(),
{
    if entries.len() > 0 {
        lemma_map_of_contains(entries.drop_last(), k);
        if entries.last().alias@ == k {
            assert(entries[entries.len() - 1].alias@ == k);
        } else {
            assert forall|i: int|
                0 <= i < entries.len() && (#[trigger] entries[i].alias@) == k implies map_of(
                entries,
            ).contains_key(k) by {
                assert(entries.drop_last()[i].alias@ == k);
            }
        }
    }
}

/// Under distinctness, the map sends each entry's alias to that entry's
/// long URL.
proof fn lemma_map_of_value(entries: Seq<Mapping>, i: int)
    requires
        distinct_aliases(entries),
        0 <= i < entries.len(),
    ensures
        map_of(entries).contains_key(entries[i].alias@),
        map_of(entries)[entries[i].alias@] == entries[i].long_url@,
    decreases entries.len(),
{
    if i < entries.len() - 1 {
        lemma_map_of_value(entries.drop_last(), i);
        assert(entries.drop_last()[i] == entries[i]);
    }
}

/// In-memory mapping store: the reference implementation of durable
/// alias-to-URL persistence. Uniqueness is enforced by the atomic
/// insert-if-absent primitive; atomicity holds because every insertion runs
/// under exclusive access to the store.
pub struct MemStore {
    entries: Vec<Mapping>,
}

impl View for MemStore {
    type V = Map<Seq<char>, Seq<char>>;

    closed spec fn view(&self) -> Map<Seq<char>, Seq<char>> {
        map_of(self.entries@)
    }
}

impl MemStore {
    /// Well-formed store: every entry carries a valid alias and no alias
    /// occurs twice.
    pub closed spec fn wf(self) -> bool {
        &&& distinct_aliases(self.entries@)
        &&& forall|i: int| 0 <= i < self.entries@.len() ==> (#[trigger] self.entries@[i]).wf()
    }

    /// An empty store.
    pub fn new() -> (r: MemStore)
        ensures
            r.wf(),
            r@ == Map::<Seq<char>, Seq<char>>::empty(),
    {
        MemStore { entries: Vec::new() }
    }

    /// Looks an alias up; returns its mapping exactly when one is stored.
    pub fn get(&self, alias: &str) -> (r: Option<Mapping>)
        requires
            self.wf(),
        ensures
            match r {
                Some(m) => {
                    &&& self@.contains_key(alias@)
                    &&& m.alias@ == alias@
                    &&& m.long_url@ == self@[alias@]
                    &&& m.wf()
                },
                None => !self@.contains_key(alias@),
            },
    {
        let key: String = alias.to_owned();
        let n = self.entries.len();
        let mut i: usize = 0;
        while i < n
            invariant
                n == self.entries@.len(),
                i <= n,
                key@ == alias@,
                self.wf(),
                forall|j: int| 0 <= j < i ==> (#[trigger] self.entries@[j].alias@) != alias@,
            decreases n - i,
        {
            if self.entries[i].alias == key {
                let m = Mapping {
                    alias: self.entries[i].alias.clone(),
                    long_url: self.entries[i].long_url.clone(),
                };
                proof {
                    lemma_map_of_value(self.entries@, i as int);
                }
                return Some(m);
            }
            i += 1;
        }
        proof {
            lemma_map_of_contains(self.entries@, alias@);
        }
        None
    }

    /// Atomic insert-if-absent: stores the mapping exactly when no mapping
    /// under this alias exists, and reports which of the two happened. This
    /// in-memory store has no failing medium, so it never reports
    /// `StorageError`.
    pub fn insert_if_absent(&mut self, alias: &str, long_url: &str) -> (r: InsertOutcome)
        requires
            old(self).wf(),
            valid_alias(alias@),
        ensures
            final(self).wf(),
            r != InsertOutcome::StorageError,
            r == InsertOutcome::Inserted <==> !old(self)@.contains_key(alias@),
            r == InsertOutcome::Inserted ==> final(self)@ == old(self)@.insert(alias@, long_url@),
            r == InsertOutcome::AlreadyExists <==> old(self)@.contains_key(alias@),
            r == InsertOutcome::AlreadyExists ==> final(self)@ == old(self)@,
    {
        let key: String = alias.to_owned();
        let n = self.entries.len();
        let mut i: usize = 0;
        while i < n
            invariant
                n == self.entries@.len(),
                i <= n,
                key@ == alias@,
                self.wf(),
                self == old(self),
                forall|j: int| 0 <= j < i ==> (#[trigger] self.entries@[j].alias@) != alias@,
            decreases n - i,
        {
            if self.entries[i].alias == key {
                proof {
                    lemma_map_of_contains(self.entries@, alias@);
                }
                return InsertOutcome::AlreadyExists;
            }
            i += 1;
        }
        proof {
            lemma_map_of_contains(self.entries@, alias@);
        }
        let entry = Mapping { alias: key, long_url: long_url.to_owned() };
        let ghost before = self.entries@;
        self.entries.push(entry);
        proof {
            assert(self.entries@.drop_last() =~= before);
            assert(self@ == map_of(before).insert(alias@, long_url@));
        }
        InsertOutcome::Inserted
    }
}

} // verus!
