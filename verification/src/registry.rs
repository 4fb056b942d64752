//! The connection registry: a process-wide map from connection identity to
//! that connection's outbound delivery handle. Entries are inserted on
//! connect and on registration (last writer wins, no uniqueness check) and
//! removed on session teardown. The handle type is generic: the routing
//! model uses a connection index, a host program can store a channel sender.

use vstd::prelude::*;

verus! {

/// One identity -> handle binding held by the registry.
struct Entry<H> {
    id: String,
    handle: H,
}

/// A map from connection identity to outbound handle, stored as a vector
/// of entries with pairwise distinct identities.
pub struct Registry<H> {
    entries: Vec<Entry<H>>,
}

/// Whether the sequence `s` holds an entry for identity `k`.
spec fn seq_has_key<H>(s: Seq<Entry<H>>, k: Seq<char>) -> bool {
    exists|i: int| 0 <= i < s.len() && s[i].id@ == k
}

/// The map that a sequence of entries denotes, later entries overriding
/// earlier ones with the same identity.
spec fn map_of<H>(s: Seq<Entry<H>>) -> Map<Seq<char>, H>
    decreases s.len(),
{
    if s.len() == 0 {
        Map::empty()
    } else {
        map_of(s.drop_last()).insert(s.last().id@, s.last().handle)
    }
}

/// `map_of(s)` holds exactly the identities that occur in `s`.
proof fn lemma_map_of_domain<H>(s: Seq<Entry<H>>)
    ensures
        forall|k: Seq<char>| #[trigger] map_of(s).contains_key(k) <==> seq_has_key(s, k),
    decreases s.len(),
{
    if s.len() > 0 {
        lemma_map_of_domain(s.drop_last());
        assert forall|k: Seq<char>| seq_has_key(s, k) implies #[trigger] map_of(s).contains_key(
            k,
        ) by {
            let i = choose|i: int| 0 <= i < s.len() && s[i].id@ == k;
            if i < s.len() - 1 {
                assert(s.drop_last()[i] == s[i]);
                assert(seq_has_key(s.drop_last(), k));
                assert(map_of(s.drop_last()).contains_key(k));
            } else {
                assert(s.last().id@ == k);
            }
        }
        assert forall|k: Seq<char>| #[trigger] map_of(s).contains_key(k) implies seq_has_key(
            s,
            k,
        ) by {
            if k == s.last().id@ {
                assert(s[s.len() - 1].id@ == k);
            } else {
                assert(map_of(s.drop_last()).contains_key(k));
                let i = choose|i: int|
                    0 <= i < s.drop_last().len() && s.drop_last()[i].id@ == k;
                assert(s.drop_last()[i] == s[i]);
                assert(s[i].id@ == k);
            }
        }
    }
}

/// In a sequence with pairwise distinct identities, each entry's identity
/// maps to that entry's handle.
proof fn lemma_map_of_index<H>(s: Seq<Entry<H>>, i: int)
    requires
        forall|p: int, q: int|
            0 <= p < q < s.len() ==> s[p].id@ != s[q].id@,
        0 <= i < s.len(),
    ensures
        map_of(s).contains_key(s[i].id@),
        map_of(s)[s[i].id@] == s[i].handle,
    decreases s.len(),
{
    lemma_map_of_domain(s);
    if i == s.len() - 1 {
    } else {
        lemma_map_of_index(s.drop_last(), i);
        assert(s.drop_last()[i] == s[i]);
        assert(s.last().id@ != s[i].id@);
    }
}

impl<H> Registry<H> {
    /// The registry as a mathematical map from identity to handle.
    pub closed spec fn view(&self) -> Map<Seq<char>, H> {
        map_of(self.entries@)
    }

    /// Internal invariant: identities are pairwise distinct.
    pub closed spec fn wf(&self) -> bool {
        forall|p: int, q: int|
            0 <= p < q < self.entries@.len() ==> self.entries@[p].id@ != self.entries@[q].id@
    }

    /// An empty registry.
    pub fn new() -> (r: Registry<H>)
        ensures
            r.wf(),
            r@ == Map::<Seq<char>, H>::empty(),
    {
        Registry { entries: Vec::new() }
    }

    /// Index of the entry for `id`, if one is held.
    fn find(&self, id: &String) -> (r: Option<usize>)
        requires
            self.wf(),
        ensures
            match r {
                Some(i) => i < self.entries@.len() && self.entries@[i as int].id@ == id@,
                None => !seq_has_key(self.entries@, id@),
            },
    {
        let n = self.entries.len();
        for i in 0..n
            invariant
                n == self.entries@.len(),
                forall|j: int| 0 <= j < i ==> self.entries@[j].id@ != id@,
        {
            if self.entries[i].id == *id {
                return Some(i);
            }
        }
        None
    }

    /// Insert or overwrite the entry for `id`; last writer wins.
    pub fn register(&mut self, id: String, handle: H)
        requires
            old(self).wf(),
        ensures
            final(self).wf(),
            final(self)@ == old(self)@.insert(id@, handle),
    {
        let ghost s0 = self.entries@;
        match self.find(&id) {
            Some(i) => {
                self.entries.remove(i);
                proof {
                    lemma_remove_key(s0, i as int);
                }
            },
            None => {
                proof {
                    lemma_map_of_domain(s0);
                    assert(map_of(s0).remove(id@) =~= map_of(s0));
                }
            },
        }
        let ghost s1 = self.entries@;
        self.entries.push(Entry { id, handle });
        proof {
            assert(self.entries@.drop_last() =~= s1);
            assert(map_of(self.entries@) =~= map_of(s0).insert(
                self.entries@.last().id@,
                handle,
            ));
            lemma_map_of_domain(s1);
            assert forall|p: int, q: int|
                0 <= p < q < self.entries@.len() implies self.entries@[p].id@
                != self.entries@[q].id@ by {
                if q == self.entries@.len() - 1 {
                    assert(s1[p].id@ != self.entries@[q].id@);
                }
            }
        }
    }

    /// The current handle for `id`, or nothing if absent.
    pub fn lookup(&self, id: &String) -> (r: Option<&H>)
        requires
            self.wf(),
        ensures
            match r {
                Some(h) => self@.contains_key(id@) && *h == self@[id@],
                None => !self@.contains_key(id@),
            },
    {
        proof {
            lemma_map_of_domain(self.entries@);
        }
        match self.find(id) {
            Some(i) => {
                proof {
                    lemma_map_of_index(self.entries@, i as int);
                }
                Some(&self.entries[i].handle)
            },
            None => None,
        }
    }

    /// Delete the entry for `id` if present; no-op otherwise.
    pub fn remove(&mut self, id: &String)
        requires
            old(self).wf(),
        ensures
            final(self).wf(),
            final(self)@ == old(self)@.remove(id@),
    {
        let ghost s0 = self.entries@;
        match self.find(id) {
            Some(i) => {
                self.entries.remove(i);
                proof {
                    lemma_remove_key(s0, i as int);
                }
            },
            None => {
                proof {
                    lemma_map_of_domain(s0);
                    assert(map_of(s0).remove(id@) =~= map_of(s0));
                }
            },
        }
    }
}

/// Removing the entry at position `i` from a duplicate-free sequence removes
/// exactly its identity from the denoted map, and keeps the rest
/// duplicate-free.
proof fn lemma_remove_key<H>(s: Seq<Entry<H>>, i: int)
    requires
        forall|p: int, q: int| 0 <= p < q < s.len() ==> s[p].id@ != s[q].id@,
        0 <= i < s.len(),
    ensures
        forall|p: int, q: int|
            0 <= p < q < s.remove(i).len() ==> s.remove(i)[p].id@ != s.remove(i)[q].id@,
        map_of(s.remove(i)) == map_of(s).remove(s[i].id@),
{
    let t = s.remove(i);
    let k = s[i].id@;
    assert forall|p: int, q: int| 0 <= p < q < t.len() implies t[p].id@ != t[q].id@ by {
        let p0 = if p < i { p } else { p + 1 };
        let q0 = if q < i { q } else { q + 1 };
        assert(t[p] == s[p0]);
        assert(t[q] == s[q0]);
    }
    lemma_map_of_domain(s);
    lemma_map_of_domain(t);
    assert forall|k2: Seq<char>| #![auto] map_of(t).contains_key(k2) implies map_of(
        s,
    ).remove(k).contains_key(k2) && map_of(t)[k2] == map_of(s).remove(k)[k2] by {
        let j = choose|j: int| 0 <= j < t.len() && t[j].id@ == k2;
        let j0 = if j < i { j } else { j + 1 };
        assert(t[j] == s[j0]);
        assert(seq_has_key(s, k2));
        assert(k2 != k);
        lemma_map_of_index(s, j0);
        lemma_map_of_index(t, j);
    }
    assert forall|k2: Seq<char>| #![auto] map_of(s).remove(k).contains_key(k2) implies map_of(
        t,
    ).contains_key(k2) by {
        let j = choose|j: int| 0 <= j < s.len() && s[j].id@ == k2;
        if j < i {
            assert(t[j].id@ == k2);
        } else {
            assert(t[j - 1].id@ == k2);
        }
    }
    assert(map_of(t) =~= map_of(s).remove(k));
}

} // verus!
