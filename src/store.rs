use vstd::prelude::*;
use crate::record::{Fingerprint, FingerprintView, PairView, fresh_record, pairs_view, with_pair};

verus! {

/// What a report did: added to a resident record, or created one.
/// A creation is the one event that arms the record's export.
#[derive(Debug, Clone, Copy, PartialEq, Eq, Structural)]
pub enum Outcome {
    Existing,
    Created,
}

impl Outcome {
    /// Whether this outcome arms a delayed export.
    pub fn arms_export(&self) -> (r: bool)
        ensures
            r == (*self == Outcome::Created),
    {
        match self {
            Outcome::Created => true,
            Outcome::Existing => false,
        }
    }
}

/// The resident records, keyed by client identity.
pub type StoreView = Map<Seq<char>, FingerprintView>;

/// What a report for `id` yields on the records `m`.
pub open spec fn outcome_for(m: StoreView, id: Seq<char>) -> Outcome {
    if m.contains_key(id) {
        Outcome::Existing
    } else {
        Outcome::Created
    }
}

/// The records after one report: the pair joins `id`'s resident record, or
/// a record created from `headers` and `now` when none is resident.
pub open spec fn reported(
    m: StoreView,
    id: Seq<char>,
    key: Seq<char>,
    value: Seq<char>,
    headers: Seq<PairView>,
    now: int,
) -> StoreView {
    if m.contains_key(id) {
        m.insert(id, with_pair(m[id], key, value))
    } else {
        m.insert(id, with_pair(fresh_record(headers, now), key, value))
    }
}

/// The records of the identities whose export has not yet run.
pub struct Store {
    entries: Vec<(String, Fingerprint)>,
    model: Ghost<StoreView>,
}

impl View for Store {
    type V = StoreView;

    closed spec fn view(&self) -> StoreView {
        self.model@
    }
}

impl Store {
    /// One entry per identity, and the model maps each identity to its record.
    pub closed spec fn wf(&self) -> bool {
        &&& forall|i: int, j: int|
            0 <= i < j < self.entries@.len() ==> #[trigger] self.entries@[i].0@
                != #[trigger] self.entries@[j].0@
        &&& forall|i: int|
            0 <= i < self.entries@.len() ==> {
                &&& self.model@.contains_key(#[trigger] self.entries@[i].0@)
                &&& self.model@[self.entries@[i].0@] == self.entries@[i].1@
            }
        &&& forall|k: Seq<char>|
            #[trigger] self.model@.contains_key(k) ==> exists|i: int|
                0 <= i < self.entries@.len() && #[trigger] self.entries@[i].0@ == k
    }

    /// An empty store.
    pub fn new() -> (r: Store)
        ensures
            r.wf(),
            r@ == Map::<Seq<char>, FingerprintView>::empty(),
    {
        Store { entries: Vec::new(), model: Ghost(Map::empty()) }
    }

    /// The number of resident records.
    pub fn len(&self) -> (r: usize)
        requires
            self.wf(),
        ensures
            r == self@.len(),
    {
        proof { self.lemma_len(); }
        self.entries.len()
    }

    proof fn lemma_len(&self)
        requires
            self.wf(),
        ensures
            self@.len() == self.entries@.len(),
    {
        let keys = self.entries@.map_values(|e: (String, Fingerprint)| e.0@);
        assert forall|k: Seq<char>| #[trigger] self@.dom().contains(k) implies keys.contains(k) by {
            let i = choose|i: int| 0 <= i < self.entries@.len() && #[trigger] self.entries@[i].0@ == k;
            assert(keys[i] == k);
        }
        assert forall|k: Seq<char>| keys.contains(k) implies #[trigger] self@.dom().contains(k) by {
            let i = choose|i: int| 0 <= i < keys.len() && keys[i] == k;
            assert(self.entries@[i].0@ == k);
        }
        assert(self@.dom() =~= keys.to_set());
        assert(keys.no_duplicates());
        keys.unique_seq_to_set();
    }

    /// The position of `identity`'s entry, if it has one.
    fn find(&self, identity: &String) -> (r: Option<usize>)
        requires
            self.wf(),
        ensures
            match r {
                Some(i) => i < self.entries@.len() && self.entries@[i as int].0@ == identity@,
                None => !self@.contains_key(identity@),
            },
    {
        let mut i: usize = 0;
        while i < self.entries.len()
            invariant
                self.wf(),
                i <= self.entries@.len(),
                forall|j: int| 0 <= j < i ==> #[trigger] self.entries@[j].0@ != identity@,
            decreases self.entries@.len() - i,
        {
            if self.entries[i].0.eq(identity) {
                return Some(i);
            }
            i = i + 1;
        }
        None
    }

    /// Whether a record for `identity` is resident.
    pub fn contains(&self, identity: &str) -> (r: bool)
        requires
            self.wf(),
        ensures
            r == self@.contains_key(identity@),
    {
        let id = identity.to_owned();
        match self.find(&id) {
            Some(_) => true,
            None => false,
        }
    }

    /// Adds a reported pair to `identity`'s record, creating the record from
    /// `headers` and `now` when none is resident.
    pub fn report(
        &mut self,
        identity: &str,
        key: String,
        value: String,
        headers: Vec<(String, String)>,
        now: i64,
    ) -> (r: Outcome)
        requires
            old(self).wf(),
        ensures
            final(self).wf(),
            r == outcome_for(old(self)@, identity@),
            final(self)@ == reported(
                old(self)@,
                identity@,
                key@,
                value@,
                pairs_view(headers@),
                now as int,
            ),
    {
        let id = identity.to_owned();
        match self.find(&id) {
            Some(i) => {
                let ghost before = self.entries@;
                let mut entry = self.entries.swap_remove(i);
                entry.1.insert((key, value));
                self.entries.push(entry);
                self.model = Ghost(self.model@.insert(id@, entry.1@));
                proof {
                    let n = before.len() as int;
                    assert forall|k: Seq<char>| #[trigger] self.model@.contains_key(k) implies
                        exists|m: int| 0 <= m < self.entries@.len() && #[trigger] self.entries@[m].0@ == k
                    by {
                        if k == id@ {
                            assert(self.entries@[n - 1].0@ == k);
                        } else {
                            let j = choose|j: int| 0 <= j < n && #[trigger] before[j].0@ == k;
                            assert(j != i);
                            if j == n - 1 {
                                assert(self.entries@[i as int].0@ == k);
                            } else {
                                assert(self.entries@[j].0@ == k);
                            }
                        }
                    }
                }
                Outcome::Existing
            },
            None => {
                let ghost before = self.entries@;
                let mut f = Fingerprint::new(headers, now);
                f.insert((key, value));
                self.entries.push((id, f));
                self.model = Ghost(self.model@.insert(id@, f@));
                proof {
                    let n = self.entries@.len() - 1;
                    assert forall|k: Seq<char>| #[trigger] self.model@.contains_key(k) implies
                        exists|m: int| 0 <= m < self.entries@.len() && #[trigger] self.entries@[m].0@ == k
                    by {
                        if k == id@ {
                            assert(self.entries@[n].0@ == k);
                        } else {
                            let j = choose|j: int| 0 <= j < n && #[trigger] before[j].0@ == k;
                            assert(self.entries@[j] == before[j]);
                        }
                    }
                }
                Outcome::Created
            },
        }
    }

    /// Removes and returns `identity`'s record; nothing happens when none is
    /// resident.
    pub fn take(&mut self, identity: &str) -> (r: Option<Fingerprint>)
        requires
            old(self).wf(),
        ensures
            final(self).wf(),
            final(self)@ == old(self)@.remove(identity@),
            !old(self)@.contains_key(identity@) ==> final(self)@ == old(self)@,
            match r {
                Some(f) => old(self)@.contains_key(identity@) && f@ == old(self)@[identity@],
                None => !old(self)@.contains_key(identity@),
            },
    {
        let id = identity.to_owned();
        match self.find(&id) {
            Some(i) => {
                let ghost before = self.entries@;
                let entry = self.entries.swap_remove(i);
                self.model = Ghost(self.model@.remove(id@));
                proof {
                    let n = before.len() as int;
                    assert forall|k: Seq<char>| #[trigger] self.model@.contains_key(k) implies
                        exists|m: int| 0 <= m < self.entries@.len() && #[trigger] self.entries@[m].0@ == k
                    by {
                        let j = choose|j: int| 0 <= j < n && #[trigger] before[j].0@ == k;
                        assert(j != i);
                        if j == n - 1 {
                            assert(self.entries@[i as int].0@ == k);
                        } else {
                            assert(self.entries@[j].0@ == k);
                        }
                    }
                }
                Some(entry.1)
            },
            None => {
                assert(self@ =~= old(self)@.remove(identity@));
                None
            },
        }
    }
}

} // verus!
