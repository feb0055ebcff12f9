use vstd::prelude::*;
use tokio::sync::mpsc::UnboundedSender;
use crate::event::ConMgrCommand;

verus! {

/// One live worker: the identifier it serves, its serial number, and the
/// sending end of its command queue.
#[verifier::reject_recursive_types(T)]
pub struct WorkerEntry<T> {
    pub uri: String,
    pub serial: u64,
    pub cmd_send: UnboundedSender<ConMgrCommand<T>>,
}

/// The manager's map from identifier to live worker. It is a list of
/// entries whose identifiers are pairwise distinct, viewed as a map from
/// identifier to the serial number of the worker registered under it.
#[verifier::reject_recursive_types(T)]
pub struct WorkerRegistry<T> {
    entries: Vec<WorkerEntry<T>>,
    map: Ghost<Map<Seq<char>, u64>>,
}

impl<T> View for WorkerRegistry<T> {
    type V = Map<Seq<char>, u64>;

    closed spec fn view(&self) -> Map<Seq<char>, u64> {
        self.map@
    }
}

impl<T> WorkerRegistry<T> {
    /// The number of entries.
    pub closed spec fn len_spec(&self) -> nat {
        self.entries@.len()
    }

    /// The identifier of the entry at position `i`.
    pub closed spec fn uri_at(&self, i: int) -> Seq<char> {
        self.entries[i].uri@
    }

    /// Identifiers are pairwise distinct, and the ghost map holds exactly the
    /// entries' identifiers, each with its entry's serial number.
    pub closed spec fn wf(&self) -> bool {
        &&& forall|i: int, j: int|
            0 <= i < j < self.entries.len() ==> #[trigger] self.entries[i].uri@
                != #[trigger] self.entries[j].uri@
        &&& forall|i: int|
            0 <= i < self.entries.len() ==> self.map@.contains_key(#[trigger] self.entries[i].uri@)
                && self.map@[self.entries[i].uri@] == self.entries[i].serial
        &&& forall|k: Seq<char>| #[trigger]
            self.map@.contains_key(k) ==> exists|i: int|
                0 <= i < self.entries.len() && #[trigger] self.entries[i].uri@ == k
    }

    /// An empty registry.
    pub fn new() -> (r: Self)
        ensures
            r.wf(),
            r@ == Map::<Seq<char>, u64>::empty(),
    {
        WorkerRegistry { entries: Vec::new(), map: Ghost(Map::empty()) }
    }

    /// The position of the entry registered under `uri`, if any.
    fn find(&self, uri: &String) -> (r: Option<usize>)
        requires
            self.wf(),
        ensures
            match r {
                Some(i) => i < self.entries.len() && self.entries[i as int].uri@ == uri@,
                None => !self@.contains_key(uri@),
            },
    {
        let mut i: usize = 0;
        while i < self.entries.len()
            invariant
                self.wf(),
                i <= self.entries.len(),
                forall|j: int| 0 <= j < i ==> #[trigger] self.entries[j].uri@ != uri@,
            decreases self.entries.len() - i,
        {
            if self.entries[i].uri == *uri {
                return Some(i);
            }
            i = i + 1;
        }
        None
    }

    /// The entry registered under `uri`, if any.
    pub fn get(&self, uri: &String) -> (r: Option<&WorkerEntry<T>>)
        requires
            self.wf(),
        ensures
            match r {
                Some(e) => self@.contains_key(uri@) && e.uri@ == uri@ && e.serial == self@[uri@],
                None => !self@.contains_key(uri@),
            },
    {
        match self.find(uri) {
            Some(i) => Some(&self.entries[i]),
            None => None,
        }
    }

    /// The serial number of the worker registered under `uri`, if any.
    pub fn serial_of(&self, uri: &String) -> (r: Option<u64>)
        requires
            self.wf(),
        ensures
            r == (if self@.contains_key(uri@) {
                Some(self@[uri@])
            } else {
                None::<u64>
            }),
    {
        match self.get(uri) {
            Some(e) => Some(e.serial),
            None => None,
        }
    }

    fn remove_at(&mut self, i: usize) -> (e: WorkerEntry<T>)
        requires
            old(self).wf(),
            i < old(self).entries.len(),
        ensures
            final(self).wf(),
            e == old(self).entries[i as int],
            old(self)@.contains_key(e.uri@),
            e.serial == old(self)@[e.uri@],
            final(self)@ == old(self)@.remove(e.uri@),
    {
        let ghost old_entries = self.entries@;
        let e = self.entries.remove(i);
        self.map = Ghost(self.map@.remove(e.uri@));
        assert forall|k: Seq<char>| #[trigger] self.map@.contains_key(k) implies exists|a: int|
            0 <= a < self.entries.len() && #[trigger] self.entries[a].uri@ == k by {
            let b = choose|b: int| 0 <= b < old_entries.len() && #[trigger] old_entries[b].uri@ == k;
            if b < i {
                assert(self.entries[b].uri@ == k);
            } else {
                assert(b != i);
                assert(self.entries[b - 1].uri@ == k);
            }
        }
        assert forall|a: int| 0 <= a < self.entries.len() implies self.map@.contains_key(
            #[trigger] self.entries[a].uri@,
        ) && self.map@[self.entries[a].uri@] == self.entries[a].serial by {
            if a < i {
                assert(old_entries[a].uri@ != old_entries[i as int].uri@);
            } else {
                assert(old_entries[a + 1].uri@ != old_entries[i as int].uri@);
            }
        }
        assert forall|a: int, c: int| 0 <= a < c < self.entries.len() implies #[trigger] self.entries[a].uri@
            != #[trigger] self.entries[c].uri@ by {
            let a2 = if a < i { a } else { a + 1 };
            let c2 = if c < i { c } else { c + 1 };
            assert(old_entries[a2].uri@ != old_entries[c2].uri@);
        }
        e
    }

    /// Registers `entry` under its identifier. An entry that was registered
    /// under that identifier before is taken out and handed back: there is
    /// never more than one entry per identifier.
    pub fn insert(&mut self, entry: WorkerEntry<T>) -> (prev: Option<WorkerEntry<T>>)
        requires
            old(self).wf(),
        ensures
            final(self).wf(),
            final(self)@ == old(self)@.insert(entry.uri@, entry.serial),
            match prev {
                Some(p) => old(self)@.contains_key(entry.uri@) && p.uri@ == entry.uri@ && p.serial
                    == old(self)@[entry.uri@],
                None => !old(self)@.contains_key(entry.uri@),
            },
    {
        let prev = match self.find(&entry.uri) {
            Some(i) => Some(self.remove_at(i)),
            None => None,
        };
        assert(!self@.contains_key(entry.uri@));
        let ghost before = self.entries@;
        self.map = Ghost(self.map@.insert(entry.uri@, entry.serial));
        self.entries.push(entry);
        assert forall|k: Seq<char>| #[trigger] self.map@.contains_key(k) implies exists|a: int|
            0 <= a < self.entries.len() && #[trigger] self.entries[a].uri@ == k by {
            if k == self.entries[before.len() as int].uri@ {
                assert(self.entries[before.len() as int].uri@ == k);
            } else {
                let b = choose|b: int| 0 <= b < before.len() && #[trigger] before[b].uri@ == k;
                assert(self.entries[b].uri@ == k);
            }
        }
        assert forall|a: int, c: int| 0 <= a < c < self.entries.len() implies #[trigger] self.entries[a].uri@
            != #[trigger] self.entries[c].uri@ by {
            if c == before.len() {
                assert(self.map@.remove(self.entries[c].uri@).contains_key(before[a].uri@));
            } else {
                assert(before[a].uri@ != before[c].uri@);
            }
        }
        proof {
            assert(self@ =~= old(self)@.insert(
                self.entries[before.len() as int].uri@,
                self.entries[before.len() as int].serial,
            ));
        }
        prev
    }

    /// Takes out the entry registered under `uri`, if any.
    pub fn remove(&mut self, uri: &String) -> (prev: Option<WorkerEntry<T>>)
        requires
            old(self).wf(),
        ensures
            final(self).wf(),
            final(self)@ == old(self)@.remove(uri@),
            match prev {
                Some(p) => old(self)@.contains_key(uri@) && p.uri@ == uri@ && p.serial == old(
                    self,
                )@[uri@],
                None => !old(self)@.contains_key(uri@),
            },
    {
        match self.find(uri) {
            Some(i) => Some(self.remove_at(i)),
            None => {
                assert(self@ =~= old(self)@.remove(uri@));
                None
            },
        }
    }

    /// At no time do two entries share an identifier.
    pub proof fn lemma_one_entry_per_identifier(&self, i: int, j: int)
        requires
            self.wf(),
            0 <= i < self.len_spec(),
            0 <= j < self.len_spec(),
            self.uri_at(i) == self.uri_at(j),
        ensures
            i == j,
    {
        if i < j {
            assert(self.entries[i].uri@ != self.entries[j].uri@);
        } else if j < i {
            assert(self.entries[j].uri@ != self.entries[i].uri@);
        }
    }
}

} // verus!
