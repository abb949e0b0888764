//! The batch finalizer: an unordered registry of batches in flight, each with
//! what must be resolved once the batch's outcome is known.

use vstd::prelude::*;

verus! {

/// The terminal disposition that downstream reports for a batch.
#[derive(Clone, Copy, Debug, PartialEq, Eq, Structural)]
pub enum BatchStatus {
    /// Every record of the batch was delivered.
    Delivered,
    /// Delivery failed in a way that may succeed when tried again.
    Errored,
    /// Delivery failed for good.
    Rejected,
}

/// The finalizer as a mathematical value: the entries in flight, by the
/// identity of their batch, and the number of batches registered so far.
pub struct Registry<T> {
    pub entries: Map<u64, T>,
    pub issued: nat,
}

impl<T> Registry<T> {
    /// The registry in which nothing was ever registered.
    pub open spec fn empty() -> Registry<T> {
        Registry { entries: Map::empty(), issued: 0 }
    }

    /// The identity that the next batch receives.
    pub open spec fn next_id(self) -> u64 {
        self.issued as u64
    }

    /// The registry after `entry` was registered under the next identity.
    pub open spec fn add(self, entry: T) -> Registry<T> {
        Registry { entries: self.entries.insert(self.next_id(), entry), issued: self.issued + 1 }
    }

    /// Whether the batch `id` is in flight.
    pub open spec fn outstanding(self, id: u64) -> bool {
        self.entries.contains_key(id)
    }

    /// What the completion of batch `id` with `status` yields: the status and
    /// the entry of that batch, or nothing where no such batch is in flight.
    pub open spec fn yields(self, id: u64, status: BatchStatus) -> Option<(BatchStatus, T)> {
        if self.outstanding(id) {
            Some((status, self.entries[id]))
        } else {
            None
        }
    }

    /// The registry after the completion of batch `id`.
    pub open spec fn complete(self, id: u64) -> Registry<T> {
        Registry { entries: self.entries.remove(id), issued: self.issued }
    }

    /// The registry after every entry in flight was let go.
    pub open spec fn abandon(self) -> Registry<T> {
        Registry { entries: Map::empty(), issued: self.issued }
    }

    /// What holds of every registry that the finalizer can be in: finitely
    /// many entries, each under an identity that was issued.
    pub open spec fn well_formed(self) -> bool {
        &&& self.entries.dom().finite()
        &&& self.issued <= u64::MAX
        &&& forall|id: u64| self.entries.contains_key(id) ==> id < self.issued
    }
}

/// An entry in flight and the identity of its batch.
struct Pending<T> {
    id: u64,
    entry: T,
}

/// No two entries share an identity.
spec fn distinct_ids<T>(pending: Seq<Pending<T>>) -> bool {
    forall|i: int, j: int|
        0 <= i < j < pending.len() ==> (#[trigger] pending[i]).id != (#[trigger] pending[j]).id
}

/// Whether some entry has the identity `id`.
spec fn holds_id<T>(pending: Seq<Pending<T>>, id: u64) -> bool {
    exists|i: int| 0 <= i < pending.len() && (#[trigger] pending[i]).id == id
}

/// The place of an entry with the identity `id`.
spec fn place_of<T>(pending: Seq<Pending<T>>, id: u64) -> int {
    choose|i: int| 0 <= i < pending.len() && (#[trigger] pending[i]).id == id
}

/// The entries that a list stands for, by identity.
spec fn entries_of<T>(pending: Seq<Pending<T>>) -> Map<u64, T> {
    Map::new(|id: u64| holds_id(pending, id), |id: u64| pending[place_of(pending, id)].entry)
}

/// With distinct identities, the entry at `i` is the one its identity maps to.
proof fn lemma_pending_is_entry<T>(pending: Seq<Pending<T>>, i: int)
    requires
        distinct_ids(pending),
        0 <= i < pending.len(),
    ensures
        entries_of(pending).contains_key(pending[i].id),
        entries_of(pending)[pending[i].id] == pending[i].entry,
        place_of(pending, pending[i].id) == i,
{
    let id = pending[i].id;
    assert(holds_id(pending, id));
    let k = place_of(pending, id);
    assert(0 <= k < pending.len() && pending[k].id == id);
    if k < i {
        assert(pending[k].id != pending[i].id);
    } else if i < k {
        assert(pending[i].id != pending[k].id);
    }
}

/// Appending an entry under a fresh identity registers it.
proof fn lemma_registered<T>(pending: Seq<Pending<T>>, added: Pending<T>)
    requires
        distinct_ids(pending),
        !holds_id(pending, added.id),
    ensures
        distinct_ids(pending.push(added)),
        entries_of(pending.push(added)) == entries_of(pending).insert(added.id, added.entry),
{
    let after = pending.push(added);
    assert forall|i: int, j: int| 0 <= i < j < after.len() implies (#[trigger] after[i]).id != (
    #[trigger] after[j]).id by {
        if j < pending.len() {
            assert(pending[i].id != pending[j].id);
        } else {
            assert(after[i] == pending[i]);
        }
    }
    let target = entries_of(pending).insert(added.id, added.entry);
    assert forall|id: u64| entries_of(after).contains_key(id) <==> target.contains_key(id) by {
        if holds_id(after, id) {
            let k = place_of(after, id);
            if k < pending.len() {
                assert(pending[k].id == id);
            }
        }
        if holds_id(pending, id) {
            let k = place_of(pending, id);
            assert(after[k].id == id);
        }
        if id == added.id {
            assert(after[pending.len() as int].id == id);
        }
    }
    assert forall|id: u64| entries_of(after).contains_key(id) implies entries_of(after)[id]
        == target[id] by {
        let k = place_of(after, id);
        lemma_pending_is_entry(after, k);
        if k < pending.len() {
            assert(after[k] == pending[k]);
            lemma_pending_is_entry(pending, k);
        }
    }
    assert(entries_of(after) =~= target);
}

/// Taking the entry at `i` out of the list removes its identity, and no other.
proof fn lemma_released<T>(pending: Seq<Pending<T>>, i: int)
    requires
        distinct_ids(pending),
        0 <= i < pending.len(),
    ensures
        distinct_ids(pending.remove(i)),
        entries_of(pending.remove(i)) == entries_of(pending).remove(pending[i].id),
{
    let after = pending.remove(i);
    let gone = pending[i].id;
    assert forall|a: int, b: int| 0 <= a < b < after.len() implies (#[trigger] after[a]).id != (
    #[trigger] after[b]).id by {
        let a0 = if a < i { a } else { a + 1 };
        let b0 = if b < i { b } else { b + 1 };
        assert(after[a] == pending[a0]);
        assert(after[b] == pending[b0]);
        assert(pending[a0].id != pending[b0].id);
    }
    let target = entries_of(pending).remove(gone);
    assert forall|id: u64| entries_of(after).contains_key(id) <==> target.contains_key(id) by {
        if holds_id(after, id) {
            let k = place_of(after, id);
            let k0 = if k < i { k } else { k + 1 };
            assert(after[k] == pending[k0]);
            assert(pending[k0].id == id);
            if k0 < i {
                assert(pending[k0].id != pending[i].id);
            } else {
                assert(pending[i].id != pending[k0].id);
            }
        }
        if holds_id(pending, id) && id != gone {
            let k = place_of(pending, id);
            let k1 = if k < i { k } else { k - 1 };
            assert(after[k1] == pending[k]);
            assert(after[k1].id == id);
        }
    }
    assert forall|id: u64| entries_of(after).contains_key(id) implies entries_of(after)[id]
        == target[id] by {
        let k = place_of(after, id);
        let k0 = if k < i { k } else { k + 1 };
        lemma_pending_is_entry(after, k);
        assert(after[k] == pending[k0]);
        lemma_pending_is_entry(pending, k0);
    }
    assert(entries_of(after) =~= target);
}

/// With distinct identities there are as many registered entries as list
/// items.
proof fn lemma_entry_count<T>(pending: Seq<Pending<T>>)
    requires
        distinct_ids(pending),
    ensures
        entries_of(pending).dom().finite(),
        entries_of(pending).dom().len() == pending.len(),
    decreases pending.len(),
{
    if pending.len() == 0 {
        assert(entries_of(pending).dom() =~= Set::<u64>::empty());
    } else {
        let front = pending.drop_last();
        let last = pending.last();
        assert forall|i: int, j: int| 0 <= i < j < front.len() implies (#[trigger] front[i]).id != (
        #[trigger] front[j]).id by {
            assert(pending[i].id != pending[j].id);
        }
        if holds_id(front, last.id) {
            let k = place_of(front, last.id);
            assert(pending[k].id != pending[pending.len() - 1].id);
        }
        lemma_entry_count(front);
        lemma_registered(front, last);
        assert(front.push(last) =~= pending);
    }
}

/// A registry of batches in flight. Entries are registered in any number,
/// and each leaves when the completion of its own batch arrives, in whatever
/// order completions come.
pub struct UnorderedFinalizer<T> {
    pending: Vec<Pending<T>>,
    issued: u64,
}

impl<T> View for UnorderedFinalizer<T> {
    type V = Registry<T>;

    closed spec fn view(&self) -> Registry<T> {
        Registry { entries: entries_of(self.pending@), issued: self.issued as nat }
    }
}

impl<T> UnorderedFinalizer<T> {
    #[verifier::type_invariant]
    spec fn inv(&self) -> bool {
        &&& distinct_ids(self.pending@)
        &&& forall|i: int| 0 <= i < self.pending@.len() ==> (#[trigger] self.pending@[i]).id < self.issued
    }

    /// Every finalizer stands for a well-formed registry.
    proof fn lemma_well_formed(&self)
        requires
            self.inv(),
        ensures
            self@.well_formed(),
    {
        lemma_entry_count(self.pending@);
        assert forall|id: u64| self@.entries.contains_key(id) implies id < self@.issued by {
            let k = place_of(self.pending@, id);
            assert(self.pending@[k].id == id);
        }
    }

    /// A finalizer with nothing in flight.
    pub fn new() -> (r: UnorderedFinalizer<T>)
        ensures
            r@ == Registry::<T>::empty(),
            r@.well_formed(),
    {
        let r = UnorderedFinalizer { pending: Vec::new(), issued: 0 };
        assert(r@.entries =~= Map::<u64, T>::empty());
        r
    }

    /// A finalizer where batches are to be tracked, none where they are not.
    pub fn maybe_new(acknowledgements: bool) -> (r: Option<UnorderedFinalizer<T>>)
        ensures
            match r {
                Some(finalizer) => acknowledgements && finalizer@ == Registry::<T>::empty(),
                None => !acknowledgements,
            },
    {
        if acknowledgements {
            Some(Self::new())
        } else {
            None
        }
    }

    /// The number of batches in flight.
    pub fn len(&self) -> (r: usize)
        ensures
            self@.well_formed(),
            r == self@.entries.dom().len(),
    {
        proof {
            use_type_invariant(self);
            self.lemma_well_formed();
            lemma_entry_count(self.pending@);
        }
        self.pending.len()
    }

    /// Whether no batch is in flight.
    pub fn is_empty(&self) -> (r: bool)
        ensures
            r == (self@.entries == Map::<u64, T>::empty()),
    {
        proof {
            use_type_invariant(self);
            lemma_entry_count(self.pending@);
            if self.pending@.len() == 0 {
                assert(self@.entries =~= Map::<u64, T>::empty());
            }
        }
        self.pending.len() == 0
    }

    /// Whether another batch can still be given an identity.
    pub fn has_capacity(&self) -> (r: bool)
        ensures
            r == (self@.issued < u64::MAX),
    {
        self.issued < u64::MAX
    }

    /// The place of the entry of batch `id`, if it is in flight.
    fn position(&self, id: u64) -> (r: Option<usize>)
        ensures
            match r {
                Some(i) => i < self.pending@.len() && self.pending@[i as int].id == id,
                None => !holds_id(self.pending@, id),
            },
    {
        let mut i: usize = 0;
        while i < self.pending.len()
            invariant
                i <= self.pending@.len(),
                forall|j: int| 0 <= j < i ==> (#[trigger] self.pending@[j]).id != id,
            decreases self.pending@.len() - i,
        {
            if self.pending[i].id == id {
                return Some(i);
            }
            i += 1;
        }
        None
    }

    /// Whether the batch `id` is in flight.
    pub fn contains(&self, id: u64) -> (r: bool)
        ensures
            r == self@.outstanding(id),
    {
        self.position(id).is_some()
    }

    /// Registers `entry` for a new batch and returns the identity of that
    /// batch. Entries already in flight are not touched.
    pub fn add(&mut self, entry: T) -> (id: u64)
        requires
            old(self)@.issued < u64::MAX,
        ensures
            id == old(self)@.next_id(),
            !old(self)@.outstanding(id),
            final(self)@ == old(self)@.add(entry),
            final(self)@.well_formed(),
    {
        proof {
            use_type_invariant(&*self);
            self.lemma_well_formed();
        }
        let id = self.issued;
        let ghost before = self.pending@;
        let added = Pending { id, entry };
        proof {
            if holds_id(before, id) {
                let k = place_of(before, id);
                assert(before[k].id < self.issued);
            }
            lemma_registered(before, added);
        }
        let mut pending: Vec<Pending<T>> = Vec::new();
        std::mem::swap(&mut pending, &mut self.pending);
        pending.push(added);
        self.issued = id + 1;
        self.pending = pending;
        proof {
            self.lemma_well_formed();
        }
        id
    }

    /// Takes the entry of batch `id` out of the registry, now that the batch
    /// ended with `status`. Yields nothing where no such batch is in flight.
    pub fn complete(&mut self, id: u64, status: BatchStatus) -> (r: Option<(BatchStatus, T)>)
        ensures
            r == old(self)@.yields(id, status),
            old(self)@.outstanding(id) ==> final(self)@ == old(self)@.complete(id),
            !old(self)@.outstanding(id) ==> final(self)@ == old(self)@,
            final(self)@.well_formed(),
    {
        proof {
            use_type_invariant(&*self);
            self.lemma_well_formed();
        }
        match self.position(id) {
            Some(i) => {
                let ghost before = self.pending@;
                proof {
                    lemma_pending_is_entry(before, i as int);
                    lemma_released(before, i as int);
                }
                let mut pending: Vec<Pending<T>> = Vec::new();
                std::mem::swap(&mut pending, &mut self.pending);
                let released = pending.remove(i);
                self.pending = pending;
                proof {
                    self.lemma_well_formed();
                }
                Some((status, released.entry))
            },
            None => None,
        }
    }

    /// Lets go of every entry in flight, unresolved, and returns how many
    /// there were.
    pub fn abandon(&mut self) -> (r: usize)
        ensures
            r == old(self)@.entries.dom().len(),
            final(self)@ == old(self)@.abandon(),
            final(self)@.well_formed(),
    {
        proof {
            use_type_invariant(&*self);
            lemma_entry_count(self.pending@);
        }
        let count = self.pending.len();
        let mut pending: Vec<Pending<T>> = Vec::new();
        std::mem::swap(&mut pending, &mut self.pending);
        proof {
            assert(entries_of(self.pending@) =~= Map::<u64, T>::empty());
            self.lemma_well_formed();
        }
        count
    }
}

/// Completions are taken in the order they arrive, not in the order of
/// registration. With entry `first` registered before entry `second`, the
/// completion of the second batch yields `second` while `first` is still in
/// flight, and the later completion of the first batch yields `first`.
pub proof fn lemma_no_head_of_line_blocking<T>(
    registry: Registry<T>,
    first: T,
    second: T,
    first_status: BatchStatus,
    second_status: BatchStatus,
)
    requires
        registry.well_formed(),
        registry.issued + 1 < u64::MAX,
    ensures
        ({
            let first_id = registry.next_id();
            let second_id = registry.add(first).next_id();
            let both = registry.add(first).add(second);
            let rest = both.complete(second_id);
            &&& first_id != second_id
            &&& both.yields(second_id, second_status) == Some((second_status, second))
            &&& rest.outstanding(first_id)
            &&& rest.yields(first_id, first_status) == Some((first_status, first))
            &&& !rest.complete(first_id).outstanding(first_id)
            &&& !rest.complete(first_id).outstanding(second_id)
        }),
{
}

/// Each entry is yielded once: after the completion of a batch a second
/// completion of the same batch yields nothing, and the entries of all other
/// batches are where they were.
pub proof fn lemma_completion_is_final<T>(
    registry: Registry<T>,
    id: u64,
    other: u64,
    status: BatchStatus,
)
    requires
        other != id,
    ensures
        registry.complete(id).yields(id, status) is None,
        registry.complete(id).outstanding(other) == registry.outstanding(other),
        registry.complete(id).yields(other, status) == registry.yields(other, status),
{
}

/// Registration and completion keep a registry well-formed.
pub proof fn lemma_registry_stays_well_formed<T>(registry: Registry<T>, entry: T, id: u64)
    requires
        registry.well_formed(),
    ensures
        registry.issued < u64::MAX ==> registry.add(entry).well_formed(),
        registry.complete(id).well_formed(),
        registry.abandon().well_formed(),
        Registry::<T>::empty().well_formed(),
{
    if registry.issued < u64::MAX {
        let after = registry.add(entry);
        assert forall|k: u64| after.entries.contains_key(k) implies k < after.issued by {
            if k != registry.next_id() {
                assert(registry.entries.contains_key(k));
            }
        }
    }
    let after = registry.complete(id);
    assert forall|k: u64| after.entries.contains_key(k) implies k < after.issued by {
        assert(registry.entries.contains_key(k));
    }
}

/// What a run of completions yields, one pair for each completion whose
/// batch is in flight when it arrives, in the order of arrival.
pub open spec fn yielded<T>(registry: Registry<T>, arrivals: Seq<(u64, BatchStatus)>) -> Seq<
    (BatchStatus, T),
>
    decreases arrivals.len(),
{
    if arrivals.len() == 0 {
        Seq::empty()
    } else {
        let (id, status) = arrivals.first();
        match registry.yields(id, status) {
            Some(pair) => seq![pair] + yielded(registry.complete(id), arrivals.drop_first()),
            None => yielded(registry, arrivals.drop_first()),
        }
    }
}

/// Whether the completions are those of batches in flight, each batch once.
pub open spec fn arrivals_of_batches_in_flight<T>(
    registry: Registry<T>,
    arrivals: Seq<(u64, BatchStatus)>,
) -> bool {
    &&& forall|i: int| 0 <= i < arrivals.len() ==> registry.outstanding((#[trigger] arrivals[i]).0)
    &&& forall|i: int, j: int|
        0 <= i < j < arrivals.len() ==> (#[trigger] arrivals[i]).0 != (#[trigger] arrivals[j]).0
}

/// Entries are yielded in the order in which their completions arrive,
/// whatever the order of registration: the pair yielded for the arrival at
/// place `i` holds the status of that arrival and the entry of its batch.
pub proof fn lemma_yields_follow_arrivals<T>(
    registry: Registry<T>,
    arrivals: Seq<(u64, BatchStatus)>,
)
    requires
        arrivals_of_batches_in_flight(registry, arrivals),
    ensures
        yielded(registry, arrivals).len() == arrivals.len(),
        forall|i: int|
            0 <= i < arrivals.len() ==> (#[trigger] yielded(registry, arrivals)[i]) == (
                arrivals[i].1,
                registry.entries[arrivals[i].0],
            ),
    decreases arrivals.len(),
{
    if arrivals.len() > 0 {
        let (id, status) = arrivals.first();
        let rest = arrivals.drop_first();
        let after = registry.complete(id);
        assert(registry.outstanding(arrivals[0].0));
        assert forall|i: int| 0 <= i < rest.len() implies after.outstanding(
            (#[trigger] rest[i]).0,
        ) by {
            assert(rest[i] == arrivals[i + 1]);
            assert(registry.outstanding(arrivals[i + 1].0));
            assert(arrivals[0].0 != arrivals[i + 1].0);
        }
        assert forall|i: int, j: int| 0 <= i < j < rest.len() implies (#[trigger] rest[i]).0 != (
        #[trigger] rest[j]).0 by {
            assert(rest[i] == arrivals[i + 1]);
            assert(rest[j] == arrivals[j + 1]);
            assert(arrivals[i + 1].0 != arrivals[j + 1].0);
        }
        lemma_yields_follow_arrivals(after, rest);
        let all = yielded(registry, arrivals);
        assert(all == seq![(status, registry.entries[id])] + yielded(after, rest));
        assert forall|i: int| 0 <= i < arrivals.len() implies (#[trigger] all[i]) == (
            arrivals[i].1,
            registry.entries[arrivals[i].0],
        ) by {
            if i > 0 {
                assert(all[i] == yielded(after, rest)[i - 1]);
                assert(rest[i - 1] == arrivals[i]);
                assert(arrivals[0].0 != arrivals[i].0);
            }
        }
    }
}

} // verus!
