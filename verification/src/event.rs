//! Structured records: a set of fields, each under a path, in the event
//! itself or in its metadata.

use crate::timestamp::Timestamp;
use vstd::prelude::*;

verus! {

/// Where a field lives, as a mathematical value.
pub enum Slot {
    /// A field at the top level of the record, by name.
    Event(Seq<char>),
    /// A metadata field, by the name of its namespace and its own name.
    Metadata(Seq<char>, Seq<char>),
}

/// What a field holds, as a mathematical value.
pub enum Datum {
    Bytes(Seq<u8>),
    Integer(i64),
    Timestamp(Timestamp),
}

/// Where a field lives.
#[derive(Debug, PartialEq, Eq)]
pub enum FieldPath {
    /// A field at the top level of the record, by name.
    Event(String),
    /// A metadata field, by the name of its namespace and its own name.
    Metadata(String, String),
}

impl View for FieldPath {
    type V = Slot;

    open spec fn view(&self) -> Slot {
        match self {
            FieldPath::Event(name) => Slot::Event(name@),
            FieldPath::Metadata(namespace, name) => Slot::Metadata(namespace@, name@),
        }
    }
}

impl Clone for FieldPath {
    fn clone(&self) -> (r: FieldPath)
        ensures
            r@ == self@,
    {
        match self {
            FieldPath::Event(name) => FieldPath::Event(name.clone()),
            FieldPath::Metadata(namespace, name) => FieldPath::Metadata(
                namespace.clone(),
                name.clone(),
            ),
        }
    }
}

impl FieldPath {
    /// The path of the top-level field called `name`.
    pub fn event(name: &str) -> (r: FieldPath)
        ensures
            r@ == Slot::Event(name@),
    {
        FieldPath::Event(name.to_owned())
    }

    /// The path of the metadata field `name` in `namespace`.
    pub fn metadata(namespace: &str, name: &str) -> (r: FieldPath)
        ensures
            r@ == Slot::Metadata(namespace@, name@),
    {
        FieldPath::Metadata(namespace.to_owned(), name.to_owned())
    }

    /// Whether both paths name the same slot.
    pub fn same_slot(&self, other: &FieldPath) -> (r: bool)
        ensures
            r == (self@ == other@),
    {
        match (self, other) {
            (FieldPath::Event(a), FieldPath::Event(b)) => *a == *b,
            (FieldPath::Metadata(an, a), FieldPath::Metadata(bn, b)) => *an == *bn && *a == *b,
            _ => false,
        }
    }
}

/// What a field holds.
#[derive(Debug, PartialEq, Eq)]
pub enum Value {
    Bytes(Vec<u8>),
    Integer(i64),
    Timestamp(Timestamp),
}

impl View for Value {
    type V = Datum;

    open spec fn view(&self) -> Datum {
        match self {
            Value::Bytes(bytes) => Datum::Bytes(bytes@),
            Value::Integer(number) => Datum::Integer(*number),
            Value::Timestamp(at) => Datum::Timestamp(*at),
        }
    }
}

impl Clone for Value {
    fn clone(&self) -> (r: Value)
        ensures
            r@ == self@,
    {
        match self {
            Value::Bytes(bytes) => Value::Bytes(bytes.clone()),
            Value::Integer(number) => Value::Integer(*number),
            Value::Timestamp(at) => Value::Timestamp(*at),
        }
    }
}

/// One field of a record.
#[derive(Debug)]
struct Entry {
    path: FieldPath,
    value: Value,
}

/// No two entries share a slot.
spec fn distinct_slots(entries: Seq<Entry>) -> bool {
    forall|i: int, j: int|
        0 <= i < j < entries.len() ==> (#[trigger] entries[i]).path@ != (#[trigger] entries[j]).path@
}

/// Whether some entry sits in `slot`.
spec fn holds_slot(entries: Seq<Entry>, slot: Slot) -> bool {
    exists|i: int| 0 <= i < entries.len() && (#[trigger] entries[i]).path@ == slot
}

/// The place of an entry that sits in `slot`.
spec fn place_of(entries: Seq<Entry>, slot: Slot) -> int {
    choose|i: int| 0 <= i < entries.len() && (#[trigger] entries[i]).path@ == slot
}

/// The fields that a list of entries stands for.
spec fn fields_of(entries: Seq<Entry>) -> Map<Slot, Datum> {
    Map::new(
        |slot: Slot| holds_slot(entries, slot),
        |slot: Slot| entries[place_of(entries, slot)].value@,
    )
}

/// With distinct slots, the entry at `i` is the one its slot maps to.
proof fn lemma_entry_is_field(entries: Seq<Entry>, i: int)
    requires
        distinct_slots(entries),
        0 <= i < entries.len(),
    ensures
        fields_of(entries).contains_key(entries[i].path@),
        fields_of(entries)[entries[i].path@] == entries[i].value@,
        place_of(entries, entries[i].path@) == i,
{
    let slot = entries[i].path@;
    assert(holds_slot(entries, slot));
    let k = place_of(entries, slot);
    assert(0 <= k < entries.len() && entries[k].path@ == slot);
    if k < i {
        assert(entries[k].path@ != entries[i].path@);
    } else if i < k {
        assert(entries[i].path@ != entries[k].path@);
    }
}

/// A decoded record: fields of the event and fields of its metadata.
#[derive(Debug)]
pub struct LogEvent {
    entries: Vec<Entry>,
}

impl View for LogEvent {
    type V = Map<Slot, Datum>;

    closed spec fn view(&self) -> Map<Slot, Datum> {
        fields_of(self.entries@)
    }
}

impl Clone for LogEvent {
    fn clone(&self) -> (r: LogEvent)
        ensures
            r@ == self@,
    {
        proof {
            use_type_invariant(self);
        }
        let mut entries: Vec<Entry> = Vec::new();
        let mut i: usize = 0;
        while i < self.entries.len()
            invariant
                i <= self.entries@.len(),
                entries@.len() == i,
                forall|j: int|
                    0 <= j < i ==> (#[trigger] entries@[j]).path@ == self.entries@[j].path@
                        && entries@[j].value@ == self.entries@[j].value@,
            decreases self.entries@.len() - i,
        {
            let path = self.entries[i].path.clone();
            let value = self.entries[i].value.clone();
            entries.push(Entry { path, value });
            i += 1;
        }
        proof {
            lemma_same_fields(self.entries@, entries@);
        }
        LogEvent { entries }
    }
}

impl LogEvent {
    #[verifier::type_invariant]
    spec fn well_formed(&self) -> bool {
        distinct_slots(self.entries@)
    }

    /// A record without fields.
    pub fn new() -> (r: LogEvent)
        ensures
            r@ == Map::<Slot, Datum>::empty(),
    {
        let r = LogEvent { entries: Vec::new() };
        assert(r@ =~= Map::<Slot, Datum>::empty());
        r
    }

    /// The place of the entry under `path`, if there is one.
    fn position(&self, path: &FieldPath) -> (r: Option<usize>)
        ensures
            match r {
                Some(i) => i < self.entries@.len() && self.entries@[i as int].path@ == path@,
                None => !holds_slot(self.entries@, path@),
            },
    {
        let mut i: usize = 0;
        while i < self.entries.len()
            invariant
                i <= self.entries@.len(),
                forall|j: int| 0 <= j < i ==> (#[trigger] self.entries@[j]).path@ != path@,
            decreases self.entries@.len() - i,
        {
            if self.entries[i].path.same_slot(path) {
                return Some(i);
            }
            i += 1;
        }
        None
    }

    /// Whether the record has a field under `path`.
    pub fn contains(&self, path: &FieldPath) -> (r: bool)
        ensures
            r == self@.contains_key(path@),
    {
        self.position(path).is_some()
    }

    /// The number of fields in the record.
    pub fn len(&self) -> (r: usize)
        ensures
            r == self@.dom().len(),
            self@.dom().finite(),
    {
        proof {
            use_type_invariant(self);
            lemma_field_count(self.entries@);
        }
        self.entries.len()
    }

    /// The value under `path`, if the record has one.
    pub fn get(&self, path: &FieldPath) -> (r: Option<&Value>)
        ensures
            match r {
                Some(value) => self@.contains_key(path@) && value@ == self@[path@],
                None => !self@.contains_key(path@),
            },
    {
        proof {
            use_type_invariant(self);
        }
        match self.position(path) {
            Some(i) => {
                proof {
                    lemma_entry_is_field(self.entries@, i as int);
                }
                Some(&self.entries[i].value)
            },
            None => None,
        }
    }

    /// Puts `value` under `path`, in place of what was there.
    pub fn insert(&mut self, path: FieldPath, value: Value)
        ensures
            final(self)@ == old(self)@.insert(path@, value@),
    {
        proof {
            use_type_invariant(&*self);
        }
        let found = self.position(&path);
        let ghost before = self.entries@;
        let entry = Entry { path, value };
        let mut entries: Vec<Entry> = Vec::new();
        std::mem::swap(&mut entries, &mut self.entries);
        match found {
            Some(i) => {
                proof {
                    lemma_replaced(before, i as int, entry);
                }
                entries.set(i, entry);
            },
            None => {
                proof {
                    lemma_appended(before, entry);
                }
                entries.push(entry);
            },
        }
        self.entries = entries;
    }

    /// Puts `value` under `path` unless the record has a field there.
    pub fn try_insert(&mut self, path: FieldPath, value: Value)
        ensures
            final(self)@ == absent_insert(old(self)@, path@, value@),
    {
        proof {
            use_type_invariant(&*self);
        }
        if self.position(&path).is_none() {
            let ghost before = self.entries@;
            let entry = Entry { path, value };
            let mut entries: Vec<Entry> = Vec::new();
            std::mem::swap(&mut entries, &mut self.entries);
            proof {
                lemma_appended(before, entry);
            }
            entries.push(entry);
            self.entries = entries;
        }
    }
}

/// `fields` with `datum` under `slot`, unless `slot` was taken.
pub open spec fn absent_insert(fields: Map<Slot, Datum>, slot: Slot, datum: Datum) -> Map<
    Slot,
    Datum,
> {
    if fields.contains_key(slot) {
        fields
    } else {
        fields.insert(slot, datum)
    }
}

/// Appending an entry in a free slot inserts its field.
proof fn lemma_appended(entries: Seq<Entry>, entry: Entry)
    requires
        distinct_slots(entries),
        !holds_slot(entries, entry.path@),
    ensures
        distinct_slots(entries.push(entry)),
        fields_of(entries.push(entry)) == fields_of(entries).insert(entry.path@, entry.value@),
{
    let after = entries.push(entry);
    assert forall|i: int, j: int| 0 <= i < j < after.len() implies (#[trigger] after[i]).path@ != (
    #[trigger] after[j]).path@ by {
        if j < entries.len() {
            assert(entries[i].path@ != entries[j].path@);
        } else {
            assert(after[i] == entries[i]);
        }
    }
    let target = fields_of(entries).insert(entry.path@, entry.value@);
    assert forall|slot: Slot| fields_of(after).contains_key(slot) <==> target.contains_key(
        slot,
    ) by {
        if holds_slot(after, slot) {
            let k = place_of(after, slot);
            if k < entries.len() {
                assert(entries[k].path@ == slot);
            }
        }
        if holds_slot(entries, slot) {
            let k = place_of(entries, slot);
            assert(after[k].path@ == slot);
        }
        if slot == entry.path@ {
            assert(after[entries.len() as int].path@ == slot);
        }
    }
    assert forall|slot: Slot| fields_of(after).contains_key(slot) implies fields_of(after)[slot]
        == target[slot] by {
        let k = place_of(after, slot);
        lemma_entry_is_field(after, k);
        if k < entries.len() {
            assert(after[k] == entries[k]);
            lemma_entry_is_field(entries, k);
        }
    }
    assert(fields_of(after) =~= target);
}

/// Replacing the entry at `i` by one in the same slot overwrites its field.
proof fn lemma_replaced(entries: Seq<Entry>, i: int, entry: Entry)
    requires
        distinct_slots(entries),
        0 <= i < entries.len(),
        entries[i].path@ == entry.path@,
    ensures
        distinct_slots(entries.update(i, entry)),
        fields_of(entries.update(i, entry)) == fields_of(entries).insert(
            entry.path@,
            entry.value@,
        ),
{
    let after = entries.update(i, entry);
    assert forall|a: int, b: int| 0 <= a < b < after.len() implies (#[trigger] after[a]).path@ != (
    #[trigger] after[b]).path@ by {
        assert(entries[a].path@ != entries[b].path@);
    }
    let target = fields_of(entries).insert(entry.path@, entry.value@);
    assert forall|slot: Slot| fields_of(after).contains_key(slot) <==> target.contains_key(
        slot,
    ) by {
        if holds_slot(after, slot) {
            let k = place_of(after, slot);
            assert(entries[k].path@ == slot);
        }
        if holds_slot(entries, slot) {
            let k = place_of(entries, slot);
            assert(after[k].path@ == slot);
        }
        if slot == entry.path@ {
            assert(after[i].path@ == slot);
        }
    }
    assert forall|slot: Slot| fields_of(after).contains_key(slot) implies fields_of(after)[slot]
        == target[slot] by {
        let k = place_of(after, slot);
        lemma_entry_is_field(after, k);
        if k != i {
            assert(after[k] == entries[k]);
            lemma_entry_is_field(entries, k);
        }
    }
    assert(fields_of(after) =~= target);
}

/// Lists that agree entry by entry, in slot and in content, stand for the
/// same fields.
proof fn lemma_same_fields(entries: Seq<Entry>, copies: Seq<Entry>)
    requires
        distinct_slots(entries),
        copies.len() == entries.len(),
        forall|j: int|
            0 <= j < entries.len() ==> (#[trigger] copies[j]).path@ == entries[j].path@
                && copies[j].value@ == entries[j].value@,
    ensures
        distinct_slots(copies),
        fields_of(copies) == fields_of(entries),
{
    assert forall|i: int, j: int| 0 <= i < j < copies.len() implies (#[trigger] copies[i]).path@
        != (#[trigger] copies[j]).path@ by {
        assert(entries[i].path@ != entries[j].path@);
    }
    assert forall|slot: Slot| fields_of(copies).contains_key(slot) <==> fields_of(
        entries,
    ).contains_key(slot) by {
        if holds_slot(copies, slot) {
            let k = place_of(copies, slot);
            assert(entries[k].path@ == slot);
        }
        if holds_slot(entries, slot) {
            let k = place_of(entries, slot);
            assert(copies[k].path@ == slot);
        }
    }
    assert forall|slot: Slot| fields_of(copies).contains_key(slot) implies fields_of(copies)[slot]
        == fields_of(entries)[slot] by {
        let k = place_of(copies, slot);
        lemma_entry_is_field(copies, k);
        lemma_entry_is_field(entries, k);
    }
    assert(fields_of(copies) =~= fields_of(entries));
}

/// With distinct slots there are as many fields as entries.
proof fn lemma_field_count(entries: Seq<Entry>)
    requires
        distinct_slots(entries),
    ensures
        fields_of(entries).dom().finite(),
        fields_of(entries).dom().len() == entries.len(),
    decreases entries.len(),
{
    if entries.len() == 0 {
        assert(fields_of(entries).dom() =~= Set::<Slot>::empty());
    } else {
        let front = entries.drop_last();
        let last = entries.last();
        assert forall|i: int, j: int| 0 <= i < j < front.len() implies (#[trigger] front[i]).path@
            != (#[trigger] front[j]).path@ by {
            assert(entries[i].path@ != entries[j].path@);
        }
        if holds_slot(front, last.path@) {
            let k = place_of(front, last.path@);
            assert(entries[k].path@ != entries[entries.len() - 1].path@);
        }
        lemma_field_count(front);
        lemma_appended(front, last);
        assert(front.push(last) =~= entries);
    }
}

} // verus!
