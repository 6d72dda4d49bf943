//! Memory that holds the values of a channel, and the accesses to it.
//!
//! Each access touches one cell once, or is made by whoever has a slot to itself.

use crate::atomic::MemoryOrder;
use vstd::prelude::*;

verus! {

/// How many slots are made at once.
pub const ROW: usize = 16;

/// Version of a published value.
#[derive(Copy, Clone, Debug, PartialEq, Eq, Structural)]
pub struct Version(pub u64);

impl Default for Version {
    fn default() -> (version: Self)
        ensures
            version == Version(0),
    {
        Version(0)
    }
}

impl Version {
    /// The version after this one.
    pub fn next(self) -> (version: Version)
        requires
            self.0 < u64::MAX,
        ensures
            version.0 == self.0 + 1,
    {
        Version(self.0 + 1)
    }
}

/// A place for one value.
pub struct Slot<T> {
    /// Who holds the value: those who borrowed it, and the channel while it is the latest one.
    pub refs: usize,
    /// The next free slot, in a slot that is free.
    pub frees: Option<usize>,
    pub value: Option<T>,
    pub version: Version,
}

impl<T> Default for Slot<T> {
    fn default() -> (slot: Self)
        ensures
            slot == (Slot::<T> { refs: 0, frees: None, value: None, version: Version(0) }),
    {
        Slot { refs: 0, frees: None, value: None, version: Version::default() }
    }
}

impl<T> Slot<T> {
    /// Stores a value that somebody holds.
    pub fn store(&mut self, value: T)
        requires
            old(self).refs == 0,
        ensures
            *final(self) == (Slot { refs: 1, value: Some(value), ..*old(self) }),
    {
        self.value = Some(value);
        self.refs = 1;
    }
}

/// A word of shared memory that holds the slot of the latest value, and whether the channel is
/// closed. Slots are at even addresses.
#[derive(Debug)]
pub struct Latest(pub usize);

impl Latest {
    /// The slot of the latest value.
    pub open spec fn slot(&self) -> usize {
        self.0 / 2
    }

    /// Whether the channel is closed.
    pub open spec fn closed(&self) -> bool {
        self.0 % 2 == 1
    }

    /// The slots that have an address.
    pub open spec fn addresses(slot: usize) -> bool {
        slot <= usize::MAX / 2
    }

    pub fn new(slot: usize) -> (latest: Self)
        requires
            Latest::addresses(slot),
        ensures
            latest.slot() == slot,
            !latest.closed(),
    {
        Latest(Latest::ptr(slot))
    }

    /// The address of a slot.
    pub fn ptr(slot: usize) -> (address: usize)
        requires
            Latest::addresses(slot),
        ensures
            address == slot * 2,
    {
        slot * 2
    }

    pub fn load(&self, order: MemoryOrder) -> (latest: (usize, bool))
        requires
            order.loads(),
        ensures
            latest == (self.slot(), self.closed()),
    {
        let raw: usize = self.0;
        proof {
            assert(raw & 1 == raw % 2) by (bit_vector);
        }
        (raw / 2, raw & 1 == 1)
    }

    /// Puts the slot `new` in place of `current`, unless the channel is closed. Any other slot stays
    /// and is returned.
    pub fn compare_exchange(
        &mut self,
        current: usize,
        new: usize,
        success: MemoryOrder,
        failure: MemoryOrder,
    ) -> (result: Result<usize, usize>)
        requires
            Latest::addresses(current),
            Latest::addresses(new),
            failure.loads(),
        ensures
            if old(self).slot() == current && !old(self).closed() {
                &&& result == Ok::<usize, usize>(current)
                &&& final(self).slot() == new
                &&& !final(self).closed()
            } else {
                &&& result == Err::<usize, usize>(old(self).slot())
                &&& *final(self) == *old(self)
            },
    {
        let raw: usize = self.0;
        if raw == Latest::ptr(current) {
            self.0 = Latest::ptr(new);
            Ok(current)
        } else {
            Err(raw / 2)
        }
    }

    /// Closes the channel.
    pub fn close(&mut self)
        ensures
            final(self).slot() == old(self).slot(),
            final(self).closed(),
    {
        let raw: usize = self.0;
        proof {
            assert((raw | 1) / 2 == raw / 2 && (raw | 1) % 2 == 1) by (bit_vector);
        }
        self.0 = raw | 1;
    }
}

/// What is in the memory of a [Table].
#[verifier::ext_equal]
pub struct Cells<T> {
    pub slots: Seq<Slot<T>>,
    /// The free slot on top.
    pub head: Option<usize>,
    /// The slot of the latest value.
    pub latest: usize,
    pub closed: bool,
}

impl<T> Cells<T> {
    pub open spec fn slot(self, slot: usize) -> Slot<T> {
        self.slots[slot as int]
    }

    /// Whether `slot` is there.
    pub open spec fn has(self, slot: usize) -> bool {
        slot < self.slots.len()
    }

    /// The memory with another slot.
    pub open spec fn with_slot(self, slot: usize, cells: Slot<T>) -> Cells<T> {
        Cells { slots: self.slots.update(slot as int, cells), ..self }
    }

    /// The memory with one more row.
    pub open spec fn with_row(self) -> Cells<T> {
        Cells {
            slots: self.slots + Seq::new(
                ROW as nat,
                |i: int| Slot { refs: 0, frees: None, value: None, version: Version(0) },
            ),
            ..self
        }
    }

    /// The memory with the slots from `first` to `last` linked one to the next.
    pub open spec fn linked(self, first: usize, last: usize) -> Cells<T> {
        Cells {
            slots: Seq::new(
                self.slots.len(),
                |i: int|
                    if first <= i < last {
                        Slot { frees: Some((i + 1) as usize), ..self.slots[i] }
                    } else {
                        self.slots[i]
                    },
            ),
            ..self
        }
    }

    /// The memory with one more row. All slots of the row but the first one are linked.
    pub open spec fn grown(self) -> Cells<T> {
        let base = self.slots.len();
        self.with_row().linked((base + 1) as usize, (base + ROW - 1) as usize)
    }
}

/// The slots of a channel.
pub struct Table<T> {
    slots: Vec<Slot<T>>,
    frees: Option<usize>,
    latest: Latest,
}

impl<T> View for Table<T> {
    type V = Cells<T>;

    closed spec fn view(&self) -> Cells<T> {
        Cells {
            slots: self.slots@,
            head: self.frees,
            latest: self.latest.slot(),
            closed: self.latest.closed(),
        }
    }
}

impl<T> Table<T> {
    /// All slots have an address.
    pub open spec fn wf(&self) -> bool {
        &&& self@.slots.len() <= usize::MAX / 2
        &&& self@.has(self@.latest)
        &&& self@.head matches Some(head) ==> self@.has(head)
        &&& forall|i: int|
            0 <= i < self@.slots.len() ==> (#[trigger] self@.slots[i].frees matches Some(next)
                ==> self@.has(next))
    }

    /// A table of one row whose first slot holds the latest value.
    pub fn new(value: T, version: Version) -> (table: Self)
        ensures
            table.wf(),
            table@ =~= (Cells {
                slots: Seq::empty(),
                head: None,
                latest: 0,
                closed: false,
            }).with_row().with_slot(
                0,
                Slot { refs: 1, frees: None, value: Some(value), version },
            ),
    {
        let mut table = Table { slots: Vec::new(), frees: None, latest: Latest::new(0) };
        table.make_row();
        table.slots[0].store(value);
        table.slots[0].version = version;
        table
    }

    fn make_row(&mut self)
        requires
            old(self)@.slots.len() + ROW <= usize::MAX / 2,
        ensures
            final(self)@ =~= old(self)@.with_row(),
    {
        let ghost all = self@.with_row().slots;
        let mut i: usize = 0;
        while i < ROW
            invariant
                i <= ROW,
                all == old(self)@.with_row().slots,
                self.slots@ =~= all.take(old(self)@.slots.len() + i),
                self.frees == old(self).frees,
                self.latest == old(self).latest,
            decreases ROW - i,
        {
            self.slots.push(Slot::default());
            i = i + 1;
        }
        assert(all.take(old(self)@.slots.len() + ROW) =~= all);
    }

    /// Links the slots from `first` to `last` one to the next.
    pub fn link_slots(&mut self, first: usize, last: usize)
        requires
            old(self).wf(),
            first <= last,
            old(self)@.has(last),
        ensures
            final(self).wf(),
            final(self)@ =~= old(self)@.linked(first, last),
    {
        let mut i: usize = first;
        while i < last
            invariant
                first <= i <= last,
                self.wf(),
                self@.has(last),
                self@ =~= old(self)@.linked(first, i),
            decreases last - i,
        {
            self.store_next(i, Some(i + 1));
            i = i + 1;
        }
    }

    /// Makes a row, and links all of its slots but the first one.
    pub fn grow(&mut self) -> (base: usize)
        requires
            old(self).wf(),
            old(self)@.slots.len() + ROW <= usize::MAX / 2,
        ensures
            base == old(self)@.slots.len(),
            final(self).wf(),
            final(self)@ =~= old(self)@.grown(),
    {
        let base: usize = self.slots.len();
        self.make_row();
        self.link_slots(base + 1, base + ROW - 1);
        base
    }

    /// How many slots there are.
    pub fn len(&self) -> (len: usize)
        ensures
            len == self@.slots.len(),
    {
        self.slots.len()
    }

    pub fn load_head(&self, order: MemoryOrder) -> (head: Option<usize>)
        requires
            self.wf(),
            order.loads(),
        ensures
            head == self@.head,
            head matches Some(slot) ==> self@.has(slot),
    {
        self.frees
    }

    /// Puts `new` in place of the top `current`. Any other top stays and is returned.
    pub fn exchange_head(
        &mut self,
        current: Option<usize>,
        new: Option<usize>,
        success: MemoryOrder,
        failure: MemoryOrder,
    ) -> (result: Result<(), Option<usize>>)
        requires
            old(self).wf(),
            failure.loads(),
            new matches Some(slot) ==> old(self)@.has(slot),
        ensures
            final(self).wf(),
            if old(self)@.head == current {
                &&& result == Ok::<(), Option<usize>>(())
                &&& final(self)@ =~= (Cells { head: new, ..old(self)@ })
            } else {
                &&& result == Err::<(), Option<usize>>(old(self)@.head)
                &&& final(self)@ =~= old(self)@
            },
    {
        if self.frees == current {
            self.frees = new;
            Ok(())
        } else {
            Err(self.frees)
        }
    }

    pub fn load_next(&self, slot: usize) -> (next: Option<usize>)
        requires
            self.wf(),
            self@.has(slot),
        ensures
            next == self@.slot(slot).frees,
            next matches Some(next) ==> self@.has(next),
    {
        self.slots[slot].frees
    }

    pub fn store_next(&mut self, slot: usize, next: Option<usize>)
        requires
            old(self).wf(),
            old(self)@.has(slot),
            next matches Some(next) ==> old(self)@.has(next),
        ensures
            final(self).wf(),
            final(self)@ =~= old(self)@.with_slot(
                slot,
                Slot { frees: next, ..old(self)@.slot(slot) },
            ),
    {
        self.slots[slot].frees = next;
    }

    pub fn load_refs(&self, slot: usize) -> (refs: usize)
        requires
            self.wf(),
            self@.has(slot),
        ensures
            refs == self@.slot(slot).refs,
    {
        self.slots[slot].refs
    }

    pub fn store_refs(&mut self, slot: usize, refs: usize)
        requires
            old(self).wf(),
            old(self)@.has(slot),
        ensures
            final(self).wf(),
            final(self)@ =~= old(self)@.with_slot(slot, Slot { refs, ..old(self)@.slot(slot) }),
    {
        self.slots[slot].refs = refs;
    }

    /// Puts `new` in place of the count `current`. Any other count stays and is returned.
    pub fn exchange_refs(&mut self, slot: usize, current: usize, new: usize) -> (result: Result<
        (),
        usize,
    >)
        requires
            old(self).wf(),
            old(self)@.has(slot),
        ensures
            final(self).wf(),
            if old(self)@.slot(slot).refs == current {
                &&& result == Ok::<(), usize>(())
                &&& final(self)@ =~= old(self)@.with_slot(
                    slot,
                    Slot { refs: new, ..old(self)@.slot(slot) },
                )
            } else {
                &&& result == Err::<(), usize>(old(self)@.slot(slot).refs)
                &&& final(self)@ =~= old(self)@
            },
    {
        let refs: usize = self.slots[slot].refs;
        if refs == current {
            self.slots[slot].refs = new;
            Ok(())
        } else {
            Err(refs)
        }
    }

    /// Takes one off a count. Returns the count before.
    pub fn sub_refs(&mut self, slot: usize) -> (refs: usize)
        requires
            old(self).wf(),
            old(self)@.has(slot),
            old(self)@.slot(slot).refs > 0,
        ensures
            final(self).wf(),
            refs == old(self)@.slot(slot).refs,
            final(self)@ =~= old(self)@.with_slot(
                slot,
                Slot { refs: (refs - 1) as usize, ..old(self)@.slot(slot) },
            ),
    {
        let refs: usize = self.slots[slot].refs;
        self.slots[slot].refs = refs - 1;
        refs
    }

    pub fn write_value(&mut self, slot: usize, value: Option<T>)
        requires
            old(self).wf(),
            old(self)@.has(slot),
        ensures
            final(self).wf(),
            final(self)@ =~= old(self)@.with_slot(slot, Slot { value, ..old(self)@.slot(slot) }),
    {
        self.slots[slot].value = value;
    }

    /// The value of a slot.
    pub fn value(&self, slot: usize) -> (value: &T)
        requires
            self.wf(),
            self@.has(slot),
            self@.slot(slot).value is Some,
        ensures
            *value == self@.slot(slot).value->Some_0,
    {
        match &self.slots[slot].value {
            Some(value) => value,
            None => vstd::pervasive::unreached(),
        }
    }

    pub fn version(&self, slot: usize) -> (version: Version)
        requires
            self.wf(),
            self@.has(slot),
        ensures
            version == self@.slot(slot).version,
    {
        self.slots[slot].version
    }

    pub fn set_version(&mut self, slot: usize, version: Version)
        requires
            old(self).wf(),
            old(self)@.has(slot),
        ensures
            final(self).wf(),
            final(self)@ =~= old(self)@.with_slot(slot, Slot { version, ..old(self)@.slot(slot) }),
    {
        self.slots[slot].version = version;
    }

    pub fn load_latest(&self, order: MemoryOrder) -> (latest: (usize, bool))
        requires
            self.wf(),
            order.loads(),
        ensures
            latest == (self@.latest, self@.closed),
            self@.has(latest.0),
    {
        self.latest.load(order)
    }

    /// Makes `new` the slot of the latest value in place of `current`. Any other slot stays and is
    /// returned.
    pub fn exchange_latest(&mut self, current: usize, new: usize) -> (result: Result<usize, usize>)
        requires
            old(self).wf(),
            old(self)@.has(current),
            old(self)@.has(new),
        ensures
            final(self).wf(),
            if old(self)@.latest == current && !old(self)@.closed {
                &&& result == Ok::<usize, usize>(current)
                &&& final(self)@ =~= (Cells { latest: new, ..old(self)@ })
            } else {
                &&& result == Err::<usize, usize>(old(self)@.latest)
                &&& final(self)@ =~= old(self)@
                &&& old(self)@.has(old(self)@.latest)
            },
    {
        // Release store to publish value and version.
        // Acquire load to observe version.
        self.latest.compare_exchange(current, new, MemoryOrder::Release, MemoryOrder::Acquire)
    }

    /// Closes the channel.
    pub fn close(&mut self)
        requires
            old(self).wf(),
        ensures
            final(self).wf(),
            final(self)@ =~= (Cells { closed: true, ..old(self)@ }),
    {
        self.latest.close();
    }
}

} // verus!
