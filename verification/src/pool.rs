//! A pool of reusable objects.
//!
//! Slots are kept in one vector. A released slot keeps its object and joins a
//! free list, from which the next acquisition takes the slot released last.

use vstd::prelude::*;
use vstd::set_lib::{lemma_int_range, lemma_len_subset, set_int_range};

verus! {

/// The position of a slot in a pool.
#[derive(Debug, Clone, Copy, PartialEq, Eq, Hash, Structural)]
pub struct PoolIndex(pub usize);

impl PoolIndex {
    /// The position as a number.
    pub fn raw(self) -> (raw: usize)
        ensures
            raw == self.0,
    {
        self.0
    }
}

/// Whether a slot is in use; a free slot names the free slot after it.
#[derive(Debug)]
enum SlotState {
    Occupied,
    Vacant(usize),
}

/// A slot: the object, which stays in place while the slot is free, and the
/// state of the slot.
#[derive(Debug)]
struct Slot<T> {
    value: T,
    state: SlotState,
}

/// A pool of objects of type `T`.
pub struct Pool<T> {
    slots: Vec<Slot<T>>,
    free_head: usize,
    active_count: usize,
    free: Ghost<Seq<usize>>,
}

/// Marks the end of the free list.
const NONE: usize = usize::MAX;

impl<T> Pool<T> {
    /// The number of slots, in use or free.
    pub closed spec fn slot_count(&self) -> nat {
        self.slots@.len()
    }

    /// Whether slot `i` is in use.
    pub closed spec fn occupied(&self, i: int) -> bool {
        0 <= i < self.slots@.len() && self.slots@[i].state is Occupied
    }

    /// The object in slot `i`, in use or free.
    pub closed spec fn value(&self, i: int) -> T {
        self.slots@[i].value
    }

    /// The free slots, the one that will be reused next first.
    pub closed spec fn free_list(&self) -> Seq<usize> {
        self.free@
    }

    /// The link that the free list gives to its entry `k`: the entry after it,
    /// or the end mark.
    spec fn link(free: Seq<usize>, k: int) -> usize {
        if k + 1 < free.len() {
            free[k + 1]
        } else {
            NONE
        }
    }

    /// Entry `k` of the free list names a free slot whose stored link is the
    /// entry after it.
    spec fn chained(slots: Seq<Slot<T>>, free: Seq<usize>, k: int) -> bool {
        free[k] < slots.len() && slots[free[k] as int].state == SlotState::Vacant(Self::link(free, k))
    }

    /// Slot `i`, if it is free, is on the free list.
    spec fn listed(slots: Seq<Slot<T>>, free: Seq<usize>, i: int) -> bool {
        slots[i].state is Vacant ==> free.contains(i as usize)
    }

    /// The free list `free` describes the slots `slots`.
    spec fn describes(slots: Seq<Slot<T>>, free: Seq<usize>) -> bool {
        &&& slots.len() <= NONE
        &&& free.no_duplicates()
        &&& forall|k: int| 0 <= k < free.len() ==> #[trigger] Self::chained(slots, free, k)
        &&& forall|i: int| 0 <= i < slots.len() ==> #[trigger] Self::listed(slots, free, i)
    }

    /// The free list holds exactly the free slots, each once, and the links
    /// stored in the slots spell it out; the count of active objects is the
    /// number of slots in use.
    pub closed spec fn wf(&self) -> bool {
        &&& Self::describes(self.slots@, self.free@)
        &&& self.free_head == Self::link(self.free@, -1)
        &&& self.active_count + self.free@.len() == self.slots@.len()
    }

    /// While a slot is in use the free list is shorter than the pool.
    proof fn lemma_free_is_shorter(slots: Seq<Slot<T>>, free: Seq<usize>, idx: usize)
        requires
            Self::describes(slots, free),
            idx < slots.len(),
            slots[idx as int].state is Occupied,
        ensures
            free.len() < slots.len(),
    {
        let all = set_int_range(0, slots.len() as int);
        let others = all.remove(idx as int);
        let listed = free.map_values(|e: usize| e as int);
        assert(listed.no_duplicates());
        listed.unique_seq_to_set();
        lemma_int_range(0, slots.len() as int);
        assert forall|e: int| listed.to_set().contains(e) implies others.contains(e) by {
            let k = choose|k: int| 0 <= k < listed.len() && listed[k] == e;
            assert(Self::chained(slots, free, k));
        }
        lemma_len_subset(listed.to_set(), others);
    }

    /// Putting slot `idx`, which was in use, at the head of the free list.
    proof fn lemma_release(before: Seq<Slot<T>>, after: Seq<Slot<T>>, free: Seq<usize>, idx: usize)
        requires
            Self::describes(before, free),
            idx < before.len(),
            before[idx as int].state is Occupied,
            after.len() == before.len(),
            after[idx as int].state == SlotState::Vacant(Self::link(free, -1)),
            forall|i: int| 0 <= i < before.len() && i != idx ==> #[trigger] after[i] == before[i],
        ensures
            Self::describes(after, seq![idx] + free),
    {
        let grown = seq![idx] + free;
        assert forall|k: int| 0 <= k < free.len() implies #[trigger] free[k] != idx by {
            assert(Self::chained(before, free, k));
        }
        assert forall|k: int| 0 <= k < grown.len() implies #[trigger] Self::chained(after, grown, k) by {
            if k > 0 {
                assert(Self::chained(before, free, k - 1));
                assert(grown[k] == free[k - 1]);
                assert(Self::link(grown, k) == Self::link(free, k - 1));
            } else {
                assert(Self::link(grown, 0) == Self::link(free, -1));
            }
        }
        assert forall|i: int| 0 <= i < after.len() implies #[trigger] Self::listed(after, grown, i) by {
            if i == idx {
                assert(grown[0] == idx);
            } else if after[i].state is Vacant {
                assert(Self::listed(before, free, i));
                let k = choose|k: int| 0 <= k < free.len() && free[k] == i as usize;
                assert(grown[k + 1] == i as usize);
            }
        }
        assert forall|j: int, k: int| 0 <= j < grown.len() && 0 <= k < grown.len() && j != k implies grown[j]
            != grown[k] by {
            if j > 0 && k > 0 {
                assert(free[j - 1] != free[k - 1]);
            }
        }
    }

    /// In a well-formed pool the free slots are not in use, and the slots in
    /// use are not free.
    pub proof fn lemma_free_is_vacant(&self)
        requires
            self.wf(),
        ensures
            self.free_list().no_duplicates(),
            forall|i: int|
                0 <= i < self.slot_count() ==> (self.occupied(i) <==> !self.free_list().contains(
                    i as usize,
                )),
            forall|k: int|
                0 <= k < self.free_list().len() ==> #[trigger] self.free_list()[k] < self.slot_count(),
    {
        assert forall|i: int| 0 <= i < self.slot_count() implies (self.occupied(i)
            <==> !self.free_list().contains(i as usize)) by {
            if self.free@.contains(i as usize) {
                let k = choose|k: int| 0 <= k < self.free@.len() && self.free@[k] == i as usize;
                assert(Self::chained(self.slots@, self.free@, k));
            }
            assert(Self::listed(self.slots@, self.free@, i));
        }
        assert forall|k: int| 0 <= k < self.free_list().len() implies #[trigger] self.free_list()[k]
            < self.slot_count() by {
            assert(Self::chained(self.slots@, self.free@, k));
        }
    }

    /// An empty pool.
    pub fn new() -> (pool: Pool<T>)
        ensures
            pool.wf(),
            pool.slot_count() == 0,
            pool.free_list().len() == 0,
    {
        Pool { slots: Vec::new(), free_head: NONE, active_count: 0, free: Ghost(Seq::empty()) }
    }

    /// An empty pool with room set aside for `capacity` slots.
    pub fn with_capacity(capacity: usize) -> (pool: Pool<T>)
        ensures
            pool.wf(),
            pool.slot_count() == 0,
            pool.free_list().len() == 0,
    {
        Pool {
            slots: Vec::with_capacity(capacity),
            free_head: NONE,
            active_count: 0,
            free: Ghost(Seq::empty()),
        }
    }

    /// Whether `index` names a slot in use.
    pub fn is_active(&self, index: PoolIndex) -> (active: bool)
        ensures
            active == self.occupied(index.0 as int),
    {
        if index.0 < self.slots.len() {
            match self.slots[index.0].state {
                SlotState::Occupied => true,
                SlotState::Vacant(_) => false,
            }
        } else {
            false
        }
    }

    /// The number of slots in use.
    pub fn active_count(&self) -> (count: usize)
        requires
            self.wf(),
        ensures
            count == self.slot_count() - self.free_list().len(),
    {
        self.active_count
    }

    /// The number of slots, in use or free.
    pub fn capacity(&self) -> (count: usize)
        ensures
            count == self.slot_count(),
    {
        self.slots.len()
    }

    /// Whether no slot is in use.
    pub fn is_empty(&self) -> (empty: bool)
        requires
            self.wf(),
        ensures
            empty == (self.free_list().len() == self.slot_count()),
    {
        self.active_count == 0
    }

    /// The object in the slot `index`, if that slot is in use.
    pub fn get(&self, index: PoolIndex) -> (object: Option<&T>)
        ensures
            self.occupied(index.0 as int) ==> object == Some(&self.value(index.0 as int)),
            !self.occupied(index.0 as int) ==> object is None,
    {
        if index.0 < self.slots.len() {
            let slot = &self.slots[index.0];
            match slot.state {
                SlotState::Occupied => Some(&slot.value),
                SlotState::Vacant(_) => None,
            }
        } else {
            None
        }
    }

    /// Gives the slot `index` back to the pool. Returns `false`, and changes
    /// nothing, if `index` names no slot or a slot that is already free. The
    /// object stays in the slot, which is the first to be reused.
    pub fn release(&mut self, index: PoolIndex) -> (released: bool)
        requires
            old(self).wf(),
        ensures
            final(self).wf(),
            released == old(self).occupied(index.0 as int),
            final(self).slot_count() == old(self).slot_count(),
            forall|i: int| 0 <= i < old(self).slot_count() ==> final(self).value(i) == old(self).value(i),
            forall|i: int|
                0 <= i < old(self).slot_count() && i != index.0 ==> final(self).occupied(i) == old(
                    self
                ).occupied(i),
            !final(self).occupied(index.0 as int),
            final(self).free_list() == if released {
                seq![index.0] + old(self).free_list()
            } else {
                old(self).free_list()
            },
    {
        let idx = index.0;
        if idx >= self.slots.len() {
            return false;
        }
        if let SlotState::Vacant(_) = self.slots[idx].state {
            return false;
        }
        proof {
            Self::lemma_free_is_shorter(self.slots@, self.free@, idx);
        }
        self.slots[idx].state = SlotState::Vacant(self.free_head);
        self.free_head = idx;
        self.active_count -= 1;
        proof {
            Self::lemma_release(old(self).slots@, self.slots@, old(self).free@, idx);
            self.free@ = seq![idx] + old(self).free@;
        }
        true
    }

    /// Taking the head of the free list into use.
    proof fn lemma_acquire(before: Seq<Slot<T>>, after: Seq<Slot<T>>, free: Seq<usize>)
        requires
            Self::describes(before, free),
            free.len() > 0,
            after.len() == before.len(),
            after[free[0] as int].state is Occupied,
            forall|i: int| 0 <= i < before.len() && i != free[0] ==> #[trigger] after[i] == before[i],
        ensures
            Self::describes(after, free.drop_first()),
            free[0] < before.len(),
            before[free[0] as int].state == SlotState::Vacant(Self::link(free, 0)),
            Self::link(free, 0) == Self::link(free.drop_first(), -1),
    {
        let rest = free.drop_first();
        assert(Self::chained(before, free, 0));
        assert forall|k: int| 0 <= k < rest.len() implies #[trigger] Self::chained(after, rest, k) by {
            assert(Self::chained(before, free, k + 1));
            assert(rest[k] == free[k + 1]);
            assert(free[k + 1] != free[0]);
            assert(Self::link(rest, k) == Self::link(free, k + 1));
        }
        assert forall|i: int| 0 <= i < after.len() implies #[trigger] Self::listed(after, rest, i) by {
            if i != free[0] && after[i].state is Vacant {
                assert(Self::listed(before, free, i));
                let k = choose|k: int| 0 <= k < free.len() && free[k] == i as usize;
                assert(rest[k - 1] == i as usize);
            }
        }
        assert forall|j: int, k: int| 0 <= j < rest.len() && 0 <= k < rest.len() && j != k implies rest[j]
            != rest[k] by {
            assert(free[j + 1] != free[k + 1]);
        }
    }

    /// Changing the objects in the slots, and nothing else, leaves the free
    /// list as it is.
    proof fn lemma_revalue(before: Seq<Slot<T>>, after: Seq<Slot<T>>, free: Seq<usize>)
        requires
            Self::describes(before, free),
            after.len() == before.len(),
            forall|i: int| 0 <= i < before.len() ==> (#[trigger] after[i]).state == before[i].state,
        ensures
            Self::describes(after, free),
    {
        assert forall|k: int| 0 <= k < free.len() implies #[trigger] Self::chained(after, free, k) by {
            assert(Self::chained(before, free, k));
        }
        assert forall|i: int| 0 <= i < after.len() implies #[trigger] Self::listed(after, free, i) by {
            assert(Self::listed(before, free, i));
        }
    }

    /// Adding a slot in use at the end.
    proof fn lemma_grow(before: Seq<Slot<T>>, added: Slot<T>, free: Seq<usize>)
        requires
            Self::describes(before, free),
            before.len() + 1 <= NONE,
            added.state is Occupied,
        ensures
            Self::describes(before.push(added), free),
    {
        let after = before.push(added);
        assert forall|k: int| 0 <= k < free.len() implies #[trigger] Self::chained(after, free, k) by {
            assert(Self::chained(before, free, k));
        }
        assert forall|i: int| 0 <= i < after.len() implies #[trigger] Self::listed(after, free, i) by {
            if i < before.len() {
                assert(Self::listed(before, free, i));
            }
        }
    }

    /// Takes a slot into use and puts into it the object that `init` makes.
    /// The slot released last is reused, and the object left in it is
    /// replaced; a pool without a free slot grows by one.
    pub fn acquire(&mut self, init: impl FnOnce() -> T) -> (index: PoolIndex)
        requires
            old(self).wf(),
            init.requires(()),
        ensures
            final(self).wf(),
            final(self).occupied(index.0 as int),
            init.ensures((), final(self).value(index.0 as int)),
            old(self).free_list().len() > 0 ==> index.0 == old(self).free_list()[0]
                && final(self).free_list() == old(self).free_list().drop_first()
                && final(self).slot_count() == old(self).slot_count(),
            old(self).free_list().len() == 0 ==> index.0 == old(self).slot_count()
                && final(self).free_list() == old(self).free_list() && final(self).slot_count()
                == old(self).slot_count() + 1,
            forall|i: int|
                0 <= i < old(self).slot_count() && i != index.0 ==> {
                    &&& final(self).value(i) == old(self).value(i)
                    &&& final(self).occupied(i) == old(self).occupied(i)
                },
    {
        if self.free_head != NONE {
            let index = self.free_head;
            proof {
                assert(Self::chained(self.slots@, self.free@, 0));
            }
            if let SlotState::Vacant(next) = self.slots[index].state {
                self.free_head = next;
            } else {
                self.free_head = NONE;
            }
            self.slots[index].value = init();
            self.slots[index].state = SlotState::Occupied;
            self.active_count += 1;
            proof {
                Self::lemma_acquire(old(self).slots@, self.slots@, old(self).free@);
                self.free@ = old(self).free@.drop_first();
            }
            PoolIndex(index)
        } else {
            proof {
                if self.free@.len() > 0 {
                    assert(Self::chained(self.slots@, self.free@, 0));
                }
            }
            let index = self.slots.len();
            let slot = Slot { value: init(), state: SlotState::Occupied };
            self.slots.push(slot);
            proof {
                assert(self.slots.len() == self.slots@.len());
            }
            self.active_count += 1;
            proof {
                Self::lemma_grow(old(self).slots@, slot, old(self).free@);
            }
            PoolIndex(index)
        }
    }

    /// Takes a slot into use. The slot released last is reused, and `reset`
    /// puts the object left in it in order; `init` is not called then. A pool
    /// without a free slot grows by one slot, which holds the object that
    /// `init` makes.
    pub fn acquire_with_reset(
        &mut self,
        init: impl FnOnce() -> T,
        reset: impl FnOnce(&mut T),
    ) -> (index: PoolIndex)
        requires
            old(self).wf(),
            init.requires(()),
            forall|object: &mut T| reset.requires((object,)),
        ensures
            final(self).wf(),
            final(self).occupied(index.0 as int),
            old(self).free_list().len() > 0 ==> index.0 == old(self).free_list()[0]
                && final(self).free_list() == old(self).free_list().drop_first()
                && final(self).slot_count() == old(self).slot_count() && exists|object: &mut T|
                *object == old(self).value(index.0 as int) && *final(object) == final(self).value(
                    index.0 as int,
                ) && #[trigger] reset.ensures((object,), ()),
            old(self).free_list().len() == 0 ==> index.0 == old(self).slot_count()
                && final(self).free_list() == old(self).free_list() && final(self).slot_count()
                == old(self).slot_count() + 1 && init.ensures((), final(self).value(index.0 as int)),
            forall|i: int|
                0 <= i < old(self).slot_count() && i != index.0 ==> {
                    &&& final(self).value(i) == old(self).value(i)
                    &&& final(self).occupied(i) == old(self).occupied(i)
                },
    {
        if self.free_head != NONE {
            let index = self.free_head;
            proof {
                assert(Self::chained(self.slots@, self.free@, 0));
            }
            if let SlotState::Vacant(next) = self.slots[index].state {
                self.free_head = next;
            } else {
                self.free_head = NONE;
            }
            reset(&mut self.slots[index].value);
            self.slots[index].state = SlotState::Occupied;
            self.active_count += 1;
            proof {
                Self::lemma_acquire(old(self).slots@, self.slots@, old(self).free@);
                self.free@ = old(self).free@.drop_first();
            }
            PoolIndex(index)
        } else {
            proof {
                if self.free@.len() > 0 {
                    assert(Self::chained(self.slots@, self.free@, 0));
                }
            }
            let index = self.slots.len();
            let slot = Slot { value: init(), state: SlotState::Occupied };
            self.slots.push(slot);
            proof {
                assert(self.slots.len() == self.slots@.len());
            }
            self.active_count += 1;
            proof {
                Self::lemma_grow(old(self).slots@, slot, old(self).free@);
            }
            PoolIndex(index)
        }
    }

    /// Mutable access to the object in the slot `index`, if that slot is in
    /// use.
    pub fn get_mut(&mut self, index: PoolIndex) -> (object: Option<&mut T>)
        requires
            old(self).wf(),
        ensures
            final(self).wf(),
            final(self).slot_count() == old(self).slot_count(),
            final(self).free_list() == old(self).free_list(),
            forall|i: int|
                0 <= i < old(self).slot_count() ==> final(self).occupied(i) == old(self).occupied(i),
            forall|i: int|
                0 <= i < old(self).slot_count() && i != index.0 ==> final(self).value(i) == old(
                    self
                ).value(i),
            !old(self).occupied(index.0 as int) ==> object is None && final(self).value(index.0 as int)
                == old(self).value(index.0 as int),
            old(self).occupied(index.0 as int) ==> object is Some && *object->0 == old(self).value(
                index.0 as int,
            ) && final(self).value(index.0 as int) == *final(object->0),
    {
        proof {
            let before = self.slots@;
            let free = self.free@;
            assert forall|after: Seq<Slot<T>>|
                after.len() == before.len() && (forall|i: int|
                    0 <= i < before.len() ==> (#[trigger] after[i]).state
                        == before[i].state) implies #[trigger] Self::describes(after, free) by {
                Self::lemma_revalue(before, after, free);
            }
        }
        if index.0 < self.slots.len() {
            let slot = &mut self.slots[index.0];
            match slot.state {
                SlotState::Occupied => Some(&mut slot.value),
                SlotState::Vacant(_) => None,
            }
        } else {
            None
        }
    }

    /// The slots in use among the first `n`, in rising order.
    pub open spec fn active_slots_below(&self, n: nat) -> Seq<usize>
        decreases n,
    {
        if n == 0 {
            Seq::empty()
        } else {
            let rest = self.active_slots_below((n - 1) as nat);
            if self.occupied(n - 1) {
                rest.push((n - 1) as usize)
            } else {
                rest
            }
        }
    }

    /// The slots in use, in rising order.
    pub open spec fn active_slots(&self) -> Seq<usize> {
        self.active_slots_below(self.slot_count())
    }

    /// The objects in the slots in use, in slot order.
    pub fn iter(&self) -> (objects: Vec<&T>)
        ensures
            objects@.len() == self.active_slots().len(),
            forall|k: int|
                0 <= k < objects@.len() ==> *(#[trigger] objects@[k]) == self.value(
                    self.active_slots()[k] as int,
                ),
    {
        let mut objects: Vec<&T> = Vec::new();
        let mut i: usize = 0;
        while i < self.slots.len()
            invariant
                i <= self.slots@.len(),
                objects@.len() == self.active_slots_below(i as nat).len(),
                forall|k: int|
                    0 <= k < objects@.len() ==> *(#[trigger] objects@[k]) == self.value(
                        self.active_slots_below(i as nat)[k] as int,
                    ),
            decreases self.slots@.len() - i,
        {
            let slot = &self.slots[i];
            match slot.state {
                SlotState::Occupied => {
                    objects.push(&slot.value);
                },
                SlotState::Vacant(_) => {},
            }
            i += 1;
        }
        objects
    }

    /// The slots in use with the objects in them, in slot order.
    pub fn iter_with_index(&self) -> (objects: Vec<(PoolIndex, &T)>)
        ensures
            objects@.len() == self.active_slots().len(),
            forall|k: int|
                0 <= k < objects@.len() ==> (#[trigger] objects@[k]).0.0 == self.active_slots()[k] && *objects@[k].1
                    == self.value(self.active_slots()[k] as int),
    {
        let mut objects: Vec<(PoolIndex, &T)> = Vec::new();
        let mut i: usize = 0;
        while i < self.slots.len()
            invariant
                i <= self.slots@.len(),
                objects@.len() == self.active_slots_below(i as nat).len(),
                forall|k: int|
                    0 <= k < objects@.len() ==> (#[trigger] objects@[k]).0.0 == self.active_slots_below(
                        i as nat,
                    )[k] && *objects@[k].1 == self.value(self.active_slots_below(i as nat)[k] as int),
            decreases self.slots@.len() - i,
        {
            let slot = &self.slots[i];
            match slot.state {
                SlotState::Occupied => {
                    objects.push((PoolIndex(i), &slot.value));
                },
                SlotState::Vacant(_) => {},
            }
            i += 1;
        }
        objects
    }

    /// Replaces what `buffer` holds by copies of the objects in the slots in
    /// use, in slot order.
    pub fn collect_active(&self, buffer: &mut Vec<T>) where T: Copy
        ensures
            final(buffer)@.len() == self.active_slots().len(),
            forall|k: int|
                0 <= k < final(buffer)@.len() ==> #[trigger] final(buffer)@[k] == self.value(
                    self.active_slots()[k] as int,
                ),
    {
        buffer.clear();
        let mut i: usize = 0;
        while i < self.slots.len()
            invariant
                i <= self.slots@.len(),
                buffer@.len() == self.active_slots_below(i as nat).len(),
                forall|k: int|
                    0 <= k < buffer@.len() ==> #[trigger] buffer@[k] == self.value(
                        self.active_slots_below(i as nat)[k] as int,
                    ),
            decreases self.slots@.len() - i,
        {
            let slot = &self.slots[i];
            match slot.state {
                SlotState::Occupied => {
                    buffer.push(slot.value);
                },
                SlotState::Vacant(_) => {},
            }
            i += 1;
        }
    }

    /// Empties the pool: no slot is left, in use or free.
    pub fn clear(&mut self)
        ensures
            final(self).wf(),
            final(self).slot_count() == 0,
            final(self).free_list().len() == 0,
    {
        self.slots.clear();
        self.free_head = NONE;
        self.active_count = 0;
        proof {
            self.free@ = Seq::empty();
        }
    }
}

impl<T> Default for Pool<T> {
    /// An empty pool.
    fn default() -> (pool: Pool<T>)
        ensures
            pool.wf(),
            pool.slot_count() == 0,
            pool.free_list().len() == 0,
    {
        Pool::new()
    }
}

} // verus!
