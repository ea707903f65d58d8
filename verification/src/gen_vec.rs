use vstd::prelude::*;

verus! {

/// The largest slot index a `GenIdx` can hold.
pub const MAX_INDEX: usize = 65535;

/// An identifier into a [`U16GenVec`].
pub struct GenIdx<T> {
    generation: u32,
    index: u16,
    _marker: std::marker::PhantomData<T>,
}

impl<T> GenIdx<T> {
    /// The generation of the slot at the time the index was handed out.
    pub closed spec fn generation(&self) -> u32 {
        self.generation
    }

    /// The slot the index points at.
    pub closed spec fn index(&self) -> u16 {
        self.index
    }
}

/// Slots and free stack are consistent: the free stack names exactly the empty slots, each once,
/// and every slot index fits in a `u16`.
pub open spec fn slots_wf<T>(slots: Seq<(u32, Option<T>)>, free: Seq<usize>) -> bool {
    &&& slots.len() <= MAX_INDEX + 1
    &&& forall|k: int| 0 <= k < free.len() ==> #[trigger] free[k] < slots.len()
    &&& forall|k: int, l: int| 0 <= k < l < free.len() ==> #[trigger] free[k] != #[trigger] free[l]
    &&& forall|i: int| 0 <= i < slots.len() ==> (#[trigger] slots[i].1 is None <==> free.contains(i as usize))
}

/// The storage of a [`U16GenVec`]: slots, each a generation and an optional item, and the stack of
/// free slot indices.
struct Slots<T> {
    items: Vec<(u32, Option<T>)>,
    free_indices: Vec<usize>,
}

impl<T> Slots<T> {
    spec fn slots(&self) -> Seq<(u32, Option<T>)> {
        self.items@
    }

    spec fn free(&self) -> Seq<usize> {
        self.free_indices@
    }

    spec fn wf(&self) -> bool {
        slots_wf(self.slots(), self.free())
    }

    fn empty() -> (r: Self)
        ensures
            r.slots() == Seq::<(u32, Option<T>)>::empty(),
            r.free() == Seq::<usize>::empty(),
    {
        Slots { items: Vec::new(), free_indices: Vec::new() }
    }

    fn insert(&mut self, item: T) -> (idx: GenIdx<T>)
        requires
            old(self).wf(),
            if old(self).free().len() > 0 {
                old(self).slots()[old(self).free().last() as int].0 < u32::MAX
            } else {
                old(self).slots().len() <= MAX_INDEX
            },
        ensures
            final(self).wf(),
            old(self).free().len() > 0 ==> {
                let i = old(self).free().last();
                let g = (old(self).slots()[i as int].0 + 1) as u32;
                &&& idx.index() == i
                &&& idx.generation() == g
                &&& final(self).slots() == old(self).slots().update(i as int, (g, Some(item)))
                &&& final(self).free() == old(self).free().drop_last()
            },
            old(self).free().len() == 0 ==> {
                &&& idx.index() == old(self).slots().len()
                &&& idx.generation() == 0
                &&& final(self).slots() == old(self).slots().push((0u32, Some(item)))
                &&& final(self).free() == old(self).free()
            },
    {
        let ghost old_free = self.free_indices@;
        match self.free_indices.pop() {
            Some(free_index) => {
                assert(old_free.contains(free_index)) by {
                    assert(old_free[old_free.len() - 1] == free_index);
                }
                let old_generation = self.items[free_index].0;
                let new_generation = old_generation + 1;
                self.items[free_index] = (new_generation, Some(item));
                let idx = GenIdx {
                    generation: new_generation,
                    index: free_index as u16,
                    _marker: std::marker::PhantomData,
                };
                proof {
                    let new_free = self.free_indices@;
                    assert(new_free == old_free.drop_last());
                    assert forall|i: int| 0 <= i < self.slots().len() implies (
                    #[trigger] self.slots()[i].1 is None <==> self.free().contains(i as usize)) by {
                        if i == free_index as int {
                            if new_free.contains(i as usize) {
                                let k = choose|k: int| 0 <= k < new_free.len() && new_free[k] == i as usize;
                                assert(old_free[k] == old_free[old_free.len() - 1]);
                            }
                        } else {
                            if old_free.contains(i as usize) {
                                let k = choose|k: int| 0 <= k < old_free.len() && old_free[k] == i as usize;
                                assert(new_free[k] == i as usize);
                            }
                        }
                    }
                }
                idx
            },
            None => {
                let index = self.items.len();
                self.items.push((0, Some(item)));
                let idx = GenIdx { generation: 0, index: index as u16, _marker: std::marker::PhantomData };
                proof {
                    assert forall|i: int| 0 <= i < self.slots().len() implies (
                    #[trigger] self.slots()[i].1 is None <==> self.free().contains(i as usize)) by {
                        if i < index as int {
                            assert(self.slots()[i] == old(self).slots()[i]);
                        }
                    }
                }
                idx
            },
        }
    }

    fn remove(&mut self, gen_idx: &GenIdx<T>) -> (r: Option<T>)
        requires
            old(self).wf(),
        ensures
            final(self).wf(),
            r == (if (gen_idx.index() as int) < old(self).slots().len() && old(self).slots()[gen_idx.index() as int].0 == gen_idx.generation() {
                old(self).slots()[gen_idx.index() as int].1
            } else {
                None
            }),
            r is None ==> final(self).slots() == old(self).slots() && final(self).free() == old(
                self,
            ).free(),
            r is Some ==> {
                let i = gen_idx.index() as int;
                &&& final(self).slots() == old(self).slots().update(
                    i,
                    (old(self).slots()[i].0, None),
                )
                &&& final(self).free() == old(self).free().push(i as usize)
            },
    {
        let idx = gen_idx.index as usize;
        if idx >= self.items.len() {
            return None;
        }
        let generation = self.items[idx].0;
        if generation != gen_idx.generation {
            return None;
        }
        let ghost old_free = self.free_indices@;
        let slot = &mut self.items[idx];
        let item = slot.1.take();
        if item.is_some() {
            proof {
                assert(!old_free.contains(idx));
            }
            self.free_indices.push(idx);
            proof {
                let new_free = self.free_indices@;
                assert forall|i: int| 0 <= i < self.slots().len() implies (
                #[trigger] self.slots()[i].1 is None <==> self.free().contains(i as usize)) by {
                    if i == idx as int {
                        assert(new_free[new_free.len() - 1] == idx);
                    } else if old_free.contains(i as usize) {
                        let k = choose|k: int| 0 <= k < old_free.len() && old_free[k] == i as usize;
                        assert(new_free[k] == i as usize);
                    } else if new_free.contains(i as usize) {
                        let k = choose|k: int| 0 <= k < new_free.len() && new_free[k] == i as usize;
                        assert(old_free[k] == i as usize);
                    }
                }
            }
        } else {
            proof {
                assert(self.items@ =~= old(self).items@);
            }
        }
        item
    }
}

/// A vector that supports generational indices with u32 generations and u16 indices.
///
/// Every slot carries a generation counter. Removing an item frees its slot; the next insertion
/// that reuses the slot bumps the generation, so an index handed out before the removal no
/// longer resolves.
pub struct U16GenVec<T> {
    storage: Slots<T>,
}

/// One call on a [`U16GenVec`] together with what it took and gave back: an insertion of an item
/// that returned an index, or a removal through an index that returned an optional item.
pub enum GenVecCall<T> {
    Insert(T, GenIdx<T>),
    Remove(GenIdx<T>, Option<T>),
}

impl<T> U16GenVec<T> {
    #[verifier::type_invariant]
    spec fn storage_wf(self) -> bool {
        self.storage.wf()
    }

    /// The slots, each a generation and an optional item.
    pub closed spec fn slots(&self) -> Seq<(u32, Option<T>)> {
        self.storage.items@
    }

    /// The stack of free slot indices; the last one is reused first.
    pub closed spec fn free(&self) -> Seq<usize> {
        self.storage.free_indices@
    }

    /// Slots and free stack are consistent (every vector is: this is its type invariant).
    pub open spec fn well_formed(&self) -> bool {
        slots_wf(self.slots(), self.free())
    }

    /// What a lookup of `idx` yields: the item in its slot, if the slot exists, holds an item, and
    /// carries the same generation.
    pub open spec fn lookup(&self, idx: GenIdx<T>) -> Option<T> {
        let i = idx.index() as int;
        if i < self.slots().len() && self.slots()[i].0 == idx.generation() {
            self.slots()[i].1
        } else {
            None
        }
    }

    /// `idx` points at an existing slot that has moved past it: the slot's generation is at
    /// least `idx`'s, and the slot holds no item under `idx`'s generation.
    pub open spec fn retired(&self, idx: GenIdx<T>) -> bool {
        let i = idx.index() as int;
        &&& i < self.slots().len()
        &&& idx.generation() <= self.slots()[i].0
        &&& self.lookup(idx) is None
    }

    /// Whether `insert` can proceed: a reused slot's generation can still grow, and an appended
    /// slot's index still fits in a `u16`.
    pub open spec fn spec_can_insert(&self) -> bool {
        if self.free().len() > 0 {
            self.slots()[self.free().last() as int].0 < u32::MAX
        } else {
            self.slots().len() <= MAX_INDEX
        }
    }

    /// `new` is `old` after `insert(item)` returned `idx`: the most recently freed slot is reused
    /// with its generation bumped by one, or, when no slot is free, a slot of generation 0 is
    /// appended.
    pub open spec fn inserted(old: Self, new: Self, item: T, idx: GenIdx<T>) -> bool {
        &&& old.well_formed()
        &&& old.spec_can_insert()
        &&& new.well_formed()
        &&& if old.free().len() > 0 {
            let i = old.free().last();
            let g = (old.slots()[i as int].0 + 1) as u32;
            &&& idx.index() == i
            &&& idx.generation() == g
            &&& new.slots() == old.slots().update(i as int, (g, Some(item)))
            &&& new.free() == old.free().drop_last()
        } else {
            &&& idx.index() == old.slots().len()
            &&& idx.generation() == 0
            &&& new.slots() == old.slots().push((0u32, Some(item)))
            &&& new.free() == old.free()
        }
    }

    /// `new` is `old` after `remove(idx)` returned `r`: the item `idx` resolved to, whose slot is
    /// emptied and pushed on the free stack; nothing changes where `idx` resolved to nothing.
    pub open spec fn removed(old: Self, new: Self, idx: GenIdx<T>, r: Option<T>) -> bool {
        let i = idx.index() as int;
        &&& old.well_formed()
        &&& new.well_formed()
        &&& r == old.lookup(idx)
        &&& r is None ==> new.slots() == old.slots() && new.free() == old.free()
        &&& r is Some ==> new.slots() == old.slots().update(i, (old.slots()[i].0, None)) && new.free()
            == old.free().push(i as usize)
    }

    /// `new` is `old` after `call`.
    pub open spec fn called(old: Self, new: Self, call: GenVecCall<T>) -> bool {
        match call {
            GenVecCall::Insert(item, idx) => Self::inserted(old, new, item, idx),
            GenVecCall::Remove(idx, r) => Self::removed(old, new, idx, r),
        }
    }

    /// `states` are the successive values of one vector and `calls` the calls that led from each
    /// to the next.
    pub open spec fn is_run(states: Seq<Self>, calls: Seq<GenVecCall<T>>) -> bool {
        &&& states.len() == calls.len() + 1
        &&& forall|t: int|
            0 <= t < calls.len() ==> #[trigger] Self::called(states[t], states[t + 1], calls[t])
    }

    /// Creates a new, empty [`U16GenVec`].
    pub fn new() -> (r: Self)
        ensures
            r.well_formed(),
            r.slots() == Seq::<(u32, Option<T>)>::empty(),
            r.free() == Seq::<usize>::empty(),
    {
        U16GenVec { storage: Slots::empty() }
    }

    /// Whether an insertion would succeed (see [`U16GenVec::spec_can_insert`]).
    pub fn can_insert(&self) -> (r: bool)
        ensures
            r == self.spec_can_insert(),
    {
        proof {
            use_type_invariant(self);
        }
        let n = self.storage.free_indices.len();
        if n > 0 {
            let i = self.storage.free_indices[n - 1];
            assert(self.free()[n - 1] < self.slots().len());
            self.storage.items[i].0 < u32::MAX
        } else {
            self.storage.items.len() <= MAX_INDEX
        }
    }

    /// Inserts a new item into the vector, returning its generational index.
    ///
    /// The most recently freed slot is reused with its generation bumped by one; when no slot is
    /// free, a slot of generation 0 is appended.
    pub fn insert(&mut self, item: T) -> (idx: GenIdx<T>)
        requires
            old(self).spec_can_insert(),
        ensures
            Self::inserted(*old(self), *final(self), item, idx),
            final(self).lookup(idx) == Some(item),
            forall|other: GenIdx<T>|
                #[trigger] old(self).lookup(other) is Some ==> final(self).lookup(other) == old(
                    self,
                ).lookup(other),
            forall|other: GenIdx<T>| #[trigger] old(self).retired(other) ==> final(self).retired(other),
    {
        proof {
            use_type_invariant(&*self);
        }
        let mut storage = Slots::empty();
        std::mem::swap(&mut storage, &mut self.storage);
        let idx = storage.insert(item);
        self.storage = storage;
        proof {
            lemma_inserted(*old(self), *self, item, idx);
        }
        idx
    }

    /// Retrieves an item by its generational index.
    ///
    /// If the index is invalid or the generation does not match, `None` is returned.
    pub fn get(&self, gen_idx: &GenIdx<T>) -> (r: Option<&T>)
        ensures
            r matches Some(x) ==> self.lookup(*gen_idx) == Some(*x),
            r is None ==> self.lookup(*gen_idx) is None,
    {
        let idx = gen_idx.index as usize;
        if idx >= self.storage.items.len() {
            return None;
        }
        let (generation, item_opt) = &self.storage.items[idx];
        if *generation != gen_idx.generation {
            return None;
        }
        item_opt.as_ref()
    }

    /// Removes an item by its generational index.
    ///
    /// Returns the item the index resolved to, if any, and frees its slot for reuse.
    pub fn remove(&mut self, gen_idx: &GenIdx<T>) -> (r: Option<T>)
        ensures
            Self::removed(*old(self), *final(self), *gen_idx, r),
            final(self).lookup(*gen_idx) is None,
            r is Some ==> final(self).retired(*gen_idx),
            forall|other: GenIdx<T>|
                other.index() != gen_idx.index() ==> #[trigger] final(self).lookup(other) == old(
                    self,
                ).lookup(other),
            forall|other: GenIdx<T>| #[trigger] old(self).retired(other) ==> final(self).retired(other),
    {
        proof {
            use_type_invariant(&*self);
        }
        let mut storage = Slots::empty();
        std::mem::swap(&mut storage, &mut self.storage);
        let r = storage.remove(gen_idx);
        self.storage = storage;
        proof {
            lemma_removed(*old(self), *self, *gen_idx, r);
        }
        r
    }
}

/// What an insertion keeps and gives: the returned index resolves to the item, live indices keep
/// their items, retired indices stay retired, and no slot disappears or loses generations.
pub proof fn lemma_inserted<T>(old: U16GenVec<T>, new: U16GenVec<T>, item: T, idx: GenIdx<T>)
    requires
        U16GenVec::inserted(old, new, item, idx),
    ensures
        new.lookup(idx) == Some(item),
        forall|other: GenIdx<T>| #[trigger] old.lookup(other) is Some ==> new.lookup(other) == old.lookup(other),
        forall|other: GenIdx<T>| #[trigger] old.retired(other) ==> new.retired(other),
        old.slots().len() <= new.slots().len(),
        forall|k: int| 0 <= k < old.slots().len() ==> #[trigger] old.slots()[k].0 <= new.slots()[k].0,
        (idx.index() as int) < new.slots().len(),
        new.slots()[idx.index() as int].0 == idx.generation(),
{
    if old.free().len() > 0 {
        assert(old.free()[old.free().len() - 1] < old.slots().len());
    }
}

/// What a removal keeps and gives: the index resolves to nothing afterwards and is retired if it
/// gave an item, indices into other slots are untouched, a live index either keeps its item or
/// becomes retired, retired indices stay retired, and slots and generations do not change.
pub proof fn lemma_removed<T>(old: U16GenVec<T>, new: U16GenVec<T>, idx: GenIdx<T>, r: Option<T>)
    requires
        U16GenVec::removed(old, new, idx, r),
    ensures
        new.lookup(idx) is None,
        r is Some ==> new.retired(idx),
        forall|other: GenIdx<T>| other.index() != idx.index() ==> #[trigger] new.lookup(other) == old.lookup(other),
        forall|other: GenIdx<T>|
            #[trigger] old.lookup(other) is Some ==> new.lookup(other) == old.lookup(other) || new.retired(other),
        forall|other: GenIdx<T>| #[trigger] old.retired(other) ==> new.retired(other),
        old.slots().len() == new.slots().len(),
        forall|k: int| 0 <= k < old.slots().len() ==> #[trigger] old.slots()[k].0 == new.slots()[k].0,
{
}

/// The index that an insertion call returned (any index for a removal).
pub open spec fn call_index<T>(call: GenVecCall<T>) -> GenIdx<T> {
    match call {
        GenVecCall::Insert(_, idx) => idx,
        GenVecCall::Remove(idx, _) => idx,
    }
}

/// Over a run of calls a vector only grows: no slot disappears and no slot's generation goes
/// down.
pub proof fn lemma_run_grows<T>(states: Seq<U16GenVec<T>>, calls: Seq<GenVecCall<T>>, i: int, j: int)
    requires
        U16GenVec::is_run(states, calls),
        0 <= i <= j < states.len(),
    ensures
        states[i].slots().len() <= states[j].slots().len(),
        forall|k: int|
            0 <= k < states[i].slots().len() ==> #[trigger] states[i].slots()[k].0 <= states[j].slots()[k].0,
    decreases j - i,
{
    if i < j {
        lemma_run_grows(states, calls, i, j - 1);
        let t = j - 1;
        assert(U16GenVec::called(states[t], states[t + 1], calls[t]));
        assert(states[t + 1] == states[j]);
        match calls[j - 1] {
            GenVecCall::Insert(item, idx) => lemma_inserted(states[j - 1], states[j], item, idx),
            GenVecCall::Remove(idx, r) => lemma_removed(states[j - 1], states[j], idx, r),
        }
    }
}

/// Over a run of calls, no two insertions return the same index: they differ in slot or in
/// generation.
pub proof fn lemma_run_indices_distinct<T>(
    states: Seq<U16GenVec<T>>,
    calls: Seq<GenVecCall<T>>,
    i: int,
    j: int,
)
    requires
        U16GenVec::is_run(states, calls),
        0 <= i < j < calls.len(),
        calls[i] is Insert,
        calls[j] is Insert,
    ensures
        call_index(calls[i]).index() != call_index(calls[j]).index() || call_index(calls[i]).generation()
            != call_index(calls[j]).generation(),
{
    let a = call_index(calls[i]);
    let b = call_index(calls[j]);
    assert(U16GenVec::called(states[i], states[i + 1], calls[i]));
    assert(U16GenVec::called(states[j], states[j + 1], calls[j]));
    match calls[i] {
        GenVecCall::Insert(item, idx) => lemma_inserted(states[i], states[i + 1], item, idx),
        GenVecCall::Remove(..) => {},
    }
    lemma_run_grows(states, calls, i + 1, j);
    let old = states[j];
    if old.free().len() > 0 {
        assert(old.free()[old.free().len() - 1] < old.slots().len());
        if a.index() == b.index() {
            assert(old.slots()[a.index() as int].0 >= a.generation());
        }
    }
}

/// An index that an insertion returned stays live or retired over the rest of the run: it either
/// still resolves to an item or has been retired for good.
pub proof fn lemma_run_index_live_or_retired<T>(
    states: Seq<U16GenVec<T>>,
    calls: Seq<GenVecCall<T>>,
    i: int,
    j: int,
)
    requires
        U16GenVec::is_run(states, calls),
        0 <= i < calls.len(),
        calls[i] is Insert,
        i < j < states.len(),
    ensures
        states[j].lookup(call_index(calls[i])) is Some || states[j].retired(call_index(calls[i])),
    decreases j - i,
{
    let h = call_index(calls[i]);
    if j == i + 1 {
        assert(U16GenVec::called(states[i], states[i + 1], calls[i]));
        match calls[i] {
            GenVecCall::Insert(item, idx) => lemma_inserted(states[i], states[i + 1], item, idx),
            GenVecCall::Remove(..) => {},
        }
    } else {
        lemma_run_index_live_or_retired(states, calls, i, j - 1);
        let t = j - 1;
        assert(U16GenVec::called(states[t], states[t + 1], calls[t]));
        assert(states[t + 1] == states[j]);
        match calls[j - 1] {
            GenVecCall::Insert(item, idx) => lemma_inserted(states[j - 1], states[j], item, idx),
            GenVecCall::Remove(idx, r) => lemma_removed(states[j - 1], states[j], idx, r),
        }
        assert(states[j - 1].lookup(h) is Some ==> states[j].lookup(h) == states[j - 1].lookup(h)
            || states[j].retired(h));
        assert(states[j - 1].retired(h) ==> states[j].retired(h));
    }
}

/// A later insertion changes nothing for an index that an earlier insertion returned: it still
/// resolves to what it resolved to just before.
pub proof fn lemma_run_insert_keeps_earlier_index<T>(
    states: Seq<U16GenVec<T>>,
    calls: Seq<GenVecCall<T>>,
    i: int,
    j: int,
)
    requires
        U16GenVec::is_run(states, calls),
        0 <= i < j < calls.len(),
        calls[i] is Insert,
        calls[j] is Insert,
    ensures
        states[j + 1].lookup(call_index(calls[i])) == states[j].lookup(call_index(calls[i])),
{
    let h = call_index(calls[i]);
    lemma_run_index_live_or_retired(states, calls, i, j);
    assert(U16GenVec::called(states[j], states[j + 1], calls[j]));
    match calls[j] {
        GenVecCall::Insert(item, idx) => lemma_inserted(states[j], states[j + 1], item, idx),
        GenVecCall::Remove(..) => {},
    }
    assert(states[j].lookup(h) is Some ==> states[j + 1].lookup(h) == states[j].lookup(h));
    assert(states[j].retired(h) ==> states[j + 1].retired(h));
}

/// Once a removal through an index gave an item, that index resolves to nothing for the rest of
/// the run: no later insertion brings it back.
pub proof fn lemma_run_removed_index_never_revived<T>(
    states: Seq<U16GenVec<T>>,
    calls: Seq<GenVecCall<T>>,
    i: int,
    j: int,
)
    requires
        U16GenVec::is_run(states, calls),
        0 <= i < calls.len(),
        calls[i] matches GenVecCall::Remove(_, r) && r is Some,
        i < j < states.len(),
    ensures
        states[j].retired(call_index(calls[i])),
        states[j].lookup(call_index(calls[i])) is None,
    decreases j - i,
{
    let h = call_index(calls[i]);
    if j == i + 1 {
        assert(U16GenVec::called(states[i], states[i + 1], calls[i]));
        match calls[i] {
            GenVecCall::Remove(idx, r) => lemma_removed(states[i], states[i + 1], idx, r),
            GenVecCall::Insert(..) => {},
        }
    } else {
        lemma_run_removed_index_never_revived(states, calls, i, j - 1);
        let t = j - 1;
        assert(U16GenVec::called(states[t], states[t + 1], calls[t]));
        assert(states[t + 1] == states[j]);
        match calls[j - 1] {
            GenVecCall::Insert(item, idx) => lemma_inserted(states[j - 1], states[j], item, idx),
            GenVecCall::Remove(idx, r) => lemma_removed(states[j - 1], states[j], idx, r),
        }
        assert(states[j - 1].retired(h) ==> states[j].retired(h));
    }
}

/// Whether `call` is a removal through an index with `idx`'s slot and generation that gave an
/// item.
pub open spec fn removes_through<T>(call: GenVecCall<T>, idx: GenIdx<T>) -> bool {
    match call {
        GenVecCall::Remove(through, r) => through.index() == idx.index() && through.generation()
            == idx.generation() && r is Some,
        GenVecCall::Insert(..) => false,
    }
}

/// An index that an insertion returned resolves to the inserted item at every later point of the
/// run, until a removal through it gives the item back.
pub proof fn lemma_run_inserted_index_resolves<T>(
    states: Seq<U16GenVec<T>>,
    calls: Seq<GenVecCall<T>>,
    i: int,
    j: int,
)
    requires
        U16GenVec::is_run(states, calls),
        0 <= i < calls.len(),
        calls[i] is Insert,
        i < j < states.len(),
        forall|t: int| i < t < j ==> !removes_through(#[trigger] calls[t], call_index(calls[i])),
    ensures
        states[j].lookup(call_index(calls[i])) == Some(calls[i]->Insert_0),
    decreases j - i,
{
    let h = call_index(calls[i]);
    if j == i + 1 {
        assert(U16GenVec::called(states[i], states[i + 1], calls[i]));
        match calls[i] {
            GenVecCall::Insert(item, idx) => lemma_inserted(states[i], states[i + 1], item, idx),
            GenVecCall::Remove(..) => {},
        }
    } else {
        lemma_run_inserted_index_resolves(states, calls, i, j - 1);
        let t = j - 1;
        assert(U16GenVec::called(states[t], states[t + 1], calls[t]));
        assert(states[t + 1] == states[j]);
        assert(!removes_through(calls[t], h));
        match calls[t] {
            GenVecCall::Insert(item, idx) => lemma_inserted(states[t], states[j], item, idx),
            GenVecCall::Remove(idx, r) => {
                lemma_removed(states[t], states[j], idx, r);
            },
        }
    }
}

/// `can_insert` answers exactly whether the next insertion fits: the slot it takes (the most
/// recently freed one, or a new one at the end) has an index that fits in a `u16`, and the
/// generation it gives that slot (one more than the slot's, or 0 for a new slot) fits in a `u32`.
pub proof fn lemma_can_insert_exactly_when_insert_fits<T>(v: U16GenVec<T>)
    requires
        v.well_formed(),
    ensures
        ({
            let reuse = v.free().len() > 0;
            let i: int = if reuse {
                v.free()[v.free().len() - 1] as int
            } else {
                v.slots().len() as int
            };
            let g: int = if reuse {
                v.slots()[i].0 + 1
            } else {
                0
            };
            v.spec_can_insert() <==> (i <= 0xffff && g <= 0xffff_ffff)
        }),
{
    if v.free().len() > 0 {
        assert(v.free()[v.free().len() - 1] < v.slots().len());
    }
}

/// After a removal that gave an item, the next insertion can proceed exactly when the freed
/// slot's generation (the removed index's) is below `u32::MAX`: that slot is reused next, whether
/// or not other slots are free or taken.
pub proof fn lemma_can_insert_after_removal<T>(
    old: U16GenVec<T>,
    new: U16GenVec<T>,
    idx: GenIdx<T>,
    r: Option<T>,
)
    requires
        U16GenVec::removed(old, new, idx, r),
        r is Some,
    ensures
        new.spec_can_insert() <==> idx.generation() < u32::MAX,
{
    assert(new.free().last() == idx.index() as usize);
    assert(new.slots()[idx.index() as int].0 == idx.generation());
}

} // verus!
