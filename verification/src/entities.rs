pub mod query;

use crate::custom_errors::CustomError;
use vstd::prelude::*;

verus! {

/// Widest supported presence mask: each registered component type owns one
/// bit of a `u32`, so at most 32 distinct types can ever be registered.
pub const MAX_COMPONENT_TYPES: usize = 32;

/// The presence-mask bit owned by the component type registered at
/// position `i` (0-indexed by registration order).
pub open spec fn bit_of(i: int) -> u32 {
    1u32 << (i as u32)
}

/// Position of the first occurrence of `key` in `types`; meaningful only
/// when `types.contains(key)`.
pub open spec fn key_index(types: Seq<u64>, key: u64) -> int
    decreases types.len(),
{
    if types.len() == 0 {
        0
    } else if types[0] == key {
        0
    } else {
        1 + key_index(types.drop_first(), key)
    }
}

/// `key_index` of a contained key is in range, lands on the key, and is
/// its first occurrence.
pub proof fn lemma_key_index(types: Seq<u64>, key: u64)
    requires
        types.contains(key),
    ensures
        0 <= key_index(types, key) < types.len(),
        types[key_index(types, key)] == key,
        forall|j: int| 0 <= j < key_index(types, key) ==> types[j] != key,
    decreases types.len(),
{
    if types.len() > 0 && types[0] != key {
        let sub = types.drop_first();
        assert(sub.contains(key)) by {
            let w = choose|w: int| 0 <= w < types.len() && types[w] == key;
            assert(sub[w - 1] == key);
        }
        lemma_key_index(sub, key);
        assert forall|j: int| 0 <= j < key_index(types, key) implies types[j] != key by {
            if j > 0 {
                assert(sub[j - 1] == types[j]);
            }
        }
    }
}

/// When the keys are distinct, any position holding `key` is its
/// `key_index`.
pub proof fn lemma_key_index_of(types: Seq<u64>, key: u64, j: int)
    requires
        0 <= j < types.len(),
        types[j] == key,
        forall|a: int, b: int| 0 <= a < b < types.len() ==> types[a] != types[b],
    ensures
        types.contains(key),
        key_index(types, key) == j,
{
    assert(types.contains(key));
    lemma_key_index(types, key);
    let ki = key_index(types, key);
    if ki < j {
        assert(types[ki] != types[j]);
    }
}

/// Mathematical model of the registry: the registered type keys in
/// registration order, one component column per type, the per-slot
/// presence masks, and the pending-creation cursor.
#[verifier::ext_equal]
#[verifier::reject_recursive_types(T)]
pub struct EntitiesView<T> {
    pub types: Seq<u64>,
    pub cols: Seq<Seq<Option<T>>>,
    pub masks: Seq<u32>,
    pub cursor: int,
}

impl<T> EntitiesView<T> {
    /// Structural well-formedness: one column per registered type, every
    /// column length-synchronized with the presence-mask sequence, type
    /// keys distinct and at most 32 of them, and the cursor in range
    /// whenever any slot exists.
    pub open spec fn wf(self) -> bool {
        &&& self.types.len() == self.cols.len()
        &&& self.types.len() <= MAX_COMPONENT_TYPES
        &&& forall|i: int, j: int|
            0 <= i < j < self.types.len() ==> self.types[i] != self.types[j]
        &&& forall|t: int|
            0 <= t < self.cols.len() ==> #[trigger] self.cols[t].len() == self.masks.len()
        &&& (self.masks.len() == 0 ==> self.cursor == 0)
        &&& (self.masks.len() > 0 ==> 0 <= self.cursor < self.masks.len())
    }

    pub open spec fn registered(self, key: u64) -> bool {
        self.types.contains(key)
    }

    /// The presence-mask bit owned by registered type `key`.
    pub open spec fn mask_of(self, key: u64) -> u32 {
        bit_of(key_index(self.types, key))
    }
}

/// Effect of registering `key`: a no-op when the key is already known or
/// all 32 bits are taken; otherwise the key is appended and gets a fresh
/// column, length-synchronized with the existing slots.
pub open spec fn spec_register<T>(v: EntitiesView<T>, key: u64) -> EntitiesView<T> {
    if v.registered(key) || v.types.len() >= MAX_COMPONENT_TYPES {
        v
    } else {
        EntitiesView {
            types: v.types.push(key),
            cols: v.cols.push(Seq::new(v.masks.len(), |i: int| None)),
            masks: v.masks,
            cursor: v.cursor,
        }
    }
}

/// The lowest index of a free slot (presence mask zero), if any.
pub open spec fn first_free(masks: Seq<u32>) -> Option<int>
    decreases masks.len(),
{
    if masks.len() == 0 {
        None
    } else if masks[0] == 0 {
        Some(0int)
    } else {
        match first_free(masks.drop_first()) {
            None => None,
            Some(j) => Some(j + 1),
        }
    }
}

/// `first_free` finds the lowest free slot exactly: `None` means no slot
/// is free, `Some(i)` means slot `i` is free and no lower one is.
pub proof fn lemma_first_free(masks: Seq<u32>)
    ensures
        match first_free(masks) {
            None => forall|j: int| 0 <= j < masks.len() ==> masks[j] != 0,
            Some(i) => 0 <= i < masks.len() && masks[i] == 0 && forall|j: int|
                0 <= j < i ==> masks[j] != 0,
        },
    decreases masks.len(),
{
    if masks.len() > 0 && masks[0] != 0 {
        let sub = masks.drop_first();
        lemma_first_free(sub);
        match first_free(sub) {
            None => {
                assert forall|j: int| 0 <= j < masks.len() implies masks[j] != 0 by {
                    if j > 0 {
                        assert(sub[j - 1] == masks[j]);
                    }
                }
            },
            Some(i) => {
                assert(sub[i] == masks[i + 1]);
                assert forall|j: int| 0 <= j < i + 1 implies masks[j] != 0 by {
                    if j > 0 {
                        assert(sub[j - 1] == masks[j]);
                    }
                }
            },
        }
    }
}

/// Effect of allocating an entity slot: the lowest free slot becomes the
/// cursor if one exists; otherwise every column and the mask sequence are
/// extended together by one empty slot, which becomes the cursor.
pub open spec fn spec_create<T>(v: EntitiesView<T>) -> EntitiesView<T> {
    match first_free(v.masks) {
        Some(i) => EntitiesView { cursor: i, ..v },
        None => EntitiesView {
            types: v.types,
            cols: v.cols.map_values(|c: Seq<Option<T>>| c.push(None)),
            masks: v.masks.push(0u32),
            cursor: v.masks.len() as int,
        },
    }
}

/// Effect of attaching component value `c` of registered type `key` to
/// slot `id`: the value is stored (overwriting any previous one) and the
/// type's bit is ORed into the slot's presence mask.
pub open spec fn spec_attach<T>(v: EntitiesView<T>, key: u64, c: T, id: int) -> EntitiesView<T> {
    let t = key_index(v.types, key);
    EntitiesView {
        types: v.types,
        cols: v.cols.update(t, v.cols[t].update(id, Some(c))),
        masks: v.masks.update(id, v.masks[id] | v.mask_of(key)),
        cursor: v.cursor,
    }
}

/// Effect of detaching registered type `key` from slot `id`: the type's
/// bit is toggled (XOR) in the slot's presence mask, and the stored value
/// is left in place. Toggling clears the bit only when it was set; on a
/// slot that never had the component it sets the bit instead — a quirk
/// deliberately kept, and pinned by `lemma_detach_toggles_bit`.
pub open spec fn spec_detach<T>(v: EntitiesView<T>, key: u64, id: int) -> EntitiesView<T> {
    EntitiesView {
        types: v.types,
        cols: v.cols,
        masks: v.masks.update(id, v.masks[id] ^ v.mask_of(key)),
        cursor: v.cursor,
    }
}

/// Effect of deleting slot `id`: its presence mask is zeroed, logically
/// detaching every component at once; the columns keep their stale values.
pub open spec fn spec_delete<T>(v: EntitiesView<T>, id: int) -> EntitiesView<T> {
    EntitiesView {
        types: v.types,
        cols: v.cols,
        masks: v.masks.update(id, 0u32),
        cursor: v.cursor,
    }
}

/// Registration law: bit positions are assigned in call order starting at
/// 0. Registering a fresh key while mask bits remain appends it, assigns
/// it the bit equal to the number of already-registered types, and leaves
/// every earlier key's bit unchanged; re-registering a known key changes
/// nothing at all.
pub proof fn lemma_register_assigns_bits_in_order<T>(v: EntitiesView<T>, key: u64)
    requires
        v.wf(),
    ensures
        v.registered(key) ==> spec_register(v, key) == v,
        !v.registered(key) && v.types.len() < MAX_COMPONENT_TYPES ==> {
            let v2 = spec_register(v, key);
            &&& v2.types == v.types.push(key)
            &&& v2.masks == v.masks
            &&& v2.registered(key)
            &&& v2.mask_of(key) == bit_of(v.types.len() as int)
            &&& forall|k2: u64|
                #[trigger] v.registered(k2) ==> v2.registered(k2) && v2.mask_of(k2)
                    == v.mask_of(k2)
        },
{
    if !v.registered(key) && v.types.len() < MAX_COMPONENT_TYPES {
        let v2 = spec_register(v, key);
        assert forall|a: int, b: int|
            0 <= a < b < v2.types.len() implies v2.types[a] != v2.types[b] by {
            if b == v2.types.len() - 1 {
                assert(v.types.contains(v.types[a]));
            }
        }
        assert(v2.types[v.types.len() as int] == key);
        lemma_key_index_of(v2.types, key, v.types.len() as int);
        assert forall|k2: u64|
            #[trigger] v.registered(k2) implies v2.registered(k2) && v2.mask_of(k2)
            == v.mask_of(k2) by {
            lemma_key_index(v.types, k2);
            let j = key_index(v.types, k2);
            assert(v2.types[j] == k2);
            lemma_key_index_of(v2.types, k2, j);
        }
    }
}

/// Slot-allocation law: after allocating an entity slot, every registered
/// column has one more slot than before — unless a free slot (presence
/// mask zero) existed, in which case every sequence is unchanged and the
/// lowest-index free slot is reused as the cursor.
pub proof fn lemma_create_entity_slots<T>(v: EntitiesView<T>)
    requires
        v.wf(),
    ensures
        ({
            let v2 = spec_create(v);
            &&& v2.types == v.types
            &&& match first_free(v.masks) {
                Some(i) => v2.masks == v.masks && v2.cols == v.cols && v2.cursor == i
                    && v.masks[i] == 0 && forall|j: int| 0 <= j < i ==> v.masks[j] != 0,
                None => v2.masks.len() == v.masks.len() + 1 && v2.cursor == v.masks.len()
                    && v2.masks[v2.cursor] == 0 && forall|t: int|
                    0 <= t < v.cols.len() ==> (#[trigger] v2.cols[t]).len() == v.cols[t].len()
                        + 1,
            }
        }),
{
    lemma_first_free(v.masks);
}

/// Detach law: detaching toggles. When the slot's presence bit for the
/// type is set, detaching clears it; on a slot that does not have the
/// component, detaching incorrectly sets the bit instead — a quirk of the
/// toggle semantics, deliberately preserved and pinned here.
pub proof fn lemma_detach_toggles_bit<T>(v: EntitiesView<T>, key: u64, id: int)
    requires
        v.wf(),
        v.registered(key),
        0 <= id < v.masks.len(),
    ensures
        v.masks[id] & v.mask_of(key) == 0 ==> spec_detach(v, key, id).masks[id] & v.mask_of(key)
            == v.mask_of(key),
        v.masks[id] & v.mask_of(key) == v.mask_of(key) ==> spec_detach(v, key, id).masks[id]
            & v.mask_of(key) == 0,
{
    let m = v.masks[id];
    let b = v.mask_of(key);
    assert(m & b == 0 ==> (m ^ b) & b == b) by (bit_vector);
    assert(m & b == b ==> (m ^ b) & b == 0) by (bit_vector);
}

/// The component registry: per-type columnar storage of optional component
/// values plus one presence bitmask per entity slot.
#[verifier::reject_recursive_types(T)]
pub struct Entities<T> {
    /// Registered type keys, in registration order; the key at position
    /// `i` owns presence bit `i`.
    pub(crate) types: Vec<u64>,
    /// One column per registered type, co-indexed with `types`; each
    /// column has one optional slot per entity.
    pub(crate) cols: Vec<Vec<Option<T>>>,
    /// One presence bitmask per entity slot.
    pub(crate) masks: Vec<u32>,
    /// The pending-creation cursor: the most recently allocated slot,
    /// targeted by chained attachments.
    pub(crate) first_empty_index: usize,
}

impl<T> View for Entities<T> {
    type V = EntitiesView<T>;

    open(crate) spec fn view(&self) -> EntitiesView<T> {
        EntitiesView {
            types: self.types@,
            cols: self.cols@.map_values(|c: Vec<Option<T>>| c@),
            masks: self.masks@,
            cursor: self.first_empty_index as int,
        }
    }
}

impl<T> Default for Entities<T> {
    /// An empty registry, as `Entities::new` makes it.
    fn default() -> (r: Self)
        ensures
            r@.wf(),
            r@.types == Seq::<u64>::empty(),
            r@.cols == Seq::<Seq<Option<T>>>::empty(),
            r@.masks == Seq::<u32>::empty(),
            r@.cursor == 0,
    {
        Entities::new()
    }
}

impl<T> Entities<T> {
    /// An empty registry: no types, no columns, no slots.
    pub fn new() -> (r: Self)
        ensures
            r@.wf(),
            r@.types == Seq::<u64>::empty(),
            r@.cols == Seq::<Seq<Option<T>>>::empty(),
            r@.masks == Seq::<u32>::empty(),
            r@.cursor == 0,
    {
        let r = Entities {
            types: Vec::new(),
            cols: Vec::new(),
            masks: Vec::new(),
            first_empty_index: 0,
        };
        assert(r@.cols =~= Seq::<Seq<Option<T>>>::empty());
        r
    }

    /// Idempotent registration: the first call for a key appends a new
    /// column (length-synchronized with the existing slots) and assigns
    /// the next unused bit; later calls for the same key change nothing.
    /// A 33rd distinct key is rejected as a no-op: the mask has no bit
    /// left for it.
    pub fn register_component(&mut self, type_key: u64)
        requires
            old(self)@.wf(),
        ensures
            final(self)@.wf(),
            final(self)@ == spec_register(old(self)@, type_key),
    {
        let n = self.types.len();
        let mut i: usize = 0;
        while i < n
            invariant
                *self == *old(self),
                old(self)@.wf(),
                n == self.types.len(),
                forall|j: int| 0 <= j < i ==> self.types@[j] != type_key,
            decreases n - i,
        {
            if self.types[i] == type_key {
                assert(self@.types.contains(type_key));
                return;
            }
            i += 1;
        }
        assert(!self@.registered(type_key));
        if n >= MAX_COMPONENT_TYPES {
            return;
        }
        let m = self.masks.len();
        let mut col: Vec<Option<T>> = Vec::new();
        while col.len() < m
            invariant
                col@ =~= Seq::new(col@.len(), |k: int| None::<T>),
                col@.len() <= m,
            decreases m - col.len(),
        {
            col.push(None);
        }
        assert(col@ =~= Seq::new(self@.masks.len(), |k: int| None::<T>));
        self.cols.push(col);
        self.types.push(type_key);
        assert(self@ =~~= spec_register(old(self)@, type_key));
        assert forall|a: int, b: int|
            0 <= a < b < self@.types.len() implies self@.types[a] != self@.types[b] by {
            if b == self@.types.len() - 1 {
                assert(old(self)@.types.contains(old(self)@.types[a]));
            }
        }
    }

    /// Allocates an entity slot and makes it the pending-creation cursor:
    /// the lowest-index free slot (presence mask zero) is reused if one
    /// exists, keeping its stale column entries; otherwise a fresh slot is
    /// appended to every column and to the mask sequence atomically.
    /// Returns the allocated slot's index.
    pub fn create_entity(&mut self) -> (id: usize)
        requires
            old(self)@.wf(),
        ensures
            final(self)@.wf(),
            final(self)@ == spec_create(old(self)@),
            id as int == final(self)@.cursor,
    {
        let n = self.masks.len();
        let mut i: usize = 0;
        while i < n
            invariant
                *self == *old(self),
                old(self)@.wf(),
                n == self.masks.len(),
                forall|j: int| 0 <= j < i ==> self.masks@[j] != 0,
            decreases n - i,
        {
            if self.masks[i] == 0 {
                self.first_empty_index = i;
                proof {
                    lemma_first_free(self@.masks);
                    assert(first_free(self@.masks) == Some(i as int));
                    assert(self@ =~= spec_create(old(self)@));
                }
                return i;
            }
            i += 1;
        }
        proof {
            lemma_first_free(self@.masks);
            assert(first_free(self@.masks) is None);
        }
        let nt = self.cols.len();
        let mut t: usize = 0;
        while t < nt
            invariant
                old(self)@.wf(),
                first_free(old(self)@.masks) is None,
                nt == self.cols.len(),
                self.types == old(self).types,
                self.masks == old(self).masks,
                self.first_empty_index == old(self).first_empty_index,
                self.cols@.len() == old(self).cols@.len(),
                forall|j: int|
                    t <= j < nt ==> #[trigger] self.cols@[j] == old(self).cols@[j],
                forall|j: int|
                    0 <= j < t ==> #[trigger] self.cols@[j]@ == old(self).cols@[j]@.push(
                        None::<T>,
                    ),
            decreases nt - t,
        {
            self.cols[t].push(None);
            t += 1;
        }
        self.masks.push(0);
        self.first_empty_index = n;
        proof {
            assert(self@ =~~= spec_create(old(self)@));
        }
        n
    }

    /// Looks up the column index of `type_key` in registration order.
    fn find_type_index(&self, type_key: u64) -> (r: Option<usize>)
        requires
            self@.wf(),
        ensures
            match r {
                Some(i) => self@.registered(type_key) && i < self@.types.len() && i as int
                    == key_index(self@.types, type_key),
                None => !self@.registered(type_key),
            },
    {
        let n = self.types.len();
        let mut i: usize = 0;
        while i < n
            invariant
                self@.wf(),
                n == self.types.len(),
                forall|j: int| 0 <= j < i ==> self.types@[j] != type_key,
            decreases n - i,
        {
            if self.types[i] == type_key {
                proof {
                    assert(self@.types.contains(type_key));
                    lemma_key_index(self@.types, type_key);
                    assert(key_index(self@.types, type_key) == i);
                }
                return Some(i);
            }
            i += 1;
        }
        None
    }

    /// The presence-mask bit assigned to `type_key`, or `None` when the
    /// key was never registered.
    pub fn get_bitmask(&self, type_key: u64) -> (r: Option<u32>)
        requires
            self@.wf(),
        ensures
            self@.registered(type_key) ==> r == Some(self@.mask_of(type_key)),
            !self@.registered(type_key) ==> r is None,
    {
        match self.find_type_index(type_key) {
            Some(i) => Some(1u32 << (i as u32)),
            None => None,
        }
    }

    /// Attaches `component` to the pending-creation cursor: stores the
    /// value in `type_key`'s column at the cursor slot (silently
    /// overwriting any previous value) and ORs the type's bit into the
    /// slot's presence mask. Fails, changing nothing, when `type_key` was
    /// never registered. Calling this before any entity slot exists would
    /// be a column-synchronization fault, so such calls are ruled out.
    pub fn with_component(&mut self, type_key: u64, component: T) -> (r: Result<
        (),
        CustomError,
    >)
        requires
            old(self)@.wf(),
            old(self)@.registered(type_key) ==> old(self)@.masks.len() > 0,
        ensures
            final(self)@.wf(),
            old(self)@.registered(type_key) ==> r == Ok::<(), CustomError>(()) && final(self)@
                == spec_attach(old(self)@, type_key, component, old(self)@.cursor),
            !old(self)@.registered(type_key) ==> r == Err::<(), CustomError>(
                CustomError::ComponentNotRegistered,
            ) && *final(self) == *old(self),
    {
        match self.find_type_index(type_key) {
            None => Err(CustomError::ComponentNotRegistered),
            Some(idx) => {
                let index = self.first_empty_index;
                self.attach_at(idx, index, type_key, component);
                Ok(())
            },
        }
    }

    /// Attaches `component` to the explicitly named slot `id`, storing the
    /// value and ORing the type's bit into that slot's presence mask.
    /// Fails, changing nothing, when `type_key` was never registered; a
    /// registered type with an out-of-range slot id is ruled out, as the
    /// columns have no entry to store into.
    pub fn add_component_by_entity_id(&mut self, id: usize, type_key: u64, component: T) -> (r:
        Result<(), CustomError>)
        requires
            old(self)@.wf(),
            old(self)@.registered(type_key) ==> id < old(self)@.masks.len(),
        ensures
            final(self)@.wf(),
            old(self)@.registered(type_key) ==> r == Ok::<(), CustomError>(()) && final(self)@
                == spec_attach(old(self)@, type_key, component, id as int),
            !old(self)@.registered(type_key) ==> r == Err::<(), CustomError>(
                CustomError::ComponentNotRegistered,
            ) && *final(self) == *old(self),
    {
        match self.find_type_index(type_key) {
            None => Err(CustomError::ComponentNotRegistered),
            Some(idx) => {
                self.attach_at(idx, id, type_key, component);
                Ok(())
            },
        }
    }

    /// Shared storing step of the two attachment operations.
    fn attach_at(&mut self, idx: usize, id: usize, type_key: u64, component: T)
        requires
            old(self)@.wf(),
            old(self)@.registered(type_key),
            idx as int == key_index(old(self)@.types, type_key),
            id < old(self)@.masks.len(),
        ensures
            final(self)@.wf(),
            final(self)@ == spec_attach(old(self)@, type_key, component, id as int),
    {
        proof {
            lemma_key_index(self@.types, type_key);
            assert(self.cols@[idx as int]@ == self@.cols[idx as int]);
            assert(self@.cols[idx as int].len() == self@.masks.len());
        }
        self.cols[idx][id] = Some(component);
        let bit = 1u32 << (idx as u32);
        self.masks[id] = self.masks[id] | bit;
        proof {
            assert(self@ =~~= spec_attach(old(self)@, type_key, component, id as int));
        }
    }

    /// Detaches `type_key` from slot `id` by toggling (XOR) the type's bit
    /// in the slot's presence mask; the stored value is left in place.
    /// Fails, changing nothing, when `type_key` was never registered; a
    /// registered type with an out-of-range slot id is ruled out, as there
    /// is no mask entry to toggle.
    pub fn delete_component_by_entity_id(&mut self, type_key: u64, id: usize) -> (r: Result<
        (),
        CustomError,
    >)
        requires
            old(self)@.wf(),
            old(self)@.registered(type_key) ==> id < old(self)@.masks.len(),
        ensures
            final(self)@.wf(),
            old(self)@.registered(type_key) ==> r == Ok::<(), CustomError>(()) && final(self)@
                == spec_detach(old(self)@, type_key, id as int),
            !old(self)@.registered(type_key) ==> r == Err::<(), CustomError>(
                CustomError::ComponentNotRegistered,
            ) && *final(self) == *old(self),
    {
        match self.find_type_index(type_key) {
            None => Err(CustomError::ComponentNotRegistered),
            Some(idx) => {
                proof {
                    lemma_key_index(self@.types, type_key);
                }
                let bit = 1u32 << (idx as u32);
                self.masks[id] = self.masks[id] ^ bit;
                proof {
                    assert(self@ =~~= spec_detach(old(self)@, type_key, id as int));
                }
                Ok(())
            },
        }
    }

    /// The number of slots in `type_key`'s column, or `None` when the key
    /// was never registered. Always equal to the slot count once any
    /// entity exists.
    pub fn column_len(&self, type_key: u64) -> (r: Option<usize>)
        requires
            self@.wf(),
        ensures
            self@.registered(type_key) ==> r == Some(
                self@.cols[key_index(self@.types, type_key)].len() as usize,
            ),
            !self@.registered(type_key) ==> r is None,
    {
        match self.find_type_index(type_key) {
            None => None,
            Some(idx) => {
                proof {
                    assert(self.cols@[idx as int]@ == self@.cols[idx as int]);
                }
                Some(self.cols[idx].len())
            },
        }
    }

    /// The raw entry of `type_key`'s column at slot `id` — the stored
    /// value whether or not the presence bit is set, so stale values of
    /// deleted or detached components are visible here. `None` when the
    /// key was never registered, the slot is out of range, or nothing was
    /// ever stored there.
    pub fn get_component(&self, type_key: u64, id: usize) -> (r: Option<&T>)
        requires
            self@.wf(),
        ensures
            ({
                let t = key_index(self@.types, type_key);
                if self@.registered(type_key) && id < self@.cols[t].len() && self@.cols[t][
                    id as int
                ] is Some {
                    match r {
                        Some(v) => Some(*v) == self@.cols[t][id as int],
                        None => false,
                    }
                } else {
                    r is None
                }
            }),
    {
        match self.find_type_index(type_key) {
            None => None,
            Some(idx) => {
                proof {
                    assert(self.cols@[idx as int]@ == self@.cols[idx as int]);
                }
                if id < self.cols[idx].len() {
                    self.cols[idx][id].as_ref()
                } else {
                    None
                }
            },
        }
    }

    /// The presence bitmask of slot `id`, or `None` when `id` is out of
    /// range.
    pub fn entity_mask(&self, id: usize) -> (r: Option<u32>)
        requires
            self@.wf(),
        ensures
            id < self@.masks.len() ==> r == Some(self@.masks[id as int]),
            id >= self@.masks.len() ==> r is None,
    {
        if id < self.masks.len() {
            Some(self.masks[id])
        } else {
            None
        }
    }

    /// Marks slot `id` deleted by zeroing its presence mask, logically
    /// detaching all components in one step; column values stay behind as
    /// stale data. Fails with `EntityDoesNotExist` when `id` is out of
    /// range.
    pub fn delete_by_id(&mut self, id: usize) -> (r: Result<(), CustomError>)
        requires
            old(self)@.wf(),
        ensures
            final(self)@.wf(),
            id < old(self)@.masks.len() ==> r == Ok::<(), CustomError>(()) && final(self)@
                == spec_delete(old(self)@, id as int),
            id >= old(self)@.masks.len() ==> r == Err::<(), CustomError>(
                CustomError::EntityDoesNotExist,
            ) && *final(self) == *old(self),
    {
        if id < self.masks.len() {
            self.masks[id] = 0;
            proof {
                assert(self@ =~~= spec_delete(old(self)@, id as int));
            }
            Ok(())
        } else {
            Err(CustomError::EntityDoesNotExist)
        }
    }
}

} // verus!
