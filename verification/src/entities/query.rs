use crate::custom_errors::CustomError;
use crate::entities::{key_index, lemma_key_index, Entities, EntitiesView};
use vstd::prelude::*;

verus! {

/// A slot matches a query when its presence mask contains every bit of
/// the query mask (a superset test: extra components do not disqualify).
pub open spec fn match_mask(m: u32, q: u32) -> bool {
    m & q == q
}

/// The ascending sequence of slot indices below `n` whose presence masks
/// contain `q`.
pub open spec fn matching_upto(masks: Seq<u32>, q: u32, n: int) -> Seq<usize>
    decreases n,
{
    if n <= 0 {
        Seq::empty()
    } else if match_mask(masks[n - 1], q) {
        matching_upto(masks, q, n - 1).push((n - 1) as usize)
    } else {
        matching_upto(masks, q, n - 1)
    }
}

/// The ascending sequence of all slot indices whose presence masks
/// contain `q`.
pub open spec fn matching(masks: Seq<u32>, q: u32) -> Seq<usize> {
    matching_upto(masks, q, masks.len() as int)
}

/// The matching slot list is sound (every listed slot is in range and
/// matches), strictly ascending, and complete (every matching slot in
/// range is listed).
pub proof fn lemma_matching_upto_props(masks: Seq<u32>, q: u32, n: int)
    requires
        0 <= n <= masks.len(),
        masks.len() <= usize::MAX,
    ensures
        forall|k: int|
            0 <= k < matching_upto(masks, q, n).len() ==> #[trigger] matching_upto(
                masks,
                q,
                n,
            )[k] < n && match_mask(masks[matching_upto(masks, q, n)[k] as int], q),
        forall|k1: int, k2: int|
            0 <= k1 < k2 < matching_upto(masks, q, n).len() ==> matching_upto(masks, q, n)[k1]
                < matching_upto(masks, q, n)[k2],
        forall|s: int|
            0 <= s < n && match_mask(masks[s], q) ==> matching_upto(masks, q, n).contains(
                s as usize,
            ),
    decreases n,
{
    if n > 0 {
        lemma_matching_upto_props(masks, q, n - 1);
        let prev = matching_upto(masks, q, n - 1);
        let cur = matching_upto(masks, q, n);
        assert forall|s: int|
            0 <= s < n && match_mask(masks[s], q) implies cur.contains(s as usize) by {
            if s < n - 1 {
                let w = choose|w: int| 0 <= w < prev.len() && prev[w] == s as usize;
                assert(cur[w] == s as usize);
            } else {
                assert(cur[cur.len() - 1] == s as usize);
            }
        }
        if match_mask(masks[n - 1], q) {
            assert forall|k1: int, k2: int|
                0 <= k1 < k2 < cur.len() implies cur[k1] < cur[k2] by {
                assert(cur[k1] == prev[k1]);
                if k2 == cur.len() - 1 {
                    assert(prev[k1] < n - 1);
                } else {
                    assert(cur[k2] == prev[k2]);
                }
            }
        }
    }
}

/// Same bounds, order and completeness for the full matching list.
pub proof fn lemma_matching_props(masks: Seq<u32>, q: u32)
    requires
        masks.len() <= usize::MAX,
    ensures
        forall|k: int|
            0 <= k < matching(masks, q).len() ==> #[trigger] matching(masks, q)[k]
                < masks.len() && match_mask(masks[matching(masks, q)[k] as int], q),
        forall|k1: int, k2: int|
            0 <= k1 < k2 < matching(masks, q).len() ==> matching(masks, q)[k1] < matching(
                masks,
                q,
            )[k2],
        forall|s: int|
            0 <= s < masks.len() && match_mask(masks[s], q) ==> matching(masks, q).contains(
                s as usize,
            ),
{
    lemma_matching_upto_props(masks, q, masks.len() as int);
}

/// For each requested type, in request order, the column values of that
/// type at exactly the matching slot indices, co-indexed with `idxs`.
pub open spec fn gathered<T>(e: EntitiesView<T>, type_ids: Seq<u64>, idxs: Seq<usize>) -> Seq<
    Seq<T>,
> {
    Seq::new(
        type_ids.len(),
        |t: int|
            Seq::new(
                idxs.len(),
                |k: int| e.cols[key_index(e.types, type_ids[t])][idxs[k] as int].unwrap(),
            ),
    )
}

/// Superset law: a query requiring the combined mask `a | b` never
/// returns a slot lacking either part, while any slot whose mask contains
/// `a | b` — additional components included — is returned.
pub proof fn lemma_query_superset(masks: Seq<u32>, a: u32, b: u32)
    requires
        masks.len() <= usize::MAX,
    ensures
        forall|k: int|
            0 <= k < matching(masks, a | b).len() ==> match_mask(
                masks[#[trigger] matching(masks, a | b)[k] as int],
                a,
            ) && match_mask(masks[matching(masks, a | b)[k] as int], b),
        forall|s: int|
            0 <= s < masks.len() && #[trigger] match_mask(masks[s], a | b) ==> matching(
                masks,
                a | b,
            ).contains(s as usize),
{
    lemma_matching_props(masks, a | b);
    assert forall|k: int|
        0 <= k < matching(masks, a | b).len() implies match_mask(
        masks[#[trigger] matching(masks, a | b)[k] as int],
        a,
    ) && match_mask(masks[matching(masks, a | b)[k] as int], b) by {
        let m = masks[matching(masks, a | b)[k] as int];
        assert(m & (a | b) == (a | b) ==> m & a == a && m & b == b) by (bit_vector);
    }
}

/// Deletion law: a deleted slot (presence mask zeroed) is absent from
/// every subsequent query with a nonempty requirement.
pub proof fn lemma_delete_removes_from_queries<T>(v: EntitiesView<T>, id: int, q: u32)
    requires
        v.wf(),
        0 <= id < v.masks.len(),
        q != 0,
        v.masks.len() <= usize::MAX,
    ensures
        !matching(crate::entities::spec_delete(v, id).masks, q).contains(id as usize),
{
    let masks2 = crate::entities::spec_delete(v, id).masks;
    assert(masks2[id] == 0);
    assert(!(0u32 & q == q)) by (bit_vector)
        requires
            q != 0,
    ;
    lemma_matching_props(masks2, q);
    if matching(masks2, q).contains(id as usize) {
        let k = choose|k: int|
            0 <= k < matching(masks2, q).len() && matching(masks2, q)[k] == id as usize;
        assert(match_mask(masks2[matching(masks2, q)[k] as int], q));
    }
}

/// Reuse law: deleting a slot frees it, and when no lower slot is free
/// the next allocation reuses exactly that slot, leaving every column
/// and the slot count unchanged.
pub proof fn lemma_deleted_slot_reused<T>(v: EntitiesView<T>, id: int)
    requires
        v.wf(),
        0 <= id < v.masks.len(),
        forall|j: int| 0 <= j < id ==> v.masks[j] != 0,
    ensures
        ({
            let vd = crate::entities::spec_delete(v, id);
            let v2 = crate::entities::spec_create(vd);
            &&& v2.cursor == id
            &&& v2.masks == vd.masks
            &&& v2.cols == v.cols
            &&& v2.types == v.types
        }),
{
    let vd = crate::entities::spec_delete(v, id);
    crate::entities::lemma_first_free(vd.masks);
    assert(vd.masks[id] == 0);
    match crate::entities::first_free(vd.masks) {
        None => {},
        Some(i) => {
            if i < id {
                assert(vd.masks[i] == v.masks[i]);
            }
        },
    }
}

/// Attachment law: after attaching value `c` of registered type `key` to
/// slot `id`, a query requiring only that type returns slot `id` among
/// its results, and the returned column carries exactly `c` — not any
/// stale value — at the co-indexed position.
pub proof fn lemma_attached_entity_found<T>(v: EntitiesView<T>, key: u64, c: T, id: int)
    requires
        v.wf(),
        v.registered(key),
        0 <= id < v.masks.len(),
        v.masks.len() <= usize::MAX,
    ensures
        ({
            let v2 = crate::entities::spec_attach(v, key, c, id);
            let idxs = matching(v2.masks, v.mask_of(key));
            exists|k: int|
                0 <= k < idxs.len() && #[trigger] idxs[k] == id as usize && gathered(
                    v2,
                    seq![key],
                    idxs,
                )[0][k] == c
        }),
{
    let v2 = crate::entities::spec_attach(v, key, c, id);
    let b = v.mask_of(key);
    let idxs = matching(v2.masks, b);
    let m = v.masks[id];
    assert(v2.masks[id] == (m | b));
    assert((m | b) & b == b) by (bit_vector);
    lemma_matching_props(v2.masks, b);
    assert(idxs.contains(id as usize));
    let k = choose|k: int| 0 <= k < idxs.len() && idxs[k] == id as usize;
    lemma_key_index(v.types, key);
    let t = key_index(v.types, key);
    assert(v2.cols[t][id] == Some(c));
    assert(gathered(v2, seq![key], idxs)[0][k] == c);
}

/// Co-indexing law: the gathered result has one column per requested
/// type, each column as long as the matching-index list, and entry
/// `(t, k)` of the columns is exactly type `t`'s stored value at slot
/// `indices[k]` — every position `k` refers to one entity.
pub proof fn lemma_run_co_indexed<T>(e: EntitiesView<T>, type_ids: Seq<u64>, q: u32)
    ensures
        gathered(e, type_ids, matching(e.masks, q)).len() == type_ids.len(),
        forall|t: int|
            0 <= t < type_ids.len() ==> #[trigger] gathered(
                e,
                type_ids,
                matching(e.masks, q),
            )[t].len() == matching(e.masks, q).len(),
        forall|t: int, k: int|
            0 <= t < type_ids.len() && 0 <= k < matching(e.masks, q).len() ==> #[trigger] gathered(
                e,
                type_ids,
                matching(e.masks, q),
            )[t][k] == e.cols[key_index(e.types, type_ids[t])][matching(e.masks, q)[k] as int].unwrap(),
{
}

/// Mathematical model of a query: the accumulated query mask, the
/// requested type keys in request order, and the registry snapshot the
/// query was built against.
#[verifier::ext_equal]
#[verifier::reject_recursive_types(T)]
pub struct QueryView<T> {
    pub mask: u32,
    pub type_ids: Seq<u64>,
    pub entities: EntitiesView<T>,
}

impl<T> QueryView<T> {
    /// A query is well-formed against its snapshot when the snapshot is
    /// well-formed, every requested type key is registered there, and the
    /// query mask contains each requested type's bit.
    pub open spec fn wf(self) -> bool {
        &&& self.entities.wf()
        &&& forall|i: int|
            0 <= i < self.type_ids.len() ==> self.entities.registered(
                #[trigger] self.type_ids[i],
            )
        &&& forall|i: int|
            0 <= i < self.type_ids.len() ==> match_mask(
                self.mask,
                self.entities.mask_of(#[trigger] self.type_ids[i]),
            )
    }
}

/// A query under construction against an immutably borrowed registry
/// snapshot: requested type bits are ORed into the mask, and the type
/// keys are kept in request order to shape the result.
#[verifier::reject_recursive_types(T)]
pub struct Query<'a, T> {
    pub(crate) mask: u32,
    pub(crate) entities: &'a Entities<T>,
    pub(crate) type_ids: Vec<u64>,
}

impl<'a, T> View for Query<'a, T> {
    type V = QueryView<T>;

    open(crate) spec fn view(&self) -> QueryView<T> {
        QueryView { mask: self.mask, type_ids: self.type_ids@, entities: self.entities@ }
    }
}

impl<'a, T> Query<'a, T> {
    /// A fresh query against `entities`: empty mask, no requested types.
    pub fn new(entities: &'a Entities<T>) -> (q: Self)
        requires
            entities@.wf(),
        ensures
            q@.wf(),
            q@.mask == 0,
            q@.type_ids == Seq::<u64>::empty(),
            q@.entities == entities@,
    {
        Query { mask: 0, entities, type_ids: Vec::new() }
    }

    /// Requires component type `type_key`: ORs its bit into the query
    /// mask and appends the key to the ordered request list (duplicates
    /// allowed; order shapes the result). Fails, changing nothing, when
    /// the key was never registered in the snapshot.
    pub fn with_component(&mut self, type_key: u64) -> (r: Result<(), CustomError>)
        requires
            old(self)@.wf(),
        ensures
            final(self)@.wf(),
            final(self)@.entities == old(self)@.entities,
            old(self)@.entities.registered(type_key) ==> r == Ok::<(), CustomError>(())
                && final(self)@.mask == (old(self)@.mask | old(self)@.entities.mask_of(type_key))
                && final(self)@.type_ids == old(self)@.type_ids.push(type_key),
            !old(self)@.entities.registered(type_key) ==> r == Err::<(), CustomError>(
                CustomError::ComponentNotRegistered,
            ) && *final(self) == *old(self),
    {
        match self.entities.get_bitmask(type_key) {
            None => Err(CustomError::ComponentNotRegistered),
            Some(bit) => {
                let ghost oldmask = self.mask;
                self.mask = self.mask | bit;
                self.type_ids.push(type_key);
                proof {
                    assert forall|i: int|
                        0 <= i < self@.type_ids.len() implies self@.entities.registered(
                        #[trigger] self@.type_ids[i],
                    ) by {
                        if i < self@.type_ids.len() - 1 {
                            assert(self@.type_ids[i] == old(self)@.type_ids[i]);
                            assert(old(self)@.entities.registered(old(self)@.type_ids[i]));
                        }
                    }
                    assert forall|i: int|
                        0 <= i < self@.type_ids.len() implies match_mask(
                        self@.mask,
                        self@.entities.mask_of(#[trigger] self@.type_ids[i]),
                    ) by {
                        let c = self@.entities.mask_of(self@.type_ids[i]);
                        if i < self@.type_ids.len() - 1 {
                            assert(self@.type_ids[i] == old(self)@.type_ids[i]);
                            assert(match_mask(
                                old(self)@.mask,
                                old(self)@.entities.mask_of(old(self)@.type_ids[i]),
                            ));
                            assert(oldmask & c == c);
                        }
                        assert((oldmask | bit) & c == c) by (bit_vector)
                            requires
                                oldmask & c == c || c == bit,
                        ;
                    }
                }
                Ok(())
            },
        }
    }

    /// The accumulated query mask: the OR of the bits of every requested
    /// type so far.
    pub fn mask(&self) -> (r: u32)
        ensures
            r == self@.mask,
    {
        self.mask
    }

    /// The requested type keys, in request order.
    pub fn type_ids(&self) -> (r: &Vec<u64>)
        ensures
            r@ == self@.type_ids,
    {
        &self.type_ids
    }

    /// Runs the query against the snapshot (read-only, repeatable,
    /// deterministic): scans all slots in ascending order, keeps those
    /// whose presence mask contains the query mask, and returns the
    /// matching slot indices together with, for each requested type in
    /// request order, that type's column values at exactly those slots.
    /// Result position `k` refers to the same entity across the index
    /// list and every returned column. Every requested type's column must
    /// actually hold a value at every matching slot: a presence bit set
    /// with no stored value (possible only through a toggling detach of a
    /// component the slot never had) would leave nothing to return.
    pub fn run(&self) -> (r: (Vec<usize>, Vec<Vec<T>>)) where T: Copy
        requires
            self@.wf(),
            forall|t: int, s: int|
                0 <= t < self@.type_ids.len() && 0 <= s < self@.entities.masks.len()
                    && match_mask(self@.entities.masks[s], self@.mask)
                    ==> (#[trigger] self@.entities.cols[key_index(
                    self@.entities.types,
                    self@.type_ids[t],
                )][s]) is Some,
        ensures
            r.0@ == matching(self@.entities.masks, self@.mask),
            r.1@.map_values(|c: Vec<T>| c@) == gathered(self@.entities, self@.type_ids, r.0@),
            r.1@.len() == self@.type_ids.len(),
            forall|t: int| 0 <= t < r.1@.len() ==> (#[trigger] r.1@[t])@.len() == r.0@.len(),
    {
        let n = self.entities.masks.len();
        let mut indices: Vec<usize> = Vec::new();
        let mut s: usize = 0;
        while s < n
            invariant
                self@.wf(),
                n == self@.entities.masks.len(),
                s <= n,
                indices@ == matching_upto(self@.entities.masks, self@.mask, s as int),
            decreases n - s,
        {
            if self.entities.masks[s] & self.mask == self.mask {
                indices.push(s);
            }
            s += 1;
            assert(indices@ =~= matching_upto(self@.entities.masks, self@.mask, s as int));
        }
        proof {
            lemma_matching_props(self@.entities.masks, self@.mask);
        }
        let nt = self.type_ids.len();
        let mut results: Vec<Vec<T>> = Vec::new();
        let mut t: usize = 0;
        while t < nt
            invariant
                self@.wf(),
                forall|t2: int, s2: int|
                    0 <= t2 < self@.type_ids.len() && 0 <= s2 < self@.entities.masks.len()
                        && match_mask(self@.entities.masks[s2], self@.mask)
                        ==> (#[trigger] self@.entities.cols[key_index(
                        self@.entities.types,
                        self@.type_ids[t2],
                    )][s2]) is Some,
                nt == self@.type_ids.len(),
                t <= nt,
                indices@ == matching(self@.entities.masks, self@.mask),
                forall|k: int|
                    0 <= k < indices@.len() ==> #[trigger] indices@[k]
                        < self@.entities.masks.len() && match_mask(
                        self@.entities.masks[indices@[k] as int],
                        self@.mask,
                    ),
                results@.len() == t,
                forall|t2: int|
                    0 <= t2 < t ==> (#[trigger] results@[t2])@ == gathered(
                        self@.entities,
                        self@.type_ids,
                        indices@,
                    )[t2],
            decreases nt - t,
        {
            let key = self.type_ids[t];
            assert(self@.entities.registered(key));
            let idx = self.entities.find_type_index(key).unwrap();
            proof {
                lemma_key_index(self@.entities.types, key);
            }
            let m = indices.len();
            let mut colv: Vec<T> = Vec::new();
            let mut k: usize = 0;
            while k < m
                invariant
                    self@.wf(),
                    forall|t2: int, s2: int|
                        0 <= t2 < self@.type_ids.len() && 0 <= s2 < self@.entities.masks.len()
                            && match_mask(self@.entities.masks[s2], self@.mask)
                            ==> (#[trigger] self@.entities.cols[key_index(
                            self@.entities.types,
                            self@.type_ids[t2],
                        )][s2]) is Some,
                    t < nt,
                    nt == self@.type_ids.len(),
                    key == self@.type_ids[t as int],
                    idx < self@.entities.types.len(),
                    idx as int == key_index(self@.entities.types, key),
                    m == indices@.len(),
                    k <= m,
                    forall|k2: int|
                        0 <= k2 < indices@.len() ==> #[trigger] indices@[k2]
                            < self@.entities.masks.len() && match_mask(
                            self@.entities.masks[indices@[k2] as int],
                            self@.mask,
                        ),
                    colv@.len() == k,
                    forall|k2: int|
                        0 <= k2 < k ==> #[trigger] colv@[k2] == self@.entities.cols[idx as int][
                            indices@[k2] as int
                        ].unwrap(),
                decreases m - k,
            {
                let sidx = indices[k];
                proof {
                    assert(self@.entities.cols[idx as int][sidx as int] is Some);
                    assert(self.entities.cols@[idx as int]@ == self@.entities.cols[idx as int]);
                }
                let entry: Option<T> = self.entities.cols[idx][sidx];
                colv.push(entry.unwrap());
                k += 1;
            }
            results.push(colv);
            proof {
                assert((results@[t as int])@ =~= gathered(
                    self@.entities,
                    self@.type_ids,
                    indices@,
                )[t as int]);
            }
            t += 1;
        }
        proof {
            assert(results@.map_values(|c: Vec<T>| c@) =~= gathered(
                self@.entities,
                self@.type_ids,
                indices@,
            ));
        }
        (indices, results)
    }
}

} // verus!
