//! Spatial indices over the store, one per star category.
//!
//! An index owns a copy of the `(id, coordinate)` pairs of exactly the
//! entities of its category, in ascending id order, and answers radius
//! queries: all owned points within a closed ball of a given squared radius.
//! Entities of other categories are invisible to it.

use vstd::prelude::*;

use crate::geom::{sq_dist, sq_dist_spec, Pt};
use crate::store::{StarKind, Store};

verus! {

/// The `(id, coordinate)` pairs of the entities of `kind` among the first
/// `n` entities of the store, in ascending id order.
pub open spec fn index_entries_upto(store: Store, kind: StarKind, n: int) -> Seq<(usize, Pt)>
    decreases n,
{
    if n <= 0 {
        Seq::empty()
    } else {
        let prev = index_entries_upto(store, kind, n - 1);
        if store.kinds@[n - 1] == kind {
            prev.push((((n - 1) as usize), store.coords@[n - 1]))
        } else {
            prev
        }
    }
}

/// The result of a radius query over `entries`: each entry within squared
/// distance `r_sq` of `center`, paired with that squared distance, in entry
/// order.
pub open spec fn query_spec(entries: Seq<(usize, Pt)>, center: Pt, r_sq: u64) -> Seq<(usize, u64)>
    decreases entries.len(),
{
    if entries.len() == 0 {
        Seq::empty()
    } else {
        let rest = query_spec(entries.drop_last(), center, r_sq);
        let e = entries.last();
        let d = sq_dist_spec(e.1, center);
        if d <= r_sq {
            rest.push((e.0, d as u64))
        } else {
            rest
        }
    }
}

/// A 3-D radius-query index over the entities of one category.
pub struct SpatialIndex {
    pub kind: StarKind,
    pub entries: Vec<(usize, Pt)>,
}

impl SpatialIndex {
    /// The index holds exactly the store's entities of its category.
    pub open spec fn valid_for(self, store: Store) -> bool {
        self.entries@ == index_entries_upto(store, self.kind, store.spec_len() as int)
    }

    /// Builds the index of one category by filtering the store.
    pub fn build(store: &Store, kind: StarKind) -> (idx: SpatialIndex)
        requires
            store.wf(),
        ensures
            idx.valid_for(*store),
            idx.kind == kind,
    {
        let mut entries: Vec<(usize, Pt)> = Vec::new();
        let n = store.len();
        let mut i: usize = 0;
        while i < n
            invariant
                i <= n == store.spec_len(),
                store.wf(),
                entries@ == index_entries_upto(*store, kind, i as int),
            decreases n - i,
        {
            if kind_eq(store.kinds[i], kind) {
                entries.push((i, store.coords[i]));
            }
            i = i + 1;
        }
        SpatialIndex { kind, entries }
    }

    /// Answers a radius query: every owned point within the closed ball of
    /// squared radius `r_sq` around `center`, with its squared distance, in
    /// ascending id order.
    pub fn query(&self, center: &Pt, r_sq: u64, store: &Store) -> (r: Vec<(usize, u64)>)
        requires
            store.wf(),
            self.valid_for(*store),
            center.wf(),
        ensures
            r@ == query_spec(self.entries@, *center, r_sq),
    {
        let _sl = store.len();
        proof {
            lemma_index_entries_wf(*store, self.kind, store.spec_len() as int);
        }
        let mut out: Vec<(usize, u64)> = Vec::new();
        let n = self.entries.len();
        let mut i: usize = 0;
        while i < n
            invariant
                i <= n == self.entries@.len(),
                center.wf(),
                forall|k: int|
                    0 <= k < self.entries@.len() ==> (#[trigger] self.entries@[k]).1.wf(),
                out@ == query_spec(self.entries@.take(i as int), *center, r_sq),
            decreases n - i,
        {
            let e = &self.entries[i];
            let d = sq_dist(&e.1, center);
            if d <= r_sq {
                out.push((e.0, d));
            }
            proof {
                assert(self.entries@.take(i + 1).drop_last() =~= self.entries@.take(i as int));
            }
            i = i + 1;
        }
        proof {
            assert(self.entries@.take(n as int) =~= self.entries@);
        }
        out
    }
}

/// Category equality, as executable code.
pub fn kind_eq(a: StarKind, b: StarKind) -> (r: bool)
    ensures
        r == (a == b),
{
    match (a, b) {
        (StarKind::Unknown, StarKind::Unknown) => true,
        (StarKind::General, StarKind::General) => true,
        (StarKind::Neutron, StarKind::Neutron) => true,
        _ => false,
    }
}

/// What every entry of a category filter satisfies: a real id of the store,
/// of the filtered category, paired with its own coordinate.
pub open spec fn entry_ok(store: Store, kind: StarKind, e: (usize, Pt)) -> bool {
    &&& e.0 < store.spec_len()
    &&& store.kinds@[e.0 as int] == kind
    &&& e.1 == store.coords@[e.0 as int]
    &&& e.1.wf()
}

/// Every entry of the category filter is a well-formed point of the store.
pub proof fn lemma_index_entries_wf(store: Store, kind: StarKind, n: int)
    requires
        store.wf(),
        n <= store.spec_len() <= usize::MAX,
    ensures
        forall|j: int|
            0 <= j < index_entries_upto(store, kind, n).len() ==> entry_ok(
                store,
                kind,
                #[trigger] index_entries_upto(store, kind, n)[j],
            ),
    decreases n,
{
    if n > 0 {
        lemma_index_entries_wf(store, kind, n - 1);
        let prev = index_entries_upto(store, kind, n - 1);
        let cur = index_entries_upto(store, kind, n);
        if store.kinds@[n - 1] == kind {
            let last = (((n - 1) as usize), store.coords@[n - 1]);
            assert(cur == prev.push(last));
            assert(store.coords@[n - 1].wf());
            assert(entry_ok(store, kind, last));
            assert forall|j: int| 0 <= j < cur.len() implies entry_ok(store, kind, cur[j]) by {
                if j < prev.len() {
                    assert(cur[j] == prev[j]);
                    assert(entry_ok(store, kind, prev[j]));
                } else {
                    assert(cur[j] == last);
                }
            }
        } else {
            assert(cur == prev);
        }
    }
}

/// Every entity of the category among the first `n` appears in the filter.
pub proof fn lemma_index_entries_complete(store: Store, kind: StarKind, n: int, id: int)
    requires
        store.wf(),
        n <= store.spec_len() <= usize::MAX,
        0 <= id < n,
        store.kinds@[id] == kind,
    ensures
        index_entries_upto(store, kind, n).contains((id as usize, store.coords@[id])),
    decreases n,
{
    if id == n - 1 {
        assert(index_entries_upto(store, kind, n).last() == (id as usize, store.coords@[id]));
    } else {
        lemma_index_entries_complete(store, kind, n - 1, id);
        let prev = index_entries_upto(store, kind, n - 1);
        let j = choose|j: int| 0 <= j < prev.len() && prev[j] == (id as usize, store.coords@[id]);
        assert(index_entries_upto(store, kind, n)[j] == (id as usize, store.coords@[id]));
    }
}

/// A pair is in the query result exactly when it is an entry of the index
/// within the ball, paired with its true squared distance.
pub proof fn lemma_query_spec_membership(
    entries: Seq<(usize, Pt)>,
    center: Pt,
    r_sq: u64,
    id: usize,
    d: u64,
)
    requires
        center.wf(),
        forall|k: int| 0 <= k < entries.len() ==> (#[trigger] entries[k]).1.wf(),
    ensures
        query_spec(entries, center, r_sq).contains((id, d)) <==> exists|j: int|
            0 <= j < entries.len() && (#[trigger] entries[j]).0 == id && d == sq_dist_spec(
                entries[j].1,
                center,
            ) && d <= r_sq,
    decreases entries.len(),
{
    if entries.len() > 0 {
        lemma_query_spec_membership(entries.drop_last(), center, r_sq, id, d);
        let e = entries.last();
        let dist = sq_dist_spec(e.1, center);
        crate::geom::lemma_sq_dist_bounds(e.1, center);
        let rest = query_spec(entries.drop_last(), center, r_sq);
        if query_spec(entries, center, r_sq).contains((id, d)) {
            let j = choose|j: int|
                0 <= j < query_spec(entries, center, r_sq).len() && query_spec(
                    entries,
                    center,
                    r_sq,
                )[j] == (id, d);
            if dist <= r_sq && j == query_spec(entries, center, r_sq).len() - 1 {
                assert(entries[entries.len() - 1].0 == id && d == sq_dist_spec(
                    entries[entries.len() - 1].1,
                    center,
                ) && d <= r_sq);
            } else {
                assert(rest.contains((id, d)));
                let k = choose|k: int|
                    0 <= k < entries.drop_last().len() && (#[trigger] entries.drop_last()[k]).0
                        == id && d == sq_dist_spec(entries.drop_last()[k].1, center) && d <= r_sq;
                assert(entries[k].0 == id && d == sq_dist_spec(entries[k].1, center));
            }
        }
        if exists|j: int|
            0 <= j < entries.len() && (#[trigger] entries[j]).0 == id && d == sq_dist_spec(
                entries[j].1,
                center,
            ) && d <= r_sq {
            let j = choose|j: int|
                0 <= j < entries.len() && (#[trigger] entries[j]).0 == id && d == sq_dist_spec(
                    entries[j].1,
                    center,
                ) && d <= r_sq;
            if j == entries.len() - 1 {
                assert(query_spec(entries, center, r_sq).last() == (id, d));
                assert(query_spec(entries, center, r_sq).contains((id, d)));
            } else {
                assert(entries.drop_last()[j] == entries[j]);
                assert(rest.contains((id, d)));
                let k = choose|k: int| 0 <= k < rest.len() && rest[k] == (id, d);
                assert(query_spec(entries, center, r_sq)[k] == (id, d));
            }
        }
    }
}

/// Radius queries are exact: the returned pairs are precisely the entities
/// of the index's category whose squared distance to the center is within
/// the squared radius — the brute-force filter over that category.
pub proof fn lemma_radius_query_exact(
    store: Store,
    index: SpatialIndex,
    center: Pt,
    r_sq: u64,
    id: usize,
    d: u64,
)
    requires
        store.wf(),
        store.spec_len() <= usize::MAX,
        index.valid_for(store),
        center.wf(),
    ensures
        query_spec(index.entries@, center, r_sq).contains((id, d)) <==> {
            &&& id < store.spec_len()
            &&& store.kinds@[id as int] == index.kind
            &&& d == sq_dist_spec(store.coords@[id as int], center)
            &&& d <= r_sq
        },
{
    let n = store.spec_len() as int;
    lemma_index_entries_wf(store, index.kind, n);
    lemma_query_spec_membership(index.entries@, center, r_sq, id, d);
    if query_spec(index.entries@, center, r_sq).contains((id, d)) {
        let j = choose|j: int|
            0 <= j < index.entries@.len() && (#[trigger] index.entries@[j]).0 == id && d
                == sq_dist_spec(index.entries@[j].1, center) && d <= r_sq;
    } else {
        if id < store.spec_len() && store.kinds@[id as int] == index.kind && d == sq_dist_spec(
            store.coords@[id as int],
            center,
        ) && d <= r_sq {
            lemma_index_entries_complete(store, index.kind, n, id as int);
            let j = choose|j: int|
                0 <= j < index.entries@.len() && index.entries@[j] == (
                    id,
                    store.coords@[id as int],
                );
            assert(index.entries@[j].0 == id && d == sq_dist_spec(index.entries@[j].1, center));
            assert(false);
        }
    }
}

} // verus!
