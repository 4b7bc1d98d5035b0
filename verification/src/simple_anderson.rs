//! The constraint-generation engine: per-instance traversal that
//! allocates one location per declared local, walks the statements of
//! every basic block, and emits constraints by peeling indirections.
//! Its contracts state that the traversal computes exactly the model in
//! `semantics`: the same locations, the same constraint set, the same
//! reported failures.

use vstd::prelude::*;

use crate::constraints::{
    lemma_constraint_view_injective, Constraint, ConstraintView, Location, LocationFactory, NodeId,
    Ty,
};
use crate::errors::SimpleAndersonError;
use crate::ir::{
    all_derefs, body_wf, operand_is_ptr_spec, operand_wf, place_is_ptr_spec, place_ty, place_wf,
    stmt_wf, Body, MirPlace, Operand, Rvalue, Statement,
};
use crate::semantics::{
    assign_fresh, assign_place_fresh, body_result, chain, chain_end, id_locs, init_state,
    lemma_ptp_fresh_base_free, lemma_run_blocks_concat, lemma_run_blocks_n_mono,
    lemma_run_blocks_snoc, lemma_run_stmts_concat, lemma_run_stmts_n_mono, lemma_run_stmts_snoc,
    lemma_step_n, lemma_to_set_concat, lemma_to_set_empty, lemma_to_set_push, ptp_fresh, ptp_pairs,
    ref_fresh, ref_pairs, ref_step, ref_stmt_fresh, run_blocks, run_stmts, step, stmt_fresh,
    AbsPlace, GenState,
};

verus! {

/// A lowered place: a base location and the number of dereferences
/// applied to it.
#[derive(Clone, Copy, Debug)]
pub struct Place {
    pub base: Location,
    pub deref_count: usize,
}

impl View for Place {
    type V = AbsPlace;

    open spec fn view(&self) -> AbsPlace {
        AbsPlace { base: self.base.id as int, depth: self.deref_count as nat }
    }
}

/// Whether some element of the bucket has the given view.
pub open spec fn bucket_has(b: Seq<Constraint>, a: ConstraintView) -> bool {
    exists|k: int| 0 <= k < b.len() && b[k]@ == a
}

/// The mathematical image of a flattened `(location id, constraint)`
/// sequence.
pub open spec fn pair_views(s: Seq<(usize, Constraint)>) -> Seq<(int, ConstraintView)> {
    Seq::new(s.len(), |k: int| (s[k].0 as int, s[k].1@))
}

/// Lookup in the memoization table, first entry with the key winning.
pub open spec fn find_locs(entries: Seq<(u64, Vec<Location>)>, key: u64) -> Option<Seq<Location>>
    decreases entries.len(),
{
    if entries.len() == 0 {
        None
    } else if entries[0].0 == key {
        Some(entries[0].1@)
    } else {
        find_locs(entries.drop_first(), key)
    }
}

/// The location ids of a location table, in order.
pub open spec fn ids_of(locs: Seq<Location>) -> Seq<int> {
    Seq::new(locs.len(), |i: int| locs[i].id as int)
}

/// The engine. One `analyze` call clears all state, visits one
/// instance's body, and leaves a read-only constraint snapshot behind.
pub struct SimpleAnderson {
    location_factory: LocationFactory,
    /// analysis call stack: instances whose traversal is in progress
    call_stack: Vec<u64>,
    /// constraint bucket per location, indexed by location id
    constraints: Vec<Vec<Constraint>>,
    /// memoization: instance key to its ordered location table
    local_var_map: Vec<(u64, Vec<Location>)>,
    /// failures reported during the current run, in order
    errors: Vec<SimpleAndersonError>,
}

impl SimpleAnderson {
    /// Number of allocated locations.
    pub closed spec fn n_spec(self) -> int {
        self.location_factory.count_spec()
    }

    /// Type tags of the allocated locations, in id order.
    pub closed spec fn loc_types(self) -> Seq<Option<Ty>> {
        self.location_factory.types_seq()
    }

    /// Failures reported so far, in order.
    pub closed spec fn errs(self) -> Seq<SimpleAndersonError> {
        self.errors@
    }

    /// The analysis call stack.
    pub closed spec fn stack(self) -> Seq<u64> {
        self.call_stack@
    }

    /// The memoization table: instance key and location table per entry.
    pub closed spec fn memo(self) -> Seq<(u64, Seq<Location>)> {
        Seq::new(self.local_var_map@.len(), |i: int| (self.local_var_map@[i].0, self.local_var_map@[i].1@))
    }

    /// The emitted `(sink location, constraint)` pairs, as a set.
    pub closed spec fn pairs(self) -> Set<(int, ConstraintView)> {
        Set::new(
            |p: (int, ConstraintView)|
                0 <= p.0 < self.constraints@.len() && bucket_has(self.constraints@[p.0]@, p.1),
        )
    }

    /// The whole observable generator state.
    pub open spec fn gen_state(self) -> GenState {
        GenState { types: self.loc_types(), cs: self.pairs(), errs: self.errs() }
    }

    /// Internal consistency: one bucket per location, and no bucket
    /// holds the same constraint twice.
    pub closed spec fn wf(self) -> bool {
        &&& self.constraints@.len() == self.loc_types().len()
        &&& forall|i: int, k1: int, k2: int|
            0 <= i < self.constraints@.len() && 0 <= k1 < k2 < self.constraints@[i]@.len()
                ==> (#[trigger] self.constraints@[i]@[k1])@ != (#[trigger] self.constraints@[i]@[k2])@
    }

    /// The location table of the instance on top of the call stack.
    pub closed spec fn cur_locs(self) -> Option<Seq<Location>> {
        find_locs(self.local_var_map@, self.stack().last())
    }

    pub fn new() -> (r: SimpleAnderson)
        ensures
            r.wf(),
            r.gen_state() == (GenState {
                types: Seq::<Option<Ty>>::empty(),
                cs: Set::<(int, ConstraintView)>::empty(),
                errs: Seq::<SimpleAndersonError>::empty(),
            }),
            r.stack() == Seq::<u64>::empty(),
            r.memo() == Seq::<(u64, Seq<Location>)>::empty(),
    {
        let r = SimpleAnderson {
            location_factory: LocationFactory::new(),
            call_stack: Vec::new(),
            constraints: Vec::new(),
            local_var_map: Vec::new(),
            errors: Vec::new(),
        };
        proof {
            assert(r.pairs() =~= Set::<(int, ConstraintView)>::empty());
            assert(r.memo() =~= Seq::<(u64, Seq<Location>)>::empty());
        }
        r
    }

    /// Resets every internal table: locations, buckets, memoization,
    /// call stack, and the failure log.
    pub fn clear(&mut self)
        ensures
            final(self).wf(),
            final(self).gen_state() == (GenState {
                types: Seq::<Option<Ty>>::empty(),
                cs: Set::<(int, ConstraintView)>::empty(),
                errs: Seq::<SimpleAndersonError>::empty(),
            }),
            final(self).stack() == Seq::<u64>::empty(),
            final(self).memo() == Seq::<(u64, Seq<Location>)>::empty(),
    {
        self.location_factory.clear();
        self.call_stack.clear();
        self.constraints.clear();
        self.local_var_map.clear();
        self.errors.clear();
        proof {
            assert(self.pairs() =~= Set::<(int, ConstraintView)>::empty());
            assert(self.memo() =~= Seq::<(u64, Seq<Location>)>::empty());
        }
    }

    /// Current number of allocated locations: one per entry of the
    /// observable type-tag sequence (ids are dense and 0-based).
    pub fn num_locations(&self) -> (r: usize)
        ensures
            r == self.n_spec(),
            r == self.gen_state().types.len(),
    {
        self.location_factory.num_locations()
    }

    /// The views of one bucket's constraints, each paired with its
    /// sink location id.
    spec fn bucket_views(self, j: int) -> Seq<(int, ConstraintView)> {
        Seq::new(self.constraints@[j]@.len(), |k: int| (j, self.constraints@[j]@[k]@))
    }

    /// The flattened snapshot of the first `i` buckets, in ascending
    /// location-id order.
    spec fn flat_upto(self, i: int) -> Seq<(int, ConstraintView)>
        decreases i,
    {
        if i <= 0 {
            Seq::empty()
        } else {
            self.flat_upto(i - 1) + self.bucket_views(i - 1)
        }
    }

    /// The flattened snapshot: ascending by location id, each pair at
    /// most once, and exactly the pairs of `pairs()`.
    proof fn lemma_flat_props(self, i: int)
        requires
            self.wf(),
            0 <= i <= self.constraints@.len(),
        ensures
            forall|k: int|
                0 <= k < self.flat_upto(i).len() ==> 0 <= (#[trigger] self.flat_upto(i)[k]).0 < i
                    && bucket_has(
                    self.constraints@[self.flat_upto(i)[k].0]@,
                    self.flat_upto(i)[k].1,
                ),
            forall|k1: int, k2: int|
                #![trigger self.flat_upto(i)[k1], self.flat_upto(i)[k2]]
                0 <= k1 < k2 < self.flat_upto(i).len() ==> self.flat_upto(i)[k1].0 <= self.flat_upto(
                    i,
                )[k2].0 && self.flat_upto(i)[k1] != self.flat_upto(i)[k2],
            forall|id: int, a: ConstraintView|
                0 <= id < i && #[trigger] bucket_has(self.constraints@[id]@, a) ==> self.flat_upto(
                    i,
                ).contains((id, a)),
        decreases i,
    {
        if i > 0 {
            self.lemma_flat_props(i - 1);
            let prev = self.flat_upto(i - 1);
            let bv = self.bucket_views(i - 1);
            let cur = self.flat_upto(i);
            assert(cur == prev + bv);
            assert forall|k: int| 0 <= k < cur.len() implies 0 <= (#[trigger] cur[k]).0 < i
                && bucket_has(self.constraints@[cur[k].0]@, cur[k].1) by {
                if k < prev.len() {
                    assert(cur[k] == prev[k]);
                } else {
                    assert(cur[k] == bv[k - prev.len()]);
                    assert(self.constraints@[i - 1]@[k - prev.len()]@ == cur[k].1);
                }
            }
            assert forall|k1: int, k2: int|
                #![trigger cur[k1], cur[k2]]
                0 <= k1 < k2 < cur.len() implies cur[k1].0 <= cur[k2].0 && cur[k1] != cur[k2] by {
                if k2 < prev.len() {
                    assert(cur[k1] == prev[k1] && cur[k2] == prev[k2]);
                } else if k1 >= prev.len() {
                    assert(cur[k1] == bv[k1 - prev.len()] && cur[k2] == bv[k2 - prev.len()]);
                    assert(cur[k1].1 != cur[k2].1);
                } else {
                    assert(cur[k1] == prev[k1] && cur[k2] == bv[k2 - prev.len()]);
                    assert(cur[k1].0 < i - 1 && cur[k2].0 == i - 1);
                }
            }
            assert forall|id: int, a: ConstraintView|
                0 <= id < i && #[trigger] bucket_has(self.constraints@[id]@, a) implies cur
                .contains((id, a)) by {
                if id < i - 1 {
                    let k = choose|k: int| 0 <= k < prev.len() && prev[k] == (id, a);
                    assert(cur[k] == (id, a));
                } else {
                    let k = choose|k: int|
                        0 <= k < self.constraints@[id]@.len() && self.constraints@[id]@[k]@ == a;
                    assert(cur[prev.len() + k] == (id, a));
                }
            }
        }
    }

    /// The flattened `(location id, constraint)` snapshot for the
    /// downstream solver: every emitted pair exactly once, in ascending
    /// location-id order (unordered within one location's bucket).
    pub fn constraints(&self) -> (r: Vec<(usize, Constraint)>)
        requires
            self.wf(),
        ensures
            pair_views(r@).to_set() == self.pairs(),
            forall|k1: int, k2: int|
                #![trigger r@[k1], r@[k2]]
                0 <= k1 < k2 < r@.len() ==> r@[k1].0 <= r@[k2].0,
            forall|k1: int, k2: int|
                #![trigger r@[k1], r@[k2]]
                0 <= k1 < k2 < r@.len() ==> !(r@[k1].0 == r@[k2].0 && r@[k1].1 == r@[k2].1),
    {
        let mut out: Vec<(usize, Constraint)> = Vec::new();
        let n = self.constraints.len();
        let mut i: usize = 0;
        proof {
            assert(pair_views(out@) =~= Seq::<(int, ConstraintView)>::empty());
        }
        while i < n
            invariant
                i <= n,
                n == self.constraints@.len(),
                pair_views(out@) == self.flat_upto(i as int),
            decreases n - i,
        {
            let bucket = &self.constraints[i];
            let m = bucket.len();
            let mut k: usize = 0;
            proof {
                assert(self.bucket_views(i as int).take(0) =~= Seq::<
                    (int, ConstraintView),
                >::empty());
                assert(pair_views(out@) + self.bucket_views(i as int).take(0) =~= pair_views(out@));
            }
            while k < m
                invariant
                    k <= m,
                    i < n,
                    n == self.constraints@.len(),
                    m == self.constraints@[i as int]@.len(),
                    bucket == &self.constraints[i as int],
                    pair_views(out@) == self.flat_upto(i as int) + self.bucket_views(
                        i as int,
                    ).take(k as int),
                decreases m - k,
            {
                let c = bucket[k];
                out.push((i, c));
                proof {
                    let prev = self.flat_upto(i as int) + self.bucket_views(i as int).take(
                        k as int,
                    );
                    assert(pair_views(out@) =~= prev.push((i as int, c@)));
                    assert(self.bucket_views(i as int).take(k + 1) =~= self.bucket_views(
                        i as int,
                    ).take(k as int).push((i as int, c@)));
                    assert(self.flat_upto(i as int) + self.bucket_views(i as int).take(k + 1) =~= prev
                        .push((i as int, c@)));
                }
                k = k + 1;
            }
            proof {
                assert(self.bucket_views(i as int).take(m as int) =~= self.bucket_views(i as int));
                assert(self.flat_upto(i + 1) == self.flat_upto(i as int) + self.bucket_views(
                    i as int,
                ));
            }
            i = i + 1;
        }
        proof {
            self.lemma_flat_props(n as int);
            let fl = self.flat_upto(n as int);
            assert forall|p: (int, ConstraintView)| fl.to_set().contains(p) implies self.pairs()
                .contains(p) by {
                let k = choose|k: int| 0 <= k < fl.len() && fl[k] == p;
            }
            assert forall|p: (int, ConstraintView)| self.pairs().contains(p) implies fl.to_set()
                .contains(p) by {
                assert(bucket_has(self.constraints@[p.0]@, p.1));
                assert(fl.contains((p.0, p.1)));
                assert(p == (p.0, p.1));
            }
            assert(pair_views(out@).to_set() =~= self.pairs());
            assert forall|k1: int, k2: int|
                #![trigger out@[k1], out@[k2]]
                0 <= k1 < k2 < out@.len() implies out@[k1].0 <= out@[k2].0 && !(out@[k1].0
                == out@[k2].0 && out@[k1].1 == out@[k2].1) by {
                assert(fl[k1] == (out@[k1].0 as int, out@[k1].1@));
                assert(fl[k2] == (out@[k2].0 as int, out@[k2].1@));
                lemma_constraint_view_injective(out@[k1].1, out@[k2].1);
            }
        }
        out
    }

    /// The failures reported by the last run, in report order.
    pub fn errors(&self) -> (r: &Vec<SimpleAndersonError>)
        ensures
            r@ == self.errs(),
    {
        &self.errors
    }

    /// Allocates a fresh location and, atomically with it, its empty
    /// constraint bucket.
    fn gen_location(&mut self, ty: Option<Ty>) -> (r: Location)
        requires
            old(self).wf(),
            old(self).n_spec() < usize::MAX,
        ensures
            final(self).wf(),
            final(self).loc_types() == old(self).loc_types().push(ty),
            final(self).pairs() == old(self).pairs(),
            final(self).errs() == old(self).errs(),
            final(self).stack() == old(self).stack(),
            final(self).local_var_map == old(self).local_var_map,
            r.id == old(self).n_spec(),
            r.ty == ty,
    {
        self.constraints.push(Vec::new());
        let r = self.location_factory.next(ty);
        proof {
            let a = self.pairs();
            let b = old(self).pairs();
            assert forall|p: (int, ConstraintView)| a.contains(p) implies b.contains(p) by {
                if p.0 < old(self).constraints@.len() {
                } else {
                    assert(self.constraints@[p.0]@.len() == 0);
                }
            }
            assert(a =~= b);
        }
        r
    }

    /// Whether some element of the bucket equals the constraint.
    fn bucket_contains(bucket: &Vec<Constraint>, c: Constraint) -> (r: bool)
        ensures
            r == bucket_has(bucket@, c@),
    {
        let n = bucket.len();
        let mut i: usize = 0;
        while i < n
            invariant
                0 <= i <= n,
                n == bucket@.len(),
                forall|j: int| 0 <= j < i ==> (#[trigger] bucket@[j])@ != c@,
            decreases n - i,
        {
            if bucket[i] == c {
                return true;
            }
            proof {
                lemma_constraint_view_injective(bucket@[i as int], c);
            }
            i = i + 1;
        }
        false
    }

    /// Inserts a constraint into the sink's bucket, set-style: a pair
    /// already present is not duplicated.
    fn add_constraint(&mut self, dst_id: NodeId, constraint: Constraint)
        requires
            old(self).wf(),
            dst_id < old(self).n_spec(),
        ensures
            final(self).wf(),
            final(self).pairs() == old(self).pairs().insert((dst_id as int, constraint@)),
            final(self).loc_types() == old(self).loc_types(),
            final(self).errs() == old(self).errs(),
            final(self).stack() == old(self).stack(),
            final(self).local_var_map == old(self).local_var_map,
    {
        let present = Self::bucket_contains(&self.constraints[dst_id], constraint);
        if !present {
            self.constraints[dst_id].push(constraint);
            proof {
                let a = self.pairs();
                let b = old(self).pairs();
                let obs = old(self).constraints@;
                let nbs = self.constraints@;
                let pr = (dst_id as int, constraint@);
                assert(nbs[dst_id as int]@ == obs[dst_id as int]@.push(constraint));
                assert forall|p: (int, ConstraintView)| a.contains(p) implies b.insert(pr).contains(
                    p,
                ) by {
                    if p.0 == dst_id as int {
                        let k = choose|k: int| 0 <= k < nbs[p.0]@.len() && nbs[p.0]@[k]@ == p.1;
                        if k < obs[p.0]@.len() {
                            assert(obs[p.0]@[k]@ == p.1);
                        }
                    }
                }
                assert forall|p: (int, ConstraintView)| b.insert(pr).contains(p) implies a.contains(
                    p,
                ) by {
                    if p == pr {
                        let k = obs[dst_id as int]@.len() as int;
                        assert(nbs[dst_id as int]@[k]@ == constraint@);
                    } else {
                        let k = choose|k: int| 0 <= k < obs[p.0]@.len() && obs[p.0]@[k]@ == p.1;
                        assert(nbs[p.0]@[k]@ == p.1);
                    }
                }
                assert(a =~= b.insert(pr));
            }
        } else {
            proof {
                let pr = (dst_id as int, constraint@);
                assert(old(self).pairs().contains(pr));
                assert(self.pairs() =~= old(self).pairs().insert(pr));
            }
        }
    }

    /// Whether this instance was already analyzed in the current run.
    fn analyzed(&self, instance: u64) -> (r: bool)
        ensures
            r == (find_locs(self.local_var_map@, instance) is Some),
    {
        let n = self.local_var_map.len();
        let mut i: usize = 0;
        proof {
            assert(self.local_var_map@.skip(0) =~= self.local_var_map@);
        }
        while i < n
            invariant
                0 <= i <= n,
                n == self.local_var_map@.len(),
                find_locs(self.local_var_map@, instance) == find_locs(
                    self.local_var_map@.skip(i as int),
                    instance,
                ),
            decreases n - i,
        {
            proof {
                assert(self.local_var_map@.skip(i as int)[0] == self.local_var_map@[i as int]);
                assert(self.local_var_map@.skip(i as int).drop_first() =~= self.local_var_map@.skip(
                    i + 1,
                ));
            }
            if self.local_var_map[i].0 == instance {
                return true;
            }
            i = i + 1;
        }
        proof {
            assert(self.local_var_map@.skip(n as int) =~= Seq::<(u64, Vec<Location>)>::empty());
        }
        false
    }

    /// The location allocated for a local of the instance on top of the
    /// call stack.
    fn local_to_location(&self, local: usize) -> (r: Location)
        requires
            self.stack().len() > 0,
            self.cur_locs() is Some,
            local < self.cur_locs()->Some_0.len(),
        ensures
            r == self.cur_locs()->Some_0[local as int],
    {
        let top = self.call_stack[self.call_stack.len() - 1];
        proof {
            assert(top == self.stack().last());
        }
        let n = self.local_var_map.len();
        let mut i: usize = 0;
        proof {
            assert(self.local_var_map@.skip(0) =~= self.local_var_map@);
        }
        while i < n
            invariant
                0 <= i <= n,
                n == self.local_var_map@.len(),
                top == self.stack().last(),
                self.cur_locs() is Some,
                local < self.cur_locs()->Some_0.len(),
                find_locs(self.local_var_map@, top) == find_locs(
                    self.local_var_map@.skip(i as int),
                    top,
                ),
            decreases n - i,
        {
            proof {
                assert(self.local_var_map@.skip(i as int)[0] == self.local_var_map@[i as int]);
                assert(self.local_var_map@.skip(i as int).drop_first() =~= self.local_var_map@.skip(
                    i + 1,
                ));
            }
            if self.local_var_map[i].0 == top {
                return self.local_var_map[i].1[local];
            }
            i = i + 1;
        }
        proof {
            assert(self.local_var_map@.skip(n as int) =~= Seq::<(u64, Vec<Location>)>::empty());
            assert(false);
        }
        unreached()
    }

    /// Lowers a surface place into `(base location, indirection depth)`.
    /// Only dereference projections are supported; any other projection
    /// kind fails with the unsupported-projection condition.
    fn lower_mir_place(&self, place: &MirPlace) -> (r: Result<Place, SimpleAndersonError>)
        requires
            self.stack().len() > 0,
            self.cur_locs() is Some,
            place.local < self.cur_locs()->Some_0.len(),
        ensures
            match r {
                Ok(p) => all_derefs(place.projection@) && p.base == self.cur_locs()->Some_0[place.local as int]
                    && p.deref_count == place.projection@.len(),
                Err(e) => !all_derefs(place.projection@) && e
                    == SimpleAndersonError::UnsupportedProjection,
            },
    {
        let base = self.local_to_location(place.local);

        let mut count: usize = 0;
        let n = place.projection.len();
        let mut i: usize = 0;
        while i < n
            invariant
                0 <= i <= n,
                n == place.projection@.len(),
                count == i,
                forall|j: int| 0 <= j < i ==> #[trigger] place.projection@[j] is Deref,
            decreases n - i,
        {
            match place.projection[i] {
                crate::ir::Projection::Deref => {
                    count = count + 1;
                },
                crate::ir::Projection::Other(_) => {
                    return Err(SimpleAndersonError::UnsupportedProjection);
                },
            }
            i = i + 1;
        }

        Ok(Place { base, deref_count: count })
    }

    /// Whether a place's type is any kind of pointer.
    fn is_place_ptr(&self, local_decls: &Vec<Ty>, place: &MirPlace) -> (r: bool)
        ensures
            r == place_is_ptr_spec(local_decls@, *place),
    {
        match place_ty(local_decls, place) {
            Some(t) => t.ptr_depth > 0,
            None => false,
        }
    }

    /// Whether an operand's type is any kind of pointer.
    fn is_operand_ptr(&self, local_decls: &Vec<Ty>, operand: &Operand) -> (r: bool)
        ensures
            r == operand_is_ptr_spec(local_decls@, *operand),
    {
        match operand {
            Operand::Copy(p) => self.is_place_ptr(local_decls, p),
            Operand::Move(p) => self.is_place_ptr(local_decls, p),
            Operand::Constant(t) => t.ptr_depth > 0,
        }
    }

    /// The central normalization routine for `dst = src`: peels residual
    /// indirection on either side by chaining `Load`s through fresh
    /// locations, then emits the one terminal constraint.
    #[verifier::loop_isolation(false)]
    fn handle_place_to_place(&mut self, dst: Place, src: Place)
        requires
            old(self).wf(),
            dst.base.id < old(self).n_spec(),
            src.base.id < old(self).n_spec(),
            old(self).n_spec() + ptp_fresh(dst@, src@) <= usize::MAX,
        ensures
            final(self).wf(),
            final(self).gen_state() == old(self).gen_state().emit(
                ptp_pairs(old(self).n_spec(), dst@, src@),
                ptp_fresh(dst@, src@),
            ),
            final(self).stack() == old(self).stack(),
            final(self).local_var_map == old(self).local_var_map,
    {
        let ghost n0 = old(self).n_spec();
        let ghost none_tag = |i: int| Option::<Ty>::None;
        if dst.deref_count == 0 && src.deref_count == 0 {
            self.add_constraint(dst.base.id, Constraint::Copy(src.base.id));
            proof {
                let pr = (dst.base.id as int, ConstraintView::Copy(src.base.id as int));
                lemma_to_set_push(Seq::<(int, ConstraintView)>::empty(), pr);
                lemma_to_set_empty::<(int, ConstraintView)>();
                assert(ptp_pairs(n0, dst@, src@) =~= Seq::empty().push(pr));
                assert(self.pairs() =~= old(self).pairs().union(
                    ptp_pairs(n0, dst@, src@).to_set(),
                ));
                assert(self.loc_types() =~= old(self).loc_types() + Seq::new(0, none_tag));
                assert(self.gen_state() =~= old(self).gen_state().emit(
                    ptp_pairs(n0, dst@, src@),
                    ptp_fresh(dst@, src@),
                ));
            }
        } else if dst.deref_count == 0 {
            let ghost sb = src.base.id as int;
            let mut cur = src;
            proof {
                lemma_to_set_empty::<(int, ConstraintView)>();
                assert(old(self).pairs().union(chain(sb, n0, 0).to_set()) =~= old(self).pairs());
                assert(old(self).loc_types() + Seq::new(0, none_tag) =~= old(self).loc_types());
            }
            while cur.deref_count > 1
                invariant
                    1 <= cur.deref_count <= src.deref_count,
                    self.wf(),
                    self.n_spec() == n0 + src.deref_count - cur.deref_count,
                    cur.base.id == chain_end(
                        sb,
                        n0,
                        (src.deref_count - cur.deref_count) as nat,
                    ),
                    self.loc_types() == old(self).loc_types() + Seq::new(
                        (src.deref_count - cur.deref_count) as nat,
                        none_tag,
                    ),
                    self.pairs() == old(self).pairs().union(
                        chain(sb, n0, (src.deref_count - cur.deref_count) as nat).to_set(),
                    ),
                    self.errs() == old(self).errs(),
                    self.stack() == old(self).stack(),
                    self.local_var_map == old(self).local_var_map,
                decreases cur.deref_count,
            {
                let ghost j = (src.deref_count - cur.deref_count) as nat;
                let next_base = self.gen_location(None);
                self.add_constraint(next_base.id, Constraint::Load(cur.base.id));
                proof {
                    let pr = (n0 + j, ConstraintView::Load(chain_end(sb, n0, j)));
                    lemma_to_set_push(chain(sb, n0, j), pr);
                    assert(chain(sb, n0, (j + 1) as nat) == chain(sb, n0, j).push(pr));
                    assert(self.pairs() =~= old(self).pairs().union(
                        chain(sb, n0, (j + 1) as nat).to_set(),
                    ));
                    assert(self.loc_types() =~= old(self).loc_types() + Seq::new(
                        (j + 1) as nat,
                        none_tag,
                    ));
                }
                cur = Place { base: next_base, deref_count: cur.deref_count - 1 };
            }
            let ghost k = (src.deref_count - 1) as nat;
            self.add_constraint(dst.base.id, Constraint::Load(cur.base.id));
            proof {
                let pr = (dst.base.id as int, ConstraintView::Load(chain_end(sb, n0, k)));
                lemma_to_set_push(chain(sb, n0, k), pr);
                assert(ptp_pairs(n0, dst@, src@) == chain(sb, n0, k).push(pr));
                assert(self.pairs() =~= old(self).pairs().union(
                    ptp_pairs(n0, dst@, src@).to_set(),
                ));
                assert(self.gen_state() =~= old(self).gen_state().emit(
                    ptp_pairs(n0, dst@, src@),
                    ptp_fresh(dst@, src@),
                ));
            }
        } else {
            let ghost sb = src.base.id as int;
            let ghost db = dst.base.id as int;
            let ghost sd = src.deref_count as nat;
            let ghost dd = dst.deref_count as nat;
            let mut cur_src = src;
            proof {
                lemma_to_set_empty::<(int, ConstraintView)>();
                assert(old(self).pairs().union(chain(sb, n0, 0).to_set()) =~= old(self).pairs());
                assert(old(self).loc_types() + Seq::new(0, none_tag) =~= old(self).loc_types());
            }
            while cur_src.deref_count >= 1
                invariant
                    cur_src.deref_count <= src.deref_count,
                    self.wf(),
                    self.n_spec() == n0 + src.deref_count - cur_src.deref_count,
                    cur_src.base.id == chain_end(
                        sb,
                        n0,
                        (src.deref_count - cur_src.deref_count) as nat,
                    ),
                    self.loc_types() == old(self).loc_types() + Seq::new(
                        (src.deref_count - cur_src.deref_count) as nat,
                        none_tag,
                    ),
                    self.pairs() == old(self).pairs().union(
                        chain(sb, n0, (src.deref_count - cur_src.deref_count) as nat).to_set(),
                    ),
                    self.errs() == old(self).errs(),
                    self.stack() == old(self).stack(),
                    self.local_var_map == old(self).local_var_map,
                decreases cur_src.deref_count,
            {
                let ghost j = (src.deref_count - cur_src.deref_count) as nat;
                let next_base = self.gen_location(None);
                self.add_constraint(next_base.id, Constraint::Load(cur_src.base.id));
                proof {
                    let pr = (n0 + j, ConstraintView::Load(chain_end(sb, n0, j)));
                    lemma_to_set_push(chain(sb, n0, j), pr);
                    assert(chain(sb, n0, (j + 1) as nat) == chain(sb, n0, j).push(pr));
                    assert(self.pairs() =~= old(self).pairs().union(
                        chain(sb, n0, (j + 1) as nat).to_set(),
                    ));
                    assert(self.loc_types() =~= old(self).loc_types() + Seq::new(
                        (j + 1) as nat,
                        none_tag,
                    ));
                }
                cur_src = Place { base: next_base, deref_count: cur_src.deref_count - 1 };
            }
            let mut cur_dst = dst;
            proof {
                lemma_to_set_empty::<(int, ConstraintView)>();
                assert(self.pairs().union(chain(db, n0 + sd, 0).to_set()) =~= self.pairs());
            }
            let ghost mid_pairs = self.pairs();
            while cur_dst.deref_count > 1
                invariant
                    1 <= cur_dst.deref_count <= dst.deref_count,
                    self.wf(),
                    self.n_spec() == n0 + sd + dst.deref_count - cur_dst.deref_count,
                    cur_dst.base.id == chain_end(
                        db,
                        n0 + sd,
                        (dst.deref_count - cur_dst.deref_count) as nat,
                    ),
                    self.loc_types() == old(self).loc_types() + Seq::new(
                        (sd + dst.deref_count - cur_dst.deref_count) as nat,
                        none_tag,
                    ),
                    mid_pairs == old(self).pairs().union(chain(sb, n0, sd).to_set()),
                    self.pairs() == mid_pairs.union(
                        chain(db, n0 + sd, (dst.deref_count - cur_dst.deref_count) as nat).to_set(),
                    ),
                    self.errs() == old(self).errs(),
                    self.stack() == old(self).stack(),
                    self.local_var_map == old(self).local_var_map,
                decreases cur_dst.deref_count,
            {
                let ghost j = (dst.deref_count - cur_dst.deref_count) as nat;
                let next_base = self.gen_location(None);
                self.add_constraint(next_base.id, Constraint::Load(cur_dst.base.id));
                proof {
                    let pr = (n0 + sd + j, ConstraintView::Load(chain_end(db, n0 + sd, j)));
                    lemma_to_set_push(chain(db, n0 + sd, j), pr);
                    assert(chain(db, n0 + sd, (j + 1) as nat) == chain(db, n0 + sd, j).push(pr));
                    assert(self.pairs() =~= mid_pairs.union(
                        chain(db, n0 + sd, (j + 1) as nat).to_set(),
                    ));
                    assert(self.loc_types() =~= old(self).loc_types() + Seq::new(
                        (sd + j + 1) as nat,
                        none_tag,
                    ));
                }
                cur_dst = Place { base: next_base, deref_count: cur_dst.deref_count - 1 };
            }
            let ghost k = (dd - 1) as nat;
            self.add_constraint(cur_dst.base.id, Constraint::Store(cur_src.base.id));
            proof {
                let pr = (chain_end(db, n0 + sd, k), ConstraintView::Store(chain_end(sb, n0, sd)));
                lemma_to_set_push(chain(db, n0 + sd, k), pr);
                lemma_to_set_concat(chain(sb, n0, sd), chain(db, n0 + sd, k).push(pr));
                assert(ptp_pairs(n0, dst@, src@) == chain(sb, n0, sd) + chain(db, n0 + sd, k).push(
                    pr,
                ));
                assert(self.pairs() =~= old(self).pairs().union(
                    ptp_pairs(n0, dst@, src@).to_set(),
                ));
                assert(self.loc_types() =~= old(self).loc_types() + Seq::new(
                    ptp_fresh(dst@, src@),
                    none_tag,
                ));
                assert(self.gen_state() =~= old(self).gen_state().emit(
                    ptp_pairs(n0, dst@, src@),
                    ptp_fresh(dst@, src@),
                ));
            }
        }
    }

    /// Handles `dst = &src` and `dst = addr_of(src)`. The destination of
    /// a reference-forming assignment is pointer-typed by construction
    /// of the representation; a violation would be a producer bug, so it
    /// is excluded by precondition rather than recovered from.
    #[verifier::loop_isolation(false)]
    fn handle_ref(&mut self, local_decls: &Vec<Ty>, dst: &MirPlace, src: &MirPlace)
        requires
            old(self).wf(),
            old(self).stack().len() > 0,
            old(self).cur_locs() is Some,
            old(self).cur_locs()->Some_0.len() == local_decls@.len(),
            forall|j: int|
                0 <= j < old(self).cur_locs()->Some_0.len()
                    ==> (#[trigger] old(self).cur_locs()->Some_0[j]).id < old(self).n_spec(),
            place_wf(local_decls@, *dst),
            place_wf(local_decls@, *src),
            place_is_ptr_spec(local_decls@, *dst),
            old(self).n_spec() + ref_stmt_fresh(*dst, *src) <= usize::MAX,
        ensures
            final(self).wf(),
            final(self).gen_state() == ref_step(
                old(self).gen_state(),
                ids_of(old(self).cur_locs()->Some_0),
                *dst,
                *src,
            ),
            final(self).stack() == old(self).stack(),
            final(self).local_var_map == old(self).local_var_map,
    {
        let ghost n0 = old(self).n_spec();
        let ghost none_tag = |i: int| Option::<Ty>::None;
        let dst_is_ptr = self.is_place_ptr(local_decls, dst);
        assert(dst_is_ptr);

        let dst_l = match self.lower_mir_place(dst) {
            Ok(p) => p,
            Err(e) => {
                self.errors.push(e);
                proof {
                    assert(self.gen_state() =~= old(self).gen_state().add_err(
                        SimpleAndersonError::UnsupportedProjection,
                    ));
                }
                return ;
            },
        };
        let src_l = match self.lower_mir_place(src) {
            Ok(p) => p,
            Err(e) => {
                self.errors.push(e);
                proof {
                    assert(self.gen_state() =~= old(self).gen_state().add_err(
                        SimpleAndersonError::UnsupportedProjection,
                    ));
                }
                return ;
            },
        };
        proof {
            lemma_ptp_fresh_base_free(
                AbsPlace { base: 0, depth: dst.projection@.len() },
                dst_l@,
                AbsPlace { base: 0, depth: src.projection@.len() },
                src_l@,
            );
        }

        if src_l.deref_count == 0 {
            if dst_l.deref_count == 0 {
                self.add_constraint(dst_l.base.id, Constraint::AddrOf(src_l.base.id));
                proof {
                    let pr = (dst_l.base.id as int, ConstraintView::AddrOf(src_l.base.id as int));
                    lemma_to_set_push(Seq::<(int, ConstraintView)>::empty(), pr);
                    lemma_to_set_empty::<(int, ConstraintView)>();
                    assert(ref_pairs(n0, dst_l@, src_l@) =~= Seq::empty().push(pr));
                    assert(self.pairs() =~= old(self).pairs().union(
                        ref_pairs(n0, dst_l@, src_l@).to_set(),
                    ));
                    assert(self.loc_types() =~= old(self).loc_types() + Seq::new(0, none_tag));
                    assert(self.gen_state() =~= old(self).gen_state().emit(
                        ref_pairs(n0, dst_l@, src_l@),
                        ref_fresh(dst_l@, src_l@),
                    ));
                }
            } else {
                let ghost db = dst_l.base.id as int;
                let ghost sb = src_l.base.id as int;
                let mut current_dst = dst_l;
                proof {
                    lemma_to_set_empty::<(int, ConstraintView)>();
                    assert(old(self).pairs().union(chain(db, n0, 0).to_set()) =~= old(
                        self,
                    ).pairs());
                    assert(old(self).loc_types() + Seq::new(0, none_tag) =~= old(
                        self,
                    ).loc_types());
                }
                while current_dst.deref_count > 1
                    invariant
                        1 <= current_dst.deref_count <= dst_l.deref_count,
                        self.wf(),
                        self.n_spec() == n0 + dst_l.deref_count - current_dst.deref_count,
                        current_dst.base.id == chain_end(
                            db,
                            n0,
                            (dst_l.deref_count - current_dst.deref_count) as nat,
                        ),
                        self.loc_types() == old(self).loc_types() + Seq::new(
                            (dst_l.deref_count - current_dst.deref_count) as nat,
                            none_tag,
                        ),
                        self.pairs() == old(self).pairs().union(
                            chain(
                                db,
                                n0,
                                (dst_l.deref_count - current_dst.deref_count) as nat,
                            ).to_set(),
                        ),
                        self.errs() == old(self).errs(),
                        self.stack() == old(self).stack(),
                        self.local_var_map == old(self).local_var_map,
                    decreases current_dst.deref_count,
                {
                    let ghost j = (dst_l.deref_count - current_dst.deref_count) as nat;
                    let next_base = self.gen_location(None);
                    self.add_constraint(next_base.id, Constraint::Load(current_dst.base.id));
                    proof {
                        let pr = (n0 + j, ConstraintView::Load(chain_end(db, n0, j)));
                        lemma_to_set_push(chain(db, n0, j), pr);
                        assert(chain(db, n0, (j + 1) as nat) == chain(db, n0, j).push(pr));
                        assert(self.pairs() =~= old(self).pairs().union(
                            chain(db, n0, (j + 1) as nat).to_set(),
                        ));
                        assert(self.loc_types() =~= old(self).loc_types() + Seq::new(
                            (j + 1) as nat,
                            none_tag,
                        ));
                    }
                    current_dst = Place {
                        base: next_base,
                        deref_count: current_dst.deref_count - 1,
                    };
                }
                let ghost k = (dst_l.deref_count - 1) as nat;
                self.add_constraint(current_dst.base.id, Constraint::StoreAddr(src_l.base.id));
                proof {
                    let pr = (chain_end(db, n0, k), ConstraintView::StoreAddr(sb));
                    lemma_to_set_push(chain(db, n0, k), pr);
                    assert(ref_pairs(n0, dst_l@, src_l@) == chain(db, n0, k).push(pr));
                    assert(self.pairs() =~= old(self).pairs().union(
                        ref_pairs(n0, dst_l@, src_l@).to_set(),
                    ));
                    assert(self.gen_state() =~= old(self).gen_state().emit(
                        ref_pairs(n0, dst_l@, src_l@),
                        ref_fresh(dst_l@, src_l@),
                    ));
                }
            }
        } else {
            // the `&*` pattern: the outer `&` cancels one dereference of
            // the source, leaving a place-to-place assignment
            let peeled = Place { base: src_l.base, deref_count: src_l.deref_count - 1 };
            proof {
                lemma_ptp_fresh_base_free(
                    AbsPlace { base: 0, depth: dst.projection@.len() },
                    dst_l@,
                    AbsPlace { base: 0, depth: (src.projection@.len() - 1) as nat },
                    peeled@,
                );
            }
            self.handle_place_to_place(dst_l, peeled);
            proof {
                assert(ref_pairs(n0, dst_l@, src_l@) == ptp_pairs(n0, dst_l@, peeled@));
                assert(ref_fresh(dst_l@, src_l@) == ptp_fresh(dst_l@, peeled@));
            }
        }
    }

    /// Handles `dst = p` where the source operand reads the place `p`,
    /// both sides pointer-typed: lowers both sides and delegates to the
    /// place-to-place routine.
    fn handle_assign_place(&mut self, dst: &MirPlace, p: &MirPlace)
        requires
            old(self).wf(),
            old(self).stack().len() > 0,
            old(self).cur_locs() is Some,
            dst.local < old(self).cur_locs()->Some_0.len(),
            p.local < old(self).cur_locs()->Some_0.len(),
            forall|j: int|
                0 <= j < old(self).cur_locs()->Some_0.len()
                    ==> (#[trigger] old(self).cur_locs()->Some_0[j]).id < old(self).n_spec(),
            old(self).n_spec() + assign_place_fresh(*dst, *p) <= usize::MAX,
        ensures
            final(self).wf(),
            final(self).gen_state() == crate::semantics::assign_place_step(
                old(self).gen_state(),
                ids_of(old(self).cur_locs()->Some_0),
                *dst,
                *p,
            ),
            final(self).stack() == old(self).stack(),
            final(self).local_var_map == old(self).local_var_map,
    {
        let dst_l = match self.lower_mir_place(dst) {
            Ok(d) => d,
            Err(e) => {
                self.errors.push(e);
                proof {
                    assert(self.gen_state() =~= old(self).gen_state().add_err(
                        SimpleAndersonError::UnsupportedProjection,
                    ));
                }
                return ;
            },
        };
        let src_l = match self.lower_mir_place(p) {
            Ok(s) => s,
            Err(e) => {
                self.errors.push(e);
                proof {
                    assert(self.gen_state() =~= old(self).gen_state().add_err(
                        SimpleAndersonError::UnsupportedProjection,
                    ));
                }
                return ;
            },
        };
        proof {
            lemma_ptp_fresh_base_free(
                AbsPlace { base: 0, depth: dst.projection@.len() },
                dst_l@,
                AbsPlace { base: 0, depth: p.projection@.len() },
                src_l@,
            );
        }
        self.handle_place_to_place(dst_l, src_l);
    }

    /// Handles a plain or cast assignment `dst = src`: acts only when
    /// both sides are pointer-typed; a constant pointer source, or a
    /// non-pointer source under a pointer destination, is reported as
    /// the one unsupported-constant-pointer condition.
    fn handle_assign(&mut self, local_decls: &Vec<Ty>, dst: &MirPlace, src: &Operand)
        requires
            old(self).wf(),
            old(self).stack().len() > 0,
            old(self).cur_locs() is Some,
            old(self).cur_locs()->Some_0.len() == local_decls@.len(),
            forall|j: int|
                0 <= j < old(self).cur_locs()->Some_0.len()
                    ==> (#[trigger] old(self).cur_locs()->Some_0[j]).id < old(self).n_spec(),
            place_wf(local_decls@, *dst),
            operand_wf(local_decls@, *src),
            old(self).n_spec() + assign_fresh(local_decls@, *dst, *src) <= usize::MAX,
        ensures
            final(self).wf(),
            final(self).gen_state() == crate::semantics::assign_step(
                old(self).gen_state(),
                local_decls@,
                ids_of(old(self).cur_locs()->Some_0),
                *dst,
                *src,
            ),
            final(self).stack() == old(self).stack(),
            final(self).local_var_map == old(self).local_var_map,
    {
        let src_is_ptr = self.is_operand_ptr(local_decls, src);
        let dst_is_ptr = self.is_place_ptr(local_decls, dst);

        if src_is_ptr && dst_is_ptr {
            match src {
                Operand::Copy(p) => {
                    self.handle_assign_place(dst, p);
                },
                Operand::Move(p) => {
                    self.handle_assign_place(dst, p);
                },
                Operand::Constant(_) => {
                    self.errors.push(SimpleAndersonError::UnsupportedConstantPointer);
                    proof {
                        assert(self.gen_state() =~= old(self).gen_state().add_err(
                            SimpleAndersonError::UnsupportedConstantPointer,
                        ));
                    }
                },
            }
        } else if dst_is_ptr && !src_is_ptr {
            self.errors.push(SimpleAndersonError::UnsupportedConstantPointer);
            proof {
                assert(self.gen_state() =~= old(self).gen_state().add_err(
                    SimpleAndersonError::UnsupportedConstantPointer,
                ));
            }
        }
    }

    /// Visits one instance's body: allocates a location per declared
    /// local (in declaration order), memoizes the instance, pushes it on
    /// the call stack, dispatches every statement of every basic block,
    /// and pops the stack. Re-visiting an instance already memoized in
    /// this run is a no-op. Control-flow terminators are not
    /// interpreted: the traversal is intraprocedural; the stack and the
    /// memoization table exist to support a future interprocedural
    /// extension.
    #[verifier::loop_isolation(false)]
    fn visit_body(&mut self, instance: u64, body: Option<&Body>)
        requires
            old(self).wf(),
            find_locs(old(self).local_var_map@, instance) is None ==> {
                &&& old(self).gen_state() == (GenState {
                    types: Seq::<Option<Ty>>::empty(),
                    cs: Set::<(int, ConstraintView)>::empty(),
                    errs: Seq::<SimpleAndersonError>::empty(),
                })
                &&& old(self).stack() == Seq::<u64>::empty()
                &&& old(self).memo() == Seq::<(u64, Seq<Location>)>::empty()
                &&& match body {
                    Some(b) => body_wf(*b) && body_result(*b).n() <= usize::MAX,
                    None => true,
                }
            },
        ensures
            final(self).wf(),
            find_locs(old(self).local_var_map@, instance) is Some ==> *final(self) == *old(self),
            find_locs(old(self).local_var_map@, instance) is None ==> final(self).stack() == Seq::<
                u64,
            >::empty() && match body {
                Some(b) => final(self).gen_state() == body_result(*b) && final(self).memo()
                    == seq![
                    (
                        instance,
                        Seq::new(
                            b.local_decls@.len(),
                            |i: int| Location { id: i as usize, ty: Some(b.local_decls@[i]) },
                        ),
                    ),
                ],
                None => final(self).gen_state() == (GenState {
                    types: Seq::<Option<Ty>>::empty(),
                    cs: Set::<(int, ConstraintView)>::empty(),
                    errs: seq![SimpleAndersonError::BodyNotFound],
                }) && final(self).memo() == Seq::<(u64, Seq<Location>)>::empty(),
            },
    {
        // the entry guard: an instance already analyzed in this run
        // contributes nothing more
        if self.analyzed(instance) {
            return ;
        }
        proof {
            assert(old(self).memo().len() == 0);
            assert(old(self).local_var_map@.len() == 0);
            assert(old(self).local_var_map@ =~= Seq::<(u64, Vec<Location>)>::empty());
        }

        let b = match body {
            Some(b) => b,
            None => {
                self.errors.push(SimpleAndersonError::BodyNotFound);
                proof {
                    assert(self.memo() =~= Seq::<(u64, Seq<Location>)>::empty());
                    assert(self.gen_state() =~= (GenState {
                        types: Seq::<Option<Ty>>::empty(),
                        cs: Set::<(int, ConstraintView)>::empty(),
                        errs: seq![SimpleAndersonError::BodyNotFound],
                    }));
                }
                return ;
            },
        };

        // one location per declared local, in declaration order
        let n_decls = b.local_decls.len();
        let mut locations: Vec<Location> = Vec::new();
        let mut i: usize = 0;
        proof {
            assert(b.local_decls@.take(0).map_values(|t: Ty| Some(t)) =~= Seq::<
                Option<Ty>,
            >::empty());
        }
        while i < n_decls
            invariant
                i <= n_decls,
                self.wf(),
                self.n_spec() == i,
                self.loc_types() == b.local_decls@.take(i as int).map_values(|t: Ty| Some(t)),
                self.pairs() == Set::<(int, ConstraintView)>::empty(),
                self.errs() == Seq::<SimpleAndersonError>::empty(),
                self.stack() == Seq::<u64>::empty(),
                self.local_var_map@ == Seq::<(u64, Vec<Location>)>::empty(),
                locations@.len() == i,
                forall|j: int|
                    0 <= j < i ==> (#[trigger] locations@[j]).id == j && locations@[j].ty == Some(
                        b.local_decls@[j],
                    ),
            decreases n_decls - i,
        {
            let ty = b.local_decls[i];
            let loc = self.gen_location(Some(ty));
            locations.push(loc);
            proof {
                assert(b.local_decls@.take(i + 1).map_values(|t: Ty| Some(t)) =~= b.local_decls@
                    .take(i as int).map_values(|t: Ty| Some(t)).push(
                    Some(b.local_decls@[i as int]),
                ));
            }
            i = i + 1;
        }

        // mark the instance as visited and enter its frame
        self.local_var_map.push((instance, locations));
        self.call_stack.push(instance);

        let ghost decls = b.local_decls@;
        let ghost lids = id_locs(n_decls as int);
        let ghost st0 = init_state(decls);
        let ghost locs_seq = self.local_var_map@[0].1@;
        let ghost m0 = self.local_var_map;
        let ghost s0 = self.stack();

        proof {
            assert(decls.take(n_decls as int) =~= decls);
            assert(self.gen_state() =~= st0);
            assert(s0.last() == instance);
            assert(self.cur_locs() == Some(locs_seq));
            assert(locs_seq.len() == n_decls);
            assert(ids_of(locs_seq) =~= lids);
        }

        // flow-insensitive traversal: the visiting order does not matter
        let nb = b.basic_blocks.len();
        let mut bi: usize = 0;
        proof {
            assert(b.basic_blocks@.take(0) =~= Seq::<crate::ir::BasicBlock>::empty());
        }
        while bi < nb
            invariant
                bi <= nb,
                self.wf(),
                self.gen_state() == run_blocks(st0, decls, lids, b.basic_blocks@.take(bi as int)),
                self.stack() == s0,
                self.local_var_map == m0,
                self.cur_locs() == Some(locs_seq),
            decreases nb - bi,
        {
            let stmts = &b.basic_blocks[bi].statements;
            let ns = stmts.len();
            let mut si: usize = 0;
            proof {
                assert(stmts@.take(0) =~= Seq::<Statement>::empty());
            }
            while si < ns
                invariant
                    si <= ns,
                    bi < nb,
                    ns == stmts@.len(),
                    self.wf(),
                    self.gen_state() == run_stmts(
                        run_blocks(st0, decls, lids, b.basic_blocks@.take(bi as int)),
                        decls,
                        lids,
                        stmts@.take(si as int),
                    ),
                    self.stack() == s0,
                    self.local_var_map == m0,
                    self.cur_locs() == Some(locs_seq),
                decreases ns - si,
            {
                let ghost pre = self.gen_state();
                let ghost cur_stmt = stmts@[si as int];
                proof {
                    assert(stmt_wf(decls, cur_stmt));
                    let blk_prefix = run_blocks(st0, decls, lids, b.basic_blocks@.take(bi as int));
                    assert(b.basic_blocks@ =~= b.basic_blocks@.take(bi as int) + b.basic_blocks@
                        .skip(bi as int));
                    lemma_run_blocks_concat(
                        st0,
                        decls,
                        lids,
                        b.basic_blocks@.take(bi as int),
                        b.basic_blocks@.skip(bi as int),
                    );
                    assert(b.basic_blocks@.skip(bi as int)[0] == b.basic_blocks@[bi as int]);
                    assert(b.basic_blocks@.skip(bi as int).drop_first() =~= b.basic_blocks@.skip(
                        bi + 1,
                    ));
                    assert(stmts@ =~= stmts@.take(si as int) + stmts@.skip(si as int));
                    lemma_run_stmts_concat(
                        blk_prefix,
                        decls,
                        lids,
                        stmts@.take(si as int),
                        stmts@.skip(si as int),
                    );
                    assert(stmts@.skip(si as int)[0] == cur_stmt);
                    assert(stmts@.skip(si as int).drop_first() =~= stmts@.skip(si + 1));
                    lemma_run_stmts_n_mono(
                        step(pre, decls, lids, cur_stmt),
                        decls,
                        lids,
                        stmts@.skip(si + 1),
                    );
                    lemma_run_blocks_n_mono(
                        run_stmts(blk_prefix, decls, lids, stmts@),
                        decls,
                        lids,
                        b.basic_blocks@.skip(bi + 1),
                    );
                    lemma_step_n(pre, decls, lids, cur_stmt);
                    assert(pre.n() + stmt_fresh(decls, cur_stmt) <= body_result(*b).n());
                    lemma_run_blocks_n_mono(st0, decls, lids, b.basic_blocks@.take(bi as int));
                    lemma_run_stmts_n_mono(blk_prefix, decls, lids, stmts@.take(si as int));
                    assert(st0.n() == decls.len());
                    assert forall|j: int| 0 <= j < locs_seq.len() implies (
                    #[trigger] locs_seq[j]).id < self.n_spec() by {
                        assert(ids_of(locs_seq)[j] == locs_seq[j].id as int);
                        assert(lids[j] == j);
                    }
                }
                match &stmts[si] {
                    Statement::Assign(dst, rvalue) => {
                        match rvalue {
                            Rvalue::Use(operand) => self.handle_assign(&b.local_decls, dst, operand),
                            Rvalue::Cast(operand) => self.handle_assign(
                                &b.local_decls,
                                dst,
                                operand,
                            ),
                            Rvalue::AddressOf(src) => self.handle_ref(&b.local_decls, dst, src),
                            Rvalue::Ref(src) => self.handle_ref(&b.local_decls, dst, src),
                            Rvalue::BinaryOp => (),
                            Rvalue::UnaryOp => (),
                            Rvalue::Other => {
                                self.errors.push(SimpleAndersonError::UnsupportedRvalue);
                                proof {
                                    assert(self.gen_state() =~= pre.add_err(
                                        SimpleAndersonError::UnsupportedRvalue,
                                    ));
                                }
                            },
                        }
                    },
                    Statement::StorageLive => (),
                    Statement::StorageDead => (),
                    Statement::Nop => (),
                    Statement::Other => {
                        self.errors.push(SimpleAndersonError::UnsupportedStatement);
                        proof {
                            assert(self.gen_state() =~= pre.add_err(
                                SimpleAndersonError::UnsupportedStatement,
                            ));
                        }
                    },
                }
                proof {
                    assert(self.gen_state() == step(pre, decls, lids, cur_stmt));
                    lemma_run_stmts_snoc(
                        run_blocks(st0, decls, lids, b.basic_blocks@.take(bi as int)),
                        decls,
                        lids,
                        stmts@.take(si as int),
                        cur_stmt,
                    );
                    assert(stmts@.take(si + 1) =~= stmts@.take(si as int).push(cur_stmt));
                }
                si = si + 1;
            }
            proof {
                assert(stmts@.take(ns as int) =~= stmts@);
                lemma_run_blocks_snoc(
                    st0,
                    decls,
                    lids,
                    b.basic_blocks@.take(bi as int),
                    b.basic_blocks@[bi as int],
                );
                assert(b.basic_blocks@.take(bi + 1) =~= b.basic_blocks@.take(bi as int).push(
                    b.basic_blocks@[bi as int],
                ));
            }
            bi = bi + 1;
        }

        let _ = self.call_stack.pop();

        proof {
            assert(b.basic_blocks@.take(nb as int) =~= b.basic_blocks@);
            assert(self.stack() =~= Seq::<u64>::empty());
            assert(locs_seq =~= Seq::new(
                decls.len(),
                |j: int| Location { id: j as usize, ty: Some(decls[j]) },
            ));
            assert(self.memo() =~= seq![(instance, locs_seq)]);
        }
    }

    /// The main entry point: resets all state, analyzes the one
    /// instance, and reports that the emitted constraints were not
    /// checked against a solver.
    pub fn analyze(&mut self, instance: u64, body: Option<&Body>)
        requires
            match body {
                Some(b) => body_wf(*b) && body_result(*b).n() <= usize::MAX,
                None => true,
            },
        ensures
            final(self).wf(),
            final(self).stack() == Seq::<u64>::empty(),
            match body {
                Some(b) => final(self).gen_state() == (GenState {
                    types: body_result(*b).types,
                    cs: body_result(*b).cs,
                    errs: body_result(*b).errs.push(SimpleAndersonError::ConstraintCheck),
                }) && final(self).memo() == seq![
                    (
                        instance,
                        Seq::new(
                            b.local_decls@.len(),
                            |i: int| Location { id: i as usize, ty: Some(b.local_decls@[i]) },
                        ),
                    ),
                ],
                None => final(self).gen_state() == (GenState {
                    types: Seq::<Option<Ty>>::empty(),
                    cs: Set::<(int, ConstraintView)>::empty(),
                    errs: seq![
                        SimpleAndersonError::BodyNotFound,
                        SimpleAndersonError::ConstraintCheck,
                    ],
                }) && final(self).memo() == Seq::<(u64, Seq<Location>)>::empty(),
            },
    {
        self.clear();
        proof {
            assert(self.memo().len() == 0);
            assert(self.local_var_map@.len() == 0);
            assert(self.local_var_map@ =~= Seq::<(u64, Vec<Location>)>::empty());
            assert(find_locs(self.local_var_map@, instance) is None);
        }
        self.visit_body(instance, body);
        self.errors.push(SimpleAndersonError::ConstraintCheck);
        proof {
            match body {
                Some(b) => {
                    assert(self.gen_state() =~= (GenState {
                        types: body_result(*b).types,
                        cs: body_result(*b).cs,
                        errs: body_result(*b).errs.push(SimpleAndersonError::ConstraintCheck),
                    }));
                },
                None => {
                    assert(self.gen_state() =~= (GenState {
                        types: Seq::<Option<Ty>>::empty(),
                        cs: Set::<(int, ConstraintView)>::empty(),
                        errs: seq![
                            SimpleAndersonError::BodyNotFound,
                            SimpleAndersonError::ConstraintCheck,
                        ],
                    }));
                },
            }
        }
    }
}

} // verus!
