//! The mathematical model of constraint generation: what one statement
//! contributes to the constraint set, how indirection peeling chains
//! fresh locations, and the fold of that step over a whole body. The
//! engine's contracts state that its imperative traversal computes
//! exactly this model.

use vstd::prelude::*;

use crate::constraints::{ConstraintView, Ty};
use crate::errors::SimpleAndersonError;
use crate::ir::{
    all_derefs, operand_is_ptr_spec, place_is_ptr_spec, BasicBlock, Body, MirPlace, Operand,
    Rvalue, Statement,
};

verus! {

/// A lowered place: a base location id and the number of dereferences
/// applied to it.
pub ghost struct AbsPlace {
    pub base: int,
    pub depth: nat,
}

/// The observable state of the generator: one type tag per allocated
/// location (in id order), the set of `(sink location, constraint)`
/// pairs emitted so far, and the failures reported so far (in order).
#[verifier::ext_equal]
pub ghost struct GenState {
    pub types: Seq<Option<Ty>>,
    pub cs: Set<(int, ConstraintView)>,
    pub errs: Seq<SimpleAndersonError>,
}

impl GenState {
    /// Number of locations allocated.
    pub open spec fn n(self) -> int {
        self.types.len() as int
    }

    pub open spec fn add_err(self, e: SimpleAndersonError) -> GenState {
        GenState { types: self.types, cs: self.cs, errs: self.errs.push(e) }
    }

    /// Allocate `k` fresh untagged locations and add the given pairs.
    pub open spec fn emit(self, pairs: Seq<(int, ConstraintView)>, k: nat) -> GenState {
        GenState {
            types: self.types + Seq::new(k, |i: int| Option::<Ty>::None),
            cs: self.cs.union(pairs.to_set()),
            errs: self.errs,
        }
    }
}

/// The `Load` chain that peels `k` indirection levels off a place based
/// at `b`, with fresh location ids numbered from `n`: step `i` allocates
/// location `n + i` and emits `Load` of the previous base at it.
pub open spec fn chain(b: int, n: int, k: nat) -> Seq<(int, ConstraintView)>
    decreases k,
{
    if k == 0 {
        Seq::empty()
    } else {
        chain(b, n, (k - 1) as nat).push(
            (n + k - 1, ConstraintView::Load(chain_end(b, n, (k - 1) as nat))),
        )
    }
}

/// The base location left after `k` peeling steps.
pub open spec fn chain_end(b: int, n: int, k: nat) -> int {
    if k == 0 {
        b
    } else {
        n + k - 1
    }
}

/// Fresh locations a place-to-place assignment allocates.
pub open spec fn ptp_fresh(d: AbsPlace, s: AbsPlace) -> nat {
    if d.depth == 0 && s.depth == 0 {
        0
    } else if d.depth == 0 {
        (s.depth - 1) as nat
    } else {
        (s.depth + d.depth - 1) as nat
    }
}

/// Pairs a place-to-place assignment `dst = src` emits, with fresh
/// location ids numbered from `n`.
pub open spec fn ptp_pairs(n: int, d: AbsPlace, s: AbsPlace) -> Seq<(int, ConstraintView)> {
    if d.depth == 0 && s.depth == 0 {
        seq![(d.base, ConstraintView::Copy(s.base))]
    } else if d.depth == 0 {
        chain(s.base, n, (s.depth - 1) as nat).push(
            (d.base, ConstraintView::Load(chain_end(s.base, n, (s.depth - 1) as nat))),
        )
    } else {
        let src_final = chain_end(s.base, n, s.depth);
        let dst_chain_start = n + s.depth;
        let dst_final = chain_end(d.base, dst_chain_start, (d.depth - 1) as nat);
        chain(s.base, n, s.depth) + chain(d.base, dst_chain_start, (d.depth - 1) as nat).push(
            (dst_final, ConstraintView::Store(src_final)),
        )
    }
}

/// Fresh locations a reference-forming assignment allocates.
pub open spec fn ref_fresh(d: AbsPlace, s: AbsPlace) -> nat {
    if s.depth == 0 {
        if d.depth == 0 {
            0
        } else {
            (d.depth - 1) as nat
        }
    } else {
        ptp_fresh(d, AbsPlace { base: s.base, depth: (s.depth - 1) as nat })
    }
}

/// Pairs a reference-forming assignment `dst = &src` emits: the address
/// flows directly, through a peeled destination, or — when `src` is
/// itself a dereference — the outer `&` cancels one `*` and the
/// assignment becomes place-to-place.
pub open spec fn ref_pairs(n: int, d: AbsPlace, s: AbsPlace) -> Seq<(int, ConstraintView)> {
    if s.depth == 0 {
        if d.depth == 0 {
            seq![(d.base, ConstraintView::AddrOf(s.base))]
        } else {
            chain(d.base, n, (d.depth - 1) as nat).push(
                (
                    chain_end(d.base, n, (d.depth - 1) as nat),
                    ConstraintView::StoreAddr(s.base),
                ),
            )
        }
    } else {
        ptp_pairs(n, d, AbsPlace { base: s.base, depth: (s.depth - 1) as nat })
    }
}

/// The lowering of a place whose projections are all dereferences: its
/// base local's location and its dereference count.
pub open spec fn lower_spec(locs: Seq<int>, p: MirPlace) -> AbsPlace {
    AbsPlace { base: locs[p.local as int], depth: p.projection@.len() }
}

/// Effect of `dst = src` where `src` reads the place `p` (by value or
/// by move) and both sides are pointer-typed.
pub open spec fn assign_place_step(
    st: GenState,
    locs: Seq<int>,
    dst: MirPlace,
    p: MirPlace,
) -> GenState {
    if !all_derefs(dst.projection@) {
        st.add_err(SimpleAndersonError::UnsupportedProjection)
    } else if !all_derefs(p.projection@) {
        st.add_err(SimpleAndersonError::UnsupportedProjection)
    } else {
        let d = lower_spec(locs, dst);
        let s = lower_spec(locs, p);
        st.emit(ptp_pairs(st.n(), d, s), ptp_fresh(d, s))
    }
}

/// Effect of a plain or cast assignment `dst = op`.
pub open spec fn assign_step(
    st: GenState,
    decls: Seq<Ty>,
    locs: Seq<int>,
    dst: MirPlace,
    op: Operand,
) -> GenState {
    let src_is_ptr = operand_is_ptr_spec(decls, op);
    let dst_is_ptr = place_is_ptr_spec(decls, dst);
    if src_is_ptr && dst_is_ptr {
        match op {
            Operand::Copy(p) => assign_place_step(st, locs, dst, p),
            Operand::Move(p) => assign_place_step(st, locs, dst, p),
            Operand::Constant(_) => st.add_err(SimpleAndersonError::UnsupportedConstantPointer),
        }
    } else if dst_is_ptr && !src_is_ptr {
        st.add_err(SimpleAndersonError::UnsupportedConstantPointer)
    } else {
        st
    }
}

/// Effect of a reference-forming assignment `dst = &src`.
pub open spec fn ref_step(st: GenState, locs: Seq<int>, dst: MirPlace, src: MirPlace) -> GenState {
    if !all_derefs(dst.projection@) {
        st.add_err(SimpleAndersonError::UnsupportedProjection)
    } else if !all_derefs(src.projection@) {
        st.add_err(SimpleAndersonError::UnsupportedProjection)
    } else {
        let d = lower_spec(locs, dst);
        let s = lower_spec(locs, src);
        st.emit(ref_pairs(st.n(), d, s), ref_fresh(d, s))
    }
}

/// Effect of one statement on the generator state.
pub open spec fn step(st: GenState, decls: Seq<Ty>, locs: Seq<int>, stmt: Statement) -> GenState {
    match stmt {
        Statement::Assign(dst, rv) => match rv {
            Rvalue::Use(op) => assign_step(st, decls, locs, dst, op),
            Rvalue::Cast(op) => assign_step(st, decls, locs, dst, op),
            Rvalue::Ref(src) => ref_step(st, locs, dst, src),
            Rvalue::AddressOf(src) => ref_step(st, locs, dst, src),
            Rvalue::BinaryOp => st,
            Rvalue::UnaryOp => st,
            Rvalue::Other => st.add_err(SimpleAndersonError::UnsupportedRvalue),
        },
        Statement::StorageLive => st,
        Statement::StorageDead => st,
        Statement::Nop => st,
        Statement::Other => st.add_err(SimpleAndersonError::UnsupportedStatement),
    }
}

/// Fold of `step` over a sequence of statements.
pub open spec fn run_stmts(
    st: GenState,
    decls: Seq<Ty>,
    locs: Seq<int>,
    stmts: Seq<Statement>,
) -> GenState
    decreases stmts.len(),
{
    if stmts.len() == 0 {
        st
    } else {
        run_stmts(step(st, decls, locs, stmts[0]), decls, locs, stmts.drop_first())
    }
}

/// Fold of `run_stmts` over a sequence of basic blocks.
pub open spec fn run_blocks(
    st: GenState,
    decls: Seq<Ty>,
    locs: Seq<int>,
    blocks: Seq<BasicBlock>,
) -> GenState
    decreases blocks.len(),
{
    if blocks.len() == 0 {
        st
    } else {
        run_blocks(
            run_stmts(st, decls, locs, blocks[0].statements@),
            decls,
            locs,
            blocks.drop_first(),
        )
    }
}

/// State after allocating one location per declared local, before any
/// statement: location `i` carries local `i`'s declared type.
pub open spec fn init_state(decls: Seq<Ty>) -> GenState {
    GenState {
        types: decls.map_values(|t: Ty| Some(t)),
        cs: Set::empty(),
        errs: Seq::empty(),
    }
}

/// The location table of a single analyzed instance: local `i` at
/// location `i`.
pub open spec fn id_locs(n: int) -> Seq<int> {
    Seq::new(n as nat, |i: int| i)
}

/// Everything one analysis run of a resolved body produces.
pub open spec fn body_result(b: Body) -> GenState {
    run_blocks(
        init_state(b.local_decls@),
        b.local_decls@,
        id_locs(b.local_decls@.len() as int),
        b.basic_blocks@,
    )
}

/// Fresh locations one statement allocates; depends on the statement
/// and the declarations alone, never on the state.
pub open spec fn stmt_fresh(decls: Seq<Ty>, stmt: Statement) -> nat {
    match stmt {
        Statement::Assign(dst, rv) => match rv {
            Rvalue::Use(op) => assign_fresh(decls, dst, op),
            Rvalue::Cast(op) => assign_fresh(decls, dst, op),
            Rvalue::Ref(src) => ref_stmt_fresh(dst, src),
            Rvalue::AddressOf(src) => ref_stmt_fresh(dst, src),
            _ => 0,
        },
        _ => 0,
    }
}

pub open spec fn assign_fresh(decls: Seq<Ty>, dst: MirPlace, op: Operand) -> nat {
    if operand_is_ptr_spec(decls, op) && place_is_ptr_spec(decls, dst) {
        match op {
            Operand::Copy(p) => assign_place_fresh(dst, p),
            Operand::Move(p) => assign_place_fresh(dst, p),
            Operand::Constant(_) => 0,
        }
    } else {
        0
    }
}

pub open spec fn assign_place_fresh(dst: MirPlace, p: MirPlace) -> nat {
    if all_derefs(dst.projection@) && all_derefs(p.projection@) {
        ptp_fresh(
            AbsPlace { base: 0, depth: dst.projection@.len() },
            AbsPlace { base: 0, depth: p.projection@.len() },
        )
    } else {
        0
    }
}

pub open spec fn ref_stmt_fresh(dst: MirPlace, src: MirPlace) -> nat {
    if all_derefs(dst.projection@) && all_derefs(src.projection@) {
        ref_fresh(
            AbsPlace { base: 0, depth: dst.projection@.len() },
            AbsPlace { base: 0, depth: src.projection@.len() },
        )
    } else {
        0
    }
}

/// `ptp_fresh` and `ptp_pairs` ignore the bases: only the depths decide
/// how much is allocated, so `stmt_fresh` is well defined.
pub proof fn lemma_ptp_fresh_base_free(d1: AbsPlace, d2: AbsPlace, s1: AbsPlace, s2: AbsPlace)
    requires
        d1.depth == d2.depth,
        s1.depth == s2.depth,
    ensures
        ptp_fresh(d1, s1) == ptp_fresh(d2, s2),
        ref_fresh(d1, s1) == ref_fresh(d2, s2),
{
}

/// One step allocates exactly the statement's fresh-location count.
pub proof fn lemma_step_n(st: GenState, decls: Seq<Ty>, locs: Seq<int>, stmt: Statement)
    ensures
        step(st, decls, locs, stmt).n() == st.n() + stmt_fresh(decls, stmt),
{
}

/// Running statements never shrinks the location count.
pub proof fn lemma_run_stmts_n_mono(
    st: GenState,
    decls: Seq<Ty>,
    locs: Seq<int>,
    stmts: Seq<Statement>,
)
    ensures
        run_stmts(st, decls, locs, stmts).n() >= st.n(),
    decreases stmts.len(),
{
    if stmts.len() > 0 {
        lemma_step_n(st, decls, locs, stmts[0]);
        lemma_run_stmts_n_mono(step(st, decls, locs, stmts[0]), decls, locs, stmts.drop_first());
    }
}

/// Running blocks never shrinks the location count.
pub proof fn lemma_run_blocks_n_mono(
    st: GenState,
    decls: Seq<Ty>,
    locs: Seq<int>,
    blocks: Seq<BasicBlock>,
)
    ensures
        run_blocks(st, decls, locs, blocks).n() >= st.n(),
    decreases blocks.len(),
{
    if blocks.len() > 0 {
        lemma_run_stmts_n_mono(st, decls, locs, blocks[0].statements@);
        lemma_run_blocks_n_mono(
            run_stmts(st, decls, locs, blocks[0].statements@),
            decls,
            locs,
            blocks.drop_first(),
        );
    }
}

/// Folding over a concatenation folds over the parts in order.
pub proof fn lemma_run_stmts_concat(
    st: GenState,
    decls: Seq<Ty>,
    locs: Seq<int>,
    a: Seq<Statement>,
    b: Seq<Statement>,
)
    ensures
        run_stmts(st, decls, locs, a + b) == run_stmts(run_stmts(st, decls, locs, a), decls, locs, b),
    decreases a.len(),
{
    if a.len() == 0 {
        assert(a + b =~= b);
    } else {
        assert((a + b).drop_first() =~= a.drop_first() + b);
        assert((a + b)[0] == a[0]);
        lemma_run_stmts_concat(step(st, decls, locs, a[0]), decls, locs, a.drop_first(), b);
    }
}

/// Folding over a concatenation folds over the parts in order.
pub proof fn lemma_run_blocks_concat(
    st: GenState,
    decls: Seq<Ty>,
    locs: Seq<int>,
    a: Seq<BasicBlock>,
    b: Seq<BasicBlock>,
)
    ensures
        run_blocks(st, decls, locs, a + b) == run_blocks(
            run_blocks(st, decls, locs, a),
            decls,
            locs,
            b,
        ),
    decreases a.len(),
{
    if a.len() == 0 {
        assert(a + b =~= b);
    } else {
        assert((a + b).drop_first() =~= a.drop_first() + b);
        assert((a + b)[0] == a[0]);
        lemma_run_blocks_concat(
            run_stmts(st, decls, locs, a[0].statements@),
            decls,
            locs,
            a.drop_first(),
            b,
        );
    }
}

/// Extending the fold by one statement applies one more step.
pub proof fn lemma_run_stmts_snoc(
    st: GenState,
    decls: Seq<Ty>,
    locs: Seq<int>,
    stmts: Seq<Statement>,
    x: Statement,
)
    ensures
        run_stmts(st, decls, locs, stmts.push(x)) == step(
            run_stmts(st, decls, locs, stmts),
            decls,
            locs,
            x,
        ),
{
    assert(stmts.push(x) =~= stmts + seq![x]);
    lemma_run_stmts_concat(st, decls, locs, stmts, seq![x]);
    let st2 = run_stmts(st, decls, locs, stmts);
    assert(seq![x].drop_first() =~= Seq::<Statement>::empty());
    assert(run_stmts(step(st2, decls, locs, x), decls, locs, Seq::<Statement>::empty()) == step(
        st2,
        decls,
        locs,
        x,
    ));
    assert(run_stmts(st2, decls, locs, seq![x]) == step(st2, decls, locs, x));
}

/// Extending the fold by one block runs that block's statements.
pub proof fn lemma_run_blocks_snoc(
    st: GenState,
    decls: Seq<Ty>,
    locs: Seq<int>,
    blocks: Seq<BasicBlock>,
    x: BasicBlock,
)
    ensures
        run_blocks(st, decls, locs, blocks.push(x)) == run_stmts(
            run_blocks(st, decls, locs, blocks),
            decls,
            locs,
            x.statements@,
        ),
{
    assert(blocks.push(x) =~= blocks + seq![x]);
    lemma_run_blocks_concat(st, decls, locs, blocks, seq![x]);
    let st2 = run_blocks(st, decls, locs, blocks);
    assert(seq![x].drop_first() =~= Seq::<BasicBlock>::empty());
    let st3 = run_stmts(st2, decls, locs, x.statements@);
    assert(run_blocks(st3, decls, locs, Seq::<BasicBlock>::empty()) == st3);
    assert(run_blocks(st2, decls, locs, seq![x]) == st3);
}

/// Pushing onto a sequence inserts into its set of elements.
pub proof fn lemma_to_set_push<A>(s: Seq<A>, x: A)
    ensures
        s.push(x).to_set() == s.to_set().insert(x),
{
    assert forall|y: A| s.push(x).to_set().contains(y) implies s.to_set().insert(x).contains(y) by {
        if s.push(x).contains(y) {
            let i = choose|i: int| 0 <= i < s.push(x).len() && s.push(x)[i] == y;
            if i < s.len() {
                assert(s[i] == y);
            }
        }
    }
    assert forall|y: A| s.to_set().insert(x).contains(y) implies s.push(x).to_set().contains(y) by {
        if s.contains(y) {
            let i = choose|i: int| 0 <= i < s.len() && s[i] == y;
            assert(s.push(x)[i] == y);
        } else {
            assert(s.push(x)[s.len() as int] == x);
        }
    }
    assert(s.push(x).to_set() =~= s.to_set().insert(x));
}

/// The element set of a concatenation is the union of the parts'.
pub proof fn lemma_to_set_concat<A>(a: Seq<A>, b: Seq<A>)
    ensures
        (a + b).to_set() == a.to_set().union(b.to_set()),
{
    assert forall|y: A| (a + b).to_set().contains(y) implies a.to_set().union(b.to_set()).contains(
        y,
    ) by {
        let i = choose|i: int| 0 <= i < (a + b).len() && (a + b)[i] == y;
        if i < a.len() {
            assert(a[i] == y);
        } else {
            assert(b[i - a.len()] == y);
        }
    }
    assert forall|y: A| a.to_set().union(b.to_set()).contains(y) implies (a + b).to_set().contains(
        y,
    ) by {
        if a.contains(y) {
            let i = choose|i: int| 0 <= i < a.len() && a[i] == y;
            assert((a + b)[i] == y);
        } else {
            let i = choose|i: int| 0 <= i < b.len() && b[i] == y;
            assert((a + b)[a.len() + i] == y);
        }
    }
    assert((a + b).to_set() =~= a.to_set().union(b.to_set()));
}

/// The empty sequence has the empty element set.
pub proof fn lemma_to_set_empty<A>()
    ensures
        Seq::<A>::empty().to_set() == Set::<A>::empty(),
{
    assert(Seq::<A>::empty().to_set() =~= Set::<A>::empty());
}

} // verus!
