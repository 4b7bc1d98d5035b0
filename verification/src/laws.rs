//! Properties of the constraint-generation model that hold for every
//! input, stated and proved once here: the canonical emissions of the
//! basic assignment shapes, the shape of a full peeling chain, the cost
//! of a shallow body, and the report made for a constant pointer source.

use vstd::prelude::*;

use crate::constraints::{ConstraintView, Ty};
use crate::errors::SimpleAndersonError;
use crate::ir::{operand_is_ptr_spec, place_is_ptr_spec, Body, MirPlace, Operand, Rvalue, Statement};
use crate::semantics::{
    assign_step, body_result, chain, chain_end, init_state, lemma_step_n, lemma_to_set_empty,
    lemma_to_set_push, ptp_fresh, ptp_pairs, run_blocks, run_stmts, step, stmt_fresh, AbsPlace,
    GenState,
};

verus! {

/// Entry `i` of a peeling chain loads through the location the previous
/// step produced, at the fresh location `n + i`.
pub proof fn lemma_chain_index(b: int, n: int, k: nat)
    ensures
        chain(b, n, k).len() == k,
        forall|i: int|
            0 <= i < k ==> #[trigger] chain(b, n, k)[i] == (
                n + i,
                ConstraintView::Load(chain_end(b, n, i as nat)),
            ),
    decreases k,
{
    if k > 0 {
        lemma_chain_index(b, n, (k - 1) as nat);
        assert forall|i: int| 0 <= i < k implies #[trigger] chain(b, n, k)[i] == (
            n + i,
            ConstraintView::Load(chain_end(b, n, i as nat)),
        ) by {
            if i < k - 1 {
                assert(chain(b, n, k)[i] == chain(b, n, (k - 1) as nat)[i]);
            }
        }
    }
}

/// A place-to-place assignment through `k = depth(dst) + depth(src) >= 2`
/// indirection levels allocates exactly `k - 1` fresh locations and
/// emits `k - 1` chained `Load`s at them, terminated by one `Load` (at
/// the destination base, when the destination is direct) or one `Store`.
pub proof fn lemma_peeling_chain(n: int, d: AbsPlace, s: AbsPlace)
    requires
        d.depth + s.depth >= 2,
    ensures
        ptp_fresh(d, s) == d.depth + s.depth - 1,
        ptp_pairs(n, d, s).len() == d.depth + s.depth,
        forall|i: int|
            0 <= i < d.depth + s.depth - 1 ==> (#[trigger] ptp_pairs(n, d, s)[i]).0 == n + i
                && ptp_pairs(n, d, s)[i].1 is Load,
        d.depth == 0 ==> ptp_pairs(n, d, s).last() == (
            d.base,
            ConstraintView::Load(chain_end(s.base, n, (s.depth - 1) as nat)),
        ),
        d.depth >= 1 ==> ptp_pairs(n, d, s).last() == (
            chain_end(d.base, n + s.depth, (d.depth - 1) as nat),
            ConstraintView::Store(chain_end(s.base, n, s.depth)),
        ),
{
    let pairs = ptp_pairs(n, d, s);
    if d.depth == 0 {
        lemma_chain_index(s.base, n, (s.depth - 1) as nat);
        assert forall|i: int| 0 <= i < d.depth + s.depth - 1 implies (#[trigger] pairs[i]).0 == n
            + i && pairs[i].1 is Load by {
            assert(pairs[i] == chain(s.base, n, (s.depth - 1) as nat)[i]);
        }
    } else {
        let c1 = chain(s.base, n, s.depth);
        let c2 = chain(d.base, n + s.depth, (d.depth - 1) as nat);
        lemma_chain_index(s.base, n, s.depth);
        lemma_chain_index(d.base, n + s.depth, (d.depth - 1) as nat);
        assert(pairs == c1 + c2.push(
            (
                chain_end(d.base, n + s.depth, (d.depth - 1) as nat),
                ConstraintView::Store(chain_end(s.base, n, s.depth)),
            ),
        ));
        assert forall|i: int| 0 <= i < d.depth + s.depth - 1 implies (#[trigger] pairs[i]).0 == n
            + i && pairs[i].1 is Load by {
            if i < s.depth {
                assert(pairs[i] == c1[i]);
            } else {
                assert(pairs[i] == c2[i - s.depth]);
            }
        }
        assert(pairs.last() == c2.push(
            (
                chain_end(d.base, n + s.depth, (d.depth - 1) as nat),
                ConstraintView::Store(chain_end(s.base, n, s.depth)),
            ),
        ).last());
    }
}

/// `x = &y`, both sides direct: exactly the one constraint `AddrOf(y)`
/// at `x` is added, and no location is allocated.
pub proof fn lemma_addr_of_basic(
    st: GenState,
    decls: Seq<Ty>,
    locs: Seq<int>,
    dst: MirPlace,
    src: MirPlace,
)
    requires
        dst.projection@.len() == 0,
        src.projection@.len() == 0,
    ensures
        step(st, decls, locs, Statement::Assign(dst, Rvalue::Ref(src))) == (GenState {
            types: st.types,
            cs: st.cs.insert(
                (
                    locs[dst.local as int],
                    ConstraintView::AddrOf(locs[src.local as int]),
                ),
            ),
            errs: st.errs,
        }),
{
    let pr = (locs[dst.local as int], ConstraintView::AddrOf(locs[src.local as int]));
    lemma_to_set_push(Seq::<(int, ConstraintView)>::empty(), pr);
    lemma_to_set_empty::<(int, ConstraintView)>();
    let out = step(st, decls, locs, Statement::Assign(dst, Rvalue::Ref(src)));
    assert(seq![pr] =~= Seq::empty().push(pr));
    assert(out.types =~= st.types);
    assert(out.cs =~= st.cs.insert(pr));
}

/// `*x = &y` (destination depth 1, source direct): exactly the one
/// constraint `StoreAddr(y)` at `x` is added, with zero fresh
/// intermediate locations.
pub proof fn lemma_store_addr_through_pointer(
    st: GenState,
    decls: Seq<Ty>,
    locs: Seq<int>,
    dst: MirPlace,
    src: MirPlace,
)
    requires
        dst.projection@.len() == 1,
        dst.projection@[0] is Deref,
        src.projection@.len() == 0,
    ensures
        step(st, decls, locs, Statement::Assign(dst, Rvalue::Ref(src))) == (GenState {
            types: st.types,
            cs: st.cs.insert(
                (
                    locs[dst.local as int],
                    ConstraintView::StoreAddr(locs[src.local as int]),
                ),
            ),
            errs: st.errs,
        }),
{
    let pr = (locs[dst.local as int], ConstraintView::StoreAddr(locs[src.local as int]));
    lemma_to_set_push(Seq::<(int, ConstraintView)>::empty(), pr);
    lemma_to_set_empty::<(int, ConstraintView)>();
    let out = step(st, decls, locs, Statement::Assign(dst, Rvalue::Ref(src)));
    assert(chain(locs[dst.local as int], st.n(), 0).push(pr) =~= Seq::empty().push(pr));
    assert(out.types =~= st.types);
    assert(out.cs =~= st.cs.insert(pr));
}

/// `x = &*p` cancels algebraically to `x = p`: exactly the one
/// constraint `Copy(p)` at `x` is added, and no location is allocated.
pub proof fn lemma_ref_deref_is_copy(
    st: GenState,
    decls: Seq<Ty>,
    locs: Seq<int>,
    dst: MirPlace,
    src: MirPlace,
)
    requires
        dst.projection@.len() == 0,
        src.projection@.len() == 1,
        src.projection@[0] is Deref,
    ensures
        step(st, decls, locs, Statement::Assign(dst, Rvalue::Ref(src))) == (GenState {
            types: st.types,
            cs: st.cs.insert(
                (locs[dst.local as int], ConstraintView::Copy(locs[src.local as int])),
            ),
            errs: st.errs,
        }),
{
    let pr = (locs[dst.local as int], ConstraintView::Copy(locs[src.local as int]));
    lemma_to_set_push(Seq::<(int, ConstraintView)>::empty(), pr);
    lemma_to_set_empty::<(int, ConstraintView)>();
    let out = step(st, decls, locs, Statement::Assign(dst, Rvalue::Ref(src)));
    assert(seq![pr] =~= Seq::empty().push(pr));
    assert(out.types =~= st.types);
    assert(out.cs =~= st.cs.insert(pr));
}

/// Assigning a constant — or any source that is not pointer-typed —
/// into a pointer-typed destination adds no constraint and allocates no
/// location; it appends exactly one unsupported-constant-pointer
/// condition and nothing else, whether the assignment is plain or a
/// cast. (Both triggering cases report under the one condition.)
pub proof fn lemma_constant_source_reported(
    st: GenState,
    decls: Seq<Ty>,
    locs: Seq<int>,
    dst: MirPlace,
    op: Operand,
)
    requires
        place_is_ptr_spec(decls, dst),
        op is Constant || !operand_is_ptr_spec(decls, op),
    ensures
        assign_step(st, decls, locs, dst, op) == (GenState {
            types: st.types,
            cs: st.cs,
            errs: st.errs.push(SimpleAndersonError::UnsupportedConstantPointer),
        }),
        step(st, decls, locs, Statement::Assign(dst, Rvalue::Use(op))) == assign_step(
            st,
            decls,
            locs,
            dst,
            op,
        ),
        step(st, decls, locs, Statement::Assign(dst, Rvalue::Cast(op))) == assign_step(
            st,
            decls,
            locs,
            dst,
            op,
        ),
{
}

/// A statement is shallow when it reaches through at most one pointer
/// level in total, counting the `&*` cancellation.
pub open spec fn stmt_shallow(stmt: Statement) -> bool {
    match stmt {
        Statement::Assign(dst, rv) => match rv {
            Rvalue::Use(op) => match op {
                Operand::Copy(p) => dst.projection@.len() + p.projection@.len() <= 1,
                Operand::Move(p) => dst.projection@.len() + p.projection@.len() <= 1,
                Operand::Constant(_) => true,
            },
            Rvalue::Cast(op) => match op {
                Operand::Copy(p) => dst.projection@.len() + p.projection@.len() <= 1,
                Operand::Move(p) => dst.projection@.len() + p.projection@.len() <= 1,
                Operand::Constant(_) => true,
            },
            Rvalue::Ref(src) => if src.projection@.len() == 0 {
                dst.projection@.len() <= 1
            } else {
                dst.projection@.len() + src.projection@.len() <= 2
            },
            Rvalue::AddressOf(src) => if src.projection@.len() == 0 {
                dst.projection@.len() <= 1
            } else {
                dst.projection@.len() + src.projection@.len() <= 2
            },
            _ => true,
        },
        _ => true,
    }
}

/// A shallow statement allocates no fresh location.
pub proof fn lemma_shallow_stmt_fresh(decls: Seq<Ty>, stmt: Statement)
    requires
        stmt_shallow(stmt),
    ensures
        stmt_fresh(decls, stmt) == 0,
{
}

proof fn lemma_run_stmts_shallow(
    st: GenState,
    decls: Seq<Ty>,
    locs: Seq<int>,
    stmts: Seq<Statement>,
)
    requires
        forall|si: int| 0 <= si < stmts.len() ==> stmt_shallow(#[trigger] stmts[si]),
    ensures
        run_stmts(st, decls, locs, stmts).n() == st.n(),
    decreases stmts.len(),
{
    if stmts.len() > 0 {
        lemma_shallow_stmt_fresh(decls, stmts[0]);
        lemma_step_n(st, decls, locs, stmts[0]);
        assert(forall|si: int|
            0 <= si < stmts.drop_first().len() ==> stmt_shallow(#[trigger] stmts.drop_first()[si]));
        lemma_run_stmts_shallow(step(st, decls, locs, stmts[0]), decls, locs, stmts.drop_first());
    }
}

proof fn lemma_run_blocks_shallow(
    st: GenState,
    decls: Seq<Ty>,
    locs: Seq<int>,
    blocks: Seq<crate::ir::BasicBlock>,
)
    requires
        forall|bi: int, si: int|
            0 <= bi < blocks.len() && 0 <= si < blocks[bi].statements@.len() ==> stmt_shallow(
                #[trigger] blocks[bi].statements@[si],
            ),
    ensures
        run_blocks(st, decls, locs, blocks).n() == st.n(),
    decreases blocks.len(),
{
    if blocks.len() > 0 {
        lemma_run_stmts_shallow(st, decls, locs, blocks[0].statements@);
        assert(forall|bi: int, si: int|
            0 <= bi < blocks.drop_first().len() && 0 <= si
                < blocks.drop_first()[bi].statements@.len() ==> stmt_shallow(
                #[trigger] blocks.drop_first()[bi].statements@[si],
            ));
        lemma_run_blocks_shallow(
            run_stmts(st, decls, locs, blocks[0].statements@),
            decls,
            locs,
            blocks.drop_first(),
        );
    }
}

/// Analyzing a body of `n` declared locals whose statements never reach
/// through more than one pointer level in total allocates exactly the
/// `n` locations of the locals: no intermediate location appears.
pub proof fn lemma_shallow_body_location_count(b: Body)
    requires
        forall|bi: int, si: int|
            0 <= bi < b.basic_blocks@.len() && 0 <= si < b.basic_blocks@[bi].statements@.len()
                ==> stmt_shallow(#[trigger] b.basic_blocks@[bi].statements@[si]),
    ensures
        body_result(b).n() == b.local_decls@.len(),
{
    lemma_run_blocks_shallow(
        init_state(b.local_decls@),
        b.local_decls@,
        crate::semantics::id_locs(b.local_decls@.len() as int),
        b.basic_blocks@,
    );
}

} // verus!
