//! The slice of the host program representation that the analysis reads:
//! typed local declarations, basic blocks of statements, right-hand-side
//! classification, and places (a base local plus a projection list).
//! A type is abstracted to its pointer nesting depth, the one fact the
//! field-insensitive analysis consumes.

use vstd::prelude::*;

use crate::constraints::Ty;

verus! {

/// One element of a place's projection list. Only dereference is
/// interpreted; any other projection carries the type it produces and
/// is rejected when a place is lowered.
#[derive(Clone, Copy, Debug)]
pub enum Projection {
    /// one pointer dereference
    Deref,
    /// an uninterpreted projection (field access, indexing, ...) whose
    /// result has the given type
    Other(Ty),
}

/// A storage-access expression: a base local with projections applied
/// left to right.
#[derive(Clone, Debug)]
pub struct MirPlace {
    /// index of the base local variable in the instance's declarations
    pub local: usize,
    pub projection: Vec<Projection>,
}

/// A right-hand-side value source.
#[derive(Clone, Debug)]
pub enum Operand {
    /// read a place by value
    Copy(MirPlace),
    /// read a place by move
    Move(MirPlace),
    /// a literal or other constant of the given type
    Constant(Ty),
}

/// The right-hand side of an assignment, classified as far as the
/// analysis distinguishes shapes.
#[derive(Clone, Debug)]
pub enum Rvalue {
    /// plain value use
    Use(Operand),
    /// a type cast of an operand
    Cast(Operand),
    /// `&place` / `&mut place`
    Ref(MirPlace),
    /// `addr_of place`
    AddressOf(MirPlace),
    /// arithmetic or comparison operator; never produces an alias here
    BinaryOp,
    /// unary operator; never produces an alias here
    UnaryOp,
    /// any right-hand-side shape the analysis does not model
    Other,
}

/// One statement of a basic block.
#[derive(Clone, Debug)]
pub enum Statement {
    Assign(MirPlace, Rvalue),
    StorageLive,
    StorageDead,
    Nop,
    /// any statement kind the analysis does not model
    Other,
}

#[derive(Clone, Debug)]
pub struct BasicBlock {
    pub statements: Vec<Statement>,
}

/// A callable instance's body: its local declarations, in declaration
/// order (return slot, parameters, temporaries), and its basic blocks.
#[derive(Clone, Debug)]
pub struct Body {
    pub local_decls: Vec<Ty>,
    pub basic_blocks: Vec<BasicBlock>,
}

/// The type produced by applying a projection list to a base type, or
/// `None` where a dereference is applied to a non-pointer.
pub open spec fn apply_projections(t: Ty, projs: Seq<Projection>) -> Option<Ty>
    decreases projs.len(),
{
    if projs.len() == 0 {
        Some(t)
    } else {
        match projs[0] {
            Projection::Deref => if t.ptr_depth > 0 {
                apply_projections(Ty { ptr_depth: (t.ptr_depth - 1) as usize }, projs.drop_first())
            } else {
                None
            },
            Projection::Other(t2) => apply_projections(t2, projs.drop_first()),
        }
    }
}

/// The type of a place under the given declarations.
pub open spec fn place_ty_spec(decls: Seq<Ty>, p: MirPlace) -> Option<Ty> {
    if p.local < decls.len() {
        apply_projections(decls[p.local as int], p.projection@)
    } else {
        None
    }
}

/// A place is well formed when its base local is declared and every
/// dereference in it is applied to a pointer-typed prefix.
pub open spec fn place_wf(decls: Seq<Ty>, p: MirPlace) -> bool {
    place_ty_spec(decls, p) is Some
}

/// Whether a place's type is a pointer (of any kind).
pub open spec fn place_is_ptr_spec(decls: Seq<Ty>, p: MirPlace) -> bool {
    match place_ty_spec(decls, p) {
        Some(t) => t.ptr_depth > 0,
        None => false,
    }
}

pub open spec fn operand_wf(decls: Seq<Ty>, op: Operand) -> bool {
    match op {
        Operand::Copy(p) => place_wf(decls, p),
        Operand::Move(p) => place_wf(decls, p),
        Operand::Constant(_) => true,
    }
}

/// Whether an operand's type is a pointer (of any kind).
pub open spec fn operand_is_ptr_spec(decls: Seq<Ty>, op: Operand) -> bool {
    match op {
        Operand::Copy(p) => place_is_ptr_spec(decls, p),
        Operand::Move(p) => place_is_ptr_spec(decls, p),
        Operand::Constant(t) => t.ptr_depth > 0,
    }
}

/// A statement is well formed when its places are, and the destination
/// of a reference-forming assignment is pointer-typed (the producer of
/// the representation guarantees this; its violation is a producer bug).
pub open spec fn stmt_wf(decls: Seq<Ty>, stmt: Statement) -> bool {
    match stmt {
        Statement::Assign(dst, rv) => place_wf(decls, dst) && match rv {
            Rvalue::Use(op) => operand_wf(decls, op),
            Rvalue::Cast(op) => operand_wf(decls, op),
            Rvalue::Ref(src) => place_wf(decls, src) && place_is_ptr_spec(decls, dst),
            Rvalue::AddressOf(src) => place_wf(decls, src) && place_is_ptr_spec(decls, dst),
            _ => true,
        },
        _ => true,
    }
}

pub open spec fn body_wf(b: Body) -> bool {
    forall|bi: int, si: int|
        0 <= bi < b.basic_blocks@.len() && 0 <= si < b.basic_blocks@[bi].statements@.len()
            ==> stmt_wf(b.local_decls@, #[trigger] b.basic_blocks@[bi].statements@[si])
}

/// Whether every projection of the list is a dereference.
pub open spec fn all_derefs(projs: Seq<Projection>) -> bool {
    forall|i: int| 0 <= i < projs.len() ==> #[trigger] projs[i] is Deref
}

/// Computes the type of a place, or `None` where a dereference is
/// applied to a non-pointer or the base local is undeclared.
pub fn place_ty(decls: &Vec<Ty>, p: &MirPlace) -> (r: Option<Ty>)
    ensures
        r == place_ty_spec(decls@, *p),
{
    if p.local >= decls.len() {
        return None;
    }
    let mut cur: Ty = decls[p.local];
    let mut i: usize = 0;
    let n = p.projection.len();
    proof {
        assert(p.projection@.skip(0) =~= p.projection@);
    }
    while i < n
        invariant
            0 <= i <= n,
            n == p.projection@.len(),
            p.local < decls@.len(),
            apply_projections(decls@[p.local as int], p.projection@) == apply_projections(
                cur,
                p.projection@.skip(i as int),
            ),
        decreases n - i,
    {
        proof {
            assert(p.projection@.skip(i as int).drop_first() =~= p.projection@.skip(i + 1));
            assert(p.projection@.skip(i as int)[0] == p.projection@[i as int]);
        }
        match p.projection[i] {
            Projection::Deref => {
                if cur.ptr_depth == 0 {
                    return None;
                }
                cur = Ty { ptr_depth: cur.ptr_depth - 1 };
            },
            Projection::Other(t2) => {
                cur = t2;
            },
        }
        i = i + 1;
    }
    proof {
        assert(p.projection@.skip(n as int) =~= Seq::<Projection>::empty());
    }
    Some(cur)
}

} // verus!
