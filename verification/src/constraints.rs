//! The constraint model: abstract memory locations, the five canonical
//! constraint kinds, and the factory that numbers locations densely.

use vstd::prelude::*;

verus! {

/// Identifier of an abstract memory location: a dense, 0-based index.
pub type NodeId = usize;

/// A directed constraint whose source location is the payload; the sink
/// location is the index of the bucket the constraint is stored under.
#[derive(Clone, Copy, Debug, PartialEq, Eq, Structural)]
pub enum Constraint {
    /// sink receives the address of the source
    AddrOf(NodeId),
    /// sink receives the same pointer value as the source
    Copy(NodeId),
    /// sink receives whatever the source points to (one dereference)
    Load(NodeId),
    /// what the sink points to receives the source's pointer value
    Store(NodeId),
    /// what the sink points to receives the address of the source
    StoreAddr(NodeId),
}

/// Mathematical image of a `Constraint`, with the source id as an `int`,
/// used by every contract that speaks of emitted constraints.
pub ghost enum ConstraintView {
    AddrOf(int),
    Copy(int),
    Load(int),
    Store(int),
    StoreAddr(int),
}

impl View for Constraint {
    type V = ConstraintView;

    open spec fn view(&self) -> ConstraintView {
        match *self {
            Constraint::AddrOf(s) => ConstraintView::AddrOf(s as int),
            Constraint::Copy(s) => ConstraintView::Copy(s as int),
            Constraint::Load(s) => ConstraintView::Load(s as int),
            Constraint::Store(s) => ConstraintView::Store(s as int),
            Constraint::StoreAddr(s) => ConstraintView::StoreAddr(s as int),
        }
    }
}

/// Two constraints with the same view are the same constraint.
pub proof fn lemma_constraint_view_injective(a: Constraint, b: Constraint)
    ensures
        a@ == b@ ==> a == b,
{
}

/// The type tag a location may carry: the one fact of a declared type
/// this analysis reads is how many pointer levels wrap the pointee.
#[derive(Clone, Copy, Debug, PartialEq, Eq, Structural)]
pub struct Ty {
    /// number of pointer/reference levels of the type (`0` for a non-pointer)
    pub ptr_depth: usize,
}

/// One abstract memory object: a variable, parameter, return slot, or a
/// synthetic intermediate created while peeling indirections.
#[derive(Clone, Copy, Debug)]
pub struct Location {
    /// dense, 0-based id, assigned in allocation order
    pub id: NodeId,
    /// the declared type captured at allocation time, if any
    pub ty: Option<Ty>,
}

/// Allocates locations with dense, monotonically increasing ids and
/// remembers each location's declared type tag.
pub struct LocationFactory {
    types: Vec<Option<Ty>>,
}

impl LocationFactory {
    /// The sequence of type tags, one per allocated location, in id order.
    pub closed spec fn types_seq(self) -> Seq<Option<Ty>> {
        self.types@
    }

    /// Number of locations allocated so far.
    pub open spec fn count_spec(self) -> int {
        self.types_seq().len() as int
    }

    pub fn new() -> (r: LocationFactory)
        ensures
            r.types_seq() == Seq::<Option<Ty>>::empty(),
    {
        LocationFactory { types: Vec::new() }
    }

    /// Allocates a fresh location: its id is the current count.
    pub fn next(&mut self, ty: Option<Ty>) -> (r: Location)
        requires
            old(self).count_spec() < usize::MAX,
        ensures
            final(self).types_seq() == old(self).types_seq().push(ty),
            r.id == old(self).count_spec(),
            r.ty == ty,
    {
        let id = self.types.len();
        self.types.push(ty);
        Location { id, ty }
    }

    /// Resets the id counter and the type table to empty.
    pub fn clear(&mut self)
        ensures
            final(self).types_seq() == Seq::<Option<Ty>>::empty(),
    {
        self.types.clear();
    }

    pub fn num_locations(&self) -> (r: usize)
        ensures
            r == self.count_spec(),
    {
        self.types.len()
    }
}

} // verus!
