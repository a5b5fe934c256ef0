//! The identifier of a cell.
use vstd::laws_eq::obeys_view_eq;
use vstd::prelude::*;
use vstd::std_specs::cmp::PartialEqSpecImpl;

verus! {

/// The identifier of a cell: its name. Names are case-sensitive.
#[derive(Debug, Hash, PartialOrd, Ord)]
pub struct CellId(pub String);

impl View for CellId {
    type V = Seq<char>;

    open spec fn view(&self) -> Seq<char> {
        self.0@
    }
}

impl PartialEq for CellId {
    fn eq(&self, other: &CellId) -> (r: bool) {
        self.0 == other.0
    }
}

impl PartialEqSpecImpl for CellId {
    open spec fn obeys_eq_spec() -> bool {
        true
    }

    open spec fn eq_spec(&self, other: &CellId) -> bool {
        self.0@ == other.0@
    }
}

impl Eq for CellId {

}

impl Clone for CellId {
    fn clone(&self) -> (r: CellId)
        ensures
            r@ == self@,
    {
        CellId(self.0.clone())
    }
}

impl CellId {
    /// The identifier of the cell with the given name.
    pub fn new(name: &str) -> (id: CellId)
        ensures
            id@ == name@,
    {
        CellId(name.to_owned())
    }
}

/// Two identifiers are equal exactly when they hold the same name.
pub proof fn cell_id_equality()
    ensures
        obeys_view_eq::<CellId>(),
{
    reveal(obeys_view_eq);
}

} // verus!
