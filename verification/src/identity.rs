//! Equality of indexed nodes: two nodes are equal when they are the same
//! node, that is, when they stand at the same place of the same file.
//! Equal spans or equal text do not make two nodes equal.

use vstd::prelude::*;
use crate::node::IndexedNode;
use crate::text::str_eq;

verus! {

impl PartialEq for IndexedNode {
    fn eq(&self, other: &Self) -> (same: bool) {
        self.id() == other.id() && str_eq(self.path(), other.path())
    }
}

impl Eq for IndexedNode {

}

impl vstd::std_specs::cmp::PartialEqSpecImpl for IndexedNode {
    open spec fn obeys_eq_spec() -> bool {
        true
    }

    open spec fn eq_spec(&self, other: &Self) -> bool {
        self@.key() == other@.key()
    }
}

} // verus!
