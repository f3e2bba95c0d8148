//! A typed identifier, so that a bare `usize` is not taken for one by
//! accident.

use vstd::prelude::*;

verus! {

/// An identifier: a `usize` under a name of its own.
#[derive(PartialEq, Eq, Structural, Clone, Copy, Debug, Hash)]
pub struct Id {
    id: usize,
}

impl Id {
    /// The number that this identifier wraps.
    pub closed spec fn value(self) -> usize {
        self.id
    }

    /// The identifier of `id`, in specifications.
    pub closed spec fn of(id: usize) -> Id {
        Id { id }
    }

    /// The identifier of `id`.
    pub fn new(id: usize) -> (result: Self)
        ensures
            result == Id::of(id),
            result.value() == id,
    {
        Self { id }
    }

    /// The number that this identifier wraps.
    pub fn id(&self) -> (result: usize)
        ensures
            result == self.value(),
    {
        self.id
    }

    /// An identifier is its number: `of` and `value` are inverse to each
    /// other.
    pub proof fn law_id_is_its_number(id: Id, number: usize)
        ensures
            Id::of(number).value() == number,
            Id::of(id.value()) == id,
    {
    }
}

impl std::ops::Deref for Id {
    type Target = usize;

    fn deref(&self) -> (number: &usize)
        ensures
            *number == self.value(),
    {
        &self.id
    }
}

impl From<usize> for Id {
    fn from(id: usize) -> (result: Self) {
        Self { id }
    }
}

impl vstd::std_specs::convert::FromSpecImpl<usize> for Id {
    open spec fn obeys_from_spec() -> bool {
        true
    }

    open spec fn from_spec(id: usize) -> Self {
        Id::of(id)
    }
}

} // verus!
