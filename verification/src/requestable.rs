//! What the multiplexer needs to know of a message: which request it opens
//! and which request it answers.

use std::hash::Hash;
use vstd::prelude::*;
use vstd::std_specs::cmp::PartialEqSpec;

verus! {

/// A message that can open a request or answer one. A response belongs to
/// the request whose id its `to` names; the ids may be of any type that can
/// be compared and hashed.
pub trait Requestable: Sized {
    type Key: PartialEq + Eq + Hash + Send + Clone;

    /// The id under which the message opens a request, if it opens one.
    spec fn spec_req_id(&self) -> Option<Self::Key>;

    /// The id of the request that the message answers, if it answers one.
    spec fn spec_to(&self) -> Option<Self::Key>;

    /// Returns the request's id if it has one.
    fn req_id(&self) -> (id: Option<Self::Key>)
        ensures
            id == self.spec_req_id(),
    ;

    /// Returns the id of the request responded to.
    fn to(&self) -> (id: Option<Self::Key>)
        ensures
            id == self.spec_to(),
    ;

    /// A message that has a request id is a request. A response may at the
    /// same time be a request.
    fn is_request(&self) -> (r: bool)
        ensures
            r == self.spec_req_id().is_some(),
    {
        match self.req_id() {
            Some(_) => true,
            None => false,
        }
    }

    /// A message that names the request it answers is a response. A response
    /// may at the same time be a request.
    fn is_response(&self) -> (r: bool)
        ensures
            r == self.spec_to().is_some(),
    {
        match self.to() {
            Some(_) => true,
            None => false,
        }
    }
}

/// Whether `==` on the ids of `T` decides whether two ids are the same
/// value. The multiplexer relies on it to find the request that a response
/// answers.
pub open spec fn keys_comparable<T: Requestable>() -> bool {
    &&& T::Key::obeys_eq_spec()
    &&& forall|a: T::Key, b: T::Key| #[trigger] a.eq_spec(&b) <==> a == b
}

/// Whether two ids are the same.
pub fn same_key<T: Requestable>(a: &T::Key, b: &T::Key) -> (r: bool)
    requires
        keys_comparable::<T>(),
    ensures
        r == (*a == *b),
{
    *a == *b
}

} // verus!
