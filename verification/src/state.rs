//! Access to the values of a state container through queries.
use core::marker::PhantomData;
use vstd::prelude::*;

verus! {

/// Provides query-based access to a state container.
pub trait QueryState<'a, T: 'a> {
    /// Returns a query value derived from the state.
    fn query(&'a self) -> T;
}

/// Converts a stored type into a query view.
///
/// Implement this when callers should access a reduced or abstracted representation instead of
/// the concrete stored type.
pub trait ToStateQuery {
    /// Query type produced from `Self`.
    type Query<'a> where Self: 'a;

    /// Converts `self` into its query representation.
    fn to_query(&self) -> Self::Query<'_>;
}

/// Lifetime-carrying wrapper for query values.
pub struct StateQueryRef<'a, T> {
    state_query: T,
    phantom: PhantomData<&'a ()>,
}

impl<'a, T> StateQueryRef<'a, T> {
    /// The wrapped query value.
    pub closed spec fn value(&self) -> T {
        self.state_query
    }

    /// Creates a new query wrapper.
    pub fn new(state_query: T) -> (r: StateQueryRef<'a, T>)
        ensures
            r.value() == state_query,
    {
        StateQueryRef { state_query, phantom: PhantomData }
    }

    /// The wrapped query value.
    pub fn get(&self) -> (r: &T)
        ensures
            *r == self.value(),
    {
        &self.state_query
    }
}

impl<'a, T> core::ops::Deref for StateQueryRef<'a, T> {
    type Target = T;

    fn deref(&self) -> (r: &T)
        ensures
            *r == self.value(),
    {
        &self.state_query
    }
}

} // verus!
