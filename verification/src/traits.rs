//! The points at which a resolver is bound to a pair of request and reply
//! types. Implementing one of these traits for a reply type registers the
//! handler for that pair; a pair can have one handler of each shape.
use crate::relations::{ChildRecord, ParentRecord};
use crate::structs::QueryRequest;
use vstd::prelude::*;

verus! {

/// Why a request did not get its reply.
#[derive(Clone, Copy, Debug, PartialEq, Eq, Structural)]
pub enum QueryError {
    /// The handler reported that it could not resolve the request.
    HandlerFailure,
    /// No record of the relation view has its parent in the indexed view.
    MissingRelation,
    /// The goal a result was meant for is no longer in the store.
    CommitRace,
}

/// A handler that resolves a request from its payload alone and cannot fail.
///
/// The engine promises nothing about what a handler returns and asks nothing
/// of it: whatever comes back is committed as it is. This holds for the
/// handlers of every shape.
pub trait QueryReplyOps<T>: Sized {
    fn get_reply(request: &QueryRequest<T>) -> Self;
}

/// A handler that resolves a request from its payload alone and may report a
/// failure.
pub trait QueryServerOps<T>: Sized {
    fn get_reply(request: &QueryRequest<T>) -> Result<Self, QueryError>;
}

/// A handler that resolves a request from its payload and a view of every
/// live record of one auxiliary kind.
pub trait QuerySupplementOps<T, V>: Sized {
    fn get_reply(request: &QueryRequest<T>, supplement: &Vec<V>) -> Result<Self, QueryError>;
}

/// A handler that resolves a request from its payload and two views: the
/// parent records, each under its identity, and the child records, each with
/// the identity of its parent.
pub trait QueryParentOps<T, P, C>: Sized {
    fn get_reply(
        request: &QueryRequest<T>,
        parents: &Vec<ParentRecord<P>>,
        children: &Vec<ChildRecord<C>>,
    ) -> Result<Self, QueryError>;
}

} // verus!
