//! The parent and child views that a handler may join.
use crate::store::Entity;
use crate::traits::QueryError;
use vstd::prelude::*;

verus! {

/// A record of the indexed view: an auxiliary record under its identity.
#[derive(Debug)]
pub struct ParentRecord<P> {
    pub entity: Entity,
    pub component: P,
}

/// A record of the relation view: an auxiliary record with the identity of
/// the record it declares as its parent.
#[derive(Debug)]
pub struct ChildRecord<C> {
    pub parent: Entity,
    pub entity: Entity,
    pub component: C,
}

/// Some record of `parents` stands under the identity `entity`.
pub open spec fn has_parent<P>(parents: Seq<ParentRecord<P>>, entity: Entity) -> bool {
    exists|p: int| 0 <= p < parents.len() && (#[trigger] parents[p]).entity == entity
}

/// `child` and `parent` are the places of the first match of the join: the
/// first child whose declared parent is in the indexed view, and the first
/// record of that view under the parent's identity.
pub open spec fn is_first_match<P, C>(
    parents: Seq<ParentRecord<P>>,
    children: Seq<ChildRecord<C>>,
    child: int,
    parent: int,
) -> bool {
    &&& 0 <= child < children.len()
    &&& 0 <= parent < parents.len()
    &&& parents[parent].entity == children[child].parent
    &&& forall|p: int| 0 <= p < parent ==> (#[trigger] parents[p]).entity != children[child].parent
    &&& forall|c: int| 0 <= c < child ==> !has_parent(parents, (#[trigger] children[c]).parent)
}

/// The place of the first record of `parents` under the identity `entity`,
/// or `None` if there is none.
pub fn find_parent<P>(parents: &Vec<ParentRecord<P>>, entity: Entity) -> (found: Option<usize>)
    ensures
        match found {
            Some(at) => {
                &&& at < parents@.len()
                &&& parents@[at as int].entity == entity
                &&& forall|p: int| 0 <= p < at ==> (#[trigger] parents@[p]).entity != entity
            },
            None => !has_parent(parents@, entity),
        },
{
    let mut at: usize = 0;
    while at < parents.len()
        invariant
            at <= parents@.len(),
            forall|p: int| 0 <= p < at ==> (#[trigger] parents@[p]).entity != entity,
        decreases parents@.len() - at,
    {
        if parents[at].entity.index == entity.index {
            return Some(at);
        }
        at += 1;
    }
    None
}

/// Joins the two views: scans the children in order and stops at the first
/// one whose declared parent is among `parents`. Returns the places of that
/// child and of its parent, or `MissingRelation` if no child has its parent
/// in the view.
pub fn first_related<P, C>(parents: &Vec<ParentRecord<P>>, children: &Vec<ChildRecord<C>>) -> (found:
    Result<(usize, usize), QueryError>)
    ensures
        match found {
            Ok((child, parent)) => is_first_match(parents@, children@, child as int, parent as int),
            Err(error) => {
                &&& error == QueryError::MissingRelation
                &&& forall|c: int|
                    0 <= c < children@.len() ==> !has_parent(
                        parents@,
                        (#[trigger] children@[c]).parent,
                    )
            },
        },
{
    let mut child: usize = 0;
    while child < children.len()
        invariant
            child <= children@.len(),
            forall|c: int|
                0 <= c < child ==> !has_parent(parents@, (#[trigger] children@[c]).parent),
        decreases children@.len() - child,
    {
        match find_parent(parents, children[child].parent) {
            Some(parent) => {
                return Ok((child, parent));
            },
            None => {},
        }
        child += 1;
    }
    Err(QueryError::MissingRelation)
}

} // verus!
