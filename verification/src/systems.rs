//! The steps of one tick, in the order in which a tick runs them: ingress,
//! dispatch, and garbage collection. Every step takes the store it works on;
//! no two steps run at the same time.
use crate::laws::{
    lemma_claim_follows, lemma_dispatch_follows, lemma_flagged_goal_is_swept,
    lemma_infallible_pass_completes, lemma_ingress_follows, lemma_kept_goal_survives_sweep,
    lemma_sweep_follows,
};
use crate::relations::{ChildRecord, ParentRecord};
use crate::store::{entity_of, is_flagged, is_kept, is_pending, Entity, GoalRecord, GoalStore};
use crate::structs::{QueryEvent, QueryRequest};
use crate::traits::{
    QueryError, QueryParentOps, QueryReplyOps, QueryServerOps, QuerySupplementOps,
};
use vstd::prelude::*;

verus! {

/// The store is `before` after the ingress of `events`: one new pending goal
/// for every event, in the order of the events, behind the goals of `before`.
pub open spec fn spawned_from<T, U>(
    after: &GoalStore<T, U>,
    before: &GoalStore<T, U>,
    events: Seq<QueryEvent<T>>,
) -> bool {
    &&& after.issued() == before.issued() + events.len()
    &&& after@.len() == before@.len() + events.len()
    &&& forall|i: int| 0 <= i < before@.len() ==> #[trigger] after@[i] == before@[i]
    &&& forall|i: int|
        before@.len() <= i < after@.len() ==> (#[trigger] after@[i]).is_new(
            Entity { index: (before.issued() + (i - before@.len())) as u64 },
            events[i - before@.len()].uuid,
            events[i - before@.len()].request,
        )
}

/// Drains the queue of inbound events into the store, first in, first out:
/// every event becomes a new pending goal with the event's identifier and
/// payload, no event is dropped or merged with another, and the queue is left
/// empty. Returns the identities of the new goals in the order of the events.
pub fn spawn_request_endpoint<T, U>(
    store: &mut GoalStore<T, U>,
    events: &mut Vec<QueryEvent<T>>,
) -> (spawned: Vec<Entity>)
    requires
        old(store).wf(),
        old(store).issued() + old(events)@.len() <= u64::MAX,
    ensures
        final(store).wf(),
        spawned_from(final(store), old(store), old(events)@),
        final(store).follows(old(store)),
        final(events)@.len() == 0,
        spawned@.len() == old(events)@.len(),
        forall|k: int|
            0 <= k < spawned@.len() ==> #[trigger] spawned@[k] == (Entity {
                index: (old(store).issued() + k) as u64,
            }),
{
    let ghost before = *store;
    let ghost posted = events@;
    let mut drained: Vec<QueryEvent<T>> = Vec::new();
    core::mem::swap(events, &mut drained);
    let mut spawned: Vec<Entity> = Vec::new();
    for event in iter: drained
        invariant
            iter.seq() == posted,
            before.wf(),
            store.wf(),
            before.issued() + posted.len() <= u64::MAX,
            spawned@.len() == iter.index(),
            spawned_from(store, &before, posted.take(iter.index())),
            forall|k: int|
                0 <= k < spawned@.len() ==> #[trigger] spawned@[k] == (Entity {
                    index: (before.issued() + k) as u64,
                }),
    {
        let ghost earlier = store@;
        let ghost done = iter.index();
        let QueryEvent { uuid, request } = event;
        let entity = store.submit(uuid, request);
        spawned.push(entity);
        proof {
            assert forall|i: int| 0 <= i < store@.len() - 1 implies #[trigger] store@[i]
                == earlier[i] by {
                assert(store@.drop_last()[i] == store@[i]);
            }
            assert(posted.take(done + 1)[done] == posted[done]);
            assert(forall|i: int| 0 <= i < done ==> posted.take(done + 1)[i] == posted.take(done)[i]);
        }
    }
    proof {
        assert(posted.take(posted.len() as int) =~= posted);
        lemma_ingress_follows(old(store), store, posted);
    }
    spawned
}

/// The record is `before` with some outcome committed that `answers` allows
/// for the record's request.
pub open spec fn resolved_by<T, U>(
    after: GoalRecord<T, U>,
    before: GoalRecord<T, U>,
    answers: spec_fn(QueryRequest<T>, Result<U, QueryError>) -> bool,
) -> bool {
    exists|outcome: Result<U, QueryError>|
        answers(before.request, outcome) && #[trigger] after.committed_from(before, outcome)
}

/// The store is `before` after one dispatch pass whose handler answers as
/// `answers` allows: every goal that was pending has had an outcome of its
/// handler committed, and nothing else changed.
pub open spec fn dispatched_from<T, U>(
    after: &GoalStore<T, U>,
    before: &GoalStore<T, U>,
    answers: spec_fn(QueryRequest<T>, Result<U, QueryError>) -> bool,
) -> bool {
    &&& after.issued() == before.issued()
    &&& after@.len() == before@.len()
    &&& forall|i: int|
        #![trigger after@[i]]
        0 <= i < after@.len() ==> if before@[i].state() is Pending {
            resolved_by(after@[i], before@[i], answers)
        } else {
            after@[i] == before@[i]
        }
}

/// Runs one dispatch pass with `handler` as the resolver: first claims every
/// pending goal, so that the batch of this pass is fixed and no goal can be
/// taken twice, then calls `handler` on the request of each claimed goal, in
/// the order of submission, and commits what it returns. A reply completes
/// the goal and is attached to it; a failure flags the goal for removal, and
/// the goal is not tried again. Returns the identities of the goals of the
/// batch, oldest first.
pub fn run_query_server_with<T, U, F>(store: &mut GoalStore<T, U>, handler: F) -> (batch: Vec<Entity>)
    where
        F: Fn(&QueryRequest<T>) -> Result<U, QueryError>,
    requires
        old(store).wf(),
        forall|i: int|
            0 <= i < old(store)@.len() && (#[trigger] old(store)@[i]).state() is Pending
                ==> call_requires(handler, (&old(store)@[i].request,)),
    ensures
        final(store).wf(),
        dispatched_from(
            final(store),
            old(store),
            |request: QueryRequest<T>, outcome: Result<U, QueryError>|
                call_ensures(handler, (&request,), outcome),
        ),
        final(store).follows(old(store)),
        batch@ == old(store)@.filter(is_pending()).map_values(entity_of()),
{
    let ghost before = store@;
    let ghost issued = store.issued();
    let claimed = store.claim_pending();
    let ghost mut outcomes: Map<int, Result<U, QueryError>> = Map::empty();
    let mut batch: Vec<Entity> = Vec::new();
    let mut k: usize = 0;
    while k < claimed.len()
        invariant
            store.wf(),
            k <= claimed@.len(),
            batch@.len() == k,
            forall|j: int|
                0 <= j < k ==> #[trigger] batch@[j] == before.filter(is_pending())[j].entity,
            GoalStore::<T, U>::lists_pending(claimed@, before),
            store.issued() == issued,
            store@.len() == before.len(),
            forall|i: int|
                0 <= i < before.len() && (#[trigger] before[i]).state() is Pending
                    ==> call_requires(handler, (&before[i].request,)),
            forall|i: int|
                #![trigger store@[i]]
                0 <= i < store@.len() ==> if before[i].state() is Pending {
                    if k < claimed@.len() && claimed@[k as int] <= i {
                        store@[i].claimed_from(before[i])
                    } else {
                        store@[i].committed_from(before[i], outcomes[i])
                    }
                } else {
                    store@[i] == before[i]
                },
            forall|i: int|
                #![trigger before[i]]
                0 <= i < before.len() && before[i].state() is Pending && !(k < claimed@.len()
                    && claimed@[k as int] <= i) ==> call_ensures(
                    handler,
                    (&before[i].request,),
                    outcomes[i],
                ),
        decreases claimed@.len() - k,
    {
        let at: usize = claimed[k];
        let outcome = handler(&store.records()[at].request);
        store.resolve_at(at, outcome);
        batch.push(store.records()[at].entity);
        k += 1;
        proof {
            outcomes = outcomes.insert(at as int, outcome);
            assert(before[at as int].state() is Pending);
            // No pending goal stands between two neighbours of the batch, so
            // the goals still to be resolved are those from the next place on.
            assert forall|i: int|
                0 <= i < before.len() && i != at && (#[trigger] before[i]).state() is Pending
                implies (k < claimed@.len() && claimed@[k as int] <= i) == (claimed@[k - 1]
                <= i) by {
                let m = choose|m: int| 0 <= m < claimed@.len() && (#[trigger] claimed@[m]) == i;
                if m < k - 1 {
                    assert(claimed@[m] < claimed@[k - 1]);
                } else if m > k {
                    assert(claimed@[k as int] < claimed@[m]);
                }
            }
        }
    }
    proof {
        let answers = |request: QueryRequest<T>, outcome: Result<U, QueryError>|
            call_ensures(handler, (&request,), outcome);
        assert forall|i: int|
            #![trigger store@[i]]
            0 <= i < store@.len() && before[i].state() is Pending implies resolved_by(
            store@[i],
            before[i],
            answers,
        ) by {
            assert(answers(before[i].request, outcomes[i]));
            assert(store@[i].committed_from(before[i], outcomes[i]));
        }
        assert(batch@ =~= before.filter(is_pending()).map_values(entity_of()));
        lemma_dispatch_follows(old(store), store, answers);
    }
    batch
}

/// Runs one dispatch pass for handlers that need the request alone and cannot
/// fail: every goal that was pending is resolved with the handler that the
/// reply type registers for the request type, and holds its reply afterwards.
/// Returns the identities of the goals resolved, oldest first.
pub fn run_query_reply<T, U>(store: &mut GoalStore<T, U>) -> (batch: Vec<Entity>)
    where
        U: QueryReplyOps<T>,
    requires
        old(store).wf(),
    ensures
        final(store).wf(),
        dispatched_from(
            final(store),
            old(store),
            |request: QueryRequest<T>, outcome: Result<U, QueryError>|
                outcome is Ok && call_ensures(U::get_reply, (&request,), outcome->Ok_0),
        ),
        final(store).follows(old(store)),
        batch@ == old(store)@.filter(is_pending()).map_values(entity_of()),
        forall|i: int|
            0 <= i < old(store)@.len() && (#[trigger] old(store)@[i]).state() is Pending ==> {
                &&& final(store)@[i].state() is Completed
                &&& final(store)@[i].reply is Some
                &&& call_ensures(
                    U::get_reply,
                    (&old(store)@[i].request,),
                    final(store)@[i].reply->Some_0.reply,
                )
            },
{
    let handler = |request: &QueryRequest<T>| -> (outcome: Result<U, QueryError>)
        ensures
            outcome is Ok && call_ensures(U::get_reply, (request,), outcome->Ok_0),
        { Ok(U::get_reply(request)) };
    let batch = run_query_server_with(store, handler);
    proof {
        let answers = |request: QueryRequest<T>, outcome: Result<U, QueryError>|
            outcome is Ok && call_ensures(U::get_reply, (&request,), outcome->Ok_0);
        assert forall|i: int|
            0 <= i < old(store)@.len() && (#[trigger] old(store)@[i]).state() is Pending implies {
            &&& store@[i].state() is Completed
            &&& store@[i].reply is Some
            &&& call_ensures(
                U::get_reply,
                (&old(store)@[i].request,),
                store@[i].reply->Some_0.reply,
            )
        } by {
            lemma_infallible_pass_completes(old(store), store, answers, i);
        }
    }
    batch
}

/// Runs one dispatch pass for handlers that need the request alone and may
/// fail: every goal that was pending is resolved with the handler that the
/// reply type registers for the request type. Returns the identities of the
/// goals resolved, oldest first.
pub fn run_query_server<T, U>(store: &mut GoalStore<T, U>) -> (batch: Vec<Entity>)
    where
        U: QueryServerOps<T>,
    requires
        old(store).wf(),
    ensures
        final(store).wf(),
        dispatched_from(
            final(store),
            old(store),
            |request: QueryRequest<T>, outcome: Result<U, QueryError>|
                call_ensures(U::get_reply, (&request,), outcome),
        ),
        final(store).follows(old(store)),
        batch@ == old(store)@.filter(is_pending()).map_values(entity_of()),
{
    run_query_server_with(store, U::get_reply)
}

/// Runs one dispatch pass for handlers that also read `supplement`, the view
/// of every live record of one auxiliary kind. Returns the identities of the
/// goals resolved, oldest first.
pub fn run_query_server_with_supplement<T, U, V>(
    store: &mut GoalStore<T, U>,
    supplement: &Vec<V>,
) -> (batch: Vec<Entity>)
    where
        U: QuerySupplementOps<T, V>,
    requires
        old(store).wf(),
    ensures
        final(store).wf(),
        dispatched_from(
            final(store),
            old(store),
            |request: QueryRequest<T>, outcome: Result<U, QueryError>|
                call_ensures(U::get_reply, (&request, supplement), outcome),
        ),
        final(store).follows(old(store)),
        batch@ == old(store)@.filter(is_pending()).map_values(entity_of()),
{
    let handler = |request: &QueryRequest<T>| -> (outcome: Result<U, QueryError>)
        ensures
            call_ensures(U::get_reply, (request, supplement), outcome),
        { U::get_reply(request, supplement) };
    run_query_server_with(store, handler)
}

/// Runs one dispatch pass for handlers that join two views: `parents`, the
/// indexed view, and `children`, the view whose records name their parent.
/// Returns the identities of the goals resolved, oldest first.
pub fn run_query_server_with_parent<T, U, P, C>(
    store: &mut GoalStore<T, U>,
    parents: &Vec<ParentRecord<P>>,
    children: &Vec<ChildRecord<C>>,
) -> (batch: Vec<Entity>)
    where
        U: QueryParentOps<T, P, C>,
    requires
        old(store).wf(),
    ensures
        final(store).wf(),
        dispatched_from(
            final(store),
            old(store),
            |request: QueryRequest<T>, outcome: Result<U, QueryError>|
                call_ensures(U::get_reply, (&request, parents, children), outcome),
        ),
        final(store).follows(old(store)),
        batch@ == old(store)@.filter(is_pending()).map_values(entity_of()),
{
    let handler = |request: &QueryRequest<T>| -> (outcome: Result<U, QueryError>)
        ensures
            call_ensures(U::get_reply, (request, parents, children), outcome),
        { U::get_reply(request, parents, children) };
    run_query_server_with(store, handler)
}

/// A request handed to a worker: the identity of the goal it belongs to and
/// a copy of the payload. The worker owns the copy and holds nothing of the
/// store.
#[derive(Debug)]
pub struct ClientTask<T> {
    pub entity: Entity,
    pub request: QueryRequest<T>,
}

/// The first half of an out-of-process dispatch pass: claims every pending
/// goal and returns, for each goal claimed, the task to hand to a worker. The
/// worker's outcome comes back through `GoalStore::commit_reply`; until it
/// does, the goal stays executing.
pub fn run_query_client<T: Clone, U>(store: &mut GoalStore<T, U>) -> (tasks: Vec<ClientTask<T>>)
    requires
        old(store).wf(),
    ensures
        final(store).wf(),
        final(store).claimed_from(old(store)),
        final(store).follows(old(store)),
        tasks@.len() == old(store)@.filter(is_pending()).len(),
        forall|k: int|
            0 <= k < tasks@.len() ==> {
                &&& (#[trigger] tasks@[k]).entity == old(store)@.filter(is_pending())[k].entity
                &&& cloned(
                    old(store)@.filter(is_pending())[k].request.request,
                    tasks@[k].request.request,
                )
            },
{
    let ghost pending = store@.filter(is_pending());
    let ghost before = store@;
    let claimed = store.claim_pending();
    let mut tasks: Vec<ClientTask<T>> = Vec::new();
    let mut k: usize = 0;
    while k < claimed.len()
        invariant
            k <= claimed@.len(),
            tasks@.len() == k,
            pending == before.filter(is_pending()),
            store@.len() == before.len(),
            GoalStore::<T, U>::lists_pending(claimed@, before),
            forall|i: int|
                0 <= i < store@.len() ==> (#[trigger] store@[i]).entity == before[i].entity
                    && store@[i].request == before[i].request,
            forall|j: int|
                0 <= j < k ==> {
                    &&& (#[trigger] tasks@[j]).entity == pending[j].entity
                    &&& cloned(pending[j].request.request, tasks@[j].request.request)
                },
        decreases claimed@.len() - k,
    {
        let at: usize = claimed[k];
        let record = &store.records()[at];
        assert(*record == store@[at as int]);
        let task = ClientTask { entity: record.entity, request: record.request.clone() };
        tasks.push(task);
        k += 1;
    }
    proof {
        lemma_claim_follows(old(store), store);
    }
    tasks
}

/// One garbage-collection pass: removes every goal flagged for removal, with
/// its request and its reply, whatever state it had reached before it was
/// flagged. Returns the identities of the goals removed, oldest first.
pub fn cleanup_requests<T, U>(store: &mut GoalStore<T, U>) -> (removed: Vec<Entity>)
    requires
        old(store).wf(),
    ensures
        final(store).wf(),
        final(store).swept_from(old(store)),
        final(store).follows(old(store)),
        removed@ == old(store)@.filter(is_flagged()).map_values(entity_of()),
        forall|i: int|
            0 <= i < final(store)@.len() ==> !((#[trigger] final(store)@[i]).state() is ToDelete),
        forall|i: int|
            0 <= i < old(store)@.len() ==> ((#[trigger] old(store)@[i]).state() is ToDelete
                <==> !final(store).contains(old(store)@[i].entity)),
{
    let removed = store.sweep();
    proof {
        lemma_sweep_follows(old(store), store);
        assert forall|i: int| 0 <= i < store@.len() implies !((#[trigger] store@[i]).state()
            is ToDelete) by {
            old(store)@.lemma_filter_pred(is_kept(), i);
        }
        assert forall|i: int| 0 <= i < old(store)@.len() implies ((#[trigger] old(store)@[i]).state()
            is ToDelete <==> !store.contains(old(store)@[i].entity)) by {
            if old(store)@[i].state() is ToDelete {
                lemma_flagged_goal_is_swept(old(store), store, i);
            } else {
                lemma_kept_goal_survives_sweep(old(store), store, i);
            }
        }
    }
    removed
}

} // verus!
