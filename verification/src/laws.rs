//! What holds of the engine across its operations.
use crate::lifecycle::lemma_can_reach_is_an_order;
use crate::store::{is_kept, is_pending, Entity, GoalRecord, GoalStore};
use crate::structs::{QueryEvent, QueryRequest};
use crate::systems::{dispatched_from, spawned_from};
use crate::traits::QueryError;
use vstd::prelude::*;

verus! {

/// A store follows itself, and following composes: whatever holds from one
/// operation to the next holds over any run of operations.
pub proof fn lemma_follows_is_a_preorder<T, U>(
    first: &GoalStore<T, U>,
    second: &GoalStore<T, U>,
    third: &GoalStore<T, U>,
)
    ensures
        first.follows(first),
        third.follows(second) && second.follows(first) ==> third.follows(first),
{
    assert forall|i: int| #![trigger first@[i]] 0 <= i < first@.len() implies exists|j: int|
        0 <= j < first@.len() && first@[i].carries_on(#[trigger] first@[j]) by {
        assert(first@[i].carries_on(first@[i]));
    }
    if third.follows(second) && second.follows(first) {
        assert forall|i: int| #![trigger third@[i]] 0 <= i < third@.len() implies {
            ||| first.issued() <= third@[i].entity.index
            ||| exists|j: int| 0 <= j < first@.len() && third@[i].carries_on(#[trigger] first@[j])
        } by {
            if third@[i].entity.index < second.issued() {
                let m = choose|m: int|
                    0 <= m < second@.len() && third@[i].carries_on(#[trigger] second@[m]);
                if second@[m].entity.index < first.issued() {
                    let j = choose|j: int|
                        0 <= j < first@.len() && second@[m].carries_on(#[trigger] first@[j]);
                    lemma_can_reach_is_an_order(
                        first@[j].state(),
                        second@[m].state(),
                        third@[i].state(),
                    );
                    assert(third@[i].carries_on(first@[j]));
                }
            }
        }
    }
}

/// Over any stretch of the store's history a goal keeps its identity, its
/// caller's identifier and its request, and its state only moves forward in
/// the lifecycle: a goal seen in one state is never seen in an earlier one.
pub proof fn lemma_no_goal_moves_backwards<T, U>(
    earlier: &GoalStore<T, U>,
    later: &GoalStore<T, U>,
    i: int,
    j: int,
)
    requires
        earlier.wf(),
        later.follows(earlier),
        0 <= i < earlier@.len(),
        0 <= j < later@.len(),
        earlier@[i].entity == later@[j].entity,
    ensures
        later@[j].carries_on(earlier@[i]),
        earlier@[i].state().can_reach(later@[j].state()),
        later@[j].state().can_reach(earlier@[i].state()) ==> later@[j].state() == earlier@[i].state(),
{
    let m = choose|m: int| 0 <= m < earlier@.len() && later@[j].carries_on(#[trigger] earlier@[m]);
    earlier.lemma_one_record_per_entity(i, m);
    lemma_can_reach_is_an_order(earlier@[i].state(), later@[j].state(), earlier@[i].state());
}

/// Once an identity is retired it stays retired: a goal that was removed
/// never comes back under the identity it had.
pub proof fn lemma_retired_stays_retired<T, U>(
    earlier: &GoalStore<T, U>,
    later: &GoalStore<T, U>,
    entity: Entity,
)
    requires
        later.follows(earlier),
        earlier.retired(entity),
    ensures
        later.retired(entity),
{
    if later.contains(entity) {
        let i = choose|i: int| 0 <= i < later@.len() && (#[trigger] later@[i]).entity == entity;
        let j = choose|j: int| 0 <= j < earlier@.len() && later@[i].carries_on(#[trigger] earlier@[j]);
        assert(earlier@[j].entity == entity);
    }
}

/// A submission is a step of the store's history.
pub proof fn lemma_submission_follows<T, U>(
    before: &GoalStore<T, U>,
    after: &GoalStore<T, U>,
    uuid: uuid::Uuid,
    payload: T,
)
    requires
        before.wf(),
        after.submitted_from(before, uuid, payload),
    ensures
        after.follows(before),
{
    assert forall|i: int| #![trigger after@[i]] 0 <= i < after@.len() implies {
        ||| before.issued() <= after@[i].entity.index
        ||| exists|j: int| 0 <= j < before@.len() && after@[i].carries_on(#[trigger] before@[j])
    } by {
        if i < before@.len() {
            assert(after@.drop_last()[i] == after@[i]);
            assert(after@[i].carries_on(before@[i]));
        }
    }
}

/// The ingress of a batch of events is a step of the store's history.
pub proof fn lemma_ingress_follows<T, U>(
    before: &GoalStore<T, U>,
    after: &GoalStore<T, U>,
    events: Seq<QueryEvent<T>>,
)
    requires
        after.wf(),
        spawned_from(after, before, events),
    ensures
        after.follows(before),
{
    assert forall|i: int| #![trigger after@[i]] 0 <= i < after@.len() implies {
        ||| before.issued() <= after@[i].entity.index
        ||| exists|j: int| 0 <= j < before@.len() && after@[i].carries_on(#[trigger] before@[j])
    } by {
        if i < before@.len() {
            assert(after@[i].carries_on(before@[i]));
        }
    }
}

/// A claim is a step of the store's history.
pub proof fn lemma_claim_follows<T, U>(before: &GoalStore<T, U>, after: &GoalStore<T, U>)
    requires
        after.claimed_from(before),
    ensures
        after.follows(before),
{
    assert forall|i: int| #![trigger after@[i]] 0 <= i < after@.len() implies exists|j: int|
        0 <= j < before@.len() && after@[i].carries_on(#[trigger] before@[j]) by {
        assert(after@[i].carries_on(before@[i]));
    }
}

/// A commit is a step of the store's history, whatever the outcome and
/// whatever state the goal was in.
pub proof fn lemma_commit_follows<T, U>(
    before: &GoalStore<T, U>,
    after: &GoalStore<T, U>,
    entity: Entity,
    outcome: Result<U, QueryError>,
)
    requires
        after.committed_at(before, entity, outcome),
    ensures
        after.follows(before),
{
    assert forall|i: int| #![trigger after@[i]] 0 <= i < after@.len() implies exists|j: int|
        0 <= j < before@.len() && after@[i].carries_on(#[trigger] before@[j]) by {
        assert(after@[i].carries_on(before@[i]));
    }
}

/// Flagging a goal for removal is a step of the store's history.
pub proof fn lemma_flag_follows<T, U>(
    before: &GoalStore<T, U>,
    after: &GoalStore<T, U>,
    entity: Entity,
)
    requires
        after.flagged_at(before, entity),
    ensures
        after.follows(before),
{
    assert forall|i: int| #![trigger after@[i]] 0 <= i < after@.len() implies exists|j: int|
        0 <= j < before@.len() && after@[i].carries_on(#[trigger] before@[j]) by {
        assert(after@[i].carries_on(before@[i]));
    }
}

/// A dispatch pass is a step of the store's history, whatever its handler
/// answers.
pub proof fn lemma_dispatch_follows<T, U>(
    before: &GoalStore<T, U>,
    after: &GoalStore<T, U>,
    answers: spec_fn(QueryRequest<T>, Result<U, QueryError>) -> bool,
)
    requires
        dispatched_from(after, before, answers),
    ensures
        after.follows(before),
{
    assert forall|i: int| #![trigger after@[i]] 0 <= i < after@.len() implies exists|j: int|
        0 <= j < before@.len() && after@[i].carries_on(#[trigger] before@[j]) by {
        if before@[i].state() is Pending {
            let outcome = choose|outcome: Result<U, QueryError>|
                answers(before@[i].request, outcome) && #[trigger] after@[i].committed_from(
                    before@[i],
                    outcome,
                );
            assert(after@[i].committed_from(before@[i], outcome));
        }
        assert(after@[i].carries_on(before@[i]));
    }
}

/// A garbage-collection pass is a step of the store's history.
pub proof fn lemma_sweep_follows<T, U>(before: &GoalStore<T, U>, after: &GoalStore<T, U>)
    requires
        after.swept_from(before),
    ensures
        after.follows(before),
{
    assert forall|i: int| #![trigger after@[i]] 0 <= i < after@.len() implies exists|j: int|
        0 <= j < before@.len() && after@[i].carries_on(#[trigger] before@[j]) by {
        assert(before@.filter(is_kept()).contains(after@[i]));
        before@.lemma_filter_contains_rev(is_kept(), after@[i]);
        let j = choose|j: int| 0 <= j < before@.len() && before@[j] == after@[i];
        assert(after@[i].carries_on(before@[j]));
    }
}

/// A goal that is flagged for removal when a garbage-collection pass starts
/// is gone when the pass ends, whatever state it had reached, and its
/// identity is retired.
pub proof fn lemma_flagged_goal_is_swept<T, U>(
    before: &GoalStore<T, U>,
    after: &GoalStore<T, U>,
    i: int,
)
    requires
        before.wf(),
        after.swept_from(before),
        0 <= i < before@.len(),
        before@[i].state() is ToDelete,
    ensures
        !after.contains(before@[i].entity),
        after.retired(before@[i].entity),
{
    if after.contains(before@[i].entity) {
        let k = choose|k: int|
            0 <= k < after@.len() && (#[trigger] after@[k]).entity == before@[i].entity;
        before@.lemma_filter_pred(is_kept(), k);
        assert(before@.filter(is_kept()).contains(after@[k]));
        before@.lemma_filter_contains_rev(is_kept(), after@[k]);
        let j = choose|j: int| 0 <= j < before@.len() && before@[j] == after@[k];
        before.lemma_one_record_per_entity(i, j);
    }
}

/// A goal that a garbage-collection pass removed is in no later stage of the
/// store: neither the goal nor any other record ever stands under its
/// identity again.
pub proof fn lemma_swept_goal_never_returns<T, U>(
    before: &GoalStore<T, U>,
    swept: &GoalStore<T, U>,
    later: &GoalStore<T, U>,
    i: int,
)
    requires
        before.wf(),
        swept.swept_from(before),
        later.follows(swept),
        0 <= i < before@.len(),
        before@[i].state() is ToDelete,
    ensures
        !swept.contains(before@[i].entity),
        !later.contains(before@[i].entity),
{
    lemma_flagged_goal_is_swept(before, swept, i);
    lemma_retired_stays_retired(swept, later, before@[i].entity);
}

/// A goal that is not flagged for removal survives a garbage-collection pass
/// unchanged.
pub proof fn lemma_kept_goal_survives_sweep<T, U>(
    before: &GoalStore<T, U>,
    after: &GoalStore<T, U>,
    i: int,
)
    requires
        after.swept_from(before),
        0 <= i < before@.len(),
        !(before@[i].state() is ToDelete),
    ensures
        after@.contains(before@[i]),
        after.contains(before@[i].entity),
{
    before@.lemma_filter_contains(is_kept(), i);
    let k = choose|k: int| 0 <= k < after@.len() && after@[k] == before@[i];
    assert(after@[k].entity == before@[i].entity);
}

/// In a well-formed store a completed goal always holds its reply, and a
/// goal that is pending or executing holds none.
pub proof fn lemma_completed_goal_has_reply<T, U>(store: &GoalStore<T, U>, i: int)
    requires
        store.wf(),
        0 <= i < store@.len(),
    ensures
        store@[i].state() is Completed ==> store@[i].reply is Some,
        store@[i].state() is Pending || store@[i].state() is Executing ==> store@[i].reply is None,
{
}

/// Committing a reply attaches it in the same step in which the goal becomes
/// completed; committing a failure attaches nothing and flags the goal.
pub proof fn lemma_commit_attaches_reply_with_completion<T, U>(
    before: GoalRecord<T, U>,
    after: GoalRecord<T, U>,
    outcome: Result<U, QueryError>,
)
    requires
        after.committed_from(before, outcome),
    ensures
        outcome is Ok && !(before.state() is ToDelete) ==> after.state() is Completed,
        outcome is Ok ==> after.reply is Some && after.reply.unwrap().reply == outcome.unwrap(),
        outcome is Err ==> after.state() is ToDelete && after.reply == before.reply,
        before.state() is ToDelete ==> after.state() is ToDelete,
{
}

/// Where the handler of a dispatch pass never reports a failure, every goal
/// that was pending is completed by the pass and holds its reply.
pub proof fn lemma_infallible_pass_completes<T, U>(
    before: &GoalStore<T, U>,
    after: &GoalStore<T, U>,
    answers: spec_fn(QueryRequest<T>, Result<U, QueryError>) -> bool,
    i: int,
)
    requires
        dispatched_from(after, before, answers),
        forall|request: QueryRequest<T>, outcome: Result<U, QueryError>|
            #[trigger] answers(request, outcome) ==> outcome is Ok,
        0 <= i < before@.len(),
        before@[i].state() is Pending,
    ensures
        after@[i].state() is Completed,
        after@[i].reply is Some,
        answers(before@[i].request, Ok(after@[i].reply->Some_0.reply)),
{
    let outcome = choose|outcome: Result<U, QueryError>|
        answers(before@[i].request, outcome) && #[trigger] after@[i].committed_from(
            before@[i],
            outcome,
        );
    assert(after@[i].committed_from(before@[i], outcome));
    assert(outcome == Ok::<U, QueryError>(after@[i].reply->Some_0.reply));
}

/// Two submissions with the same identifier and the same payload give two
/// goals: both are in the store, under different identities, both pending.
pub proof fn lemma_equal_submissions_are_two_goals<T, U>(
    before: &GoalStore<T, U>,
    once: &GoalStore<T, U>,
    twice: &GoalStore<T, U>,
    uuid: uuid::Uuid,
    payload: T,
)
    requires
        before.wf(),
        twice.wf(),
        once.submitted_from(before, uuid, payload),
        twice.submitted_from(once, uuid, payload),
    ensures
        twice@.len() == before@.len() + 2,
        twice@[before@.len() as int].is_new(
            (Entity { index: before.issued() as u64 }),
            uuid,
            payload,
        ),
        twice@[before@.len() as int + 1].is_new(
            (Entity { index: (before.issued() + 1) as u64 }),
            uuid,
            payload,
        ),
        twice@[before@.len() as int].entity != twice@[before@.len() as int + 1].entity,
        !before.contains(twice@[before@.len() as int].entity),
        !before.contains(twice@[before@.len() as int + 1].entity),
{
    assert(twice@.drop_last()[before@.len() as int] == twice@[before@.len() as int]);
    assert(once@.last() == once@[before@.len() as int]);
    assert(twice@.last() == twice@[before@.len() as int + 1]);
}

/// After a claim no goal of the store is pending.
pub proof fn lemma_claim_leaves_nothing_pending<T, U>(
    before: &GoalStore<T, U>,
    after: &GoalStore<T, U>,
    i: int,
)
    requires
        after.claimed_from(before),
        0 <= i < after@.len(),
    ensures
        !(after@[i].state() is Pending),
        before@[i].state() is Pending ==> after@[i].state() is Executing,
{
}

/// A second claim in the same tick finds nothing to take: every goal is
/// claimed by at most one pass.
pub proof fn lemma_second_claim_takes_nothing<T, U>(
    before: &GoalStore<T, U>,
    once: &GoalStore<T, U>,
    twice: &GoalStore<T, U>,
)
    requires
        once.claimed_from(before),
        twice.claimed_from(once),
    ensures
        twice@ == once@,
        once@.filter(is_pending()).len() == 0,
{
    assert(twice@ =~= once@);
    if once@.filter(is_pending()).len() > 0 {
        once@.lemma_filter_pred(is_pending(), 0);
        let first = once@.filter(is_pending())[0];
        assert(once@.filter(is_pending()).contains(first));
        once@.lemma_filter_contains_rev(is_pending(), first);
        let j = choose|j: int| 0 <= j < once@.len() && once@[j] == first;
        assert(!(once@[j].state() is Pending));
    }
}

/// A dispatch pass leaves every goal that it took either completed or
/// flagged for removal, and a second pass in the same tick changes nothing:
/// no goal is resolved twice.
pub proof fn lemma_second_pass_changes_nothing<T, U>(
    before: &GoalStore<T, U>,
    once: &GoalStore<T, U>,
    twice: &GoalStore<T, U>,
    first_answers: spec_fn(QueryRequest<T>, Result<U, QueryError>) -> bool,
    second_answers: spec_fn(QueryRequest<T>, Result<U, QueryError>) -> bool,
)
    requires
        dispatched_from(once, before, first_answers),
        dispatched_from(twice, once, second_answers),
    ensures
        forall|i: int|
            0 <= i < once@.len() && before@[i].state() is Pending ==> (#[trigger] once@[i]).state()
                is Completed || once@[i].state() is ToDelete,
        forall|i: int| 0 <= i < once@.len() ==> !((#[trigger] once@[i]).state() is Pending),
        twice@ == once@,
{
    assert forall|i: int| 0 <= i < once@.len() implies !((#[trigger] once@[i]).state() is Pending)
        && (before@[i].state() is Pending ==> once@[i].state() is Completed || once@[i].state()
        is ToDelete) by {
        if before@[i].state() is Pending {
            let outcome = choose|outcome: Result<U, QueryError>|
                first_answers(before@[i].request, outcome) && #[trigger] once@[i].committed_from(
                    before@[i],
                    outcome,
                );
            assert(once@[i].committed_from(before@[i], outcome));
        }
    }
    assert(twice@ =~= once@);
}

} // verus!
