use bevy_query_service::{
    cleanup_requests, run_query_client, run_query_server_with, Entity, GoalState, GoalStore,
    QueryError, QueryRequest,
};
use uuid::Uuid;

#[test]
fn a_claim_hands_out_every_pending_goal_once() {
    let mut store: GoalStore<String, bool> = GoalStore::new();
    let a = store.submit(Uuid::from_u128(1), "first".to_string());
    let b = store.submit(Uuid::from_u128(2), "second".to_string());
    let tasks = run_query_client(&mut store);
    assert_eq!(tasks.len(), 2);
    assert_eq!(tasks[0].entity, a);
    assert_eq!(tasks[0].request.request, "first");
    assert_eq!(tasks[1].entity, b);
    assert_eq!(tasks[1].request.request, "second");
    assert_eq!(store.poll_reply(a).unwrap().0, GoalState::Executing);
    assert_eq!(store.poll_reply(b).unwrap().0, GoalState::Executing);
    // The payload stays in the store: the task holds a copy.
    assert_eq!(store.get(a).unwrap().request.request, "first");
    // Nothing is left to claim.
    assert!(run_query_client(&mut store).is_empty());
}

#[test]
fn a_claim_skips_goals_that_are_not_pending() {
    let mut store: GoalStore<i32, bool> = GoalStore::new();
    let completed = store.submit(Uuid::from_u128(1), 1);
    let flagged = store.submit(Uuid::from_u128(2), 2);
    let pending = store.submit(Uuid::from_u128(3), 3);
    assert_eq!(store.commit_reply(completed, Ok(true)), Ok(GoalState::Completed));
    assert!(store.mark_for_deletion(flagged));
    let tasks = run_query_client(&mut store);
    assert_eq!(tasks.len(), 1);
    assert_eq!(tasks[0].entity, pending);
    assert_eq!(tasks[0].request.request, 3);
    assert_eq!(store.poll_reply(completed).unwrap().0, GoalState::Completed);
    assert_eq!(store.poll_reply(flagged).unwrap().0, GoalState::ToDelete);
}

#[test]
fn a_claimed_goal_is_not_taken_by_a_synchronous_pass() {
    let mut store: GoalStore<i32, bool> = GoalStore::new();
    let entity = store.submit(Uuid::from_u128(1), 1);
    let tasks = run_query_client(&mut store);
    assert_eq!(tasks.len(), 1);
    let calls = std::cell::Cell::new(0);
    run_query_server_with(&mut store, |_request: &QueryRequest<i32>| {
        calls.set(calls.get() + 1);
        Ok(true)
    });
    assert_eq!(calls.get(), 0);
    assert_eq!(store.poll_reply(entity).unwrap().0, GoalState::Executing);
}

#[test]
fn a_failing_worker_takes_the_goal_from_executing_to_deleted() {
    let mut store: GoalStore<i32, bool> = GoalStore::new();
    let entity = store.submit(Uuid::from_u128(1), 1);
    let tasks = run_query_client(&mut store);
    assert_eq!(tasks.len(), 1);
    // Ticks pass while the worker is out: the goal stays as it is.
    for _ in 0..3 {
        assert!(run_query_client(&mut store).is_empty());
        assert!(cleanup_requests(&mut store).is_empty());
        let (state, reply) = store.poll_reply(entity).unwrap();
        assert_eq!(state, GoalState::Executing);
        assert!(reply.is_none());
    }
    // The worker comes back with a failure.
    assert_eq!(
        store.commit_reply(tasks[0].entity, Err(QueryError::HandlerFailure)),
        Ok(GoalState::ToDelete)
    );
    let (state, reply) = store.poll_reply(entity).unwrap();
    assert_eq!(state, GoalState::ToDelete);
    assert!(reply.is_none());
    assert!(!store.get(entity).unwrap().goal.is_completed());
    assert_eq!(cleanup_requests(&mut store), vec![entity]);
    assert!(store.poll_reply(entity).is_none());
}

#[test]
fn a_succeeding_worker_completes_the_goal() {
    let mut store: GoalStore<i32, bool> = GoalStore::new();
    let entity = store.submit(Uuid::from_u128(1), 1);
    let tasks = run_query_client(&mut store);
    assert_eq!(store.commit_reply(tasks[0].entity, Ok(true)), Ok(GoalState::Completed));
    let (state, reply) = store.poll_reply(entity).unwrap();
    assert_eq!(state, GoalState::Completed);
    assert!(reply.unwrap().reply);
}

#[test]
fn workers_may_come_back_in_any_order() {
    let mut store: GoalStore<i32, i32> = GoalStore::new();
    let a = store.submit(Uuid::from_u128(1), 1);
    let b = store.submit(Uuid::from_u128(2), 2);
    let c = store.submit(Uuid::from_u128(3), 3);
    let tasks = run_query_client(&mut store);
    assert_eq!(tasks.len(), 3);
    assert_eq!(store.commit_reply(tasks[2].entity, Ok(30)), Ok(GoalState::Completed));
    assert_eq!(store.poll_reply(a).unwrap().0, GoalState::Executing);
    assert_eq!(
        store.commit_reply(tasks[0].entity, Err(QueryError::HandlerFailure)),
        Ok(GoalState::ToDelete)
    );
    assert_eq!(store.poll_reply(b).unwrap().0, GoalState::Executing);
    assert_eq!(store.commit_reply(tasks[1].entity, Ok(20)), Ok(GoalState::Completed));
    assert_eq!(store.poll_reply(a).unwrap().0, GoalState::ToDelete);
    assert_eq!(store.poll_reply(b).unwrap().1.unwrap().reply, 20);
    assert_eq!(store.poll_reply(c).unwrap().1.unwrap().reply, 30);
}

#[test]
fn a_commit_for_a_goal_removed_meanwhile_is_dropped() {
    let mut store: GoalStore<i32, i32> = GoalStore::new();
    let gone = store.submit(Uuid::from_u128(1), 1);
    let stays = store.submit(Uuid::from_u128(2), 2);
    let tasks = run_query_client(&mut store);
    assert_eq!(tasks.len(), 2);
    assert!(store.mark_for_deletion(gone));
    assert_eq!(cleanup_requests(&mut store), vec![gone]);
    assert_eq!(store.commit_reply(tasks[0].entity, Ok(10)), Err(QueryError::CommitRace));
    assert_eq!(store.len(), 1);
    assert!(store.poll_reply(gone).is_none());
    assert_eq!(store.poll_reply(stays).unwrap().0, GoalState::Executing);
    assert_eq!(store.commit_reply(tasks[1].entity, Ok(20)), Ok(GoalState::Completed));
}

#[test]
fn a_goal_whose_worker_never_returns_stays_executing() {
    let mut store: GoalStore<i32, i32> = GoalStore::new();
    let stuck = store.submit(Uuid::from_u128(1), 1);
    let _tasks = run_query_client(&mut store);
    for _ in 0..10 {
        assert!(run_query_client(&mut store).is_empty());
        assert!(cleanup_requests(&mut store).is_empty());
    }
    assert_eq!(store.poll_reply(stuck).unwrap().0, GoalState::Executing);
    assert_eq!(store.position(stuck), Some(0));
    assert!(store.poll_reply(Entity { index: 1 }).is_none());
}
