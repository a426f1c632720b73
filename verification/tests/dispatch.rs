use bevy_query_service::{
    cleanup_requests, find_parent, first_related, run_query_reply, run_query_server,
    run_query_server_with, run_query_server_with_parent, run_query_server_with_supplement,
    ChildRecord, Entity, GoalState, GoalStore, ParentRecord, QueryError, QueryParentOps,
    QueryReplyOps, QueryRequest, QueryServerOps, QuerySupplementOps,
};
use uuid::Uuid;

#[derive(Debug, PartialEq)]
struct Doubled(i32);

impl QueryServerOps<i32> for Doubled {
    fn get_reply(request: &QueryRequest<i32>) -> Result<Self, QueryError> {
        Ok(Doubled(request.request * 2))
    }
}

#[derive(Debug, PartialEq)]
struct Halved(i32);

impl QueryServerOps<i32> for Halved {
    fn get_reply(request: &QueryRequest<i32>) -> Result<Self, QueryError> {
        if request.request % 2 == 0 {
            Ok(Halved(request.request / 2))
        } else {
            Err(QueryError::HandlerFailure)
        }
    }
}

struct Question1;

struct Question2;

#[derive(Debug, PartialEq)]
struct Answer(String);

impl QueryReplyOps<Question1> for Answer {
    fn get_reply(_request: &QueryRequest<Question1>) -> Self {
        Answer("My answer to question 1.".into())
    }
}

impl QueryReplyOps<Question2> for Answer {
    fn get_reply(_request: &QueryRequest<Question2>) -> Self {
        Answer("My answer to question 2.".into())
    }
}

#[derive(Debug, PartialEq)]
struct TotalAge(i32);

impl QuerySupplementOps<i32, i32> for TotalAge {
    fn get_reply(request: &QueryRequest<i32>, supplement: &Vec<i32>) -> Result<Self, QueryError> {
        let mut total = request.request;
        for age in supplement.iter() {
            total += *age;
        }
        Ok(TotalAge(total))
    }
}

#[derive(Debug, PartialEq)]
struct FullName(String);

impl QueryParentOps<(), String, String> for FullName {
    fn get_reply(
        _request: &QueryRequest<()>,
        parents: &Vec<ParentRecord<String>>,
        children: &Vec<ChildRecord<String>>,
    ) -> Result<Self, QueryError> {
        let (child, parent) = first_related(parents, children)?;
        Ok(FullName(format!("{} {}", children[child].component, parents[parent].component)))
    }
}

fn parent(index: u64, last_name: &str) -> ParentRecord<String> {
    ParentRecord { entity: Entity { index }, component: last_name.to_string() }
}

fn child(parent: u64, index: u64, first_name: &str) -> ChildRecord<String> {
    ChildRecord {
        parent: Entity { index: parent },
        entity: Entity { index },
        component: first_name.to_string(),
    }
}

#[test]
fn a_doubling_handler_completes_the_goal_within_one_tick() {
    let mut store: GoalStore<i32, Doubled> = GoalStore::new();
    let r1 = store.submit(Uuid::from_u128(0x7231), 5);
    assert_eq!(run_query_server(&mut store), vec![r1]);
    let (state, reply) = store.poll_reply(r1).unwrap();
    assert_eq!(state, GoalState::Completed);
    assert_eq!(reply.unwrap().reply, Doubled(10));
    assert_eq!(store.get(r1).unwrap().goal.get_uuid(), Uuid::from_u128(0x7231));
    assert_eq!(store.get(r1).unwrap().request.request, 5);
}

#[test]
fn one_reply_type_answers_two_request_types() {
    let mut first: GoalStore<Question1, Answer> = GoalStore::new();
    let mut second: GoalStore<Question2, Answer> = GoalStore::new();
    let one = first.submit(Uuid::from_u128(1), Question1);
    let two = second.submit(Uuid::from_u128(2), Question2);
    run_query_reply(&mut first);
    run_query_reply(&mut second);
    let (state, reply) = first.poll_reply(one).unwrap();
    assert_eq!(state, GoalState::Completed);
    assert_eq!(reply.unwrap().reply, Answer("My answer to question 1.".to_string()));
    let (state, reply) = second.poll_reply(two).unwrap();
    assert_eq!(state, GoalState::Completed);
    assert_eq!(reply.unwrap().reply, Answer("My answer to question 2.".to_string()));
}

#[test]
fn a_handler_that_cannot_fail_completes_every_pending_goal() {
    let mut store: GoalStore<Question1, Answer> = GoalStore::new();
    let flagged = store.submit(Uuid::from_u128(1), Question1);
    let a = store.submit(Uuid::from_u128(2), Question1);
    let b = store.submit(Uuid::from_u128(3), Question1);
    assert!(store.mark_for_deletion(flagged));
    assert_eq!(run_query_reply(&mut store), vec![a, b]);
    for entity in [a, b] {
        let (state, reply) = store.poll_reply(entity).unwrap();
        assert_eq!(state, GoalState::Completed);
        assert_eq!(reply.unwrap().reply, Answer("My answer to question 1.".to_string()));
    }
    assert_eq!(store.poll_reply(flagged).unwrap().0, GoalState::ToDelete);
    assert!(store.get(flagged).unwrap().reply.is_none());
    assert_eq!(cleanup_requests(&mut store), vec![flagged]);
}

#[test]
fn a_failing_handler_flags_the_goal_and_attaches_nothing() {
    let mut store: GoalStore<i32, Halved> = GoalStore::new();
    let even = store.submit(Uuid::from_u128(1), 8);
    let odd = store.submit(Uuid::from_u128(2), 7);
    assert_eq!(run_query_server(&mut store), vec![even, odd]);
    let (state, reply) = store.poll_reply(even).unwrap();
    assert_eq!(state, GoalState::Completed);
    assert_eq!(reply.unwrap().reply, Halved(4));
    let (state, reply) = store.poll_reply(odd).unwrap();
    assert_eq!(state, GoalState::ToDelete);
    assert!(reply.is_none());
    assert!(store.get(odd).unwrap().reply.is_none());
    assert!(!store.get(odd).unwrap().goal.is_executing());
}

#[test]
fn a_failed_goal_is_not_retried() {
    let mut store: GoalStore<i32, Halved> = GoalStore::new();
    let odd = store.submit(Uuid::from_u128(2), 7);
    assert_eq!(run_query_server(&mut store), vec![odd]);
    assert!(run_query_server(&mut store).is_empty());
    assert_eq!(store.poll_reply(odd).unwrap().0, GoalState::ToDelete);
    assert_eq!(cleanup_requests(&mut store), vec![odd]);
    assert!(store.is_empty());
}

#[test]
fn a_second_pass_does_not_resolve_a_goal_again() {
    let mut store: GoalStore<i32, i32> = GoalStore::new();
    let a = store.submit(Uuid::from_u128(1), 1);
    let b = store.submit(Uuid::from_u128(2), 2);
    let calls = std::cell::Cell::new(0);
    run_query_server_with(&mut store, |request: &QueryRequest<i32>| {
        calls.set(calls.get() + 1);
        Ok(request.request + 100)
    });
    assert_eq!(calls.get(), 2);
    run_query_server_with(&mut store, |request: &QueryRequest<i32>| {
        calls.set(calls.get() + 1);
        Ok(request.request + 200)
    });
    assert_eq!(calls.get(), 2);
    assert_eq!(store.poll_reply(a).unwrap().1.unwrap().reply, 101);
    assert_eq!(store.poll_reply(b).unwrap().1.unwrap().reply, 102);
    // A goal submitted in between is a goal of its own and is taken once.
    let c = store.submit(Uuid::from_u128(1), 1);
    run_query_server_with(&mut store, |request: &QueryRequest<i32>| {
        calls.set(calls.get() + 1);
        Ok(request.request + 300)
    });
    assert_eq!(calls.get(), 3);
    assert_eq!(store.poll_reply(a).unwrap().1.unwrap().reply, 101);
    assert_eq!(store.poll_reply(c).unwrap().1.unwrap().reply, 301);
}

#[test]
fn goals_are_resolved_in_the_order_of_their_submission() {
    let mut store: GoalStore<i32, i32> = GoalStore::new();
    for k in 0..6 {
        store.submit(Uuid::from_u128(k), k as i32);
    }
    let seen = std::cell::RefCell::new(Vec::new());
    run_query_server_with(&mut store, |request: &QueryRequest<i32>| {
        seen.borrow_mut().push(request.request);
        Ok(0)
    });
    assert_eq!(*seen.borrow(), vec![0, 1, 2, 3, 4, 5]);
}

#[test]
fn a_pass_leaves_goals_alone_that_are_not_pending() {
    let mut store: GoalStore<i32, Doubled> = GoalStore::new();
    let completed = store.submit(Uuid::from_u128(1), 1);
    let flagged = store.submit(Uuid::from_u128(2), 2);
    let pending = store.submit(Uuid::from_u128(3), 3);
    assert_eq!(store.commit_reply(completed, Ok(Doubled(77))), Ok(GoalState::Completed));
    assert!(store.mark_for_deletion(flagged));
    assert_eq!(run_query_server(&mut store), vec![pending]);
    assert_eq!(store.poll_reply(completed).unwrap().1.unwrap().reply, Doubled(77));
    assert_eq!(store.poll_reply(flagged).unwrap().0, GoalState::ToDelete);
    assert!(store.get(flagged).unwrap().reply.is_none());
    assert_eq!(store.poll_reply(pending).unwrap().1.unwrap().reply, Doubled(6));
}

#[test]
fn a_pass_over_an_empty_store_does_nothing() {
    let mut store: GoalStore<i32, Doubled> = GoalStore::new();
    assert!(run_query_server(&mut store).is_empty());
    assert!(store.is_empty());
    assert_eq!(store.issued_count(), 0);
}

#[test]
fn a_supplement_handler_sums_the_request_with_every_record() {
    let mut store: GoalStore<i32, TotalAge> = GoalStore::new();
    let entity = store.submit(Uuid::from_u128(1), 22);
    let friends = vec![18, 40, 20];
    assert_eq!(run_query_server_with_supplement(&mut store, &friends), vec![entity]);
    let (state, reply) = store.poll_reply(entity).unwrap();
    assert_eq!(state, GoalState::Completed);
    assert_eq!(reply.unwrap().reply, TotalAge(100));
}

#[test]
fn a_supplement_handler_sees_an_empty_view() {
    let mut store: GoalStore<i32, TotalAge> = GoalStore::new();
    let entity = store.submit(Uuid::from_u128(1), 22);
    run_query_server_with_supplement(&mut store, &Vec::new());
    assert_eq!(store.poll_reply(entity).unwrap().1.unwrap().reply, TotalAge(22));
}

#[test]
fn a_parent_handler_joins_child_and_parent() {
    let mut store: GoalStore<(), FullName> = GoalStore::new();
    let entity = store.submit(Uuid::from_u128(1), ());
    let parents = vec![parent(10, "Smith")];
    let children = vec![child(10, 11, "John")];
    assert_eq!(run_query_server_with_parent(&mut store, &parents, &children), vec![entity]);
    let (state, reply) = store.poll_reply(entity).unwrap();
    assert_eq!(state, GoalState::Completed);
    assert_eq!(reply.unwrap().reply, FullName("John Smith".to_string()));
}

#[test]
fn a_join_without_a_match_flags_the_goal_and_attaches_nothing() {
    let mut store: GoalStore<(), FullName> = GoalStore::new();
    let entity = store.submit(Uuid::from_u128(1), ());
    let parents = vec![parent(10, "Smith"), parent(12, "Jones")];
    let children = vec![child(20, 11, "John"), child(21, 13, "Jane")];
    run_query_server_with_parent(&mut store, &parents, &children);
    let (state, reply) = store.poll_reply(entity).unwrap();
    assert_eq!(state, GoalState::ToDelete);
    assert!(reply.is_none());
    assert!(store.get(entity).unwrap().reply.is_none());
    assert!(!store.get(entity).unwrap().goal.is_completed());
}

#[test]
fn the_join_stops_at_the_first_child_with_a_parent_in_view() {
    let parents = vec![parent(10, "Smith"), parent(12, "Jones")];
    let children = vec![
        child(99, 1, "Orphan"),
        child(12, 2, "Jane"),
        child(10, 3, "John"),
        child(12, 4, "Jack"),
    ];
    assert_eq!(first_related(&parents, &children), Ok((1, 1)));
}

#[test]
fn the_join_takes_the_first_parent_under_the_identity() {
    let parents = vec![parent(10, "Smith"), parent(12, "Jones"), parent(12, "Other")];
    let children = vec![child(12, 2, "Jane")];
    assert_eq!(first_related(&parents, &children), Ok((0, 1)));
    assert_eq!(find_parent(&parents, Entity { index: 12 }), Some(1));
    assert_eq!(find_parent(&parents, Entity { index: 10 }), Some(0));
    assert_eq!(find_parent(&parents, Entity { index: 11 }), None);
}

#[test]
fn the_join_fails_on_empty_views() {
    let no_parents: Vec<ParentRecord<String>> = Vec::new();
    let no_children: Vec<ChildRecord<String>> = Vec::new();
    assert_eq!(first_related(&no_parents, &no_children), Err(QueryError::MissingRelation));
    assert_eq!(
        first_related(&no_parents, &vec![child(1, 2, "John")]),
        Err(QueryError::MissingRelation)
    );
    assert_eq!(
        first_related(&vec![parent(1, "Smith")], &no_children),
        Err(QueryError::MissingRelation)
    );
}
