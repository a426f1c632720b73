//! The store of tracked requests: an arena of goal records, each under an
//! identity that the store issues once and never issues again.
use crate::laws::{lemma_commit_follows, lemma_flag_follows, lemma_submission_follows};
use crate::lifecycle::GoalState;
use crate::structs::{same_uuid, GoalComponent, QueryReply, QueryRequest};
use crate::traits::QueryError;
use vstd::prelude::*;

verus! {

/// The identity of a record. The store numbers the records it creates, so a
/// later record always has the larger index.
#[derive(Clone, Copy, Debug, PartialEq, Eq, Hash, Structural)]
pub struct Entity {
    pub index: u64,
}

/// One tracked request: its identity, its lifecycle record, its payload, and
/// its reply once it has one.
#[derive(Debug)]
pub struct GoalRecord<T, U> {
    pub entity: Entity,
    pub goal: GoalComponent,
    pub request: QueryRequest<T>,
    pub reply: Option<QueryReply<U>>,
}

impl<T, U> GoalRecord<T, U> {
    /// The lifecycle state of the record's goal.
    pub open spec fn state(self) -> GoalState {
        self.goal@.state()
    }

    /// The record is the one that a submission of `payload` under `uuid`
    /// creates for `entity`: pending, and without a reply.
    pub open spec fn is_new(self, entity: Entity, uuid: uuid::Uuid, payload: T) -> bool {
        &&& self.entity == entity
        &&& self.goal@.uuid == uuid
        &&& !self.goal@.is_executing
        &&& !self.goal@.is_completed
        &&& !self.goal@.to_delete
        &&& self.request.request == payload
        &&& self.reply is None
    }

    /// The record is `before` with the execution flag raised.
    pub open spec fn claimed_from(self, before: Self) -> bool {
        &&& self.entity == before.entity
        &&& self.goal@ == before.goal@.executing()
        &&& self.request == before.request
        &&& self.reply == before.reply
    }

    /// The record is `before` with the removal flag raised.
    pub open spec fn flagged_from(self, before: Self) -> bool {
        &&& self.entity == before.entity
        &&& self.goal@ == before.goal@.flagged()
        &&& self.request == before.request
        &&& self.reply == before.reply
    }

    /// The record is `before` after `outcome` was committed to it: a reply is
    /// attached together with the completion flag, a failure raises the
    /// removal flag and attaches nothing.
    pub open spec fn committed_from(self, before: Self, outcome: Result<U, QueryError>) -> bool {
        &&& self.entity == before.entity
        &&& self.request == before.request
        &&& match outcome {
            Ok(reply) => {
                &&& self.goal@ == before.goal@.completed()
                &&& self.reply == Some(QueryReply { reply })
            },
            Err(_) => {
                &&& self.goal@ == before.goal@.flagged()
                &&& self.reply == before.reply
            },
        }
    }

    /// The record is a later sight of `before`: the same request under the
    /// same identity, its state no further back in the lifecycle.
    pub open spec fn carries_on(self, before: Self) -> bool {
        &&& self.entity == before.entity
        &&& self.goal@.uuid == before.goal@.uuid
        &&& self.request == before.request
        &&& before.state().can_reach(self.state())
    }
}

/// The records whose goal is pending.
pub open spec fn is_pending<T, U>() -> spec_fn(GoalRecord<T, U>) -> bool {
    |record: GoalRecord<T, U>| record.goal@.state() is Pending
}

/// The records whose removal was asked for.
pub open spec fn is_flagged<T, U>() -> spec_fn(GoalRecord<T, U>) -> bool {
    |record: GoalRecord<T, U>| record.goal@.to_delete
}

/// The records whose removal was not asked for.
pub open spec fn is_kept<T, U>() -> spec_fn(GoalRecord<T, U>) -> bool {
    |record: GoalRecord<T, U>| !record.goal@.to_delete
}

/// The records that carry the caller's identifier `uuid`.
pub open spec fn has_uuid<T, U>(uuid: uuid::Uuid) -> spec_fn(GoalRecord<T, U>) -> bool {
    |record: GoalRecord<T, U>| record.goal@.uuid == uuid
}

/// The identity of a record.
pub open spec fn entity_of<T, U>() -> spec_fn(GoalRecord<T, U>) -> Entity {
    |record: GoalRecord<T, U>| record.entity
}

/// The arena of goal records for one pair of request and reply types.
#[derive(Debug)]
pub struct GoalStore<T, U> {
    records: Vec<GoalRecord<T, U>>,
    next_index: u64,
}

impl<T, U> View for GoalStore<T, U> {
    type V = Seq<GoalRecord<T, U>>;

    /// The live records, oldest first.
    closed spec fn view(&self) -> Seq<GoalRecord<T, U>> {
        self.records@
    }
}

impl<T, U> GoalStore<T, U> {
    /// How many identities the store has issued so far.
    pub closed spec fn issued(&self) -> nat {
        self.next_index as nat
    }

    /// The store's invariant: every identity in it was issued by it, the
    /// records stand in the order of their creation, and a record holds a
    /// reply exactly when its completion flag is raised. `new` establishes
    /// it and every function that changes a store keeps it, so it holds of
    /// every store that a program can get hold of.
    pub open spec fn wf(&self) -> bool {
        &&& self.issued() <= u64::MAX
        &&& forall|i: int| 0 <= i < self@.len() ==> (#[trigger] self@[i]).entity.index < self.issued()
        &&& forall|i: int, j: int|
            0 <= i < j < self@.len() ==> (#[trigger] self@[i]).entity.index < (
            #[trigger] self@[j]).entity.index
        &&& forall|i: int|
            0 <= i < self@.len() ==> ((#[trigger] self@[i]).reply is Some
                <==> self@[i].goal@.is_completed)
    }

    /// A record under `entity` is in the store.
    pub open spec fn contains(&self, entity: Entity) -> bool {
        exists|i: int| 0 <= i < self@.len() && (#[trigger] self@[i]).entity == entity
    }

    /// The place of the record under `entity`, where the store contains one.
    pub open spec fn index_of(&self, entity: Entity) -> int {
        choose|i: int| 0 <= i < self@.len() && (#[trigger] self@[i]).entity == entity
    }

    /// The record under `entity`, where the store contains one.
    pub open spec fn record_of(&self, entity: Entity) -> GoalRecord<T, U> {
        self@[self.index_of(entity)]
    }

    /// `entity` was issued and its record is gone.
    pub open spec fn retired(&self, entity: Entity) -> bool {
        entity.index < self.issued() && !self.contains(entity)
    }

    /// The store is a later stage of `earlier`: it has issued no fewer
    /// identities, and each of its records either was created since, under an
    /// identity that `earlier` had not issued, or is a later sight of a record
    /// of `earlier`.
    pub open spec fn follows(&self, earlier: &Self) -> bool {
        &&& earlier.issued() <= self.issued()
        &&& forall|i: int|
            #![trigger self@[i]]
            0 <= i < self@.len() ==> {
                ||| earlier.issued() <= self@[i].entity.index
                ||| exists|j: int|
                    0 <= j < earlier@.len() && self@[i].carries_on(#[trigger] earlier@[j])
            }
    }

    /// No two records of a well-formed store share an identity.
    pub proof fn lemma_one_record_per_entity(&self, i: int, j: int)
        requires
            self.wf(),
            0 <= i < self@.len(),
            0 <= j < self@.len(),
            self@[i].entity == self@[j].entity,
        ensures
            i == j,
    {
        if i < j {
            assert(self@[i].entity.index < self@[j].entity.index);
        } else if j < i {
            assert(self@[j].entity.index < self@[i].entity.index);
        }
    }

    /// An empty store that has issued no identity yet.
    pub fn new() -> (store: Self)
        ensures
            store.wf(),
            store@.len() == 0,
            store.issued() == 0,
    {
        GoalStore { records: Vec::new(), next_index: 0 }
    }

    /// How many identities the store has issued so far.
    pub fn issued_count(&self) -> (count: u64)
        ensures
            count == self.issued(),
    {
        self.next_index
    }

    /// The number of live records.
    pub fn len(&self) -> (len: usize)
        ensures
            len == self@.len(),
    {
        self.records.len()
    }

    /// Whether the store holds no record.
    pub fn is_empty(&self) -> (empty: bool)
        ensures
            empty == (self@.len() == 0),
    {
        self.records.len() == 0
    }

    /// The live records, oldest first.
    pub fn records(&self) -> (records: &Vec<GoalRecord<T, U>>)
        ensures
            records@ == self@,
    {
        &self.records
    }

    /// The place of the record under `entity`, or `None` if the store holds
    /// no such record. The records stand in the order of their identities, so
    /// the place is found by halving.
    pub fn position(&self, entity: Entity) -> (found: Option<usize>)
        requires
            self.wf(),
        ensures
            match found {
                Some(at) => at < self@.len() && self@[at as int].entity == entity
                    && self.contains(entity) && at == self.index_of(entity),
                None => !self.contains(entity),
            },
    {
        let mut low: usize = 0;
        let mut high: usize = self.records.len();
        while low < high
            invariant
                self.wf(),
                low <= high <= self@.len(),
                forall|i: int| 0 <= i < low ==> (#[trigger] self@[i]).entity.index < entity.index,
                forall|i: int|
                    high <= i < self@.len() ==> entity.index < (#[trigger] self@[i]).entity.index,
            decreases high - low,
        {
            let mid: usize = low + (high - low) / 2;
            let index: u64 = self.records[mid].entity.index;
            if index == entity.index {
                proof {
                    self.lemma_one_record_per_entity(mid as int, self.index_of(entity));
                }
                return Some(mid);
            } else if index < entity.index {
                proof {
                    assert forall|i: int| 0 <= i < mid + 1 implies (#[trigger] self@[i]).entity.index
                        < entity.index by {
                        if i < mid {
                            assert(self@[i].entity.index < self@[mid as int].entity.index);
                        }
                    }
                }
                low = mid + 1;
            } else {
                proof {
                    assert forall|i: int| mid <= i < self@.len() implies entity.index < (
                    #[trigger] self@[i]).entity.index by {
                        if mid < i {
                            assert(self@[mid as int].entity.index < self@[i].entity.index);
                        }
                    }
                }
                high = mid;
            }
        }
        None
    }

    /// The record under `entity`, or `None` if the store holds no such
    /// record.
    pub fn get(&self, entity: Entity) -> (found: Option<&GoalRecord<T, U>>)
        requires
            self.wf(),
        ensures
            match found {
                Some(record) => self.contains(entity) && *record == self.record_of(entity),
                None => !self.contains(entity),
            },
    {
        match self.position(entity) {
            Some(at) => Some(&self.records[at]),
            None => None,
        }
    }

    /// The current state of the goal under `entity`, with its reply if the
    /// goal is completed; `None` if the store holds no such goal.
    pub fn poll_reply(&self, entity: Entity) -> (polled: Option<(GoalState, Option<&QueryReply<U>>)>)
        requires
            self.wf(),
        ensures
            match polled {
                Some((state, reply)) => {
                    &&& self.contains(entity)
                    &&& state == self.record_of(entity).state()
                    &&& state is Completed ==> reply is Some && Some(*reply.unwrap())
                        == self.record_of(entity).reply
                    &&& !(state is Completed) ==> reply is None
                },
                None => !self.contains(entity),
            },
    {
        match self.position(entity) {
            Some(at) => {
                let record = &self.records[at];
                let state = record.goal.state();
                match state {
                    GoalState::Completed => Some((state, record.reply.as_ref())),
                    _ => Some((state, None)),
                }
            },
            None => None,
        }
    }

    /// The store is `before` after one submission of `payload` under `uuid`:
    /// one new pending record stands behind the records of `before`, under
    /// the identity that `before` had not issued yet.
    pub open spec fn submitted_from(&self, before: &Self, uuid: uuid::Uuid, payload: T) -> bool {
        &&& self.issued() == before.issued() + 1
        &&& self@.len() == before@.len() + 1
        &&& self@.drop_last() == before@
        &&& self@.last().is_new(Entity { index: before.issued() as u64 }, uuid, payload)
    }

    /// Creates a pending goal for `payload` under the caller's identifier
    /// `uuid` and returns its identity. Nothing is looked up: two submissions
    /// with the same identifier and payload give two goals.
    pub fn submit(&mut self, uuid: uuid::Uuid, payload: T) -> (entity: Entity)
        requires
            old(self).wf(),
            old(self).issued() < u64::MAX,
        ensures
            final(self).wf(),
            final(self).submitted_from(old(self), uuid, payload),
            final(self).follows(old(self)),
            entity == (Entity { index: old(self).issued() as u64 }),
            !old(self).contains(entity),
            final(self).contains(entity),
    {
        let entity = Entity { index: self.next_index };
        let record = GoalRecord {
            entity,
            goal: GoalComponent::new(uuid),
            request: QueryRequest { request: payload },
            reply: None,
        };
        self.next_index = self.next_index + 1;
        self.records.push(record);
        proof {
            assert(self@.drop_last() =~= old(self)@);
            assert(self@[self@.len() - 1].entity == entity);
            lemma_submission_follows(old(self), self, uuid, payload);
        }
        entity
    }

    /// The store is `before` with the removal flag raised on the record
    /// under `entity`, if there is one, and nothing else changed.
    pub open spec fn flagged_at(&self, before: &Self, entity: Entity) -> bool {
        &&& self.issued() == before.issued()
        &&& self@.len() == before@.len()
        &&& forall|i: int|
            0 <= i < self@.len() ==> if before@[i].entity == entity {
                (#[trigger] self@[i]).flagged_from(before@[i])
            } else {
                self@[i] == before@[i]
            }
    }

    /// Flags the goal under `entity` for removal, whatever its state, and
    /// says whether the store holds such a goal.
    pub fn mark_for_deletion(&mut self, entity: Entity) -> (found: bool)
        requires
            old(self).wf(),
        ensures
            final(self).wf(),
            final(self).flagged_at(old(self), entity),
            final(self).follows(old(self)),
            found == old(self).contains(entity),
            found ==> final(self).contains(entity) && final(self).record_of(entity).state()
                is ToDelete,
            !found ==> final(self)@ == old(self)@,
    {
        let found = match self.position(entity) {
            Some(at) => {
                self.records[at].goal.mark_to_delete();
                proof {
                    assert forall|i: int| 0 <= i < self@.len() implies if old(self)@[i].entity
                        == entity {
                        (#[trigger] self@[i]).flagged_from(old(self)@[i])
                    } else {
                        self@[i] == old(self)@[i]
                    } by {
                        if i != at {
                            if old(self)@[i].entity == entity {
                                old(self).lemma_one_record_per_entity(i, at as int);
                            }
                        }
                    }
                    assert(self@[at as int].entity == entity);
                    self.lemma_one_record_per_entity(at as int, self.index_of(entity));
                }
                true
            },
            None => {
                proof {
                    assert(self@ =~= old(self)@);
                }
                false
            },
        };
        proof {
            lemma_flag_follows(old(self), self, entity);
        }
        found
    }

    /// The store is `before` with `outcome` committed to the record under
    /// `entity`, if there is one, and nothing else changed.
    pub open spec fn committed_at(
        &self,
        before: &Self,
        entity: Entity,
        outcome: Result<U, QueryError>,
    ) -> bool {
        &&& self.issued() == before.issued()
        &&& self@.len() == before@.len()
        &&& forall|i: int|
            0 <= i < self@.len() ==> if before@[i].entity == entity {
                (#[trigger] self@[i]).committed_from(before@[i], outcome)
            } else {
                self@[i] == before@[i]
            }
    }

    /// Commits `outcome` to the record at place `at`.
    pub(crate) fn resolve_at(&mut self, at: usize, outcome: Result<U, QueryError>)
        requires
            old(self).wf(),
            at < old(self)@.len(),
        ensures
            final(self).wf(),
            final(self).issued() == old(self).issued(),
            final(self)@.len() == old(self)@.len(),
            final(self)@[at as int].committed_from(old(self)@[at as int], outcome),
            forall|i: int|
                0 <= i < final(self)@.len() && i != at ==> #[trigger] final(self)@[i] == old(
                    self,
                )@[i],
    {
        match outcome {
            Ok(reply) => {
                self.records[at].goal.mark_completed();
                self.records[at].reply = Some(QueryReply { reply });
            },
            Err(_) => {
                self.records[at].goal.mark_to_delete();
            },
        }
    }

    /// Commits the outcome of a resolution to the goal under `entity`: a
    /// reply completes the goal and is attached in the same step, a failure
    /// flags the goal for removal. If the store no longer holds the goal the
    /// outcome is dropped and the store stays as it is.
    pub fn commit_reply(&mut self, entity: Entity, outcome: Result<U, QueryError>) -> (committed:
        Result<GoalState, QueryError>)
        requires
            old(self).wf(),
        ensures
            final(self).wf(),
            final(self).committed_at(old(self), entity, outcome),
            final(self).follows(old(self)),
            match committed {
                Ok(state) => {
                    &&& old(self).contains(entity)
                    &&& final(self).contains(entity)
                    &&& state == final(self).record_of(entity).state()
                },
                Err(error) => {
                    &&& error == QueryError::CommitRace
                    &&& !old(self).contains(entity)
                    &&& final(self)@ == old(self)@
                },
            },
    {
        let committed = match self.position(entity) {
            Some(at) => {
                self.resolve_at(at, outcome);
                proof {
                    assert forall|i: int| 0 <= i < self@.len() implies if old(self)@[i].entity
                        == entity {
                        (#[trigger] self@[i]).committed_from(old(self)@[i], outcome)
                    } else {
                        self@[i] == old(self)@[i]
                    } by {
                        if i != at {
                            if old(self)@[i].entity == entity {
                                old(self).lemma_one_record_per_entity(i, at as int);
                            }
                        }
                    }
                    assert(self@[at as int].entity == entity);
                    self.lemma_one_record_per_entity(at as int, self.index_of(entity));
                }
                Ok(self.records[at].goal.state())
            },
            None => {
                proof {
                    assert(self@ =~= old(self)@);
                }
                Err(QueryError::CommitRace)
            },
        };
        proof {
            lemma_commit_follows(old(self), self, entity, outcome);
        }
        committed
    }

    /// The identities of the goals that carry the caller's identifier
    /// `uuid`, oldest first.
    pub fn entities_with_uuid(&self, uuid: &uuid::Uuid) -> (found: Vec<Entity>)
        ensures
            found@ == self@.filter(has_uuid(*uuid)).map_values(entity_of()),
    {
        let mut found: Vec<Entity> = Vec::new();
        let mut at: usize = 0;
        proof {
            reveal(Seq::filter);
            assert(self@.take(0).filter(has_uuid(*uuid)).len() == 0);
        }
        while at < self.records.len()
            invariant
                at <= self@.len(),
                found@ == self@.take(at as int).filter(has_uuid(*uuid)).map_values(entity_of()),
            decreases self@.len() - at,
        {
            proof {
                lemma_filter_take_next(self@, has_uuid(*uuid), at as int);
            }
            let uuid_here = self.records[at].goal.get_uuid();
            if same_uuid(&uuid_here, uuid) {
                found.push(self.records[at].entity);
                proof {
                    let so_far = self@.take(at as int).filter(has_uuid(*uuid));
                    assert(so_far.push(self@[at as int]).map_values(entity_of()) =~= so_far.map_values(
                        entity_of(),
                    ).push(self@[at as int].entity));
                }
            }
            at += 1;
        }
        proof {
            assert(self@.take(at as int) =~= self@);
        }
        found
    }

    /// The store is `before` after a sweep: the records flagged for removal
    /// are gone, the others stand as they stood, in the same order.
    pub open spec fn swept_from(&self, before: &Self) -> bool {
        &&& self.issued() == before.issued()
        &&& self@ == before@.filter(is_kept())
    }

    /// Removes every goal flagged for removal, with its request and its
    /// reply, and returns the identities of the goals removed, oldest first.
    pub(crate) fn sweep(&mut self) -> (removed: Vec<Entity>)
        requires
            old(self).wf(),
        ensures
            final(self).wf(),
            final(self).swept_from(old(self)),
            removed@ == old(self)@.filter(is_flagged()).map_values(entity_of()),
    {
        let ghost before = self@;
        let mut taken: Vec<GoalRecord<T, U>> = Vec::new();
        core::mem::swap(&mut self.records, &mut taken);
        let mut removed: Vec<Entity> = Vec::new();
        proof {
            reveal(Seq::filter);
            assert(before.take(0).filter(is_kept()).len() == 0);
            assert(before.take(0).filter(is_flagged()).len() == 0);
        }
        for record in iter: taken
            invariant
                iter.seq() == before,
                before == old(self)@,
                old(self).wf(),
                self.issued() == old(self).issued(),
                self@ == before.take(iter.index()).filter(is_kept()),
                removed@ == before.take(iter.index()).filter(is_flagged()).map_values(entity_of()),
                forall|k: int|
                    0 <= k < self@.len() ==> ((#[trigger] self@[k]).reply is Some
                        <==> self@[k].goal@.is_completed),
                forall|k: int|
                    0 <= k < self@.len() ==> (#[trigger] self@[k]).entity.index < self.issued(),
                forall|k: int, l: int|
                    0 <= k < l < self@.len() ==> (#[trigger] self@[k]).entity.index < (
                    #[trigger] self@[l]).entity.index,
                forall|k: int, j: int|
                    0 <= k < self@.len() && iter.index() <= j < before.len() ==> (
                    #[trigger] self@[k]).entity.index < (#[trigger] before[j]).entity.index,
        {
            let ghost at = iter.index();
            proof {
                lemma_filter_take_next(before, is_kept(), at);
                lemma_filter_take_next(before, is_flagged(), at);
                assert(record == before[at]);
            }
            if record.goal.is_to_delete() {
                removed.push(record.entity);
                proof {
                    let so_far = before.take(at).filter(is_flagged());
                    assert(so_far.push(before[at]).map_values(entity_of()) =~= so_far.map_values(
                        entity_of(),
                    ).push(before[at].entity));
                }
            } else {
                self.records.push(record);
            }
        }
        proof {
            assert(before.take(before.len() as int) =~= before);
        }
        removed
    }

    /// The store is `before` after a claim: every goal that was pending is
    /// executing, and nothing else changed.
    pub open spec fn claimed_from(&self, before: &Self) -> bool {
        &&& self.issued() == before.issued()
        &&& self@.len() == before@.len()
        &&& forall|i: int|
            0 <= i < self@.len() ==> if before@[i].state() is Pending {
                (#[trigger] self@[i]).claimed_from(before@[i])
            } else {
                self@[i] == before@[i]
            }
    }

    /// `places` lists the places of the pending records of `records`, each
    /// once, in rising order.
    pub(crate) open spec fn lists_pending(places: Seq<usize>, records: Seq<GoalRecord<T, U>>) -> bool {
        &&& places.len() == records.filter(is_pending()).len()
        &&& forall|k: int|
            0 <= k < places.len() ==> (#[trigger] places[k]) < records.len() && records[places[k] as int]
                == records.filter(is_pending())[k] && records[places[k] as int].state() is Pending
        &&& forall|k: int, l: int|
            0 <= k < l < places.len() ==> (#[trigger] places[k]) < (#[trigger] places[l])
        &&& forall|i: int|
            0 <= i < records.len() && (#[trigger] records[i]).state() is Pending ==> exists|k: int|
                0 <= k < places.len() && (#[trigger] places[k]) == i
    }

    /// Claims every pending goal for one dispatch pass: raises its execution
    /// flag, so that no later pass takes it again, and returns the places of
    /// the goals claimed.
    pub(crate) fn claim_pending(&mut self) -> (claimed: Vec<usize>)
        requires
            old(self).wf(),
        ensures
            final(self).wf(),
            final(self).claimed_from(old(self)),
            Self::lists_pending(claimed@, old(self)@),
    {
        let mut claimed: Vec<usize> = Vec::new();
        let mut at: usize = 0;
        proof {
            reveal(Seq::filter);
            assert(self@.take(0).filter(is_pending()).len() == 0);
        }
        while at < self.records.len()
            invariant
                old(self).wf(),
                self.wf(),
                at <= self@.len(),
                self.issued() == old(self).issued(),
                self@.len() == old(self)@.len(),
                forall|i: int|
                    0 <= i < at ==> if old(self)@[i].state() is Pending {
                        (#[trigger] self@[i]).claimed_from(old(self)@[i])
                    } else {
                        self@[i] == old(self)@[i]
                    },
                forall|i: int| at <= i < self@.len() ==> #[trigger] self@[i] == old(self)@[i],
                Self::lists_pending(claimed@, old(self)@.take(at as int)),
            decreases self@.len() - at,
        {
            let ghost so_far = old(self)@.take(at as int);
            let ghost next = old(self)@.take(at + 1);
            proof {
                lemma_filter_take_next(old(self)@, is_pending(), at as int);
                assert(forall|i: int| 0 <= i < so_far.len() ==> so_far[i] == next[i]);
                assert(next[at as int] == old(self)@[at as int]);
            }
            let ghost prior = claimed@;
            if matches!(self.records[at].goal.state(), GoalState::Pending) {
                self.records[at].goal.mark_executing();
                claimed.push(at);
                proof {
                    let k: int = claimed@.len() - 1;
                    assert(claimed@[k] == at);
                    assert(forall|k0: int| 0 <= k0 < prior.len() ==> prior[k0] == claimed@[k0]);
                    assert forall|i: int|
                        0 <= i < next.len() && (#[trigger] next[i]).state() is Pending implies exists|
                        k: int,
                    |
                        0 <= k < claimed@.len() && (#[trigger] claimed@[k]) == i by {
                        if i < at {
                            assert(so_far[i].state() is Pending);
                            let k0 = choose|k0: int|
                                0 <= k0 < prior.len() && (#[trigger] prior[k0]) == i;
                            assert(claimed@[k0] == i);
                        } else {
                            assert(claimed@[k] == i);
                        }
                    }
                }
            } else {
                proof {
                    assert forall|i: int|
                        0 <= i < next.len() && (#[trigger] next[i]).state() is Pending implies exists|
                        k: int,
                    |
                        0 <= k < claimed@.len() && (#[trigger] claimed@[k]) == i by {
                        assert(i < at);
                        assert(so_far[i].state() is Pending);
                    }
                }
            }
            at += 1;
        }
        proof {
            assert(old(self)@.take(at as int) =~= old(self)@);
        }
        claimed
    }
}

/// Filtering one element more either appends that element or changes nothing.
proof fn lemma_filter_take_next<A>(s: Seq<A>, pred: spec_fn(A) -> bool, i: int)
    requires
        0 <= i < s.len(),
    ensures
        s.take(i + 1).filter(pred) == if pred(s[i]) {
            s.take(i).filter(pred).push(s[i])
        } else {
            s.take(i).filter(pred)
        },
{
    reveal(Seq::filter);
    assert(s.take(i + 1).drop_last() =~= s.take(i));
}

} // verus!
