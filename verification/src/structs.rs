//! The values the engine keeps for each request: the inbound event, the
//! request and reply payloads, and the goal that records the lifecycle.
use crate::lifecycle::GoalState;
use vstd::prelude::*;

verus! {

/// `uuid::Uuid`, the identifier a caller attaches to a request. Its sixteen
/// bytes are not visible here: the engine carries the identifier and compares
/// it, no more.
#[verifier::external_type_specification]
#[verifier::external_body]
pub struct ExUuid(uuid::Uuid);

/// `bevy_time::Stopwatch`, the elapsed-time counter each goal carries.
#[verifier::external_type_specification]
#[verifier::external_body]
pub struct ExStopwatch(bevy_time::Stopwatch);

/// Calls `bevy_time::Stopwatch::new`, which builds an unpaused stopwatch with
/// no elapsed time. No rule of the engine reads the stopwatch, so nothing is
/// claimed of the value that comes back.
#[verifier::external_body]
fn fresh_stopwatch() -> (timer: bevy_time::Stopwatch) {
    bevy_time::Stopwatch::new()
}

/// `bevy_time::Stopwatch` derives `Clone` over its two fields, the elapsed
/// time and the pause flag: the copy is the same stopwatch value.
pub assume_specification[ <bevy_time::Stopwatch as Clone>::clone ](
    timer: &bevy_time::Stopwatch,
) -> (copy: bevy_time::Stopwatch)
    ensures
        copy == *timer,
;

/// Compares two identifiers with the `==` of `uuid::Uuid`, which that crate
/// derives over the identifier's sixteen bytes: the answer is `true` exactly
/// when both are the same identifier.
#[verifier::external_body]
pub(crate) fn same_uuid(left: &uuid::Uuid, right: &uuid::Uuid) -> (same: bool)
    ensures
        same == (*left == *right),
{
    left == right
}

/// An inbound request as a producer posts it: the caller's identifier and the
/// payload. Identifiers are the caller's business and need not be unique.
#[derive(Debug)]
pub struct QueryEvent<T> {
    pub uuid: uuid::Uuid,
    pub request: T,
}

/// The payload of a request. It is attached to a goal when the goal is
/// created and is only read afterwards.
#[derive(Debug)]
pub struct QueryRequest<T> {
    pub request: T,
}

/// The payload of a reply.
#[derive(Debug)]
pub struct QueryReply<T> {
    pub reply: T,
}

/// Intermediate results a resolver may report while it works on a request.
#[derive(Debug)]
pub struct QueryFeedback<T> {
    pub feedbacks: Vec<T>,
}

impl<T: Clone> Clone for QueryEvent<T> {
    fn clone(&self) -> (copy: Self)
        ensures
            copy.uuid == self.uuid,
            cloned(self.request, copy.request),
    {
        QueryEvent { uuid: self.uuid, request: self.request.clone() }
    }
}

impl<T: Clone> Clone for QueryRequest<T> {
    fn clone(&self) -> (copy: Self)
        ensures
            cloned(self.request, copy.request),
    {
        QueryRequest { request: self.request.clone() }
    }
}

impl<T: Clone> Clone for QueryReply<T> {
    fn clone(&self) -> (copy: Self)
        ensures
            cloned(self.reply, copy.reply),
    {
        QueryReply { reply: self.reply.clone() }
    }
}

impl<T: Clone> Clone for QueryFeedback<T> {
    fn clone(&self) -> (copy: Self)
        ensures
            copy.feedbacks@.len() == self.feedbacks@.len(),
            forall|i: int|
                0 <= i < self.feedbacks@.len() ==> cloned(
                    self.feedbacks@[i],
                    #[trigger] copy.feedbacks@[i],
                ),
    {
        QueryFeedback { feedbacks: self.feedbacks.clone() }
    }
}

impl<T: Default> Default for QueryReply<T> {
    fn default() -> (empty: Self)
        ensures
            call_ensures(T::default, (), empty.reply),
    {
        QueryReply { reply: T::default() }
    }
}

impl<T> Default for QueryFeedback<T> {
    fn default() -> (empty: Self)
        ensures
            empty.feedbacks@.len() == 0,
    {
        QueryFeedback { feedbacks: Vec::new() }
    }
}

/// What a goal holds, as a plain value: the caller's identifier, the three
/// flags, and the stopwatch.
pub struct GoalView {
    pub uuid: uuid::Uuid,
    pub is_executing: bool,
    pub is_completed: bool,
    pub to_delete: bool,
    pub timer: bevy_time::Stopwatch,
}

impl GoalView {
    /// The lifecycle state the flags stand for. The removal flag outranks the
    /// completion flag, and the completion flag outranks the execution flag,
    /// so raising a flag never moves the state backwards.
    pub open spec fn state(self) -> GoalState {
        if self.to_delete {
            GoalState::ToDelete
        } else if self.is_completed {
            GoalState::Completed
        } else if self.is_executing {
            GoalState::Executing
        } else {
            GoalState::Pending
        }
    }

    /// The goal after a dispatch pass has claimed it.
    pub open spec fn executing(self) -> GoalView {
        GoalView { is_executing: true, ..self }
    }

    /// The goal after its handler has succeeded.
    pub open spec fn completed(self) -> GoalView {
        GoalView { is_executing: false, is_completed: true, ..self }
    }

    /// The goal after its handler has failed or its removal was asked for.
    pub open spec fn flagged(self) -> GoalView {
        GoalView { is_executing: false, to_delete: true, ..self }
    }
}

/// The lifecycle record of one tracked request.
#[derive(Debug)]
pub struct GoalComponent {
    uuid: uuid::Uuid,
    is_executing: bool,
    is_completed: bool,
    to_delete: bool,
    timer: bevy_time::Stopwatch,
}

impl View for GoalComponent {
    type V = GoalView;

    closed spec fn view(&self) -> GoalView {
        GoalView {
            uuid: self.uuid,
            is_executing: self.is_executing,
            is_completed: self.is_completed,
            to_delete: self.to_delete,
            timer: self.timer,
        }
    }
}

impl Clone for GoalComponent {
    fn clone(&self) -> (copy: Self)
        ensures
            copy == *self,
    {
        GoalComponent {
            uuid: self.uuid,
            is_executing: self.is_executing,
            is_completed: self.is_completed,
            to_delete: self.to_delete,
            timer: self.timer.clone(),
        }
    }
}

impl GoalComponent {
    /// A new goal for the request that carries `uuid`: no flag is raised, so
    /// the goal is pending.
    pub fn new(uuid: uuid::Uuid) -> (goal: Self)
        ensures
            goal@.uuid == uuid,
            !goal@.is_executing,
            !goal@.is_completed,
            !goal@.to_delete,
            goal@.state() is Pending,
    {
        Self {
            uuid,
            is_executing: false,
            is_completed: false,
            to_delete: false,
            timer: fresh_stopwatch(),
        }
    }

    /// The identifier the caller attached to the request.
    pub fn get_uuid(&self) -> (uuid: uuid::Uuid)
        ensures
            uuid == self@.uuid,
    {
        self.uuid
    }

    /// Raises the execution flag: a pending goal becomes executing, any other
    /// goal keeps its state.
    pub fn mark_executing(&mut self)
        ensures
            final(self)@ == old(self)@.executing(),
            old(self)@.state().can_reach(final(self)@.state()),
            old(self)@.state() is Pending ==> final(self)@.state() is Executing,
    {
        self.is_executing = true;
    }

    /// Whether the execution flag is raised.
    pub fn is_executing(&self) -> (flag: bool)
        ensures
            flag == self@.is_executing,
    {
        self.is_executing
    }

    /// Lowers the execution flag and raises the completion flag: the goal
    /// becomes completed unless its removal was already asked for.
    pub fn mark_completed(&mut self)
        ensures
            final(self)@ == old(self)@.completed(),
            old(self)@.state().can_reach(final(self)@.state()),
            !old(self)@.to_delete ==> final(self)@.state() is Completed,
    {
        self.is_executing = false;
        self.is_completed = true;
    }

    /// Whether the completion flag is raised.
    pub fn is_completed(&self) -> (flag: bool)
        ensures
            flag == self@.is_completed,
    {
        self.is_completed
    }

    /// Lowers the execution flag and raises the removal flag: whatever its
    /// state was, the goal is now to be deleted.
    pub fn mark_to_delete(&mut self)
        ensures
            final(self)@ == old(self)@.flagged(),
            final(self)@.state() is ToDelete,
    {
        self.is_executing = false;
        self.to_delete = true;
    }

    /// Whether the removal flag is raised.
    pub fn is_to_delete(&self) -> (flag: bool)
        ensures
            flag == self@.to_delete,
    {
        self.to_delete
    }

    /// The lifecycle state of the goal.
    pub fn state(&self) -> (state: GoalState)
        ensures
            state == self@.state(),
    {
        if self.to_delete {
            GoalState::ToDelete
        } else if self.is_completed {
            GoalState::Completed
        } else if self.is_executing {
            GoalState::Executing
        } else {
            GoalState::Pending
        }
    }
}

} // verus!
