//! The lifecycle of a tracked request, as a small ordered state machine.
use vstd::prelude::*;

verus! {

/// Where a tracked request stands.
///
/// A request starts `Pending`, is claimed into `Executing` by a dispatch pass,
/// and ends either `Completed` (a reply is attached) or `ToDelete` (it failed,
/// or somebody asked for its removal).
#[derive(Clone, Copy, Debug, PartialEq, Eq, Structural)]
pub enum GoalState {
    Pending,
    Executing,
    Completed,
    ToDelete,
}

impl GoalState {
    /// How far along the lifecycle a state is.
    pub open spec fn rank(self) -> nat {
        match self {
            GoalState::Pending => 0,
            GoalState::Executing => 1,
            GoalState::Completed => 2,
            GoalState::ToDelete => 3,
        }
    }

    /// A single permitted transition: a claim, a successful resolution, or a
    /// flag for removal, which may be raised from any state.
    pub open spec fn steps_to(self, next: GoalState) -> bool {
        ||| self is Pending && next is Executing
        ||| self is Executing && next is Completed
        ||| next is ToDelete
    }

    /// `later` may be observed on a goal that was earlier observed in `self`.
    pub open spec fn can_reach(self, later: GoalState) -> bool {
        self.rank() <= later.rank()
    }

    /// `goal` is reachable from `self` by at most `fuel` single transitions.
    pub open spec fn reaches_within(self, goal: GoalState, fuel: nat) -> bool
        decreases fuel,
    {
        self == goal || (fuel > 0 && exists|mid: GoalState|
            #[trigger] self.steps_to(mid) && mid.reaches_within(goal, (fuel - 1) as nat))
    }
}

/// Every single transition moves forward in the lifecycle order.
pub proof fn lemma_step_moves_forward(from: GoalState, to: GoalState)
    requires
        from.steps_to(to),
    ensures
        from.can_reach(to),
{
}

/// The lifecycle order is a partial order: a state reaches itself, reaching
/// composes, and two distinct states never reach each other, so no goal is
/// ever observed to move backwards.
pub proof fn lemma_can_reach_is_an_order(a: GoalState, b: GoalState, c: GoalState)
    ensures
        a.can_reach(a),
        a.can_reach(b) && b.can_reach(c) ==> a.can_reach(c),
        a.can_reach(b) && b.can_reach(a) ==> a == b,
{
}

/// Any chain of single transitions, however long, stays within the order.
pub proof fn lemma_chain_stays_in_order(from: GoalState, to: GoalState, fuel: nat)
    requires
        from.reaches_within(to, fuel),
    ensures
        from.can_reach(to),
    decreases fuel,
{
    if from != to {
        let mid = choose|mid: GoalState|
            #[trigger] from.steps_to(mid) && mid.reaches_within(to, (fuel - 1) as nat);
        lemma_chain_stays_in_order(mid, to, (fuel - 1) as nat);
    }
}

/// The order holds nothing but chains of transitions: whatever it admits is
/// reached in at most two single transitions.
pub proof fn lemma_order_is_made_of_steps(from: GoalState, to: GoalState)
    requires
        from.can_reach(to),
    ensures
        from.reaches_within(to, 2),
{
    if from == to {
    } else if from.steps_to(to) {
        assert(to.reaches_within(to, 0));
        assert(from.steps_to(to) && to.reaches_within(to, 1));
    } else {
        // The one pair left is a pending goal seen completed.
        assert(from is Pending && to is Completed);
        let mid = GoalState::Executing;
        assert(to.reaches_within(to, 0));
        assert(mid.steps_to(to) && to.reaches_within(to, 0));
        assert(mid.reaches_within(to, 1));
        assert(from.steps_to(mid) && mid.reaches_within(to, 1));
    }
}

} // verus!
