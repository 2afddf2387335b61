//! Carrying out a distribution, one payment at a time.
//!
//! The crate cannot move value: the host does, within a transaction of its
//! own. A settlement tells the host what to do next and takes back whether
//! the payment it asked for succeeded. Payments are asked for in the order
//! of the plan. The first failure ends the settlement with an abort, on
//! which the host undoes the payments made so far and records nothing; only
//! when every payment has succeeded does the settlement commit and hand out
//! the events to record.

use vstd::prelude::*;
use crate::AccountId;
use crate::distribution::Distribution;
use crate::error::Error;
use crate::event::Event;

verus! {

/// How far a settlement has come.
#[derive(Clone, Copy, Debug, PartialEq, Eq, Structural)]
pub enum Stage {
    /// A payment has been asked for and its outcome is awaited.
    Transferring,
    /// Every payment succeeded.
    Committed,
    /// A payment failed.
    Aborted,
}

/// What a settlement asks of the host.
#[derive(Clone, Debug, PartialEq, Eq)]
pub enum Action {
    /// Move `amount` from `from` to `to` and report whether that succeeded.
    Transfer { from: AccountId, to: AccountId, amount: u64 },
    /// Keep all payments and append these events to the log.
    Commit(Vec<Event>),
    /// Undo every payment made for this deposit, record no event and report
    /// the error.
    Abort(Error),
}

/// Where a settlement of `count` payments stands once the host has reported
/// the outcome of the payment that was asked for: its stage and the number
/// of payments confirmed. A settlement that has committed or aborted stays
/// where it is.
pub open spec fn advance(stage: Stage, confirmed: nat, count: nat, succeeded: bool) -> (
    Stage,
    nat,
) {
    if stage != Stage::Transferring {
        (stage, confirmed)
    } else if !succeeded {
        (Stage::Aborted, confirmed)
    } else if confirmed + 1 == count {
        (Stage::Committed, confirmed + 1)
    } else {
        (Stage::Transferring, confirmed + 1)
    }
}

/// Where a settlement of `count` payments stands once the host has reported
/// these outcomes, one after the other.
pub open spec fn run(stage: Stage, confirmed: nat, count: nat, outcomes: Seq<bool>) -> (
    Stage,
    nat,
)
    decreases outcomes.len(),
{
    if outcomes.len() == 0 {
        (stage, confirmed)
    } else {
        let next = advance(stage, confirmed, count, outcomes[0]);
        run(next.0, next.1, count, outcomes.skip(1))
    }
}

/// Nothing that the host reports moves a settlement that has committed or
/// aborted.
pub proof fn lemma_run_finished(stage: Stage, confirmed: nat, count: nat, outcomes: Seq<bool>)
    requires
        stage != Stage::Transferring,
    ensures
        run(stage, confirmed, count, outcomes) == (stage, confirmed),
    decreases outcomes.len(),
{
    if outcomes.len() > 0 {
        lemma_run_finished(stage, confirmed, count, outcomes.skip(1));
    }
}

/// All or nothing, the one half: a settlement commits once the host has
/// reported success for every payment that was still to be made, and then
/// every payment of the plan is confirmed.
pub proof fn lemma_run_commits(confirmed: nat, count: nat, outcomes: Seq<bool>)
    requires
        confirmed < count,
        outcomes.len() >= count - confirmed,
        forall|i: int| 0 <= i < count - confirmed ==> outcomes[i],
    ensures
        run(Stage::Transferring, confirmed, count, outcomes) == (Stage::Committed, count),
    decreases outcomes.len(),
{
    let rest = outcomes.skip(1);
    assert(outcomes[0]);
    if confirmed + 1 == count {
        lemma_run_finished(Stage::Committed, count, count, rest);
    } else {
        assert forall|i: int| 0 <= i < count - (confirmed + 1) implies rest[i] by {
            assert(rest[i] == outcomes[i + 1]);
        }
        lemma_run_commits(confirmed + 1, count, rest);
    }
}

/// All or nothing, the other half: the first failure that the host reports
/// aborts the settlement at the payment that failed, whatever is reported
/// afterwards.
pub proof fn lemma_run_aborts(confirmed: nat, count: nat, outcomes: Seq<bool>, failed: int)
    requires
        0 <= failed < outcomes.len(),
        confirmed + failed < count,
        !outcomes[failed],
        forall|i: int| 0 <= i < failed ==> outcomes[i],
    ensures
        run(Stage::Transferring, confirmed, count, outcomes) == (
            Stage::Aborted,
            confirmed + failed as nat,
        ),
    decreases outcomes.len(),
{
    let rest = outcomes.skip(1);
    if failed == 0 {
        lemma_run_finished(Stage::Aborted, confirmed, count, rest);
    } else {
        assert(outcomes[0]);
        assert(rest[failed - 1] == outcomes[failed]);
        assert forall|i: int| 0 <= i < failed - 1 implies rest[i] by {
            assert(rest[i] == outcomes[i + 1]);
        }
        lemma_run_aborts(confirmed + 1, count, rest, failed - 1);
    }
}

/// The progress of one distribution through its payments.
#[derive(Debug, PartialEq, Eq)]
pub struct Settlement {
    plan: Distribution,
    confirmed: usize,
    stage: Stage,
}

impl Settlement {
    /// The distribution that is being carried out.
    pub closed spec fn plan(&self) -> Distribution {
        self.plan
    }

    /// The number of payments that the host has reported as made. While
    /// payments go on, and after an abort, it is also the position in the
    /// plan of the payment that was asked for last.
    pub closed spec fn confirmed(&self) -> nat {
        self.confirmed as nat
    }

    /// How far the settlement has come.
    pub closed spec fn stage(&self) -> Stage {
        self.stage
    }

    /// A settlement commits only with every payment confirmed, and
    /// otherwise points at a payment of its plan.
    pub open spec fn wf(&self) -> bool {
        match self.stage() {
            Stage::Transferring => self.confirmed() < self.plan().transfers@.len(),
            Stage::Committed => self.confirmed() == self.plan().transfers@.len(),
            Stage::Aborted => self.confirmed() < self.plan().transfers@.len(),
        }
    }

    /// Whether `action` is what the settlement asks of the host in its
    /// present state.
    pub open spec fn directs(&self, action: Action) -> bool {
        let plan = self.plan();
        let next = plan.transfers@[self.confirmed() as int];
        match self.stage() {
            Stage::Transferring => action == (Action::Transfer {
                from: plan.sender,
                to: next.recipient,
                amount: next.amount,
            }),
            Stage::Committed => action matches Action::Commit(events) && events@
                == plan.events_spec(),
            Stage::Aborted => action == Action::Abort(Error::TransferFailed(next.recipient)),
        }
    }

    /// The action that the present state asks for.
    fn action(&self) -> (a: Action)
        requires
            self.wf(),
        ensures
            self.directs(a),
    {
        match self.stage {
            Stage::Transferring => {
                let next = self.plan.transfers[self.confirmed];
                Action::Transfer { from: self.plan.sender, to: next.recipient, amount: next.amount }
            },
            Stage::Committed => Action::Commit(self.plan.events()),
            Stage::Aborted => {
                let failed = self.plan.transfers[self.confirmed];
                Action::Abort(Error::TransferFailed(failed.recipient))
            },
        }
    }

    /// Starts to carry out the plan and asks for its first payment. A plan
    /// without payments commits at once.
    pub fn begin(plan: Distribution) -> (r: (Settlement, Action))
        ensures
            r.0.wf(),
            r.0.plan() == plan,
            r.0.confirmed() == 0,
            plan.transfers@.len() == 0 ==> r.0.stage() == Stage::Committed,
            plan.transfers@.len() > 0 ==> r.0.stage() == Stage::Transferring,
            r.0.directs(r.1),
    {
        let stage = if plan.transfers.len() == 0 {
            Stage::Committed
        } else {
            Stage::Transferring
        };
        let settlement = Settlement { plan, confirmed: 0, stage };
        let action = settlement.action();
        (settlement, action)
    }

    /// Takes the outcome of the payment that was asked for and says what to
    /// do next.
    ///
    /// A failure aborts the settlement and names the recipient that could
    /// not be paid. A success moves on to the next payment of the plan, or
    /// commits where it was the last. A settlement that has committed or
    /// aborted stays as it is and repeats its final action.
    pub fn step(self, succeeded: bool) -> (r: (Settlement, Action))
        requires
            self.wf(),
        ensures
            r.0.wf(),
            r.0.plan() == self.plan(),
            (r.0.stage(), r.0.confirmed()) == advance(
                self.stage(),
                self.confirmed(),
                self.plan().transfers@.len(),
                succeeded,
            ),
            r.0.directs(r.1),
    {
        let mut next = self;
        match next.stage {
            Stage::Transferring => {
                if !succeeded {
                    next.stage = Stage::Aborted;
                } else {
                    let count = next.plan.transfers.len();
                    next.confirmed = next.confirmed + 1;
                    if next.confirmed == count {
                        next.stage = Stage::Committed;
                    }
                }
            },
            Stage::Committed => {},
            Stage::Aborted => {},
        }
        let action = next.action();
        (next, action)
    }

    /// How far the settlement has come.
    pub fn current_stage(&self) -> (s: Stage)
        ensures
            s == self.stage(),
    {
        self.stage
    }

    /// The number of payments that the host has reported as made.
    pub fn payments_made(&self) -> (n: usize)
        ensures
            n == self.confirmed(),
    {
        self.confirmed
    }
}

} // verus!
