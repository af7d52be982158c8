//! The run of a deployment: what to do next, given what happened.
//!
//! The run itself signs nothing and sends nothing. It is told what happened
//! and says what is to be done: the caller has the transaction signed,
//! broadcasts it, asks whether it is committed and records it, one
//! transaction after the other.

use crate::deployment::migration::{MigrationRecord, MigrationRecordView, OutPoint, record_views};
use crate::deployment::plan::{output_views, CellSource, PlannedOutputView, PlannedTransaction};
use vstd::prelude::*;

verus! {

/// How often a run tries before it gives up.
#[derive(Clone, Copy, Debug, PartialEq, Eq)]
pub struct RunLimits {
    /// How often a transaction is broadcast at most.
    pub broadcast_attempts: u32,
    /// How often the ledger is asked at most whether a transaction is committed.
    pub confirmation_polls: u32,
}

/// What the ledger says of a transaction that was broadcast.
#[derive(Clone, Copy, Debug, PartialEq, Eq)]
pub enum Confirmation {
    Pending,
    Committed,
    Unknown,
}

/// Why a run ended before all its transactions were recorded.
#[derive(Clone, Copy, Debug, PartialEq, Eq)]
pub enum RunError {
    /// The signer did not sign the transaction.
    SignerFailure,
    /// The transaction was refused at every attempt to broadcast it.
    ChainRpcFailure,
    /// The transaction was not seen committed in time. It may still be.
    ConfirmationTimeout,
    /// The operator stopped the run.
    Interrupted,
}

/// What happened since the run last said what to do.
#[derive(Clone, Copy, Debug, PartialEq, Eq)]
pub enum Event {
    /// The transaction was signed.
    Signed,
    /// The signer failed.
    SignerFailed,
    /// The ledger took the transaction and knows it by this hash.
    Accepted { tx_hash: [u8; 32] },
    /// The ledger could not be reached or refused the transaction.
    Rejected,
    /// The ledger said where the transaction stands.
    Status(Confirmation),
    /// The outputs of the transaction were added to the record of deployments.
    Recorded,
    /// The operator asked the run to stop.
    Interrupted,
}

/// What the caller is to do next.
#[derive(Clone, Copy, Debug, PartialEq, Eq)]
pub enum Action {
    /// Have the transaction signed.
    Sign { transaction: usize },
    /// Send the signed transaction to the ledger; `attempt` counts from one.
    Broadcast { transaction: usize, attempt: u32 },
    /// Wait, then ask the ledger where the transaction stands; `poll` counts from one.
    Poll { transaction: usize, tx_hash: [u8; 32], poll: u32 },
    /// Add the outputs of the committed transaction to the record of deployments.
    Record { transaction: usize, tx_hash: [u8; 32] },
    /// Nothing: every transaction is committed and recorded.
    Finish,
    /// Report the error, and that the first `recorded` transactions are
    /// committed and recorded.
    Abort { error: RunError, recorded: usize },
}

/// What a run waits for.
#[derive(Clone, Copy, Debug, PartialEq, Eq)]
pub enum Phase {
    /// The signature of the transaction.
    Signing,
    /// The ledger's answer to the broadcast number `attempt`.
    Broadcasting { attempt: u32 },
    /// The ledger's answer to the question number `poll`.
    Confirming { tx_hash: [u8; 32], poll: u32 },
    /// The record of the committed transaction; `stopping` where the
    /// operator asked meanwhile to stop.
    Recording { tx_hash: [u8; 32], stopping: bool },
    /// Nothing: all is done.
    Finished,
    /// Nothing: the run has failed.
    Aborted { error: RunError },
}

/// A run over the transactions of a plan, in their order.
#[derive(Clone, Copy, Debug, PartialEq, Eq)]
pub struct Run {
    /// Number of transactions of the plan.
    pub transactions: usize,
    /// Number of transactions that are committed and recorded. It is also
    /// the index of the transaction that the run works on.
    pub recorded: usize,
    pub phase: Phase,
    pub limits: RunLimits,
}

impl Run {
    /// The run is in a state that `start` and `step` can lead to: nothing is
    /// recorded beyond the plan, and while a transaction is worked on there
    /// is one left, and the counts are within the limits.
    pub open spec fn well_formed(self) -> bool {
        &&& self.recorded <= self.transactions
        &&& match self.phase {
            Phase::Signing => self.recorded < self.transactions,
            Phase::Broadcasting { attempt } => {
                &&& self.recorded < self.transactions
                &&& 1 <= attempt <= self.limits.broadcast_attempts
            },
            Phase::Confirming { poll, .. } => {
                &&& self.recorded < self.transactions
                &&& 1 <= poll <= self.limits.confirmation_polls
            },
            Phase::Recording { .. } => self.recorded < self.transactions,
            Phase::Finished => self.recorded == self.transactions,
            Phase::Aborted { .. } => true,
        }
    }

    /// The run that works on the transaction after the `recorded` first ones:
    /// it waits for the signature of that transaction, or for nothing where
    /// none is left.
    pub open spec fn at(transactions: usize, recorded: usize, limits: RunLimits) -> Run {
        Run {
            transactions,
            recorded,
            phase: if recorded < transactions {
                Phase::Signing
            } else {
                Phase::Finished
            },
            limits,
        }
    }

    /// The run in another phase.
    pub open spec fn in_phase(self, phase: Phase) -> Run {
        Run {
            transactions: self.transactions,
            recorded: self.recorded,
            phase,
            limits: self.limits,
        }
    }

    /// What the run asks the caller to do: what it waits for.
    pub open spec fn pending(self) -> Action {
        match self.phase {
            Phase::Signing => Action::Sign { transaction: self.recorded },
            Phase::Broadcasting { attempt } => Action::Broadcast {
                transaction: self.recorded,
                attempt,
            },
            Phase::Confirming { tx_hash, poll } => Action::Poll {
                transaction: self.recorded,
                tx_hash,
                poll,
            },
            Phase::Recording { tx_hash, .. } => Action::Record {
                transaction: self.recorded,
                tx_hash,
            },
            Phase::Finished => Action::Finish,
            Phase::Aborted { error } => Action::Abort { error, recorded: self.recorded },
        }
    }

    /// The run after `event`.
    ///
    /// A transaction is signed, then broadcast until the ledger takes it,
    /// then asked about until it is committed, then recorded; only then the
    /// next one is signed. A failure of the signer, a refusal at the last
    /// attempt, an answer other than "committed" to the last question, and a
    /// request to stop end the run. A request to stop that comes while a
    /// committed transaction is being recorded ends the run once the record
    /// is made. An event that the run does not wait for changes nothing.
    pub open spec fn after(self, event: Event) -> Run {
        match (self.phase, event) {
            (Phase::Finished, _) => self,
            (Phase::Aborted { .. }, _) => self,
            (Phase::Recording { tx_hash, .. }, Event::Interrupted) => self.in_phase(
                Phase::Recording { tx_hash, stopping: true },
            ),
            (Phase::Recording { stopping, .. }, Event::Recorded) => if stopping {
                Run {
                    transactions: self.transactions,
                    recorded: (self.recorded + 1) as usize,
                    phase: Phase::Aborted { error: RunError::Interrupted },
                    limits: self.limits,
                }
            } else {
                Run::at(self.transactions, (self.recorded + 1) as usize, self.limits)
            },
            (_, Event::Interrupted) => self.in_phase(
                Phase::Aborted { error: RunError::Interrupted },
            ),
            (Phase::Signing, Event::Signed) => if self.limits.broadcast_attempts >= 1 {
                self.in_phase(Phase::Broadcasting { attempt: 1 })
            } else {
                self.in_phase(Phase::Aborted { error: RunError::ChainRpcFailure })
            },
            (Phase::Signing, Event::SignerFailed) => self.in_phase(
                Phase::Aborted { error: RunError::SignerFailure },
            ),
            (Phase::Broadcasting { .. }, Event::Accepted { tx_hash }) => if self.limits.confirmation_polls
                >= 1 {
                self.in_phase(Phase::Confirming { tx_hash, poll: 1 })
            } else {
                self.in_phase(Phase::Aborted { error: RunError::ConfirmationTimeout })
            },
            (Phase::Broadcasting { attempt }, Event::Rejected) => if attempt
                < self.limits.broadcast_attempts {
                self.in_phase(Phase::Broadcasting { attempt: (attempt + 1) as u32 })
            } else {
                self.in_phase(Phase::Aborted { error: RunError::ChainRpcFailure })
            },
            (Phase::Confirming { tx_hash, .. }, Event::Status(Confirmation::Committed)) => self.in_phase(
                Phase::Recording { tx_hash, stopping: false },
            ),
            (Phase::Confirming { tx_hash, poll }, Event::Status(_)) => if poll
                < self.limits.confirmation_polls {
                self.in_phase(Phase::Confirming { tx_hash, poll: (poll + 1) as u32 })
            } else {
                self.in_phase(Phase::Aborted { error: RunError::ConfirmationTimeout })
            },
            _ => self,
        }
    }

    /// Whether the run is in a state that `start` and `step` can lead to.
    pub fn is_well_formed(&self) -> (result: bool)
        ensures
            result == self.well_formed(),
    {
        self.recorded <= self.transactions && match self.phase {
            Phase::Signing => self.recorded < self.transactions,
            Phase::Broadcasting { attempt } => self.recorded < self.transactions && 1 <= attempt
                && attempt <= self.limits.broadcast_attempts,
            Phase::Confirming { poll, .. } => self.recorded < self.transactions && 1 <= poll && poll
                <= self.limits.confirmation_polls,
            Phase::Recording { .. } => self.recorded < self.transactions,
            Phase::Finished => self.recorded == self.transactions,
            Phase::Aborted { .. } => true,
        }
    }

    /// What the run asks the caller to do.
    pub fn action(&self) -> (action: Action)
        ensures
            action == self.pending(),
    {
        match self.phase {
            Phase::Signing => Action::Sign { transaction: self.recorded },
            Phase::Broadcasting { attempt } => Action::Broadcast {
                transaction: self.recorded,
                attempt,
            },
            Phase::Confirming { tx_hash, poll } => Action::Poll {
                transaction: self.recorded,
                tx_hash,
                poll,
            },
            Phase::Recording { tx_hash, .. } => Action::Record {
                transaction: self.recorded,
                tx_hash,
            },
            Phase::Finished => Action::Finish,
            Phase::Aborted { error } => Action::Abort { error, recorded: self.recorded },
        }
    }

    /// Begins a run over `transactions` transactions, none of them recorded.
    pub fn start(transactions: usize, limits: RunLimits) -> (result: (Run, Action))
        ensures
            result.0 == Run::at(transactions, 0, limits),
            result.0.well_formed(),
            result.1 == result.0.pending(),
    {
        let phase = if transactions > 0 {
            Phase::Signing
        } else {
            Phase::Finished
        };
        let run = Run { transactions, recorded: 0, phase, limits };
        (run, run.action())
    }

    fn with_phase(&self, phase: Phase) -> (run: Run)
        ensures
            run == self.in_phase(phase),
    {
        Run { transactions: self.transactions, recorded: self.recorded, phase, limits: self.limits }
    }

    /// Takes `event` and says what is to be done next.
    pub fn step(&self, event: Event) -> (result: (Run, Action))
        requires
            self.well_formed(),
        ensures
            result.0 == self.after(event),
            result.0.well_formed(),
            result.1 == result.0.pending(),
    {
        let run = match (self.phase, event) {
            (Phase::Finished, _) => *self,
            (Phase::Aborted { .. }, _) => *self,
            (Phase::Recording { tx_hash, .. }, Event::Interrupted) => self.with_phase(
                Phase::Recording { tx_hash, stopping: true },
            ),
            (Phase::Recording { stopping, .. }, Event::Recorded) => {
                let recorded: usize = self.recorded + 1;
                let phase = if stopping {
                    Phase::Aborted { error: RunError::Interrupted }
                } else if recorded < self.transactions {
                    Phase::Signing
                } else {
                    Phase::Finished
                };
                Run { transactions: self.transactions, recorded, phase, limits: self.limits }
            },
            (_, Event::Interrupted) => self.with_phase(
                Phase::Aborted { error: RunError::Interrupted },
            ),
            (Phase::Signing, Event::Signed) => if self.limits.broadcast_attempts >= 1 {
                self.with_phase(Phase::Broadcasting { attempt: 1 })
            } else {
                self.with_phase(Phase::Aborted { error: RunError::ChainRpcFailure })
            },
            (Phase::Signing, Event::SignerFailed) => self.with_phase(
                Phase::Aborted { error: RunError::SignerFailure },
            ),
            (Phase::Broadcasting { .. }, Event::Accepted { tx_hash }) => if self.limits.confirmation_polls
                >= 1 {
                self.with_phase(Phase::Confirming { tx_hash, poll: 1 })
            } else {
                self.with_phase(Phase::Aborted { error: RunError::ConfirmationTimeout })
            },
            (Phase::Broadcasting { attempt }, Event::Rejected) => if attempt
                < self.limits.broadcast_attempts {
                self.with_phase(Phase::Broadcasting { attempt: attempt + 1 })
            } else {
                self.with_phase(Phase::Aborted { error: RunError::ChainRpcFailure })
            },
            (Phase::Confirming { tx_hash, .. }, Event::Status(Confirmation::Committed)) => self.with_phase(
                Phase::Recording { tx_hash, stopping: false },
            ),
            (Phase::Confirming { tx_hash, poll }, Event::Status(_)) => if poll
                < self.limits.confirmation_polls {
                self.with_phase(Phase::Confirming { tx_hash, poll: poll + 1 })
            } else {
                self.with_phase(Phase::Aborted { error: RunError::ConfirmationTimeout })
            },
            _ => *self,
        };
        (run, run.action())
    }
}

/// A step keeps the run well formed, its plan and its limits. It records at
/// most one transaction, and records one exactly when the record of a
/// committed transaction was made.
pub proof fn lemma_step_records_one_at_a_time(run: Run, event: Event)
    requires
        run.well_formed(),
    ensures
        run.after(event).well_formed(),
        run.after(event).transactions == run.transactions,
        run.after(event).limits == run.limits,
        run.recorded <= run.after(event).recorded <= run.recorded + 1,
        run.after(event).recorded == run.recorded + 1 <==> run.phase is Recording && event
            is Recorded,
{
}

/// A transaction is recorded only once the ledger has said that it is
/// committed: the run comes to wait for a record only from waiting for the
/// ledger's answer, and only by the answer "committed".
pub proof fn lemma_record_follows_commit(run: Run, event: Event)
    requires
        run.well_formed(),
        run.after(event).phase is Recording,
        !(run.phase is Recording),
    ensures
        run.phase is Confirming,
        event == Event::Status(Confirmation::Committed),
        run.after(event).phase->Recording_tx_hash == run.phase->Confirming_tx_hash,
        run.after(event).recorded == run.recorded,
{
}

/// The transactions are worked on in their order, one at a time: the run
/// comes to wait for a signature only at its start or when the transaction
/// before was recorded, and what it asks for always concerns the first
/// transaction that is not recorded.
pub proof fn lemma_next_begins_after_record(run: Run, event: Event)
    requires
        run.well_formed(),
        run.after(event).phase is Signing,
        !(run.phase is Signing),
    ensures
        run.phase is Recording,
        event is Recorded,
        run.after(event).recorded == run.recorded + 1,
        run.after(event).pending() == (Action::Sign { transaction: run.after(event).recorded }),
{
}

/// After a request to stop the run asks for no signature, no broadcast and
/// no question to the ledger: it ends, or it first has the record made of
/// the transaction that is committed already.
pub proof fn lemma_interruption_stops(run: Run)
    requires
        run.well_formed(),
    ensures
        match run.after(Event::Interrupted).pending() {
            Action::Sign { .. } => false,
            Action::Broadcast { .. } => false,
            Action::Poll { .. } => false,
            Action::Record { .. } => run.phase is Recording,
            Action::Finish => run.phase is Finished,
            Action::Abort { recorded, .. } => recorded == run.recorded,
        },
        run.phase is Recording ==> run.after(Event::Interrupted).after(Event::Recorded).phase
            == (Phase::Aborted { error: RunError::Interrupted }),
{
}

/// A run that has ended stays as it is, whatever happens: a failure undoes
/// no record and leads to none.
pub proof fn lemma_ended_run_is_final(run: Run, event: Event)
    requires
        run.phase is Finished || run.phase is Aborted,
    ensures
        run.after(event) == run,
{
}

/// A run that fails reports how many transactions are committed and
/// recorded, and failing records nothing.
pub proof fn lemma_failure_reports_recorded(run: Run, event: Event)
    requires
        run.well_formed(),
        run.after(event).phase is Aborted,
    ensures
        run.after(event).pending() == (Action::Abort {
            error: run.after(event).phase->Aborted_error,
            recorded: run.after(event).recorded,
        }),
        run.after(event).recorded == run.recorded || (run.phase is Recording && event is Recorded),
{
}

/// The records of the outputs of a committed transaction: each name lives
/// at the output that carries it.
pub open spec fn recorded_outputs(outputs: Seq<PlannedOutputView>, tx_hash: [u8; 32]) -> Seq<
    MigrationRecordView,
> {
    Seq::new(
        outputs.len(),
        |j: int|
            MigrationRecordView {
                name: outputs[j].name,
                out_point: OutPoint { tx_hash, index: j as u32 },
            },
    )
}

/// The records to add once `transaction` is committed under `tx_hash`;
/// `None` where it has more outputs than the ledger can number.
pub fn records_of(transaction: &PlannedTransaction, tx_hash: [u8; 32]) -> (result: Option<
    Vec<MigrationRecord>,
>)
    ensures
        match result {
            Some(records) => {
                &&& transaction@.outputs.len() <= u32::MAX
                &&& record_views(records@) == recorded_outputs(transaction@.outputs, tx_hash)
            },
            None => transaction@.outputs.len() > u32::MAX,
        },
{
    if transaction.outputs.len() > u32::MAX as usize {
        return None;
    }
    let ghost outputs = transaction@.outputs;
    let mut records: Vec<MigrationRecord> = Vec::new();
    let mut j: usize = 0;
    while j < transaction.outputs.len()
        invariant
            j <= transaction.outputs@.len() <= u32::MAX,
            outputs == output_views(transaction.outputs@),
            records@.len() == j,
            forall|k: int|
                0 <= k < j ==> (#[trigger] records@[k])@ == recorded_outputs(outputs, tx_hash)[k],
        decreases transaction.outputs@.len() - j,
    {
        let output = &transaction.outputs[j];
        assert(outputs[j as int] == output@);
        records.push(
            MigrationRecord {
                name: output.name.clone(),
                out_point: OutPoint { tx_hash, index: j as u32 },
            },
        );
        j = j + 1;
    }
    assert(record_views(records@) =~= recorded_outputs(outputs, tx_hash));
    Some(records)
}

impl CellSource {
    /// The place that the source stands for, once the transactions of the
    /// plan have the hashes `hashes`.
    pub open spec fn place_in(self, hashes: Seq<[u8; 32]>) -> Option<OutPoint> {
        match self {
            CellSource::OnChain(place) => Some(place),
            CellSource::Planned { transaction, output } => if transaction < hashes.len() && output
                <= u32::MAX {
                Some(OutPoint { tx_hash: hashes[transaction as int], index: output as u32 })
            } else {
                None
            },
        }
    }

    /// The place of the cell: the place itself where it is on the ledger
    /// already, else the output of the planned transaction, whose hash is
    /// taken from `hashes`. `None` where `hashes` has none for it or the
    /// ledger cannot number the output.
    pub fn place(&self, hashes: &[[u8; 32]]) -> (result: Option<OutPoint>)
        ensures
            result == self.place_in(hashes@),
    {
        match *self {
            CellSource::OnChain(place) => Some(place),
            CellSource::Planned { transaction, output } => if transaction < hashes.len() && output
                <= u32::MAX as usize {
                Some(OutPoint { tx_hash: hashes[transaction], index: output as u32 })
            } else {
                None
            },
        }
    }
}

} // verus!
