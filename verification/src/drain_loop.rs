//! The drain cycle of one drainer instance as a state machine.
//!
//! The machine never touches the store or the persister. Each transition
//! takes the outcome of the previous request and answers with the next
//! request; whoever runs the machine performs the request and hands back
//! what came of it.

use crate::errors::{DrainerError, DrainerResult};
use crate::gate::{is_stream_available, lock_acquired, SetnxReply};
use crate::naming::{get_drainer_stream_name, get_stream_key_flag, lock_key, stream_name};
use crate::parser::{parse_stream_entries, parsed_stream, ParsedStream};
use crate::rotation::{increment_stream_index, lemma_next_is_a_shard, next_index};
use crate::stream::{batch_model, copy_entries, EntryModel, StreamEntries, StreamReadResult};
use crate::trimmer::{entries_removed, removed_count};
use vstd::prelude::*;
use vstd::string::StringExecFns;

verus! {

/// What a drainer instance is configured with.
pub struct DrainerConfig {
    /// The namespace prefix of the stream names.
    pub stream_prefix: String,
    /// The number of shards.
    pub num_partitions: u8,
    /// The largest number of entries asked for in one read.
    pub max_read_count: u64,
}

/// A configuration as a value.
pub struct ConfigModel {
    pub stream_prefix: Seq<char>,
    pub num_partitions: u8,
    pub max_read_count: u64,
}

impl ConfigModel {
    /// A configuration is usable when there is at least one shard and a
    /// read asks for at least one entry.
    pub open spec fn valid(self) -> bool {
        self.num_partitions >= 1 && self.max_read_count >= 1
    }
}

impl View for DrainerConfig {
    type V = ConfigModel;

    open spec fn view(&self) -> ConfigModel {
        ConfigModel {
            stream_prefix: self.stream_prefix@,
            num_partitions: self.num_partitions,
            max_read_count: self.max_read_count,
        }
    }
}

impl DrainerConfig {
    /// Whether the configuration is usable.
    pub fn is_valid(&self) -> (valid: bool)
        ensures
            valid == self@.valid(),
    {
        self.num_partitions >= 1 && self.max_read_count >= 1
    }
}

/// How one attempt on one shard ended.
#[derive(Debug, Clone, Copy, PartialEq, Eq, Structural)]
pub enum AttemptOutcome {
    /// Another instance holds the shard; nothing was touched.
    Skipped,
    /// The read failed; the shard is tried again on a later rotation.
    ReadError(DrainerError),
    /// The shard had nothing to drain.
    Empty,
    /// The batch was not persisted, and therefore not trimmed.
    PersistError(DrainerError),
    /// The batch was persisted, but the stream could not be trimmed.
    TrimError(DrainerError),
    /// The batch was persisted and `removed` entries were trimmed.
    Drained { removed: usize },
}

/// Where in the cycle a drainer instance stands.
pub enum Phase {
    /// Between two attempts.
    Idle,
    /// Waiting for the reply to the acquire of the shard's lock flag.
    Probing,
    /// Holding the lock, waiting for the read.
    Reading,
    /// Holding the lock, waiting for the persister.
    Draining { last_id: String },
    /// Holding the lock, the batch persisted, waiting for the trim.
    Trimming { last_id: String },
    /// Holding the lock, waiting for the deletion of the last id itself.
    Deleting { last_id: String, trimmed: usize },
    /// Waiting for the release of the lock flag.
    Releasing { outcome: AttemptOutcome },
    /// Shut down.
    Stopped,
}

/// A phase as a value.
pub enum PhaseModel {
    Idle,
    Probing,
    Reading,
    Draining { last_id: Seq<char> },
    Trimming { last_id: Seq<char> },
    Deleting { last_id: Seq<char>, trimmed: usize },
    Releasing { outcome: AttemptOutcome },
    Stopped,
}

impl View for Phase {
    type V = PhaseModel;

    open spec fn view(&self) -> PhaseModel {
        match *self {
            Phase::Idle => PhaseModel::Idle,
            Phase::Probing => PhaseModel::Probing,
            Phase::Reading => PhaseModel::Reading,
            Phase::Draining { last_id } => PhaseModel::Draining { last_id: last_id@ },
            Phase::Trimming { last_id } => PhaseModel::Trimming { last_id: last_id@ },
            Phase::Deleting { last_id, trimmed } => PhaseModel::Deleting {
                last_id: last_id@,
                trimmed,
            },
            Phase::Releasing { outcome } => PhaseModel::Releasing { outcome },
            Phase::Stopped => PhaseModel::Stopped,
        }
    }
}

impl PhaseModel {
    /// Whether the instance holds the shard's lock flag in this phase.
    pub open spec fn holds_lock(self) -> bool {
        match self {
            PhaseModel::Reading => true,
            PhaseModel::Draining { .. } => true,
            PhaseModel::Trimming { .. } => true,
            PhaseModel::Deleting { .. } => true,
            PhaseModel::Releasing { .. } => true,
            _ => false,
        }
    }
}

/// What the runner of the machine reports to it.
pub enum DrainEvent {
    /// The instance is free to start the next attempt; `shutdown` says
    /// whether it has been asked to stop instead.
    Wake { shutdown: bool },
    /// The store's reply to the acquire of the lock flag.
    Acquired(DrainerResult<SetnxReply>),
    /// The result of the read.
    Read(DrainerResult<StreamReadResult>),
    /// The persister's answer.
    Persisted(DrainerResult<()>),
    /// The store's reply to the trim: how many entries it removed.
    Trimmed(DrainerResult<usize>),
    /// The store's reply to the deletion of a single entry.
    Deleted(DrainerResult<usize>),
    /// The store's reply to the release of the lock flag.
    Released(DrainerResult<()>),
}

impl DrainEvent {
    /// A count of trimmed entries leaves room for the one that is deleted
    /// after them.
    pub open spec fn in_range(self) -> bool {
        self matches DrainEvent::Trimmed(Ok(trimmed)) ==> trimmed < usize::MAX
    }
}

/// What the machine asks its runner to do next.
pub enum DrainAction {
    /// Set the lock flag `key` unless it exists.
    Acquire { key: String },
    /// Read up to `count` entries of `stream`, from `start_id` on.
    Read { stream: String, start_id: String, count: u64 },
    /// Apply the batch, in its order, to durable storage.
    Persist { entries: StreamEntries },
    /// Remove from `stream` every entry strictly below `min_id`.
    Trim { stream: String, min_id: String },
    /// Delete the entry `id` from `stream`.
    Delete { stream: String, id: String },
    /// Delete the lock flag `key`.
    Release { key: String },
    /// The attempt is over. Sleep for the idle interval if `sleep` is set,
    /// then wake the machine.
    Finished { outcome: AttemptOutcome, sleep: bool },
    /// The instance has shut down.
    Stop,
    /// The event was not the answer that the machine is waiting for; the
    /// machine has not moved.
    Ignored,
}

/// A request as a value.
pub enum ActionModel {
    Acquire { key: Seq<char> },
    Read { stream: Seq<char>, start_id: Seq<char>, count: u64 },
    Persist { entries: Seq<EntryModel> },
    Trim { stream: Seq<char>, min_id: Seq<char> },
    Delete { stream: Seq<char>, id: Seq<char> },
    Release { key: Seq<char> },
    Finished { outcome: AttemptOutcome, sleep: bool },
    Stop,
    Ignored,
}

impl View for DrainAction {
    type V = ActionModel;

    open spec fn view(&self) -> ActionModel {
        match *self {
            DrainAction::Acquire { key } => ActionModel::Acquire { key: key@ },
            DrainAction::Read { stream, start_id, count } => ActionModel::Read {
                stream: stream@,
                start_id: start_id@,
                count,
            },
            DrainAction::Persist { entries } => ActionModel::Persist {
                entries: batch_model(entries@),
            },
            DrainAction::Trim { stream, min_id } => ActionModel::Trim {
                stream: stream@,
                min_id: min_id@,
            },
            DrainAction::Delete { stream, id } => ActionModel::Delete { stream: stream@, id: id@ },
            DrainAction::Release { key } => ActionModel::Release { key: key@ },
            DrainAction::Finished { outcome, sleep } => ActionModel::Finished { outcome, sleep },
            DrainAction::Stop => ActionModel::Stop,
            DrainAction::Ignored => ActionModel::Ignored,
        }
    }
}

/// The id from which every read starts: the one below every entry.
pub open spec fn first_entry_id() -> Seq<char> {
    seq!['0', '-', '0']
}

/// The id from which every read starts, as the store takes it.
pub fn first_read_id() -> (id: String)
    ensures
        id@ == first_entry_id(),
{
    let id = String::from_str("0-0");
    proof {
        reveal_strlit("0-0");
        assert(id@ =~= first_entry_id());
    }
    id
}

/// A drainer instance as a value.
pub struct LoopModel {
    pub config: ConfigModel,
    /// The shard of the current attempt, or of the next one when idle.
    pub shard: u8,
    pub phase: PhaseModel,
    /// The shard at which the current rotation began.
    pub cycle_start: u8,
    /// Whether a shard of the current rotation had a batch to drain.
    pub drained_in_cycle: bool,
}

impl LoopModel {
    /// The configuration is usable and the shards named are shards.
    pub open spec fn wf(self) -> bool {
        &&& self.config.valid()
        &&& self.shard < self.config.num_partitions
        &&& self.cycle_start < self.config.num_partitions
        &&& self.phase matches PhaseModel::Deleting { trimmed, .. } ==> trimmed < usize::MAX
    }

    /// A fresh instance: idle, before shard 0.
    pub open spec fn initial(config: ConfigModel) -> LoopModel {
        LoopModel {
            config,
            shard: 0,
            phase: PhaseModel::Idle,
            cycle_start: 0,
            drained_in_cycle: false,
        }
    }

    /// The name of the current shard's stream.
    pub open spec fn stream(self) -> Seq<char> {
        stream_name(self.config.stream_prefix, self.shard)
    }

    /// The key of the current shard's lock flag.
    pub open spec fn key(self) -> Seq<char> {
        lock_key(self.config.stream_prefix, self.shard)
    }

    /// The same instance in another phase.
    pub open spec fn in_phase(self, phase: PhaseModel) -> LoopModel {
        LoopModel {
            config: self.config,
            shard: self.shard,
            phase,
            cycle_start: self.cycle_start,
            drained_in_cycle: self.drained_in_cycle,
        }
    }

    /// Gives the lock flag back, remembering how the attempt ended.
    pub open spec fn release(self, outcome: AttemptOutcome) -> (LoopModel, ActionModel) {
        (
            self.in_phase(PhaseModel::Releasing { outcome }),
            ActionModel::Release { key: self.key() },
        )
    }

    /// Ends the attempt and moves on to the next shard. When that completes
    /// a rotation in which no shard had a batch, the runner is told to sleep.
    pub open spec fn finish(self, outcome: AttemptOutcome) -> (LoopModel, ActionModel) {
        let next = next_index(self.shard as int, self.config.num_partitions as int) as u8;
        let completes = next == self.cycle_start;
        (
            LoopModel {
                config: self.config,
                shard: next,
                phase: PhaseModel::Idle,
                cycle_start: self.cycle_start,
                drained_in_cycle: if completes {
                    false
                } else {
                    self.drained_in_cycle
                },
            },
            ActionModel::Finished { outcome, sleep: completes && !self.drained_in_cycle },
        )
    }

    /// What the read means for the attempt: a batch goes to the persister,
    /// anything else ends the attempt.
    pub open spec fn on_read(self, read: DrainerResult<StreamReadResult>) -> (
        LoopModel,
        ActionModel,
    ) {
        match read {
            Ok(result) => match parsed_stream(result@, self.stream()) {
                ParsedStream::Batch { entries, last_id } => (
                    LoopModel {
                        config: self.config,
                        shard: self.shard,
                        phase: PhaseModel::Draining { last_id },
                        cycle_start: self.cycle_start,
                        drained_in_cycle: true,
                    },
                    ActionModel::Persist { entries: batch_model(entries) },
                ),
                _ => self.release(AttemptOutcome::Empty),
            },
            Err(error) => if error.is_benign() {
                self.release(AttemptOutcome::Empty)
            } else {
                self.release(AttemptOutcome::ReadError(error))
            },
        }
    }
}

/// The transition of the machine: the state and the request that follow
/// from a state and an event. An event that does not answer the request
/// that the state waits on changes nothing.
pub open spec fn transition(state: LoopModel, event: DrainEvent) -> (LoopModel, ActionModel) {
    match (state.phase, event) {
        (PhaseModel::Idle, DrainEvent::Wake { shutdown }) => if shutdown {
            (state.in_phase(PhaseModel::Stopped), ActionModel::Stop)
        } else {
            (state.in_phase(PhaseModel::Probing), ActionModel::Acquire { key: state.key() })
        },
        (PhaseModel::Probing, DrainEvent::Acquired(reply)) => if lock_acquired(reply) {
            (
                state.in_phase(PhaseModel::Reading),
                ActionModel::Read {
                    stream: state.stream(),
                    start_id: first_entry_id(),
                    count: state.config.max_read_count,
                },
            )
        } else {
            state.finish(AttemptOutcome::Skipped)
        },
        (PhaseModel::Reading, DrainEvent::Read(read)) => state.on_read(read),
        (PhaseModel::Draining { last_id }, DrainEvent::Persisted(applied)) => match applied {
            Ok(_) => (
                state.in_phase(PhaseModel::Trimming { last_id }),
                ActionModel::Trim { stream: state.stream(), min_id: last_id },
            ),
            Err(error) => state.release(AttemptOutcome::PersistError(error)),
        },
        (PhaseModel::Trimming { last_id }, DrainEvent::Trimmed(reply)) => match reply {
            Ok(trimmed) => (
                state.in_phase(PhaseModel::Deleting { last_id, trimmed }),
                ActionModel::Delete { stream: state.stream(), id: last_id },
            ),
            Err(error) => state.release(AttemptOutcome::TrimError(error)),
        },
        (PhaseModel::Deleting { last_id, trimmed }, DrainEvent::Deleted(reply)) => match reply {
            Ok(_) => state.release(
                AttemptOutcome::Drained { removed: entries_removed(trimmed as nat) as usize },
            ),
            Err(error) => state.release(AttemptOutcome::TrimError(error)),
        },
        (PhaseModel::Releasing { outcome }, DrainEvent::Released(_)) => state.finish(outcome),
        _ => (state, ActionModel::Ignored),
    }
}

/// A step keeps an instance well-formed.
pub proof fn lemma_transition_keeps_well_formed(state: LoopModel, event: DrainEvent)
    requires
        state.wf(),
        event.in_range(),
    ensures
        transition(state, event).0.wf(),
{
    lemma_next_is_a_shard(state.shard as int, state.config.num_partitions as int);
}

/// Persist comes before trim. The machine asks for a trim only when the
/// persister has just confirmed the batch, and then through the id of the
/// newest entry of that batch; it asks for the deletion of that id only
/// when the store has just confirmed the trim; and the batch that it hands
/// to the persister ends with the id that it remembers for the trim.
pub proof fn lemma_trim_follows_persist(state: LoopModel, event: DrainEvent)
    ensures
        ({
            let (next, request) = transition(state, event);
            &&& request matches ActionModel::Persist { entries } ==> state.phase is Reading
                && entries.len() > 0 && next.phase == PhaseModel::Draining {
                last_id: entries.last().0,
            }
            &&& request matches ActionModel::Trim { stream, min_id } ==> {
                &&& state.phase == PhaseModel::Draining { last_id: min_id }
                &&& event matches DrainEvent::Persisted(Ok(_))
                &&& stream == state.stream()
                &&& next.phase == PhaseModel::Trimming { last_id: min_id }
            }
            &&& request matches ActionModel::Delete { stream, id } ==> {
                &&& state.phase == PhaseModel::Trimming { last_id: id }
                &&& event matches DrainEvent::Trimmed(Ok(_))
                &&& stream == state.stream()
            }
        }),
{
    let (next, request) = transition(state, event);
    if request is Persist {
        let result = event->Read_0->Ok_0;
        let batch = result@[state.stream()]@;
        assert(batch_model(batch).last() == crate::stream::entry_model(batch.last()));
    }
}

/// A batch that the persister did not apply is never trimmed: the machine
/// answers the failure with the release of the flag, and the release with
/// the end of the attempt.
pub proof fn lemma_failed_persist_is_not_trimmed(
    state: LoopModel,
    error: DrainerError,
    released: DrainEvent,
)
    requires
        state.phase is Draining,
        released is Released,
    ensures
        ({
            let (releasing, request) = transition(state, DrainEvent::Persisted(Err(error)));
            let (idle, report) = transition(releasing, released);
            &&& request == ActionModel::Release { key: state.key() }
            &&& releasing.phase == PhaseModel::Releasing {
                outcome: AttemptOutcome::PersistError(error),
            }
            &&& report matches ActionModel::Finished { outcome, .. } && outcome
                == AttemptOutcome::PersistError(error)
            &&& idle.phase is Idle
        }),
{
}

/// The flag is released on every path. An instance comes to hold the flag
/// only by the reply that says that its acquire created it. While it holds
/// the flag, whatever comes back, it either goes on holding it or has just
/// been answered on its release; it turns to the release with a request for
/// exactly its own flag; it never asks for the flag a second time; and it
/// stays with its shard for as long as it holds the flag.
pub proof fn lemma_lock_leaves_only_by_release(state: LoopModel, event: DrainEvent)
    ensures
        ({
            let (next, request) = transition(state, event);
            &&& !state.phase.holds_lock() && next.phase.holds_lock() ==> {
                &&& state.phase is Probing
                &&& event matches DrainEvent::Acquired(reply) && lock_acquired(reply)
                &&& next.phase is Reading
            }
            &&& state.phase.holds_lock() && !next.phase.holds_lock() ==> state.phase is Releasing
                && event is Released && next.phase is Idle && request is Finished
            &&& request matches ActionModel::Release { key } ==> key == state.key()
                && state.phase.holds_lock() && !(state.phase is Releasing)
                && next.phase is Releasing
            &&& next.phase is Releasing && !(state.phase is Releasing) ==> request is Release
            &&& request is Acquire ==> state.phase is Idle && next.phase is Probing
            &&& next.phase.holds_lock() ==> next.shard == state.shard && next.config
                == state.config
        }),
{
}

/// The shard index advances whenever an attempt ends, however it ended, and
/// at no other time; an attempt ends only when the flag was not acquired or
/// when its release was answered.
pub proof fn lemma_every_attempt_advances(state: LoopModel, event: DrainEvent)
    requires
        state.wf(),
    ensures
        ({
            let (next, request) = transition(state, event);
            let follows = next_index(state.shard as int, state.config.num_partitions as int);
            &&& request matches ActionModel::Finished { outcome, sleep } ==> {
                &&& next.shard == follows
                &&& next.phase is Idle
                &&& sleep == (follows == state.cycle_start && !state.drained_in_cycle)
                &&& (state.phase is Probing && outcome == AttemptOutcome::Skipped)
                    || state.phase == PhaseModel::Releasing { outcome }
            }
            &&& !(request is Finished) ==> next.shard == state.shard
            &&& state.phase is Probing && event is Acquired ==> request is Finished
                || request is Read
            &&& state.phase is Releasing && event is Released ==> request is Finished
        }),
{
    lemma_next_is_a_shard(state.shard as int, state.config.num_partitions as int);
}

/// A shutdown is honoured between attempts only: the machine stops when it
/// is woken while idle with the shutdown requested, and in no other way;
/// once stopped it stays stopped.
pub proof fn lemma_shutdown_only_between_attempts(state: LoopModel, event: DrainEvent)
    ensures
        ({
            let (next, request) = transition(state, event);
            &&& request is Stop <==> state.phase is Idle && event == DrainEvent::Wake {
                shutdown: true,
            }
            &&& request is Stop ==> next.phase is Stopped
            &&& state.phase is Stopped ==> next == state && request is Ignored
        }),
{
}

/// One drainer instance.
pub struct DrainLoop {
    config: DrainerConfig,
    shard: u8,
    phase: Phase,
    cycle_start: u8,
    drained_in_cycle: bool,
}

impl View for DrainLoop {
    type V = LoopModel;

    closed spec fn view(&self) -> LoopModel {
        LoopModel {
            config: self.config@,
            shard: self.shard,
            phase: self.phase@,
            cycle_start: self.cycle_start,
            drained_in_cycle: self.drained_in_cycle,
        }
    }
}

impl DrainLoop {
    #[verifier::type_invariant]
    spec fn well_formed(&self) -> bool {
        self@.wf()
    }

    /// A fresh instance for a usable configuration; none for any other.
    pub fn new(config: DrainerConfig) -> (created: Option<DrainLoop>)
        ensures
            created is Some <==> config@.valid(),
            created is Some ==> created->Some_0@ == LoopModel::initial(config@),
    {
        if config.is_valid() {
            Some(
                DrainLoop {
                    config,
                    shard: 0,
                    phase: Phase::Idle,
                    cycle_start: 0,
                    drained_in_cycle: false,
                },
            )
        } else {
            None
        }
    }

    /// The shard of the current attempt, or of the next one when idle.
    pub fn shard(&self) -> (shard: u8)
        ensures
            shard == self@.shard,
            self@.wf(),
    {
        proof {
            use_type_invariant(self);
        }
        self.shard
    }

    /// Whether the instance is between two attempts.
    pub fn is_idle(&self) -> (idle: bool)
        ensures
            idle == (self@.phase is Idle),
    {
        match self.phase {
            Phase::Idle => true,
            _ => false,
        }
    }

    /// Whether the instance has shut down.
    pub fn is_stopped(&self) -> (stopped: bool)
        ensures
            stopped == (self@.phase is Stopped),
    {
        match self.phase {
            Phase::Stopped => true,
            _ => false,
        }
    }

    /// Whether the instance holds its shard's lock flag.
    pub fn holds_lock(&self) -> (held: bool)
        ensures
            held == self@.phase.holds_lock(),
    {
        match self.phase {
            Phase::Reading => true,
            Phase::Draining { .. } => true,
            Phase::Trimming { .. } => true,
            Phase::Deleting { .. } => true,
            Phase::Releasing { .. } => true,
            _ => false,
        }
    }

    /// Takes one step: consumes the event and answers with the state that
    /// follows and the request to perform next.
    pub fn step(self, event: DrainEvent) -> (next: (DrainLoop, DrainAction))
        requires
            event.in_range(),
        ensures
            (next.0@, next.1@) == transition(self@, event),
            next.0@.wf(),
    {
        proof {
            use_type_invariant(&self);
        }
        let DrainLoop { config, shard, phase, cycle_start, drained_in_cycle } = self;
        match (phase, event) {
            (Phase::Idle, DrainEvent::Wake { shutdown }) => {
                if shutdown {
                    (
                        DrainLoop {
                            config,
                            shard,
                            phase: Phase::Stopped,
                            cycle_start,
                            drained_in_cycle,
                        },
                        DrainAction::Stop,
                    )
                } else {
                    let key = get_stream_key_flag(config.stream_prefix.as_str(), shard);
                    (
                        DrainLoop {
                            config,
                            shard,
                            phase: Phase::Probing,
                            cycle_start,
                            drained_in_cycle,
                        },
                        DrainAction::Acquire { key },
                    )
                }
            },
            (Phase::Probing, DrainEvent::Acquired(reply)) => {
                if is_stream_available(&reply) {
                    let stream = get_drainer_stream_name(config.stream_prefix.as_str(), shard);
                    let start_id = first_read_id();
                    let count = config.max_read_count;
                    (
                        DrainLoop {
                            config,
                            shard,
                            phase: Phase::Reading,
                            cycle_start,
                            drained_in_cycle,
                        },
                        DrainAction::Read { stream, start_id, count },
                    )
                } else {
                    Self::finished(
                        config,
                        shard,
                        cycle_start,
                        drained_in_cycle,
                        AttemptOutcome::Skipped,
                    )
                }
            },
            (Phase::Reading, DrainEvent::Read(read)) => {
                match read {
                    Ok(result) => {
                        let stream = get_drainer_stream_name(config.stream_prefix.as_str(), shard);
                        match parse_stream_entries(&result, stream.as_str()) {
                            Ok((entries, last_id)) => {
                                let batch = copy_entries(entries);
                                (
                                    DrainLoop {
                                        config,
                                        shard,
                                        phase: Phase::Draining { last_id },
                                        cycle_start,
                                        drained_in_cycle: true,
                                    },
                                    DrainAction::Persist { entries: batch },
                                )
                            },
                            Err(_) => Self::released(
                                config,
                                shard,
                                cycle_start,
                                drained_in_cycle,
                                AttemptOutcome::Empty,
                            ),
                        }
                    },
                    Err(error) => {
                        let outcome = if error.benign() {
                            AttemptOutcome::Empty
                        } else {
                            AttemptOutcome::ReadError(error)
                        };
                        Self::released(config, shard, cycle_start, drained_in_cycle, outcome)
                    },
                }
            },
            (Phase::Draining { last_id }, DrainEvent::Persisted(applied)) => {
                match applied {
                    Ok(_) => {
                        let stream = get_drainer_stream_name(config.stream_prefix.as_str(), shard);
                        let min_id = last_id.clone();
                        (
                            DrainLoop {
                                config,
                                shard,
                                phase: Phase::Trimming { last_id },
                                cycle_start,
                                drained_in_cycle,
                            },
                            DrainAction::Trim { stream, min_id },
                        )
                    },
                    Err(error) => Self::released(
                        config,
                        shard,
                        cycle_start,
                        drained_in_cycle,
                        AttemptOutcome::PersistError(error),
                    ),
                }
            },
            (Phase::Trimming { last_id }, DrainEvent::Trimmed(reply)) => {
                match reply {
                    Ok(trimmed) => {
                        let stream = get_drainer_stream_name(config.stream_prefix.as_str(), shard);
                        let id = last_id.clone();
                        (
                            DrainLoop {
                                config,
                                shard,
                                phase: Phase::Deleting { last_id, trimmed },
                                cycle_start,
                                drained_in_cycle,
                            },
                            DrainAction::Delete { stream, id },
                        )
                    },
                    Err(error) => Self::released(
                        config,
                        shard,
                        cycle_start,
                        drained_in_cycle,
                        AttemptOutcome::TrimError(error),
                    ),
                }
            },
            (Phase::Deleting { last_id, trimmed }, DrainEvent::Deleted(reply)) => {
                match reply {
                    Ok(_) => {
                        let removed = removed_count(trimmed);
                        Self::released(
                            config,
                            shard,
                            cycle_start,
                            drained_in_cycle,
                            AttemptOutcome::Drained { removed },
                        )
                    },
                    Err(error) => Self::released(
                        config,
                        shard,
                        cycle_start,
                        drained_in_cycle,
                        AttemptOutcome::TrimError(error),
                    ),
                }
            },
            (Phase::Releasing { outcome }, DrainEvent::Released(_)) => Self::finished(
                config,
                shard,
                cycle_start,
                drained_in_cycle,
                outcome,
            ),
            (phase, _) => (
                DrainLoop { config, shard, phase, cycle_start, drained_in_cycle },
                DrainAction::Ignored,
            ),
        }
    }

    fn released(
        config: DrainerConfig,
        shard: u8,
        cycle_start: u8,
        drained_in_cycle: bool,
        outcome: AttemptOutcome,
    ) -> (next: (DrainLoop, DrainAction))
        requires
            config@.valid(),
            shard < config.num_partitions,
            cycle_start < config.num_partitions,
        ensures
            (next.0@, next.1@) == (LoopModel {
                config: config@,
                shard,
                phase: PhaseModel::Idle,
                cycle_start,
                drained_in_cycle,
            }).release(outcome),
            next.0@.wf(),
    {
        let key = get_stream_key_flag(config.stream_prefix.as_str(), shard);
        (
            DrainLoop {
                config,
                shard,
                phase: Phase::Releasing { outcome },
                cycle_start,
                drained_in_cycle,
            },
            DrainAction::Release { key },
        )
    }

    fn finished(
        config: DrainerConfig,
        shard: u8,
        cycle_start: u8,
        drained_in_cycle: bool,
        outcome: AttemptOutcome,
    ) -> (next: (DrainLoop, DrainAction))
        requires
            config@.valid(),
            shard < config.num_partitions,
            cycle_start < config.num_partitions,
        ensures
            (next.0@, next.1@) == (LoopModel {
                config: config@,
                shard,
                phase: PhaseModel::Idle,
                cycle_start,
                drained_in_cycle,
            }).finish(outcome),
            next.0@.wf(),
    {
        let next_shard = increment_stream_index(shard, config.num_partitions);
        let completes = next_shard == cycle_start;
        let sleep = completes && !drained_in_cycle;
        (
            DrainLoop {
                config,
                shard: next_shard,
                phase: Phase::Idle,
                cycle_start,
                drained_in_cycle: if completes {
                    false
                } else {
                    drained_in_cycle
                },
            },
            DrainAction::Finished { outcome, sleep },
        )
    }
}

} // verus!
