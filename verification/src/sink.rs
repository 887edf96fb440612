//! The sink executor: what it asks of a sink, and when.
//!
//! The executor takes messages one at a time. For each it asks for calls on the sink, one after the
//! other, and is told how each went; at the end it has the message forwarded, or fails.

use vstd::prelude::*;
use vstd::string::*;

use crate::stream_chunk;
use crate::stream_chunk::{force_append_only, StreamChunk};

verus! {

/// What a sink does with changes that are not inserts.
#[derive(Clone, Copy, Debug, PartialEq, Eq, Structural)]
pub enum SinkType {
    /// All changes are inserts.
    AppendOnly,
    /// Changes that are not inserts are dropped.
    ForceAppendOnly,
    /// All changes are written.
    Upsert,
}

impl SinkType {
    /// What is written of a chunk.
    pub open spec fn batch(self, chunk: stream_chunk::StreamChunkView) -> stream_chunk::StreamChunkView {
        if self == SinkType::ForceAppendOnly {
            chunk.append_only()
        } else {
            chunk.compacted()
        }
    }
}

#[derive(Clone, Copy, Debug, PartialEq, Eq, Structural)]
pub struct EpochPair {
    pub curr: u64,
    pub prev: u64,
}

/// The end of an epoch.
#[derive(Clone, Copy, Debug, PartialEq, Eq, Structural)]
pub struct Barrier {
    pub epoch: EpochPair,
    pub checkpoint: bool,
}

/// A message of a stream. The executor hands watermarks on and reads nothing of them.
#[derive(Debug)]
pub enum Message<W> {
    Watermark(W),
    Chunk(StreamChunk),
    Barrier(Barrier),
}

/// What the executor reads of a message.
pub enum MessageView {
    Watermark,
    Chunk(stream_chunk::StreamChunkView),
    Barrier(Barrier),
}

impl<W> View for Message<W> {
    type V = MessageView;

    open spec fn view(&self) -> MessageView {
        match self {
            Message::Watermark(_) => MessageView::Watermark,
            Message::Chunk(chunk) => MessageView::Chunk(chunk@),
            Message::Barrier(barrier) => MessageView::Barrier(*barrier),
        }
    }
}

/// What the executor wants done next.
#[derive(Debug)]
pub enum SinkAction<E> {
    /// Begin a transaction of the sink in this epoch, and say how it went.
    BeginEpoch(u64),
    /// Write this chunk to the sink, and say how it went.
    WriteBatch(StreamChunk),
    /// Abort the sink's transaction, and say how it went.
    Abort,
    /// Commit the sink's transaction, and say how it went.
    Commit,
    /// Hand the message on as it came, and go on with the next.
    Forward,
    /// Stop with this error.
    Fail(E),
}

/// A call on a sink.
pub enum SinkCall {
    BeginEpoch(u64),
    WriteBatch(stream_chunk::StreamChunkView),
    Abort,
    Commit,
}

/// What the executor wants done next, in terms of what it holds.
pub enum ActionView<E> {
    Call(SinkCall),
    Forward,
    Fail(E),
}

impl<E> View for SinkAction<E> {
    type V = ActionView<E>;

    open spec fn view(&self) -> ActionView<E> {
        match self {
            SinkAction::BeginEpoch(epoch) => ActionView::Call(SinkCall::BeginEpoch(*epoch)),
            SinkAction::WriteBatch(chunk) => ActionView::Call(SinkCall::WriteBatch(chunk@)),
            SinkAction::Abort => ActionView::Call(SinkCall::Abort),
            SinkAction::Commit => ActionView::Call(SinkCall::Commit),
            SinkAction::Forward => ActionView::Forward,
            SinkAction::Fail(e) => ActionView::Fail(*e),
        }
    }
}

/// Which call the executor waits for.
#[derive(Debug)]
enum Phase<E> {
    Ready,
    /// The transaction is begun; then the chunk is written.
    Beginning(StreamChunk),
    Writing,
    /// The transaction is aborted because a write failed with this error.
    Aborting(E),
    /// The transaction is committed, or aborted because nothing was written; then the epoch is left
    /// for this one.
    Finishing(u64),
    /// The executor has failed.
    Stopped,
}

/// Which call the executor waits for, in terms of what it holds.
pub enum PhaseView<E> {
    Ready,
    Beginning(stream_chunk::StreamChunkView),
    Writing,
    Aborting(E),
    Finishing(u64),
    Stopped,
}

impl<E> Phase<E> {
    spec fn model(&self) -> PhaseView<E> {
        match self {
            Phase::Ready => PhaseView::Ready,
            Phase::Beginning(chunk) => PhaseView::Beginning(chunk@),
            Phase::Writing => PhaseView::Writing,
            Phase::Aborting(e) => PhaseView::Aborting(*e),
            Phase::Finishing(epoch) => PhaseView::Finishing(*epoch),
            Phase::Stopped => PhaseView::Stopped,
        }
    }
}

/// What an executor is and where it stands.
pub struct SinkView<E> {
    pub sink_type: SinkType,
    /// Whether nothing was written since the last checkpoint.
    pub empty_checkpoint: bool,
    /// Whether the sink is in a transaction.
    pub in_transaction: bool,
    /// The current epoch.
    pub epoch: u64,
    pub phase: PhaseView<E>,
}

impl<E> SinkView<E> {
    /// Whether the executor waits for a call on the sink.
    pub open spec fn waits(self) -> bool {
        !(self.phase is Ready) && !(self.phase is Stopped)
    }

    /// What the executor does with a message.
    pub open spec fn handled(self, message: MessageView) -> (SinkView<E>, ActionView<E>) {
        match message {
            MessageView::Watermark => (self, ActionView::Forward),
            MessageView::Chunk(chunk) => if self.in_transaction {
                (
                    SinkView { phase: PhaseView::Writing, ..self },
                    ActionView::Call(SinkCall::WriteBatch(self.sink_type.batch(chunk))),
                )
            } else {
                (
                    SinkView { phase: PhaseView::Beginning(self.sink_type.batch(chunk)), ..self },
                    ActionView::Call(SinkCall::BeginEpoch(self.epoch)),
                )
            },
            MessageView::Barrier(barrier) => if barrier.checkpoint && self.in_transaction {
                (
                    SinkView { phase: PhaseView::Finishing(barrier.epoch.curr), ..self },
                    ActionView::Call(
                        if self.empty_checkpoint {
                            SinkCall::Abort
                        } else {
                            SinkCall::Commit
                        },
                    ),
                )
            } else {
                (
                    SinkView {
                        empty_checkpoint: self.empty_checkpoint || barrier.checkpoint,
                        epoch: barrier.epoch.curr,
                        ..self
                    },
                    ActionView::Forward,
                )
            },
        }
    }

    /// What the executor does once it is told how a call went.
    pub open spec fn resumed(self, result: Result<(), E>) -> (SinkView<E>, ActionView<E>) {
        let stopped = SinkView { phase: PhaseView::Stopped, ..self };
        match (self.phase, result) {
            (PhaseView::Beginning(batch), Ok(_)) => (
                SinkView { in_transaction: true, phase: PhaseView::Writing, ..self },
                ActionView::Call(SinkCall::WriteBatch(batch)),
            ),
            (PhaseView::Writing, Ok(_)) => (
                SinkView { empty_checkpoint: false, phase: PhaseView::Ready, ..self },
                ActionView::Forward,
            ),
            (PhaseView::Writing, Err(e)) => (
                SinkView { phase: PhaseView::Aborting(e), ..self },
                ActionView::Call(SinkCall::Abort),
            ),
            (PhaseView::Aborting(e), Ok(_)) => (stopped, ActionView::Fail(e)),
            (PhaseView::Finishing(epoch), Ok(_)) => (
                SinkView {
                    empty_checkpoint: true,
                    in_transaction: false,
                    epoch,
                    phase: PhaseView::Ready,
                    ..self
                },
                ActionView::Forward,
            ),
            (_, Err(e)) => (stopped, ActionView::Fail(e)),
            (_, Ok(_)) => (self, ActionView::Forward),
        }
    }
}

/// The decimal digits of a number.
pub open spec fn decimal_digits(n: nat) -> Seq<char>
    decreases n,
{
    if n < 10 {
        seq![('0' as u32 + n) as char]
    } else {
        decimal_digits(n / 10).push(('0' as u32 + n % 10) as char)
    }
}

fn digit(d: u64) -> (r: &'static str)
    requires
        d < 10,
    ensures
        r@ == seq![('0' as u32 + d) as char],
{
    proof {
        reveal_strlit("0");
        reveal_strlit("1");
        reveal_strlit("2");
        reveal_strlit("3");
        reveal_strlit("4");
        reveal_strlit("5");
        reveal_strlit("6");
        reveal_strlit("7");
        reveal_strlit("8");
        reveal_strlit("9");
    }
    let r: &'static str = match d {
        0 => "0",
        1 => "1",
        2 => "2",
        3 => "3",
        4 => "4",
        5 => "5",
        6 => "6",
        7 => "7",
        8 => "8",
        _ => "9",
    };
    assert(r@ =~= seq![('0' as u32 + d) as char]);
    r
}

fn push_decimal(s: &mut String, n: u64)
    ensures
        final(s)@ == old(s)@ + decimal_digits(n as nat),
    decreases n,
{
    let ghost before = s@;
    if n >= 10 {
        push_decimal(s, n / 10);
    }
    s.append(digit(n % 10));
    assert(s@ =~= before + decimal_digits(n as nat));
}

/// Writes a stream of changes to a sink, one transaction for each checkpoint.
#[derive(Debug)]
pub struct SinkExecutor<E> {
    identity: String,
    pk_indices: Vec<usize>,
    sink_type: SinkType,
    empty_checkpoint_flag: bool,
    in_transaction: bool,
    epoch: u64,
    phase: Phase<E>,
}

impl<E> View for SinkExecutor<E> {
    type V = SinkView<E>;

    closed spec fn view(&self) -> SinkView<E> {
        SinkView {
            sink_type: self.sink_type,
            empty_checkpoint: self.empty_checkpoint_flag,
            in_transaction: self.in_transaction,
            epoch: self.epoch,
            phase: self.phase.model(),
        }
    }
}

impl<E> SinkExecutor<E> {
    pub closed spec fn name(&self) -> Seq<char> {
        self.identity@
    }

    pub closed spec fn key_columns(&self) -> Seq<usize> {
        self.pk_indices@
    }

    /// An executor before its first message.
    pub open spec fn initial(sink_type: SinkType) -> SinkView<E> {
        SinkView {
            sink_type,
            empty_checkpoint: true,
            in_transaction: false,
            epoch: 0,
            phase: PhaseView::Ready,
        }
    }

    pub fn new(executor_id: u64, pk_indices: Vec<usize>, sink_type: SinkType) -> (r: Self)
        ensures
            r@ == Self::initial(sink_type),
            r.name() == "SinkExecutor_"@ + decimal_digits(executor_id as nat),
            r.key_columns() == pk_indices@,
    {
        let mut identity: String = String::from_str("SinkExecutor_");
        push_decimal(&mut identity, executor_id);
        SinkExecutor {
            identity,
            pk_indices,
            sink_type,
            empty_checkpoint_flag: true,
            in_transaction: false,
            epoch: 0,
            phase: Phase::Ready,
        }
    }

    pub fn identity(&self) -> (r: &str)
        ensures
            r@ == self.name(),
    {
        self.identity.as_str()
    }

    pub fn pk_indices(&self) -> (r: &[usize])
        ensures
            r@ == self.key_columns(),
    {
        self.pk_indices.as_slice()
    }

    pub fn sink_type(&self) -> (r: SinkType)
        ensures
            r == self@.sink_type,
    {
        self.sink_type
    }

    /// The current epoch.
    pub fn epoch(&self) -> (r: u64)
        ensures
            r == self@.epoch,
    {
        self.epoch
    }

    /// Takes a message, and says what is to be done first.
    pub fn handle<W>(&mut self, message: &Message<W>) -> (r: SinkAction<E>)
        requires
            old(self)@.phase is Ready,
        ensures
            (final(self)@, r@) == old(self)@.handled(message@),
            final(self).name() == old(self).name(),
            final(self).key_columns() == old(self).key_columns(),
    {
        match message {
            Message::Watermark(_) => SinkAction::Forward,
            Message::Chunk(chunk) => {
                let batch = if self.sink_type == SinkType::ForceAppendOnly {
                    force_append_only(chunk)
                } else {
                    chunk.compact()
                };
                if self.in_transaction {
                    self.phase = Phase::Writing;
                    SinkAction::WriteBatch(batch)
                } else {
                    self.phase = Phase::Beginning(batch);
                    SinkAction::BeginEpoch(self.epoch)
                }
            },
            Message::Barrier(barrier) => {
                if barrier.checkpoint {
                    if self.in_transaction {
                        self.phase = Phase::Finishing(barrier.epoch.curr);
                        if self.empty_checkpoint_flag {
                            return SinkAction::Abort;
                        } else {
                            return SinkAction::Commit;
                        }
                    }
                    self.empty_checkpoint_flag = true;
                }
                self.epoch = barrier.epoch.curr;
                SinkAction::Forward
            },
        }
    }

    /// Takes how the call that was asked for went, and says what is to be done next.
    pub fn resume(&mut self, result: Result<(), E>) -> (r: SinkAction<E>)
        requires
            old(self)@.waits(),
        ensures
            (final(self)@, r@) == old(self)@.resumed(result),
            final(self).name() == old(self).name(),
            final(self).key_columns() == old(self).key_columns(),
    {
        let mut phase: Phase<E> = Phase::Stopped;
        core::mem::swap(&mut phase, &mut self.phase);
        match (phase, result) {
            (Phase::Beginning(batch), Ok(())) => {
                self.in_transaction = true;
                self.phase = Phase::Writing;
                SinkAction::WriteBatch(batch)
            },
            (Phase::Writing, Ok(())) => {
                self.empty_checkpoint_flag = false;
                self.phase = Phase::Ready;
                SinkAction::Forward
            },
            (Phase::Writing, Err(e)) => {
                self.phase = Phase::Aborting(e);
                SinkAction::Abort
            },
            (Phase::Aborting(e), Ok(())) => SinkAction::Fail(e),
            (Phase::Finishing(epoch), Ok(())) => {
                self.in_transaction = false;
                self.empty_checkpoint_flag = true;
                self.epoch = epoch;
                self.phase = Phase::Ready;
                SinkAction::Forward
            },
            (_, Err(e)) => SinkAction::Fail(e),
            (_, Ok(())) => SinkAction::Forward,
        }
    }
}

} // verus!
