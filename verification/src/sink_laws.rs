//! What a sink executor does to its sink over a whole stream of messages.

use vstd::prelude::*;

use crate::sink;
use crate::stream_chunk;
use crate::stream_chunk::StreamChunk;

verus! {

/// An executor at work: what it has asked of the sink and how that went, how many messages it has
/// handed on, and what it wants done next.
pub struct Run<E> {
    pub executor: sink::SinkView<E>,
    pub action: sink::ActionView<E>,
    pub calls: Seq<(sink::SinkCall, Result<(), E>)>,
    pub forwarded: nat,
}

impl<E> Run<E> {
    /// An executor before its first message.
    pub open spec fn start(sink_type: sink::SinkType) -> Run<E> {
        Run {
            executor: sink::SinkExecutor::<E>::initial(sink_type),
            action: sink::ActionView::Forward,
            calls: seq![],
            forwarded: 0,
        }
    }

    /// The call that is asked for, if any, is made. The call after `k` others goes as `answers`
    /// says of `k`.
    pub open spec fn called(self, answers: spec_fn(nat) -> Result<(), E>) -> Run<E> {
        match self.action {
            sink::ActionView::Call(call) => {
                let answer = answers(self.calls.len());
                let (executor, action) = self.executor.resumed(answer);
                Run { executor, action, calls: self.calls.push((call, answer)), ..self }
            },
            _ => self,
        }
    }

    /// A message is taken and all calls that it needs are made. An executor that has failed takes
    /// none.
    pub open spec fn taken(
        self,
        message: sink::MessageView,
        answers: spec_fn(nat) -> Result<(), E>,
    ) -> Run<E> {
        if self.action is Fail {
            self
        } else {
            let (executor, action) = self.executor.handled(message);
            let r = Run { executor, action, ..self }.called(answers).called(answers).called(
                answers,
            );
            if r.action is Forward {
                Run { forwarded: r.forwarded + 1, ..r }
            } else {
                r
            }
        }
    }

    /// All messages are taken, one after the other.
    pub open spec fn after(
        sink_type: sink::SinkType,
        messages: Seq<sink::MessageView>,
        answers: spec_fn(nat) -> Result<(), E>,
    ) -> Run<E>
        decreases messages.len(),
    {
        if messages.len() == 0 {
            Run::start(sink_type)
        } else {
            Run::after(sink_type, messages.drop_last(), answers).taken(messages.last(), answers)
        }
    }
}

/// What is written in one transaction, and the epoch that it was begun in.
pub struct Transaction {
    pub epoch: u64,
    pub batches: Seq<stream_chunk::StreamChunkView>,
}

/// What a sink holds: the transactions that were committed, and the one that is open, if any.
pub struct SinkContents {
    pub committed: Seq<Transaction>,
    pub open: Option<Transaction>,
}

impl SinkContents {
    pub open spec fn empty() -> SinkContents {
        SinkContents { committed: seq![], open: None }
    }

    /// Whether the call makes sense: only a sink without a transaction begins one, and only one in
    /// a transaction writes, commits or aborts.
    pub open spec fn allows(self, call: sink::SinkCall) -> bool {
        call is BeginEpoch <==> self.open is None
    }

    /// What the sink holds after a call. One that failed has changed nothing.
    pub open spec fn called(self, call: sink::SinkCall, ok: bool) -> SinkContents {
        if !ok {
            self
        } else {
            match (call, self.open) {
                (sink::SinkCall::BeginEpoch(epoch), _) => SinkContents {
                    open: Some(Transaction { epoch, batches: seq![] }),
                    ..self
                },
                (sink::SinkCall::WriteBatch(batch), Some(t)) => SinkContents {
                    open: Some(Transaction { batches: t.batches.push(batch), ..t }),
                    ..self
                },
                (sink::SinkCall::Commit, Some(t)) => SinkContents {
                    committed: self.committed.push(t),
                    open: None,
                },
                (sink::SinkCall::Abort, Some(_)) => SinkContents { open: None, ..self },
                (_, None) => self,
            }
        }
    }

    /// What the sink holds after these calls.
    pub open spec fn after<E>(calls: Seq<(sink::SinkCall, Result<(), E>)>) -> SinkContents
        decreases calls.len(),
    {
        if calls.len() == 0 {
            SinkContents::empty()
        } else {
            SinkContents::after(calls.drop_last()).called(calls.last().0, calls.last().1 is Ok)
        }
    }
}

/// Whether each call makes sense where it comes.
pub open spec fn calls_allowed<E>(calls: Seq<(sink::SinkCall, Result<(), E>)>) -> bool
    decreases calls.len(),
{
    calls.len() == 0 || calls_allowed(calls.drop_last()) && SinkContents::after(
        calls.drop_last(),
    ).allows(calls.last().0)
}

/// The epoch that the last barrier opened, or the epoch at the start.
pub open spec fn last_epoch(messages: Seq<sink::MessageView>) -> u64
    decreases messages.len(),
{
    if messages.len() == 0 {
        0
    } else {
        match messages.last() {
            sink::MessageView::Barrier(barrier) => barrier.epoch.curr,
            _ => last_epoch(messages.drop_last()),
        }
    }
}

/// What a sink should hold after these messages: of the chunks between two checkpoints one
/// transaction, if there are any, begun in the epoch in which the first of them came.
pub open spec fn owed(sink_type: sink::SinkType, messages: Seq<sink::MessageView>) -> SinkContents
    decreases messages.len(),
{
    if messages.len() == 0 {
        SinkContents::empty()
    } else {
        let before = owed(sink_type, messages.drop_last());
        match messages.last() {
            sink::MessageView::Watermark => before,
            sink::MessageView::Chunk(chunk) => {
                let batch = sink_type.batch(chunk);
                SinkContents {
                    open: Some(
                        match before.open {
                            Some(t) => Transaction { batches: t.batches.push(batch), ..t },
                            None => Transaction {
                                epoch: last_epoch(messages.drop_last()),
                                batches: seq![batch],
                            },
                        },
                    ),
                    ..before
                }
            },
            sink::MessageView::Barrier(barrier) => match before.open {
                Some(t) if barrier.checkpoint => SinkContents {
                    committed: before.committed.push(t),
                    open: None,
                },
                _ => before,
            },
        }
    }
}

/// Between messages, an executor is ready, has an open transaction exactly where something was
/// written since the last checkpoint, and is in the epoch of the last barrier; the sink holds what
/// it should, and was never called out of turn.
pub proof fn law_executor_between_messages<E>(
    sink_type: sink::SinkType,
    messages: Seq<sink::MessageView>,
    answers: spec_fn(nat) -> Result<(), E>,
)
    ensures
        ({
            let run = Run::after(sink_type, messages, answers);
            &&& run.forwarded <= messages.len()
            &&& run.action is Forward <==> run.forwarded == messages.len()
            &&& run.action is Forward || run.action is Fail
            &&& run.action is Forward ==> run.executor == (sink::SinkView {
                sink_type,
                empty_checkpoint: owed(sink_type, messages).open is None,
                in_transaction: owed(sink_type, messages).open is Some,
                epoch: last_epoch(messages),
                phase: sink::PhaseView::<E>::Ready,
            })
            &&& run.action is Forward ==> SinkContents::after(run.calls) == owed(
                sink_type,
                messages,
            )
            &&& SinkContents::after(run.calls).committed == owed(
                sink_type,
                messages.take(run.forwarded as int),
            ).committed
            &&& calls_allowed(run.calls)
        }),
    decreases messages.len(),
{
    if messages.len() > 0 {
        let m0 = messages.drop_last();
        law_executor_between_messages(sink_type, m0, answers);
        let r0 = Run::after(sink_type, m0, answers);
        let run = Run::after(sink_type, messages, answers);
        if r0.action is Forward {
            let (executor, action) = r0.executor.handled(messages.last());
            let r1 = Run { executor, action, ..r0 };
            let r2 = r1.called(answers);
            let r3 = r2.called(answers);
            assert(m0 =~= messages.take(m0.len() as int));
            assert(messages =~= messages.take(messages.len() as int));
            lemma_called(r1, answers);
            lemma_called(r2, answers);
            lemma_called(r3, answers);
        } else {
            assert(messages.take(run.forwarded as int) =~= m0.take(run.forwarded as int));
        }
    }
}

/// One more call.
proof fn lemma_called<E>(run: Run<E>, answers: spec_fn(nat) -> Result<(), E>)
    ensures
        run.action matches sink::ActionView::Call(call) ==> {
            let answer = answers(run.calls.len());
            &&& SinkContents::after(run.called(answers).calls) == SinkContents::after(
                run.calls,
            ).called(call, answer is Ok)
            &&& calls_allowed(run.called(answers).calls) == (calls_allowed(run.calls)
                && SinkContents::after(run.calls).allows(call))
        },
{
    if let sink::ActionView::Call(call) = run.action {
        let calls = run.called(answers).calls;
        assert(calls.drop_last() =~= run.calls);
    }
}

/// Whether no call failed or aborted a transaction.
pub open spec fn went_well<E>(calls: Seq<(sink::SinkCall, Result<(), E>)>) -> bool {
    forall|k: int| 0 <= k < calls.len() ==> #[trigger] calls[k].1 is Ok && !(calls[k].0 is Abort)
}

/// Whether all calls went well but for the end, which says that the executor fails with this error:
/// either the last call failed to begin or to commit a transaction, or a write failed and then the
/// transaction was aborted. The error is that of the write unless aborting failed too.
pub open spec fn ends_in_failure<E>(calls: Seq<(sink::SinkCall, Result<(), E>)>, error: E) -> bool {
    let n = calls.len();
    ||| {
        &&& n >= 1
        &&& went_well(calls.take(n - 1))
        &&& calls[n - 1].0 is BeginEpoch || calls[n - 1].0 is Commit
        &&& calls[n - 1].1 == Err::<(), E>(error)
    }
    ||| {
        &&& n >= 2
        &&& went_well(calls.take(n - 2))
        &&& calls[n - 2].0 is WriteBatch
        &&& calls[n - 2].1 is Err
        &&& calls[n - 1].0 is Abort
        &&& error == (match calls[n - 1].1 {
            Ok(_) => calls[n - 2].1->Err_0,
            Err(e) => e,
        })
    }
}

/// An executor fails with the error of the call that failed, after it has aborted the transaction
/// where that call was a write, and asks for nothing more. Unless a call fails, none is an abort.
pub proof fn law_failures<E>(
    sink_type: sink::SinkType,
    messages: Seq<sink::MessageView>,
    answers: spec_fn(nat) -> Result<(), E>,
)
    ensures
        ({
            let run = Run::after(sink_type, messages, answers);
            match run.action {
                sink::ActionView::Fail(e) => ends_in_failure(run.calls, e),
                _ => went_well(run.calls),
            }
        }),
    decreases messages.len(),
{
    if messages.len() > 0 {
        let m0 = messages.drop_last();
        law_failures(sink_type, m0, answers);
        law_executor_between_messages(sink_type, m0, answers);
        let r0 = Run::after(sink_type, m0, answers);
        let run = Run::after(sink_type, messages, answers);
        assert(run.calls.take(r0.calls.len() as int) =~= r0.calls);
    }
}

/// With a sink that never fails, every message is handed on and no transaction is aborted.
pub proof fn law_every_message_is_forwarded<E>(
    sink_type: sink::SinkType,
    messages: Seq<sink::MessageView>,
    answers: spec_fn(nat) -> Result<(), E>,
)
    requires
        forall|k: nat| #[trigger] answers(k) is Ok,
    ensures
        ({
            let run = Run::after(sink_type, messages, answers);
            &&& run.action is Forward
            &&& run.forwarded == messages.len()
            &&& went_well(run.calls)
        }),
    decreases messages.len(),
{
    if messages.len() > 0 {
        law_every_message_is_forwarded(sink_type, messages.drop_last(), answers);
        law_executor_between_messages(sink_type, messages.drop_last(), answers);
    }
    law_executor_between_messages(sink_type, messages, answers);
    law_failures(sink_type, messages, answers);
}

/// What is written of the chunks among these messages.
pub open spec fn batches(sink_type: sink::SinkType, messages: Seq<sink::MessageView>) -> Seq<
    stream_chunk::StreamChunkView,
>
    decreases messages.len(),
{
    if messages.len() == 0 {
        seq![]
    } else {
        let before = batches(sink_type, messages.drop_last());
        match messages.last() {
            sink::MessageView::Chunk(chunk) => before.push(sink_type.batch(chunk)),
            _ => before,
        }
    }
}

/// How many messages there are up to the last checkpoint and with it.
pub open spec fn checkpointed(messages: Seq<sink::MessageView>) -> int
    decreases messages.len(),
{
    if messages.len() == 0 {
        0
    } else {
        match messages.last() {
            sink::MessageView::Barrier(barrier) if barrier.checkpoint => messages.len() as int,
            _ => checkpointed(messages.drop_last()),
        }
    }
}

/// All batches of these transactions, in order.
pub open spec fn all_batches(transactions: Seq<Transaction>) -> Seq<stream_chunk::StreamChunkView>
    decreases transactions.len(),
{
    if transactions.len() == 0 {
        seq![]
    } else {
        all_batches(transactions.drop_last()) + transactions.last().batches
    }
}

proof fn lemma_batches_of_two(
    sink_type: sink::SinkType,
    first: Seq<sink::MessageView>,
    second: Seq<sink::MessageView>,
)
    ensures
        batches(sink_type, first + second) == batches(sink_type, first) + batches(sink_type, second),
    decreases second.len(),
{
    if second.len() == 0 {
        assert(first + second =~= first);
    } else {
        lemma_batches_of_two(sink_type, first, second.drop_last());
        assert((first + second).drop_last() =~= first + second.drop_last());
    }
}

/// A sink has committed every chunk that came before the last checkpoint, each once and in order,
/// and has written what came after it in a transaction that is still open.
pub proof fn law_checkpoints_commit_everything(
    sink_type: sink::SinkType,
    messages: Seq<sink::MessageView>,
)
    ensures
        0 <= checkpointed(messages) <= messages.len(),
        all_batches(owed(sink_type, messages).committed) == batches(
            sink_type,
            messages.take(checkpointed(messages)),
        ),
        (match owed(sink_type, messages).open {
            Some(t) => t.batches,
            None => seq![],
        }) == batches(sink_type, messages.skip(checkpointed(messages))),
        owed(sink_type, messages).open matches Some(t) ==> t.batches.len() > 0,
        forall|i: int| #![auto]
            0 <= i < owed(sink_type, messages).committed.len() ==> owed(
                sink_type,
                messages,
            ).committed[i].batches.len() > 0,
    decreases messages.len(),
{
    if messages.len() > 0 {
        let m0 = messages.drop_last();
        law_checkpoints_commit_everything(sink_type, m0);
        let before = owed(sink_type, m0);
        let now = owed(sink_type, messages);
        let k = checkpointed(m0);
        if now.committed.len() > before.committed.len() {
            assert(now.committed.drop_last() =~= before.committed);
        }
        if checkpointed(messages) == messages.len() {
            assert(messages.take(messages.len() as int) =~= messages);
            assert(m0 =~= m0.take(k) + m0.skip(k));
            lemma_batches_of_two(sink_type, m0.take(k), m0.skip(k));
        } else {
            assert(messages.take(k) =~= m0.take(k));
            assert(messages.skip(k).drop_last() =~= m0.skip(k));
        }
    }
}

/// What an executor does with a message while it is ready. A watermark is handed on. A chunk is
/// written at once in a transaction, and otherwise once one is begun in the current epoch. A barrier
/// that is a checkpoint ends the transaction that is open, by a commit where something was written,
/// before its epoch begins; any other barrier begins its epoch and ends nothing.
pub proof fn law_message_steps<E>(
    s: sink::SinkView<E>,
    chunk: stream_chunk::StreamChunkView,
    barrier: sink::Barrier,
)
    ensures
        s.handled(sink::MessageView::Watermark) == (s, sink::ActionView::<E>::Forward),
        s.in_transaction ==> s.handled(sink::MessageView::Chunk(chunk)) == (
            sink::SinkView { phase: sink::PhaseView::<E>::Writing, ..s },
            sink::ActionView::<E>::Call(sink::SinkCall::WriteBatch(s.sink_type.batch(chunk))),
        ),
        !s.in_transaction ==> s.handled(sink::MessageView::Chunk(chunk)) == (
            sink::SinkView {
                phase: sink::PhaseView::<E>::Beginning(s.sink_type.batch(chunk)),
                ..s
            },
            sink::ActionView::<E>::Call(sink::SinkCall::BeginEpoch(s.epoch)),
        ),
        barrier.checkpoint && s.in_transaction ==> s.handled(sink::MessageView::Barrier(barrier))
            == (
            sink::SinkView { phase: sink::PhaseView::<E>::Finishing(barrier.epoch.curr), ..s },
            sink::ActionView::<E>::Call(
                if s.empty_checkpoint {
                    sink::SinkCall::Abort
                } else {
                    sink::SinkCall::Commit
                },
            ),
        ),
        barrier.checkpoint && !s.in_transaction ==> s.handled(sink::MessageView::Barrier(barrier))
            == (
            sink::SinkView { empty_checkpoint: true, epoch: barrier.epoch.curr, ..s },
            sink::ActionView::<E>::Forward,
        ),
        !barrier.checkpoint ==> s.handled(sink::MessageView::Barrier(barrier)) == (
            sink::SinkView { epoch: barrier.epoch.curr, ..s },
            sink::ActionView::<E>::Forward,
        ),
{
}

/// What an executor does once a call went well or failed. A transaction that was begun takes the
/// chunk that waits for it. A write that went well is noted, and the message is handed on; one that
/// failed has the transaction aborted, and then the executor fails with the error of the write. A
/// transaction that was ended leaves none open and nothing written, in the barrier's epoch. Any
/// other failure is that of the executor.
pub proof fn law_call_steps<E>(
    s: sink::SinkView<E>,
    batch: stream_chunk::StreamChunkView,
    error: E,
    other: E,
    epoch: u64,
)
    ensures
        (sink::SinkView { phase: sink::PhaseView::<E>::Beginning(batch), ..s }).resumed(Ok(())) == (
            sink::SinkView { in_transaction: true, phase: sink::PhaseView::<E>::Writing, ..s },
            sink::ActionView::<E>::Call(sink::SinkCall::WriteBatch(batch)),
        ),
        (sink::SinkView { phase: sink::PhaseView::<E>::Beginning(batch), ..s }).resumed(Err(error))
            == (
            sink::SinkView { phase: sink::PhaseView::<E>::Stopped, ..s },
            sink::ActionView::<E>::Fail(error),
        ),
        (sink::SinkView { phase: sink::PhaseView::<E>::Writing, ..s }).resumed(Ok(())) == (
            sink::SinkView { empty_checkpoint: false, phase: sink::PhaseView::<E>::Ready, ..s },
            sink::ActionView::<E>::Forward,
        ),
        (sink::SinkView { phase: sink::PhaseView::<E>::Writing, ..s }).resumed(Err(error)) == (
            sink::SinkView { phase: sink::PhaseView::<E>::Aborting(error), ..s },
            sink::ActionView::<E>::Call(sink::SinkCall::Abort),
        ),
        (sink::SinkView { phase: sink::PhaseView::<E>::Aborting(error), ..s }).resumed(Ok(())) == (
            sink::SinkView { phase: sink::PhaseView::<E>::Stopped, ..s },
            sink::ActionView::<E>::Fail(error),
        ),
        (sink::SinkView { phase: sink::PhaseView::<E>::Aborting(error), ..s }).resumed(Err(other))
            == (
            sink::SinkView { phase: sink::PhaseView::<E>::Stopped, ..s },
            sink::ActionView::<E>::Fail(other),
        ),
        (sink::SinkView { phase: sink::PhaseView::<E>::Finishing(epoch), ..s }).resumed(Ok(())) == (
            sink::SinkView {
                empty_checkpoint: true,
                in_transaction: false,
                epoch,
                phase: sink::PhaseView::<E>::Ready,
                ..s
            },
            sink::ActionView::<E>::Forward,
        ),
        (sink::SinkView { phase: sink::PhaseView::<E>::Finishing(epoch), ..s }).resumed(Err(error))
            == (
            sink::SinkView { phase: sink::PhaseView::<E>::Stopped, ..s },
            sink::ActionView::<E>::Fail(error),
        ),
{
}

/// Messages and actions are what they hold.
pub proof fn law_messages_and_actions<W, E>(
    mark: W,
    chunk: StreamChunk,
    barrier: sink::Barrier,
    epoch: u64,
    error: E,
)
    ensures
        sink::Message::<W>::Watermark(mark)@ == sink::MessageView::Watermark,
        sink::Message::<W>::Chunk(chunk)@ == sink::MessageView::Chunk(chunk@),
        sink::Message::<W>::Barrier(barrier)@ == sink::MessageView::Barrier(barrier),
        sink::SinkAction::<E>::BeginEpoch(epoch)@ == sink::ActionView::<E>::Call(
            sink::SinkCall::BeginEpoch(epoch),
        ),
        sink::SinkAction::<E>::WriteBatch(chunk)@ == sink::ActionView::<E>::Call(
            sink::SinkCall::WriteBatch(chunk@),
        ),
        sink::SinkAction::<E>::Abort@ == sink::ActionView::<E>::Call(sink::SinkCall::Abort),
        sink::SinkAction::<E>::Commit@ == sink::ActionView::<E>::Call(sink::SinkCall::Commit),
        sink::SinkAction::<E>::Forward@ == sink::ActionView::<E>::Forward,
        sink::SinkAction::<E>::Fail(error)@ == sink::ActionView::<E>::Fail(error),
{
}

/// A number is what its decimal digits say: read from the left, ten times what came before and the
/// digit. There is no zero in front but for the number zero.
pub proof fn law_decimal_digits(n: nat)
    ensures
        sink::decimal_digits(n).len() > 0,
        forall|i: int|
            0 <= i < sink::decimal_digits(n).len() ==> '0' <= #[trigger] sink::decimal_digits(n)[i]
                <= '9',
        sink::decimal_digits(n).fold_left(0int, |value: int, c: char| 10 * value + (c as int - 48))
            == n,
        sink::decimal_digits(n)[0] == '0' ==> n == 0,
        n < 10 ==> sink::decimal_digits(n).len() == 1,
    decreases n,
{
    let f = |value: int, c: char| 10 * value + (c as int - 48);
    let digits = sink::decimal_digits(n);
    if n >= 10 {
        law_decimal_digits(n / 10);
        let rest = sink::decimal_digits(n / 10);
        assert(digits.drop_last() =~= rest);
        assert(digits[0] == rest[0]);
    } else {
        assert(digits.drop_last() =~= Seq::<char>::empty());
        assert(digits.drop_last().fold_left(0int, f) == 0);
    }
}

/// A new executor has a name that ends in the decimal digits of its id, its key columns, and no
/// transaction; nothing was written, and the epoch is zero.
pub proof fn law_new_executor<E>(
    executor_id: u64,
    pk_indices: Vec<usize>,
    sink_type: sink::SinkType,
    executor: sink::SinkExecutor<E>,
)
    requires
        call_ensures(
            sink::SinkExecutor::<E>::new,
            (executor_id, pk_indices, sink_type),
            executor,
        ),
    ensures
        executor@ == (sink::SinkView {
            sink_type,
            empty_checkpoint: true,
            in_transaction: false,
            epoch: 0,
            phase: sink::PhaseView::<E>::Ready,
        }),
        executor.key_columns() == pk_indices@,
        executor.name().take(13) == seq![
            'S', 'i', 'n', 'k', 'E', 'x', 'e', 'c', 'u', 't', 'o', 'r', '_',
        ],
        executor.name().len() > 13,
        executor.name().skip(13).fold_left(
            0int,
            |value: int, c: char| 10 * value + (c as int - 48),
        ) == executor_id,
{
    reveal_strlit("SinkExecutor_");
    law_decimal_digits(executor_id as nat);
    let digits = sink::decimal_digits(executor_id as nat);
    assert(executor.name().take(13) =~= "SinkExecutor_"@);
    assert(executor.name().skip(13) =~= digits);
}

/// With a sink that never fails, the batches that are written are those of the chunks among the
/// messages, each once and in the order of the chunks.
pub proof fn law_every_chunk_is_written<E>(
    sink_type: sink::SinkType,
    messages: Seq<sink::MessageView>,
    answers: spec_fn(nat) -> Result<(), E>,
)
    requires
        forall|k: nat| #[trigger] answers(k) is Ok,
    ensures
        ({
            let calls = Run::after(sink_type, messages, answers).calls;
            let writes = calls.filter(
                |c: (sink::SinkCall, Result<(), E>)| c.0 is WriteBatch,
            );
            let chunks = messages.filter(|m: sink::MessageView| m is Chunk);
            &&& writes.len() == chunks.len()
            &&& forall|i: int|
                0 <= i < chunks.len() ==> (#[trigger] writes[i]).0 == sink::SinkCall::WriteBatch(
                    sink_type.batch(chunks[i]->Chunk_0),
                )
        }),
    decreases messages.len(),
{
    reveal(Seq::filter);
    let is_write = |c: (sink::SinkCall, Result<(), E>)| c.0 is WriteBatch;
    let is_chunk = |m: sink::MessageView| m is Chunk;
    if messages.len() > 0 {
        let m0 = messages.drop_last();
        law_every_chunk_is_written(sink_type, m0, answers);
        law_every_message_is_forwarded(sink_type, m0, answers);
        law_executor_between_messages(sink_type, m0, answers);
        let r0 = Run::after(sink_type, m0, answers);
        let (executor, action) = r0.executor.handled(messages.last());
        let r1 = Run { executor, action, ..r0 };
        let r2 = r1.called(answers);
        let r3 = r2.called(answers);
        lemma_write_filter(r1, answers);
        lemma_write_filter(r2, answers);
        lemma_write_filter(r3, answers);
    }
}

proof fn lemma_write_filter<E>(run: Run<E>, answers: spec_fn(nat) -> Result<(), E>)
    ensures
        ({
            let is_write = |c: (sink::SinkCall, Result<(), E>)| c.0 is WriteBatch;
            let before = run.calls.filter(is_write);
            run.called(answers).calls.filter(is_write) == (match run.action {
                sink::ActionView::Call(call) => if call is WriteBatch {
                    before.push((call, answers(run.calls.len())))
                } else {
                    before
                },
                _ => before,
            })
        }),
{
    reveal(Seq::filter);
    if let sink::ActionView::Call(call) = run.action {
        assert(run.called(answers).calls.drop_last() =~= run.calls);
    }
}

/// An executor waits for a call unless it is ready for a message or has failed.
pub proof fn law_when_an_executor_waits<E>(s: sink::SinkView<E>)
    ensures
        s.waits() <==> s.phase is Beginning || s.phase is Writing || s.phase is Aborting
            || s.phase is Finishing,
{
}

} // verus!
