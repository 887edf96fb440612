use streamkit::array::{ArrayImpl, DataChunk, DecimalArray, I32Array, I64Array, Utf8Array};
use streamkit::decimal::Decimal;
use streamkit::error::Error;
use streamkit::sink::{Barrier, EpochPair, Message, SinkAction, SinkExecutor, SinkType};
use streamkit::stream_chunk::{force_append_only, Op, StreamChunk};
use streamkit::types::ScalarImpl;

/// The rows of a chunk that are visible, each with its operation.
fn rows(chunk: &StreamChunk) -> Vec<(Op, Vec<Option<i64>>)> {
    let mut r = Vec::new();
    for i in 0..chunk.capacity() {
        if chunk.is_visible(i) {
            let mut row = Vec::new();
            for c in 0..chunk.data().column_count() {
                row.push(match chunk.data().column_at(c).unwrap().scalar_value_at(i) {
                    Some(ScalarImpl::Int32(v)) => Some(v as i64),
                    Some(ScalarImpl::Int64(v)) => Some(v),
                    Some(_) => unreachable!(),
                    None => None,
                });
            }
            r.push((chunk.op(i), row));
        }
    }
    r
}

fn i32_chunk(changes: &[(Op, [i32; 3])]) -> StreamChunk {
    let columns = (0..3)
        .map(|c| ArrayImpl::Int32(I32Array::new(changes.iter().map(|x| Some(x.1[c])).collect())))
        .collect();
    let data = DataChunk::new(columns, changes.len()).unwrap();
    StreamChunk::new(changes.iter().map(|x| x.0).collect(), data, None).unwrap()
}

fn i64_chunk(changes: &[(Op, [i64; 2])], visibility: Option<Vec<bool>>) -> StreamChunk {
    let columns = (0..2)
        .map(|c| ArrayImpl::Int64(I64Array::new(changes.iter().map(|x| Some(x.1[c])).collect())))
        .collect();
    let data = DataChunk::new(columns, changes.len()).unwrap();
    StreamChunk::new(changes.iter().map(|x| x.0).collect(), data, visibility).unwrap()
}

fn barrier(epoch: u64, checkpoint: bool) -> Message<&'static str> {
    Message::Barrier(Barrier {
        epoch: EpochPair { curr: epoch, prev: epoch.saturating_sub(1) },
        checkpoint,
    })
}

#[derive(Debug, PartialEq)]
enum Call {
    Begin(u64),
    Write(Vec<(Op, Vec<Option<i64>>)>),
    Abort,
    Commit,
}

/// A sink that notes its calls, and fails some of them.
struct Sink {
    calls: Vec<Call>,
    failing: Vec<usize>,
}

impl Sink {
    fn new(failing: &[usize]) -> Sink {
        Sink { calls: Vec::new(), failing: failing.to_vec() }
    }

    fn call(&mut self, call: Call) -> Result<(), usize> {
        let n = self.calls.len();
        self.calls.push(call);
        if self.failing.contains(&n) {
            Err(n)
        } else {
            Ok(())
        }
    }
}

/// Runs messages through an executor: how many are forwarded, and the error that stops it.
fn run(
    executor: &mut SinkExecutor<usize>,
    sink: &mut Sink,
    messages: &[Message<&'static str>],
) -> (usize, Option<usize>) {
    let mut forwarded = 0;
    for message in messages {
        let mut action = executor.handle(message);
        loop {
            let result = match action {
                SinkAction::BeginEpoch(epoch) => sink.call(Call::Begin(epoch)),
                SinkAction::WriteBatch(chunk) => sink.call(Call::Write(rows(&chunk))),
                SinkAction::Abort => sink.call(Call::Abort),
                SinkAction::Commit => sink.call(Call::Commit),
                SinkAction::Forward => break,
                SinkAction::Fail(e) => return (forwarded, Some(e)),
            };
            action = executor.resume(result);
        }
        forwarded += 1;
    }
    (forwarded, None)
}

fn inserted(row: &[i64]) -> (Op, Vec<Option<i64>>) {
    (Op::Insert, row.iter().map(|v| Some(*v)).collect())
}

#[test]
fn test_mysqlsink() {
    let messages = vec![
        Message::Chunk(i32_chunk(&[(Op::Insert, [3, 2, 1])])),
        barrier(1, true),
        Message::Chunk(i32_chunk(&[(Op::Insert, [6, 5, 4])])),
        // The source closes with a barrier.
        barrier(2, true),
    ];
    let mut executor = SinkExecutor::new(0, vec![], SinkType::AppendOnly);
    let mut sink = Sink::new(&[]);
    assert_eq!(run(&mut executor, &mut sink, &messages), (4, None));
    assert_eq!(
        sink.calls,
        vec![
            Call::Begin(0),
            Call::Write(vec![inserted(&[3, 2, 1])]),
            Call::Commit,
            Call::Begin(1),
            Call::Write(vec![inserted(&[6, 5, 4])]),
            Call::Commit,
        ]
    );
}

#[test]
fn test_force_append_only_sink() {
    let messages = vec![
        Message::Chunk(i64_chunk(&[(Op::Insert, [3, 2])], None)),
        barrier(1, true),
        Message::Chunk(i64_chunk(
            &[
                (Op::UpdateDelete, [3, 2]),
                (Op::UpdateInsert, [3, 4]),
                (Op::Insert, [6, 5]),
            ],
            None,
        )),
        // The source closes with a barrier.
        barrier(2, true),
    ];
    let mut executor = SinkExecutor::new(0, vec![], SinkType::ForceAppendOnly);
    let mut sink = Sink::new(&[]);
    assert_eq!(run(&mut executor, &mut sink, &messages), (4, None));
    assert_eq!(
        sink.calls,
        vec![
            Call::Begin(0),
            Call::Write(vec![inserted(&[3, 2])]),
            Call::Commit,
            Call::Begin(1),
            Call::Write(vec![inserted(&[6, 5])]),
            Call::Commit,
        ]
    );
}

#[test]
fn executor_knows_its_name_and_key() {
    let executor = SinkExecutor::<usize>::new(0, vec![], SinkType::Upsert);
    assert_eq!(executor.identity(), "SinkExecutor_0");
    let executor = SinkExecutor::<usize>::new(u64::MAX, vec![2, 0], SinkType::Upsert);
    assert_eq!(executor.identity(), "SinkExecutor_18446744073709551615");
    assert_eq!(executor.pk_indices(), &[2, 0]);
    assert_eq!(executor.sink_type(), SinkType::Upsert);
    let executor = SinkExecutor::<usize>::new(1090, vec![], SinkType::Upsert);
    assert_eq!(executor.identity(), "SinkExecutor_1090");
}

#[test]
fn one_transaction_for_each_checkpoint() {
    let a = || Message::Chunk(i64_chunk(&[(Op::Delete, [1, 1])], None));
    let written = || Call::Write(vec![(Op::Delete, vec![Some(1), Some(1)])]);
    let messages = vec![
        barrier(4, true),
        Message::Watermark("mark"),
        a(),
        a(),
        barrier(5, false),
        a(),
        barrier(6, true),
        barrier(7, true),
        barrier(8, false),
        a(),
        barrier(9, true),
    ];
    let mut executor = SinkExecutor::new(1, vec![], SinkType::Upsert);
    let mut sink = Sink::new(&[]);
    assert_eq!(run(&mut executor, &mut sink, &messages), (11, None));
    assert_eq!(
        sink.calls,
        vec![
            Call::Begin(4),
            written(),
            written(),
            written(),
            Call::Commit,
            Call::Begin(8),
            written(),
            Call::Commit,
        ]
    );
    assert_eq!(executor.epoch(), 9);
}

#[test]
fn hidden_rows_are_not_written() {
    let chunk = i64_chunk(
        &[(Op::Insert, [1, 1]), (Op::Delete, [2, 2]), (Op::Insert, [3, 3])],
        Some(vec![false, true, true]),
    );
    let mut executor = SinkExecutor::new(1, vec![], SinkType::Upsert);
    let mut sink = Sink::new(&[]);
    assert_eq!(run(&mut executor, &mut sink, &[Message::Chunk(chunk)]), (1, None));
    assert_eq!(
        sink.calls[1],
        Call::Write(vec![(Op::Delete, vec![Some(2), Some(2)]), inserted(&[3, 3])])
    );
}

#[test]
fn a_failed_write_aborts_the_transaction() {
    let messages = vec![
        Message::Chunk(i32_chunk(&[(Op::Insert, [1, 2, 3])])),
        Message::Chunk(i32_chunk(&[(Op::Insert, [4, 5, 6])])),
    ];
    let mut executor = SinkExecutor::new(1, vec![], SinkType::AppendOnly);
    let mut sink = Sink::new(&[2]);
    assert_eq!(run(&mut executor, &mut sink, &messages), (1, Some(2)));
    assert_eq!(sink.calls.len(), 4);
    assert_eq!(sink.calls[3], Call::Abort);
    // The error of the abort comes first where that fails too.
    let mut executor = SinkExecutor::new(1, vec![], SinkType::AppendOnly);
    let mut sink = Sink::new(&[1, 2]);
    assert_eq!(run(&mut executor, &mut sink, &messages), (0, Some(2)));
    assert_eq!(sink.calls[2], Call::Abort);
}

#[test]
fn a_failed_begin_or_commit_stops_the_executor() {
    let messages =
        vec![Message::Chunk(i32_chunk(&[(Op::Insert, [1, 2, 3])])), barrier(1, true)];
    let mut executor = SinkExecutor::new(1, vec![], SinkType::AppendOnly);
    let mut sink = Sink::new(&[0]);
    assert_eq!(run(&mut executor, &mut sink, &messages), (0, Some(0)));
    assert_eq!(sink.calls, vec![Call::Begin(0)]);
    let mut executor = SinkExecutor::new(1, vec![], SinkType::AppendOnly);
    let mut sink = Sink::new(&[2]);
    assert_eq!(run(&mut executor, &mut sink, &messages), (1, Some(2)));
    assert_eq!(sink.calls[2], Call::Commit);
}

#[test]
fn only_visible_inserts_are_left() {
    let chunk = i64_chunk(
        &[
            (Op::Insert, [1, 1]),
            (Op::Delete, [2, 2]),
            (Op::Insert, [3, 3]),
            (Op::UpdateInsert, [4, 4]),
        ],
        Some(vec![false, true, true, true]),
    );
    assert_eq!(chunk.cardinality(), 3);
    let forced = force_append_only(&chunk);
    assert_eq!(rows(&forced), vec![inserted(&[3, 3])]);
    assert_eq!(forced.capacity(), 1);
    // Forcing or compacting it again changes nothing.
    assert_eq!(rows(&force_append_only(&forced)), rows(&forced));
    assert_eq!(rows(&forced.compact()), rows(&forced));
    let compact = chunk.compact();
    assert_eq!(compact.capacity(), 3);
    assert_eq!(rows(&compact), rows(&chunk));
    assert_eq!(rows(&compact.compact()), rows(&compact));
}

#[test]
fn chunks_of_inserts_alone_are_compacted() {
    let chunk = i64_chunk(
        &[(Op::Insert, [1, 1]), (Op::Insert, [2, 2])],
        Some(vec![false, true]),
    );
    assert_eq!(rows(&force_append_only(&chunk)), rows(&chunk.compact()));
    let chunk = i64_chunk(&[(Op::Insert, [1, 1])], Some(vec![false]));
    assert_eq!(chunk.compact().capacity(), 0);
    assert_eq!(force_append_only(&chunk).capacity(), 0);
}

#[test]
fn parts_of_a_chunk_must_match() {
    let column = || ArrayImpl::Int64(I64Array::new(vec![Some(1), None]));
    assert_eq!(DataChunk::new(vec![column()], 3).err(), Some(Error::LengthMismatch));
    let data = || DataChunk::new(vec![column(), column()], 2).unwrap();
    assert_eq!(
        StreamChunk::new(vec![Op::Insert], data(), None).err(),
        Some(Error::LengthMismatch)
    );
    assert_eq!(
        StreamChunk::new(vec![Op::Insert; 2], data(), Some(vec![true])).err(),
        Some(Error::LengthMismatch)
    );
    let chunk = StreamChunk::new(vec![Op::Insert; 2], data(), None).unwrap();
    assert_eq!(rows(&chunk)[1], (Op::Insert, vec![None, None]));
}

#[test]
fn entries_are_written_as_they_are() {
    let columns = vec![
        ArrayImpl::Decimal(DecimalArray::new(vec![None, Decimal::new(1200, 3)])),
        ArrayImpl::Utf8(Utf8Array::new(vec![None, Some("text".to_string())])),
    ];
    let data = DataChunk::new(columns, 2).unwrap();
    let chunk = StreamChunk::new(vec![Op::Delete, Op::Insert], data, None).unwrap();
    let forced = force_append_only(&chunk);
    assert_eq!(forced.capacity(), 1);
    match forced.data().column_at(0).unwrap().scalar_value_at(0) {
        Some(ScalarImpl::Decimal(d)) => assert_eq!((d.mantissa(), d.scale()), (1200, 3)),
        _ => unreachable!(),
    }
    let text = forced.data().column_at(1).unwrap().scalar_value_at(0);
    assert!(text == Some(ScalarImpl::Utf8("text".to_string())));
}

#[test]
fn a_chunk_without_inserts_is_forced_to_no_rows() {
    let chunk = || {
        i64_chunk(
            &[(Op::Delete, [1, 1]), (Op::UpdateInsert, [2, 2]), (Op::Insert, [3, 3])],
            Some(vec![true, true, false]),
        )
    };
    assert_eq!(force_append_only(&chunk()).capacity(), 0);
    assert_eq!(force_append_only(&chunk()).data().column_count(), 2);
    let mut executor = SinkExecutor::new(1, vec![], SinkType::ForceAppendOnly);
    let mut sink = Sink::new(&[]);
    let messages = [Message::Chunk(chunk()), barrier(1, true)];
    assert_eq!(run(&mut executor, &mut sink, &messages), (2, None));
    assert_eq!(sink.calls, vec![Call::Begin(0), Call::Write(vec![]), Call::Commit]);
}
