//! What rows and chunks are made of, and which rows filters leave.

use vstd::prelude::*;

use crate::array;
use crate::array::{DataChunk, Datum};
use crate::error::Error;
use crate::sink;
use crate::stream_chunk;
use crate::stream_chunk::{Op, StreamChunk};
use crate::types;
use crate::types::DataType;

verus! {

/// A selection by flags is what is at the positions that a filter leaves.
proof fn lemma_select_is_filter<T>(s: Seq<T>, keep: Seq<bool>, wanted: spec_fn(int) -> bool)
    requires
        s.len() == keep.len(),
        forall|p: int| 0 <= p < keep.len() ==> keep[p] == #[trigger] wanted(p),
    ensures
        ({
            let kept = Seq::new(s.len(), |p: int| p).filter(wanted);
            &&& array::select(s, keep) == kept.map_values(|p: int| s[p])
            &&& array::count_set(keep) == kept.len()
            &&& forall|j: int| 0 <= j < kept.len() ==> 0 <= #[trigger] kept[j] < s.len()
        }),
    decreases s.len(),
{
    reveal(Seq::filter);
    let all = Seq::new(s.len(), |p: int| p);
    if s.len() > 0 {
        lemma_select_is_filter(s.drop_last(), keep.drop_last(), wanted);
        let rest = Seq::new((s.len() - 1) as nat, |p: int| p);
        assert(all.drop_last() =~= rest);
        let before = rest.filter(wanted);
        assert(before.map_values(|p: int| s.drop_last()[p]) =~= before.map_values(|p: int| s[p]));
        assert(wanted(s.len() - 1) == keep.last());
        if keep.last() {
            assert(all.filter(wanted) == before.push(s.len() - 1));
            assert(all.filter(wanted).map_values(|p: int| s[p]) =~= before.map_values(
                |p: int| s[p],
            ).push(s.last()));
        }
    } else {
        assert(array::select(s, keep) =~= all.filter(wanted).map_values(|p: int| s[p]));
    }
}

/// Selecting by flags leaves, in their order, the elements at the positions whose flag is set, and
/// as many as there are such positions.
pub proof fn law_selection_is_flagged_elements<T>(s: Seq<T>, keep: Seq<bool>)
    requires
        s.len() == keep.len(),
    ensures
        array::select(s, keep) == Seq::new(s.len(), |p: int| p).filter(
            |p: int| keep[p],
        ).map_values(|p: int| s[p]),
        array::count_set(keep) == Seq::new(s.len(), |p: int| p).filter(|p: int| keep[p]).len(),
{
    lemma_select_is_filter(s, keep, |p: int| keep[p]);
}

/// Filtering a chunk leaves, in each column, what is at the positions whose flag is set.
pub proof fn law_filter_leaves_flagged_rows(chunk: array::ChunkView, keep: Seq<bool>)
    requires
        forall|c: int| 0 <= c < chunk.columns.len() ==> (#[trigger] chunk.columns[c]).len()
            == keep.len(),
    ensures
        ({
            let kept = Seq::new(keep.len(), |p: int| p).filter(|p: int| keep[p]);
            let r = chunk.filtered(keep);
            &&& r.types == chunk.types
            &&& r.capacity == kept.len()
            &&& r.columns.len() == chunk.columns.len()
            &&& forall|c: int|
                0 <= c < chunk.columns.len() ==> #[trigger] r.columns[c] == kept.map_values(
                    |p: int| chunk.columns[c][p],
                )
        }),
{
    let wanted = |p: int| keep[p];
    lemma_select_is_filter(keep, keep, wanted);
    assert forall|c: int| 0 <= c < chunk.columns.len() implies #[trigger] chunk.filtered(
        keep,
    ).columns[c] == Seq::new(keep.len(), |p: int| p).filter(wanted).map_values(
        |p: int| chunk.columns[c][p],
    ) by {
        lemma_select_is_filter(chunk.columns[c], keep, wanted);
    }
}

/// Filtering a stream chunk leaves, of its operations and of its columns, what is at the positions
/// that are wanted.
proof fn lemma_filtered_rows(
    chunk: stream_chunk::StreamChunkView,
    keep: Seq<bool>,
    wanted: spec_fn(int) -> bool,
)
    requires
        keep.len() == chunk.ops.len(),
        forall|p: int| 0 <= p < keep.len() ==> keep[p] == #[trigger] wanted(p),
        forall|c: int| 0 <= c < chunk.data.columns.len() ==> (
        #[trigger] chunk.data.columns[c]).len() == chunk.ops.len(),
    ensures
        ({
            let kept = Seq::new(chunk.ops.len(), |p: int| p).filter(wanted);
            let r = chunk.filtered(keep);
            &&& r.visibility is None
            &&& r.ops == kept.map_values(|p: int| chunk.ops[p])
            &&& r.data.types == chunk.data.types
            &&& r.data.capacity == kept.len()
            &&& r.data.columns.len() == chunk.data.columns.len()
            &&& forall|c: int|
                0 <= c < chunk.data.columns.len() ==> #[trigger] r.data.columns[c]
                    == kept.map_values(|p: int| chunk.data.columns[c][p])
        }),
{
    lemma_select_is_filter(chunk.ops, keep, wanted);
    assert forall|c: int| 0 <= c < chunk.data.columns.len() implies #[trigger] chunk.filtered(
        keep,
    ).data.columns[c] == Seq::new(chunk.ops.len(), |p: int| p).filter(wanted).map_values(
        |p: int| chunk.data.columns[c][p],
    ) by {
        lemma_select_is_filter(chunk.data.columns[c], keep, wanted);
    }
}

/// Compacting a chunk leaves exactly its visible rows, whatever their operations, in their order,
/// each with its operation and all of its entries; and nothing in it is hidden.
pub proof fn law_compact_leaves_visible_rows(chunk: stream_chunk::StreamChunkView)
    requires
        chunk.visibility matches Some(flags) ==> flags.len() == chunk.ops.len(),
        forall|c: int| 0 <= c < chunk.data.columns.len() ==> (
        #[trigger] chunk.data.columns[c]).len() == chunk.ops.len(),
    ensures
        ({
            let kept = Seq::new(chunk.ops.len(), |p: int| p).filter(
                |p: int|
                    match chunk.visibility {
                        Some(flags) => flags[p],
                        None => true,
                    },
            );
            let r = chunk.compacted();
            &&& r.visibility is None
            &&& r.ops == kept.map_values(|p: int| chunk.ops[p])
            &&& r.data.types == chunk.data.types
            &&& r.data.capacity == kept.len()
            &&& r.data.columns.len() == chunk.data.columns.len()
            &&& forall|c: int|
                0 <= c < chunk.data.columns.len() ==> #[trigger] r.data.columns[c]
                    == kept.map_values(|p: int| chunk.data.columns[c][p])
        }),
{
    lemma_filtered_rows(
        chunk,
        chunk.visible(),
        |p: int|
            match chunk.visibility {
                Some(flags) => flags[p],
                None => true,
            },
    );
}

/// A chunk without hidden rows is compacted to itself.
pub proof fn law_compact_keeps_unhidden_chunk(chunk: stream_chunk::StreamChunkView)
    requires
        chunk.visibility is None,
        chunk.data.capacity == chunk.ops.len(),
        forall|c: int| 0 <= c < chunk.data.columns.len() ==> (
        #[trigger] chunk.data.columns[c]).len() == chunk.ops.len(),
    ensures
        chunk.compacted() == chunk,
{
    let keep = chunk.visible();
    array::lemma_select_all(chunk.ops, keep);
    assert forall|c: int| 0 <= c < chunk.data.columns.len() implies #[trigger] chunk.filtered(
        keep,
    ).data.columns[c] == chunk.data.columns[c] by {
        array::lemma_select_all(chunk.data.columns[c], keep);
    }
    assert(chunk.filtered(keep).data.columns =~= chunk.data.columns);
}

/// Forcing a chunk to be append-only leaves exactly its rows that are visible and inserted, each
/// whatever the other rows are, in their order and with all of their entries; all of them are
/// inserts, and nothing is hidden.
pub proof fn law_append_only_leaves_visible_inserts(chunk: stream_chunk::StreamChunkView)
    requires
        chunk.visibility matches Some(flags) ==> flags.len() == chunk.ops.len(),
        forall|c: int| 0 <= c < chunk.data.columns.len() ==> (
        #[trigger] chunk.data.columns[c]).len() == chunk.ops.len(),
    ensures
        ({
            let kept = Seq::new(chunk.ops.len(), |p: int| p).filter(
                |p: int|
                    chunk.ops[p] == Op::Insert && match chunk.visibility {
                        Some(flags) => flags[p],
                        None => true,
                    },
            );
            let r = chunk.append_only();
            &&& r.visibility is None
            &&& r.ops == kept.map_values(|p: int| Op::Insert)
            &&& r.data.types == chunk.data.types
            &&& r.data.capacity == kept.len()
            &&& r.data.columns.len() == chunk.data.columns.len()
            &&& forall|c: int|
                0 <= c < chunk.data.columns.len() ==> #[trigger] r.data.columns[c]
                    == kept.map_values(|p: int| chunk.data.columns[c][p])
        }),
{
    let wanted = |p: int|
        chunk.ops[p] == Op::Insert && match chunk.visibility {
            Some(flags) => flags[p],
            None => true,
        };
    let all = Seq::new(chunk.ops.len(), |p: int| p);
    lemma_filtered_rows(chunk, chunk.visible_inserts(), wanted);
    assert forall|j: int| 0 <= j < all.filter(wanted).len() implies chunk.ops[#[trigger] all.filter(
        wanted,
    )[j]] == Op::Insert by {
        all.lemma_filter_pred(wanted, j);
    }
    assert(all.filter(wanted).map_values(|p: int| chunk.ops[p]) =~= all.filter(wanted).map_values(
        |p: int| Op::Insert,
    ));
}

/// What is written of a chunk to a sink is its visible rows, in their order and with all of their
/// entries; of these only the inserts where the sink is forced to be append-only.
pub proof fn law_batch_is_visible_rows(
    sink_type: sink::SinkType,
    chunk: stream_chunk::StreamChunkView,
)
    requires
        chunk.visibility matches Some(flags) ==> flags.len() == chunk.ops.len(),
        forall|c: int| 0 <= c < chunk.data.columns.len() ==> (
        #[trigger] chunk.data.columns[c]).len() == chunk.ops.len(),
    ensures
        ({
            let kept = Seq::new(chunk.ops.len(), |p: int| p).filter(
                |p: int|
                    (sink_type == sink::SinkType::ForceAppendOnly ==> chunk.ops[p] == Op::Insert)
                        && match chunk.visibility {
                        Some(flags) => flags[p],
                        None => true,
                    },
            );
            let r = sink_type.batch(chunk);
            &&& r.visibility is None
            &&& r.ops == kept.map_values(|p: int| chunk.ops[p])
            &&& r.data.types == chunk.data.types
            &&& r.data.capacity == kept.len()
            &&& r.data.columns.len() == chunk.data.columns.len()
            &&& forall|c: int|
                0 <= c < chunk.data.columns.len() ==> #[trigger] r.data.columns[c]
                    == kept.map_values(|p: int| chunk.data.columns[c][p])
        }),
{
    let wanted = |p: int|
        (sink_type == sink::SinkType::ForceAppendOnly ==> chunk.ops[p] == Op::Insert)
            && match chunk.visibility {
            Some(flags) => flags[p],
            None => true,
        };
    if sink_type == sink::SinkType::ForceAppendOnly {
        lemma_filtered_rows(chunk, chunk.visible_inserts(), wanted);
    } else {
        lemma_filtered_rows(chunk, chunk.visible(), wanted);
    }
}

/// The changes of a chunk: for each row its operation and its entry in each column.
pub proof fn law_changes_are_rows(chunk: stream_chunk::StreamChunkView, i: int, c: int)
    requires
        0 <= i < chunk.ops.len(),
        0 <= c < chunk.data.columns.len(),
    ensures
        chunk.changes().len() == chunk.ops.len(),
        chunk.changes()[i].0 == chunk.ops[i],
        chunk.changes()[i].1.len() == chunk.data.columns.len(),
        chunk.changes()[i].1[c] == chunk.data.columns[c][i],
        chunk.visible().len() == chunk.ops.len() || chunk.visibility is Some,
        chunk.visible()[i] == (match chunk.visibility {
            Some(flags) => flags[i],
            None => true,
        }),
        chunk.visible_inserts().len() == chunk.ops.len(),
        chunk.visible_inserts()[i] == (chunk.ops[i] == Op::Insert && match chunk.visibility {
            Some(flags) => flags[i],
            None => true,
        }),
{
}

/// The changes of a compacted chunk are the visible changes, and those of a chunk that was forced
/// to be append-only are the visible inserts.
pub proof fn law_filtered_changes(chunk: stream_chunk::StreamChunkView)
    requires
        chunk.visibility matches Some(flags) ==> flags.len() == chunk.ops.len(),
        forall|c: int| 0 <= c < chunk.data.columns.len() ==> (
        #[trigger] chunk.data.columns[c]).len() == chunk.ops.len(),
    ensures
        chunk.compacted().changes() == Seq::new(chunk.ops.len(), |p: int| p).filter(
            |p: int|
                match chunk.visibility {
                    Some(flags) => flags[p],
                    None => true,
                },
        ).map_values(
            |p: int|
                (
                    chunk.ops[p],
                    Seq::new(chunk.data.columns.len(), |c: int| chunk.data.columns[c][p]),
                ),
        ),
        chunk.append_only().changes() == Seq::new(chunk.ops.len(), |p: int| p).filter(
            |p: int|
                chunk.ops[p] == Op::Insert && match chunk.visibility {
                    Some(flags) => flags[p],
                    None => true,
                },
        ).map_values(
            |p: int|
                (
                    Op::Insert,
                    Seq::new(chunk.data.columns.len(), |c: int| chunk.data.columns[c][p]),
                ),
        ),
{
    law_compact_leaves_visible_rows(chunk);
    law_append_only_leaves_visible_inserts(chunk);
    let kept = Seq::new(chunk.ops.len(), |p: int| p).filter(
        |p: int|
            match chunk.visibility {
                Some(flags) => flags[p],
                None => true,
            },
    );
    let r = chunk.compacted();
    assert forall|j: int| 0 <= j < kept.len() implies r.data.whole_row(j) == Seq::new(
        chunk.data.columns.len(),
        |c: int| chunk.data.columns[c][kept[j]],
    ) by {
        assert(r.data.whole_row(j) =~= Seq::new(
            chunk.data.columns.len(),
            |c: int| chunk.data.columns[c][kept[j]],
        ));
    }
    assert(r.changes() =~= kept.map_values(
        |p: int|
            (
                chunk.ops[p],
                Seq::new(chunk.data.columns.len(), |c: int| chunk.data.columns[c][p]),
            ),
    ));
    let kept = Seq::new(chunk.ops.len(), |p: int| p).filter(
        |p: int|
            chunk.ops[p] == Op::Insert && match chunk.visibility {
                Some(flags) => flags[p],
                None => true,
            },
    );
    let r = chunk.append_only();
    assert forall|j: int| 0 <= j < kept.len() implies r.data.whole_row(j) == Seq::new(
        chunk.data.columns.len(),
        |c: int| chunk.data.columns[c][kept[j]],
    ) by {
        assert(r.data.whole_row(j) =~= Seq::new(
            chunk.data.columns.len(),
            |c: int| chunk.data.columns[c][kept[j]],
        ));
    }
    assert(r.changes() =~= kept.map_values(
        |p: int|
            (
                Op::Insert,
                Seq::new(chunk.data.columns.len(), |c: int| chunk.data.columns[c][p]),
            ),
    ));
}

/// The chunk that [`StreamChunk::compact`] gives holds exactly the changes of the visible rows.
pub proof fn law_compacted_stream_chunk(chunk: StreamChunk, result: StreamChunk)
    requires
        chunk@.ops.len() == chunk@.data.capacity,
        chunk@.visibility matches Some(flags) ==> flags.len() == chunk@.ops.len(),
        forall|c: int| 0 <= c < chunk@.data.columns.len() ==> (
        #[trigger] chunk@.data.columns[c]).len() == chunk@.ops.len(),
        call_ensures(StreamChunk::compact, (&chunk,), result),
    ensures
        result@.visibility is None,
        ({
            let view = chunk@;
            result@.changes() == Seq::new(view.ops.len(), |p: int| p).filter(
                |p: int|
                    match view.visibility {
                        Some(flags) => flags[p],
                        None => true,
                    },
            ).map_values(
                |p: int|
                    (
                        view.ops[p],
                        Seq::new(view.data.columns.len(), |c: int| view.data.columns[c][p]),
                    ),
            )
        }),
{
    law_compact_leaves_visible_rows(chunk@);
    law_filtered_changes(chunk@);
}

/// The chunk that [`stream_chunk::force_append_only`] gives holds exactly the changes of the
/// visible rows that are inserted.
pub proof fn law_forced_stream_chunk(chunk: StreamChunk, result: StreamChunk)
    requires
        chunk@.ops.len() == chunk@.data.capacity,
        chunk@.visibility matches Some(flags) ==> flags.len() == chunk@.ops.len(),
        forall|c: int| 0 <= c < chunk@.data.columns.len() ==> (
        #[trigger] chunk@.data.columns[c]).len() == chunk@.ops.len(),
        call_ensures(stream_chunk::force_append_only, (&chunk,), result),
    ensures
        result@.visibility is None,
        ({
            let view = chunk@;
            result@.changes() == Seq::new(view.ops.len(), |p: int| p).filter(
                |p: int|
                    view.ops[p] == Op::Insert && match view.visibility {
                        Some(flags) => flags[p],
                        None => true,
                    },
            ).map_values(
                |p: int|
                    (
                        Op::Insert,
                        Seq::new(view.data.columns.len(), |c: int| view.data.columns[c][p]),
                    ),
            )
        }),
{
    law_append_only_leaves_visible_inserts(chunk@);
    law_filtered_changes(chunk@);
}

/// The number of visible rows is the number of positions that are visible.
pub proof fn law_cardinality_counts_visible_rows(chunk: StreamChunk, result: usize)
    requires
        chunk@.visibility matches Some(flags) ==> flags.len() == chunk@.ops.len(),
        call_ensures(StreamChunk::cardinality, (&chunk,), result),
    ensures
        result == Seq::new(chunk@.ops.len(), |p: int| p).filter(
            |p: int|
                match chunk@.visibility {
                    Some(flags) => flags[p],
                    None => true,
                },
        ).len(),
{
    lemma_select_is_filter(
        chunk@.ops,
        chunk@.visible(),
        |p: int|
            match chunk@.visibility {
                Some(flags) => flags[p],
                None => true,
            },
    );
}

/// A stream chunk is well-formed when it has an operation, a flag if rows are hidden, and an entry
/// in each column for each of its rows, and each entry is of its column's type.
pub proof fn law_well_formed_stream_chunk(chunk: stream_chunk::StreamChunkView)
    ensures
        chunk.well_formed() <==> {
            &&& chunk.ops.len() == chunk.data.capacity
            &&& chunk.visibility matches Some(flags) ==> flags.len() == chunk.data.capacity
            &&& chunk.data.types.len() == chunk.data.columns.len()
            &&& forall|c: int|
                0 <= c < chunk.data.columns.len() ==> (#[trigger] chunk.data.columns[c]).len()
                    == chunk.data.capacity
            &&& forall|c: int, i: int|
                0 <= c < chunk.data.columns.len() && 0 <= i < chunk.data.capacity ==> (
                #[trigger] chunk.data.columns[c][i] matches Some(v) ==> match (
                    v,
                    chunk.data.types[c],
                ) {
                    (types::Value::Bool(_), DataType::Boolean) => true,
                    (types::Value::Int16(_), DataType::Int16) => true,
                    (types::Value::Int32(_), DataType::Int32) => true,
                    (types::Value::Int64(_), DataType::Int64) => true,
                    (types::Value::Float32(_), DataType::Float32) => true,
                    (types::Value::Float64(_), DataType::Float64) => true,
                    (types::Value::Decimal(p), DataType::Decimal) => p.scale <= 28
                        && -0x1_0000_0000_0000_0000_0000_0000 < p.mantissa
                        < 0x1_0000_0000_0000_0000_0000_0000,
                    (types::Value::Interval(_), DataType::Interval) => true,
                    (types::Value::Utf8(_), DataType::Varchar) => true,
                    _ => false,
                })
        },
{
}

/// A row is made of its entries in the columns that are asked for, in that order; a whole row of
/// those in all columns.
pub proof fn law_rows_are_entries(chunk: array::ChunkView, idxes: Seq<usize>, i: int, k: int)
    ensures
        chunk.row(idxes, i).len() == idxes.len(),
        chunk.key_types(idxes).len() == idxes.len(),
        0 <= k < idxes.len() ==> {
            &&& chunk.row(idxes, i)[k] == chunk.columns[idxes[k] as int][i]
            &&& chunk.key_types(idxes)[k] == chunk.types[idxes[k] as int]
        },
        chunk.whole_row(i).len() == chunk.columns.len(),
        0 <= k < chunk.columns.len() ==> chunk.whole_row(i)[k] == chunk.columns[k][i],
        chunk.has_columns(idxes) <==> forall|x: int|
            0 <= x < idxes.len() ==> #[trigger] idxes[x] < chunk.columns.len(),
{
}

/// The first column that a chunk does not have comes behind columns that it has.
pub proof fn law_first_missing_column(chunk: array::ChunkView, idxes: Seq<usize>)
    ensures
        match chunk.first_missing(idxes) {
            Some(index) => exists|k: int|
                0 <= k < idxes.len() && #[trigger] idxes[k] == index && index >= chunk.columns.len()
                    && forall|j: int|
                    0 <= j < k ==> #[trigger] idxes[j] < chunk.columns.len(),
            None => forall|k: int|
                0 <= k < idxes.len() ==> #[trigger] idxes[k] < chunk.columns.len(),
        },
    decreases idxes.len(),
{
    if idxes.len() > 0 && idxes[0] < chunk.columns.len() {
        let rest = idxes.skip(1);
        law_first_missing_column(chunk, rest);
        match chunk.first_missing(idxes) {
            Some(index) => {
                let k = choose|k: int|
                    0 <= k < rest.len() && #[trigger] rest[k] == index && index
                        >= chunk.columns.len() && forall|j: int|
                        0 <= j < k ==> #[trigger] rest[j] < chunk.columns.len();
                assert(idxes[k + 1] == index);
                assert forall|j: int| 0 <= j < k + 1 implies #[trigger] idxes[j]
                    < chunk.columns.len() by {
                    if j > 0 {
                        assert(rest[j - 1] < chunk.columns.len());
                    }
                }
            },
            None => {
                assert forall|k: int| 0 <= k < idxes.len() implies #[trigger] idxes[k]
                    < chunk.columns.len() by {
                    if k > 0 {
                        assert(rest[k - 1] < chunk.columns.len());
                    }
                }
            },
        }
    } else if idxes.len() > 0 {
        assert(idxes[0] >= chunk.columns.len());
    }
}

/// The hash code of a row covers every entry in turn: of null a zero, of a value a one and its
/// bytes.
pub proof fn law_row_bytes_cover_entries(row: Seq<Datum>, d: Datum)
    ensures
        array::row_bytes(Seq::<Datum>::empty()) == Seq::<u8>::empty(),
        array::row_bytes(row.push(d)) == array::row_bytes(row) + (match d {
            Some(v) => seq![1u8] + v.bytes(),
            None => seq![0u8],
        }),
        array::row_hash(row) == array::crc32_of(array::row_bytes(row)),
{
    assert(row.push(d).drop_last() =~= row);
}

} // verus!
