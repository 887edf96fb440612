//! Batches of changes.

use vstd::prelude::*;

use crate::array;
use crate::array::{DataChunk, Datum};
use crate::error::Error;

verus! {

/// What a change does to its row.
#[derive(Clone, Copy, Debug, PartialEq, Eq, Structural)]
pub enum Op {
    Insert,
    Delete,
    UpdateDelete,
    UpdateInsert,
}

/// What a batch of changes holds: an operation and the entries for each row, and, where some rows
/// are hidden, a flag for each row that is set where it is visible.
pub struct StreamChunkView {
    pub ops: Seq<Op>,
    pub data: array::ChunkView,
    pub visibility: Option<Seq<bool>>,
}

impl StreamChunkView {
    pub open spec fn well_formed(self) -> bool {
        &&& self.data.well_formed()
        &&& self.ops.len() == self.data.capacity
        &&& self.visibility matches Some(flags) ==> flags.len() == self.data.capacity
    }

    /// For each row, whether it is visible.
    pub open spec fn visible(self) -> Seq<bool> {
        match self.visibility {
            Some(flags) => flags,
            None => Seq::new(self.ops.len(), |i: int| true),
        }
    }

    /// For each row, whether it is visible and inserted.
    pub open spec fn visible_inserts(self) -> Seq<bool> {
        Seq::new(self.ops.len(), |i: int| self.visible()[i] && self.ops[i] == Op::Insert)
    }

    /// The changes, row by row.
    pub open spec fn changes(self) -> Seq<(Op, Seq<Datum>)> {
        Seq::new(self.ops.len(), |i: int| (self.ops[i], self.data.whole_row(i)))
    }

    /// The chunk of the rows whose flag is set, all of them visible.
    pub open spec fn filtered(self, keep: Seq<bool>) -> StreamChunkView {
        StreamChunkView {
            ops: array::select(self.ops, keep),
            data: self.data.filtered(keep),
            visibility: None,
        }
    }

    /// The chunk without its hidden rows.
    pub open spec fn compacted(self) -> StreamChunkView {
        self.filtered(self.visible())
    }

    /// The chunk without anything but its visible inserts.
    pub open spec fn append_only(self) -> StreamChunkView {
        self.filtered(self.visible_inserts())
    }
}

/// A batch of changes, stored by columns.
#[derive(Debug)]
pub struct StreamChunk {
    ops: Vec<Op>,
    data: DataChunk,
    visibility: Option<Vec<bool>>,
}

impl View for StreamChunk {
    type V = StreamChunkView;

    closed spec fn view(&self) -> StreamChunkView {
        StreamChunkView {
            ops: self.ops@,
            data: self.data@,
            visibility: match self.visibility {
                Some(flags) => Some(flags@),
                None => None,
            },
        }
    }
}

impl StreamChunk {
    #[verifier::type_invariant]
    spec fn invariant_holds(self) -> bool {
        self@.well_formed()
    }

    /// The chunk of these parts, or an error where their numbers of rows differ.
    pub fn new(ops: Vec<Op>, data: DataChunk, visibility: Option<Vec<bool>>) -> (r: Result<
        StreamChunk,
        Error,
    >)
        ensures
            r is Ok <==> ops@.len() == data@.capacity && (visibility matches Some(flags)
                ==> flags@.len() == data@.capacity),
            r matches Err(e) ==> e == Error::LengthMismatch,
            r matches Ok(chunk) ==> {
                &&& chunk@.well_formed()
                &&& chunk@.ops == ops@
                &&& chunk@.data == data@
                &&& chunk@.visibility == (match visibility {
                    Some(flags) => Some(flags@),
                    None => None,
                })
            },
    {
        if ops.len() != data.capacity() {
            return Err(Error::LengthMismatch);
        }
        match &visibility {
            Some(flags) => {
                if flags.len() != data.capacity() {
                    return Err(Error::LengthMismatch);
                }
            },
            None => {},
        }
        Ok(StreamChunk { ops, data, visibility })
    }

    /// How many rows there are, hidden ones included.
    pub fn capacity(&self) -> (r: usize)
        ensures
            r == self@.ops.len(),
    {
        self.ops.len()
    }

    /// How many rows are visible.
    pub fn cardinality(&self) -> (r: usize)
        ensures
            r == array::count_set(self@.visible()),
    {
        proof {
            use_type_invariant(self);
        }
        let mut count: usize = 0;
        let mut i: usize = 0;
        while i < self.ops.len()
            invariant
                count <= i <= self.ops@.len(),
                self@.well_formed(),
                count == array::count_set(self@.visible().take(i as int)),
            decreases self.ops@.len() - i,
        {
            assert(self@.visible().take(i + 1).drop_last() =~= self@.visible().take(i as int));
            if self.is_visible(i) {
                count += 1;
            }
            i += 1;
        }
        assert(self@.visible().take(i as int) =~= self@.visible());
        count
    }

    pub fn op(&self, i: usize) -> (r: Op)
        requires
            i < self@.ops.len(),
        ensures
            r == self@.ops[i as int],
    {
        self.ops[i]
    }

    pub fn is_visible(&self, i: usize) -> (r: bool)
        requires
            i < self@.ops.len(),
        ensures
            r == self@.visible()[i as int],
    {
        proof {
            use_type_invariant(self);
        }
        match &self.visibility {
            Some(flags) => flags[i],
            None => true,
        }
    }

    /// The entries of all rows, hidden ones included.
    pub fn data(&self) -> (r: &DataChunk)
        ensures
            r@ == self@.data,
    {
        &self.data
    }

    /// The chunk without its hidden rows.
    pub fn compact(&self) -> (r: StreamChunk)
        ensures
            r@ == self@.compacted(),
    {
        proof {
            use_type_invariant(self);
        }
        let mut keep: Vec<bool> = Vec::new();
        let mut ops: Vec<Op> = Vec::new();
        let mut i: usize = 0;
        while i < self.ops.len()
            invariant
                i <= self.ops@.len(),
                self@.well_formed(),
                keep@ =~= self@.visible().take(i as int),
                ops@ == array::select(self.ops@.take(i as int), keep@),
            decreases self.ops@.len() - i,
        {
            let visible: bool = self.is_visible(i);
            let ghost before = keep@;
            keep.push(visible);
            if visible {
                ops.push(self.ops[i]);
            }
            assert(keep@.drop_last() =~= before);
            assert(self.ops@.take(i + 1).drop_last() =~= self.ops@.take(i as int));
            i += 1;
        }
        assert(keep@ =~= self@.visible());
        assert(self.ops@.take(i as int) =~= self.ops@);
        proof {
            array::lemma_select_len(self.ops@, keep@);
        }
        let data = self.data.filter(&keep);
        StreamChunk { ops, data, visibility: None }
    }
}

/// Drop all the UPDATE/DELETE messages in this chunk.
pub fn force_append_only(chunk: &StreamChunk) -> (r: StreamChunk)
    ensures
        r@ == chunk@.append_only(),
        forall|i: int| #![auto] 0 <= i < r@.ops.len() ==> r@.ops[i] == Op::Insert,
{
    proof {
        use_type_invariant(chunk);
    }
    let mut keep: Vec<bool> = Vec::new();
    let mut ops: Vec<Op> = Vec::new();
    let mut i: usize = 0;
    while i < chunk.ops.len()
        invariant
            i <= chunk.ops@.len(),
            chunk@.well_formed(),
            keep@ =~= chunk@.visible_inserts().take(i as int),
            ops@ == array::select(chunk.ops@.take(i as int), keep@),
            forall|j: int| #![auto] 0 <= j < ops@.len() ==> ops@[j] == Op::Insert,
        decreases chunk.ops@.len() - i,
    {
        let wanted: bool = chunk.is_visible(i) && chunk.ops[i] == Op::Insert;
        let ghost before = keep@;
        keep.push(wanted);
        if wanted {
            ops.push(Op::Insert);
        }
        assert(keep@.drop_last() =~= before);
        assert(chunk.ops@.take(i + 1).drop_last() =~= chunk.ops@.take(i as int));
        i += 1;
    }
    assert(keep@ =~= chunk@.visible_inserts());
    assert(chunk.ops@.take(i as int) =~= chunk.ops@);
    proof {
        array::lemma_select_len(chunk.ops@, keep@);
    }
    let data = chunk.data.filter(&keep);
    StreamChunk { ops, data, visibility: None }
}

/// The changes of a filtered chunk are those of the chunk whose flag is set, in their order, each
/// with its operation and all of its entries.
pub proof fn law_filter_selects_changes(chunk: StreamChunkView, keep: Seq<bool>)
    requires
        chunk.well_formed(),
        keep.len() == chunk.ops.len(),
    ensures
        chunk.filtered(keep).changes() == array::select(chunk.changes(), keep),
{
    let r = chunk.filtered(keep);
    let positions = array::kept_positions(keep);
    array::law_select_keeps_order(chunk.ops, keep);
    array::law_select_keeps_order(chunk.changes(), keep);
    assert forall|i: int| 0 <= i < r.ops.len() implies r.changes()[i] == array::select(
        chunk.changes(),
        keep,
    )[i] by {
        let p = positions[i];
        assert forall|c: int| 0 <= c < chunk.data.columns.len() implies r.data.whole_row(i)[c]
            == chunk.data.whole_row(p)[c] by {
            array::law_select_keeps_order(chunk.data.columns[c], keep);
        }
        assert(r.data.whole_row(i) =~= chunk.data.whole_row(p));
    }
    assert(r.changes() =~= array::select(chunk.changes(), keep));
}

/// A filtered chunk is well-formed.
proof fn lemma_filtered_well_formed(chunk: StreamChunkView, keep: Seq<bool>)
    requires
        chunk.well_formed(),
        keep.len() == chunk.ops.len(),
    ensures
        chunk.filtered(keep).well_formed(),
{
    let r = chunk.filtered(keep);
    array::lemma_select_len(chunk.ops, keep);
    assert forall|c: int| #![auto] 0 <= c < r.data.columns.len() implies r.data.columns[c].len()
        == r.data.capacity by {
        array::lemma_select_len(chunk.data.columns[c], keep);
    }
    assert forall|c: int, i: int| #![trigger r.data.columns[c][i]]
        0 <= c < r.data.columns.len() && 0 <= i < r.data.capacity implies (
    r.data.columns[c][i] matches Some(v) ==> v.valid() && v.data_type() == r.data.types[c]) by {
        array::law_select_keeps_order(chunk.data.columns[c], keep);
        let p = array::kept_positions(keep)[i];
        assert(r.data.columns[c][i] == chunk.data.columns[c][p]);
    }
}

/// Filtering keeps a chunk without hidden rows as it is where every flag is set.
proof fn lemma_filtered_all(chunk: StreamChunkView, keep: Seq<bool>)
    requires
        chunk.well_formed(),
        chunk.visibility is None,
        keep.len() == chunk.ops.len(),
        forall|i: int| 0 <= i < keep.len() ==> keep[i],
    ensures
        chunk.filtered(keep) == chunk,
{
    array::lemma_select_all(chunk.ops, keep);
    assert forall|c: int| 0 <= c < chunk.data.columns.len() implies chunk.filtered(
        keep,
    ).data.columns[c] == chunk.data.columns[c] by {
        array::lemma_select_all(chunk.data.columns[c], keep);
    }
    assert(chunk.filtered(keep).data.columns =~= chunk.data.columns);
}

/// Compacting a compacted chunk changes nothing.
pub proof fn law_compact_idempotent(chunk: StreamChunkView)
    requires
        chunk.well_formed(),
    ensures
        chunk.compacted().well_formed(),
        chunk.compacted().compacted() == chunk.compacted(),
{
    lemma_filtered_well_formed(chunk, chunk.visible());
    lemma_filtered_all(chunk.compacted(), chunk.compacted().visible());
}

/// What is left of a chunk once it is forced to be append-only is inserts alone, has no hidden
/// row, and stays as it is when it is forced again or compacted.
pub proof fn law_append_only_idempotent(chunk: StreamChunkView)
    requires
        chunk.well_formed(),
    ensures
        chunk.append_only().well_formed(),
        forall|i: int| #![auto]
            0 <= i < chunk.append_only().ops.len() ==> chunk.append_only().ops[i] == Op::Insert,
        chunk.append_only().append_only() == chunk.append_only(),
        chunk.append_only().compacted() == chunk.append_only(),
{
    let keep = chunk.visible_inserts();
    let r = chunk.append_only();
    lemma_filtered_well_formed(chunk, keep);
    array::law_select_keeps_order(chunk.ops, keep);
    assert forall|i: int| #![auto] 0 <= i < r.ops.len() implies r.ops[i] == Op::Insert by {
        let p = array::kept_positions(keep)[i];
        assert(keep[p]);
    }
    lemma_filtered_all(r, r.visible_inserts());
    lemma_filtered_all(r, r.visible());
}

/// A chunk without a visible insert is forced to a chunk without rows.
pub proof fn law_append_only_without_inserts(chunk: StreamChunkView)
    requires
        chunk.well_formed(),
        forall|i: int| #![auto] 0 <= i < chunk.ops.len() ==> !chunk.visible_inserts()[i],
    ensures
        chunk.append_only().ops.len() == 0,
        chunk.append_only().data.capacity == 0,
        chunk.append_only().changes() == Seq::<(Op, Seq<Datum>)>::empty(),
{
    let keep = chunk.visible_inserts();
    array::law_select_keeps_order(chunk.ops, keep);
    if array::count_set(keep) > 0 {
        assert(keep[array::kept_positions(keep)[0]]);
    }
    assert(chunk.append_only().changes() =~= Seq::<(Op, Seq<Datum>)>::empty());
}

/// A chunk of inserts alone is forced to what it is compacted to.
pub proof fn law_append_only_of_inserts(chunk: StreamChunkView)
    requires
        chunk.well_formed(),
        forall|i: int| #![auto] 0 <= i < chunk.ops.len() ==> chunk.ops[i] == Op::Insert,
    ensures
        chunk.append_only() == chunk.compacted(),
{
    assert(chunk.visible_inserts() =~= chunk.visible());
}

} // verus!
