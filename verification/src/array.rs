//! Columns, chunks of columns, and the hash codes of their rows.

use vstd::prelude::*;
use vstd::string::*;

use crate::decimal::Decimal;
use crate::error::Error;
use crate::hash_map::{HashKeySerialize, KeyBytes};
use crate::types::{DataType, Float32, Float64, IntervalUnit, ReadScalar, Scalar, ScalarImpl, ScalarRef};
use crate::types;

verus! {

/// A column entry: a value, or `None` for null.
pub type Datum = Option<types::Value>;

/// What decides whether two entries are equal. Null is equal to null alone.
pub open spec fn normal_datum(d: Datum) -> Datum {
    match d {
        Some(v) => Some(v.normal()),
        None => None,
    }
}

/// What decides whether two rows are equal.
pub open spec fn normal_row(row: Seq<Datum>) -> Seq<Datum> {
    row.map_values(|d: Datum| normal_datum(d))
}

/// The elements of `s` whose flag in `keep` is set, in their order.
pub open spec fn select<T>(s: Seq<T>, keep: Seq<bool>) -> Seq<T>
    decreases s.len(),
{
    if s.len() == 0 {
        Seq::empty()
    } else {
        let rest = select(s.drop_last(), keep.drop_last());
        if keep.last() {
            rest.push(s.last())
        } else {
            rest
        }
    }
}

/// How many flags are set.
pub open spec fn count_set(keep: Seq<bool>) -> nat
    decreases keep.len(),
{
    if keep.len() == 0 {
        0
    } else {
        count_set(keep.drop_last()) + (if keep.last() {
            1nat
        } else {
            0
        })
    }
}

/// As many elements are selected as flags are set.
pub proof fn lemma_select_len<T>(s: Seq<T>, keep: Seq<bool>)
    requires
        s.len() == keep.len(),
    ensures
        select(s, keep).len() == count_set(keep) <= keep.len(),
    decreases s.len(),
{
    if s.len() > 0 {
        lemma_select_len(s.drop_last(), keep.drop_last());
    }
}

/// The positions of the flags that are set, in ascending order.
pub open spec fn kept_positions(keep: Seq<bool>) -> Seq<int> {
    select(Seq::new(keep.len(), |i: int| i), keep)
}

/// A selection holds, in their order, the elements at the positions of the flags that are set.
pub proof fn law_select_keeps_order<T>(s: Seq<T>, keep: Seq<bool>)
    requires
        s.len() == keep.len(),
    ensures
        select(s, keep).len() == kept_positions(keep).len() == count_set(keep),
        forall|i: int|
            0 <= i < count_set(keep) ==> {
                &&& 0 <= #[trigger] kept_positions(keep)[i] < keep.len()
                &&& keep[kept_positions(keep)[i]]
                &&& select(s, keep)[i] == s[kept_positions(keep)[i]]
            },
        forall|i: int, j: int|
            0 <= i < j < count_set(keep) ==> #[trigger] kept_positions(keep)[i]
                < #[trigger] kept_positions(keep)[j],
        forall|p: int|
            0 <= p < keep.len() && #[trigger] keep[p] ==> kept_positions(keep).contains(p),
    decreases keep.len(),
{
    let all = Seq::new(keep.len(), |i: int| i);
    lemma_select_len(s, keep);
    lemma_select_len(all, keep);
    if keep.len() > 0 {
        let rest = keep.drop_last();
        law_select_keeps_order(s.drop_last(), rest);
        assert(all.drop_last() =~= Seq::new(rest.len(), |i: int| i));
        let before = kept_positions(rest);
        let after = kept_positions(keep);
        if keep.last() {
            assert(after == before.push(keep.len() - 1));
        } else {
            assert(after == before);
        }
        assert forall|i: int| 0 <= i < count_set(keep) implies {
            &&& 0 <= #[trigger] after[i] < keep.len()
            &&& keep[after[i]]
            &&& select(s, keep)[i] == s[after[i]]
        } by {
            if i < before.len() {
                assert(after[i] == before[i]);
                assert(rest[before[i]]);
            }
        }
        assert forall|p: int| 0 <= p < keep.len() && #[trigger] keep[p] implies after.contains(
            p,
        ) by {
            if p < rest.len() {
                assert(rest[p]);
                assert(before.contains(p));
                let i = choose|i: int| 0 <= i < before.len() && before[i] == p;
                assert(after[i] == p);
            } else {
                assert(after[after.len() - 1] == p);
            }
        }
    }
}

/// Where every flag is set, everything is selected.
pub proof fn lemma_select_all<T>(s: Seq<T>, keep: Seq<bool>)
    requires
        s.len() == keep.len(),
        forall|i: int| 0 <= i < keep.len() ==> keep[i],
    ensures
        select(s, keep) == s,
        count_set(keep) == keep.len(),
    decreases keep.len(),
{
    if keep.len() > 0 {
        lemma_select_all(s.drop_last(), keep.drop_last());
        assert(s.drop_last().push(s.last()) =~= s);
    } else {
        assert(s =~= Seq::empty());
    }
}

/// An array of scalars, some of which may be null.
pub trait Array: 'static {
    type RefItem<'a>: ScalarRef<'a>;

    /// The type of the scalars.
    spec fn item_type() -> DataType;

    spec fn data(&self) -> Seq<Datum>;

    fn len(&self) -> (r: usize)
        ensures
            r == self.data().len(),
    ;

    fn value_at<'a>(&'a self, idx: usize) -> (r: Option<Self::RefItem<'a>>)
        requires
            idx < self.data().len(),
        ensures
            ref_datum::<Self::RefItem<'a>>(r) == self.data()[idx as int],
            <Self::RefItem<'a> as ScalarRef<'a>>::data_type() == Self::item_type(),
    ;
}

/// What an optional scalar holds.
pub open spec fn ref_datum<'a, D: ScalarRef<'a>>(d: Option<D>) -> Datum {
    match d {
        Some(v) => Some(v.value()),
        None => None,
    }
}

/// What an optional stored scalar holds.
pub open spec fn stored_datum<T: Scalar>(d: Option<T>) -> Datum {
    match d {
        Some(v) => Some(v.scalar_value()),
        None => None,
    }
}

/// An array that owns its scalars.
#[derive(Debug)]
pub struct ScalarArray<T> {
    data: Vec<Option<T>>,
}

impl<T: Scalar> ScalarArray<T> {
    pub closed spec fn items(&self) -> Seq<Datum> {
        self.data@.map_values(|d: Option<T>| stored_datum(d))
    }

    pub fn new(data: Vec<Option<T>>) -> (r: Self)
        ensures
            r.items() == data@.map_values(|d: Option<T>| stored_datum(d)),
    {
        ScalarArray { data }
    }

    /// What the array holds is valid and of its type.
    pub proof fn lemma_items(&self, i: int)
        requires
            0 <= i < self.items().len(),
        ensures
            self.items()[i] matches Some(v) ==> v.valid() && v.data_type() == T::scalar_type(),
    {
        if let Some(t) = self.data@[i] {
            t.lemma_scalar_value();
        }
    }

    /// The array of the scalars whose flag is set.
    pub fn filter(&self, keep: &Vec<bool>) -> (r: Self)
        requires
            keep@.len() == self.items().len(),
        ensures
            r.items() == select(self.items(), keep@),
    {
        let mut data: Vec<Option<T>> = Vec::new();
        let mut i: usize = 0;
        assert(self.items().take(0) =~= Seq::empty());
        assert(data@.map_values(|d: Option<T>| stored_datum(d)) =~= select(
            self.items().take(0),
            keep@.take(0),
        ));
        while i < keep.len()
            invariant
                i <= keep@.len() == self.items().len() == self.data@.len(),
                data@.map_values(|d: Option<T>| stored_datum(d)) == select(
                    self.items().take(i as int),
                    keep@.take(i as int),
                ),
            decreases keep@.len() - i,
        {
            let ghost before = data@;
            let ghost flags = keep@.take(i + 1);
            let ghost items = self.items().take(i + 1);
            assert(items.drop_last() =~= self.items().take(i as int));
            assert(flags.drop_last() =~= keep@.take(i as int));
            assert(items.last() == stored_datum(self.data@[i as int]));
            if keep[i] {
                let d: Option<T> = match &self.data[i] {
                    Some(t) => Some(t.duplicate()),
                    None => None,
                };
                assert(stored_datum(d) == items.last());
                data.push(d);
                assert(data@.map_values(|d: Option<T>| stored_datum(d)) =~= before.map_values(
                    |d: Option<T>| stored_datum(d),
                ).push(items.last()));
            }
            i += 1;
        }
        assert(self.items().take(i as int) =~= self.items());
        assert(keep@.take(i as int) =~= keep@);
        ScalarArray { data }
    }
}

impl<T: ReadScalar> Array for ScalarArray<T> {
    type RefItem<'a> = T::RefType<'a>;

    open spec fn item_type() -> DataType {
        T::scalar_type()
    }

    open spec fn data(&self) -> Seq<Datum> {
        self.items()
    }

    fn len(&self) -> (r: usize) {
        self.data.len()
    }

    fn value_at<'a>(&'a self, idx: usize) -> (r: Option<T::RefType<'a>>) {
        proof {
            T::lemma_ref_type();
        }
        match &self.data[idx] {
            Some(t) => Some(t.as_scalar_ref()),
            None => None,
        }
    }
}

pub type BoolArray = ScalarArray<bool>;

pub type I16Array = ScalarArray<i16>;

pub type I32Array = ScalarArray<i32>;

pub type I64Array = ScalarArray<i64>;

pub type F32Array = ScalarArray<Float32>;

pub type F64Array = ScalarArray<Float64>;

pub type DecimalArray = ScalarArray<Decimal>;

pub type IntervalArray = ScalarArray<IntervalUnit>;

pub type Utf8Array = ScalarArray<String>;

/// An array of scalars of any one type.
#[derive(Debug)]
pub enum ArrayImpl {
    Bool(BoolArray),
    Int16(I16Array),
    Int32(I32Array),
    Int64(I64Array),
    Float32(F32Array),
    Float64(F64Array),
    Decimal(DecimalArray),
    Interval(IntervalArray),
    Utf8(Utf8Array),
}

impl ArrayImpl {
    /// The type of the scalars.
    pub open spec fn item_type(&self) -> DataType {
        match self {
            ArrayImpl::Bool(_) => DataType::Boolean,
            ArrayImpl::Int16(_) => DataType::Int16,
            ArrayImpl::Int32(_) => DataType::Int32,
            ArrayImpl::Int64(_) => DataType::Int64,
            ArrayImpl::Float32(_) => DataType::Float32,
            ArrayImpl::Float64(_) => DataType::Float64,
            ArrayImpl::Decimal(_) => DataType::Decimal,
            ArrayImpl::Interval(_) => DataType::Interval,
            ArrayImpl::Utf8(_) => DataType::Varchar,
        }
    }

    pub open spec fn data(&self) -> Seq<Datum> {
        match self {
            ArrayImpl::Bool(inner) => inner.items(),
            ArrayImpl::Int16(inner) => inner.items(),
            ArrayImpl::Int32(inner) => inner.items(),
            ArrayImpl::Int64(inner) => inner.items(),
            ArrayImpl::Float32(inner) => inner.items(),
            ArrayImpl::Float64(inner) => inner.items(),
            ArrayImpl::Decimal(inner) => inner.items(),
            ArrayImpl::Interval(inner) => inner.items(),
            ArrayImpl::Utf8(inner) => inner.items(),
        }
    }

    /// What the array holds is valid and of its type.
    pub proof fn lemma_data(&self, i: int)
        requires
            0 <= i < self.data().len(),
        ensures
            self.data()[i] matches Some(v) ==> v.valid() && v.data_type() == self.item_type(),
    {
        match self {
            ArrayImpl::Bool(inner) => inner.lemma_items(i),
            ArrayImpl::Int16(inner) => inner.lemma_items(i),
            ArrayImpl::Int32(inner) => inner.lemma_items(i),
            ArrayImpl::Int64(inner) => inner.lemma_items(i),
            ArrayImpl::Float32(inner) => inner.lemma_items(i),
            ArrayImpl::Float64(inner) => inner.lemma_items(i),
            ArrayImpl::Decimal(inner) => inner.lemma_items(i),
            ArrayImpl::Interval(inner) => inner.lemma_items(i),
            ArrayImpl::Utf8(inner) => inner.lemma_items(i),
        }
    }

    pub fn data_type(&self) -> (r: DataType)
        ensures
            r == self.item_type(),
    {
        match self {
            ArrayImpl::Bool(_) => DataType::Boolean,
            ArrayImpl::Int16(_) => DataType::Int16,
            ArrayImpl::Int32(_) => DataType::Int32,
            ArrayImpl::Int64(_) => DataType::Int64,
            ArrayImpl::Float32(_) => DataType::Float32,
            ArrayImpl::Float64(_) => DataType::Float64,
            ArrayImpl::Decimal(_) => DataType::Decimal,
            ArrayImpl::Interval(_) => DataType::Interval,
            ArrayImpl::Utf8(_) => DataType::Varchar,
        }
    }

    pub fn len(&self) -> (r: usize)
        ensures
            r == self.data().len(),
    {
        match self {
            ArrayImpl::Bool(inner) => inner.len(),
            ArrayImpl::Int16(inner) => inner.len(),
            ArrayImpl::Int32(inner) => inner.len(),
            ArrayImpl::Int64(inner) => inner.len(),
            ArrayImpl::Float32(inner) => inner.len(),
            ArrayImpl::Float64(inner) => inner.len(),
            ArrayImpl::Decimal(inner) => inner.len(),
            ArrayImpl::Interval(inner) => inner.len(),
            ArrayImpl::Utf8(inner) => inner.len(),
        }
    }

    /// The entry at an index, as a scalar that owns what it holds.
    pub fn scalar_value_at(&self, idx: usize) -> (r: Option<ScalarImpl>)
        requires
            idx < self.data().len(),
        ensures
            r is Some <==> self.data()[idx as int] is Some,
            r matches Some(v) ==> self.data()[idx as int] == Some(v@),
    {
        match self {
            ArrayImpl::Bool(inner) => owned_scalar(inner.value_at(idx)),
            ArrayImpl::Int16(inner) => owned_scalar(inner.value_at(idx)),
            ArrayImpl::Int32(inner) => owned_scalar(inner.value_at(idx)),
            ArrayImpl::Int64(inner) => owned_scalar(inner.value_at(idx)),
            ArrayImpl::Float32(inner) => owned_scalar(inner.value_at(idx)),
            ArrayImpl::Float64(inner) => owned_scalar(inner.value_at(idx)),
            ArrayImpl::Decimal(inner) => owned_scalar(inner.value_at(idx)),
            ArrayImpl::Interval(inner) => owned_scalar(inner.value_at(idx)),
            ArrayImpl::Utf8(inner) => owned_scalar(inner.value_at(idx)),
        }
    }

    /// The array of the scalars whose flag is set.
    pub fn filter(&self, keep: &Vec<bool>) -> (r: ArrayImpl)
        requires
            keep@.len() == self.data().len(),
        ensures
            r.data() == select(self.data(), keep@),
            r.item_type() == self.item_type(),
    {
        match self {
            ArrayImpl::Bool(inner) => ArrayImpl::Bool(inner.filter(keep)),
            ArrayImpl::Int16(inner) => ArrayImpl::Int16(inner.filter(keep)),
            ArrayImpl::Int32(inner) => ArrayImpl::Int32(inner.filter(keep)),
            ArrayImpl::Int64(inner) => ArrayImpl::Int64(inner.filter(keep)),
            ArrayImpl::Float32(inner) => ArrayImpl::Float32(inner.filter(keep)),
            ArrayImpl::Float64(inner) => ArrayImpl::Float64(inner.filter(keep)),
            ArrayImpl::Decimal(inner) => ArrayImpl::Decimal(inner.filter(keep)),
            ArrayImpl::Interval(inner) => ArrayImpl::Interval(inner.filter(keep)),
            ArrayImpl::Utf8(inner) => ArrayImpl::Utf8(inner.filter(keep)),
        }
    }

    /// Appends to `buf` the bytes of the entry at an index that the row's hash code covers.
    fn push_hash_bytes(&self, idx: usize, buf: &mut Vec<u8>)
        requires
            idx < self.data().len(),
        ensures
            final(buf)@ == old(buf)@ + datum_bytes(self.data()[idx as int]),
    {
        match self {
            ArrayImpl::Bool(inner) => push_datum_bytes(inner.value_at(idx), buf),
            ArrayImpl::Int16(inner) => push_datum_bytes(inner.value_at(idx), buf),
            ArrayImpl::Int32(inner) => push_datum_bytes(inner.value_at(idx), buf),
            ArrayImpl::Int64(inner) => push_datum_bytes(inner.value_at(idx), buf),
            ArrayImpl::Float32(inner) => push_datum_bytes(inner.value_at(idx), buf),
            ArrayImpl::Float64(inner) => push_datum_bytes(inner.value_at(idx), buf),
            ArrayImpl::Decimal(inner) => push_datum_bytes(inner.value_at(idx), buf),
            ArrayImpl::Interval(inner) => push_datum_bytes(inner.value_at(idx), buf),
            ArrayImpl::Utf8(inner) => push_str_bytes(inner.value_at(idx), buf),
        }
    }
}

fn owned_scalar<'a, D: ScalarRef<'a>>(d: Option<D>) -> (r: Option<ScalarImpl>)
    ensures
        r is Some <==> d is Some,
        r matches Some(v) ==> ref_datum(d) == Some(v@),
{
    match d {
        Some(v) => Some(v.to_scalar_value()),
        None => None,
    }
}

/// What the hash code of a row covers of one entry: a null marker, or a mark and the value.
pub open spec fn datum_bytes(d: Datum) -> Seq<u8> {
    match d {
        None => seq![0u8],
        Some(v) => seq![1u8] + v.bytes(),
    }
}

/// What the hash code of a row covers.
pub open spec fn row_bytes(row: Seq<Datum>) -> Seq<u8>
    decreases row.len(),
{
    if row.len() == 0 {
        Seq::empty()
    } else {
        row_bytes(row.drop_last()) + datum_bytes(row.last())
    }
}

/// Rows that are equal have the same hash code.
pub proof fn law_equal_rows_hash_alike(a: Seq<Datum>, b: Seq<Datum>)
    requires
        normal_row(a) == normal_row(b),
    ensures
        row_bytes(a) == row_bytes(b),
        row_hash(a) == row_hash(b),
    decreases a.len(),
{
    assert(normal_row(a).len() == a.len() && normal_row(b).len() == b.len());
    if a.len() > 0 {
        assert(normal_row(a.drop_last()) =~= normal_row(a).drop_last());
        assert(normal_row(b.drop_last()) =~= normal_row(b).drop_last());
        law_equal_rows_hash_alike(a.drop_last(), b.drop_last());
        assert(normal_row(a).last() == normal_datum(a.last()));
        assert(normal_row(b).last() == normal_datum(b.last()));
    }
}

/// The hash code of a row.
pub open spec fn row_hash(row: Seq<Datum>) -> u64 {
    crc32_of(row_bytes(row)) as u64
}

fn push_datum_bytes<'a, D: HashKeySerialize<'a>>(d: Option<D>, buf: &mut Vec<u8>)
    requires
        D::data_type().key_width() is Some,
    ensures
        final(buf)@ == old(buf)@ + datum_bytes(ref_datum(d)),
{
    let ghost before = buf@;
    match d {
        Some(v) => {
            buf.push(1u8);
            let serialized = v.serialize();
            buf.extend_from_slice(serialized.as_bytes());
            assert(buf@ =~= before + datum_bytes(ref_datum(d)));
        },
        None => {
            buf.push(0u8);
            assert(buf@ =~= before + datum_bytes(ref_datum(d)));
        },
    }
}

fn push_str_bytes<'a>(d: Option<&'a str>, buf: &mut Vec<u8>)
    ensures
        final(buf)@ == old(buf)@ + datum_bytes(ref_datum(d)),
{
    let ghost before = buf@;
    match d {
        Some(v) => {
            buf.push(1u8);
            buf.extend_from_slice(v.as_bytes());
            assert(buf@ =~= before + datum_bytes(ref_datum(d)));
        },
        None => {
            buf.push(0u8);
            assert(buf@ =~= before + datum_bytes(ref_datum(d)));
        },
    }
}

/// What is left of a CRC-32 remainder once so many bits were divided out, lowest bit first.
pub open spec fn crc32_bits(remainder: u32, bits: nat) -> u32
    decreases bits,
{
    if bits == 0 {
        remainder
    } else if remainder & 1 == 1 {
        crc32_bits((remainder >> 1) ^ 0xEDB8_8320, (bits - 1) as nat)
    } else {
        crc32_bits(remainder >> 1, (bits - 1) as nat)
    }
}

/// The CRC-32 remainder of a byte string, before it is complemented.
pub open spec fn crc32_remainder(bytes: Seq<u8>) -> u32
    decreases bytes.len(),
{
    if bytes.len() == 0 {
        0xFFFF_FFFF
    } else {
        crc32_bits(crc32_remainder(bytes.drop_last()) ^ (bytes.last() as u32), 8)
    }
}

/// The CRC-32 checksum of a byte string, as IEEE 802.3 defines it.
pub open spec fn crc32_of(bytes: Seq<u8>) -> u32 {
    crc32_remainder(bytes) ^ 0xFFFF_FFFF
}

/// Calls `crc32fast::hash`, which computes the CRC-32 checksum of IEEE 802.3.
#[verifier::external_body]
fn crc32(bytes: &[u8]) -> (r: u32)
    ensures
        r == crc32_of(bytes@),
{
    crc32fast::hash(bytes)
}

/// What a chunk holds: columns of `capacity` entries each.
pub struct ChunkView {
    pub types: Seq<DataType>,
    pub columns: Seq<Seq<Datum>>,
    pub capacity: nat,
}

impl ChunkView {
    pub open spec fn well_formed(self) -> bool {
        &&& self.types.len() == self.columns.len()
        &&& forall|c: int| #![auto]
            0 <= c < self.columns.len() ==> self.columns[c].len() == self.capacity
        &&& forall|c: int, i: int| #![trigger self.columns[c][i]]
            0 <= c < self.columns.len() && 0 <= i < self.capacity ==> (
            self.columns[c][i] matches Some(v) ==> v.valid() && v.data_type() == self.types[c])
    }

    /// Whether the chunk has all of these columns.
    pub open spec fn has_columns(self, idxes: Seq<usize>) -> bool {
        forall|k: int| #![auto] 0 <= k < idxes.len() ==> idxes[k] < self.columns.len()
    }

    /// The entries of row `i` in these columns.
    pub open spec fn row(self, idxes: Seq<usize>, i: int) -> Seq<Datum> {
        Seq::new(idxes.len(), |k: int| self.columns[idxes[k] as int][i])
    }

    /// The types of these columns.
    pub open spec fn key_types(self, idxes: Seq<usize>) -> Seq<DataType> {
        Seq::new(idxes.len(), |k: int| self.types[idxes[k] as int])
    }

    /// The entries of row `i` in all columns.
    pub open spec fn whole_row(self, i: int) -> Seq<Datum> {
        Seq::new(self.columns.len(), |c: int| self.columns[c][i])
    }

    /// The chunk of the rows whose flag is set.
    pub open spec fn filtered(self, keep: Seq<bool>) -> ChunkView {
        ChunkView {
            types: self.types,
            columns: self.columns.map_values(|c: Seq<Datum>| select(c, keep)),
            capacity: count_set(keep),
        }
    }

    /// The first of these columns that the chunk does not have.
    pub open spec fn first_missing(self, idxes: Seq<usize>) -> Option<usize>
        decreases idxes.len(),
    {
        if idxes.len() == 0 {
            None
        } else if idxes[0] >= self.columns.len() {
            Some(idxes[0])
        } else {
            self.first_missing(idxes.skip(1))
        }
    }
}

/// Nothing is missing exactly when all columns are there.
pub proof fn lemma_first_missing(chunk: ChunkView, idxes: Seq<usize>)
    ensures
        chunk.first_missing(idxes) is None <==> chunk.has_columns(idxes),
    decreases idxes.len(),
{
    if idxes.len() > 0 {
        let rest = idxes.skip(1);
        lemma_first_missing(chunk, rest);
        if chunk.has_columns(rest) {
            assert forall|k: int| 1 <= k < idxes.len() implies idxes[k] < chunk.columns.len() by {
                assert(idxes[k] == rest[k - 1]);
            }
        }
        if chunk.has_columns(idxes) {
            assert forall|k: int| #![auto] 0 <= k < rest.len() implies rest[k]
                < chunk.columns.len() by {
                assert(rest[k] == idxes[k + 1]);
            }
        }
    }
}

/// A missing column is found behind columns that are there.
proof fn lemma_first_missing_at(chunk: ChunkView, idxes: Seq<usize>, k: int)
    requires
        0 <= k < idxes.len(),
        forall|j: int| 0 <= j < k ==> idxes[j] < chunk.columns.len(),
        idxes[k] >= chunk.columns.len(),
    ensures
        chunk.first_missing(idxes) == Some(idxes[k]),
    decreases k,
{
    if k > 0 {
        assert(idxes[0] < chunk.columns.len());
        let rest = idxes.skip(1);
        assert forall|j: int| 0 <= j < k - 1 implies rest[j] < chunk.columns.len() by {
            assert(rest[j] == idxes[j + 1]);
        }
        lemma_first_missing_at(chunk, rest, k - 1);
    }
}

/// A batch of rows, stored by columns.
#[derive(Debug)]
pub struct DataChunk {
    columns: Vec<ArrayImpl>,
    capacity: usize,
}

impl View for DataChunk {
    type V = ChunkView;

    closed spec fn view(&self) -> ChunkView {
        ChunkView {
            types: self.columns@.map_values(|c: ArrayImpl| c.item_type()),
            columns: self.columns@.map_values(|c: ArrayImpl| c.data()),
            capacity: self.capacity as nat,
        }
    }
}

impl DataChunk {
    #[verifier::type_invariant]
    spec fn invariant_holds(self) -> bool {
        forall|c: int| #![auto]
            0 <= c < self.columns@.len() ==> self.columns@[c].data().len() == self.capacity
    }

    /// The chunk of these columns, or an error where one of them has not `capacity` entries.
    pub fn new(columns: Vec<ArrayImpl>, capacity: usize) -> (r: Result<DataChunk, Error>)
        ensures
            r is Ok <==> forall|c: int| #![auto]
                0 <= c < columns@.len() ==> columns@[c].data().len() == capacity,
            r matches Err(e) ==> e == Error::LengthMismatch,
            r matches Ok(chunk) ==> {
                &&& chunk@.well_formed()
                &&& chunk@.types == columns@.map_values(|c: ArrayImpl| c.item_type())
                &&& chunk@.columns == columns@.map_values(|c: ArrayImpl| c.data())
                &&& chunk@.capacity == capacity
            },
    {
        let mut c: usize = 0;
        while c < columns.len()
            invariant
                c <= columns@.len(),
                forall|j: int| #![auto] 0 <= j < c ==> columns@[j].data().len() == capacity,
            decreases columns@.len() - c,
        {
            if columns[c].len() != capacity {
                return Err(Error::LengthMismatch);
            }
            c += 1;
        }
        let chunk = DataChunk { columns, capacity };
        proof {
            lemma_chunk_well_formed(chunk);
        }
        Ok(chunk)
    }

    /// How many rows there are.
    pub fn capacity(&self) -> (r: usize)
        ensures
            self@.well_formed(),
            r == self@.capacity,
    {
        proof {
            use_type_invariant(self);
            lemma_chunk_well_formed(*self);
        }
        self.capacity
    }

    /// How many columns there are.
    pub fn column_count(&self) -> (r: usize)
        ensures
            r == self@.columns.len(),
    {
        self.columns.len()
    }

    pub fn column_at(&self, idx: usize) -> (r: Result<&ArrayImpl, Error>)
        ensures
            self@.well_formed(),
            r is Ok <==> idx < self@.columns.len(),
            r matches Ok(column) ==> {
                &&& column.data() == self@.columns[idx as int]
                &&& column.item_type() == self@.types[idx as int]
            },
            r matches Err(e) ==> e == (Error::ColumnNotFound { index: idx }),
    {
        proof {
            use_type_invariant(self);
            lemma_chunk_well_formed(*self);
        }
        if idx < self.columns.len() {
            Ok(&self.columns[idx])
        } else {
            Err(Error::ColumnNotFound { index: idx })
        }
    }

    /// The chunk of the rows whose flag is set.
    pub fn filter(&self, keep: &Vec<bool>) -> (r: DataChunk)
        requires
            keep@.len() == self@.capacity,
        ensures
            self@.well_formed(),
            r@.well_formed(),
            r@ == self@.filtered(keep@),
    {
        proof {
            use_type_invariant(self);
            lemma_chunk_well_formed(*self);
        }
        let mut capacity: usize = 0;
        let mut i: usize = 0;
        while i < keep.len()
            invariant
                capacity <= i <= keep@.len(),
                capacity == count_set(keep@.take(i as int)),
            decreases keep@.len() - i,
        {
            assert(keep@.take(i + 1).drop_last() =~= keep@.take(i as int));
            if keep[i] {
                capacity += 1;
            }
            i += 1;
        }
        assert(keep@.take(i as int) =~= keep@);
        let mut columns: Vec<ArrayImpl> = Vec::new();
        let mut c: usize = 0;
        while c < self.columns.len()
            invariant
                c <= self.columns@.len(),
                columns@.len() == c,
                keep@.len() == self.capacity,
                capacity == count_set(keep@),
                self.invariant_holds(),
                forall|j: int| #![trigger columns@[j]]
                    0 <= j < c ==> {
                        &&& columns@[j].data() == select(self.columns@[j].data(), keep@)
                        &&& columns@[j].item_type() == self.columns@[j].item_type()
                        &&& columns@[j].data().len() == capacity
                    },
            decreases self.columns@.len() - c,
        {
            proof {
                lemma_select_len(self.columns@[c as int].data(), keep@);
            }
            columns.push(self.columns[c].filter(keep));
            c += 1;
        }
        let r = DataChunk { columns, capacity };
        proof {
            lemma_chunk_well_formed(r);
            assert(r@.types =~= self@.types);
            assert(r@.columns =~= self@.filtered(keep@).columns);
        }
        r
    }

    /// The hash code of each row over these columns.
    pub fn get_hash_values(&self, column_idxes: &[usize]) -> (r: Result<Vec<u64>, Error>)
        ensures
            self@.well_formed(),
            r is Ok <==> self@.has_columns(column_idxes@),
            r matches Ok(codes) ==> {
                &&& codes@.len() == self@.capacity
                &&& forall|i: int| #![auto]
                    0 <= i < codes@.len() ==> codes@[i] == row_hash(self@.row(column_idxes@, i))
            },
            r matches Err(e) ==> self@.first_missing(column_idxes@) matches Some(index) && e == (
            Error::ColumnNotFound { index }),
    {
        proof {
            use_type_invariant(self);
            lemma_chunk_well_formed(*self);
            lemma_first_missing(self@, column_idxes@);
        }
        let mut k: usize = 0;
        while k < column_idxes.len()
            invariant
                k <= column_idxes@.len(),
                forall|j: int| #![auto]
                    0 <= j < k ==> column_idxes@[j] < self@.columns.len(),
                self@.well_formed(),
            decreases column_idxes@.len() - k,
        {
            if column_idxes[k] >= self.columns.len() {
                proof {
                    lemma_first_missing_at(self@, column_idxes@, k as int);
                    lemma_first_missing(self@, column_idxes@);
                }
                return Err(Error::ColumnNotFound { index: column_idxes[k] });
            }
            k += 1;
        }
        assert(self@.has_columns(column_idxes@));
        let mut codes: Vec<u64> = Vec::new();
        let mut i: usize = 0;
        while i < self.capacity
            invariant
                i <= self.capacity,
                codes@.len() == i,
                self@.has_columns(column_idxes@),
                self.invariant_holds(),
                forall|j: int| #![auto]
                    0 <= j < i ==> codes@[j] == row_hash(self@.row(column_idxes@, j)),
            decreases self.capacity - i,
        {
            let code: u64 = self.hash_row(column_idxes, i);
            codes.push(code);
            i += 1;
        }
        Ok(codes)
    }

    /// The hash code of one row over these columns.
    fn hash_row(&self, column_idxes: &[usize], i: usize) -> (r: u64)
        requires
            self@.has_columns(column_idxes@),
            i < self@.capacity,
        ensures
            r == row_hash(self@.row(column_idxes@, i as int)),
    {
        proof {
            use_type_invariant(self);
        }
        let ghost row = self@.row(column_idxes@, i as int);
        let mut buf: Vec<u8> = Vec::new();
        let mut k: usize = 0;
        assert(row.take(0) =~= Seq::empty());
        while k < column_idxes.len()
            invariant
                k <= column_idxes@.len(),
                i < self.capacity,
                self.invariant_holds(),
                self@.has_columns(column_idxes@),
                row == self@.row(column_idxes@, i as int),
                buf@ == row_bytes(row.take(k as int)),
            decreases column_idxes@.len() - k,
        {
            assert(row.take(k + 1).drop_last() =~= row.take(k as int));
            assert(row[k as int] == self.columns@[column_idxes@[k as int] as int].data()[i as int]);
            self.columns[column_idxes[k]].push_hash_bytes(i, &mut buf);
            k += 1;
        }
        assert(row.take(k as int) =~= row);
        crc32(buf.as_slice()) as u64
    }
}

proof fn lemma_chunk_well_formed(chunk: DataChunk)
    requires
        chunk.invariant_holds(),
    ensures
        chunk@.well_formed(),
{
    assert forall|c: int, i: int| #![trigger chunk@.columns[c][i]]
        0 <= c < chunk@.columns.len() && 0 <= i < chunk@.capacity implies (
    chunk@.columns[c][i] matches Some(v) ==> v.valid() && v.data_type() == chunk@.types[c]) by {
        chunk.columns@[c].lemma_data(i);
    }
}

} // verus!
