//! What hash keys are for: rows have equal keys exactly when they are equal.

use vstd::arithmetic::power;
use vstd::prelude::*;
use vstd::std_specs::cmp::PartialEqSpec;

use crate::array;
use crate::array::{DataChunk, Datum};
use crate::chunk_laws;
use crate::error::Error;
use crate::hash_map;
use crate::hash_map::{
    FixedSizeKey, FixedSizeKeySerializer, HashKey, HashKeySerializer, SerializedKey,
    SerializedKeySerializer, MAX_FIXED_SIZE_KEY_ELEMENTS,
};
use crate::types;
use crate::types::DataType;
use crate::value_laws;

verus! {

/// What has been collected of one row after its first `k` columns.
spec fn folded<S: HashKeySerializer>(
    s: S::State,
    key_types: Seq<DataType>,
    row: Seq<Datum>,
    k: nat,
) -> S::State
    decreases k,
{
    if k == 0 {
        s
    } else {
        let before = folded::<S>(s, key_types, row, (k - 1) as nat);
        S::appended(before, key_types[k - 1], row[k - 1]).0
    }
}

/// A column that was appended without an error was appended to each row alone.
proof fn lemma_rows_are_independent<S: HashKeySerializer>(
    states: Seq<S::State>,
    t: DataType,
    column: Seq<Datum>,
    n: nat,
    i: int,
)
    requires
        hash_map::appended_rows::<S>(states, t, column, n).1 is Ok,
        0 <= i < n <= states.len(),
    ensures
        hash_map::appended_rows::<S>(states, t, column, n).0.len() == states.len(),
        hash_map::appended_rows::<S>(states, t, column, n).0[i] == S::appended(
            states[i],
            t,
            column[i],
        ).0,
        S::appended(states[i], t, column[i]).1 is Ok,
        hash_map::appended_rows::<S>(states, t, column, i as nat).1 is Ok,
    decreases n,
{
    let m = (n - 1) as nat;
    hash_map::lemma_appended_rows_frame::<S>(states, t, column, m);
    if i < m {
        lemma_rows_are_independent::<S>(states, t, column, m, i);
    }
}

/// Columns that were appended without an error were appended to each row alone.
proof fn lemma_row_state<S: HashKeySerializer>(
    states: Seq<S::State>,
    chunk: array::ChunkView,
    idxes: Seq<usize>,
    k: nat,
    i: int,
)
    requires
        chunk.well_formed(),
        chunk.has_columns(idxes),
        states.len() == chunk.capacity,
        k <= idxes.len(),
        hash_map::appended_columns::<S>(states, chunk, idxes, k).1 is Ok,
        0 <= i < chunk.capacity,
    ensures
        hash_map::appended_columns::<S>(states, chunk, idxes, k).0.len() == chunk.capacity,
        hash_map::appended_columns::<S>(states, chunk, idxes, k).0[i] == folded::<S>(
            states[i],
            chunk.key_types(idxes),
            chunk.row(idxes, i),
            k,
        ),
        forall|j: nat|
            j < k ==> S::appended(
                #[trigger] folded::<S>(
                    states[i],
                    chunk.key_types(idxes),
                    chunk.row(idxes, i),
                    j,
                ),
                chunk.key_types(idxes)[j as int],
                chunk.row(idxes, i)[j as int],
            ).1 is Ok,
    decreases k,
{
    if k > 0 {
        let m = (k - 1) as nat;
        lemma_row_state::<S>(states, chunk, idxes, m, i);
        let before = hash_map::appended_columns::<S>(states, chunk, idxes, m).0;
        let c = idxes[k - 1] as int;
        assert(idxes[k - 1] < chunk.columns.len());
        lemma_rows_are_independent::<S>(
            before,
            chunk.types[c],
            chunk.columns[c],
            chunk.capacity,
            i,
        );
        assert(chunk.row(idxes, i)[m as int] == chunk.columns[c][i]);
    }
}

/// A prefix of columns that were appended without an error had none either.
proof fn lemma_prefix_ok<S: HashKeySerializer>(
    states: Seq<S::State>,
    chunk: array::ChunkView,
    idxes: Seq<usize>,
    j: nat,
    k: nat,
)
    requires
        j <= k,
        hash_map::appended_columns::<S>(states, chunk, idxes, k).1 is Ok,
    ensures
        hash_map::appended_columns::<S>(states, chunk, idxes, j).1 is Ok,
    decreases k,
{
    if j < k {
        lemma_prefix_ok::<S>(states, chunk, idxes, j, (k - 1) as nat);
    }
}

/// The bytes of the first `k` columns of a row in a fixed-size key.
pub open spec fn key_bytes(key_types: Seq<DataType>, row: Seq<Datum>, k: nat) -> Seq<u8>
    decreases k,
{
    if k == 0 {
        Seq::empty()
    } else {
        key_bytes(key_types, row, (k - 1) as nat) + hash_map::value_or_default(
            key_types[k - 1],
            row[k - 1],
        ).bytes()
    }
}

/// Which of the first `k` columns of a row are not null.
pub open spec fn present_flags(row: Seq<Datum>, k: nat) -> Seq<bool> {
    Seq::new(k, |j: int| row[j] is Some)
}

/// The width of the first `k` columns in a fixed-size key.
pub open spec fn key_width(key_types: Seq<DataType>, k: nat) -> nat
    decreases k,
{
    if k == 0 {
        0
    } else {
        key_width(key_types, (k - 1) as nat) + key_types[k - 1].key_width()->0
    }
}

/// Whether row and types go together.
spec fn typed(key_types: Seq<DataType>, row: Seq<Datum>) -> bool {
    &&& key_types.len() == row.len()
    &&& forall|j: int| #![trigger row[j]]
        0 <= j < row.len() ==> (row[j] matches Some(v) ==> v.valid() && v.data_type()
            == key_types[j])
}

proof fn lemma_default_typed(t: DataType)
    ensures
        t.default_value().valid(),
        t.default_value().data_type() == t,
{
}

/// The bytes of columns of fixed size fill their width.
proof fn lemma_key_bytes_len(key_types: Seq<DataType>, row: Seq<Datum>, k: nat)
    requires
        typed(key_types, row),
        k <= row.len(),
        forall|j: int| 0 <= j < k ==> (#[trigger] key_types[j]).key_width() is Some,
    ensures
        key_bytes(key_types, row, k).len() == key_width(key_types, k),
    decreases k,
{
    if k > 0 {
        lemma_key_bytes_len(key_types, row, (k - 1) as nat);
        let t = key_types[k - 1];
        lemma_default_typed(t);
        assert(row[k - 1] matches Some(v) ==> v.data_type() == t);
        types::lemma_value_bytes_len(hash_map::value_or_default(t, row[k - 1]));
    }
}

/// Rows of the same types with the same bytes and the same nulls are equal.
proof fn lemma_key_bytes_injective(
    key_types: Seq<DataType>,
    a: Seq<Datum>,
    b: Seq<Datum>,
    k: nat,
)
    requires
        typed(key_types, a),
        typed(key_types, b),
        k <= a.len(),
        forall|j: int| 0 <= j < k ==> (#[trigger] key_types[j]).key_width() is Some,
        key_bytes(key_types, a, k) == key_bytes(key_types, b, k),
        present_flags(a, k) == present_flags(b, k),
    ensures
        forall|j: int|
            0 <= j < k ==> array::normal_datum(#[trigger] a[j]) == array::normal_datum(b[j]),
    decreases k,
{
    if k > 0 {
        let m = (k - 1) as nat;
        let t = key_types[m as int];
        lemma_key_bytes_len(key_types, a, m);
        lemma_key_bytes_len(key_types, b, m);
        let w = key_width(key_types, m) as int;
        let va = hash_map::value_or_default(t, a[m as int]);
        let vb = hash_map::value_or_default(t, b[m as int]);
        assert(key_bytes(key_types, a, k).take(w) =~= key_bytes(key_types, a, m));
        assert(key_bytes(key_types, b, k).take(w) =~= key_bytes(key_types, b, m));
        assert(key_bytes(key_types, a, k).skip(w) =~= va.bytes());
        assert(key_bytes(key_types, b, k).skip(w) =~= vb.bytes());
        assert forall|j: int| 0 <= j < k implies (a[j] is Some) == (b[j] is Some) by {
            assert(present_flags(a, k)[j] == (a[j] is Some));
            assert(present_flags(b, k)[j] == (b[j] is Some));
        }
        assert(present_flags(a, m) =~= present_flags(b, m));
        lemma_key_bytes_injective(key_types, a, b, m);
        lemma_default_typed(t);
        assert(a[m as int] matches Some(v) ==> v.valid() && v.data_type() == t);
        assert(b[m as int] matches Some(v) ==> v.valid() && v.data_type() == t);
        types::law_value_bytes_identify_values(va, vb);
    }
}

/// Rows that are equal have the same bytes, the same values and the same nulls.
proof fn lemma_equal_rows(key_types: Seq<DataType>, a: Seq<Datum>, b: Seq<Datum>, k: nat)
    requires
        array::normal_row(a) == array::normal_row(b),
        a.len() == b.len(),
        k <= a.len(),
    ensures
        key_bytes(key_types, a, k) == key_bytes(key_types, b, k),
        present_flags(a, k) == present_flags(b, k),
        hash_map::normal_values(key_values(key_types, a, k)) == hash_map::normal_values(
            key_values(key_types, b, k),
        ),
    decreases k,
{
    assert forall|x: int| 0 <= x < k implies array::normal_datum(#[trigger] a[x])
        == array::normal_datum(b[x]) by {
        assert(array::normal_row(a)[x] == array::normal_datum(a[x]));
        assert(array::normal_row(b)[x] == array::normal_datum(b[x]));
    }
    if k > 0 {
        lemma_equal_rows(key_types, a, b, (k - 1) as nat);
        assert(array::normal_datum(a[k - 1]) == array::normal_datum(b[k - 1]));
    }
    assert(present_flags(a, k) =~= present_flags(b, k));
    assert(hash_map::normal_values(key_values(key_types, a, k)) =~= hash_map::normal_values(
        key_values(key_types, b, k),
    ));
}

/// What a fixed-size key has collected of a row after `k` columns.
proof fn lemma_fixed_folded<const N: usize>(
    hash_code: u64,
    key_types: Seq<DataType>,
    row: Seq<Datum>,
    k: nat,
)
    requires
        forall|j: nat|
            j < k ==> FixedSizeKeySerializer::<N>::appended(
                #[trigger] folded::<FixedSizeKeySerializer<N>>(
                    FixedSizeKeySerializer::<N>::initial(hash_code),
                    key_types,
                    row,
                    j,
                ),
                key_types[j as int],
                row[j as int],
            ).1 is Ok,
    ensures
        folded::<FixedSizeKeySerializer<N>>(
            FixedSizeKeySerializer::<N>::initial(hash_code),
            key_types,
            row,
            k,
        ) == (hash_map::FixedSizeKeyState {
            hash_code,
            present: present_flags(row, k),
            bytes: key_bytes(key_types, row, k),
        }),
        k <= MAX_FIXED_SIZE_KEY_ELEMENTS,
        key_bytes(key_types, row, k).len() <= N,
    decreases k,
{
    let s = FixedSizeKeySerializer::<N>::initial(hash_code);
    if k > 0 {
        let m = (k - 1) as nat;
        lemma_fixed_folded::<N>(hash_code, key_types, row, m);
        let before = folded::<FixedSizeKeySerializer<N>>(s, key_types, row, m);
        assert(present_flags(row, k) =~= present_flags(row, m).push(row[m as int] is Some));
    } else {
        assert(present_flags(row, 0) =~= Seq::empty());
    }
}

/// The types of the columns of fixed-size keys that were built have a fixed size.
proof fn lemma_fixed_types<const N: usize>(
    chunk: array::ChunkView,
    idxes: Seq<usize>,
    i: int,
    k: int,
)
    requires
        chunk.well_formed(),
        chunk.has_columns(idxes),
        hash_map::accepts_chunk::<FixedSizeKeySerializer<N>>(chunk, idxes),
        hash_map::appended_columns::<FixedSizeKeySerializer<N>>(
            hash_map::initial_states::<FixedSizeKeySerializer<N>>(
                hash_map::row_hashes(chunk, idxes),
            ),
            chunk,
            idxes,
            idxes.len(),
        ).1 is Ok,
        0 <= i < chunk.capacity,
        0 <= k < idxes.len(),
    ensures
        chunk.key_types(idxes)[k].key_width() is Some,
{
    let states = hash_map::initial_states::<FixedSizeKeySerializer<N>>(
        hash_map::row_hashes(chunk, idxes),
    );
    let key_types = chunk.key_types(idxes);
    let row = chunk.row(idxes, i);
    let c = idxes[k] as int;
    assert(idxes[k] < chunk.columns.len());
    lemma_prefix_ok::<FixedSizeKeySerializer<N>>(
        states,
        chunk,
        idxes,
        (k + 1) as nat,
        idxes.len(),
    );
    lemma_prefix_ok::<FixedSizeKeySerializer<N>>(states, chunk, idxes, k as nat, idxes.len());
    lemma_row_state::<FixedSizeKeySerializer<N>>(states, chunk, idxes, (k + 1) as nat, i);
    lemma_row_state::<FixedSizeKeySerializer<N>>(states, chunk, idxes, k as nat, i);
    let before = hash_map::appended_columns::<FixedSizeKeySerializer<N>>(
        states,
        chunk,
        idxes,
        k as nat,
    ).0;
    lemma_rows_are_independent::<FixedSizeKeySerializer<N>>(
        before,
        chunk.types[c],
        chunk.columns[c],
        chunk.capacity,
        i,
    );
    lemma_fixed_folded::<N>(hash_map::row_hashes(chunk, idxes)[i], key_types, row, (k + 1) as nat);
    lemma_fixed_folded::<N>(hash_map::row_hashes(chunk, idxes)[i], key_types, row, k as nat);
    assert(FixedSizeKeySerializer::<N>::accepts(before[i], chunk.types[c]));
}

proof fn lemma_rows_typed(chunk: array::ChunkView, idxes: Seq<usize>, i: int)
    requires
        chunk.well_formed(),
        chunk.has_columns(idxes),
        0 <= i < chunk.capacity,
    ensures
        typed(chunk.key_types(idxes), chunk.row(idxes, i)),
{
    assert forall|j: int| #![trigger chunk.row(idxes, i)[j]]
        0 <= j < idxes.len() implies (chunk.row(idxes, i)[j] matches Some(v) ==> v.valid()
        && v.data_type() == chunk.key_types(idxes)[j]) by {
        assert(idxes[j] < chunk.columns.len());
        assert(chunk.columns[idxes[j] as int][i] matches Some(v) ==> v.valid());
    }
}

/// What the key of row `i` holds.
proof fn lemma_fixed_key<const N: usize>(
    chunk: array::ChunkView,
    idxes: Seq<usize>,
    keys: Vec<FixedSizeKey<N>>,
    i: int,
)
    requires
        chunk.well_formed(),
        chunk.has_columns(idxes),
        hash_map::built::<FixedSizeKeySerializer<N>>(chunk, idxes, Ok(keys)),
        0 <= i < chunk.capacity,
    ensures
        keys@.len() == chunk.capacity,
        FixedSizeKeySerializer::<N>::makes(
            hash_map::FixedSizeKeyState {
                hash_code: array::row_hash(chunk.row(idxes, i)),
                present: present_flags(chunk.row(idxes, i), idxes.len()),
                bytes: key_bytes(chunk.key_types(idxes), chunk.row(idxes, i), idxes.len()),
            },
            keys@[i],
        ),
        idxes.len() <= MAX_FIXED_SIZE_KEY_ELEMENTS,
        key_bytes(chunk.key_types(idxes), chunk.row(idxes, i), idxes.len()).len() <= N,
{
    array::lemma_first_missing(chunk, idxes);
    let states = hash_map::initial_states::<FixedSizeKeySerializer<N>>(
        hash_map::row_hashes(chunk, idxes),
    );
    lemma_row_state::<FixedSizeKeySerializer<N>>(states, chunk, idxes, idxes.len(), i);
    lemma_fixed_folded::<N>(
        hash_map::row_hashes(chunk, idxes)[i],
        chunk.key_types(idxes),
        chunk.row(idxes, i),
        idxes.len(),
    );
    assert(keys@[i] == keys@[i]);
}

/// Two rows, of one chunk or of two, have equal fixed-size keys over columns of the same types
/// exactly when they are equal in those columns, decimals by their numbers and null to null alone;
/// and then they have the same hash code. The hash code of a key is that of its row.
pub proof fn law_fixed_size_keys_identify_rows<const N: usize>(
    chunk: array::ChunkView,
    idxes: Seq<usize>,
    keys: Vec<FixedSizeKey<N>>,
    i: int,
    other_chunk: array::ChunkView,
    other_idxes: Seq<usize>,
    other_keys: Vec<FixedSizeKey<N>>,
    j: int,
)
    requires
        chunk.well_formed(),
        other_chunk.well_formed(),
        chunk.key_types(idxes) == other_chunk.key_types(other_idxes),
        hash_map::accepts_chunk::<FixedSizeKeySerializer<N>>(chunk, idxes),
        hash_map::built::<FixedSizeKeySerializer<N>>(chunk, idxes, Ok(keys)),
        hash_map::built::<FixedSizeKeySerializer<N>>(other_chunk, other_idxes, Ok(other_keys)),
        0 <= i < chunk.capacity,
        0 <= j < other_chunk.capacity,
    ensures
        keys@.len() == chunk.capacity,
        other_keys@.len() == other_chunk.capacity,
        keys@[i].eq_spec(&other_keys@[j]) <==> array::normal_row(chunk.row(idxes, i))
            == array::normal_row(other_chunk.row(other_idxes, j)),
        keys@[i].eq_spec(&other_keys@[j]) ==> keys@[i].hash_code() == other_keys@[j].hash_code(),
        keys@[i].hash_code() == array::row_hash(chunk.row(idxes, i)),
{
    array::lemma_first_missing(chunk, idxes);
    array::lemma_first_missing(other_chunk, other_idxes);
    lemma_fixed_key(chunk, idxes, keys, i);
    lemma_fixed_key(other_chunk, other_idxes, other_keys, j);
    let key_types = chunk.key_types(idxes);
    let a = chunk.row(idxes, i);
    let b = other_chunk.row(other_idxes, j);
    let k = idxes.len();
    assert(k == key_types.len() == other_idxes.len());
    let left = keys@[i];
    let right = other_keys@[j];
    if array::normal_row(a) == array::normal_row(b) {
        array::law_equal_rows_hash_alike(a, b);
        lemma_equal_rows(key_types, a, b, k);
        assert forall|x: int| 0 <= x < 8 implies hash_map::bit(left.null_bitmap(), x)
            == hash_map::bit(right.null_bitmap(), x) by {}
        hash_map::lemma_same_bits(left.null_bitmap(), right.null_bitmap());
    }
    if left.eq_spec(&right) {
        assert forall|x: int| 0 <= x < k implies (#[trigger] key_types[x]).key_width() is Some by {
            lemma_fixed_types::<N>(chunk, idxes, i, x);
        }
        lemma_rows_typed(chunk, idxes, i);
        lemma_rows_typed(other_chunk, other_idxes, j);
        lemma_key_bytes_len(key_types, a, k);
        lemma_key_bytes_len(key_types, b, k);
        let w = key_width(key_types, k) as int;
        assert(left.key().take(w) =~= key_bytes(key_types, a, k));
        assert(right.key().take(w) =~= key_bytes(key_types, b, k));
        assert forall|x: int| 0 <= x < k implies present_flags(a, k)[x] == present_flags(
            b,
            k,
        )[x] by {
            assert(hash_map::bit(left.null_bitmap(), x) == hash_map::bit(right.null_bitmap(), x));
        }
        assert(present_flags(a, k) =~= present_flags(b, k));
        lemma_key_bytes_injective(key_types, a, b, k);
        assert(array::normal_row(a) =~= array::normal_row(b));
    }
}

/// What a serialized key has collected of a row after `k` columns.
proof fn lemma_serialized_folded(
    hash_code: u64,
    key_types: Seq<DataType>,
    row: Seq<Datum>,
    k: nat,
)
    ensures
        folded::<SerializedKeySerializer>(
            SerializedKeySerializer::initial(hash_code),
            key_types,
            row,
            k,
        ) == (hash_map::SerializedKeyState {
            hash_code,
            present: present_flags(row, k),
            values: key_values(key_types, row, k),
        }),
    decreases k,
{
    if k > 0 {
        let m = (k - 1) as nat;
        lemma_serialized_folded(hash_code, key_types, row, m);
        assert(present_flags(row, k) =~= present_flags(row, m).push(row[m as int] is Some));
        assert(key_values(key_types, row, k) =~= key_values(key_types, row, m).push(
            hash_map::value_or_default(key_types[m as int], row[m as int]),
        ));
    } else {
        assert(present_flags(row, 0) =~= Seq::empty());
        assert(key_values(key_types, row, 0) =~= Seq::empty());
    }
}

/// What stands in a serialized key for the first `k` columns of a row.
pub open spec fn key_values(key_types: Seq<DataType>, row: Seq<Datum>, k: nat) -> Seq<
    types::Value,
> {
    Seq::new(k, |j: int| hash_map::value_or_default(key_types[j], row[j]))
}

/// A column to which every row would say yes is appended without an error.
proof fn lemma_rows_all_ok<S: HashKeySerializer>(
    states: Seq<S::State>,
    t: DataType,
    column: Seq<Datum>,
    n: nat,
)
    requires
        n <= states.len(),
        forall|i: int| 0 <= i < n ==> S::appended(#[trigger] states[i], t, column[i]).1 is Ok,
    ensures
        hash_map::appended_rows::<S>(states, t, column, n).1 is Ok,
    decreases n,
{
    if n > 0 {
        let m = (n - 1) as nat;
        lemma_rows_all_ok::<S>(states, t, column, m);
        hash_map::lemma_appended_rows_frame::<S>(states, t, column, m);
        assert(S::appended(states[m as int], t, column[m as int]).1 is Ok);
    }
}

/// A column that the first row refuses fails as that row does.
proof fn lemma_first_row_fails<S: HashKeySerializer>(
    states: Seq<S::State>,
    t: DataType,
    column: Seq<Datum>,
    n: nat,
)
    requires
        0 < n <= states.len(),
        S::appended(states[0], t, column[0]).1 is Err,
    ensures
        hash_map::appended_rows::<S>(states, t, column, n).1 == S::appended(
            states[0],
            t,
            column[0],
        ).1,
    decreases n,
{
    if n > 1 {
        lemma_first_row_fails::<S>(states, t, column, (n - 1) as nat);
    } else {
        assert(hash_map::appended_rows::<S>(states, t, column, 0) == (
            states,
            Ok::<(), Error>(()),
        ));
    }
}

/// A serialized key takes every column.
proof fn lemma_serialized_ok(
    states: Seq<hash_map::SerializedKeyState>,
    chunk: array::ChunkView,
    idxes: Seq<usize>,
    k: nat,
)
    requires
        chunk.well_formed(),
        chunk.has_columns(idxes),
        states.len() == chunk.capacity,
        k <= idxes.len(),
    ensures
        hash_map::appended_columns::<SerializedKeySerializer>(states, chunk, idxes, k).1 is Ok,
        hash_map::appended_columns::<SerializedKeySerializer>(states, chunk, idxes, k).0.len()
            == states.len(),
    decreases k,
{
    if k > 0 {
        let m = (k - 1) as nat;
        lemma_serialized_ok(states, chunk, idxes, m);
        let before = hash_map::appended_columns::<SerializedKeySerializer>(
            states,
            chunk,
            idxes,
            m,
        ).0;
        assert(idxes[k - 1] < chunk.columns.len());
        let c = idxes[k - 1] as int;
        lemma_rows_all_ok::<SerializedKeySerializer>(
            before,
            chunk.types[c],
            chunk.columns[c],
            chunk.capacity,
        );
        hash_map::lemma_appended_rows_frame::<SerializedKeySerializer>(
            before,
            chunk.types[c],
            chunk.columns[c],
            chunk.capacity,
        );
    }
}

/// Serialized keys can be asked for of any columns, whatever their number and types.
pub proof fn law_serialized_keys_accept_all(chunk: array::ChunkView, idxes: Seq<usize>)
    ensures
        hash_map::accepts_chunk::<SerializedKeySerializer>(chunk, idxes),
{
}

/// Serialized keys can be built of any columns that a chunk has, whatever their number and types.
pub proof fn law_serialized_keys_are_built(
    chunk: array::ChunkView,
    idxes: Seq<usize>,
    result: Result<Vec<SerializedKey>, Error>,
)
    requires
        chunk.well_formed(),
        hash_map::built::<SerializedKeySerializer>(chunk, idxes, result),
    ensures
        result is Ok <==> chunk.has_columns(idxes),
{
    array::lemma_first_missing(chunk, idxes);
    if chunk.has_columns(idxes) {
        let states = hash_map::initial_states::<SerializedKeySerializer>(
            hash_map::row_hashes(chunk, idxes),
        );
        lemma_serialized_ok(states, chunk, idxes, idxes.len());
    }
}

/// What the serialized key of row `i` holds.
proof fn lemma_serialized_key(
    chunk: array::ChunkView,
    idxes: Seq<usize>,
    keys: Vec<SerializedKey>,
    i: int,
)
    requires
        chunk.well_formed(),
        hash_map::built::<SerializedKeySerializer>(chunk, idxes, Ok(keys)),
        0 <= i < chunk.capacity,
    ensures
        keys@.len() == chunk.capacity,
        keys@[i].hash_code() == array::row_hash(chunk.row(idxes, i)),
        keys@[i].present() == present_flags(chunk.row(idxes, i), idxes.len()),
        keys@[i].values() == key_values(chunk.key_types(idxes), chunk.row(idxes, i), idxes.len()),
{
    array::lemma_first_missing(chunk, idxes);
    let hashes = hash_map::row_hashes(chunk, idxes);
    let states = hash_map::initial_states::<SerializedKeySerializer>(hashes);
    lemma_row_state::<SerializedKeySerializer>(states, chunk, idxes, idxes.len(), i);
    lemma_serialized_folded(
        hashes[i],
        chunk.key_types(idxes),
        chunk.row(idxes, i),
        idxes.len(),
    );
    assert(keys@[i] == keys@[i]);
}

/// Two rows, of one chunk or of two, have equal serialized keys over columns of the same types
/// exactly when they are equal in those columns, decimals by their numbers and null to null alone;
/// and then they have the same hash code. The hash code of a key is that of its row.
pub proof fn law_serialized_keys_identify_rows(
    chunk: array::ChunkView,
    idxes: Seq<usize>,
    keys: Vec<SerializedKey>,
    i: int,
    other_chunk: array::ChunkView,
    other_idxes: Seq<usize>,
    other_keys: Vec<SerializedKey>,
    j: int,
)
    requires
        chunk.well_formed(),
        other_chunk.well_formed(),
        chunk.key_types(idxes) == other_chunk.key_types(other_idxes),
        hash_map::built::<SerializedKeySerializer>(chunk, idxes, Ok(keys)),
        hash_map::built::<SerializedKeySerializer>(other_chunk, other_idxes, Ok(other_keys)),
        0 <= i < chunk.capacity,
        0 <= j < other_chunk.capacity,
    ensures
        keys@.len() == chunk.capacity,
        other_keys@.len() == other_chunk.capacity,
        keys@[i].eq_spec(&other_keys@[j]) <==> array::normal_row(chunk.row(idxes, i))
            == array::normal_row(other_chunk.row(other_idxes, j)),
        keys@[i].eq_spec(&other_keys@[j]) ==> keys@[i].hash_code() == other_keys@[j].hash_code(),
        keys@[i].hash_code() == array::row_hash(chunk.row(idxes, i)),
{
    lemma_serialized_key(chunk, idxes, keys, i);
    lemma_serialized_key(other_chunk, other_idxes, other_keys, j);
    let key_types = chunk.key_types(idxes);
    let a = chunk.row(idxes, i);
    let b = other_chunk.row(other_idxes, j);
    let k = idxes.len();
    assert(k == key_types.len() == other_idxes.len());
    let av = hash_map::normal_values(key_values(key_types, a, k));
    let bv = hash_map::normal_values(key_values(key_types, b, k));
    if keys@[i].eq_spec(&other_keys@[j]) {
        assert forall|x: int| 0 <= x < k implies array::normal_datum(#[trigger] a[x])
            == array::normal_datum(b[x]) by {
            assert(present_flags(a, k)[x] == (a[x] is Some));
            assert(present_flags(b, k)[x] == (b[x] is Some));
            assert(av[x] == bv[x]);
        }
        assert(array::normal_row(a) =~= array::normal_row(b));
    }
    if array::normal_row(a) == array::normal_row(b) {
        array::law_equal_rows_hash_alike(a, b);
        lemma_equal_rows(key_types, a, b, k);
    }
}

proof fn lemma_key_width_monotone(key_types: Seq<DataType>, j: nat, k: nat)
    requires
        j <= k,
        forall|x: int| 0 <= x < k ==> (#[trigger] key_types[x]).key_width() is Some,
    ensures
        key_width(key_types, j) <= key_width(key_types, k),
    decreases k,
{
    if j < k {
        lemma_key_width_monotone(key_types, j, (k - 1) as nat);
        assert(key_types[k - 1].key_width() is Some);
    }
}

/// How building fixed-size keys of `n` bytes of `k` columns goes, where there are rows.
pub open spec fn fixed_size_outcome(key_types: Seq<DataType>, k: nat, n: nat) -> Result<
    (),
    Error,
> {
    let fitting: nat = if k <= MAX_FIXED_SIZE_KEY_ELEMENTS {
        k
    } else {
        MAX_FIXED_SIZE_KEY_ELEMENTS as nat
    };
    if key_width(key_types, fitting) > n {
        Err(Error::KeyTooLong)
    } else if k > MAX_FIXED_SIZE_KEY_ELEMENTS {
        Err(Error::TooManyColumns)
    } else {
        Ok(())
    }
}

proof fn lemma_fixed_outcome<const N: usize>(
    chunk: array::ChunkView,
    idxes: Seq<usize>,
    k: nat,
)
    requires
        chunk.well_formed(),
        chunk.has_columns(idxes),
        chunk.capacity > 0,
        k <= idxes.len(),
        forall|x: int|
            0 <= x < idxes.len() ==> (#[trigger] chunk.key_types(idxes)[x]).key_width() is Some,
    ensures
        hash_map::appended_columns::<FixedSizeKeySerializer<N>>(
            hash_map::initial_states::<FixedSizeKeySerializer<N>>(
                hash_map::row_hashes(chunk, idxes),
            ),
            chunk,
            idxes,
            k,
        ).1 == fixed_size_outcome(chunk.key_types(idxes), k, N as nat),
    decreases k,
{
    let hashes = hash_map::row_hashes(chunk, idxes);
    let states = hash_map::initial_states::<FixedSizeKeySerializer<N>>(hashes);
    let key_types = chunk.key_types(idxes);
    if k > 0 {
        let m = (k - 1) as nat;
        lemma_fixed_outcome::<N>(chunk, idxes, m);
        lemma_key_width_monotone(key_types, m, k);
        let (before, prior) = hash_map::appended_columns::<FixedSizeKeySerializer<N>>(
            states,
            chunk,
            idxes,
            m,
        );
        if prior is Ok {
            assert(idxes[m as int] < chunk.columns.len());
            let c = idxes[m as int] as int;
            let t = chunk.types[c];
            let column = chunk.columns[c];
            assert(key_types[m as int] == t);
            assert forall|i: int| 0 <= i < chunk.capacity implies {
                let r = FixedSizeKeySerializer::<N>::appended(#[trigger] before[i], t, column[i]).1;
                &&& r is Ok <==> fixed_size_outcome(key_types, k, N as nat) is Ok
                &&& r is Err ==> r == fixed_size_outcome(key_types, k, N as nat)
            } by {
                lemma_row_state::<FixedSizeKeySerializer<N>>(states, chunk, idxes, m, i);
                lemma_fixed_folded::<N>(hashes[i], key_types, chunk.row(idxes, i), m);
                lemma_rows_typed(chunk, idxes, i);
                lemma_key_bytes_len(key_types, chunk.row(idxes, i), m);
                lemma_default_typed(t);
                assert(chunk.row(idxes, i)[m as int] == column[i]);
                assert(column[i] matches Some(v) ==> v.data_type() == t);
                types::lemma_value_bytes_len(hash_map::value_or_default(t, column[i]));
            }
            lemma_row_state::<FixedSizeKeySerializer<N>>(states, chunk, idxes, m, 0);
            if fixed_size_outcome(key_types, k, N as nat) is Ok {
                lemma_rows_all_ok::<FixedSizeKeySerializer<N>>(before, t, column, chunk.capacity);
            } else {
                assert(before[0] == before[0]);
                lemma_first_row_fails::<FixedSizeKeySerializer<N>>(
                    before,
                    t,
                    column,
                    chunk.capacity,
                );
            }
        } else {
            hash_map::lemma_appended_columns_stuck::<FixedSizeKeySerializer<N>>(
                states,
                chunk,
                idxes,
                m,
                k,
            );
        }
    }
}

proof fn lemma_no_rows_ok<S: HashKeySerializer>(
    chunk: array::ChunkView,
    idxes: Seq<usize>,
    states: Seq<S::State>,
    k: nat,
)
    requires
        chunk.has_columns(idxes),
        chunk.capacity == 0,
        k <= idxes.len(),
    ensures
        hash_map::appended_columns::<S>(states, chunk, idxes, k).1 is Ok,
    decreases k,
{
    if k > 0 {
        lemma_no_rows_ok::<S>(chunk, idxes, states, (k - 1) as nat);
        assert(idxes[k - 1] < chunk.columns.len());
    }
}

/// Fixed-size keys can be asked for of any columns whose types have a fixed size, whatever their
/// number.
pub proof fn law_fixed_size_keys_accept_fixed_sizes<const N: usize>(
    chunk: array::ChunkView,
    idxes: Seq<usize>,
)
    requires
        chunk.has_columns(idxes) ==> forall|x: int|
            0 <= x < idxes.len() ==> (#[trigger] chunk.key_types(idxes)[x]).key_width() is Some,
    ensures
        hash_map::accepts_chunk::<FixedSizeKeySerializer<N>>(chunk, idxes),
{
    assert forall|k: int|
        #![trigger idxes[k]]
        chunk.has_columns(idxes) && 0 <= k < idxes.len() && idxes[k]
            < chunk.columns.len() implies chunk.types[idxes[k] as int].key_width() is Some by {
        assert(chunk.key_types(idxes)[k].key_width() is Some);
    }
}

/// Fixed-size keys can be built of columns of fixed-size types exactly when there are at most eight
/// of them and their widths together are at most the size of the key, or when there is no row. Else
/// the error says which limit was hit first.
pub proof fn law_fixed_size_keys_are_built<const N: usize>(
    chunk: array::ChunkView,
    idxes: Seq<usize>,
    result: Result<Vec<FixedSizeKey<N>>, Error>,
)
    requires
        chunk.well_formed(),
        chunk.has_columns(idxes),
        forall|x: int|
            0 <= x < idxes.len() ==> (#[trigger] chunk.key_types(idxes)[x]).key_width() is Some,
        hash_map::built::<FixedSizeKeySerializer<N>>(chunk, idxes, result),
    ensures
        chunk.capacity == 0 ==> result is Ok,
        chunk.capacity > 0 ==> (match fixed_size_outcome(
            chunk.key_types(idxes),
            idxes.len(),
            N as nat,
        ) {
            Ok(()) => result is Ok,
            Err(e) => result matches Err(f) && f == e,
        }),
{
    array::lemma_first_missing(chunk, idxes);
    let states = hash_map::initial_states::<FixedSizeKeySerializer<N>>(
        hash_map::row_hashes(chunk, idxes),
    );
    if chunk.capacity == 0 {
        lemma_no_rows_ok::<FixedSizeKeySerializer<N>>(chunk, idxes, states, idxes.len());
    } else {
        lemma_fixed_outcome::<N>(chunk, idxes, idxes.len());
    }
}

/// Two rows are equal exactly when they have equal entries: null and null, two values that are the
/// same, or two decimals that stand for the same number.
pub proof fn law_equal_rows(a: Seq<Datum>, b: Seq<Datum>)
    ensures
        array::normal_row(a) == array::normal_row(b) <==> a.len() == b.len() && forall|k: int|
            0 <= k < a.len() ==> (match (#[trigger] a[k], b[k]) {
                (None, None) => true,
                (Some(types::Value::Decimal(p)), Some(types::Value::Decimal(q))) => p.mantissa
                    * power::pow(10, q.scale) == q.mantissa * power::pow(10, p.scale),
                (Some(v), Some(w)) => v == w,
                _ => false,
            }),
{
    let na = array::normal_row(a);
    let nb = array::normal_row(b);
    assert(na.len() == a.len() && nb.len() == b.len());
    if a.len() == b.len() {
        assert forall|k: int| 0 <= k < a.len() implies (na[k] == nb[k] <==> (match (
            #[trigger] a[k],
            b[k],
        ) {
            (None, None) => true,
            (Some(types::Value::Decimal(p)), Some(types::Value::Decimal(q))) => p.mantissa
                * power::pow(10, q.scale) == q.mantissa * power::pow(10, p.scale),
            (Some(v), Some(w)) => v == w,
            _ => false,
        })) by {
            if let (Some(v), Some(w)) = (a[k], b[k]) {
                value_laws::law_equal_values(v, w);
            }
        }
        if na == nb {
            assert forall|k: int| 0 <= k < a.len() implies (match (#[trigger] a[k], b[k]) {
                (None, None) => true,
                (Some(types::Value::Decimal(p)), Some(types::Value::Decimal(q))) => p.mantissa
                    * power::pow(10, q.scale) == q.mantissa * power::pow(10, p.scale),
                (Some(v), Some(w)) => v == w,
                _ => false,
            }) by {
                assert(na[k] == nb[k]);
            }
        } else {
            assert(!(na =~= nb));
            let k = choose|k: int| 0 <= k < na.len() && na[k] != nb[k];
            assert(na[k] != nb[k]);
            assert(a[k] == a[k]);
        }
    }
}

/// The keys that [`FixedSizeKey::build`] gives of two chunks, or of one, put rows together exactly
/// as their entries do: two keys are equal exactly when in each column of the key both rows are
/// null, hold the same value, or hold decimals that stand for the same number.
pub proof fn law_fixed_size_keys_group_rows<const N: usize>(
    chunk: &DataChunk,
    idxes: &[usize],
    keys: Vec<FixedSizeKey<N>>,
    i: int,
    other_chunk: &DataChunk,
    other_idxes: &[usize],
    other_keys: Vec<FixedSizeKey<N>>,
    j: int,
)
    requires
        call_ensures(<FixedSizeKey<N> as HashKey>::build, (idxes, chunk), Ok(keys)),
        call_ensures(
            <FixedSizeKey<N> as HashKey>::build,
            (other_idxes, other_chunk),
            Ok(other_keys),
        ),
        0 <= i < chunk@.capacity,
        0 <= j < other_chunk@.capacity,
        idxes@.len() == other_idxes@.len(),
        forall|k: int|
            0 <= k < idxes@.len() ==> chunk@.types[#[trigger] idxes@[k] as int]
                == other_chunk@.types[other_idxes@[k] as int] && chunk@.types[idxes@[k] as int]
                != DataType::Varchar,
    ensures
        keys@.len() == chunk@.capacity,
        other_keys@.len() == other_chunk@.capacity,
        keys@[i].eq_spec(&other_keys@[j]) <==> forall|k: int|
            0 <= k < idxes@.len() ==> (match (
                chunk@.columns[#[trigger] idxes@[k] as int][i],
                other_chunk@.columns[other_idxes@[k] as int][j],
            ) {
                (None, None) => true,
                (Some(types::Value::Decimal(p)), Some(types::Value::Decimal(q))) => p.mantissa
                    * power::pow(10, q.scale) == q.mantissa * power::pow(10, p.scale),
                (Some(v), Some(w)) => v == w,
                _ => false,
            }),
        keys@[i].eq_spec(&other_keys@[j]) ==> keys@[i].hash_code() == other_keys@[j].hash_code(),
        keys@[i].hash_code() == array::crc32_of(
            array::row_bytes(
                Seq::new(idxes@.len(), |k: int| chunk@.columns[idxes@[k] as int][i]),
            ),
        ),
{
    let a = chunk@.row(idxes@, i);
    let b = other_chunk@.row(other_idxes@, j);
    array::lemma_first_missing(chunk@, idxes@);
    array::lemma_first_missing(other_chunk@, other_idxes@);
    assert(chunk@.key_types(idxes@) =~= other_chunk@.key_types(other_idxes@));
    assert forall|x: int| 0 <= x < idxes@.len() implies (#[trigger] chunk@.key_types(
        idxes@,
    )[x]).key_width() is Some by {
        assert(chunk@.types[idxes@[x] as int] != DataType::Varchar);
    }
    law_fixed_size_keys_accept_fixed_sizes::<N>(chunk@, idxes@);
    law_fixed_size_keys_identify_rows::<N>(
        chunk@,
        idxes@,
        keys,
        i,
        other_chunk@,
        other_idxes@,
        other_keys,
        j,
    );
    law_equal_rows(a, b);
    lemma_entries_of_rows(chunk@, idxes@, i, other_chunk@, other_idxes@, j);
    assert(a =~= Seq::new(idxes@.len(), |k: int| chunk@.columns[idxes@[k] as int][i]));
}

/// The same of the keys that [`SerializedKey::build`] gives, whatever the types of the columns.
pub proof fn law_serialized_keys_group_rows(
    chunk: &DataChunk,
    idxes: &[usize],
    keys: Vec<SerializedKey>,
    i: int,
    other_chunk: &DataChunk,
    other_idxes: &[usize],
    other_keys: Vec<SerializedKey>,
    j: int,
)
    requires
        call_ensures(<SerializedKey as HashKey>::build, (idxes, chunk), Ok(keys)),
        call_ensures(
            <SerializedKey as HashKey>::build,
            (other_idxes, other_chunk),
            Ok(other_keys),
        ),
        0 <= i < chunk@.capacity,
        0 <= j < other_chunk@.capacity,
        idxes@.len() == other_idxes@.len(),
        forall|k: int|
            0 <= k < idxes@.len() ==> chunk@.types[#[trigger] idxes@[k] as int]
                == other_chunk@.types[other_idxes@[k] as int],
    ensures
        keys@.len() == chunk@.capacity,
        other_keys@.len() == other_chunk@.capacity,
        keys@[i].eq_spec(&other_keys@[j]) <==> forall|k: int|
            0 <= k < idxes@.len() ==> (match (
                chunk@.columns[#[trigger] idxes@[k] as int][i],
                other_chunk@.columns[other_idxes@[k] as int][j],
            ) {
                (None, None) => true,
                (Some(types::Value::Decimal(p)), Some(types::Value::Decimal(q))) => p.mantissa
                    * power::pow(10, q.scale) == q.mantissa * power::pow(10, p.scale),
                (Some(v), Some(w)) => v == w,
                _ => false,
            }),
        keys@[i].eq_spec(&other_keys@[j]) ==> keys@[i].hash_code() == other_keys@[j].hash_code(),
        keys@[i].hash_code() == array::crc32_of(
            array::row_bytes(
                Seq::new(idxes@.len(), |k: int| chunk@.columns[idxes@[k] as int][i]),
            ),
        ),
{
    let a = chunk@.row(idxes@, i);
    let b = other_chunk@.row(other_idxes@, j);
    assert(chunk@.key_types(idxes@) =~= other_chunk@.key_types(other_idxes@));
    law_serialized_keys_identify_rows(
        chunk@,
        idxes@,
        keys,
        i,
        other_chunk@,
        other_idxes@,
        other_keys,
        j,
    );
    law_equal_rows(a, b);
    lemma_entries_of_rows(chunk@, idxes@, i, other_chunk@, other_idxes@, j);
    assert(a =~= Seq::new(idxes@.len(), |k: int| chunk@.columns[idxes@[k] as int][i]));
}

/// Rows have equal entries where the columns do.
proof fn lemma_entries_of_rows(
    chunk: array::ChunkView,
    idxes: Seq<usize>,
    i: int,
    other_chunk: array::ChunkView,
    other_idxes: Seq<usize>,
    j: int,
)
    requires
        idxes.len() == other_idxes.len(),
    ensures
        ({
            let a = chunk.row(idxes, i);
            let b = other_chunk.row(other_idxes, j);
            (forall|k: int|
                0 <= k < a.len() ==> (match (#[trigger] a[k], b[k]) {
                    (None, None) => true,
                    (Some(types::Value::Decimal(p)), Some(types::Value::Decimal(q))) => p.mantissa
                        * power::pow(10, q.scale) == q.mantissa * power::pow(10, p.scale),
                    (Some(v), Some(w)) => v == w,
                    _ => false,
                })) <==> (forall|k: int|
                0 <= k < idxes.len() ==> (match (
                    chunk.columns[#[trigger] idxes[k] as int][i],
                    other_chunk.columns[other_idxes[k] as int][j],
                ) {
                    (None, None) => true,
                    (Some(types::Value::Decimal(p)), Some(types::Value::Decimal(q))) => p.mantissa
                        * power::pow(10, q.scale) == q.mantissa * power::pow(10, p.scale),
                    (Some(v), Some(w)) => v == w,
                    _ => false,
                }))
        }),
{
    let a = chunk.row(idxes, i);
    let b = other_chunk.row(other_idxes, j);
    assert forall|k: int| 0 <= k < idxes.len() implies #[trigger] a[k]
        == chunk.columns[idxes[k] as int][i] && b[k] == other_chunk.columns[other_idxes[k] as int][j]
        by {}
    assert forall|k: int| 0 <= k < idxes.len() implies #[trigger] idxes[k] == idxes[k] && a[k]
        == chunk.columns[idxes[k] as int][i] by {}
}

/// The width of the first columns of a key is the sum of their widths.
proof fn lemma_key_width_is_sum(chunk: array::ChunkView, idxes: Seq<usize>, k: nat)
    requires
        k <= idxes.len(),
        forall|x: int|
            0 <= x < idxes.len() ==> (#[trigger] chunk.key_types(idxes)[x]).key_width() is Some,
    ensures
        key_width(chunk.key_types(idxes), k) == Seq::new(
            k,
            |x: int| chunk.types[idxes[x] as int].key_width()->0 as int,
        ).fold_left(0int, |sum: int, w: int| sum + w),
    decreases k,
{
    let widths = Seq::new(k, |x: int| chunk.types[idxes[x] as int].key_width()->0 as int);
    if k > 0 {
        lemma_key_width_is_sum(chunk, idxes, (k - 1) as nat);
        assert(widths.drop_last() =~= Seq::new(
            (k - 1) as nat,
            |x: int| chunk.types[idxes[x] as int].key_width()->0 as int,
        ));
        assert(chunk.key_types(idxes)[k - 1] == chunk.types[idxes[k - 1] as int]);
    }
}

/// When [`FixedSizeKey::build`] gives keys, of columns whose types have a fixed size. It names the
/// first column that the chunk does not have, if there is one. A chunk without rows has no keys.
/// Otherwise the first eight columns must fit into the key, each with its full width, and there must
/// be no more than these.
pub proof fn law_fixed_size_build_outcome<const N: usize>(
    chunk: &DataChunk,
    idxes: &[usize],
    result: Result<Vec<FixedSizeKey<N>>, Error>,
)
    requires
        call_ensures(<FixedSizeKey<N> as HashKey>::build, (idxes, chunk), result),
        forall|k: int|
            0 <= k < idxes@.len() && #[trigger] idxes@[k] < chunk@.columns.len()
                ==> chunk@.types[idxes@[k] as int] != DataType::Varchar,
    ensures
        (exists|k: int| 0 <= k < idxes@.len() && #[trigger] idxes@[k] >= chunk@.columns.len())
            ==> exists|k: int|
            0 <= k < idxes@.len() && #[trigger] idxes@[k] >= chunk@.columns.len() && result == Err::<
                Vec<FixedSizeKey<N>>,
                Error,
            >(Error::ColumnNotFound { index: idxes@[k] }) && forall|j: int|
                0 <= j < k ==> #[trigger] idxes@[j] < chunk@.columns.len(),
        (forall|k: int| 0 <= k < idxes@.len() ==> #[trigger] idxes@[k] < chunk@.columns.len())
            ==> ({
            let first = if idxes@.len() <= 8 {
                idxes@.len()
            } else {
                8
            };
            let width = Seq::new(
                first,
                |x: int| chunk@.types[idxes@[x] as int].key_width()->0 as int,
            ).fold_left(0int, |sum: int, w: int| sum + w);
            if chunk@.capacity == 0 {
                result matches Ok(keys) && keys@.len() == 0
            } else if width > N {
                result == Err::<Vec<FixedSizeKey<N>>, Error>(Error::KeyTooLong)
            } else if idxes@.len() > 8 {
                result == Err::<Vec<FixedSizeKey<N>>, Error>(Error::TooManyColumns)
            } else {
                result matches Ok(keys) && keys@.len() == chunk@.capacity
            }
        }),
{
    array::lemma_first_missing(chunk@, idxes@);
    chunk_laws::law_first_missing_column(chunk@, idxes@);
    if chunk@.has_columns(idxes@) {
        assert forall|x: int| 0 <= x < idxes@.len() implies (#[trigger] chunk@.key_types(
            idxes@,
        )[x]).key_width() is Some by {
            assert(idxes@[x] < chunk@.columns.len());
            assert(chunk@.types[idxes@[x] as int] != DataType::Varchar);
        }
        law_fixed_size_keys_are_built::<N>(chunk@, idxes@, result);
        let first = if idxes@.len() <= 8 {
            idxes@.len()
        } else {
            8
        };
        lemma_key_width_is_sum(chunk@, idxes@, first);
    } else {
        assert(chunk@.first_missing(idxes@) is Some);
    }
}

/// When [`SerializedKey::build`] gives keys: always, of columns that the chunk has; otherwise it
/// names the first that the chunk does not have.
pub proof fn law_serialized_build_outcome(
    chunk: &DataChunk,
    idxes: &[usize],
    result: Result<Vec<SerializedKey>, Error>,
)
    requires
        call_ensures(<SerializedKey as HashKey>::build, (idxes, chunk), result),
    ensures
        (exists|k: int| 0 <= k < idxes@.len() && #[trigger] idxes@[k] >= chunk@.columns.len())
            ==> exists|k: int|
            0 <= k < idxes@.len() && #[trigger] idxes@[k] >= chunk@.columns.len() && result == Err::<
                Vec<SerializedKey>,
                Error,
            >(Error::ColumnNotFound { index: idxes@[k] }) && forall|j: int|
                0 <= j < k ==> #[trigger] idxes@[j] < chunk@.columns.len(),
        (forall|k: int| 0 <= k < idxes@.len() ==> #[trigger] idxes@[k] < chunk@.columns.len())
            ==> (result matches Ok(keys) && keys@.len() == chunk@.capacity),
{
    array::lemma_first_missing(chunk@, idxes@);
    chunk_laws::law_first_missing_column(chunk@, idxes@);
    law_serialized_keys_are_built(chunk@, idxes@, result);
    assert(!chunk@.has_columns(idxes@) ==> chunk@.first_missing(idxes@) is Some);
}

/// Appending an entry to a fixed-size key. A ninth column is refused. Any other is noted as present
/// or null; its bytes, or those of the default value, are added if they fit.
pub proof fn law_fixed_size_append<const N: usize>(
    s: hash_map::FixedSizeKeyState,
    t: DataType,
    d: Datum,
)
    ensures
        ({
            let (after, result) = FixedSizeKeySerializer::<N>::appended(s, t, d);
            let bytes = match d {
                Some(v) => v.bytes(),
                None => t.default_value().bytes(),
            };
            if s.present.len() >= 8 {
                after == s && result == Err::<(), Error>(Error::TooManyColumns)
            } else {
                &&& after.hash_code == s.hash_code
                &&& after.present == s.present.push(d is Some)
                &&& if s.bytes.len() + bytes.len() <= N {
                    after.bytes == s.bytes + bytes && result == Ok::<(), Error>(())
                } else {
                    after.bytes == s.bytes && result == Err::<(), Error>(Error::KeyTooLong)
                }
            }
        }),
        FixedSizeKeySerializer::<N>::accepts(s, t) <==> t != DataType::Varchar || s.present.len()
            >= 8,
{
}

/// Appending an entry to a serialized key always succeeds: it is noted as present or null, and its
/// value, or the default value, is added.
pub proof fn law_serialized_append(s: hash_map::SerializedKeyState, t: DataType, d: Datum)
    ensures
        ({
            let (after, result) = SerializedKeySerializer::appended(s, t, d);
            &&& result == Ok::<(), Error>(())
            &&& after.hash_code == s.hash_code
            &&& after.present == s.present.push(d is Some)
            &&& after.values == s.values.push(
                match d {
                    Some(v) => v,
                    None => t.default_value(),
                },
            )
        }),
        SerializedKeySerializer::accepts(s, t),
{
}

/// A key starts with its hash code and nothing else.
pub proof fn law_keys_start_empty<const N: usize>(hash_code: u64)
    ensures
        FixedSizeKeySerializer::<N>::initial(hash_code) == (hash_map::FixedSizeKeyState {
            hash_code,
            present: seq![],
            bytes: seq![],
        }),
        SerializedKeySerializer::initial(hash_code) == (hash_map::SerializedKeyState {
            hash_code,
            present: seq![],
            values: seq![],
        }),
{
}

/// A fixed-size key holds the bytes that were collected, zeros behind them, a bit for each column
/// that is set where the column was not null, and the hash code.
pub proof fn law_fixed_size_key_holds<const N: usize>(
    serializer: FixedSizeKeySerializer<N>,
    key: FixedSizeKey<N>,
    i: int,
)
    requires
        call_ensures(FixedSizeKeySerializer::<N>::into_hash_key, (serializer,), key),
        serializer.state().bytes.len() <= N,
    ensures
        key.hash_code() == serializer.state().hash_code,
        key.key().len() == N,
        0 <= i < N ==> key.key()[i] == (if i < serializer.state().bytes.len() {
            serializer.state().bytes[i]
        } else {
            0u8
        }),
        0 <= i < 8 ==> ((key.null_bitmap() >> (i as u8)) & 1 == 1 <==> i
            < serializer.state().present.len() && serializer.state().present[i]),
{
    if 0 <= i < 8 {
        assert(hash_map::bit(key.null_bitmap(), i) <==> i < serializer.state().present.len()
            && serializer.state().present[i]);
    }
}

/// A serialized key holds the values and the nulls that were collected, and the hash code.
pub proof fn law_serialized_key_holds(serializer: SerializedKeySerializer, key: SerializedKey)
    requires
        call_ensures(SerializedKeySerializer::into_hash_key, (serializer,), key),
    ensures
        key.hash_code() == serializer.state().hash_code,
        key.present() == serializer.state().present,
        key.values() == serializer.state().values,
{
}

/// Fixed-size keys are equal when all their bytes and all their bits for nulls are.
pub proof fn law_equal_fixed_size_keys<const N: usize>(a: FixedSizeKey<N>, b: FixedSizeKey<N>)
    ensures
        a.eq_spec(&b) <==> a.key() == b.key() && a.null_bitmap() == b.null_bitmap(),
{
}

/// Serialized keys are equal when they have as many values, each equal to the other's, and the same
/// nulls.
pub proof fn law_equal_serialized_keys(a: SerializedKey, b: SerializedKey)
    ensures
        a.eq_spec(&b) <==> a.present() == b.present() && a.values().len() == b.values().len()
            && forall|k: int|
            0 <= k < a.values().len() ==> (match (#[trigger] a.values()[k], b.values()[k]) {
                (types::Value::Decimal(p), types::Value::Decimal(q)) => p.mantissa * power::pow(
                    10,
                    q.scale,
                ) == q.mantissa * power::pow(10, p.scale),
                (v, w) => v == w,
            }),
{
    let na = hash_map::normal_values(a.values());
    let nb = hash_map::normal_values(b.values());
    assert(na.len() == a.values().len() && nb.len() == b.values().len());
    assert forall|k: int|
        0 <= k < a.values().len() && a.values().len() == b.values().len() implies (na[k] == nb[k]
        <==> (match (#[trigger] a.values()[k], b.values()[k]) {
        (types::Value::Decimal(p), types::Value::Decimal(q)) => p.mantissa * power::pow(10, q.scale)
            == q.mantissa * power::pow(10, p.scale),
        (v, w) => v == w,
    })) by {
        value_laws::law_equal_values(a.values()[k], b.values()[k]);
    }
    if na == nb {
        assert forall|k: int| 0 <= k < a.values().len() implies (match (
            #[trigger] a.values()[k],
            b.values()[k],
        ) {
            (types::Value::Decimal(p), types::Value::Decimal(q)) => p.mantissa * power::pow(
                10,
                q.scale,
            ) == q.mantissa * power::pow(10, p.scale),
            (v, w) => v == w,
        }) by {
            assert(na[k] == nb[k]);
        }
    } else if a.values().len() == b.values().len() {
        assert(!(na =~= nb));
        let k = choose|k: int| 0 <= k < na.len() && na[k] != nb[k];
        assert(a.values()[k] == a.values()[k]);
    }
}

/// Appending a column gives each entry to the serializer of its row, up to the first that fails.
/// The serializers of the rows behind that one, and behind the end of the column, stay as they were.
pub proof fn law_column_is_appended_row_by_row<S: HashKeySerializer>(
    states: Seq<S::State>,
    t: DataType,
    column: Seq<Datum>,
    n: nat,
    i: int,
)
    requires
        n <= states.len(),
        n <= column.len(),
        0 <= i < states.len(),
    ensures
        hash_map::appended_rows::<S>(states, t, column, n).0.len() == states.len(),
        hash_map::appended_rows::<S>(states, t, column, n).1 is Ok <==> forall|r: int|
            0 <= r < n ==> S::appended(#[trigger] states[r], t, column[r]).1 is Ok,
        hash_map::appended_rows::<S>(states, t, column, n).0[i] == (if i < n && forall|r: int|
            0 <= r < i ==> S::appended(#[trigger] states[r], t, column[r]).1 is Ok {
            S::appended(states[i], t, column[i]).0
        } else {
            states[i]
        }),
        hash_map::appended_rows::<S>(states, t, column, n).1 is Err ==> exists|r: int|
            0 <= r < n && hash_map::appended_rows::<S>(states, t, column, n).1 == S::appended(
                #[trigger] states[r],
                t,
                column[r],
            ).1 && forall|q: int|
                0 <= q < r ==> S::appended(#[trigger] states[q], t, column[q]).1 is Ok,
    decreases n,
{
    if n > 0 {
        let m = (n - 1) as nat;
        hash_map::lemma_appended_rows_frame::<S>(states, t, column, m);
        hash_map::lemma_appended_rows_frame::<S>(states, t, column, n);
        law_column_is_appended_row_by_row::<S>(states, t, column, m, i);
        let (before, prior) = hash_map::appended_rows::<S>(states, t, column, m);
        if prior is Ok {
            assert(before[m as int] == states[m as int]);
        }
    }
}

/// As many entries of a column are appended as there are both entries and serializers, and each
/// serializer is what it has collected.
pub proof fn law_entries_meet_serializers<S: HashKeySerializer>(
    rows: nat,
    serializers: Seq<S>,
    i: int,
)
    ensures
        hash_map::paired(rows, serializers.len()) <= rows,
        hash_map::paired(rows, serializers.len()) <= serializers.len(),
        hash_map::paired(rows, serializers.len()) == rows || hash_map::paired(
            rows,
            serializers.len(),
        ) == serializers.len(),
        hash_map::states(serializers).len() == serializers.len(),
        0 <= i < serializers.len() ==> hash_map::states(serializers)[i] == serializers[i].state(),
{
}

/// A serialized key that was built holds, for each column of the key, whether the entry of its row
/// is not null, and its value, or the default value of the column's type.
pub proof fn law_serialized_keys_hold_rows(
    chunk: &DataChunk,
    idxes: &[usize],
    keys: Vec<SerializedKey>,
    i: int,
    k: int,
)
    requires
        call_ensures(<SerializedKey as HashKey>::build, (idxes, chunk), Ok(keys)),
        0 <= i < chunk@.capacity,
        0 <= k < idxes@.len(),
    ensures
        keys@.len() == chunk@.capacity,
        keys@[i].present().len() == idxes@.len(),
        keys@[i].values().len() == idxes@.len(),
        keys@[i].present()[k] == (chunk@.columns[idxes@[k] as int][i] is Some),
        keys@[i].values()[k] == (match chunk@.columns[idxes@[k] as int][i] {
            Some(v) => v,
            None => chunk@.types[idxes@[k] as int].default_value(),
        }),
{
    lemma_serialized_key(chunk@, idxes@, keys, i);
}

/// Keys that are built with given hash codes, one for each row, have these hash codes.
pub proof fn law_given_hash_codes_are_kept<const N: usize>(
    chunk: &DataChunk,
    idxes: &[usize],
    hash_codes: Vec<u64>,
    fixed: Vec<FixedSizeKey<N>>,
    serialized: Vec<SerializedKey>,
    i: int,
)
    requires
        chunk@.well_formed(),
        forall|k: int| 0 <= k < idxes@.len() ==> #[trigger] idxes@[k] < chunk@.columns.len(),
        hash_codes@.len() == chunk@.capacity,
        0 <= i < chunk@.capacity,
    ensures
        call_ensures(
            hash_map::build_with_hash_codes::<FixedSizeKeySerializer<N>>,
            (hash_codes, idxes, chunk),
            Ok(fixed),
        ) ==> fixed@.len() == hash_codes@.len() && fixed@[i].hash_code() == hash_codes@[i],
        call_ensures(
            hash_map::build_with_hash_codes::<SerializedKeySerializer>,
            (hash_codes, idxes, chunk),
            Ok(serialized),
        ) ==> serialized@.len() == hash_codes@.len() && serialized@[i].hash_code()
            == hash_codes@[i],
{
    let key_types = chunk@.key_types(idxes@);
    let row = chunk@.row(idxes@, i);
    let n = idxes@.len();
    if call_ensures(
        hash_map::build_with_hash_codes::<FixedSizeKeySerializer<N>>,
        (hash_codes, idxes, chunk),
        Ok(fixed),
    ) {
        let states = hash_map::initial_states::<FixedSizeKeySerializer<N>>(hash_codes@);
        lemma_row_state::<FixedSizeKeySerializer<N>>(states, chunk@, idxes@, n, i);
        lemma_fixed_folded::<N>(hash_codes@[i], key_types, row, n);
        assert(fixed@[i] == fixed@[i]);
    }
    if call_ensures(
        hash_map::build_with_hash_codes::<SerializedKeySerializer>,
        (hash_codes, idxes, chunk),
        Ok(serialized),
    ) {
        let states = hash_map::initial_states::<SerializedKeySerializer>(hash_codes@);
        lemma_row_state::<SerializedKeySerializer>(states, chunk@, idxes@, n, i);
        lemma_serialized_folded(hash_codes@[i], key_types, row, n);
        assert(serialized@[i] == serialized@[i]);
    }
}

/// Entries can be appended to a column of serializers where each of them accepts its own.
pub proof fn law_accepted_entries<S: HashKeySerializer>(
    states: Seq<S::State>,
    t: DataType,
    column: Seq<Datum>,
    n: nat,
)
    requires
        forall|r: int| 0 <= r < n ==> S::accepts(#[trigger] states[r], t),
    ensures
        hash_map::accepts_rows::<S>(states, t, column, n),
{
}

} // verus!
