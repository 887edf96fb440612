//! Hash keys of rows.

use std::hash::{BuildHasher, Hash, Hasher};

use vstd::prelude::*;

use crate::array::{Array, ArrayImpl, DataChunk, Datum};
use crate::array;
use crate::bytes::{
    i16_ne_bytes, i32_ne_bytes, i64_ne_bytes, u32_ne_bytes, u64_from_ne_bytes, u64_ne_bytes,
};
use crate::bytes;
use crate::decimal::Decimal;
use crate::error::Error;
use crate::types::{DataType, Float32, Float64, IntervalUnit, ScalarImpl, ScalarRef};
use crate::types;

verus! {

/// A byte string that a scalar was serialized to.
pub trait KeyBytes {
    spec fn bytes(&self) -> Seq<u8>;

    fn as_bytes(&self) -> (r: &[u8])
        ensures
            r@ == self.bytes(),
    ;
}

impl<const N: usize> KeyBytes for [u8; N] {
    open spec fn bytes(&self) -> Seq<u8> {
        self@
    }

    fn as_bytes(&self) -> (r: &[u8]) {
        self.as_slice()
    }
}

impl KeyBytes for Vec<u8> {
    open spec fn bytes(&self) -> Seq<u8> {
        self@
    }

    fn as_bytes(&self) -> (r: &[u8]) {
        self.as_slice()
    }
}

/// A scalar that can be part of a hash key.
pub trait HashKeySerialize<'a>: ScalarRef<'a> + Default {
    type S: KeyBytes;

    /// The bytes of the scalar, for a type whose values have a fixed size.
    fn serialize(self) -> (r: Self::S)
        requires
            Self::data_type().key_width() is Some,
        ensures
            r.bytes() == self.value().bytes(),
    ;

    /// The default scalar is the one that stands for null.
    proof fn lemma_default(r: Self)
        requires
            call_ensures(Self::default, (), r),
        ensures
            r.value() == Self::data_type().default_value(),
    ;
}

impl<'a> HashKeySerialize<'a> for bool {
    type S = [u8; 1];

    fn serialize(self) -> (r: [u8; 1]) {
        let r: [u8; 1] = if self {
            [1u8]
        } else {
            [0u8]
        };
        assert(r@ =~= self.value().bytes());
        r
    }

    proof fn lemma_default(r: Self) {
    }
}

impl<'a> HashKeySerialize<'a> for i16 {
    type S = [u8; 2];

    fn serialize(self) -> (r: [u8; 2]) {
        i16_ne_bytes(self)
    }

    proof fn lemma_default(r: Self) {
    }
}

impl<'a> HashKeySerialize<'a> for i32 {
    type S = [u8; 4];

    fn serialize(self) -> (r: [u8; 4]) {
        i32_ne_bytes(self)
    }

    proof fn lemma_default(r: Self) {
    }
}

impl<'a> HashKeySerialize<'a> for i64 {
    type S = [u8; 8];

    fn serialize(self) -> (r: [u8; 8]) {
        i64_ne_bytes(self)
    }

    proof fn lemma_default(r: Self) {
    }
}

impl<'a> HashKeySerialize<'a> for Float32 {
    type S = [u8; 4];

    fn serialize(self) -> (r: [u8; 4]) {
        u32_ne_bytes(self.bits)
    }

    proof fn lemma_default(r: Self) {
    }
}

impl<'a> HashKeySerialize<'a> for Float64 {
    type S = [u8; 8];

    fn serialize(self) -> (r: [u8; 8]) {
        u64_ne_bytes(self.bits)
    }

    proof fn lemma_default(r: Self) {
    }
}

impl<'a> HashKeySerialize<'a> for Decimal {
    type S = [u8; 16];

    fn serialize(self) -> (r: [u8; 16]) {
        Decimal::serialize(&self.normalize())
    }

    proof fn lemma_default(r: Self) {
    }
}

impl<'a> HashKeySerialize<'a> for IntervalUnit {
    type S = [u8; 16];

    fn serialize(self) -> (r: [u8; 16]) {
        let m: [u8; 4] = i32_ne_bytes(self.get_months());
        let d: [u8; 4] = i32_ne_bytes(self.get_days());
        let t: [u8; 8] = i64_ne_bytes(self.get_ms());
        let r: [u8; 16] = [
            m[0], m[1], m[2], m[3],
            d[0], d[1], d[2], d[3],
            t[0], t[1], t[2], t[3], t[4], t[5], t[6], t[7],
        ];
        assert(r@ =~= m@ + d@ + t@);
        r
    }

    proof fn lemma_default(r: Self) {
    }
}

impl<'a> HashKeySerialize<'a> for &'a str {
    type S = Vec<u8>;

    /// A string has no fixed size, so this is never called.
    fn serialize(self) -> (r: Vec<u8>) {
        vstd::pervasive::unreached()
    }

    proof fn lemma_default(r: Self) {
        reveal_strlit("");
        assert(r@ =~= Seq::empty());
    }
}

/// What stands in a key for an entry of a column of type `t`.
pub open spec fn value_or_default(t: DataType, d: Datum) -> types::Value {
    match d {
        Some(v) => v,
        None => t.default_value(),
    }
}

/// Collects the columns of one row into a hash key.
pub trait HashKeySerializer: Sized {
    /// The key that is made.
    type K: Hash + Eq;

    /// What has been collected.
    type State;

    spec fn state(&self) -> Self::State;

    /// What has been collected of a row before its first column.
    spec fn initial(hash_code: u64) -> Self::State;

    /// Whether an entry of a column of type `t` can be appended at all.
    spec fn accepts(s: Self::State, t: DataType) -> bool;

    /// What has been collected once an entry of a column of type `t` was appended, and whether
    /// that succeeded.
    spec fn appended(s: Self::State, t: DataType, d: Datum) -> (Self::State, Result<(), Error>);

    /// Whether `k` is a key of what has been collected.
    spec fn makes(s: Self::State, k: Self::K) -> bool;

    fn from_hash_code(hash_code: u64) -> (r: Self)
        ensures
            r.state() == Self::initial(hash_code),
    ;

    fn append<'a, D: HashKeySerialize<'a>>(&mut self, data: Option<D>) -> (r: Result<(), Error>)
        requires
            Self::accepts(old(self).state(), D::data_type()),
        ensures
            (final(self).state(), r) == Self::appended(
                old(self).state(),
                D::data_type(),
                array::ref_datum(data),
            ),
    ;

    fn into_hash_key(self) -> (r: Self::K)
        ensures
            Self::makes(self.state(), r),
    ;
}

/// Bit `i` of `b`.
pub open spec fn bit(b: u8, i: int) -> bool {
    (b >> (i as u8)) & 1 == 1
}

proof fn lemma_bit_set(b: u8, k: u8, j: u8)
    by (bit_vector)
    requires
        k < 8,
        j < 8,
    ensures
        ((b | (1u8 << k)) >> j) & 1 == 1 <==> (j == k || (b >> j) & 1 == 1),
{
}

proof fn lemma_bit_cleared(b: u8, k: u8, j: u8)
    by (bit_vector)
    requires
        k < 8,
        j < 8,
    ensures
        ((b & !(1u8 << k)) >> j) & 1 == 1 <==> (j != k && (b >> j) & 1 == 1),
{
}

pub proof fn lemma_same_bits(a: u8, b: u8)
    requires
        forall|i: int| 0 <= i < 8 ==> bit(a, i) == bit(b, i),
    ensures
        a == b,
{
    assert(bit(a, 0) == bit(b, 0));
    assert(bit(a, 1) == bit(b, 1));
    assert(bit(a, 2) == bit(b, 2));
    assert(bit(a, 3) == bit(b, 3));
    assert(bit(a, 4) == bit(b, 4));
    assert(bit(a, 5) == bit(b, 5));
    assert(bit(a, 6) == bit(b, 6));
    assert(bit(a, 7) == bit(b, 7));
    assert(a == b) by (bit_vector)
        requires
            ((a >> 0u8) & 1 == 1) == ((b >> 0u8) & 1 == 1),
            ((a >> 1u8) & 1 == 1) == ((b >> 1u8) & 1 == 1),
            ((a >> 2u8) & 1 == 1) == ((b >> 2u8) & 1 == 1),
            ((a >> 3u8) & 1 == 1) == ((b >> 3u8) & 1 == 1),
            ((a >> 4u8) & 1 == 1) == ((b >> 4u8) & 1 == 1),
            ((a >> 5u8) & 1 == 1) == ((b >> 5u8) & 1 == 1),
            ((a >> 6u8) & 1 == 1) == ((b >> 6u8) & 1 == 1),
            ((a >> 7u8) & 1 == 1) == ((b >> 7u8) & 1 == 1),
    ;
}

/// Max element count in a [`FixedSizeKey`].
pub const MAX_FIXED_SIZE_KEY_ELEMENTS: usize = 8;

/// What a [`FixedSizeKeySerializer`] has collected.
pub struct FixedSizeKeyState {
    /// The hash code of the row.
    pub hash_code: u64,
    /// For each column that was offered, whether it was not null.
    pub present: Seq<bool>,
    /// The bytes of the columns that were taken.
    pub bytes: Seq<u8>,
}

/// Designed for hash keys with at most `N` serialized bytes.
pub struct FixedSizeKey<const N: usize> {
    hash_code: u64,
    key: [u8; N],
    null_bitmap: u8,
}

impl<const N: usize> FixedSizeKey<N> {
    pub closed spec fn hash_code(&self) -> u64 {
        self.hash_code
    }

    pub closed spec fn key(&self) -> Seq<u8> {
        self.key@
    }

    pub closed spec fn null_bitmap(&self) -> u8 {
        self.null_bitmap
    }

    /// The hash code that the key was made with.
    pub fn get_hash_code(&self) -> (r: u64)
        ensures
            r == self.hash_code(),
    {
        self.hash_code
    }

    /// What a hasher of `build_hasher` finishes with once it was given the key's hash code.
    pub fn precomputed_hash(&self, build_hasher: &PrecomputedBuildHasher) -> (r: u64)
        ensures
            r == self.hash_code(),
    {
        let mut hasher = build_hasher.build_hasher();
        hasher.write_u64(self.get_hash_code());
        hasher.finish()
    }
}

pub struct FixedSizeKeySerializer<const N: usize> {
    buffer: [u8; N],
    null_bitmap: u8,
    null_bitmap_idx: usize,
    data_len: usize,
    hash_code: u64,
}

impl<const N: usize> FixedSizeKeySerializer<N> {
    #[verifier::type_invariant]
    spec fn well_formed(self) -> bool {
        &&& self.data_len <= N
        &&& self.null_bitmap_idx <= MAX_FIXED_SIZE_KEY_ELEMENTS
        &&& forall|i: int| self.data_len <= i < N ==> self.buffer@[i] == 0
        &&& forall|i: int| self.null_bitmap_idx <= i < 8 ==> !bit(self.null_bitmap, i)
    }

    /// How many bytes of the key are left.
    pub fn left_size(&self) -> (r: usize)
        ensures
            r == N - self.state().bytes.len(),
    {
        proof {
            use_type_invariant(self);
        }
        N - self.data_len
    }
}

impl<const N: usize> HashKeySerializer for FixedSizeKeySerializer<N> {
    type K = FixedSizeKey<N>;

    type State = FixedSizeKeyState;

    closed spec fn state(&self) -> FixedSizeKeyState {
        FixedSizeKeyState {
            hash_code: self.hash_code,
            present: Seq::new(self.null_bitmap_idx as nat, |i: int| bit(self.null_bitmap, i)),
            bytes: self.buffer@.take(self.data_len as int),
        }
    }

    open spec fn initial(hash_code: u64) -> FixedSizeKeyState {
        FixedSizeKeyState { hash_code, present: Seq::empty(), bytes: Seq::empty() }
    }

    /// A type without a fixed size has no place in the key; it is only refused where another
    /// column of any type would be.
    open spec fn accepts(s: FixedSizeKeyState, t: DataType) -> bool {
        t.key_width() is Some || s.present.len() >= MAX_FIXED_SIZE_KEY_ELEMENTS
    }

    /// The column is recorded as present or null even where its bytes then do not fit.
    open spec fn appended(s: FixedSizeKeyState, t: DataType, d: Datum) -> (
        FixedSizeKeyState,
        Result<(), Error>,
    ) {
        let value = value_or_default(t, d);
        if s.present.len() >= MAX_FIXED_SIZE_KEY_ELEMENTS {
            (s, Err(Error::TooManyColumns))
        } else {
            let recorded = FixedSizeKeyState { present: s.present.push(d is Some), ..s };
            if s.bytes.len() + value.bytes().len() > N {
                (recorded, Err(Error::KeyTooLong))
            } else {
                (FixedSizeKeyState { bytes: s.bytes + value.bytes(), ..recorded }, Ok(()))
            }
        }
    }

    /// The key holds the bytes, filled up with zeros, and the bits of the columns that were
    /// present.
    open spec fn makes(s: FixedSizeKeyState, k: FixedSizeKey<N>) -> bool {
        &&& k.hash_code() == s.hash_code
        &&& k.key() == s.bytes + Seq::new((N - s.bytes.len()) as nat, |i: int| 0u8)
        &&& forall|i: int|
            0 <= i < 8 ==> (#[trigger] bit(k.null_bitmap(), i) <==> i < s.present.len()
                && s.present[i])
    }

    fn from_hash_code(hash_code: u64) -> (r: Self) {
        assert forall|i: int| 0 <= i < 8 implies !bit(0u8, i) by {
            let j = i as u8;
            assert((0u8 >> j) & 1 == 0) by (bit_vector);
        }
        let r = FixedSizeKeySerializer {
            buffer: [0u8; N],
            null_bitmap: 0u8,
            null_bitmap_idx: 0,
            data_len: 0,
            hash_code,
        };
        assert(r.state().present =~= Seq::empty());
        assert(r.state().bytes =~= Seq::empty());
        r
    }

    fn append<'a, D: HashKeySerialize<'a>>(&mut self, data: Option<D>) -> (r: Result<(), Error>) {
        proof {
            use_type_invariant(&*self);
        }
        if self.null_bitmap_idx >= MAX_FIXED_SIZE_KEY_ELEMENTS {
            return Err(Error::TooManyColumns);
        }
        let ghost before = *self;
        let k: u8 = self.null_bitmap_idx as u8;
        let (null_bitmap, serialized): (u8, D::S) = match data {
            Some(v) => {
                (self.null_bitmap | (1u8 << k), v.serialize())
            },
            None => {
                let v: D = D::default();
                proof {
                    D::lemma_default(v);
                }
                (self.null_bitmap & !(1u8 << k), v.serialize())
            },
        };
        assert forall|i: int| 0 <= i < 8 implies bit(null_bitmap, i) == (if i == k {
            data is Some
        } else {
            bit(before.null_bitmap, i)
        }) by {
            lemma_bit_set(before.null_bitmap, k, i as u8);
            lemma_bit_cleared(before.null_bitmap, k, i as u8);
        }
        let bytes: &[u8] = serialized.as_bytes();
        let fits: bool = self.left_size() >= bytes.len();
        let mut buffer: [u8; N] = self.buffer;
        let mut data_len: usize = self.data_len;
        if fits {
            let start: usize = self.data_len;
            let mut i: usize = 0;
            while i < bytes.len()
                invariant
                    i <= bytes@.len(),
                    start + bytes@.len() <= N,
                    start == before.data_len,
                    forall|j: int| 0 <= j < start ==> buffer@[j] == before.buffer@[j],
                    forall|j: int| start <= j < start + i ==> buffer@[j] == bytes@[j - start],
                    forall|j: int| start + i <= j < N ==> buffer@[j] == 0,
                decreases bytes@.len() - i,
            {
                buffer[start + i] = bytes[i];
                i += 1;
            }
            data_len = start + bytes.len();
        }
        let hash_code: u64 = self.hash_code;
        let null_bitmap_idx: usize = self.null_bitmap_idx + 1;
        *self = FixedSizeKeySerializer {
            buffer,
            null_bitmap,
            null_bitmap_idx,
            data_len,
            hash_code,
        };
        assert(self.state().present =~= before.state().present.push(data is Some));
        if fits {
            assert(self.state().bytes =~= before.state().bytes + serialized.bytes());
            Ok(())
        } else {
            Err(Error::KeyTooLong)
        }
    }

    fn into_hash_key(self) -> (r: FixedSizeKey<N>) {
        proof {
            use_type_invariant(&self);
        }
        let r = FixedSizeKey {
            hash_code: self.hash_code,
            key: self.buffer,
            null_bitmap: self.null_bitmap,
        };
        assert(r.key() =~= self.state().bytes + Seq::new(
            (N - self.state().bytes.len()) as nat,
            |i: int| 0u8,
        ));
        r
    }
}

/// What a [`SerializedKeySerializer`] has collected.
pub struct SerializedKeyState {
    /// The hash code of the row.
    pub hash_code: u64,
    /// For each column, whether it was not null.
    pub present: Seq<bool>,
    /// For each column its value, or the default value of its type where it was null.
    pub values: Seq<types::Value>,
}

/// Designed for hash keys which can't be represented by [`FixedSizeKey`].
///
/// When any of following conditions is met, we choose [`SerializedKey`]:
/// 1. Has variable size column.
/// 2. Number of columns exceeds [`MAX_FIXED_SIZE_KEY_ELEMENTS`]
/// 3. Sizes of data types exceed what a fixed-size key can hold.
/// 4. Any column's serialized format can't be used for equality check.
pub struct SerializedKey {
    key: Vec<ScalarImpl>,
    null_bitmap: Vec<bool>,
    hash_code: u64,
}

impl SerializedKey {
    pub closed spec fn hash_code(&self) -> u64 {
        self.hash_code
    }

    pub closed spec fn values(&self) -> Seq<types::Value> {
        scalar_values(self.key@)
    }

    pub closed spec fn present(&self) -> Seq<bool> {
        self.null_bitmap@
    }

    /// The hash code that the key was made with.
    pub fn get_hash_code(&self) -> (r: u64)
        ensures
            r == self.hash_code(),
    {
        self.hash_code
    }

    /// What a hasher of `build_hasher` finishes with once it was given the key's hash code.
    pub fn precomputed_hash(&self, build_hasher: &PrecomputedBuildHasher) -> (r: u64)
        ensures
            r == self.hash_code(),
    {
        let mut hasher = build_hasher.build_hasher();
        hasher.write_u64(self.get_hash_code());
        hasher.finish()
    }
}

/// What decides whether two sequences of values are equal.
pub open spec fn normal_values(values: Seq<types::Value>) -> Seq<types::Value> {
    values.map_values(|v: types::Value| v.normal())
}

/// What these scalars hold.
pub open spec fn scalar_values(scalars: Seq<ScalarImpl>) -> Seq<types::Value> {
    scalars.map_values(|s: ScalarImpl| s@)
}

pub struct SerializedKeySerializer {
    buffer: Vec<ScalarImpl>,
    null_bitmap: Vec<bool>,
    hash_code: u64,
}

impl HashKeySerializer for SerializedKeySerializer {
    type K = SerializedKey;

    type State = SerializedKeyState;

    closed spec fn state(&self) -> SerializedKeyState {
        SerializedKeyState {
            hash_code: self.hash_code,
            present: self.null_bitmap@,
            values: scalar_values(self.buffer@),
        }
    }

    open spec fn initial(hash_code: u64) -> SerializedKeyState {
        SerializedKeyState { hash_code, present: Seq::empty(), values: Seq::empty() }
    }

    open spec fn accepts(s: SerializedKeyState, t: DataType) -> bool {
        true
    }

    open spec fn appended(s: SerializedKeyState, t: DataType, d: Datum) -> (
        SerializedKeyState,
        Result<(), Error>,
    ) {
        (
            SerializedKeyState {
                present: s.present.push(d is Some),
                values: s.values.push(value_or_default(t, d)),
                ..s
            },
            Ok(()),
        )
    }

    open spec fn makes(s: SerializedKeyState, k: SerializedKey) -> bool {
        &&& k.hash_code() == s.hash_code
        &&& k.present() == s.present
        &&& k.values() == s.values
    }

    fn from_hash_code(hash_code: u64) -> (r: Self) {
        let r = SerializedKeySerializer { buffer: Vec::new(), null_bitmap: Vec::new(), hash_code };
        assert(r.state().values =~= Seq::empty());
        r
    }

    fn append<'a, D: HashKeySerialize<'a>>(&mut self, data: Option<D>) -> (r: Result<(), Error>) {
        let ghost before = self.buffer@;
        match data {
            Some(v) => {
                self.buffer.push(v.to_scalar_value());
                self.null_bitmap.push(true);
            },
            None => {
                let v: D = D::default();
                proof {
                    D::lemma_default(v);
                }
                self.buffer.push(v.to_scalar_value());
                self.null_bitmap.push(false);
            },
        }
        assert(scalar_values(self.buffer@) =~= scalar_values(before).push(
            value_or_default(D::data_type(), array::ref_datum(data)),
        ));
        Ok(())
    }

    fn into_hash_key(self) -> (r: SerializedKey) {
        SerializedKey {
            key: self.buffer,
            null_bitmap: self.null_bitmap,
            hash_code: self.hash_code,
        }
    }
}

/// Keys are equal when their bytes and their null bitmaps are; the hash code does not count.
impl<const N: usize> PartialEq for FixedSizeKey<N> {
    fn eq(&self, other: &Self) -> (r: bool) {
        let mut i: usize = 0;
        while i < N
            invariant
                i <= N,
                forall|j: int| 0 <= j < i ==> self.key@[j] == other.key@[j],
            decreases N - i,
        {
            if self.key[i] != other.key[i] {
                assert(self.key()[i as int] != other.key()[i as int]);
                return false;
            }
            i += 1;
        }
        assert(self.key() =~= other.key());
        self.null_bitmap == other.null_bitmap
    }
}

impl<const N: usize> vstd::std_specs::cmp::PartialEqSpecImpl for FixedSizeKey<N> {
    open spec fn obeys_eq_spec() -> bool {
        true
    }

    open spec fn eq_spec(&self, other: &Self) -> bool {
        self.key() == other.key() && self.null_bitmap() == other.null_bitmap()
    }
}

impl<const N: usize> Eq for FixedSizeKey<N> {

}

/// Keys are equal when their values and their null bitmaps are; the hash code does not count.
impl PartialEq for SerializedKey {
    fn eq(&self, other: &Self) -> (r: bool) {
        if self.null_bitmap.len() != other.null_bitmap.len() || self.key.len() != other.key.len() {
            assert(normal_values(self.values()).len() == self.key@.len());
            assert(normal_values(other.values()).len() == other.key@.len());
            return false;
        }
        let mut i: usize = 0;
        while i < self.null_bitmap.len()
            invariant
                i <= self.null_bitmap@.len() == other.null_bitmap@.len(),
                forall|j: int| 0 <= j < i ==> self.null_bitmap@[j] == other.null_bitmap@[j],
            decreases self.null_bitmap@.len() - i,
        {
            if self.null_bitmap[i] != other.null_bitmap[i] {
                assert(self.present()[i as int] != other.present()[i as int]);
                return false;
            }
            i += 1;
        }
        assert(self.present() =~= other.present());
        let mut i: usize = 0;
        while i < self.key.len()
            invariant
                i <= self.key@.len() == other.key@.len(),
                forall|j: int|
                    0 <= j < i ==> normal_values(self.values())[j] == normal_values(
                        other.values(),
                    )[j],
            decreases self.key@.len() - i,
        {
            if self.key[i] != other.key[i] {
                assert(normal_values(self.values())[i as int] != normal_values(
                    other.values(),
                )[i as int]);
                return false;
            }
            i += 1;
        }
        assert(normal_values(self.values()) =~= normal_values(other.values()));
        true
    }
}

impl vstd::std_specs::cmp::PartialEqSpecImpl for SerializedKey {
    open spec fn obeys_eq_spec() -> bool {
        true
    }

    open spec fn eq_spec(&self, other: &Self) -> bool {
        self.present() == other.present() && normal_values(self.values()) == normal_values(
            other.values(),
        )
    }
}

impl Eq for SerializedKey {

}

/// Calls `std::hash::Hasher::write_u64` once, on a hasher that it takes and gives back. Nothing is
/// claimed of the hasher that comes back: it stands for whatever the hasher makes of the integer,
/// so that contracts can say that a hasher was given this integer and nothing else.
#[verifier::external_body]
pub fn feed<H: Hasher>(state: H, hash_code: u64) -> H {
    let mut state = state;
    state.write_u64(hash_code);
    state
}

/// Calls `std::hash::Hasher::write_u64` once. The hasher ends as [`feed`] may leave it.
#[verifier::external_body]
fn write_hash_code<H: Hasher>(state: &mut H, hash_code: u64)
    ensures
        call_ensures(feed::<H>, (*old(state), hash_code), *final(state)),
{
    state.write_u64(hash_code)
}

impl<const N: usize> Hash for FixedSizeKey<N> {
    /// Hands the hash code to the hasher, and nothing else.
    fn hash<H: Hasher>(&self, state: &mut H)
        ensures
            call_ensures(feed::<H>, (*old(state), self.hash_code()), *final(state)),
    {
        write_hash_code(state, self.get_hash_code())
    }
}

impl Hash for SerializedKey {
    /// Hands the hash code to the hasher, and nothing else.
    fn hash<H: Hasher>(&self, state: &mut H)
        ensures
            call_ensures(feed::<H>, (*old(state), self.hash_code()), *final(state)),
    {
        write_hash_code(state, self.get_hash_code())
    }
}

/// A special hasher designed our hashmap, which just stores precomputed hash key.
///
/// We need this because we compute hash keys in vectorized fashion, and we store them in this
/// hasher.
pub struct PrecomputedHasher {
    hash_code: u64,
}

impl PrecomputedHasher {
    pub closed spec fn hash_code(&self) -> u64 {
        self.hash_code
    }
}

impl Default for PrecomputedHasher {
    fn default() -> (r: Self)
        ensures
            r.hash_code() == 0,
    {
        PrecomputedHasher { hash_code: 0 }
    }
}

impl Hasher for PrecomputedHasher {
    fn finish(&self) -> (r: u64)
        ensures
            r == self.hash_code(),
    {
        self.hash_code
    }

    /// Replaces the hash code by the one whose eight bytes these are.
    fn write(&mut self, bytes: &[u8])
        requires
            bytes@.len() == 8,
        ensures
            bytes@ == bytes::ne_bytes(final(self).hash_code() as nat, 8),
    {
        self.hash_code = u64_from_ne_bytes(bytes);
    }

    /// Replaces the hash code.
    fn write_u64(&mut self, i: u64)
        ensures
            final(self).hash_code() == i,
    {
        self.hash_code = i;
    }
}

#[derive(Default)]
pub struct PrecomputedBuildHasher;

impl BuildHasher for PrecomputedBuildHasher {
    type Hasher = PrecomputedHasher;

    fn build_hasher(&self) -> (r: PrecomputedHasher)
        ensures
            r.hash_code() == 0,
    {
        PrecomputedHasher::default()
    }
}

impl PrecomputedBuildHasher {
    /// What a hasher finishes with once it was given these hash codes, one after the other: it has
    /// stored the last of them, and zero where it was given none.
    pub fn finish_after(&self, hash_codes: &[u64]) -> (r: u64)
        ensures
            r == (if hash_codes@.len() > 0 {
                hash_codes@.last()
            } else {
                0
            }),
    {
        let mut hasher = self.build_hasher();
        let mut i: usize = 0;
        while i < hash_codes.len()
            invariant
                i <= hash_codes@.len(),
                hasher.hash_code() == (if i > 0 {
                    hash_codes@[i - 1]
                } else {
                    0
                }),
            decreases hash_codes@.len() - i,
        {
            hasher.write_u64(hash_codes[i]);
            i += 1;
        }
        hasher.finish()
    }
}

pub type Key16 = FixedSizeKey<2>;

pub type Key32 = FixedSizeKey<4>;

pub type Key64 = FixedSizeKey<8>;

pub type Key128 = FixedSizeKey<16>;

pub type Key256 = FixedSizeKey<32>;

pub type KeySerialized = SerializedKey;

/// What these serializers have collected.
pub open spec fn states<S: HashKeySerializer>(serializers: Seq<S>) -> Seq<S::State> {
    serializers.map_values(|s: S| s.state())
}

/// How many rows are taken where `rows` entries meet `serializers` serializers.
pub open spec fn paired(rows: nat, serializers: nat) -> nat {
    if rows <= serializers {
        rows
    } else {
        serializers
    }
}

/// What has been collected once the first `n` entries of a column were appended, each to the
/// serializer of its row, up to the first that failed; and how it went.
pub open spec fn appended_rows<S: HashKeySerializer>(
    states: Seq<S::State>,
    t: DataType,
    column: Seq<Datum>,
    n: nat,
) -> (Seq<S::State>, Result<(), Error>)
    decreases n,
{
    if n == 0 {
        (states, Ok(()))
    } else {
        let r = (n - 1) as nat;
        let (before, result) = appended_rows::<S>(states, t, column, r);
        if result is Err {
            (before, result)
        } else {
            let (state, result) = S::appended(before[r as int], t, column[r as int]);
            (before.update(r as int, state), result)
        }
    }
}

/// Whether each of the first `n` entries of a column is accepted, unless one before it failed.
pub open spec fn accepts_rows<S: HashKeySerializer>(
    states: Seq<S::State>,
    t: DataType,
    column: Seq<Datum>,
    n: nat,
) -> bool {
    forall|r: int| #![trigger states[r]]
        0 <= r < n && appended_rows::<S>(states, t, column, r as nat).1 is Ok ==> S::accepts(
            states[r],
            t,
        )
}

/// Appending a column keeps the number of rows, and leaves the rows that it has not reached.
pub proof fn lemma_appended_rows_frame<S: HashKeySerializer>(
    states: Seq<S::State>,
    t: DataType,
    column: Seq<Datum>,
    n: nat,
)
    requires
        n <= states.len(),
    ensures
        appended_rows::<S>(states, t, column, n).0.len() == states.len(),
        forall|i: int|
            n <= i < states.len() ==> appended_rows::<S>(states, t, column, n).0[i] == states[i],
    decreases n,
{
    if n > 0 {
        lemma_appended_rows_frame::<S>(states, t, column, (n - 1) as nat);
    }
}

/// Where a prefix of a column fails, the whole column fails in the same way.
proof fn lemma_appended_rows_stuck<S: HashKeySerializer>(
    states: Seq<S::State>,
    t: DataType,
    column: Seq<Datum>,
    m: nat,
    n: nat,
)
    requires
        m <= n,
        appended_rows::<S>(states, t, column, m).1 is Err,
    ensures
        appended_rows::<S>(states, t, column, n) == appended_rows::<S>(states, t, column, m),
    decreases n,
{
    if m < n {
        lemma_appended_rows_stuck::<S>(states, t, column, m, (n - 1) as nat);
    }
}

/// Appends the entries of an array, each to the serializer of its row.
pub fn serialize_array_to_hash_key<'a, A, S>(array: &'a A, serializers: &mut Vec<S>) -> (r: Result<
    (),
    Error,
>) where A: Array, A::RefItem<'a>: HashKeySerialize<'a>, S: HashKeySerializer
    requires
        accepts_rows::<S>(
            states(old(serializers)@),
            A::item_type(),
            array.data(),
            paired(array.data().len(), old(serializers)@.len()),
        ),
    ensures
        (states(final(serializers)@), r) == appended_rows::<S>(
            states(old(serializers)@),
            A::item_type(),
            array.data(),
            paired(array.data().len(), old(serializers)@.len()),
        ),
{
    let ghost before = states(serializers@);
    let ghost t = A::item_type();
    let ghost column = array.data();
    let ghost n = paired(column.len(), serializers@.len());
    let mut i: usize = 0;
    while i < array.len() && i < serializers.len()
        invariant
            i <= n,
            n == paired(column.len(), serializers@.len()),
            before == states(old(serializers)@),
            before.len() == serializers@.len(),
            t == A::item_type(),
            column == array.data(),
            accepts_rows::<S>(before, t, column, n),
            states(serializers@) == appended_rows::<S>(before, t, column, i as nat).0,
            appended_rows::<S>(before, t, column, i as nat).1 is Ok,
        decreases n - i,
    {
        proof {
            lemma_appended_rows_frame::<S>(before, t, column, i as nat);
            assert(states(serializers@)[i as int] == before[i as int]);
        }
        let ghost current = serializers@;
        let item = array.value_at(i);
        let serializer: &mut S = &mut serializers[i];
        let result = serializer.append(item);
        proof {
            assert(states(serializers@) =~= states(current).update(
                i as int,
                serializers@[i as int].state(),
            ));
            assert((serializers@[i as int].state(), result) == S::appended(
                before[i as int],
                t,
                column[i as int],
            ));
            let next = appended_rows::<S>(before, t, column, (i + 1) as nat);
            assert(next.0 == states(serializers@));
            assert(next.1 == result);
        }
        match result {
            Ok(()) => {},
            Err(e) => {
                proof {
                    lemma_appended_rows_stuck::<S>(before, t, column, (i + 1) as nat, n);
                }
                return Err(e);
            },
        }
        i += 1;
    }
    assert(i == n);
    assert(appended_rows::<S>(before, t, column, n).1->Ok_0 == ());
    assert(states(serializers@) == appended_rows::<S>(before, t, column, n).0);
    Ok(())
}

impl ArrayImpl {
    /// Appends the entries of the array, each to the serializer of its row.
    pub fn serialize_to_hash_key<S: HashKeySerializer>(&self, serializers: &mut Vec<S>) -> (r:
        Result<(), Error>)
        requires
            accepts_rows::<S>(
                states(old(serializers)@),
                self.item_type(),
                self.data(),
                paired(self.data().len(), old(serializers)@.len()),
            ),
        ensures
            (states(final(serializers)@), r) == appended_rows::<S>(
                states(old(serializers)@),
                self.item_type(),
                self.data(),
                paired(self.data().len(), old(serializers)@.len()),
            ),
    {
        match self {
            ArrayImpl::Bool(inner) => serialize_array_to_hash_key(inner, serializers),
            ArrayImpl::Int16(inner) => serialize_array_to_hash_key(inner, serializers),
            ArrayImpl::Int32(inner) => serialize_array_to_hash_key(inner, serializers),
            ArrayImpl::Int64(inner) => serialize_array_to_hash_key(inner, serializers),
            ArrayImpl::Float32(inner) => serialize_array_to_hash_key(inner, serializers),
            ArrayImpl::Float64(inner) => serialize_array_to_hash_key(inner, serializers),
            ArrayImpl::Decimal(inner) => serialize_array_to_hash_key(inner, serializers),
            ArrayImpl::Interval(inner) => serialize_array_to_hash_key(inner, serializers),
            ArrayImpl::Utf8(inner) => serialize_array_to_hash_key(inner, serializers),
        }
    }
}

/// What has been collected once the first `k` of these columns of a chunk were appended, up to the
/// first that failed; and how it went.
pub open spec fn appended_columns<S: HashKeySerializer>(
    states: Seq<S::State>,
    chunk: array::ChunkView,
    idxes: Seq<usize>,
    k: nat,
) -> (Seq<S::State>, Result<(), Error>)
    decreases k,
{
    if k == 0 {
        (states, Ok(()))
    } else {
        let (before, result) = appended_columns::<S>(states, chunk, idxes, (k - 1) as nat);
        let c = idxes[k - 1];
        if result is Err {
            (before, result)
        } else if c >= chunk.columns.len() {
            (before, Err(Error::ColumnNotFound { index: c }))
        } else {
            appended_rows::<S>(
                before,
                chunk.types[c as int],
                chunk.columns[c as int],
                paired(chunk.capacity, states.len()),
            )
        }
    }
}

/// Whether each of these columns of a chunk is accepted, unless one before it failed.
pub open spec fn accepts_columns<S: HashKeySerializer>(
    states: Seq<S::State>,
    chunk: array::ChunkView,
    idxes: Seq<usize>,
) -> bool {
    forall|k: int| #![trigger idxes[k]]
        0 <= k < idxes.len() && idxes[k] < chunk.columns.len() ==> {
            let (before, result) = appended_columns::<S>(states, chunk, idxes, k as nat);
            result is Ok ==> accepts_rows::<S>(
                before,
                chunk.types[idxes[k] as int],
                chunk.columns[idxes[k] as int],
                paired(chunk.capacity, states.len()),
            )
        }
}

/// Where the first columns fail, all of them fail in the same way.
pub proof fn lemma_appended_columns_stuck<S: HashKeySerializer>(
    states: Seq<S::State>,
    chunk: array::ChunkView,
    idxes: Seq<usize>,
    j: nat,
    k: nat,
)
    requires
        j <= k,
        appended_columns::<S>(states, chunk, idxes, j).1 is Err,
    ensures
        appended_columns::<S>(states, chunk, idxes, k) == appended_columns::<S>(
            states,
            chunk,
            idxes,
            j,
        ),
    decreases k,
{
    if j < k {
        lemma_appended_columns_stuck::<S>(states, chunk, idxes, j, (k - 1) as nat);
    }
}

/// Before any column: one serializer for each hash code.
pub open spec fn initial_states<S: HashKeySerializer>(hash_codes: Seq<u64>) -> Seq<S::State> {
    hash_codes.map_values(|h: u64| S::initial(h))
}

/// Whether `result` is what building keys of these columns of a chunk gives, where the rows have
/// these hash codes.
pub open spec fn built_with<S: HashKeySerializer>(
    hash_codes: Seq<u64>,
    chunk: array::ChunkView,
    idxes: Seq<usize>,
    result: Result<Vec<S::K>, Error>,
) -> bool {
    let (collected, outcome) = appended_columns::<S>(
        initial_states::<S>(hash_codes),
        chunk,
        idxes,
        idxes.len(),
    );
    match outcome {
        Err(e) => result == Err::<Vec<S::K>, Error>(e),
        Ok(()) => result matches Ok(keys) && {
            &&& keys@.len() == hash_codes.len()
            &&& forall|i: int| #![trigger keys@[i]]
                0 <= i < keys@.len() ==> S::makes(collected[i], keys@[i])
        },
    }
}

/// The hash codes of the rows of a chunk over these columns.
pub open spec fn row_hashes(chunk: array::ChunkView, idxes: Seq<usize>) -> Seq<u64> {
    Seq::new(chunk.capacity, |i: int| array::row_hash(chunk.row(idxes, i)))
}

/// Whether building keys of these columns of a chunk reaches no entry that is not accepted,
/// whatever the hash codes of its rows.
pub open spec fn accepts_chunk<S: HashKeySerializer>(
    chunk: array::ChunkView,
    idxes: Seq<usize>,
) -> bool {
    chunk.has_columns(idxes) ==> forall|hash_codes: Seq<u64>|
        hash_codes.len() == chunk.capacity ==> accepts_columns::<S>(
            #[trigger] initial_states::<S>(hash_codes),
            chunk,
            idxes,
        )
}

/// Whether `result` is what building keys of these columns of a chunk gives.
pub open spec fn built<S: HashKeySerializer>(
    chunk: array::ChunkView,
    idxes: Seq<usize>,
    result: Result<Vec<S::K>, Error>,
) -> bool {
    match chunk.first_missing(idxes) {
        Some(index) => result == Err::<Vec<S::K>, Error>(Error::ColumnNotFound { index }),
        None => built_with::<S>(row_hashes(chunk, idxes), chunk, idxes, result),
    }
}

/// The key of each row of a chunk over these columns, where the rows have these hash codes.
pub fn build_with_hash_codes<S: HashKeySerializer>(
    hash_codes: Vec<u64>,
    column_idxes: &[usize],
    data_chunk: &DataChunk,
) -> (r: Result<Vec<S::K>, Error>)
    requires
        accepts_columns::<S>(
            initial_states::<S>(hash_codes@),
            data_chunk@,
            column_idxes@,
        ),
    ensures
        built_with::<S>(hash_codes@, data_chunk@, column_idxes@, r),
{
    let ghost initial = initial_states::<S>(hash_codes@);
    let mut serializers: Vec<S> = Vec::new();
    let mut i: usize = 0;
    while i < hash_codes.len()
        invariant
            i <= hash_codes@.len(),
            initial == initial_states::<S>(hash_codes@),
            states(serializers@) == initial.take(i as int),
        decreases hash_codes@.len() - i,
    {
        let ghost before = serializers@;
        let serializer = S::from_hash_code(hash_codes[i]);
        serializers.push(serializer);
        assert(states(serializers@) =~= states(before).push(serializer.state()));
        assert(initial.take(i + 1) =~= initial.take(i as int).push(initial[i as int]));
        i += 1;
    }
    assert(initial.take(i as int) =~= initial);
    let mut k: usize = 0;
    while k < column_idxes.len()
        invariant
            k <= column_idxes@.len(),
            initial == initial_states::<S>(hash_codes@),
            initial.len() == hash_codes@.len() == serializers@.len(),
            accepts_columns::<S>(initial, data_chunk@, column_idxes@),
            states(serializers@) == appended_columns::<S>(
                initial,
                data_chunk@,
                column_idxes@,
                k as nat,
            ).0,
            appended_columns::<S>(initial, data_chunk@, column_idxes@, k as nat).1 is Ok,
        decreases column_idxes@.len() - k,
    {
        let ghost next = appended_columns::<S>(
            initial,
            data_chunk@,
            column_idxes@,
            (k + 1) as nat,
        );
        let c: usize = column_idxes[k];
        match data_chunk.column_at(c) {
            Ok(column) => {
                assert(column.data().len() == data_chunk@.capacity);
                let result = column.serialize_to_hash_key(&mut serializers);
                assert((states(serializers@), result) == next);
                proof {
                    lemma_appended_rows_frame::<S>(
                        appended_columns::<S>(
                            initial,
                            data_chunk@,
                            column_idxes@,
                            k as nat,
                        ).0,
                        data_chunk@.types[c as int],
                        data_chunk@.columns[c as int],
                        paired(data_chunk@.capacity, initial.len()),
                    );
                    assert(states(serializers@).len() == serializers@.len());
                }
                match result {
                    Ok(()) => {},
                    Err(e) => {
                        proof {
                            lemma_appended_columns_stuck::<S>(
                                initial,
                                data_chunk@,
                                column_idxes@,
                                (k + 1) as nat,
                                column_idxes@.len(),
                            );
                        }
                        return Err(e);
                    },
                }
            },
            Err(e) => {
                proof {
                    lemma_appended_columns_stuck::<S>(
                        initial,
                        data_chunk@,
                        column_idxes@,
                        (k + 1) as nat,
                        column_idxes@.len(),
                    );
                }
                return Err(e);
            },
        }
        k += 1;
    }
    let ghost collected = states(serializers@);
    let mut keys: Vec<S::K> = Vec::new();
    for serializer in iter: serializers
        invariant
            keys@.len() == iter.index(),
            iter.seq().len() == collected.len(),
            forall|j: int| #![auto] 0 <= j < collected.len() ==> iter.seq()[j].state() == collected[j],
            forall|j: int| #![trigger keys@[j]]
                0 <= j < keys@.len() ==> S::makes(
                    collected[j],
                    keys@[j],
                ),
    {
        keys.push(serializer.into_hash_key());
    }
    Ok(keys)
}

/// The key of each row of a chunk over these columns.
pub fn build_hash_keys<S: HashKeySerializer>(
    column_idxes: &[usize],
    data_chunk: &DataChunk,
) -> (r: Result<Vec<S::K>, Error>)
    requires
        accepts_chunk::<S>(data_chunk@, column_idxes@),
    ensures
        data_chunk@.well_formed(),
        built::<S>(data_chunk@, column_idxes@, r),
{
    proof {
        array::lemma_first_missing(data_chunk@, column_idxes@);
    }
    match data_chunk.get_hash_values(column_idxes) {
        Ok(hash_codes) => {
            assert(hash_codes@ =~= row_hashes(data_chunk@, column_idxes@));
            build_with_hash_codes::<S>(hash_codes, column_idxes, data_chunk)
        },
        Err(e) => Err(e),
    }
}

/// A hash key of a row.
pub trait HashKey: Hash + Eq + Sized {
    type S: HashKeySerializer<K = Self>;

    /// The key of each row of a chunk over these columns.
    fn build(column_idxes: &[usize], data_chunk: &DataChunk) -> (r: Result<Vec<Self>, Error>)
        requires
            accepts_chunk::<Self::S>(data_chunk@, column_idxes@),
        ensures
            data_chunk@.well_formed(),
            built::<Self::S>(data_chunk@, column_idxes@, r),
    ;
}

impl<const N: usize> HashKey for FixedSizeKey<N> {
    type S = FixedSizeKeySerializer<N>;

    fn build(column_idxes: &[usize], data_chunk: &DataChunk) -> (r: Result<Vec<Self>, Error>) {
        build_hash_keys::<Self::S>(column_idxes, data_chunk)
    }
}

impl HashKey for SerializedKey {
    type S = SerializedKeySerializer;

    fn build(column_idxes: &[usize], data_chunk: &DataChunk) -> (r: Result<Vec<Self>, Error>) {
        build_hash_keys::<Self::S>(column_idxes, data_chunk)
    }
}

} // verus!
