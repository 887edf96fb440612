//! What scalars and arrays hold, when two of them are equal, and what their bytes are.

use vstd::arithmetic::power;
use vstd::endian;
use vstd::prelude::*;
use vstd::std_specs::cmp::PartialEqSpec;

use crate::array;
use crate::array::{
    Array, ArrayImpl, BoolArray, DecimalArray, F32Array, F64Array, I16Array, I32Array, I64Array,
    IntervalArray, ScalarArray, Utf8Array,
};
use crate::bytes;
use crate::decimal;
use crate::decimal::Decimal;
use crate::hash_map::{HashKeySerialize, KeyBytes};
use crate::types;
use crate::types::{
    DataType, Float32, Float64, IntervalUnit, ReadScalar, Scalar, ScalarImpl, ScalarRef,
};

verus! {

/// Two values are equal exactly when they are the same value, except that decimals are equal
/// exactly when they stand for the same number.
pub proof fn law_equal_values(v: types::Value, w: types::Value)
    ensures
        v.normal() == w.normal() <==> (match (v, w) {
            (types::Value::Decimal(p), types::Value::Decimal(q)) => p.mantissa * power::pow(
                10,
                q.scale,
            ) == q.mantissa * power::pow(10, p.scale),
            _ => v == w,
        }),
{
    if let (types::Value::Decimal(p), types::Value::Decimal(q)) = (v, w) {
        decimal::law_normal_form_stands_for_number(p, q);
    }
}

/// Two scalars compare equal exactly when they are of one type and hold the same; decimals when
/// they stand for the same number, strings when all their characters are the same.
pub proof fn law_equal_scalars(a: ScalarImpl, b: ScalarImpl)
    ensures
        a.eq_spec(&b) <==> (match (a, b) {
            (ScalarImpl::Bool(x), ScalarImpl::Bool(y)) => x == y,
            (ScalarImpl::Int16(x), ScalarImpl::Int16(y)) => x == y,
            (ScalarImpl::Int32(x), ScalarImpl::Int32(y)) => x == y,
            (ScalarImpl::Int64(x), ScalarImpl::Int64(y)) => x == y,
            (ScalarImpl::Float32(x), ScalarImpl::Float32(y)) => x.bits == y.bits,
            (ScalarImpl::Float64(x), ScalarImpl::Float64(y)) => x.bits == y.bits,
            (ScalarImpl::Decimal(x), ScalarImpl::Decimal(y)) => x.parts().mantissa * power::pow(
                10,
                y.parts().scale,
            ) == y.parts().mantissa * power::pow(10, x.parts().scale),
            (ScalarImpl::Interval(x), ScalarImpl::Interval(y)) => x.months == y.months && x.days
                == y.days && x.ms == y.ms,
            (ScalarImpl::Utf8(x), ScalarImpl::Utf8(y)) => x@ == y@,
            _ => false,
        }),
{
    law_equal_values(a@, b@);
}

/// A scalar that owns what it holds stands for just that.
pub proof fn law_scalars_hold_what_they_are(
    b: bool,
    i: i16,
    j: i32,
    k: i64,
    f: Float32,
    g: Float64,
    d: Decimal,
    u: IntervalUnit,
    s: String,
)
    ensures
        ScalarImpl::Bool(b)@ == types::Value::Bool(b),
        ScalarImpl::Int16(i)@ == types::Value::Int16(i),
        ScalarImpl::Int32(j)@ == types::Value::Int32(j),
        ScalarImpl::Int64(k)@ == types::Value::Int64(k),
        ScalarImpl::Float32(f)@ == types::Value::Float32(f.bits),
        ScalarImpl::Float64(g)@ == types::Value::Float64(g.bits),
        ScalarImpl::Decimal(d)@ == types::Value::Decimal(d.parts()),
        ScalarImpl::Interval(u)@ == types::Value::Interval(u),
        ScalarImpl::Utf8(s)@ == types::Value::Utf8(s@),
{
}

/// An entry that is stored in an array is the value that was put in, and null where none was.
pub proof fn law_stored_entries(
    b: Option<bool>,
    i: Option<i16>,
    j: Option<i32>,
    k: Option<i64>,
    f: Option<Float32>,
    g: Option<Float64>,
    d: Option<Decimal>,
    u: Option<IntervalUnit>,
    s: Option<String>,
)
    ensures
        array::stored_datum(b) == (match b {
            Some(v) => Some(types::Value::Bool(v)),
            None => None,
        }),
        array::stored_datum(i) == (match i {
            Some(v) => Some(types::Value::Int16(v)),
            None => None,
        }),
        array::stored_datum(j) == (match j {
            Some(v) => Some(types::Value::Int32(v)),
            None => None,
        }),
        array::stored_datum(k) == (match k {
            Some(v) => Some(types::Value::Int64(v)),
            None => None,
        }),
        array::stored_datum(f) == (match f {
            Some(v) => Some(types::Value::Float32(v.bits)),
            None => None,
        }),
        array::stored_datum(g) == (match g {
            Some(v) => Some(types::Value::Float64(v.bits)),
            None => None,
        }),
        array::stored_datum(d) == (match d {
            Some(v) => Some(types::Value::Decimal(v.parts())),
            None => None,
        }),
        array::stored_datum(u) == (match u {
            Some(v) => Some(types::Value::Interval(v)),
            None => None,
        }),
        array::stored_datum(s) == (match s {
            Some(v) => Some(types::Value::Utf8(v@)),
            None => None,
        }),
{
}

/// An entry that is read from an array is the value that the reader sees, and null where there is
/// none.
pub proof fn law_read_entries<'a>(
    b: Option<bool>,
    i: Option<i16>,
    j: Option<i32>,
    k: Option<i64>,
    f: Option<Float32>,
    g: Option<Float64>,
    d: Option<Decimal>,
    u: Option<IntervalUnit>,
    s: Option<&'a str>,
)
    ensures
        array::ref_datum(b) == (match b {
            Some(v) => Some(types::Value::Bool(v)),
            None => None,
        }),
        array::ref_datum(i) == (match i {
            Some(v) => Some(types::Value::Int16(v)),
            None => None,
        }),
        array::ref_datum(j) == (match j {
            Some(v) => Some(types::Value::Int32(v)),
            None => None,
        }),
        array::ref_datum(k) == (match k {
            Some(v) => Some(types::Value::Int64(v)),
            None => None,
        }),
        array::ref_datum(f) == (match f {
            Some(v) => Some(types::Value::Float32(v.bits)),
            None => None,
        }),
        array::ref_datum(g) == (match g {
            Some(v) => Some(types::Value::Float64(v.bits)),
            None => None,
        }),
        array::ref_datum(d) == (match d {
            Some(v) => Some(types::Value::Decimal(v.parts())),
            None => None,
        }),
        array::ref_datum(u) == (match u {
            Some(v) => Some(types::Value::Interval(v)),
            None => None,
        }),
        array::ref_datum(s) == (match s {
            Some(v) => Some(types::Value::Utf8(v@)),
            None => None,
        }),
{
}

/// An array of this type that is made of a vector holds at each index the value that is there in
/// the vector, and null where there is none.
pub proof fn law_bool_array_holds_its_vector(data: Vec<Option<bool>>, array: BoolArray, i: int)
    requires
        call_ensures(BoolArray::new, (data,), array),
        0 <= i < data@.len(),
    ensures
        array.items().len() == data@.len(),
        array.items()[i] == (match data@[i] {
            Some(v) => Some(types::Value::Bool(v)),
            None => None,
        }),
{
}

/// An array of this type that is made of a vector holds at each index the value that is there in
/// the vector, and null where there is none.
pub proof fn law_i16_array_holds_its_vector(data: Vec<Option<i16>>, array: I16Array, i: int)
    requires
        call_ensures(I16Array::new, (data,), array),
        0 <= i < data@.len(),
    ensures
        array.items().len() == data@.len(),
        array.items()[i] == (match data@[i] {
            Some(v) => Some(types::Value::Int16(v)),
            None => None,
        }),
{
}

/// An array of this type that is made of a vector holds at each index the value that is there in
/// the vector, and null where there is none.
pub proof fn law_i32_array_holds_its_vector(data: Vec<Option<i32>>, array: I32Array, i: int)
    requires
        call_ensures(I32Array::new, (data,), array),
        0 <= i < data@.len(),
    ensures
        array.items().len() == data@.len(),
        array.items()[i] == (match data@[i] {
            Some(v) => Some(types::Value::Int32(v)),
            None => None,
        }),
{
}

/// An array of this type that is made of a vector holds at each index the value that is there in
/// the vector, and null where there is none.
pub proof fn law_i64_array_holds_its_vector(data: Vec<Option<i64>>, array: I64Array, i: int)
    requires
        call_ensures(I64Array::new, (data,), array),
        0 <= i < data@.len(),
    ensures
        array.items().len() == data@.len(),
        array.items()[i] == (match data@[i] {
            Some(v) => Some(types::Value::Int64(v)),
            None => None,
        }),
{
}

/// An array of this type that is made of a vector holds at each index the value that is there in
/// the vector, and null where there is none.
pub proof fn law_float32_array_holds_its_vector(data: Vec<Option<Float32>>, array: F32Array, i: int)
    requires
        call_ensures(F32Array::new, (data,), array),
        0 <= i < data@.len(),
    ensures
        array.items().len() == data@.len(),
        array.items()[i] == (match data@[i] {
            Some(v) => Some(types::Value::Float32(v.bits)),
            None => None,
        }),
{
}

/// An array of this type that is made of a vector holds at each index the value that is there in
/// the vector, and null where there is none.
pub proof fn law_float64_array_holds_its_vector(data: Vec<Option<Float64>>, array: F64Array, i: int)
    requires
        call_ensures(F64Array::new, (data,), array),
        0 <= i < data@.len(),
    ensures
        array.items().len() == data@.len(),
        array.items()[i] == (match data@[i] {
            Some(v) => Some(types::Value::Float64(v.bits)),
            None => None,
        }),
{
}

/// An array of this type that is made of a vector holds at each index the value that is there in
/// the vector, and null where there is none.
pub proof fn law_decimal_array_holds_its_vector(data: Vec<Option<Decimal>>, array: DecimalArray, i: int)
    requires
        call_ensures(DecimalArray::new, (data,), array),
        0 <= i < data@.len(),
    ensures
        array.items().len() == data@.len(),
        array.items()[i] == (match data@[i] {
            Some(v) => Some(types::Value::Decimal(v.parts())),
            None => None,
        }),
{
}

/// An array of this type that is made of a vector holds at each index the value that is there in
/// the vector, and null where there is none.
pub proof fn law_interval_array_holds_its_vector(data: Vec<Option<IntervalUnit>>, array: IntervalArray, i: int)
    requires
        call_ensures(IntervalArray::new, (data,), array),
        0 <= i < data@.len(),
    ensures
        array.items().len() == data@.len(),
        array.items()[i] == (match data@[i] {
            Some(v) => Some(types::Value::Interval(v)),
            None => None,
        }),
{
}

/// An array of this type that is made of a vector holds at each index the value that is there in
/// the vector, and null where there is none.
pub proof fn law_utf8_array_holds_its_vector(data: Vec<Option<String>>, array: Utf8Array, i: int)
    requires
        call_ensures(Utf8Array::new, (data,), array),
        0 <= i < data@.len(),
    ensures
        array.items().len() == data@.len(),
        array.items()[i] == (match data@[i] {
            Some(v) => Some(types::Value::Utf8(v@)),
            None => None,
        }),
{
}

/// The types of scalars, stored and read.
pub proof fn law_scalar_types<'a>()
    ensures
        <bool as Scalar>::scalar_type() == DataType::Boolean,
        <i16 as Scalar>::scalar_type() == DataType::Int16,
        <i32 as Scalar>::scalar_type() == DataType::Int32,
        <i64 as Scalar>::scalar_type() == DataType::Int64,
        <Float32 as Scalar>::scalar_type() == DataType::Float32,
        <Float64 as Scalar>::scalar_type() == DataType::Float64,
        <Decimal as Scalar>::scalar_type() == DataType::Decimal,
        <IntervalUnit as Scalar>::scalar_type() == DataType::Interval,
        <String as Scalar>::scalar_type() == DataType::Varchar,
        <bool as ScalarRef<'a>>::data_type() == DataType::Boolean,
        <i16 as ScalarRef<'a>>::data_type() == DataType::Int16,
        <i32 as ScalarRef<'a>>::data_type() == DataType::Int32,
        <i64 as ScalarRef<'a>>::data_type() == DataType::Int64,
        <Float32 as ScalarRef<'a>>::data_type() == DataType::Float32,
        <Float64 as ScalarRef<'a>>::data_type() == DataType::Float64,
        <Decimal as ScalarRef<'a>>::data_type() == DataType::Decimal,
        <IntervalUnit as ScalarRef<'a>>::data_type() == DataType::Interval,
        <&'a str as ScalarRef<'a>>::data_type() == DataType::Varchar,
{
}

/// An array of any type holds what the array of its type holds.
pub proof fn law_arrays_hold_their_entries(
    b: BoolArray,
    i: I16Array,
    j: I32Array,
    k: I64Array,
    f: F32Array,
    g: F64Array,
    d: DecimalArray,
    u: IntervalArray,
    s: Utf8Array,
)
    ensures
        ArrayImpl::Bool(b).data() == b.items(),
        ArrayImpl::Int16(i).data() == i.items(),
        ArrayImpl::Int32(j).data() == j.items(),
        ArrayImpl::Int64(k).data() == k.items(),
        ArrayImpl::Float32(f).data() == f.items(),
        ArrayImpl::Float64(g).data() == g.items(),
        ArrayImpl::Decimal(d).data() == d.items(),
        ArrayImpl::Interval(u).data() == u.items(),
        ArrayImpl::Utf8(s).data() == s.items(),
        ArrayImpl::Bool(b).item_type() == DataType::Boolean,
        ArrayImpl::Int16(i).item_type() == DataType::Int16,
        ArrayImpl::Int32(j).item_type() == DataType::Int32,
        ArrayImpl::Int64(k).item_type() == DataType::Int64,
        ArrayImpl::Float32(f).item_type() == DataType::Float32,
        ArrayImpl::Float64(g).item_type() == DataType::Float64,
        ArrayImpl::Decimal(d).item_type() == DataType::Decimal,
        ArrayImpl::Interval(u).item_type() == DataType::Interval,
        ArrayImpl::Utf8(s).item_type() == DataType::Varchar,
{
}

/// The type of a value is that of the scalars that hold it, and its width in a key is the number
/// of bytes of its machine representation. A string has no width.
pub proof fn law_widths(v: types::Value)
    ensures
        match v {
            types::Value::Bool(_) => v.data_type() == DataType::Boolean,
            types::Value::Int16(_) => v.data_type() == DataType::Int16,
            types::Value::Int32(_) => v.data_type() == DataType::Int32,
            types::Value::Int64(_) => v.data_type() == DataType::Int64,
            types::Value::Float32(_) => v.data_type() == DataType::Float32,
            types::Value::Float64(_) => v.data_type() == DataType::Float64,
            types::Value::Decimal(_) => v.data_type() == DataType::Decimal,
            types::Value::Interval(_) => v.data_type() == DataType::Interval,
            types::Value::Utf8(_) => v.data_type() == DataType::Varchar,
        },
        DataType::Boolean.key_width() == Some(1nat),
        DataType::Int16.key_width() == Some(2nat),
        DataType::Int32.key_width() == Some(4nat),
        DataType::Int64.key_width() == Some(8nat),
        DataType::Float32.key_width() == Some(4nat),
        DataType::Float64.key_width() == Some(8nat),
        DataType::Decimal.key_width() == Some(16nat),
        DataType::Interval.key_width() == Some(16nat),
        DataType::Varchar.key_width() is None,
{
}

/// What stands in a key for null: false, zero, or the empty string.
pub proof fn law_default_values(t: DataType)
    ensures
        t.default_value() == (match t {
            DataType::Boolean => types::Value::Bool(false),
            DataType::Int16 => types::Value::Int16(0),
            DataType::Int32 => types::Value::Int32(0),
            DataType::Int64 => types::Value::Int64(0),
            DataType::Float32 => types::Value::Float32(0),
            DataType::Float64 => types::Value::Float64(0),
            DataType::Decimal => types::Value::Decimal(
                decimal::DecimalParts { mantissa: 0, scale: 0 },
            ),
            DataType::Interval => types::Value::Interval(
                IntervalUnit { months: 0, days: 0, ms: 0 },
            ),
            DataType::Varchar => types::Value::Utf8(Seq::<char>::empty()),
        }),
{
}

/// Digit `i` of an integer of `n` bytes, in base 256, is where the machine's byte order puts it.
proof fn lemma_integer_digit(v: int, n: nat, i: int)
    requires
        0 <= i < n,
        -power::pow(256, n) <= 2 * v < power::pow(256, n),
    ensures
        bytes::ne_bytes(bytes::twos_complement(v, n), n).len() == n,
        bytes::ne_bytes(bytes::twos_complement(v, n), n)[if endian::endianness()
            == endian::Endian::Little {
            i
        } else {
            n - 1 - i
        }] == ((v % power::pow(256, n)) / power::pow(256, i as nat)) % 256,
{
    bytes::law_twos_complement_is_remainder(v, n);
    bytes::law_ne_bytes_are_digits(bytes::twos_complement(v, n), n, i);
}

proof fn lemma_powers()
    ensures
        power::pow(256, 2) == 0x1_0000,
        power::pow(256, 4) == 0x1_0000_0000,
        power::pow(256, 8) == 0x1_0000_0000_0000_0000,
{
    reveal_with_fuel(power::pow, 9);
}

/// The bytes of an integer in a key are those of its two's complement in the byte order of the
/// machine: digit `i` in base 256 is at index `i`, or that far from the end.
pub proof fn law_integer_bytes(a: i16, b: i32, c: i64, i: int)
    ensures
        types::Value::Int16(a).bytes().len() == 2,
        types::Value::Int32(b).bytes().len() == 4,
        types::Value::Int64(c).bytes().len() == 8,
        0 <= i < 2 ==> types::Value::Int16(a).bytes()[if endian::endianness()
            == endian::Endian::Little {
            i
        } else {
            1 - i
        }] == ((a as int % 0x1_0000) / power::pow(256, i as nat)) % 256,
        0 <= i < 4 ==> types::Value::Int32(b).bytes()[if endian::endianness()
            == endian::Endian::Little {
            i
        } else {
            3 - i
        }] == ((b as int % 0x1_0000_0000) / power::pow(256, i as nat)) % 256,
        0 <= i < 8 ==> types::Value::Int64(c).bytes()[if endian::endianness()
            == endian::Endian::Little {
            i
        } else {
            7 - i
        }] == ((c as int % 0x1_0000_0000_0000_0000) / power::pow(256, i as nat)) % 256,
{
    lemma_powers();
    types::lemma_value_bytes_len(types::Value::Int16(a));
    types::lemma_value_bytes_len(types::Value::Int32(b));
    types::lemma_value_bytes_len(types::Value::Int64(c));
    if 0 <= i < 2 {
        lemma_integer_digit(a as int, 2, i);
    }
    if 0 <= i < 4 {
        lemma_integer_digit(b as int, 4, i);
    }
    if 0 <= i < 8 {
        lemma_integer_digit(c as int, 8, i);
    }
}

/// The bytes of a float in a key are those of its bit pattern in the byte order of the machine.
pub proof fn law_float_bytes(a: u32, b: u64, i: int)
    ensures
        types::Value::Float32(a).bytes().len() == 4,
        types::Value::Float64(b).bytes().len() == 8,
        0 <= i < 4 ==> types::Value::Float32(a).bytes()[if endian::endianness()
            == endian::Endian::Little {
            i
        } else {
            3 - i
        }] == (a as int / power::pow(256, i as nat)) % 256,
        0 <= i < 8 ==> types::Value::Float64(b).bytes()[if endian::endianness()
            == endian::Endian::Little {
            i
        } else {
            7 - i
        }] == (b as int / power::pow(256, i as nat)) % 256,
{
    types::lemma_value_bytes_len(types::Value::Float32(a));
    types::lemma_value_bytes_len(types::Value::Float64(b));
    if 0 <= i < 4 {
        bytes::law_ne_bytes_are_digits(a as nat, 4, i);
    }
    if 0 <= i < 8 {
        bytes::law_ne_bytes_are_digits(b as nat, 8, i);
    }
}

/// The bytes of the other values in a key: of a bool one that is 1 or 0, of a decimal those of its
/// normal form, of an interval those of its months, its days and its milliseconds, and of a string
/// those of its UTF-8 encoding.
pub proof fn law_other_bytes(b: bool, p: decimal::DecimalParts, u: IntervalUnit, s: Seq<char>)
    ensures
        types::Value::Bool(b).bytes() == seq![if b { 1u8 } else { 0u8 }],
        types::Value::Decimal(p).bytes() == p.normal_form().layout(),
        types::Value::Interval(u).bytes() == types::Value::Int32(u.months).bytes()
            + types::Value::Int32(u.days).bytes() + types::Value::Int64(u.ms).bytes(),
        types::Value::Utf8(s).bytes() == vstd::utf8::encode_utf8(s),
{
}

/// An array of scalars, read through its trait, has the entries that it holds and their type.
pub proof fn law_array_reads_its_entries<T: ReadScalar>(array: ScalarArray<T>)
    ensures
        <ScalarArray<T> as Array>::data(&array) == array.items(),
        <ScalarArray<T> as Array>::item_type() == T::scalar_type(),
{
}

/// A byte string is its bytes.
pub proof fn law_byte_strings<const N: usize>(a: [u8; N], b: Vec<u8>)
    ensures
        KeyBytes::bytes(&a) == a@,
        KeyBytes::bytes(&b) == b@,
{
}

/// A scalar of this type serializes to the bytes of the value that it holds.
pub proof fn law_bool_serializes_to_its_bytes<'a>(v: bool, bytes: [u8; 1])
    requires
        call_ensures(<bool as HashKeySerialize<'a>>::serialize, (v,), bytes),
    ensures
        bytes@ == types::Value::Bool(v).bytes(),
{
}

/// A scalar of this type serializes to the bytes of the value that it holds.
pub proof fn law_i16_serializes_to_its_bytes<'a>(v: i16, bytes: [u8; 2])
    requires
        call_ensures(<i16 as HashKeySerialize<'a>>::serialize, (v,), bytes),
    ensures
        bytes@ == types::Value::Int16(v).bytes(),
{
}

/// A scalar of this type serializes to the bytes of the value that it holds.
pub proof fn law_i32_serializes_to_its_bytes<'a>(v: i32, bytes: [u8; 4])
    requires
        call_ensures(<i32 as HashKeySerialize<'a>>::serialize, (v,), bytes),
    ensures
        bytes@ == types::Value::Int32(v).bytes(),
{
}

/// A scalar of this type serializes to the bytes of the value that it holds.
pub proof fn law_i64_serializes_to_its_bytes<'a>(v: i64, bytes: [u8; 8])
    requires
        call_ensures(<i64 as HashKeySerialize<'a>>::serialize, (v,), bytes),
    ensures
        bytes@ == types::Value::Int64(v).bytes(),
{
}

/// A scalar of this type serializes to the bytes of the value that it holds.
pub proof fn law_float32_serializes_to_its_bytes<'a>(v: Float32, bytes: [u8; 4])
    requires
        call_ensures(<Float32 as HashKeySerialize<'a>>::serialize, (v,), bytes),
    ensures
        bytes@ == types::Value::Float32(v.bits).bytes(),
{
}

/// A scalar of this type serializes to the bytes of the value that it holds.
pub proof fn law_float64_serializes_to_its_bytes<'a>(v: Float64, bytes: [u8; 8])
    requires
        call_ensures(<Float64 as HashKeySerialize<'a>>::serialize, (v,), bytes),
    ensures
        bytes@ == types::Value::Float64(v.bits).bytes(),
{
}

/// A scalar of this type serializes to the bytes of the value that it holds.
pub proof fn law_decimal_serializes_to_its_bytes<'a>(v: Decimal, bytes: [u8; 16])
    requires
        call_ensures(<Decimal as HashKeySerialize<'a>>::serialize, (v,), bytes),
    ensures
        bytes@ == types::Value::Decimal(v.parts()).bytes(),
{
}

/// A scalar of this type serializes to the bytes of the value that it holds.
pub proof fn law_interval_serializes_to_its_bytes<'a>(v: IntervalUnit, bytes: [u8; 16])
    requires
        call_ensures(<IntervalUnit as HashKeySerialize<'a>>::serialize, (v,), bytes),
    ensures
        bytes@ == types::Value::Interval(v).bytes(),
{
}

} // verus!
