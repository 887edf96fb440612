//! Data types and scalar values.

use vstd::prelude::*;
use vstd::string::*;

use crate::bytes;
use crate::decimal;
use crate::decimal::Decimal;

verus! {

/// The types that a column can have.
#[derive(Clone, Copy, Debug, PartialEq, Eq, Structural)]
pub enum DataType {
    Boolean,
    Int16,
    Int32,
    Int64,
    Float32,
    Float64,
    Decimal,
    Interval,
    Varchar,
}

impl DataType {
    /// How many bytes a value of the type takes in a hash key of fixed size; `None` for a type
    /// whose values have no fixed size.
    pub open spec fn key_width(self) -> Option<nat> {
        match self {
            DataType::Boolean => Some(1),
            DataType::Int16 => Some(2),
            DataType::Int32 => Some(4),
            DataType::Int64 => Some(8),
            DataType::Float32 => Some(4),
            DataType::Float64 => Some(8),
            DataType::Decimal => Some(16),
            DataType::Interval => Some(16),
            DataType::Varchar => None,
        }
    }

    /// The value that stands in a key where a column of the type is null.
    pub open spec fn default_value(self) -> Value {
        match self {
            DataType::Boolean => Value::Bool(false),
            DataType::Int16 => Value::Int16(0),
            DataType::Int32 => Value::Int32(0),
            DataType::Int64 => Value::Int64(0),
            DataType::Float32 => Value::Float32(0),
            DataType::Float64 => Value::Float64(0),
            DataType::Decimal => Value::Decimal(decimal::DecimalParts { mantissa: 0, scale: 0 }),
            DataType::Interval => Value::Interval(IntervalUnit { months: 0, days: 0, ms: 0 }),
            DataType::Varchar => Value::Utf8(Seq::empty()),
        }
    }
}

/// What a scalar holds: floats their bit patterns, decimals their mantissas and scales.
pub enum Value {
    Bool(bool),
    Int16(i16),
    Int32(i32),
    Int64(i64),
    Float32(u32),
    Float64(u64),
    Decimal(decimal::DecimalParts),
    Interval(IntervalUnit),
    Utf8(Seq<char>),
}

impl Value {
    pub open spec fn data_type(self) -> DataType {
        match self {
            Value::Bool(_) => DataType::Boolean,
            Value::Int16(_) => DataType::Int16,
            Value::Int32(_) => DataType::Int32,
            Value::Int64(_) => DataType::Int64,
            Value::Float32(_) => DataType::Float32,
            Value::Float64(_) => DataType::Float64,
            Value::Decimal(_) => DataType::Decimal,
            Value::Interval(_) => DataType::Interval,
            Value::Utf8(_) => DataType::Varchar,
        }
    }

    /// Whether some scalar holds this value.
    pub open spec fn valid(self) -> bool {
        self matches Value::Decimal(p) ==> p.representable()
    }

    /// What decides whether two scalars are equal: decimals by the numbers that they stand for,
    /// others by all that they hold.
    pub open spec fn normal(self) -> Value {
        match self {
            Value::Decimal(p) => Value::Decimal(p.normal_form()),
            _ => self,
        }
    }

    /// The bytes of the value in a key: those of a decimal in normal form, of others as they are.
    /// Integers and floats are in the byte order of the machine.
    pub open spec fn bytes(self) -> Seq<u8> {
        match self {
            Value::Bool(b) => seq![if b { 1u8 } else { 0u8 }],
            Value::Int16(v) => bytes::ne_bytes(bytes::twos_complement(v as int, 2), 2),
            Value::Int32(v) => bytes::ne_bytes(bytes::twos_complement(v as int, 4), 4),
            Value::Int64(v) => bytes::ne_bytes(bytes::twos_complement(v as int, 8), 8),
            Value::Float32(bits) => bytes::ne_bytes(bits as nat, 4),
            Value::Float64(bits) => bytes::ne_bytes(bits as nat, 8),
            Value::Decimal(p) => p.normal_form().layout(),
            Value::Interval(i) => bytes::ne_bytes(bytes::twos_complement(i.months as int, 4), 4)
                + bytes::ne_bytes(bytes::twos_complement(i.days as int, 4), 4)
                + bytes::ne_bytes(bytes::twos_complement(i.ms as int, 8), 8),
            Value::Utf8(s) => vstd::utf8::encode_utf8(s),
        }
    }
}

/// The bytes of a value of fixed size fill its width.
pub proof fn lemma_value_bytes_len(v: Value)
    requires
        v.data_type().key_width() is Some,
    ensures
        v.bytes().len() == v.data_type().key_width()->0,
{
    match v {
        Value::Bool(_) => {},
        Value::Int16(i) => {
            bytes::lemma_ne_bytes_len(bytes::twos_complement(i as int, 2), 2);
        },
        Value::Int32(i) => {
            bytes::lemma_ne_bytes_len(bytes::twos_complement(i as int, 4), 4);
        },
        Value::Int64(i) => {
            bytes::lemma_ne_bytes_len(bytes::twos_complement(i as int, 8), 8);
        },
        Value::Float32(bits) => {
            bytes::lemma_ne_bytes_len(bits as nat, 4);
        },
        Value::Float64(bits) => {
            bytes::lemma_ne_bytes_len(bits as nat, 8);
        },
        Value::Decimal(p) => {
            decimal::lemma_layout_len(p.normal_form());
        },
        Value::Interval(i) => {
            bytes::lemma_ne_bytes_len(bytes::twos_complement(i.months as int, 4), 4);
            bytes::lemma_ne_bytes_len(bytes::twos_complement(i.days as int, 4), 4);
            bytes::lemma_ne_bytes_len(bytes::twos_complement(i.ms as int, 8), 8);
        },
        Value::Utf8(_) => {},
    }
}

proof fn lemma_signed_bytes_injective(v: int, w: int, n: nat)
    requires
        -(bytes::pow256(n) as int) <= 2 * v < bytes::pow256(n),
        -(bytes::pow256(n) as int) <= 2 * w < bytes::pow256(n),
        bytes::ne_bytes(bytes::twos_complement(v, n), n) == bytes::ne_bytes(
            bytes::twos_complement(w, n),
            n,
        ),
    ensures
        v == w,
{
    bytes::lemma_ne_bytes_injective(
        bytes::twos_complement(v, n),
        bytes::twos_complement(w, n),
        n,
    );
    bytes::lemma_twos_complement_injective(v, w, n);
}

/// Values of one fixed-size type are equal exactly when their bytes are.
pub proof fn law_value_bytes_identify_values(v: Value, w: Value)
    requires
        v.valid(),
        w.valid(),
        v.data_type() == w.data_type(),
        v.data_type().key_width() is Some,
    ensures
        v.bytes() == w.bytes() <==> v.normal() == w.normal(),
{
    if v.bytes() == w.bytes() {
        lemma_value_bytes_injective(v, w);
    }
}

proof fn lemma_value_bytes_injective(v: Value, w: Value)
    requires
        v.valid(),
        w.valid(),
        v.data_type() == w.data_type(),
        v.data_type().key_width() is Some,
        v.bytes() == w.bytes(),
    ensures
        v.normal() == w.normal(),
{
    bytes::lemma_pow256_values();
    match (v, w) {
        (Value::Bool(a), Value::Bool(b)) => {
            assert(v.bytes()[0] == (if a { 1u8 } else { 0u8 }));
            assert(w.bytes()[0] == (if b { 1u8 } else { 0u8 }));
        },
        (Value::Int16(a), Value::Int16(b)) => {
            lemma_signed_bytes_injective(a as int, b as int, 2);
        },
        (Value::Int32(a), Value::Int32(b)) => {
            lemma_signed_bytes_injective(a as int, b as int, 4);
        },
        (Value::Int64(a), Value::Int64(b)) => {
            lemma_signed_bytes_injective(a as int, b as int, 8);
        },
        (Value::Float32(a), Value::Float32(b)) => {
            bytes::lemma_ne_bytes_injective(a as nat, b as nat, 4);
        },
        (Value::Float64(a), Value::Float64(b)) => {
            bytes::lemma_ne_bytes_injective(a as nat, b as nat, 8);
        },
        (Value::Decimal(p), Value::Decimal(q)) => {
            decimal::lemma_normal_form_representable(p);
            decimal::lemma_normal_form_representable(q);
            decimal::lemma_layout_injective(p.normal_form(), q.normal_form());
        },
        (Value::Interval(a), Value::Interval(b)) => {
            let am = bytes::ne_bytes(bytes::twos_complement(a.months as int, 4), 4);
            let bm = bytes::ne_bytes(bytes::twos_complement(b.months as int, 4), 4);
            let ad = bytes::ne_bytes(bytes::twos_complement(a.days as int, 4), 4);
            let bd = bytes::ne_bytes(bytes::twos_complement(b.days as int, 4), 4);
            let at = bytes::ne_bytes(bytes::twos_complement(a.ms as int, 8), 8);
            let bt = bytes::ne_bytes(bytes::twos_complement(b.ms as int, 8), 8);
            bytes::lemma_ne_bytes_len(bytes::twos_complement(a.months as int, 4), 4);
            bytes::lemma_ne_bytes_len(bytes::twos_complement(b.months as int, 4), 4);
            bytes::lemma_ne_bytes_len(bytes::twos_complement(a.days as int, 4), 4);
            bytes::lemma_ne_bytes_len(bytes::twos_complement(b.days as int, 4), 4);
            bytes::lemma_ne_bytes_len(bytes::twos_complement(a.ms as int, 8), 8);
            bytes::lemma_ne_bytes_len(bytes::twos_complement(b.ms as int, 8), 8);
            assert(am =~= v.bytes().subrange(0, 4) && bm =~= w.bytes().subrange(0, 4));
            assert(ad =~= v.bytes().subrange(4, 8) && bd =~= w.bytes().subrange(4, 8));
            assert(at =~= v.bytes().subrange(8, 16) && bt =~= w.bytes().subrange(8, 16));
            lemma_signed_bytes_injective(a.months as int, b.months as int, 4);
            lemma_signed_bytes_injective(a.days as int, b.days as int, 4);
            lemma_signed_bytes_injective(a.ms as int, b.ms as int, 8);
        },
        _ => {},
    }
}

/// A 32-bit float, held by its bit pattern.
#[derive(Clone, Copy, Debug, PartialEq, Eq, Structural)]
pub struct Float32 {
    pub bits: u32,
}

/// A 64-bit float, held by its bit pattern.
#[derive(Clone, Copy, Debug, PartialEq, Eq, Structural)]
pub struct Float64 {
    pub bits: u64,
}

impl Default for Float32 {
    /// Positive zero.
    fn default() -> (r: Float32)
        ensures
            r.bits == 0,
    {
        Float32 { bits: 0 }
    }
}

impl Default for Float64 {
    /// Positive zero.
    fn default() -> (r: Float64)
        ensures
            r.bits == 0,
    {
        Float64 { bits: 0 }
    }
}

/// An interval of months, days and milliseconds; the three parts are kept apart.
#[derive(Clone, Copy, Debug, PartialEq, Eq, Structural)]
pub struct IntervalUnit {
    pub months: i32,
    pub days: i32,
    pub ms: i64,
}

impl IntervalUnit {
    pub fn get_months(&self) -> (r: i32)
        ensures
            r == self.months,
    {
        self.months
    }

    pub fn get_days(&self) -> (r: i32)
        ensures
            r == self.days,
    {
        self.days
    }

    pub fn get_ms(&self) -> (r: i64)
        ensures
            r == self.ms,
    {
        self.ms
    }
}

impl Default for IntervalUnit {
    fn default() -> (r: IntervalUnit)
        ensures
            r == (IntervalUnit { months: 0, days: 0, ms: 0 }),
    {
        IntervalUnit { months: 0, days: 0, ms: 0 }
    }
}

/// A scalar of any type.
#[derive(Debug)]
pub enum ScalarImpl {
    Bool(bool),
    Int16(i16),
    Int32(i32),
    Int64(i64),
    Float32(Float32),
    Float64(Float64),
    Decimal(Decimal),
    Interval(IntervalUnit),
    Utf8(String),
}

impl View for ScalarImpl {
    type V = Value;

    open spec fn view(&self) -> Value {
        match self {
            ScalarImpl::Bool(v) => Value::Bool(*v),
            ScalarImpl::Int16(v) => Value::Int16(*v),
            ScalarImpl::Int32(v) => Value::Int32(*v),
            ScalarImpl::Int64(v) => Value::Int64(*v),
            ScalarImpl::Float32(v) => Value::Float32(v.bits),
            ScalarImpl::Float64(v) => Value::Float64(v.bits),
            ScalarImpl::Decimal(v) => Value::Decimal(v.parts()),
            ScalarImpl::Interval(v) => Value::Interval(*v),
            ScalarImpl::Utf8(v) => Value::Utf8(v@),
        }
    }
}

impl PartialEq for ScalarImpl {
    fn eq(&self, other: &Self) -> (r: bool) {
        match (self, other) {
            (ScalarImpl::Bool(a), ScalarImpl::Bool(b)) => *a == *b,
            (ScalarImpl::Int16(a), ScalarImpl::Int16(b)) => *a == *b,
            (ScalarImpl::Int32(a), ScalarImpl::Int32(b)) => *a == *b,
            (ScalarImpl::Int64(a), ScalarImpl::Int64(b)) => *a == *b,
            (ScalarImpl::Float32(a), ScalarImpl::Float32(b)) => a.bits == b.bits,
            (ScalarImpl::Float64(a), ScalarImpl::Float64(b)) => a.bits == b.bits,
            (ScalarImpl::Decimal(a), ScalarImpl::Decimal(b)) => a.same_number(b),
            (ScalarImpl::Interval(a), ScalarImpl::Interval(b)) => {
                a.months == b.months && a.days == b.days && a.ms == b.ms
            },
            (ScalarImpl::Utf8(a), ScalarImpl::Utf8(b)) => *a == *b,
            _ => false,
        }
    }
}

impl vstd::std_specs::cmp::PartialEqSpecImpl for ScalarImpl {
    open spec fn obeys_eq_spec() -> bool {
        true
    }

    open spec fn eq_spec(&self, other: &Self) -> bool {
        self@.normal() == other@.normal()
    }
}

impl Eq for ScalarImpl {

}

/// A scalar, or a reference to one, that can be read out of an array.
pub trait ScalarRef<'a>: Copy {
    /// The type of every scalar of this kind.
    spec fn data_type() -> DataType;

    /// What the scalar holds.
    spec fn value(self) -> Value;

    /// What a scalar holds is valid and of the scalar's type.
    proof fn lemma_value(self)
        ensures
            self.value().valid(),
            self.value().data_type() == Self::data_type(),
    ;

    /// The scalar as one that owns what it holds.
    fn to_scalar_value(self) -> (r: ScalarImpl)
        ensures
            r@ == self.value(),
    ;
}

impl<'a> ScalarRef<'a> for bool {
    open spec fn data_type() -> DataType {
        DataType::Boolean
    }

    open spec fn value(self) -> Value {
        Value::Bool(self)
    }

    proof fn lemma_value(self) {
    }

    fn to_scalar_value(self) -> (r: ScalarImpl) {
        ScalarImpl::Bool(self)
    }
}

impl<'a> ScalarRef<'a> for i16 {
    open spec fn data_type() -> DataType {
        DataType::Int16
    }

    open spec fn value(self) -> Value {
        Value::Int16(self)
    }

    proof fn lemma_value(self) {
    }

    fn to_scalar_value(self) -> (r: ScalarImpl) {
        ScalarImpl::Int16(self)
    }
}

impl<'a> ScalarRef<'a> for i32 {
    open spec fn data_type() -> DataType {
        DataType::Int32
    }

    open spec fn value(self) -> Value {
        Value::Int32(self)
    }

    proof fn lemma_value(self) {
    }

    fn to_scalar_value(self) -> (r: ScalarImpl) {
        ScalarImpl::Int32(self)
    }
}

impl<'a> ScalarRef<'a> for i64 {
    open spec fn data_type() -> DataType {
        DataType::Int64
    }

    open spec fn value(self) -> Value {
        Value::Int64(self)
    }

    proof fn lemma_value(self) {
    }

    fn to_scalar_value(self) -> (r: ScalarImpl) {
        ScalarImpl::Int64(self)
    }
}

impl<'a> ScalarRef<'a> for Float32 {
    open spec fn data_type() -> DataType {
        DataType::Float32
    }

    open spec fn value(self) -> Value {
        Value::Float32(self.bits)
    }

    proof fn lemma_value(self) {
    }

    fn to_scalar_value(self) -> (r: ScalarImpl) {
        ScalarImpl::Float32(self)
    }
}

impl<'a> ScalarRef<'a> for Float64 {
    open spec fn data_type() -> DataType {
        DataType::Float64
    }

    open spec fn value(self) -> Value {
        Value::Float64(self.bits)
    }

    proof fn lemma_value(self) {
    }

    fn to_scalar_value(self) -> (r: ScalarImpl) {
        ScalarImpl::Float64(self)
    }
}

impl<'a> ScalarRef<'a> for Decimal {
    open spec fn data_type() -> DataType {
        DataType::Decimal
    }

    open spec fn value(self) -> Value {
        Value::Decimal(self.parts())
    }

    proof fn lemma_value(self) {
        self.lemma_parts_representable();
    }

    fn to_scalar_value(self) -> (r: ScalarImpl) {
        ScalarImpl::Decimal(self)
    }
}

impl<'a> ScalarRef<'a> for IntervalUnit {
    open spec fn data_type() -> DataType {
        DataType::Interval
    }

    open spec fn value(self) -> Value {
        Value::Interval(self)
    }

    proof fn lemma_value(self) {
    }

    fn to_scalar_value(self) -> (r: ScalarImpl) {
        ScalarImpl::Interval(self)
    }
}

impl<'a> ScalarRef<'a> for &'a str {
    open spec fn data_type() -> DataType {
        DataType::Varchar
    }

    open spec fn value(self) -> Value {
        Value::Utf8(self@)
    }

    proof fn lemma_value(self) {
    }

    fn to_scalar_value(self) -> (r: ScalarImpl) {
        ScalarImpl::Utf8(self.to_owned())
    }
}

/// A scalar that an array can store.
pub trait Scalar: Sized + 'static {
    /// The type of every scalar of this kind.
    spec fn scalar_type() -> DataType;

    /// What the scalar holds.
    spec fn scalar_value(&self) -> Value;

    /// What a scalar holds is valid and of the scalar's type.
    proof fn lemma_scalar_value(&self)
        ensures
            self.scalar_value().valid(),
            self.scalar_value().data_type() == Self::scalar_type(),
    ;

    /// A second scalar that holds the same value.
    fn duplicate(&self) -> (r: Self)
        ensures
            r.scalar_value() == self.scalar_value(),
    ;
}

/// A stored scalar that can be read without taking it out of its array.
pub trait ReadScalar: Scalar {
    /// What is read.
    type RefType<'a>: ScalarRef<'a>;

    /// A scalar and what is read of it have the same type.
    proof fn lemma_ref_type<'a>()
        ensures
            <Self::RefType<'a> as ScalarRef<'a>>::data_type() == Self::scalar_type(),
    ;

    fn as_scalar_ref<'a>(&'a self) -> (r: Self::RefType<'a>)
        ensures
            r.value() == self.scalar_value(),
    ;
}

impl Scalar for bool {
    open spec fn scalar_type() -> DataType {
        DataType::Boolean
    }

    open spec fn scalar_value(&self) -> Value {
        Value::Bool(*self)
    }

    proof fn lemma_scalar_value(&self) {
    }

    fn duplicate(&self) -> (r: bool) {
        *self
    }
}

impl ReadScalar for bool {
    type RefType<'a> = bool;

    proof fn lemma_ref_type<'a>() {
    }

    fn as_scalar_ref<'a>(&'a self) -> (r: bool) {
        *self
    }
}

impl Scalar for i16 {
    open spec fn scalar_type() -> DataType {
        DataType::Int16
    }

    open spec fn scalar_value(&self) -> Value {
        Value::Int16(*self)
    }

    proof fn lemma_scalar_value(&self) {
    }

    fn duplicate(&self) -> (r: i16) {
        *self
    }
}

impl ReadScalar for i16 {
    type RefType<'a> = i16;

    proof fn lemma_ref_type<'a>() {
    }

    fn as_scalar_ref<'a>(&'a self) -> (r: i16) {
        *self
    }
}

impl Scalar for i32 {
    open spec fn scalar_type() -> DataType {
        DataType::Int32
    }

    open spec fn scalar_value(&self) -> Value {
        Value::Int32(*self)
    }

    proof fn lemma_scalar_value(&self) {
    }

    fn duplicate(&self) -> (r: i32) {
        *self
    }
}

impl ReadScalar for i32 {
    type RefType<'a> = i32;

    proof fn lemma_ref_type<'a>() {
    }

    fn as_scalar_ref<'a>(&'a self) -> (r: i32) {
        *self
    }
}

impl Scalar for i64 {
    open spec fn scalar_type() -> DataType {
        DataType::Int64
    }

    open spec fn scalar_value(&self) -> Value {
        Value::Int64(*self)
    }

    proof fn lemma_scalar_value(&self) {
    }

    fn duplicate(&self) -> (r: i64) {
        *self
    }
}

impl ReadScalar for i64 {
    type RefType<'a> = i64;

    proof fn lemma_ref_type<'a>() {
    }

    fn as_scalar_ref<'a>(&'a self) -> (r: i64) {
        *self
    }
}

impl Scalar for Float32 {
    open spec fn scalar_type() -> DataType {
        DataType::Float32
    }

    open spec fn scalar_value(&self) -> Value {
        Value::Float32(self.bits)
    }

    proof fn lemma_scalar_value(&self) {
    }

    fn duplicate(&self) -> (r: Float32) {
        *self
    }
}

impl ReadScalar for Float32 {
    type RefType<'a> = Float32;

    proof fn lemma_ref_type<'a>() {
    }

    fn as_scalar_ref<'a>(&'a self) -> (r: Float32) {
        *self
    }
}

impl Scalar for Float64 {
    open spec fn scalar_type() -> DataType {
        DataType::Float64
    }

    open spec fn scalar_value(&self) -> Value {
        Value::Float64(self.bits)
    }

    proof fn lemma_scalar_value(&self) {
    }

    fn duplicate(&self) -> (r: Float64) {
        *self
    }
}

impl ReadScalar for Float64 {
    type RefType<'a> = Float64;

    proof fn lemma_ref_type<'a>() {
    }

    fn as_scalar_ref<'a>(&'a self) -> (r: Float64) {
        *self
    }
}

impl Scalar for Decimal {
    open spec fn scalar_type() -> DataType {
        DataType::Decimal
    }

    open spec fn scalar_value(&self) -> Value {
        Value::Decimal(self.parts())
    }

    proof fn lemma_scalar_value(&self) {
        self.lemma_parts_representable();
    }

    fn duplicate(&self) -> (r: Decimal) {
        *self
    }
}

impl ReadScalar for Decimal {
    type RefType<'a> = Decimal;

    proof fn lemma_ref_type<'a>() {
    }

    fn as_scalar_ref<'a>(&'a self) -> (r: Decimal) {
        *self
    }
}

impl Scalar for IntervalUnit {
    open spec fn scalar_type() -> DataType {
        DataType::Interval
    }

    open spec fn scalar_value(&self) -> Value {
        Value::Interval(*self)
    }

    proof fn lemma_scalar_value(&self) {
    }

    fn duplicate(&self) -> (r: IntervalUnit) {
        *self
    }
}

impl ReadScalar for IntervalUnit {
    type RefType<'a> = IntervalUnit;

    proof fn lemma_ref_type<'a>() {
    }

    fn as_scalar_ref<'a>(&'a self) -> (r: IntervalUnit) {
        *self
    }
}

impl Scalar for String {
    open spec fn scalar_type() -> DataType {
        DataType::Varchar
    }

    open spec fn scalar_value(&self) -> Value {
        Value::Utf8(self@)
    }

    proof fn lemma_scalar_value(&self) {
    }

    fn duplicate(&self) -> (r: String) {
        self.clone()
    }
}

impl ReadScalar for String {
    type RefType<'a> = &'a str;

    proof fn lemma_ref_type<'a>() {
    }

    fn as_scalar_ref<'a>(&'a self) -> (r: &'a str) {
        self.as_str()
    }
}

} // verus!
