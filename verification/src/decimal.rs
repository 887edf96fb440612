//! Decimal numbers of 96-bit precision, as `rust_decimal` represents them.

use vstd::arithmetic::power;
use vstd::prelude::*;

use crate::bytes;

verus! {

/// The largest magnitude that a mantissa can have.
pub const MAX_MANTISSA: i128 = 0xFFFF_FFFF_FFFF_FFFF_FFFF_FFFF;

/// The largest number of digits behind the decimal point.
pub const MAX_SCALE: u32 = 28;

/// `10` to the power `n`.
pub open spec fn pow10(n: nat) -> int
    decreases n,
{
    if n == 0 {
        1
    } else {
        10 * pow10((n - 1) as nat)
    }
}

/// A mantissa and a scale that denote the number `mantissa / 10^scale`.
pub struct DecimalParts {
    pub mantissa: int,
    pub scale: nat,
}

impl DecimalParts {
    /// What is left once the zeros at the end of the fraction are stripped.
    pub open spec fn normal_form(self) -> DecimalParts
        decreases self.scale,
    {
        if self.scale > 0 && self.mantissa % 10 == 0 {
            DecimalParts {
                mantissa: self.mantissa / 10,
                scale: (self.scale - 1) as nat,
            }.normal_form()
        } else {
            self
        }
    }

    /// Whether the two denote the same number.
    pub open spec fn same_number(self, other: DecimalParts) -> bool {
        self.mantissa * pow10(other.scale) == other.mantissa * pow10(self.scale)
    }

    /// Whether a decimal can hold these parts.
    pub open spec fn representable(self) -> bool {
        &&& -MAX_MANTISSA <= self.mantissa <= MAX_MANTISSA
        &&& self.scale <= MAX_SCALE
    }

    /// The sixteen bytes of a decimal: a flag word that holds the scale in bits 16 to 23 and the
    /// sign in bit 31, then the magnitude of the mantissa; both little-endian.
    pub open spec fn layout(self) -> Seq<u8> {
        let sign: nat = if self.mantissa < 0 {
            0x8000_0000
        } else {
            0
        };
        let magnitude = if self.mantissa < 0 {
            -self.mantissa
        } else {
            self.mantissa
        };
        bytes::le_bytes(self.scale * 0x1_0000 + sign, 4) + bytes::le_bytes(magnitude as nat, 12)
    }
}

proof fn lemma_pow10_positive(n: nat)
    ensures
        pow10(n) > 0,
    decreases n,
{
    if n > 0 {
        lemma_pow10_positive((n - 1) as nat);
    }
}

proof fn lemma_pow10_add(a: nat, b: nat)
    ensures
        pow10(a + b) == pow10(a) * pow10(b),
    decreases a,
{
    if a > 0 {
        let c = (a - 1) as nat;
        lemma_pow10_add(c, b);
        vstd::arithmetic::mul::lemma_mul_is_associative(10, pow10(c), pow10(b));
        assert((a + b - 1) as nat == c + b);
    }
}

/// The normal form has a scale no larger, denotes the same number, and has no zero to strip.
proof fn lemma_normal_form(p: DecimalParts)
    ensures
        p.normal_form().scale <= p.scale,
        p.mantissa == p.normal_form().mantissa * pow10((p.scale - p.normal_form().scale) as nat),
        p.normal_form().scale == 0 || p.normal_form().mantissa % 10 != 0,
    decreases p.scale,
{
    if p.scale > 0 && p.mantissa % 10 == 0 {
        let q = DecimalParts { mantissa: p.mantissa / 10, scale: (p.scale - 1) as nat };
        lemma_normal_form(q);
        let n = p.normal_form();
        let d = (q.scale - n.scale) as nat;
        assert((d + 1 - 1) as nat == d);
        assert(pow10(d + 1) == 10 * pow10(d));
        assert(n.mantissa * (10 * pow10(d)) == 10 * (n.mantissa * pow10(d))) by (nonlinear_arith);
        assert((p.scale - n.scale) as nat == d + 1);
    } else {
        assert(pow10(0) == 1);
    }
}

/// Parts with nothing to strip that denote the same number have the same scale and mantissa.
proof fn lemma_normal_forms_unique(p: DecimalParts, q: DecimalParts)
    requires
        p.scale == 0 || p.mantissa % 10 != 0,
        q.scale == 0 || q.mantissa % 10 != 0,
        p.same_number(q),
    ensures
        p == q,
{
    if p.scale < q.scale {
        lemma_larger_scale_ends_in_zero(p, q);
    } else if q.scale < p.scale {
        lemma_larger_scale_ends_in_zero(q, p);
    } else {
        lemma_pow10_positive(p.scale);
        let t = pow10(p.scale);
        let a = p.mantissa;
        let b = q.mantissa;
        assert(a == b) by (nonlinear_arith)
            requires
                a * t == b * t,
                t > 0,
        ;
    }
}

/// Of two parts that denote the same number, those with the larger scale end in a zero.
proof fn lemma_larger_scale_ends_in_zero(p: DecimalParts, q: DecimalParts)
    requires
        p.scale < q.scale,
        p.same_number(q),
    ensures
        q.mantissa % 10 == 0,
{
    let d = (q.scale - p.scale) as nat;
    let t = pow10(p.scale);
    let a = p.mantissa;
    let b = q.mantissa;
    lemma_pow10_positive(p.scale);
    lemma_pow10_add(d, p.scale);
    assert(d + p.scale == q.scale);
    let u = pow10((d - 1) as nat);
    assert(pow10(d) == 10 * u);
    assert(b == 10 * (a * u)) by (nonlinear_arith)
        requires
            a * ((10 * u) * t) == b * t,
            t > 0,
    ;
}

/// Two decimals have the same normal form exactly when they denote the same number.
pub proof fn law_normal_form_identifies_numbers(p: DecimalParts, q: DecimalParts)
    ensures
        p.normal_form() == q.normal_form() <==> p.same_number(q),
{
    let np = p.normal_form();
    let nq = q.normal_form();
    lemma_normal_form(p);
    lemma_normal_form(q);
    lemma_same_number_scaled(p, np, q, nq);
    if p.same_number(q) {
        lemma_normal_forms_unique(np, nq);
    }
}

/// Stripping zeros changes neither side of a comparison.
proof fn lemma_same_number_scaled(
    p: DecimalParts,
    np: DecimalParts,
    q: DecimalParts,
    nq: DecimalParts,
)
    requires
        np.scale <= p.scale,
        nq.scale <= q.scale,
        p.mantissa == np.mantissa * pow10((p.scale - np.scale) as nat),
        q.mantissa == nq.mantissa * pow10((q.scale - nq.scale) as nat),
    ensures
        p.same_number(q) <==> np.same_number(nq),
{
    let dp = (p.scale - np.scale) as nat;
    let dq = (q.scale - nq.scale) as nat;
    let a = np.mantissa;
    let b = nq.mantissa;
    let x = pow10(dp);
    let y = pow10(dq);
    let s = pow10(np.scale);
    let t = pow10(nq.scale);
    lemma_pow10_positive(dp);
    lemma_pow10_positive(dq);
    lemma_pow10_add(dp, np.scale);
    lemma_pow10_add(dq, nq.scale);
    assert(dp + np.scale == p.scale);
    assert(dq + nq.scale == q.scale);
    assert((a * x) * (y * t) == (a * t) * (x * y)) by (nonlinear_arith);
    assert((b * y) * (x * s) == (b * s) * (x * y)) by (nonlinear_arith);
    let z = x * y;
    assert(z > 0) by (nonlinear_arith)
        requires
            x > 0,
            y > 0,
            z == x * y,
    ;
    let l = a * t;
    let r = b * s;
    assert(l * z == r * z <==> l == r) by (nonlinear_arith)
        requires
            z > 0,
    ;
}

/// The normal form of a representable decimal is representable.
pub proof fn lemma_normal_form_representable(p: DecimalParts)
    requires
        p.representable(),
    ensures
        p.normal_form().representable(),
    decreases p.scale,
{
    if p.scale > 0 && p.mantissa % 10 == 0 {
        lemma_normal_form_representable(
            DecimalParts { mantissa: p.mantissa / 10, scale: (p.scale - 1) as nat },
        );
    }
}

/// The normal form of a normal form is itself.
pub proof fn law_normal_form_idempotent(p: DecimalParts)
    ensures
        p.normal_form().normal_form() == p.normal_form(),
{
    lemma_normal_form(p);
}

/// Representable decimals with the same bytes have the same parts.
pub proof fn lemma_layout_injective(p: DecimalParts, q: DecimalParts)
    requires
        p.representable(),
        q.representable(),
        p.layout() == q.layout(),
    ensures
        p == q,
{
    let sp: nat = if p.mantissa < 0 {
        0x8000_0000
    } else {
        0
    };
    let sq: nat = if q.mantissa < 0 {
        0x8000_0000
    } else {
        0
    };
    let mp = (if p.mantissa < 0 {
        -p.mantissa
    } else {
        p.mantissa
    }) as nat;
    let mq = (if q.mantissa < 0 {
        -q.mantissa
    } else {
        q.mantissa
    }) as nat;
    let fp = p.scale * 0x1_0000 + sp;
    let fq = q.scale * 0x1_0000 + sq;
    bytes::lemma_le_bytes_len(fp, 4);
    bytes::lemma_le_bytes_len(fq, 4);
    assert(p.layout().take(4) =~= bytes::le_bytes(fp, 4));
    assert(q.layout().take(4) =~= bytes::le_bytes(fq, 4));
    assert(p.layout().skip(4) =~= bytes::le_bytes(mp, 12));
    assert(q.layout().skip(4) =~= bytes::le_bytes(mq, 12));
    bytes::lemma_pow256_values();
    assert(bytes::pow256(12) == 0x1_0000_0000_0000_0000_0000_0000) by {
        reveal_with_fuel(bytes::pow256, 13);
    }
    bytes::lemma_le_bytes_injective(fp, fq, 4);
    bytes::lemma_le_bytes_injective(mp, mq, 12);
}

/// The layout has sixteen bytes.
pub proof fn lemma_layout_len(p: DecimalParts)
    ensures
        p.layout().len() == 16,
{
    let s: nat = if p.mantissa < 0 {
        0x8000_0000
    } else {
        0
    };
    let m = if p.mantissa < 0 {
        -p.mantissa
    } else {
        p.mantissa
    };
    bytes::lemma_le_bytes_len(p.scale * 0x1_0000 + s, 4);
    bytes::lemma_le_bytes_len(m as nat, 12);
}

proof fn lemma_pow10_is_power(n: nat)
    ensures
        pow10(n) == power::pow(10, n),
    decreases n,
{
    reveal(power::pow);
    if n > 0 {
        lemma_pow10_is_power((n - 1) as nat);
    }
}

/// The normal form of a decimal stands for the same number, with no zero at the end of its
/// fraction; and two decimals have the same normal form exactly when `mantissa / 10^scale` is the
/// same for both.
pub proof fn law_normal_form_stands_for_number(p: DecimalParts, q: DecimalParts)
    ensures
        p.normal_form().mantissa * power::pow(10, p.scale) == p.mantissa * power::pow(
            10,
            p.normal_form().scale,
        ),
        p.normal_form().scale == 0 || p.normal_form().mantissa % 10 != 0,
        p.normal_form() == q.normal_form() <==> p.mantissa * power::pow(10, q.scale) == q.mantissa
            * power::pow(10, p.scale),
        p.same_number(q) <==> p.mantissa * power::pow(10, q.scale) == q.mantissa * power::pow(
            10,
            p.scale,
        ),
{
    let n = p.normal_form();
    lemma_normal_form(p);
    law_normal_form_identifies_numbers(p, q);
    law_normal_form_identifies_numbers(p, n);
    law_normal_form_idempotent(p);
    lemma_pow10_is_power(p.scale);
    lemma_pow10_is_power(q.scale);
    lemma_pow10_is_power(n.scale);
}

/// A decimal has a mantissa of up to 96 bits and up to 28 digits behind the point.
pub proof fn law_representable(p: DecimalParts)
    ensures
        p.representable() <==> -0x1_0000_0000_0000_0000_0000_0000 < p.mantissa
            < 0x1_0000_0000_0000_0000_0000_0000 && p.scale <= 28,
{
}

/// The bytes of a decimal: two zeros, the scale, the sign in the highest bit of the fourth, and the
/// digits of the magnitude in base 256, the lowest first.
pub proof fn law_layout(p: DecimalParts, i: int)
    requires
        p.scale <= 28,
        0 <= i < 12,
    ensures
        p.layout().len() == 16,
        p.layout()[0] == 0,
        p.layout()[1] == 0,
        p.layout()[2] == p.scale,
        p.layout()[3] == (if p.mantissa < 0 {
            0x80
        } else {
            0int
        }),
        p.layout()[4 + i] == ((if p.mantissa < 0 {
            -p.mantissa
        } else {
            p.mantissa
        }) / power::pow(256, i as nat)) % 256,
{
    let sign: nat = if p.mantissa < 0 {
        0x8000_0000
    } else {
        0
    };
    let magnitude = (if p.mantissa < 0 {
        -p.mantissa
    } else {
        p.mantissa
    }) as nat;
    let flags = p.scale * 0x1_0000 + sign;
    lemma_layout_len(p);
    bytes::lemma_le_bytes_len(flags, 4);
    bytes::lemma_le_bytes_len(magnitude, 12);
    reveal_with_fuel(bytes::le_bytes, 5);
    assert(bytes::le_bytes(flags, 4) =~= seq![
        (flags % 256) as u8,
        (flags / 256 % 256) as u8,
        (flags / 256 / 256 % 256) as u8,
        (flags / 256 / 256 / 256 % 256) as u8,
    ]);
    assert forall|k: int| 0 <= k < 4 implies p.layout()[k] == bytes::le_bytes(flags, 4)[k] by {}
    bytes::law_le_bytes_are_digits(magnitude, 12, i);
    assert(p.layout()[4 + i] == bytes::le_bytes(magnitude, 12)[i]);
}

/// A decimal number: a mantissa of up to 96 bits and a sign, divided by a power of ten.
#[derive(Clone, Copy, Debug)]
pub struct Decimal {
    mantissa: i128,
    scale: u32,
}

impl Decimal {
    spec fn raw_parts(self) -> DecimalParts {
        DecimalParts { mantissa: self.mantissa as int, scale: self.scale as nat }
    }

    #[verifier::type_invariant]
    spec fn well_formed(self) -> bool {
        self.raw_parts().representable()
    }

    /// The mantissa and the scale. They are always representable: the fields of a decimal that
    /// breaks the invariant, which no running program can hold, count as zero.
    pub closed spec fn parts(self) -> DecimalParts {
        if self.raw_parts().representable() {
            self.raw_parts()
        } else {
            DecimalParts { mantissa: 0, scale: 0 }
        }
    }

    /// The parts of every decimal are representable.
    pub proof fn lemma_parts_representable(self)
        ensures
            self.parts().representable(),
    {
    }

    /// The decimal `mantissa / 10^scale`, or `None` where 96 bits or the scale do not suffice.
    pub fn new(mantissa: i128, scale: u32) -> (r: Option<Decimal>)
        ensures
            r is Some <==> (DecimalParts {
                mantissa: mantissa as int,
                scale: scale as nat,
            }).representable(),
            r matches Some(d) ==> d.parts() == (DecimalParts {
                mantissa: mantissa as int,
                scale: scale as nat,
            }),
    {
        if -MAX_MANTISSA <= mantissa && mantissa <= MAX_MANTISSA && scale <= MAX_SCALE {
            Some(Decimal { mantissa, scale })
        } else {
            None
        }
    }

    pub fn mantissa(&self) -> (r: i128)
        ensures
            r == self.parts().mantissa,
    {
        proof {
            use_type_invariant(self);
        }
        self.mantissa
    }

    pub fn scale(&self) -> (r: u32)
        ensures
            r == self.parts().scale,
    {
        proof {
            use_type_invariant(self);
        }
        self.scale
    }

    /// The same number without the zeros at the end of its fraction.
    pub fn normalize(&self) -> (r: Decimal)
        ensures
            r.parts() == self.parts().normal_form(),
    {
        proof {
            use_type_invariant(self);
            lemma_normal_form_representable(self.parts());
        }
        let (mantissa, scale) = normalized_parts(self.mantissa, self.scale);
        Decimal { mantissa, scale }
    }

    /// The bytes of the number as it stands, its trailing zeros included.
    pub fn serialize(&self) -> (r: [u8; 16])
        ensures
            r@ == self.parts().layout(),
    {
        proof {
            use_type_invariant(self);
        }
        serialized_parts(self.mantissa, self.scale)
    }

    /// Whether the two denote the same number.
    pub fn same_number(&self, other: &Decimal) -> (r: bool)
        ensures
            r == self.parts().same_number(other.parts()),
            r == (self.parts().normal_form() == other.parts().normal_form()),
    {
        proof {
            law_normal_form_identifies_numbers(self.parts(), other.parts());
        }
        let a = self.normalize();
        let b = other.normalize();
        a.mantissa() == b.mantissa() && a.scale() == b.scale()
    }
}

impl Default for Decimal {
    fn default() -> (r: Decimal)
        ensures
            r.parts() == (DecimalParts { mantissa: 0, scale: 0 }),
    {
        Decimal { mantissa: 0, scale: 0 }
    }
}

/// Calls `rust_decimal::Decimal::normalize` on the decimal with this mantissa and scale. It strips
/// the zeros at the end of the fraction: while the scale is positive and ten divides the mantissa,
/// both go down by one digit. Zero becomes the zero of scale 0.
#[verifier::external_body]
fn normalized_parts(mantissa: i128, scale: u32) -> (r: (i128, u32))
    requires
        (DecimalParts { mantissa: mantissa as int, scale: scale as nat }).representable(),
    ensures
        (DecimalParts { mantissa: r.0 as int, scale: r.1 as nat }) == (DecimalParts {
            mantissa: mantissa as int,
            scale: scale as nat,
        }).normal_form(),
{
    let d = rust_decimal::Decimal::from_i128_with_scale(mantissa, scale).normalize();
    (d.mantissa(), d.scale())
}

/// Calls `rust_decimal::Decimal::serialize` on the decimal with this mantissa and scale. Its
/// documentation gives the order of the words (flags, then the low, middle and high word of the
/// mantissa); its source writes each of them with the least significant byte first.
#[verifier::external_body]
fn serialized_parts(mantissa: i128, scale: u32) -> (r: [u8; 16])
    requires
        (DecimalParts { mantissa: mantissa as int, scale: scale as nat }).representable(),
    ensures
        r@ == (DecimalParts { mantissa: mantissa as int, scale: scale as nat }).layout(),
{
    rust_decimal::Decimal::from_i128_with_scale(mantissa, scale).serialize()
}

} // verus!
