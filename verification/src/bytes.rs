//! Byte strings of unsigned and two's complement integers.

use vstd::arithmetic::div_mod;
use vstd::arithmetic::power;
use vstd::endian;
use vstd::prelude::*;

verus! {

/// `256` to the power `n`: how many byte strings of length `n` there are.
pub open spec fn pow256(n: nat) -> nat
    decreases n,
{
    if n == 0 {
        1
    } else {
        256 * pow256((n - 1) as nat)
    }
}

/// The `n` low bytes of `x`, least significant byte first.
pub open spec fn le_bytes(x: nat, n: nat) -> Seq<u8>
    decreases n,
{
    if n == 0 {
        Seq::empty()
    } else {
        seq![(x % 256) as u8] + le_bytes(x / 256, (n - 1) as nat)
    }
}

/// The `n` low bytes of `x` in the byte order of the machine.
pub open spec fn ne_bytes(x: nat, n: nat) -> Seq<u8> {
    match endian::endianness() {
        endian::Endian::Little => le_bytes(x, n),
        endian::Endian::Big => le_bytes(x, n).reverse(),
    }
}

/// The unsigned integer with the same two's complement representation in `n` bytes as `v`.
pub open spec fn twos_complement(v: int, n: nat) -> nat {
    if v >= 0 {
        v as nat
    } else {
        (v + pow256(n)) as nat
    }
}

/// `le_bytes(_, n)` has `n` bytes.
pub proof fn lemma_le_bytes_len(x: nat, n: nat)
    ensures
        le_bytes(x, n).len() == n,
    decreases n,
{
    if n > 0 {
        lemma_le_bytes_len(x / 256, (n - 1) as nat);
    }
}

/// Integers below `256^n` with the same `n` bytes are equal.
pub proof fn lemma_le_bytes_injective(x: nat, y: nat, n: nat)
    requires
        x < pow256(n),
        y < pow256(n),
        le_bytes(x, n) == le_bytes(y, n),
    ensures
        x == y,
    decreases n,
{
    if n > 0 {
        let m = (n - 1) as nat;
        let a = le_bytes(x, n);
        let b = le_bytes(y, n);
        lemma_le_bytes_len(x / 256, m);
        lemma_le_bytes_len(y / 256, m);
        assert(a[0] == (x % 256) as u8);
        assert(b[0] == (y % 256) as u8);
        assert(a.skip(1) =~= le_bytes(x / 256, m));
        assert(b.skip(1) =~= le_bytes(y / 256, m));
        lemma_le_bytes_injective(x / 256, y / 256, m);
    }
}

/// `ne_bytes(_, n)` has `n` bytes.
pub proof fn lemma_ne_bytes_len(x: nat, n: nat)
    ensures
        ne_bytes(x, n).len() == n,
{
    lemma_le_bytes_len(x, n);
}

/// Integers below `256^n` with the same `n` bytes are equal, in the byte order of the machine too.
pub proof fn lemma_ne_bytes_injective(x: nat, y: nat, n: nat)
    requires
        x < pow256(n),
        y < pow256(n),
        ne_bytes(x, n) == ne_bytes(y, n),
    ensures
        x == y,
{
    assert(le_bytes(x, n).reverse().reverse() =~= le_bytes(x, n));
    assert(le_bytes(y, n).reverse().reverse() =~= le_bytes(y, n));
    lemma_le_bytes_injective(x, y, n);
}

/// Two's complement is injective on the signed integers of `n` bytes.
pub proof fn lemma_twos_complement_injective(v: int, w: int, n: nat)
    requires
        -(pow256(n) as int) <= 2 * v < pow256(n),
        -(pow256(n) as int) <= 2 * w < pow256(n),
        twos_complement(v, n) == twos_complement(w, n),
    ensures
        v == w,
{
}

/// The values of the powers that integers of up to eight bytes need.
pub proof fn lemma_pow256_values()
    ensures
        pow256(1) == 0x100,
        pow256(2) == 0x1_0000,
        pow256(4) == 0x1_0000_0000,
        pow256(8) == 0x1_0000_0000_0000_0000,
{
    reveal_with_fuel(pow256, 9);
}

proof fn lemma_pow256_is_power(n: nat)
    ensures
        pow256(n) == power::pow(256, n),
    decreases n,
{
    reveal(power::pow);
    if n > 0 {
        lemma_pow256_is_power((n - 1) as nat);
    }
}

/// The bytes of an integer are its digits in base 256, the lowest first.
pub proof fn law_le_bytes_are_digits(x: nat, n: nat, i: int)
    requires
        0 <= i < n,
    ensures
        le_bytes(x, n).len() == n,
        le_bytes(x, n)[i] == (x as int / power::pow(256, i as nat)) % 256,
    decreases n,
{
    reveal(power::pow);
    lemma_le_bytes_len(x, n);
    lemma_le_bytes_len(x / 256, (n - 1) as nat);
    if i > 0 {
        let m = (i - 1) as nat;
        law_le_bytes_are_digits(x / 256, (n - 1) as nat, i - 1);
        power::lemma_pow_positive(256, m);
        assert(power::pow(256, i as nat) == 256 * power::pow(256, m));
        div_mod::lemma_div_denominator(x as int, 256, power::pow(256, m));
        assert(le_bytes(x, n)[i] == le_bytes(x / 256, (n - 1) as nat)[i - 1]);
    } else {
        assert(power::pow(256, 0) == 1);
        assert(le_bytes(x, n)[0] == (x % 256) as u8);
    }
}

/// In the byte order of the machine, digit `i` is at index `i` where the lowest comes first, and
/// that far from the end where it comes last.
pub proof fn law_ne_bytes_are_digits(x: nat, n: nat, i: int)
    requires
        0 <= i < n,
    ensures
        ne_bytes(x, n).len() == n,
        ne_bytes(x, n)[if endian::endianness() == endian::Endian::Little {
            i
        } else {
            n - 1 - i
        }] == (x as int / power::pow(256, i as nat)) % 256,
{
    law_le_bytes_are_digits(x, n, i);
}

/// Two's complement in `n` bytes is the remainder of a division by `256^n`.
pub proof fn law_twos_complement_is_remainder(v: int, n: nat)
    requires
        -power::pow(256, n) <= 2 * v < power::pow(256, n),
    ensures
        twos_complement(v, n) == v % power::pow(256, n),
{
    lemma_pow256_is_power(n);
    power::lemma_pow_positive(256, n);
    let m = power::pow(256, n);
    if v >= 0 {
        div_mod::lemma_small_mod(v as nat, m as nat);
    } else {
        div_mod::lemma_small_mod((v + m) as nat, m as nat);
        div_mod::lemma_mod_add_multiples_vanish(v, m);
    }
}

/// Calls `u64::from_ne_bytes`: the integer whose bytes these are in the machine's byte order.
#[verifier::external_body]
pub(crate) fn u64_from_ne_bytes(bytes: &[u8]) -> (r: u64)
    requires
        bytes@.len() == 8,
    ensures
        bytes@ == ne_bytes(r as nat, 8),
{
    u64::from_ne_bytes(bytes.try_into().unwrap())
}

/// Whether the machine puts the least significant byte first.
fn is_little_endian() -> (r: bool)
    ensures
        r == (endian::endianness() is Little),
{
    let one: [u8; 8] = [1, 0, 0, 0, 0, 0, 0, 0];
    let x: u64 = u64_from_ne_bytes(one.as_slice());
    proof {
        reveal_with_fuel(le_bytes, 9);
        assert(one@ =~= le_bytes(1, 8));
        if endian::endianness() is Little {
            lemma_pow256_values();
            lemma_le_bytes_injective(x as nat, 1, 8);
        } else {
            assert(one@[0] == 1);
            assert(le_bytes(1, 8).reverse()[0] == 0);
        }
    }
    x == 1
}

/// The bytes of a 16-bit integer.
pub fn i16_ne_bytes(v: i16) -> (r: [u8; 2])
    ensures
        r@ == ne_bytes(twos_complement(v as int, 2), 2),
{
    let x: u16 = v as u16;
    let b: [u8; 2] = [(x % 256) as u8, (x / 256) as u8];
    proof {
        lemma_pow256_values();
        reveal_with_fuel(le_bytes, 3);
        assert(v < 0 ==> (v as u16) == v + 0x1_0000) by (bit_vector);
        assert(v >= 0 ==> (v as u16) == v) by (bit_vector);
        assert(b@ =~= le_bytes(x as nat, 2));
    }
    let r: [u8; 2] = if is_little_endian() {
        b
    } else {
        [b[1], b[0]]
    };
    assert(r@ =~= ne_bytes(x as nat, 2));
    r
}

/// The bytes of an unsigned 32-bit integer.
pub fn u32_ne_bytes(x: u32) -> (r: [u8; 4])
    ensures
        r@ == ne_bytes(x as nat, 4),
{
    let b: [u8; 4] = [
        (x % 256) as u8,
        (x / 256 % 256) as u8,
        (x / 256 / 256 % 256) as u8,
        (x / 256 / 256 / 256) as u8,
    ];
    proof {
        reveal_with_fuel(le_bytes, 5);
        assert(b@ =~= le_bytes(x as nat, 4));
    }
    let r: [u8; 4] = if is_little_endian() {
        b
    } else {
        [b[3], b[2], b[1], b[0]]
    };
    assert(r@ =~= ne_bytes(x as nat, 4));
    r
}

/// The bytes of a 32-bit integer.
pub fn i32_ne_bytes(v: i32) -> (r: [u8; 4])
    ensures
        r@ == ne_bytes(twos_complement(v as int, 4), 4),
{
    proof {
        lemma_pow256_values();
        assert(v < 0 ==> (v as u32) == v + 0x1_0000_0000) by (bit_vector);
        assert(v >= 0 ==> (v as u32) == v) by (bit_vector);
    }
    u32_ne_bytes(v as u32)
}

/// The bytes of an unsigned 64-bit integer.
pub fn u64_ne_bytes(x: u64) -> (r: [u8; 8])
    ensures
        r@ == ne_bytes(x as nat, 8),
{
    let x1: u64 = x / 256;
    let x2: u64 = x1 / 256;
    let x3: u64 = x2 / 256;
    let x4: u64 = x3 / 256;
    let x5: u64 = x4 / 256;
    let x6: u64 = x5 / 256;
    let x7: u64 = x6 / 256;
    let b: [u8; 8] = [
        (x % 256) as u8,
        (x1 % 256) as u8,
        (x2 % 256) as u8,
        (x3 % 256) as u8,
        (x4 % 256) as u8,
        (x5 % 256) as u8,
        (x6 % 256) as u8,
        (x7 % 256) as u8,
    ];
    proof {
        reveal_with_fuel(le_bytes, 9);
        assert(b@ =~= le_bytes(x as nat, 8));
    }
    let r: [u8; 8] = if is_little_endian() {
        b
    } else {
        [b[7], b[6], b[5], b[4], b[3], b[2], b[1], b[0]]
    };
    assert(r@ =~= ne_bytes(x as nat, 8));
    r
}

/// The bytes of a 64-bit integer.
pub fn i64_ne_bytes(v: i64) -> (r: [u8; 8])
    ensures
        r@ == ne_bytes(twos_complement(v as int, 8), 8),
{
    proof {
        lemma_pow256_values();
        assert(v < 0 ==> (v as u64) == v + 0x1_0000_0000_0000_0000) by (bit_vector);
        assert(v >= 0 ==> (v as u64) == v) by (bit_vector);
    }
    u64_ne_bytes(v as u64)
}

} // verus!
