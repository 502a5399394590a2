//! The codec contract: the two-way mapping between a numeric value and its
//! fixed-width byte window, in either byte order, together with the laws
//! that the mapping obeys (round trip, byte order, width exactness).

use vstd::prelude::*;
use vstd::arithmetic::div_mod::lemma_fundamental_div_mod;

verus! {

/// 256 raised to the power `n`: the number of distinct `n`-byte windows.
pub open spec fn pow256(n: nat) -> nat
    decreases n,
{
    if n == 0 {
        1
    } else {
        256 * pow256((n - 1) as nat)
    }
}

/// The little-endian window of width `n` for the value `v`
/// (the least significant byte first).
pub open spec fn le_bytes(v: nat, n: nat) -> Seq<u8>
    decreases n,
{
    if n == 0 {
        Seq::empty()
    } else {
        seq![(v % 256) as u8] + le_bytes(v / 256, (n - 1) as nat)
    }
}

/// The big-endian window of width `n` for the value `v`
/// (the most significant byte first).
pub open spec fn be_bytes(v: nat, n: nat) -> Seq<u8>
    decreases n,
{
    if n == 0 {
        Seq::empty()
    } else {
        be_bytes(v / 256, (n - 1) as nat) + seq![(v % 256) as u8]
    }
}

/// The value that a byte window denotes under the little-endian
/// interpretation. Every window is a valid encoding.
pub open spec fn le_val(s: Seq<u8>) -> nat
    decreases s.len(),
{
    if s.len() == 0 {
        0
    } else {
        (s[0] + 256 * le_val(s.skip(1))) as nat
    }
}

/// The value that a byte window denotes under the big-endian interpretation.
pub open spec fn be_val(s: Seq<u8>) -> nat {
    le_val(s.reverse())
}

/// The two's complement representative of `v` among `n`-byte values:
/// the unsigned value whose `n`-byte window also encodes `v`.
pub open spec fn to_unsigned(v: int, n: nat) -> nat
    recommends
        -pow256(n) <= 2 * v < pow256(n),
{
    if v >= 0 {
        v as nat
    } else {
        (v + pow256(n)) as nat
    }
}

/// Width exactness: an `n`-byte window has exactly `n` bytes,
/// in either byte order.
pub proof fn lemma_width_exact(v: nat, n: nat)
    ensures
        le_bytes(v, n).len() == n,
        be_bytes(v, n).len() == n,
    decreases n,
{
    if n > 0 {
        lemma_width_exact(v / 256, (n - 1) as nat);
    }
}

/// Byte-order law: reversing the little-endian window of a value yields
/// its big-endian window.
pub proof fn lemma_be_bytes_is_reversed_le_bytes(v: nat, n: nat)
    ensures
        be_bytes(v, n) == le_bytes(v, n).reverse(),
    decreases n,
{
    lemma_width_exact(v, n);
    if n == 0 {
        assert(be_bytes(v, n) =~= le_bytes(v, n).reverse());
    } else {
        lemma_be_bytes_is_reversed_le_bytes(v / 256, (n - 1) as nat);
        lemma_width_exact(v / 256, (n - 1) as nat);
        assert(be_bytes(v, n) =~= le_bytes(v, n).reverse());
    }
}

/// Every value below `pow256(n)` round-trips through its little-endian
/// window: decoding the encoding yields the value back.
pub proof fn lemma_le_round_trip(v: nat, n: nat)
    requires
        v < pow256(n),
    ensures
        le_val(le_bytes(v, n)) == v,
    decreases n,
{
    if n == 0 {
    } else {
        let rest = le_bytes(v / 256, (n - 1) as nat);
        assert((seq![(v % 256) as u8] + rest)[0] == (v % 256) as u8);
        assert((seq![(v % 256) as u8] + rest).skip(1) =~= rest);
        assert(v / 256 < pow256((n - 1) as nat)) by {
            let p = pow256((n - 1) as nat);
            assert(v < 256 * p);
            lemma_fundamental_div_mod(v as int, 256);
        };
        lemma_le_round_trip(v / 256, (n - 1) as nat);
        lemma_fundamental_div_mod(v as int, 256);
    }
}

/// Every value below `pow256(n)` round-trips through its big-endian window.
pub proof fn lemma_be_round_trip(v: nat, n: nat)
    requires
        v < pow256(n),
    ensures
        be_val(be_bytes(v, n)) == v,
{
    lemma_be_bytes_is_reversed_le_bytes(v, n);
    lemma_width_exact(v, n);
    assert(le_bytes(v, n).reverse().reverse() =~= le_bytes(v, n));
    lemma_le_round_trip(v, n);
}

/// Round-trip law, the other direction: every byte window is a valid
/// encoding, so encoding the value that an `n`-byte window denotes under
/// the little-endian interpretation yields the window back.
pub proof fn lemma_le_window_round_trip(s: Seq<u8>)
    ensures
        le_bytes(le_val(s), s.len()) == s,
    decreases s.len(),
{
    if s.len() == 0 {
        assert(le_bytes(le_val(s), 0) =~= s);
    } else {
        let v = le_val(s);
        let q = le_val(s.skip(1));
        vstd::arithmetic::div_mod::lemma_fundamental_div_mod_converse(
            v as int,
            256,
            q as int,
            s[0] as int,
        );
        lemma_le_window_round_trip(s.skip(1));
        assert(le_bytes(v, s.len()) =~= s);
    }
}

/// Round-trip law, the other direction: encoding the value that an
/// `n`-byte window denotes under the big-endian interpretation yields
/// the window back.
pub proof fn lemma_be_window_round_trip(s: Seq<u8>)
    ensures
        be_bytes(be_val(s), s.len()) == s,
{
    lemma_le_window_round_trip(s.reverse());
    lemma_be_bytes_is_reversed_le_bytes(be_val(s), s.len());
    assert(s.reverse().len() == s.len());
    assert(s.reverse().reverse() =~= s);
}

/// A window of `n` bytes denotes a value below `pow256(n)`.
pub proof fn lemma_le_val_bound(s: Seq<u8>)
    ensures
        le_val(s) < pow256(s.len()),
    decreases s.len(),
{
    if s.len() > 0 {
        lemma_le_val_bound(s.skip(1));
    }
}

/// Byte-order law: the first byte of a big-endian window is the most
/// significant byte of the value.
pub proof fn lemma_most_significant_byte_first(v: nat, n: nat)
    requires
        n >= 1,
    ensures
        be_bytes(v, n)[0] == (v / pow256((n - 1) as nat)) % 256,
    decreases n,
{
    lemma_width_exact(v / 256, (n - 1) as nat);
    if n == 1 {
        assert(be_bytes(v, n) =~= seq![(v % 256) as u8]);
        assert(pow256(0) == 1);
        assert(v / 1 == v) by {
            lemma_fundamental_div_mod(v as int, 1);
        };
    } else {
        lemma_most_significant_byte_first(v / 256, (n - 1) as nat);
        assert(be_bytes(v, n)[0] == be_bytes(v / 256, (n - 1) as nat)[0]);
        assert(v / 256 / pow256((n - 2) as nat) == v / pow256((n - 1) as nat)) by {
            lemma_pow256_pos((n - 2) as nat);
            vstd::arithmetic::div_mod::lemma_div_denominator(
                v as int,
                256,
                pow256((n - 2) as nat) as int,
            );
            assert(pow256((n - 1) as nat) == 256 * pow256((n - 2) as nat));
        };
    }
}

/// Byte-order law: the first byte of a little-endian window is the least
/// significant byte of the value.
pub proof fn lemma_least_significant_byte_first(v: nat, n: nat)
    requires
        n >= 1,
    ensures
        le_bytes(v, n)[0] == v % 256,
{
}

/// `pow256` is positive.
pub proof fn lemma_pow256_pos(n: nat)
    ensures
        pow256(n) >= 1,
    decreases n,
{
    if n > 0 {
        lemma_pow256_pos((n - 1) as nat);
    }
}

/// `pow256` does not decrease as the width grows.
pub proof fn lemma_pow256_monotone(a: nat, b: nat)
    requires
        a <= b,
    ensures
        pow256(a) <= pow256(b),
    decreases b,
{
    if a < b {
        lemma_pow256_monotone(a, (b - 1) as nat);
    }
}

/// `pow256` at the supported widths.
pub proof fn lemma_pow256_widths()
    ensures
        pow256(1) == 0x100,
        pow256(2) == 0x1_0000,
        pow256(4) == 0x1_0000_0000,
        pow256(8) == 0x1_0000_0000_0000_0000,
        pow256(16) == 0x1_0000_0000_0000_0000_0000_0000_0000_0000,
{
    assert(pow256(0) == 1);
    assert(pow256(1) == 256 * pow256(0));
    assert(pow256(2) == 256 * pow256(1));
    assert(pow256(3) == 256 * pow256(2));
    assert(pow256(4) == 256 * pow256(3));
    assert(pow256(5) == 256 * pow256(4));
    assert(pow256(6) == 256 * pow256(5));
    assert(pow256(7) == 256 * pow256(6));
    assert(pow256(8) == 256 * pow256(7));
    assert(pow256(9) == 256 * pow256(8));
    assert(pow256(10) == 256 * pow256(9));
    assert(pow256(11) == 256 * pow256(10));
    assert(pow256(12) == 256 * pow256(11));
    assert(pow256(13) == 256 * pow256(12));
    assert(pow256(14) == 256 * pow256(13));
    assert(pow256(15) == 256 * pow256(14));
    assert(pow256(16) == 256 * pow256(15));
}

/// Two in-range values with the same two's complement representative
/// are the same value.
pub proof fn lemma_to_unsigned_injective(a: int, b: int, n: nat)
    requires
        -pow256(n) <= 2 * a < pow256(n),
        -pow256(n) <= 2 * b < pow256(n),
        to_unsigned(a, n) == to_unsigned(b, n),
    ensures
        a == b,
{
}

/// Produces the little-endian window of width `n` for the low bytes of `v`.
pub(crate) fn unsigned_to_le_exec(v: u128, n: usize) -> (r: Vec<u8>)
    ensures
        r@ == le_bytes(v as nat, n as nat),
{
    let mut r: Vec<u8> = Vec::new();
    let mut x: u128 = v;
    let mut i: usize = 0;
    proof {
        assert(Seq::<u8>::empty() + le_bytes(v as nat, n as nat) =~= le_bytes(v as nat, n as nat));
    }
    while i < n
        invariant
            i <= n,
            r@.len() == i as nat,
            le_bytes(v as nat, n as nat) == r@ + le_bytes(x as nat, (n - i) as nat),
        decreases n - i,
    {
        let b: u8 = (x % 256) as u8;
        proof {
            let k = (n - i - 1) as nat;
            assert(le_bytes(x as nat, (n - i) as nat) == seq![b] + le_bytes(x as nat / 256, k));
            assert(r@ + (seq![b] + le_bytes(x as nat / 256, k)) =~= (r@ + seq![b]) + le_bytes(
                x as nat / 256,
                k,
            ));
        }
        r.push(b);
        x = x / 256;
        i = i + 1;
    }
    proof {
        assert(r@ + le_bytes(x as nat, 0) =~= r@);
    }
    r
}

/// Reads the value that a little-endian window of at most 16 bytes denotes.
pub(crate) fn unsigned_from_le_exec(bytes: &Vec<u8>) -> (r: u128)
    requires
        bytes@.len() <= 16,
    ensures
        r as nat == le_val(bytes@),
{
    let mut r: u128 = 0;
    let mut i: usize = bytes.len();
    proof {
        assert(bytes@.skip(bytes@.len() as int) =~= Seq::<u8>::empty());
    }
    while i > 0
        invariant
            i as nat <= bytes@.len() <= 16,
            r as nat == le_val(bytes@.skip(i as int)),
            (r as nat) < pow256((bytes@.len() - i as nat) as nat),
        decreases i,
    {
        i = i - 1;
        let b: u8 = bytes[i];
        proof {
            let k = (bytes@.len() - i as nat - 1) as nat;
            assert(256 * (r as nat) + (b as nat) < pow256((k + 1) as nat)) by {
                assert(pow256((k + 1) as nat) == 256 * pow256(k));
            };
            lemma_pow256_monotone((k + 1) as nat, 16);
            lemma_pow256_widths();
            assert(bytes@.skip(i as int)[0] == bytes@[i as int]);
            assert(bytes@.skip(i as int).skip(1) =~= bytes@.skip(i as int + 1));
        }
        r = (b as u128) + 256 * r;
    }
    proof {
        assert(bytes@.skip(0) =~= bytes@);
    }
    r
}

/// The two's complement representative of an `i8`.
pub(crate) fn i8_to_unsigned(v: i8) -> (r: u8)
    ensures
        r as nat == to_unsigned(v as int, 1),
{
    proof {
        lemma_pow256_widths();
    }
    if v >= 0 {
        v as u8
    } else {
        0xFFu8 - ((-(v + 1)) as u8)
    }
}

/// The `i8` with the given two's complement representative.
pub(crate) fn i8_from_unsigned(u: u8) -> (r: i8)
    ensures
        to_unsigned(r as int, 1) == u as nat,
{
    proof {
        lemma_pow256_widths();
    }
    if u < 0x80 {
        u as i8
    } else {
        -((0xFFu8 - u) as i8) - 1
    }
}

/// The two's complement representative of an `i16`.
pub(crate) fn i16_to_unsigned(v: i16) -> (r: u16)
    ensures
        r as nat == to_unsigned(v as int, 2),
{
    proof {
        lemma_pow256_widths();
    }
    if v >= 0 {
        v as u16
    } else {
        0xFFFFu16 - ((-(v + 1)) as u16)
    }
}

/// The `i16` with the given two's complement representative.
pub(crate) fn i16_from_unsigned(u: u16) -> (r: i16)
    ensures
        to_unsigned(r as int, 2) == u as nat,
{
    proof {
        lemma_pow256_widths();
    }
    if u < 0x8000 {
        u as i16
    } else {
        -((0xFFFFu16 - u) as i16) - 1
    }
}

/// The two's complement representative of an `i32`.
pub(crate) fn i32_to_unsigned(v: i32) -> (r: u32)
    ensures
        r as nat == to_unsigned(v as int, 4),
{
    proof {
        lemma_pow256_widths();
    }
    if v >= 0 {
        v as u32
    } else {
        0xFFFF_FFFFu32 - ((-(v + 1)) as u32)
    }
}

/// The `i32` with the given two's complement representative.
pub(crate) fn i32_from_unsigned(u: u32) -> (r: i32)
    ensures
        to_unsigned(r as int, 4) == u as nat,
{
    proof {
        lemma_pow256_widths();
    }
    if u < 0x8000_0000 {
        u as i32
    } else {
        -((0xFFFF_FFFFu32 - u) as i32) - 1
    }
}

/// The two's complement representative of an `i64`.
pub(crate) fn i64_to_unsigned(v: i64) -> (r: u64)
    ensures
        r as nat == to_unsigned(v as int, 8),
{
    proof {
        lemma_pow256_widths();
    }
    if v >= 0 {
        v as u64
    } else {
        0xFFFF_FFFF_FFFF_FFFFu64 - ((-(v + 1)) as u64)
    }
}

/// The `i64` with the given two's complement representative.
pub(crate) fn i64_from_unsigned(u: u64) -> (r: i64)
    ensures
        to_unsigned(r as int, 8) == u as nat,
{
    proof {
        lemma_pow256_widths();
    }
    if u < 0x8000_0000_0000_0000 {
        u as i64
    } else {
        -((0xFFFF_FFFF_FFFF_FFFFu64 - u) as i64) - 1
    }
}

/// The two's complement representative of an `i128`.
pub(crate) fn i128_to_unsigned(v: i128) -> (r: u128)
    ensures
        r as nat == to_unsigned(v as int, 16),
{
    proof {
        lemma_pow256_widths();
    }
    if v >= 0 {
        v as u128
    } else {
        0xFFFF_FFFF_FFFF_FFFF_FFFF_FFFF_FFFF_FFFFu128 - ((-(v + 1)) as u128)
    }
}

/// The `i128` with the given two's complement representative.
pub(crate) fn i128_from_unsigned(u: u128) -> (r: i128)
    ensures
        to_unsigned(r as int, 16) == u as nat,
{
    proof {
        lemma_pow256_widths();
    }
    if u < 0x8000_0000_0000_0000_0000_0000_0000_0000 {
        u as i128
    } else {
        -((0xFFFF_FFFF_FFFF_FFFF_FFFF_FFFF_FFFF_FFFFu128 - u) as i128) - 1
    }
}

/// Produces the window with the bytes of `v` in the opposite order.
pub(crate) fn reversed_exec(v: &Vec<u8>) -> (r: Vec<u8>)
    ensures
        r@ == v@.reverse(),
{
    let mut r: Vec<u8> = Vec::new();
    let mut i: usize = v.len();
    while i > 0
        invariant
            i <= v@.len(),
            r@.len() == v@.len() - i,
            forall|j: int| 0 <= j < r@.len() ==> r@[j] == v@[v@.len() - 1 - j],
        decreases i,
    {
        i = i - 1;
        let b: u8 = v[i];
        r.push(b);
    }
    proof {
        assert(r@ =~= v@.reverse());
    }
    r
}

} // verus!
