//! A bit stream, least significant bit first: the first bit written is bit 0
//! of byte 0.
//!
//! A stream is modelled by the sequence of the bits written to it. Its bytes
//! are [`pack`] of that sequence.

use vstd::arithmetic::power2::{lemma2_to64, lemma_pow2_adds, lemma_pow2_pos, pow2};
use vstd::prelude::*;

verus! {

/// The bit at position `i`, as a number; 0 past the end of the stream.
pub open spec fn bit_value(bits: Seq<bool>, i: int) -> int {
    if 0 <= i < bits.len() && bits[i] {
        1
    } else {
        0
    }
}

/// The value of the `i`th byte of a stream.
pub open spec fn byte_value(bits: Seq<bool>, i: int) -> int {
    bit_value(bits, 8 * i) + 2 * bit_value(bits, 8 * i + 1) + 4 * bit_value(bits, 8 * i + 2) + 8
        * bit_value(bits, 8 * i + 3) + 16 * bit_value(bits, 8 * i + 4) + 32 * bit_value(
        bits,
        8 * i + 5,
    ) + 64 * bit_value(bits, 8 * i + 6) + 128 * bit_value(bits, 8 * i + 7)
}

/// The bytes of a stream, the last one filled up with zero bits.
pub open spec fn pack(bits: Seq<bool>) -> Seq<u8> {
    Seq::new(((bits.len() + 7) / 8) as nat, |i: int| byte_value(bits, i) as u8)
}

/// The bits of a byte sequence.
pub open spec fn unpack(bytes: Seq<u8>) -> Seq<bool> {
    Seq::new(8 * bytes.len(), |i: int| (bytes[i / 8] as nat / pow2((i % 8) as nat)) % 2 == 1)
}

/// The low `count` bits of `value`, the least significant first.
pub open spec fn low_bits(value: nat, count: nat) -> Seq<bool> {
    Seq::new(count, |i: int| (value / pow2(i as nat)) % 2 == 1)
}

/// A number as a variable-length unsigned: groups of `base` bits, the least
/// significant group first, each followed by a bit that says whether another
/// group follows.
pub open spec fn varl_u_bits(n: nat, base: nat) -> Seq<bool>
    decreases n,
{
    if base == 0 || n < pow2(base) {
        low_bits(n, base).push(false)
    } else {
        proof {
            lemma_quotient_smaller(n, base);
        }
        low_bits(n, base).push(true) + varl_u_bits(n / pow2(base), base)
    }
}

/// A number as a variable-length signed: its two's complement, cut into groups
/// like [`varl_u_bits`]; the highest bit of the last group is the sign.
pub open spec fn varl_s_bits(n: int, base: nat) -> Seq<bool>
    decreases (if n < 0 { -n } else { n }),
{
    let group = low_bits((n % (pow2(base) as int)) as nat, base);
    if base == 0 || fits_signed(n, base) {
        group.push(false)
    } else {
        proof {
            lemma_signed_quotient_smaller(n, base);
        }
        group.push(true) + varl_s_bits(n / (pow2(base) as int), base)
    }
}

/// `n` is a `base`-bit two's complement number.
pub open spec fn fits_signed(n: int, base: nat) -> bool {
    -(pow2((base - 1) as nat) as int) <= n < pow2((base - 1) as nat)
}

/// `count` zero bits.
pub open spec fn zero_bits(count: nat) -> Seq<bool> {
    Seq::new(count, |i: int| false)
}

/// The number of bits that fill a stream of `len` bits up to a byte boundary.
pub open spec fn padding(len: nat) -> nat {
    ((8 - len % 8) % 8) as nat
}

/// A bit stream that is being written.
pub struct BitWriter {
    bytes: Vec<u8>,
    /// Bits used in the last byte (0 means that there is none, or it is full).
    used: u32,
    bits: Ghost<Seq<bool>>,
}

impl View for BitWriter {
    type V = Seq<bool>;

    closed spec fn view(&self) -> Seq<bool> {
        self.bits@
    }
}

impl BitWriter {
    /// The bytes hold the bits written.
    pub closed spec fn well_formed(self) -> bool {
        &&& self.bytes@ == pack(self.bits@)
        &&& self.used == self.bits@.len() % 8
    }

    pub fn new() -> (w: BitWriter)
        ensures
            w.well_formed(),
            w@ == Seq::<bool>::empty(),
    {
        let bytes: Vec<u8> = Vec::new();
        assert(bytes@ =~= pack(Seq::<bool>::empty()));
        BitWriter { bytes, used: 0, bits: Ghost(Seq::empty()) }
    }

    /// Append one bit.
    pub fn write_bit(&mut self, bit: bool)
        requires
            old(self).well_formed(),
        ensures
            final(self).well_formed(),
            final(self)@ == old(self)@.push(bit),
    {
        let ghost before = self.bits@;
        let ghost after = before.push(bit);
        let ghost packed = self.bytes@;
        if self.used == 0 {
            self.bytes.push(0);
        }
        let last: usize = self.bytes.len() - 1;
        let byte: u8 = self.bytes[last];
        let used: u32 = self.used;
        proof {
            lemma_byte_push(before, bit);
            assert(last == before.len() as int / 8);
        }
        if bit {
            assert(byte < (1u8 << used) ==> byte | (1u8 << used) == byte + (1u8 << used)) by (bit_vector)
                requires used < 8;
            assert(1u8 << 0u32 == 1 && 1u8 << 1u32 == 2 && 1u8 << 2u32 == 4 && 1u8 << 3u32 == 8
                && 1u8 << 4u32 == 16 && 1u8 << 5u32 == 32 && 1u8 << 6u32 == 64
                && 1u8 << 7u32 == 128) by (bit_vector);
            self.bytes.set(last, byte | (1u8 << used));
        }
        self.used = (used + 1) % 8;
        self.bits = Ghost(after);
        assert(self.bytes@ =~= pack(after));
    }

    /// Append the low `count` bits of `value`, the least significant first.
    pub fn write(&mut self, value: u64, count: u32)
        requires
            old(self).well_formed(),
            count <= 64,
        ensures
            final(self).well_formed(),
            final(self)@ == old(self)@ + low_bits(value as nat, count as nat),
    {
        let ghost before = self@;
        let mut i: u32 = 0;
        assert(self@ =~= before + low_bits(value as nat, 0));
        while i < count
            invariant
                i <= count <= 64,
                self.well_formed(),
                self@ == before + low_bits(value as nat, i as nat),
            decreases count - i,
        {
            let bit: bool = (value >> i) & 1 == 1;
            proof {
                lemma_bit_of(value, i);
            }
            self.write_bit(bit);
            i = i + 1;
            assert(self@ =~= before + low_bits(value as nat, i as nat));
        }
    }

    /// Append `n` as a variable-length unsigned.
    pub fn write_varl_u(&mut self, n: u32, base: u32)
        requires
            old(self).well_formed(),
            1 <= base <= 31,
        ensures
            final(self).well_formed(),
            final(self)@ == old(self)@ + varl_u_bits(n as nat, base as nat),
    {
        let ghost before = self@;
        let groups: u32 = 1u32 << base;
        let mut rest: u32 = n;
        proof {
            lemma_one_shl_u32(base);
            lemma_pow2_pos(base as nat);
        }
        loop
            invariant_except_break
                1 <= base <= 31,
                groups == pow2(base as nat),
                groups > 0,
                self.well_formed(),
                self@ + varl_u_bits(rest as nat, base as nat) == before + varl_u_bits(
                    n as nat,
                    base as nat,
                ),
            ensures
                self.well_formed(),
                self@ == before + varl_u_bits(n as nat, base as nat),
            decreases rest,
        {
            let ghost written = self@;
            let ghost this = rest as nat;
            let group: u32 = rest % groups;
            proof {
                lemma_group(this, 0, base as nat);
                lemma_group(this, 1, base as nat);
            }
            if rest / groups == 0 {
                proof {
                    vstd::arithmetic::div_mod::lemma_fundamental_div_mod(this as int, groups as int);
                }
                self.write(group as u64, base + 1);
                break;
            }
            proof {
                vstd::arithmetic::div_mod::lemma_fundamental_div_mod(this as int, groups as int);
                if this < groups {
                    vstd::arithmetic::div_mod::lemma_basic_div(this as int, groups as int);
                }
                lemma_quotient_smaller(this, base as nat);
            }
            let marked: u64 = group as u64 + groups as u64;
            self.write(marked, base + 1);
            rest = rest / groups;
            assert(self@ + varl_u_bits(rest as nat, base as nat) =~= written + varl_u_bits(
                this,
                base as nat,
            ));
        }
    }

    /// Append `n` as a variable-length signed.
    pub fn write_varl_s(&mut self, n: i64, base: u32)
        requires
            old(self).well_formed(),
            1 <= base <= 63,
        ensures
            final(self).well_formed(),
            final(self)@ == old(self)@ + varl_s_bits(n as int, base as nat),
    {
        let ghost before = self@;
        let groups: u64 = 1u64 << base;
        let mut rest: i64 = n;
        proof {
            lemma_one_shl_u64(base);
            lemma_pow2_pos(base as nat);
            if base < 63 {
                vstd::arithmetic::power2::lemma_pow2_strictly_increases(base as nat, 63);
            }
            vstd::arithmetic::power2::lemma2_to64_rest();
            vstd::arithmetic::power2::lemma_pow2_unfold(base as nat);
        }
        loop
            invariant_except_break
                1 <= base <= 63,
                groups == pow2(base as nat),
                0 < groups <= 0x8000_0000_0000_0000,
                groups == 2 * pow2((base - 1) as nat),
                self.well_formed(),
                self@ + varl_s_bits(rest as int, base as nat) == before + varl_s_bits(
                    n as int,
                    base as nat,
                ),
            ensures
                self.well_formed(),
                self@ == before + varl_s_bits(n as int, base as nat),
            decreases (if rest < 0 { -(rest as int) } else { rest as int }),
        {
            let ghost written = self@;
            let ghost this = rest as int;
            let group: u64 = #[verifier::truncate] (rest as u64) % groups;
            let negative: bool = group >= groups / 2;
            let next: i64 = rest >> base;
            proof {
                lemma_signed_group(rest, base);
                lemma_group(group as nat, 0, base as nat);
                lemma_group(group as nat, 1, base as nat);
                vstd::arithmetic::div_mod::lemma_fundamental_div_mod(this, groups as int);
                lemma_fits_signed(this, base as nat);
                vstd::arithmetic::div_mod::lemma_small_mod(group as nat, groups as nat);
            }
            if (negative && next == -1) || (!negative && next == 0) {
                self.write(group, base + 1);
                break;
            }
            proof {
                lemma_signed_quotient_smaller(this, base as nat);
            }
            self.write(group + groups, base + 1);
            rest = next;
            assert(self@ + varl_s_bits(rest as int, base as nat) =~= written + varl_s_bits(
                this,
                base as nat,
            ));
        }
    }

    /// The bytes of the stream.
    pub fn finish(self) -> (bytes: Vec<u8>)
        requires
            self.well_formed(),
        ensures
            bytes@ == pack(self@),
    {
        self.bytes
    }

    /// Bits written so far.
    pub fn bit_count(&self) -> (count: u128)
        requires
            self.well_formed(),
        ensures
            count == self@.len(),
            count <= 8 * usize::MAX,
    {
        if self.used == 0 {
            self.bytes.len() as u128 * 8
        } else {
            (self.bytes.len() as u128 - 1) * 8 + self.used as u128
        }
    }

    /// Pad with zero bits to a byte boundary.
    pub fn pad_to_byte(&mut self)
        requires
            old(self).well_formed(),
        ensures
            final(self).well_formed(),
            final(self)@ == old(self)@ + zero_bits(padding(old(self)@.len())),
    {
        let ghost before = self@;
        let ghost mut added: nat = 0;
        assert(self@ =~= before + zero_bits(0));
        while self.used != 0
            invariant
                self.well_formed(),
                self@ == before + zero_bits(added),
                added <= padding(before.len()),
            decreases padding(before.len()) - added,
        {
            self.write_bit(false);
            proof {
                added = added + 1;
                assert(self@ =~= before + zero_bits(added));
            }
        }
    }

    /// Append another stream's bytes; this stream must end at a byte boundary.
    pub fn append_bytes(&mut self, other: Vec<u8>)
        requires
            old(self).well_formed(),
            old(self)@.len() % 8 == 0,
        ensures
            final(self).well_formed(),
            final(self)@ == old(self)@ + unpack(other@),
    {
        let ghost before = self@;
        let mut other: Vec<u8> = other;
        let ghost appended = other@;
        self.bytes.append(&mut other);
        self.bits = Ghost(before + unpack(appended));
        proof {
            lemma_pack_append(before, appended);
        }
    }
}

/// Shifting and masking picks a bit.
pub proof fn lemma_bit_of(value: u64, i: u32)
    requires
        i < 64,
    ensures
        ((value >> i) & 1 == 1) == ((value as nat / pow2(i as nat)) % 2 == 1),
{
    vstd::bits::lemma_u64_shr_is_div(value, i as u64);
    let shifted: u64 = value >> i;
    assert(shifted & 1 == shifted % 2) by (bit_vector);
    assert(value >> i == value >> (i as u64)) by (bit_vector);
}

proof fn lemma_one_shl_u32(base: u32)
    requires
        base <= 31,
    ensures
        1u32 << base == pow2(base as nat),
{
    vstd::bits::lemma_u32_pow2_no_overflow(base as nat);
    vstd::bits::lemma_u32_shl_is_mul(1, base);
}

proof fn lemma_one_shl_u64(base: u32)
    requires
        base <= 63,
    ensures
        1u64 << base == pow2(base as nat),
{
    vstd::bits::lemma_u64_pow2_no_overflow(base as nat);
    vstd::bits::lemma_u64_shl_is_mul(1, base as u64);
    assert(1u64 << base == 1u64 << (base as u64)) by (bit_vector);
}

pub proof fn lemma_quotient_smaller(n: nat, base: nat)
    requires
        base > 0,
        n >= pow2(base),
    ensures
        n / pow2(base) < n,
        n / pow2(base) > 0,
{
    lemma_pow2_pos(base);
    vstd::arithmetic::power2::lemma_pow2_strictly_increases(0, base);
    lemma2_to64();
    vstd::arithmetic::div_mod::lemma_div_decreases(n as int, pow2(base) as int);
    vstd::arithmetic::div_mod::lemma_div_non_zero(n as int, pow2(base) as int);
}

pub proof fn lemma_signed_quotient_smaller(n: int, base: nat)
    requires
        base > 0,
        !fits_signed(n, base),
    ensures
        ({
            let q = n / (pow2(base) as int);
            (if q < 0 { -q } else { q }) < (if n < 0 { -n } else { n })
        }),
{
    let d = pow2(base) as int;
    let q = n / d;
    lemma_pow2_pos((base - 1) as nat);
    vstd::arithmetic::power2::lemma_pow2_unfold(base);
    vstd::arithmetic::div_mod::lemma_fundamental_div_mod(n, d);
    assert(d >= 2);
    assert(n > 0 ==> 0 <= q < n) by (nonlinear_arith)
        requires n == d * q + n % d, 0 <= n % d < d, d >= 2;
    assert(n < -1 ==> n < q < 0) by (nonlinear_arith)
        requires n == d * q + n % d, 0 <= n % d < d, d >= 2;
}

/// A number fits `base` signed bits when what lies above the low `base` bits
/// repeats the sign.
proof fn lemma_fits_signed(n: int, base: nat)
    requires
        base > 0,
    ensures
        ({
            let d = pow2(base) as int;
            let negative = n % d >= d / 2;
            fits_signed(n, base) == ((negative && n / d == -1) || (!negative && n / d == 0))
        }),
{
    let d = pow2(base) as int;
    let h = pow2((base - 1) as nat) as int;
    lemma_pow2_pos((base - 1) as nat);
    vstd::arithmetic::power2::lemma_pow2_unfold(base);
    vstd::arithmetic::div_mod::lemma_fundamental_div_mod(n, d);
    let q = n / d;
    let r = n % d;
    assert(d == 2 * h);
    assert(q >= 1 ==> n >= d) by (nonlinear_arith)
        requires n == d * q + r, 0 <= r, d > 0;
    assert(q <= -2 ==> n < -d) by (nonlinear_arith)
        requires n == d * q + r, r < d, d > 0;
    assert(q == -1 ==> n == r - d) by (nonlinear_arith)
        requires n == d * q + r;
    assert(q == 0 ==> n == r) by (nonlinear_arith)
        requires n == d * q + r;
}

/// Adding a multiple of `2^base` leaves the bits below `base` as they are.
proof fn lemma_bit_add(n: nat, k: nat, base: nat, i: nat)
    requires
        i < base,
    ensures
        ((n + k * pow2(base)) / pow2(i)) % 2 == (n / pow2(i)) % 2,
{
    let p = pow2(i) as int;
    let m = pow2((base - i - 1) as nat) as int;
    lemma_pow2_pos(i);
    lemma_pow2_adds(i, (base - i) as nat);
    vstd::arithmetic::power2::lemma_pow2_unfold((base - i) as nat);
    assert(k * pow2(base) == (2 * (k * m)) * p) by (nonlinear_arith)
        requires pow2(base) == p * (2 * m);
    vstd::arithmetic::div_mod::lemma_hoist_over_denominator(n as int, 2 * (k * m), pow2(i));
    assert((n as int / p + 2 * (k * m)) % 2 == (n as int / p) % 2);
}

/// The bits of one group, with its continuation bit.
proof fn lemma_group(n: nat, more: nat, base: nat)
    requires
        more <= 1,
    ensures
        low_bits((n % pow2(base)) + more * pow2(base), base + 1) == low_bits(n, base).push(more == 1),
        low_bits(n % pow2(base), base) == low_bits(n, base),
        n % pow2(base) < pow2(base),
{
    lemma_pow2_pos(base);
    let p = pow2(base);
    let r = n % p;
    vstd::arithmetic::div_mod::lemma_fundamental_div_mod(n as int, p as int);
    assert(n == r + (n / p) * p) by (nonlinear_arith)
        requires n == p * (n / p) + r;
    let whole = low_bits(r + more * p, base + 1);
    let split = low_bits(n, base).push(more == 1);
    assert forall|i: int| 0 <= i < base implies (r / #[trigger] pow2(i as nat)) % 2 == (n / pow2(i as nat)) % 2
        && ((r + more * p) / pow2(i as nat)) % 2 == (n / pow2(i as nat)) % 2 by {
        lemma_bit_add(r, n / p, base, i as nat);
        lemma_bit_add(r, more, base, i as nat);
    }
    assert((r + more * p) / p == more) by (nonlinear_arith)
        requires 0 <= r < p, more <= 1;
    assert(whole =~= split);
    assert(low_bits(r, base) =~= low_bits(n, base));
}

/// Shifting right and keeping the low bits is division with remainder, for a
/// negative number too.
proof fn lemma_signed_group(n: i64, base: u32)
    requires
        1 <= base <= 63,
    ensures
        (n >> base) as int == n as int / (pow2(base as nat) as int),
        (n as u64) as int % (pow2(base as nat) as int) == n as int % (pow2(base as nat) as int),
{
    let d = pow2(base as nat) as int;
    lemma_pow2_pos(base as nat);
    let m: u64 = (!n) as u64;
    let p: u64 = n as u64;
    vstd::bits::lemma_u64_shr_is_div(p, base as u64);
    vstd::bits::lemma_u64_shr_is_div(m, base as u64);
    assert(n >= 0 ==> n as u64 == n && n >> base == (n as u64) >> (base as u64)) by (bit_vector)
        requires base <= 63;
    assert(n < 0 ==> n as u64 == n + 0x1_0000_0000_0000_0000 && (!n) as u64 == -1 - n && n >> base
        == -1 - (((!n) as u64) >> (base as u64))) by (bit_vector)
        requires base <= 63;
    if n < 0 {
        let q = (m as int) / d;
        let r = (m as int) % d;
        vstd::arithmetic::div_mod::lemma_fundamental_div_mod(m as int, d);
        assert(n as int == d * (-1 - q) + (d - 1 - r)) by (nonlinear_arith)
            requires m as int == d * q + r, m as int == -1 - n as int;
        vstd::arithmetic::div_mod::lemma_fundamental_div_mod_converse(n as int, d, -1 - q, d - 1 - r);
        let rest = pow2((64 - base) as nat) as int;
        lemma_pow2_adds(base as nat, (64 - base) as nat);
        lemma2_to64();
        vstd::arithmetic::div_mod::lemma_mod_multiples_vanish(rest, n as int, d);
    }
}

/// Appending whole bytes to a stream that ends at a byte boundary.
proof fn lemma_pack_append(bits: Seq<bool>, bytes: Seq<u8>)
    requires
        bits.len() % 8 == 0,
    ensures
        pack(bits + unpack(bytes)) == pack(bits) + bytes,
{
    let all = bits + unpack(bytes);
    let n = bits.len() as int / 8;
    assert forall|i: int| 0 <= i < n + bytes.len() implies #[trigger] byte_value(all, i) as u8 == (pack(bits)
        + bytes)[i] by {
        if i < n {
            assert(byte_value(all, i) == byte_value(bits, i));
        } else {
            let b = bytes[i - n];
            lemma_byte_bits(b);
            let j = 8 * (i - n);
            assert(all[8 * i] == unpack(bytes)[j]);
            assert(all[8 * i + 1] == unpack(bytes)[j + 1]);
            assert(all[8 * i + 2] == unpack(bytes)[j + 2]);
            assert(all[8 * i + 3] == unpack(bytes)[j + 3]);
            assert(all[8 * i + 4] == unpack(bytes)[j + 4]);
            assert(all[8 * i + 5] == unpack(bytes)[j + 5]);
            assert(all[8 * i + 6] == unpack(bytes)[j + 6]);
            assert(all[8 * i + 7] == unpack(bytes)[j + 7]);
        }
    }
    assert(pack(all) =~= pack(bits) + bytes);
}

/// A byte is the sum of its bits.
proof fn lemma_byte_bits(b: u8)
    ensures
        b == (b as nat / pow2(0)) % 2 + 2 * ((b as nat / pow2(1)) % 2) + 4 * ((b as nat / pow2(2)) % 2)
            + 8 * ((b as nat / pow2(3)) % 2) + 16 * ((b as nat / pow2(4)) % 2) + 32 * ((b as nat
            / pow2(5)) % 2) + 64 * ((b as nat / pow2(6)) % 2) + 128 * ((b as nat / pow2(7)) % 2),
{
    lemma2_to64();
    assert(b == b % 2 + 2 * ((b / 2) % 2) + 4 * ((b / 4) % 2) + 8 * ((b / 8) % 2) + 16 * ((b / 16)
        % 2) + 32 * ((b / 32) % 2) + 64 * ((b / 64) % 2) + 128 * ((b / 128) % 2)) by (bit_vector);
}

/// The bits of a byte that is given by its bits.
proof fn lemma_bits_of_byte(b: u8, b0: u8, b1: u8, b2: u8, b3: u8, b4: u8, b5: u8, b6: u8, b7: u8)
    requires
        b0 <= 1 && b1 <= 1 && b2 <= 1 && b3 <= 1 && b4 <= 1 && b5 <= 1 && b6 <= 1 && b7 <= 1,
        b == b0 + 2 * b1 + 4 * b2 + 8 * b3 + 16 * b4 + 32 * b5 + 64 * b6 + 128 * b7,
    ensures
        b % 2 == b0,
        (b / 2) % 2 == b1,
        (b / 4) % 2 == b2,
        (b / 8) % 2 == b3,
        (b / 16) % 2 == b4,
        (b / 32) % 2 == b5,
        (b / 64) % 2 == b6,
        (b / 128) % 2 == b7,
{
    assert(b % 2 == b0 && (b / 2) % 2 == b1 && (b / 4) % 2 == b2 && (b / 8) % 2 == b3 && (b / 16)
        % 2 == b4 && (b / 32) % 2 == b5 && (b / 64) % 2 == b6 && (b / 128) % 2 == b7)
        by (bit_vector)
        requires
            b0 <= 1 && b1 <= 1 && b2 <= 1 && b3 <= 1 && b4 <= 1 && b5 <= 1 && b6 <= 1 && b7 <= 1,
            b == b0 + 2 * b1 + 4 * b2 + 8 * b3 + 16 * b4 + 32 * b5 + 64 * b6 + 128 * b7,
    ;
}

/// Pushing a bit changes the last byte only, or starts a new one.
proof fn lemma_byte_push(bits: Seq<bool>, bit: bool)
    ensures
        ({
            let after = bits.push(bit);
            let last = bits.len() as int / 8;
            let used = bits.len() as int % 8;
            let old_byte = byte_value(bits, last);
            let weight = if used == 0 { 1int } else if used == 1 { 2 } else if used == 2 { 4 }
                else if used == 3 { 8 } else if used == 4 { 16 } else if used == 5 { 32 }
                else if used == 6 { 64 } else { 128 };
            &&& 0 <= old_byte < weight
            &&& byte_value(after, last) == old_byte + if bit { weight } else { 0 }
            &&& forall|i: int| 0 <= i < last ==> #[trigger] byte_value(after, i) == byte_value(bits, i)
        }),
{
    let after = bits.push(bit);
    let last = bits.len() as int / 8;
    assert(bits.len() == 8 * last + bits.len() as int % 8);
    assert forall|i: int| 0 <= i < last implies #[trigger] byte_value(after, i) == byte_value(bits, i) by {
        assert(8 * i + 7 < bits.len());
    }
}

/// The number that a run of bits stands for, the least significant first.
pub open spec fn value_of(bits: Seq<bool>) -> nat
    decreases bits.len(),
{
    if bits.len() == 0 {
        0
    } else {
        (if bits[0] {
            1nat
        } else {
            0nat
        }) + 2 * value_of(bits.drop_first())
    }
}

/// The `count` bits at `at`, as a number.
pub open spec fn read_bits(bits: Seq<bool>, at: nat, count: nat) -> nat {
    value_of(bits.subrange(at as int, (at + count) as int))
}

/// Read a variable-length unsigned at `at`: its value, and where it ends.
pub open spec fn read_varl_u(bits: Seq<bool>, at: nat, base: nat) -> (nat, nat)
    decreases bits.len() - at,
{
    let group = read_bits(bits, at, base);
    let next = at + base + 1;
    if next <= bits.len() && bits[(at + base) as int] {
        let (rest, end) = read_varl_u(bits, next, base);
        (group + pow2(base) * rest, end)
    } else {
        (group, next)
    }
}

/// Read a variable-length signed at `at`: its value, and where it ends.
pub open spec fn read_varl_s(bits: Seq<bool>, at: nat, base: nat) -> (int, nat)
    decreases bits.len() - at,
{
    let group = read_bits(bits, at, base) as int;
    let next = at + base + 1;
    if next <= bits.len() && bits[(at + base) as int] {
        let (rest, end) = read_varl_s(bits, next, base);
        (group + pow2(base) * rest, end)
    } else if 2 * group >= pow2(base) {
        (group - pow2(base), next)
    } else {
        (group, next)
    }
}

/// Reading a fixed-width field gives back the low bits of what was written.
pub proof fn law_low_bits_read_back(value: nat, count: nat)
    ensures
        value_of(low_bits(value, count)) == value % pow2(count),
    decreases count,
{
    lemma2_to64();
    if count > 0 {
        let rest = (count - 1) as nat;
        let bits = low_bits(value, count);
        lemma_pow2_pos(rest);
        vstd::arithmetic::power2::lemma_pow2_unfold(count);
        assert forall|i: int| 0 <= i < rest implies #[trigger] low_bits(value / 2, rest)[i]
            == bits.drop_first()[i] by {
            lemma_pow2_pos(i as nat);
            vstd::arithmetic::power2::lemma_pow2_unfold((i + 1) as nat);
            vstd::arithmetic::div_mod::lemma_div_denominator(value as int, 2, pow2(i as nat) as int);
        }
        assert(bits.drop_first() =~= low_bits(value / 2, rest));
        assert(value / pow2(0) == value);
        assert(bits[0] == (value % 2 == 1));
        law_low_bits_read_back(value / 2, rest);
        vstd::arithmetic::div_mod::lemma_breakdown(value as int, 2, pow2(rest) as int);
    }
}

/// Reading a variable-length unsigned gives back the number written, and ends
/// where its bits end.
pub proof fn law_varl_u_read_back(bits: Seq<bool>, at: nat, n: nat, base: nat)
    requires
        base > 0,
        at + varl_u_bits(n, base).len() <= bits.len(),
        bits.subrange(at as int, (at + varl_u_bits(n, base).len()) as int) == varl_u_bits(n, base),
    ensures
        read_varl_u(bits, at, base) == (n, at + varl_u_bits(n, base).len()),
    decreases n,
{
    let code = varl_u_bits(n, base);
    let here = bits.subrange(at as int, (at + code.len()) as int);
    let d = pow2(base);
    lemma_pow2_pos(base);
    law_low_bits_read_back(n, base);
    assert(bits.subrange(at as int, (at + base) as int) =~= here.subrange(0, base as int));
    assert(code.subrange(0, base as int) =~= low_bits(n, base));
    assert(bits[(at + base) as int] == here[base as int]);
    if n < d {
        vstd::arithmetic::div_mod::lemma_small_mod(n, d);
    } else {
        lemma_quotient_smaller(n, base);
        let next = at + base + 1;
        let tail = varl_u_bits(n / d, base);
        assert(code.len() == base + 1 + tail.len());
        assert(bits.subrange(next as int, (next + tail.len()) as int) =~= here.subrange(
            (base + 1) as int,
            code.len() as int,
        ));
        assert(code.subrange((base + 1) as int, code.len() as int) =~= tail);
        law_varl_u_read_back(bits, next, n / d, base);
        vstd::arithmetic::div_mod::lemma_fundamental_div_mod(n as int, d as int);
    }
}

/// Reading a variable-length signed gives back the number written, and ends
/// where its bits end.
pub proof fn law_varl_s_read_back(bits: Seq<bool>, at: nat, n: int, base: nat)
    requires
        base > 0,
        at + varl_s_bits(n, base).len() <= bits.len(),
        bits.subrange(at as int, (at + varl_s_bits(n, base).len()) as int) == varl_s_bits(n, base),
    ensures
        read_varl_s(bits, at, base) == (n, at + varl_s_bits(n, base).len()),
    decreases (if n < 0 { -n } else { n }),
{
    let code = varl_s_bits(n, base);
    let here = bits.subrange(at as int, (at + code.len()) as int);
    let d = pow2(base) as int;
    lemma_pow2_pos(base);
    lemma_pow2_pos((base - 1) as nat);
    vstd::arithmetic::power2::lemma_pow2_unfold(base);
    let group = (n % d) as nat;
    law_low_bits_read_back(group, base);
    vstd::arithmetic::div_mod::lemma_small_mod(group, pow2(base));
    vstd::arithmetic::div_mod::lemma_fundamental_div_mod(n, d);
    assert(bits.subrange(at as int, (at + base) as int) =~= here.subrange(0, base as int));
    assert(code.subrange(0, base as int) =~= low_bits(group, base));
    assert(bits[(at + base) as int] == here[base as int]);
    if fits_signed(n, base) {
        lemma_fits_signed(n, base);
        assert(n / d == -1 ==> d * (n / d) == -d) by (nonlinear_arith);
        assert(n / d == 0 ==> d * (n / d) == 0) by (nonlinear_arith);
    } else {
        lemma_signed_quotient_smaller(n, base);
        let next = at + base + 1;
        let tail = varl_s_bits(n / d, base);
        assert(code.len() == base + 1 + tail.len());
        assert(bits.subrange(next as int, (next + tail.len()) as int) =~= here.subrange(
            (base + 1) as int,
            code.len() as int,
        ));
        assert(code.subrange((base + 1) as int, code.len() as int) =~= tail);
        law_varl_s_read_back(bits, next, n / d, base);
    }
}

/// The bytes of a stream hold its bits, followed by zero bits.
pub proof fn law_unpack_pack(bits: Seq<bool>)
    ensures
        unpack(pack(bits)) == bits + zero_bits(padding(bits.len())),
{
    let bytes = pack(bits);
    let padded = bits + zero_bits(padding(bits.len()));
    lemma2_to64();
    assert(8 * bytes.len() == padded.len());
    assert forall|i: int| 0 <= i < padded.len() implies unpack(bytes)[i] == #[trigger] padded[i] by {
        let q = i / 8;
        let k = i % 8;
        assert(i == 8 * q + k);
        assert((bit_value(bits, i) == 1) == padded[i]);
        let byte = byte_value(bits, q);
        assert(0 <= byte < 256);
        assert(bytes[q] == byte);
        lemma_bits_of_byte(
            bytes[q],
            bit_value(bits, 8 * q) as u8,
            bit_value(bits, 8 * q + 1) as u8,
            bit_value(bits, 8 * q + 2) as u8,
            bit_value(bits, 8 * q + 3) as u8,
            bit_value(bits, 8 * q + 4) as u8,
            bit_value(bits, 8 * q + 5) as u8,
            bit_value(bits, 8 * q + 6) as u8,
            bit_value(bits, 8 * q + 7) as u8,
        );
        let b = bytes[q] as nat;
        let p = pow2(k as nat);
        assert(unpack(bytes)[i] == ((b / p) % 2 == 1));
        if k == 0 {
            assert(p == 1);
        } else if k == 1 {
            assert(p == 2);
        } else if k == 2 {
            assert(p == 4);
        } else if k == 3 {
            assert(p == 8);
        } else if k == 4 {
            assert(p == 16);
        } else if k == 5 {
            assert(p == 32);
        } else if k == 6 {
            assert(p == 64);
        } else {
            assert(p == 128);
        }
    }
    assert(unpack(bytes) =~= padded);
}

} // verus!
