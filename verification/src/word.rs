//! 256-bit machine words.
//!
//! A [`Word`] holds the four 64-bit limbs of a 256-bit unsigned integer,
//! least significant first.  Arithmetic on words is done by
//! `ethereum_types::U256`; the functions at the end of this file state what
//! is taken on trust about it.

use vstd::prelude::*;
use vstd::arithmetic::power2::pow2;
use vstd::arithmetic::power2::lemma_pow2_adds;
use vstd::arithmetic::power2::lemma_pow2_pos;
use vstd::arithmetic::power2::lemma2_to64;
use ethereum_types::U256;

verus! {

/// 2^64, the weight of the second limb.
pub open spec fn radix() -> nat {
    0x1_0000_0000_0000_0000nat
}

/// 2^128, the weight of the third limb.
pub open spec fn radix2() -> nat {
    0x1_0000_0000_0000_0000_0000_0000_0000_0000nat
}

/// 2^192, the weight of the fourth limb.
pub open spec fn radix3() -> nat {
    0x1_0000_0000_0000_0000_0000_0000_0000_0000_0000_0000_0000_0000nat
}

/// 2^256: one more than the largest word.
pub open spec fn modulus() -> nat {
    0x1_0000_0000_0000_0000_0000_0000_0000_0000_0000_0000_0000_0000_0000_0000_0000_0000nat
}

/// The number that a sequence of bytes denotes, most significant byte first.
pub open spec fn be_value(bytes: Seq<u8>) -> nat
    decreases bytes.len(),
{
    if bytes.len() == 0 {
        0
    } else {
        be_value(bytes.drop_last()) * 256 + bytes.last() as nat
    }
}

/// A 256-bit unsigned integer as four limbs, least significant first.
#[derive(Clone, Copy, Debug, PartialEq, Eq, Hash, Structural)]
pub struct Word {
    pub w0: u64,
    pub w1: u64,
    pub w2: u64,
    pub w3: u64,
}

impl Word {
    /// The number that the word denotes.
    pub open spec fn value(self) -> nat {
        (self.w0 as nat + self.w1 as nat * radix() + self.w2 as nat * radix2() + self.w3 as nat
            * radix3()) as nat
    }

    /// The word that denotes `n`, for `n` below 2^256.
    pub open spec fn from_value(n: nat) -> Word {
        Word {
            w0: (n % radix()) as u64,
            w1: ((n / radix()) % radix()) as u64,
            w2: ((n / radix2()) % radix()) as u64,
            w3: ((n / radix3()) % radix()) as u64,
        }
    }

    /// The sum modulo 2^256.
    pub open spec fn add_spec(self, other: Word) -> Word {
        Word::from_value((self.value() + other.value()) % modulus())
    }

    /// `self` shifted left by `shift` bits, modulo 2^256.
    pub open spec fn shl_spec(self, shift: Word) -> Word {
        Word::from_value((self.value() * pow2(shift.value())) % modulus())
    }

    /// `self` shifted right by `shift` bits.
    pub open spec fn shr_spec(self, shift: Word) -> Word {
        Word::from_value(self.value() / pow2(shift.value()))
    }

    /// The bitwise conjunction, limb by limb.
    pub open spec fn and_spec(self, other: Word) -> Word {
        Word {
            w0: self.w0 & other.w0,
            w1: self.w1 & other.w1,
            w2: self.w2 & other.w2,
            w3: self.w3 & other.w3,
        }
    }

    /// Whether the word fits the machine's address type.
    pub open spec fn fits_usize(self) -> bool {
        self.value() <= usize::MAX
    }

    pub fn zero() -> (r: Word)
        ensures
            r.value() == 0,
            r == (Word { w0: 0, w1: 0, w2: 0, w3: 0 }),
    {
        Word { w0: 0, w1: 0, w2: 0, w3: 0 }
    }

    pub fn from_u64(x: u64) -> (r: Word)
        ensures
            r.value() == x,
            r == (Word { w0: x, w1: 0, w2: 0, w3: 0 }),
    {
        Word { w0: x, w1: 0, w2: 0, w3: 0 }
    }

    pub fn from_usize(x: usize) -> (r: Word)
        ensures
            r.value() == x,
            r == (Word { w0: x as u64, w1: 0, w2: 0, w3: 0 }),
    {
        Word { w0: x as u64, w1: 0, w2: 0, w3: 0 }
    }

    /// The word that up to 32 bytes denote, most significant byte first;
    /// `None` for a longer slice.
    pub fn from_big_endian(bytes: &[u8]) -> (r: Option<Word>)
        ensures
            r == (if bytes@.len() <= 32 {
                Some(Word::from_value(be_value(bytes@)))
            } else {
                None
            }),
    {
        if bytes.len() <= 32 {
            Some(u256_from_big_endian(bytes))
        } else {
            None
        }
    }

    /// The word as an address, where it fits.
    pub fn to_usize(&self) -> (r: Option<usize>)
        ensures
            r == (if self.fits_usize() {
                Some(self.value() as usize)
            } else {
                None
            }),
    {
        if self.w1 == 0 && self.w2 == 0 && self.w3 == 0 && self.w0 <= usize::MAX as u64 {
            Some(u256_as_usize(*self))
        } else {
            None
        }
    }

    pub fn is_zero(&self) -> (r: bool)
        ensures
            r == (self.value() == 0),
            r == (*self == (Word { w0: 0, w1: 0, w2: 0, w3: 0 })),
    {
        self.w0 == 0 && self.w1 == 0 && self.w2 == 0 && self.w3 == 0
    }

    /// Addition modulo 2^256.
    pub fn wrapping_add(&self, other: &Word) -> (r: Word)
        ensures
            r == self.add_spec(*other),
    {
        u256_overflowing_add(*self, *other).0
    }

    /// Bitwise conjunction.
    pub fn bitand(&self, other: &Word) -> (r: Word)
        ensures
            r == self.and_spec(*other),
    {
        u256_bitand(*self, *other)
    }

    /// Left shift by `shift` bits; every bit leaves with a shift of 256 or more.
    pub fn shl(&self, shift: &Word) -> (r: Word)
        ensures
            r == self.shl_spec(*shift),
    {
        if shift.w1 == 0 && shift.w2 == 0 && shift.w3 == 0 && shift.w0 < 256 {
            u256_shl(*self, *shift)
        } else {
            proof {
                lemma_shift_out(self.value(), shift.value());
            }
            Word::zero()
        }
    }

    /// Right shift by `shift` bits; every bit leaves with a shift of 256 or more.
    pub fn shr(&self, shift: &Word) -> (r: Word)
        ensures
            r == self.shr_spec(*shift),
    {
        if shift.w1 == 0 && shift.w2 == 0 && shift.w3 == 0 && shift.w0 < 256 {
            u256_shr(*self, *shift)
        } else {
            proof {
                lemma_shift_out(self.value(), shift.value());
            }
            Word::zero()
        }
    }

    /// Whether `self` is at most `other`, as numbers.
    pub fn le(&self, other: &Word) -> (r: bool)
        ensures
            r == (self.value() <= other.value()),
    {
        u256_le(*self, *other)
    }

    /// Whether `a + b <= c + d` over the naturals, without wrapping.
    pub fn sum_le(a: &Word, b: &Word, c: &Word, d: &Word) -> (r: bool)
        ensures
            r == (a.value() + b.value() <= c.value() + d.value()),
    {
        let left = u256_overflowing_add(*a, *b);
        let right = u256_overflowing_add(*c, *d);
        proof {
            lemma_add_value(*a, *b);
            lemma_add_value(*c, *d);
        }
        if left.1 == right.1 {
            u256_le(left.0, right.0)
        } else {
            !left.1
        }
    }

    /// Every word denotes a number below 2^256.
    pub proof fn lemma_value_bound(self)
        ensures
            self.value() < modulus(),
    {
    }

    /// Decomposing a number below 2^256 into limbs loses nothing.
    pub proof fn lemma_value_of_from_value(n: nat)
        requires
            n < modulus(),
        ensures
            Word::from_value(n).value() == n,
    {
        let q1 = n / radix();
        let q2 = n / radix2();
        let q3 = n / radix3();
        assert(n == q1 * radix() + n % radix()) by (nonlinear_arith)
            requires q1 == n / radix(), radix() > 0;
        assert(n / radix2() == q1 / radix()) by (nonlinear_arith)
            requires q1 == n / radix(), radix2() == radix() * radix(), radix() > 0;
        assert(n / radix3() == q2 / radix()) by (nonlinear_arith)
            requires q2 == n / radix2(), radix3() == radix2() * radix(), radix() > 0, radix2() > 0;
        assert(q1 == q2 * radix() + q1 % radix());
        assert(q2 == q3 * radix() + q2 % radix());
        assert(q3 < radix());
    }

    /// A word is the decomposition of the number it denotes.
    pub proof fn lemma_from_value_of_value(self)
        ensures
            Word::from_value(self.value()) == self,
    {
        let n = self.value();
        let r = radix();
        let a = self.w0 as nat;
        let b = self.w1 as nat + self.w2 as nat * radix() + self.w3 as nat * radix2();
        assert(n == a + b * r) by (nonlinear_arith)
            requires
                n == a + self.w1 as nat * r + self.w2 as nat * radix2() + self.w3 as nat * radix3(),
                b == self.w1 as nat + self.w2 as nat * r + self.w3 as nat * radix2(),
                radix2() == r * r,
                radix3() == r * r * r,
        ;
        lemma_div_mod_step(a, b, r);
        let c = self.w2 as nat + self.w3 as nat * radix();
        assert(b == self.w1 as nat + c * r) by (nonlinear_arith)
            requires
                b == self.w1 as nat + self.w2 as nat * r + self.w3 as nat * radix2(),
                c == self.w2 as nat + self.w3 as nat * r,
                radix2() == r * r,
        ;
        lemma_div_mod_step(self.w1 as nat, c, r);
        lemma_div_mod_step(self.w2 as nat, self.w3 as nat, r);
        assert(n / radix2() == (n / r) / r) by (nonlinear_arith)
            requires radix2() == r * r, r > 0;
        assert(n / radix3() == (n / radix2()) / r) by (nonlinear_arith)
            requires radix3() == radix2() * r, r > 0, radix2() > 0;
    }
}

/// Division and remainder of `a + b * r` by `r`, for a digit `a`.
proof fn lemma_div_mod_step(a: nat, b: nat, r: nat)
    requires
        a < r,
    ensures
        (a + b * r) / r == b,
        (a + b * r) % r == a,
{
    vstd::arithmetic::div_mod::lemma_fundamental_div_mod_converse(
        (a + b * r) as int,
        r as int,
        b as int,
        a as int,
    );
}

/// The number that a wrapped sum denotes.
pub proof fn lemma_add_value(a: Word, b: Word)
    ensures
        a.add_spec(b).value() == (if a.value() + b.value() >= modulus() {
            a.value() + b.value() - modulus()
        } else {
            (a.value() + b.value()) as int
        }),
{
    let x = a.value() + b.value();
    let m = modulus();
    a.lemma_value_bound();
    b.lemma_value_bound();
    let r = if x >= m {
        (x - m) as nat
    } else {
        x
    };
    let q: int = if x >= m {
        1
    } else {
        0
    };
    assert(x == q * m + r);
    vstd::arithmetic::div_mod::lemma_fundamental_div_mod_converse(x as int, m as int, q, r as int);
    Word::lemma_value_of_from_value(r);
}

/// A shift by 256 bits or more leaves nothing of a word.
pub proof fn lemma_shift_out(v: nat, s: nat)
    requires
        v < modulus(),
        s >= 256,
    ensures
        (v * pow2(s)) % modulus() == 0,
        v / pow2(s) == 0,
{
    lemma_pow2_256();
    lemma_pow2_adds(256, (s - 256) as nat);
    lemma_pow2_pos((s - 256) as nat);
    let k = pow2((s - 256) as nat);
    let m = modulus();
    assert(pow2(s) == m * k);
    assert(v * (m * k) == (v * k) * m) by (nonlinear_arith);
    vstd::arithmetic::div_mod::lemma_mod_multiples_basic((v * k) as int, m as int);
    assert(m * k >= m) by (nonlinear_arith)
        requires k >= 1;
    vstd::arithmetic::div_mod::lemma_basic_div(v as int, pow2(s) as int);
}

/// The literal for 2^256 is the power.
pub proof fn lemma_pow2_256()
    ensures
        pow2(64) == radix(),
        pow2(128) == radix2(),
        pow2(192) == radix3(),
        pow2(256) == modulus(),
{
    lemma2_to64();
    lemma_pow2_adds(64, 64);
    lemma_pow2_adds(128, 64);
    lemma_pow2_adds(192, 64);
    assert(radix() * radix() == radix2()) by (nonlinear_arith);
    assert(radix2() * radix() == radix3()) by (nonlinear_arith);
    assert(radix3() * radix() == modulus()) by (nonlinear_arith);
}

/// `U256::overflowing_add`: the sum modulo 2^256, and whether the true sum
/// reached 2^256.
#[verifier::external_body]
fn u256_overflowing_add(a: Word, b: Word) -> (r: (Word, bool))
    ensures
        r.0 == a.add_spec(b),
        r.1 == (a.value() + b.value() >= modulus()),
{
    let (s, carry) = U256([a.w0, a.w1, a.w2, a.w3]).overflowing_add(U256([b.w0, b.w1, b.w2, b.w3]));
    (Word { w0: s.0[0], w1: s.0[1], w2: s.0[2], w3: s.0[3] }, carry)
}

/// `U256`'s `&`: the conjunction of each pair of limbs.
#[verifier::external_body]
fn u256_bitand(a: Word, b: Word) -> (r: Word)
    ensures
        r == a.and_spec(b),
{
    let s = U256([a.w0, a.w1, a.w2, a.w3]) & U256([b.w0, b.w1, b.w2, b.w3]);
    Word { w0: s.0[0], w1: s.0[1], w2: s.0[2], w3: s.0[3] }
}

/// `U256`'s `<<` with a `U256` shift: the bits that stay below 2^256.  The
/// shift is kept under 256, far inside the range for which `U256` converts
/// it to `usize` without panicking.
#[verifier::external_body]
fn u256_shl(a: Word, shift: Word) -> (r: Word)
    requires
        shift.value() < 256,
    ensures
        r == a.shl_spec(shift),
{
    let s = U256([a.w0, a.w1, a.w2, a.w3]) << U256([shift.w0, shift.w1, shift.w2, shift.w3]);
    Word { w0: s.0[0], w1: s.0[1], w2: s.0[2], w3: s.0[3] }
}

/// `U256`'s `>>` with a `U256` shift: the quotient by the power of two.
#[verifier::external_body]
fn u256_shr(a: Word, shift: Word) -> (r: Word)
    requires
        shift.value() < 256,
    ensures
        r == a.shr_spec(shift),
{
    let s = U256([a.w0, a.w1, a.w2, a.w3]) >> U256([shift.w0, shift.w1, shift.w2, shift.w3]);
    Word { w0: s.0[0], w1: s.0[1], w2: s.0[2], w3: s.0[3] }
}

/// `U256`'s `<=`: the order of the numbers, compared from the most
/// significant limb down.
#[verifier::external_body]
fn u256_le(a: Word, b: Word) -> (r: bool)
    ensures
        r == (a.value() <= b.value()),
{
    U256([a.w0, a.w1, a.w2, a.w3]) <= U256([b.w0, b.w1, b.w2, b.w3])
}

/// `U256::from_big_endian`: the number that the bytes denote, most
/// significant first.  It panics on more than 32 bytes, which `requires`
/// leaves out.
#[verifier::external_body]
fn u256_from_big_endian(bytes: &[u8]) -> (r: Word)
    requires
        bytes@.len() <= 32,
    ensures
        r == Word::from_value(be_value(bytes@)),
{
    let s = U256::from_big_endian(bytes);
    Word { w0: s.0[0], w1: s.0[1], w2: s.0[2], w3: s.0[3] }
}

/// `U256::as_usize`: the number itself.  It panics where the number does
/// not fit, which `requires` leaves out.
#[verifier::external_body]
fn u256_as_usize(a: Word) -> (r: usize)
    requires
        a.fits_usize(),
    ensures
        r == a.value(),
{
    U256([a.w0, a.w1, a.w2, a.w3]).as_usize()
}

} // verus!
