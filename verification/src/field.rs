//! The prime field that every cell of the table and every constraint lives in.
//!
//! An element is kept as the four little-endian 64-bit limbs of its canonical
//! representative. The arithmetic is done by `halo2_proofs::pasta::Fp`; the
//! functions here state what each operation returns over the integers.

use halo2_proofs::arithmetic::Field;
use halo2_proofs::pasta::Fp;
use vstd::prelude::*;

verus! {

/// The modulus of the field: the order of the base field of the Pallas curve.
pub open spec fn modulus() -> nat {
    0x40000000000000000000000000000000224698fc094cf91b992d30ed00000001nat
}

/// Addition in the field, on representatives.
pub open spec fn fadd(a: int, b: int) -> int {
    (a + b) % (modulus() as int)
}

/// Subtraction in the field, on representatives.
pub open spec fn fsub(a: int, b: int) -> int {
    (a - b) % (modulus() as int)
}

/// Multiplication in the field, on representatives.
pub open spec fn fmul(a: int, b: int) -> int {
    (a * b) % (modulus() as int)
}

/// The canonical representative of an integer.
pub open spec fn fred(a: int) -> int {
    a % (modulus() as int)
}

/// The multiplicative inverse of `a` in the field, where it has one.
pub open spec fn finv(a: int) -> int {
    choose|r: int| 0 <= r < modulus() && fmul(a, r) == 1
}

/// The multiplicative inverse of `a`, or zero where `a` is zero.
pub open spec fn finv_or_zero(a: int) -> int {
    if fred(a) == 0 {
        0
    } else {
        finv(a)
    }
}

/// An element has at most one multiplicative inverse.
pub proof fn lemma_inverse_unique(a: int, r1: int, r2: int)
    requires
        0 <= r1 < modulus(),
        0 <= r2 < modulus(),
        fmul(a, r1) == 1,
        fmul(a, r2) == 1,
    ensures
        r1 == r2,
{
    let p = modulus() as int;
    vstd::arithmetic::div_mod::lemma_mul_mod_noop_right(r1, a * r2, p);
    vstd::arithmetic::div_mod::lemma_mul_mod_noop_right(r2, a * r1, p);
    assert(r1 * 1 == r1);
    assert(r2 * 1 == r2);
    vstd::arithmetic::div_mod::lemma_small_mod(r1 as nat, p as nat);
    vstd::arithmetic::div_mod::lemma_small_mod(r2 as nat, p as nat);
    assert(r1 * (a * r2) == r2 * (a * r1)) by (nonlinear_arith);
}

/// Where `r` is an inverse of `a`, it is the inverse of `a`.
pub proof fn lemma_finv(a: int, r: int)
    requires
        0 <= r < modulus(),
        fmul(a, r) == 1,
    ensures
        finv(a) == r,
        fmul(a, finv(a)) == 1,
        0 <= finv(a) < modulus(),
{
    let w = finv(a);
    lemma_inverse_unique(a, r, w);
}

/// The integer that four little-endian 64-bit limbs stand for.
pub open spec fn limbs_value(l: [u64; 4]) -> nat {
    (l[0] as nat) + (l[1] as nat) * 0x1_0000_0000_0000_0000 + (l[2] as nat)
        * 0x1_0000_0000_0000_0000_0000_0000_0000_0000 + (l[3] as nat)
        * 0x1_0000_0000_0000_0000_0000_0000_0000_0000_0000_0000_0000_0000
}

/// The integer that eight little-endian bytes starting at `off` stand for.
pub open spec fn le_u64(b: Seq<u8>, off: int) -> nat {
    (b[off] as nat) + (b[off + 1] as nat) * 0x100 + (b[off + 2] as nat) * 0x1_0000 + (b[off
        + 3] as nat) * 0x100_0000 + (b[off + 4] as nat) * 0x1_0000_0000 + (b[off + 5] as nat)
        * 0x100_0000_0000 + (b[off + 6] as nat) * 0x1_0000_0000_0000 + (b[off + 7] as nat)
        * 0x100_0000_0000_0000
}

/// The integer that 32 little-endian bytes stand for.
pub open spec fn le_value(b: Seq<u8>) -> nat {
    le_u64(b, 0) + le_u64(b, 8) * 0x1_0000_0000_0000_0000 + le_u64(b, 16)
        * 0x1_0000_0000_0000_0000_0000_0000_0000_0000 + le_u64(b, 24)
        * 0x1_0000_0000_0000_0000_0000_0000_0000_0000_0000_0000_0000_0000
}

/// Calls `Fp::from_raw` on each operand, adds the two with `Fp`'s `+`, and
/// serialises the sum with `Fp`'s conversion into 32 bytes. The contract
/// claims that the bytes hold, little-endian, the canonical representative of
/// the sum of the two integers.
#[verifier::external_body]
fn fp_add(a: [u64; 4], b: [u64; 4]) -> (r: [u8; 32])
    ensures
        le_value(r@) == fadd(limbs_value(a) as int, limbs_value(b) as int),
{
    (Fp::from_raw(a) + Fp::from_raw(b)).into()
}

/// Calls `Fp::from_raw` on each operand, subtracts with `Fp`'s `-`, and
/// serialises the difference. The contract claims that the bytes hold the
/// canonical representative of the difference of the two integers.
#[verifier::external_body]
fn fp_sub(a: [u64; 4], b: [u64; 4]) -> (r: [u8; 32])
    ensures
        le_value(r@) == fsub(limbs_value(a) as int, limbs_value(b) as int),
{
    (Fp::from_raw(a) - Fp::from_raw(b)).into()
}

/// Calls `Fp::from_raw` on each operand, multiplies with `Fp`'s `*`, and
/// serialises the product. The contract claims that the bytes hold the
/// canonical representative of the product of the two integers.
#[verifier::external_body]
fn fp_mul(a: [u64; 4], b: [u64; 4]) -> (r: [u8; 32])
    ensures
        le_value(r@) == fmul(limbs_value(a) as int, limbs_value(b) as int),
{
    (Fp::from_raw(a) * Fp::from_raw(b)).into()
}

/// Calls `Field::invert` on `Fp::from_raw(a)`. The contract claims that the
/// call fails exactly on the multiples of the modulus, and that otherwise the
/// bytes hold a canonical representative whose product with `a` is one in the
/// field.
#[verifier::external_body]
fn fp_invert(a: [u64; 4]) -> (r: Option<[u8; 32]>)
    ensures
        r is None <==> fred(limbs_value(a) as int) == 0,
        r matches Some(inv) ==> le_value(inv@) < modulus() && fmul(
            limbs_value(a) as int,
            le_value(inv@) as int,
        ) == 1,
{
    Option::<Fp>::from(Fp::from_raw(a).invert()).map(|x: Fp| x.into())
}

/// An element of the field.
#[derive(Clone, Copy, Debug, PartialEq, Eq, Structural)]
pub struct Fe {
    l0: u64,
    l1: u64,
    l2: u64,
    l3: u64,
}

impl View for Fe {
    type V = int;

    /// The canonical representative.
    closed spec fn view(&self) -> int {
        self.l0 + self.l1 * 0x1_0000_0000_0000_0000 + self.l2
            * 0x1_0000_0000_0000_0000_0000_0000_0000_0000 + self.l3
            * 0x1_0000_0000_0000_0000_0000_0000_0000_0000_0000_0000_0000_0000
    }
}

/// One little-endian limb out of eight bytes.
fn limb_of_bytes(b: &[u8; 32], off: usize) -> (r: u64)
    requires
        off + 8 <= 32,
    ensures
        r == le_u64(b@, off as int),
{
    (b[off] as u64) + (b[off + 1] as u64) * 0x100 + (b[off + 2] as u64) * 0x1_0000 + (b[off
        + 3] as u64) * 0x100_0000 + (b[off + 4] as u64) * 0x1_0000_0000 + (b[off + 5] as u64)
        * 0x100_0000_0000 + (b[off + 6] as u64) * 0x1_0000_0000_0000 + (b[off + 7] as u64)
        * 0x100_0000_0000_0000
}

impl Fe {
    /// Every element is stored as its canonical representative.
    #[verifier::type_invariant]
    closed spec fn canonical(self) -> bool {
        0 <= self@ < modulus()
    }

    /// The four little-endian 64-bit limbs of the canonical representative.
    pub fn limbs(&self) -> (r: [u64; 4])
        ensures
            limbs_value(r) == self@,
    {
        [self.l0, self.l1, self.l2, self.l3]
    }

    fn of_canonical_bytes(b: &[u8; 32]) -> (r: Fe)
        requires
            le_value(b@) < modulus(),
        ensures
            r@ == le_value(b@),
    {
        Fe {
            l0: limb_of_bytes(b, 0),
            l1: limb_of_bytes(b, 8),
            l2: limb_of_bytes(b, 16),
            l3: limb_of_bytes(b, 24),
        }
    }

    /// The element whose canonical representative is `x`, for `x` below
    /// 2^256.
    pub closed spec fn of_int(x: int) -> Fe {
        Fe {
            l0: (x % 0x1_0000_0000_0000_0000int) as u64,
            l1: ((x / 0x1_0000_0000_0000_0000int) % 0x1_0000_0000_0000_0000int) as u64,
            l2: ((x / 0x1_0000_0000_0000_0000_0000_0000_0000_0000int)
                % 0x1_0000_0000_0000_0000int) as u64,
            l3: ((x / 0x1_0000_0000_0000_0000_0000_0000_0000_0000_0000_0000_0000_0000int)
                % 0x1_0000_0000_0000_0000int) as u64,
        }
    }

    /// `of_int` is the inverse of the view on the canonical range.
    pub proof fn lemma_of_int(x: int)
        requires
            0 <= x < modulus(),
        ensures
            Fe::of_int(x)@ == x,
    {
        let b1 = 0x1_0000_0000_0000_0000int;
        let b2 = 0x1_0000_0000_0000_0000_0000_0000_0000_0000int;
        let b3 = 0x1_0000_0000_0000_0000_0000_0000_0000_0000_0000_0000_0000_0000int;
        let q1 = x / b1;
        let q2 = x / b2;
        let q3 = x / b3;
        vstd::arithmetic::div_mod::lemma_fundamental_div_mod(x, b1);
        vstd::arithmetic::div_mod::lemma_fundamental_div_mod(q1, b1);
        vstd::arithmetic::div_mod::lemma_fundamental_div_mod(q2, b1);
        vstd::arithmetic::div_mod::lemma_div_denominator(x, b1, b1);
        vstd::arithmetic::div_mod::lemma_div_denominator(x, b2, b1);
        assert(b1 * b1 == b2);
        assert(b2 * b1 == b3);
        assert(q1 / b1 == q2);
        assert(q2 / b1 == q3);
        vstd::arithmetic::div_mod::lemma_div_pos_is_pos(x, b3);
        assert(q3 < b1) by {
            vstd::arithmetic::div_mod::lemma_fundamental_div_mod(x, b3);
            if q3 >= b1 {
                assert(b3 * q3 >= b3 * b1) by (nonlinear_arith)
                    requires
                        q3 >= b1,
                        b3 > 0,
                ;
            }
        }
        vstd::arithmetic::div_mod::lemma_small_mod(q3 as nat, b1 as nat);
        let l0 = x % b1;
        let l1 = q1 % b1;
        let l2 = q2 % b1;
        let l3 = q3 % b1;
        assert(x == b1 * q1 + l0);
        assert(q1 == b1 * q2 + l1);
        assert(q2 == b1 * q3 + l2);
        assert(q3 == l3);
        assert(x == l0 + l1 * b1 + l2 * b2 + l3 * b3) by (nonlinear_arith)
            requires
                x == b1 * q1 + l0,
                q1 == b1 * q2 + l1,
                q2 == b1 * q3 + l2,
                q3 == l3,
                b1 * b1 == b2,
                b2 * b1 == b3,
        ;
    }

    /// An element is determined by its representative.
    pub proof fn lemma_of_view(a: Fe)
        ensures
            Fe::of_int(a@) == a,
    {
        let b1 = 0x1_0000_0000_0000_0000int;
        let b2 = 0x1_0000_0000_0000_0000_0000_0000_0000_0000int;
        let b3 = 0x1_0000_0000_0000_0000_0000_0000_0000_0000_0000_0000_0000_0000int;
        let x = a@;
        let l0 = a.l0 as int;
        let l1 = a.l1 as int;
        let l2 = a.l2 as int;
        let l3 = a.l3 as int;
        assert(x == l0 + l1 * b1 + l2 * b2 + l3 * b3);
        let h1 = l1 + l2 * b1 + l3 * b2;
        let h2 = l2 + l3 * b1;
        assert(x == h1 * b1 + l0) by (nonlinear_arith)
            requires
                x == l0 + l1 * b1 + l2 * b2 + l3 * b3,
                h1 == l1 + l2 * b1 + l3 * b2,
                b2 == b1 * b1,
                b3 == b2 * b1,
        ;
        assert(x == h2 * b2 + (l0 + l1 * b1)) by (nonlinear_arith)
            requires
                x == l0 + l1 * b1 + l2 * b2 + l3 * b3,
                h2 == l2 + l3 * b1,
                b3 == b2 * b1,
        ;
        assert(x == l3 * b3 + (l0 + l1 * b1 + l2 * b2));
        vstd::arithmetic::div_mod::lemma_fundamental_div_mod_converse(x, b1, h1, l0);
        vstd::arithmetic::div_mod::lemma_fundamental_div_mod_converse(x, b2, h2, l0 + l1 * b1);
        vstd::arithmetic::div_mod::lemma_fundamental_div_mod_converse(
            x,
            b3,
            l3,
            l0 + l1 * b1 + l2 * b2,
        );
        vstd::arithmetic::div_mod::lemma_fundamental_div_mod_converse(h1, b1, h2, l1);
        vstd::arithmetic::div_mod::lemma_fundamental_div_mod_converse(h2, b1, l3, l2);
        vstd::arithmetic::div_mod::lemma_small_mod(l3 as nat, b1 as nat);
        assert(x % b1 == l0);
        assert((x / b1) % b1 == l1);
        assert((x / b2) % b1 == l2);
        assert((x / b3) % b1 == l3);
    }

    /// Two elements with the same representative are the same element.
    pub proof fn lemma_view_injective(a: Fe, b: Fe)
        ensures
            (a@ == b@) <==> (a == b),
    {
        Fe::lemma_of_view(a);
        Fe::lemma_of_view(b);
    }

    /// The low 64 bits of the canonical representative.
    pub fn low_u64(&self) -> (r: u64)
        ensures
            r == self@ % 0x1_0000_0000_0000_0000int,
    {
        proof {
            let k = self.l1 + self.l2 * 0x1_0000_0000_0000_0000int + self.l3
                * 0x1_0000_0000_0000_0000_0000_0000_0000_0000int;
            assert(self@ == 0x1_0000_0000_0000_0000int * k + self.l0);
            vstd::arithmetic::div_mod::lemma_mod_multiples_vanish(
                k,
                self.l0 as int,
                0x1_0000_0000_0000_0000int,
            );
            vstd::arithmetic::div_mod::lemma_small_mod(
                self.l0 as nat,
                0x1_0000_0000_0000_0000nat,
            );
        }
        self.l0
    }

    /// The representative as a 64-bit integer, where it fits.
    pub fn to_u64(&self) -> (r: Option<u64>)
        ensures
            r is Some <==> self@ < 0x1_0000_0000_0000_0000int,
            r matches Some(x) ==> x == self@,
    {
        if self.l1 == 0 && self.l2 == 0 && self.l3 == 0 {
            Some(self.l0)
        } else {
            None
        }
    }

    /// The additive identity.
    pub fn zero() -> (r: Fe)
        ensures
            r@ == 0,
            r == Fe::of_int(0),
    {
        Fe { l0: 0, l1: 0, l2: 0, l3: 0 }
    }

    /// The multiplicative identity.
    pub fn one() -> (r: Fe)
        ensures
            r@ == 1,
            r == Fe::of_int(1),
    {
        Fe { l0: 1, l1: 0, l2: 0, l3: 0 }
    }

    /// The element that a 64-bit integer stands for.
    pub fn from_u64(x: u64) -> (r: Fe)
        ensures
            r@ == x,
            r == Fe::of_int(x as int),
    {
        Fe { l0: x, l1: 0, l2: 0, l3: 0 }
    }

    /// One for `true`, zero for `false`.
    pub fn from_bool(b: bool) -> (r: Fe)
        ensures
            r@ == if b { 1int } else { 0int },
            r == Fe::of_int(if b { 1int } else { 0int }),
    {
        if b {
            Fe::one()
        } else {
            Fe::zero()
        }
    }

    /// The sum of two elements.
    pub fn add(&self, rhs: &Fe) -> (r: Fe)
        ensures
            r@ == fadd(self@, rhs@),
    {
        let b = fp_add(self.limbs(), rhs.limbs());
        Fe::of_canonical_bytes(&b)
    }

    /// The difference of two elements.
    pub fn sub(&self, rhs: &Fe) -> (r: Fe)
        ensures
            r@ == fsub(self@, rhs@),
    {
        let b = fp_sub(self.limbs(), rhs.limbs());
        Fe::of_canonical_bytes(&b)
    }

    /// The product of two elements.
    pub fn mul(&self, rhs: &Fe) -> (r: Fe)
        ensures
            r@ == fmul(self@, rhs@),
    {
        let b = fp_mul(self.limbs(), rhs.limbs());
        Fe::of_canonical_bytes(&b)
    }

    /// The additive inverse.
    pub fn neg(&self) -> (r: Fe)
        ensures
            r@ == fsub(0, self@),
    {
        Fe::zero().sub(self)
    }

    /// Whether the element is zero.
    pub fn is_zero(&self) -> (r: bool)
        ensures
            r == (self@ == 0),
    {
        self.l0 == 0 && self.l1 == 0 && self.l2 == 0 && self.l3 == 0
    }

    /// The multiplicative inverse, which every element but zero has.
    pub fn invert(&self) -> (r: Option<Fe>)
        ensures
            r is None <==> self@ == 0,
            r matches Some(inv) ==> fmul(self@, inv@) == 1 && inv@ == finv(self@),
    {
        proof {
            use_type_invariant(self);
        }
        match fp_invert(self.limbs()) {
            Some(b) => {
                let inv = Fe::of_canonical_bytes(&b);
                proof {
                    lemma_finv(self@, inv@);
                }
                Some(inv)
            },
            None => None,
        }
    }

    /// The multiplicative inverse, or zero for zero.
    pub fn invert_or_zero(&self) -> (r: Fe)
        ensures
            r@ == finv_or_zero(self@),
    {
        proof {
            use_type_invariant(self);
        }
        match self.invert() {
            Some(inv) => inv,
            None => Fe::zero(),
        }
    }

    /// Whether this element's representative is the smaller one.
    pub fn lt(&self, rhs: &Fe) -> (r: bool)
        ensures
            r == (self@ < rhs@),
    {
        if self.l3 != rhs.l3 {
            self.l3 < rhs.l3
        } else if self.l2 != rhs.l2 {
            self.l2 < rhs.l2
        } else if self.l1 != rhs.l1 {
            self.l1 < rhs.l1
        } else {
            self.l0 < rhs.l0
        }
    }
}

} // verus!
