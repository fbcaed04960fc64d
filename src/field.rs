//! Arithmetic in GF(2^8) for a chosen degree-8 reduction polynomial.
use vstd::prelude::*;

verus! {

/// The 30 degree-8 irreducible polynomials over GF(2), as 9-bit masks.
pub const PRIMITIVE_POLYS: [u16; 30] = [
    0x11b, 0x11d, 0x12b, 0x12d, 0x139, 0x13f, 0x14d, 0x15f, 0x163, 0x165,
    0x169, 0x171, 0x177, 0x17b, 0x187, 0x18b, 0x18d, 0x19f, 0x1a3, 0x1a9,
    0x1b1, 0x1bd, 0x1c3, 0x1cf, 0x1d7, 0x1dd, 0x1e7, 0x1f3, 0x1f5, 0x1f9,
];

/// Whether `poly` is one of the degree-8 irreducible polynomials over GF(2).
pub open spec fn is_irreducible(poly: u16) -> bool {
    poly == 0x11b || poly == 0x11d || poly == 0x12b || poly == 0x12d || poly == 0x139
        || poly == 0x13f || poly == 0x14d || poly == 0x15f || poly == 0x163 || poly == 0x165
        || poly == 0x169 || poly == 0x171 || poly == 0x177 || poly == 0x17b || poly == 0x187
        || poly == 0x18b || poly == 0x18d || poly == 0x19f || poly == 0x1a3 || poly == 0x1a9
        || poly == 0x1b1 || poly == 0x1bd || poly == 0x1c3 || poly == 0x1cf || poly == 0x1d7
        || poly == 0x1dd || poly == 0x1e7 || poly == 0x1f3 || poly == 0x1f5 || poly == 0x1f9
}

/// Bit `i` of `b` times `a`, shifted into place (one row of a carry-less product).
pub open spec fn partial_product(a: u16, b: u8, i: u16) -> u16 {
    if (b >> i) & 1u8 == 1u8 {
        a << i
    } else {
        0u16
    }
}

/// Carry-less product of two bytes, at most 15 bits wide.
pub open spec fn clmul(a: u8, b: u8) -> u16 {
    let w = a as u16;
    partial_product(w, b, 0) ^ partial_product(w, b, 1) ^ partial_product(w, b, 2)
        ^ partial_product(w, b, 3) ^ partial_product(w, b, 4) ^ partial_product(w, b, 5)
        ^ partial_product(w, b, 6) ^ partial_product(w, b, 7)
}

/// One reduction step: if bit `i` of `p` is set, add `poly` shifted up to that bit.
pub open spec fn reduce_step(p: u16, poly: u16, i: u16) -> u16 {
    if (p >> i) & 1u16 == 1u16 {
        p ^ (poly << ((i - 8) as u16))
    } else {
        p
    }
}

/// Reduction of a carry-less product modulo `poly`, walking bits 14 down to 8;
/// the low byte is the result.
pub open spec fn reduce(p: u16, poly: u16) -> u8 {
    let p = reduce_step(p, poly, 14);
    let p = reduce_step(p, poly, 13);
    let p = reduce_step(p, poly, 12);
    let p = reduce_step(p, poly, 11);
    let p = reduce_step(p, poly, 10);
    let p = reduce_step(p, poly, 9);
    let p = reduce_step(p, poly, 8);
    (p & 0xffu16) as u8
}

/// Field multiplication modulo `poly`.
pub open spec fn gf_mul(a: u8, b: u8, poly: u16) -> u8 {
    reduce(clmul(a, b), poly)
}

/// The inverse by Fermat's little theorem: a^254 = a^2 · a^4 · a^8 · ... · a^128.
pub open spec fn gf_inv(a: u8, poly: u16) -> u8 {
    let a2 = gf_mul(a, a, poly);
    let a4 = gf_mul(a2, a2, poly);
    let a8 = gf_mul(a4, a4, poly);
    let a16 = gf_mul(a8, a8, poly);
    let a32 = gf_mul(a16, a16, poly);
    let a64 = gf_mul(a32, a32, poly);
    let a128 = gf_mul(a64, a64, poly);
    gf_mul(
        gf_mul(gf_mul(gf_mul(gf_mul(gf_mul(a2, a4, poly), a8, poly), a16, poly), a32, poly), a64, poly),
        a128,
        poly,
    )
}

/// Field division: `a · b⁻¹`.
pub open spec fn gf_div(a: u8, b: u8, poly: u16) -> u8 {
    gf_mul(a, gf_inv(b, poly), poly)
}

fn partial_product_exec(a: u16, b: u8, i: u16) -> (r: u16)
    requires
        i < 8,
    ensures
        r == partial_product(a, b, i),
{
    if (b >> i) & 1u8 == 1u8 {
        a << i
    } else {
        0u16
    }
}

fn reduce_step_exec(p: u16, poly: u16, i: u16) -> (r: u16)
    requires
        8 <= i < 16,
    ensures
        r == reduce_step(p, poly, i),
{
    if (p >> i) & 1u16 == 1u16 {
        p ^ (poly << (i - 8))
    } else {
        p
    }
}

fn mul_bytes(a: u8, b: u8, poly: u16) -> (r: u8)
    ensures
        r == gf_mul(a, b, poly),
{
    let w = a as u16;
    let p = partial_product_exec(w, b, 0) ^ partial_product_exec(w, b, 1) ^ partial_product_exec(w, b, 2)
        ^ partial_product_exec(w, b, 3) ^ partial_product_exec(w, b, 4) ^ partial_product_exec(w, b, 5)
        ^ partial_product_exec(w, b, 6) ^ partial_product_exec(w, b, 7);
    let p = reduce_step_exec(p, poly, 14);
    let p = reduce_step_exec(p, poly, 13);
    let p = reduce_step_exec(p, poly, 12);
    let p = reduce_step_exec(p, poly, 11);
    let p = reduce_step_exec(p, poly, 10);
    let p = reduce_step_exec(p, poly, 9);
    let p = reduce_step_exec(p, poly, 8);
    (p & 0xffu16) as u8
}

/// An element of GF(2^8) reduced by the polynomial `POLY`.
#[derive(Clone, Copy, Debug, PartialEq, Eq)]
pub struct GF256<const POLY: u16>(pub u8);

impl<const POLY: u16> GF256<POLY> {
    /// The additive identity.
    pub fn zero() -> (r: Self)
        ensures
            r.0 == 0,
    {
        GF256(0)
    }

    /// The multiplicative identity.
    pub fn one() -> (r: Self)
        ensures
            r.0 == 1,
    {
        GF256(1)
    }

    /// Addition: bitwise exclusive or.
    pub fn add(self, other: Self) -> (r: Self)
        ensures
            r.0 == self.0 ^ other.0,
    {
        GF256(self.0 ^ other.0)
    }

    /// Subtraction, which in characteristic 2 is addition.
    pub fn sub(self, other: Self) -> (r: Self)
        ensures
            r.0 == self.0 ^ other.0,
    {
        GF256(self.0 ^ other.0)
    }

    /// Carry-less multiplication reduced modulo `POLY`.
    pub fn mul(self, other: Self) -> (r: Self)
        ensures
            r.0 == gf_mul(self.0, other.0, POLY),
    {
        GF256(mul_bytes(self.0, other.0, POLY))
    }

    /// The multiplicative inverse, `self^254`, by repeated squaring.
    pub fn inv(self) -> (r: Self)
        requires
            self.0 != 0,
        ensures
            r.0 == gf_inv(self.0, POLY),
    {
        let a2 = self.mul(self);
        let a4 = a2.mul(a2);
        let a8 = a4.mul(a4);
        let a16 = a8.mul(a8);
        let a32 = a16.mul(a16);
        let a64 = a32.mul(a32);
        let a128 = a64.mul(a64);
        a2.mul(a4).mul(a8).mul(a16).mul(a32).mul(a64).mul(a128)
    }

    /// Division by a nonzero element.
    pub fn div(self, other: Self) -> (r: Self)
        requires
            other.0 != 0,
        ensures
            r.0 == gf_div(self.0, other.0, POLY),
    {
        self.mul(other.inv())
    }
}

/// Distinct elements have a nonzero sum.
pub proof fn lemma_xor_nonzero(a: u8, b: u8)
    requires
        a != b,
    ensures
        a ^ b != 0,
{
    assert(a ^ b != 0) by (bit_vector)
        requires
            a != b,
    ;
}

/// Adding an element to itself gives zero, and adding zero changes nothing.
pub proof fn lemma_add_self_and_zero(a: u8)
    ensures
        a ^ a == 0,
        a ^ 0u8 == a,
{
    assert(a ^ a == 0 && a ^ 0u8 == a) by (bit_vector);
}

/// One is the multiplicative identity and zero absorbs, on both sides.
pub proof fn lemma_mul_one_and_zero(a: u8, poly: u16)
    ensures
        gf_mul(a, 1, poly) == a,
        gf_mul(1, a, poly) == a,
        gf_mul(a, 0, poly) == 0,
        gf_mul(0, a, poly) == 0,
{
    assert(gf_mul(a, 1, poly) == a) by (bit_vector);
    assert(gf_mul(1, a, poly) == a) by (bit_vector);
    assert(gf_mul(a, 0, poly) == 0) by (bit_vector);
    assert(gf_mul(0, a, poly) == 0) by (bit_vector);
}

proof fn lemma_clmul_linear(a: u8, b: u8, c: u8)
    ensures
        clmul(a ^ b, c) == clmul(a, c) ^ clmul(b, c),
{
    assert(clmul(a ^ b, c) == clmul(a, c) ^ clmul(b, c)) by (bit_vector);
}

proof fn lemma_reduce_step_linear(p: u16, q: u16, poly: u16, i: u16)
    requires
        8 <= i < 16,
    ensures
        reduce_step(p ^ q, poly, i) == reduce_step(p, poly, i) ^ reduce_step(q, poly, i),
{
    assert(reduce_step(p ^ q, poly, i) == reduce_step(p, poly, i) ^ reduce_step(q, poly, i))
        by (bit_vector)
        requires
            8 <= i < 16,
    ;
}

proof fn lemma_reduce_linear(p: u16, q: u16, poly: u16)
    ensures
        reduce(p ^ q, poly) == reduce(p, poly) ^ reduce(q, poly),
{
    lemma_reduce_step_linear(p, q, poly, 14);
    let (p_14, q_14) = (reduce_step(p, poly, 14), reduce_step(q, poly, 14));
    lemma_reduce_step_linear(p_14, q_14, poly, 13);
    let (p_13, q_13) = (reduce_step(p_14, poly, 13), reduce_step(q_14, poly, 13));
    lemma_reduce_step_linear(p_13, q_13, poly, 12);
    let (p_12, q_12) = (reduce_step(p_13, poly, 12), reduce_step(q_13, poly, 12));
    lemma_reduce_step_linear(p_12, q_12, poly, 11);
    let (p_11, q_11) = (reduce_step(p_12, poly, 11), reduce_step(q_12, poly, 11));
    lemma_reduce_step_linear(p_11, q_11, poly, 10);
    let (p_10, q_10) = (reduce_step(p_11, poly, 10), reduce_step(q_11, poly, 10));
    lemma_reduce_step_linear(p_10, q_10, poly, 9);
    let (p_9, q_9) = (reduce_step(p_10, poly, 9), reduce_step(q_10, poly, 9));
    lemma_reduce_step_linear(p_9, q_9, poly, 8);
    let (p_8, q_8) = (reduce_step(p_9, poly, 8), reduce_step(q_9, poly, 8));
    assert((((p_8 ^ q_8) & 0xffu16) as u8) == (((p_8 & 0xffu16) as u8) ^ ((q_8 & 0xffu16) as u8)))
        by (bit_vector);
}

/// Multiplication distributes over addition: (a + b) · c = a·c + b·c.
pub proof fn lemma_mul_distributes(a: u8, b: u8, c: u8, poly: u16)
    ensures
        gf_mul(a ^ b, c, poly) == gf_mul(a, c, poly) ^ gf_mul(b, c, poly),
{
    lemma_clmul_linear(a, b, c);
    lemma_reduce_linear(clmul(a, c), clmul(b, c), poly);
}

/// A nonzero element times its inverse is one.
#[verifier::rlimit(100)]
pub proof fn lemma_mul_inverse(a: u8, poly: u16)
    requires
        a != 0,
        is_irreducible(poly),
    ensures
        gf_mul(a, gf_inv(a, poly), poly) == 1,
{
    let a2c = clmul(a, a);
    let a2s14 = reduce_step(a2c, poly, 14);
    let a2s13 = reduce_step(a2s14, poly, 13);
    let a2s12 = reduce_step(a2s13, poly, 12);
    let a2s11 = reduce_step(a2s12, poly, 11);
    let a2s10 = reduce_step(a2s11, poly, 10);
    let a2s9 = reduce_step(a2s10, poly, 9);
    let a2s8 = reduce_step(a2s9, poly, 8);
    let a2 = (a2s8 & 0xffu16) as u8;
    let a4c = clmul(a2, a2);
    let a4s14 = reduce_step(a4c, poly, 14);
    let a4s13 = reduce_step(a4s14, poly, 13);
    let a4s12 = reduce_step(a4s13, poly, 12);
    let a4s11 = reduce_step(a4s12, poly, 11);
    let a4s10 = reduce_step(a4s11, poly, 10);
    let a4s9 = reduce_step(a4s10, poly, 9);
    let a4s8 = reduce_step(a4s9, poly, 8);
    let a4 = (a4s8 & 0xffu16) as u8;
    let a8c = clmul(a4, a4);
    let a8s14 = reduce_step(a8c, poly, 14);
    let a8s13 = reduce_step(a8s14, poly, 13);
    let a8s12 = reduce_step(a8s13, poly, 12);
    let a8s11 = reduce_step(a8s12, poly, 11);
    let a8s10 = reduce_step(a8s11, poly, 10);
    let a8s9 = reduce_step(a8s10, poly, 9);
    let a8s8 = reduce_step(a8s9, poly, 8);
    let a8 = (a8s8 & 0xffu16) as u8;
    let a16c = clmul(a8, a8);
    let a16s14 = reduce_step(a16c, poly, 14);
    let a16s13 = reduce_step(a16s14, poly, 13);
    let a16s12 = reduce_step(a16s13, poly, 12);
    let a16s11 = reduce_step(a16s12, poly, 11);
    let a16s10 = reduce_step(a16s11, poly, 10);
    let a16s9 = reduce_step(a16s10, poly, 9);
    let a16s8 = reduce_step(a16s9, poly, 8);
    let a16 = (a16s8 & 0xffu16) as u8;
    let a32c = clmul(a16, a16);
    let a32s14 = reduce_step(a32c, poly, 14);
    let a32s13 = reduce_step(a32s14, poly, 13);
    let a32s12 = reduce_step(a32s13, poly, 12);
    let a32s11 = reduce_step(a32s12, poly, 11);
    let a32s10 = reduce_step(a32s11, poly, 10);
    let a32s9 = reduce_step(a32s10, poly, 9);
    let a32s8 = reduce_step(a32s9, poly, 8);
    let a32 = (a32s8 & 0xffu16) as u8;
    let a64c = clmul(a32, a32);
    let a64s14 = reduce_step(a64c, poly, 14);
    let a64s13 = reduce_step(a64s14, poly, 13);
    let a64s12 = reduce_step(a64s13, poly, 12);
    let a64s11 = reduce_step(a64s12, poly, 11);
    let a64s10 = reduce_step(a64s11, poly, 10);
    let a64s9 = reduce_step(a64s10, poly, 9);
    let a64s8 = reduce_step(a64s9, poly, 8);
    let a64 = (a64s8 & 0xffu16) as u8;
    let a128c = clmul(a64, a64);
    let a128s14 = reduce_step(a128c, poly, 14);
    let a128s13 = reduce_step(a128s14, poly, 13);
    let a128s12 = reduce_step(a128s13, poly, 12);
    let a128s11 = reduce_step(a128s12, poly, 11);
    let a128s10 = reduce_step(a128s11, poly, 10);
    let a128s9 = reduce_step(a128s10, poly, 9);
    let a128s8 = reduce_step(a128s9, poly, 8);
    let a128 = (a128s8 & 0xffu16) as u8;
    let m1c = clmul(a2, a4);
    let m1s14 = reduce_step(m1c, poly, 14);
    let m1s13 = reduce_step(m1s14, poly, 13);
    let m1s12 = reduce_step(m1s13, poly, 12);
    let m1s11 = reduce_step(m1s12, poly, 11);
    let m1s10 = reduce_step(m1s11, poly, 10);
    let m1s9 = reduce_step(m1s10, poly, 9);
    let m1s8 = reduce_step(m1s9, poly, 8);
    let m1 = (m1s8 & 0xffu16) as u8;
    let m2c = clmul(m1, a8);
    let m2s14 = reduce_step(m2c, poly, 14);
    let m2s13 = reduce_step(m2s14, poly, 13);
    let m2s12 = reduce_step(m2s13, poly, 12);
    let m2s11 = reduce_step(m2s12, poly, 11);
    let m2s10 = reduce_step(m2s11, poly, 10);
    let m2s9 = reduce_step(m2s10, poly, 9);
    let m2s8 = reduce_step(m2s9, poly, 8);
    let m2 = (m2s8 & 0xffu16) as u8;
    let m3c = clmul(m2, a16);
    let m3s14 = reduce_step(m3c, poly, 14);
    let m3s13 = reduce_step(m3s14, poly, 13);
    let m3s12 = reduce_step(m3s13, poly, 12);
    let m3s11 = reduce_step(m3s12, poly, 11);
    let m3s10 = reduce_step(m3s11, poly, 10);
    let m3s9 = reduce_step(m3s10, poly, 9);
    let m3s8 = reduce_step(m3s9, poly, 8);
    let m3 = (m3s8 & 0xffu16) as u8;
    let m4c = clmul(m3, a32);
    let m4s14 = reduce_step(m4c, poly, 14);
    let m4s13 = reduce_step(m4s14, poly, 13);
    let m4s12 = reduce_step(m4s13, poly, 12);
    let m4s11 = reduce_step(m4s12, poly, 11);
    let m4s10 = reduce_step(m4s11, poly, 10);
    let m4s9 = reduce_step(m4s10, poly, 9);
    let m4s8 = reduce_step(m4s9, poly, 8);
    let m4 = (m4s8 & 0xffu16) as u8;
    let m5c = clmul(m4, a64);
    let m5s14 = reduce_step(m5c, poly, 14);
    let m5s13 = reduce_step(m5s14, poly, 13);
    let m5s12 = reduce_step(m5s13, poly, 12);
    let m5s11 = reduce_step(m5s12, poly, 11);
    let m5s10 = reduce_step(m5s11, poly, 10);
    let m5s9 = reduce_step(m5s10, poly, 9);
    let m5s8 = reduce_step(m5s9, poly, 8);
    let m5 = (m5s8 & 0xffu16) as u8;
    let invc = clmul(m5, a128);
    let invs14 = reduce_step(invc, poly, 14);
    let invs13 = reduce_step(invs14, poly, 13);
    let invs12 = reduce_step(invs13, poly, 12);
    let invs11 = reduce_step(invs12, poly, 11);
    let invs10 = reduce_step(invs11, poly, 10);
    let invs9 = reduce_step(invs10, poly, 9);
    let invs8 = reduce_step(invs9, poly, 8);
    let inv = (invs8 & 0xffu16) as u8;
    let onec = clmul(a, inv);
    let ones14 = reduce_step(onec, poly, 14);
    let ones13 = reduce_step(ones14, poly, 13);
    let ones12 = reduce_step(ones13, poly, 12);
    let ones11 = reduce_step(ones12, poly, 11);
    let ones10 = reduce_step(ones11, poly, 10);
    let ones9 = reduce_step(ones10, poly, 9);
    let ones8 = reduce_step(ones9, poly, 8);
    let one = (ones8 & 0xffu16) as u8;
    assert(one == 1u8) by (bit_vector)
        requires
            a != 0u8,
            is_irreducible(poly),
            a2c == clmul(a, a),
            a2s14 == reduce_step(a2c, poly, 14),
            a2s13 == reduce_step(a2s14, poly, 13),
            a2s12 == reduce_step(a2s13, poly, 12),
            a2s11 == reduce_step(a2s12, poly, 11),
            a2s10 == reduce_step(a2s11, poly, 10),
            a2s9 == reduce_step(a2s10, poly, 9),
            a2s8 == reduce_step(a2s9, poly, 8),
            a2 == (a2s8 & 0xffu16) as u8,
            a4c == clmul(a2, a2),
            a4s14 == reduce_step(a4c, poly, 14),
            a4s13 == reduce_step(a4s14, poly, 13),
            a4s12 == reduce_step(a4s13, poly, 12),
            a4s11 == reduce_step(a4s12, poly, 11),
            a4s10 == reduce_step(a4s11, poly, 10),
            a4s9 == reduce_step(a4s10, poly, 9),
            a4s8 == reduce_step(a4s9, poly, 8),
            a4 == (a4s8 & 0xffu16) as u8,
            a8c == clmul(a4, a4),
            a8s14 == reduce_step(a8c, poly, 14),
            a8s13 == reduce_step(a8s14, poly, 13),
            a8s12 == reduce_step(a8s13, poly, 12),
            a8s11 == reduce_step(a8s12, poly, 11),
            a8s10 == reduce_step(a8s11, poly, 10),
            a8s9 == reduce_step(a8s10, poly, 9),
            a8s8 == reduce_step(a8s9, poly, 8),
            a8 == (a8s8 & 0xffu16) as u8,
            a16c == clmul(a8, a8),
            a16s14 == reduce_step(a16c, poly, 14),
            a16s13 == reduce_step(a16s14, poly, 13),
            a16s12 == reduce_step(a16s13, poly, 12),
            a16s11 == reduce_step(a16s12, poly, 11),
            a16s10 == reduce_step(a16s11, poly, 10),
            a16s9 == reduce_step(a16s10, poly, 9),
            a16s8 == reduce_step(a16s9, poly, 8),
            a16 == (a16s8 & 0xffu16) as u8,
            a32c == clmul(a16, a16),
            a32s14 == reduce_step(a32c, poly, 14),
            a32s13 == reduce_step(a32s14, poly, 13),
            a32s12 == reduce_step(a32s13, poly, 12),
            a32s11 == reduce_step(a32s12, poly, 11),
            a32s10 == reduce_step(a32s11, poly, 10),
            a32s9 == reduce_step(a32s10, poly, 9),
            a32s8 == reduce_step(a32s9, poly, 8),
            a32 == (a32s8 & 0xffu16) as u8,
            a64c == clmul(a32, a32),
            a64s14 == reduce_step(a64c, poly, 14),
            a64s13 == reduce_step(a64s14, poly, 13),
            a64s12 == reduce_step(a64s13, poly, 12),
            a64s11 == reduce_step(a64s12, poly, 11),
            a64s10 == reduce_step(a64s11, poly, 10),
            a64s9 == reduce_step(a64s10, poly, 9),
            a64s8 == reduce_step(a64s9, poly, 8),
            a64 == (a64s8 & 0xffu16) as u8,
            a128c == clmul(a64, a64),
            a128s14 == reduce_step(a128c, poly, 14),
            a128s13 == reduce_step(a128s14, poly, 13),
            a128s12 == reduce_step(a128s13, poly, 12),
            a128s11 == reduce_step(a128s12, poly, 11),
            a128s10 == reduce_step(a128s11, poly, 10),
            a128s9 == reduce_step(a128s10, poly, 9),
            a128s8 == reduce_step(a128s9, poly, 8),
            a128 == (a128s8 & 0xffu16) as u8,
            m1c == clmul(a2, a4),
            m1s14 == reduce_step(m1c, poly, 14),
            m1s13 == reduce_step(m1s14, poly, 13),
            m1s12 == reduce_step(m1s13, poly, 12),
            m1s11 == reduce_step(m1s12, poly, 11),
            m1s10 == reduce_step(m1s11, poly, 10),
            m1s9 == reduce_step(m1s10, poly, 9),
            m1s8 == reduce_step(m1s9, poly, 8),
            m1 == (m1s8 & 0xffu16) as u8,
            m2c == clmul(m1, a8),
            m2s14 == reduce_step(m2c, poly, 14),
            m2s13 == reduce_step(m2s14, poly, 13),
            m2s12 == reduce_step(m2s13, poly, 12),
            m2s11 == reduce_step(m2s12, poly, 11),
            m2s10 == reduce_step(m2s11, poly, 10),
            m2s9 == reduce_step(m2s10, poly, 9),
            m2s8 == reduce_step(m2s9, poly, 8),
            m2 == (m2s8 & 0xffu16) as u8,
            m3c == clmul(m2, a16),
            m3s14 == reduce_step(m3c, poly, 14),
            m3s13 == reduce_step(m3s14, poly, 13),
            m3s12 == reduce_step(m3s13, poly, 12),
            m3s11 == reduce_step(m3s12, poly, 11),
            m3s10 == reduce_step(m3s11, poly, 10),
            m3s9 == reduce_step(m3s10, poly, 9),
            m3s8 == reduce_step(m3s9, poly, 8),
            m3 == (m3s8 & 0xffu16) as u8,
            m4c == clmul(m3, a32),
            m4s14 == reduce_step(m4c, poly, 14),
            m4s13 == reduce_step(m4s14, poly, 13),
            m4s12 == reduce_step(m4s13, poly, 12),
            m4s11 == reduce_step(m4s12, poly, 11),
            m4s10 == reduce_step(m4s11, poly, 10),
            m4s9 == reduce_step(m4s10, poly, 9),
            m4s8 == reduce_step(m4s9, poly, 8),
            m4 == (m4s8 & 0xffu16) as u8,
            m5c == clmul(m4, a64),
            m5s14 == reduce_step(m5c, poly, 14),
            m5s13 == reduce_step(m5s14, poly, 13),
            m5s12 == reduce_step(m5s13, poly, 12),
            m5s11 == reduce_step(m5s12, poly, 11),
            m5s10 == reduce_step(m5s11, poly, 10),
            m5s9 == reduce_step(m5s10, poly, 9),
            m5s8 == reduce_step(m5s9, poly, 8),
            m5 == (m5s8 & 0xffu16) as u8,
            invc == clmul(m5, a128),
            invs14 == reduce_step(invc, poly, 14),
            invs13 == reduce_step(invs14, poly, 13),
            invs12 == reduce_step(invs13, poly, 12),
            invs11 == reduce_step(invs12, poly, 11),
            invs10 == reduce_step(invs11, poly, 10),
            invs9 == reduce_step(invs10, poly, 9),
            invs8 == reduce_step(invs9, poly, 8),
            inv == (invs8 & 0xffu16) as u8,
            onec == clmul(a, inv),
            ones14 == reduce_step(onec, poly, 14),
            ones13 == reduce_step(ones14, poly, 13),
            ones12 == reduce_step(ones13, poly, 12),
            ones11 == reduce_step(ones12, poly, 11),
            ones10 == reduce_step(ones11, poly, 10),
            ones9 == reduce_step(ones10, poly, 9),
            ones8 == reduce_step(ones9, poly, 8),
            one == (ones8 & 0xffu16) as u8,
    ;
    assert(inv == gf_inv(a, poly));
}

} // verus!
