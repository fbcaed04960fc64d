//! Polynomial sampling and evaluation, and Lagrange interpolation over GF(2^8).
use vstd::prelude::*;

use crate::field::{
    gf_div, gf_mul, is_irreducible, lemma_mul_inverse, lemma_mul_one_and_zero, lemma_xor_nonzero, GF256,
};
use crate::share::{copy_elems, elems_bytes, ShareNoX, ShareWithX};

verus! {

/// A point set: each point is an x coordinate and one y value per secret byte.
pub type Points = Seq<(u8, Seq<u8>)>;

/// The x coordinates of the points.
pub open spec fn point_xs(ps: Points) -> Seq<u8> {
    ps.map_values(|p: (u8, Seq<u8>)| p.0)
}

/// The `j`-th y value of every point.
pub open spec fn point_column(ps: Points, j: int) -> Seq<u8> {
    ps.map_values(|p: (u8, Seq<u8>)| p.1[j])
}

/// Every point has as many y values as the first.
pub open spec fn same_widths(ps: Points) -> bool {
    forall|i: int| 0 <= i < ps.len() ==> (#[trigger] ps[i]).1.len() == ps[0].1.len()
}

/// No two positions hold the same x coordinate.
pub open spec fn distinct_xs(xs: Seq<u8>) -> bool {
    forall|i: int, j: int|
        0 <= i < xs.len() && 0 <= j < xs.len() && i != j ==> #[trigger] xs[i] != #[trigger] xs[j]
}

/// Π over m < n with xs[m] ≠ xs[i] of xs[m] / (xs[m] − xs[i]): the Lagrange basis
/// polynomial of point `i` at x = 0, points of equal x left out of the product.
pub open spec fn basis_at_zero(xs: Seq<u8>, i: int, n: int, poly: u16) -> u8
    decreases n,
{
    if n <= 0 {
        1
    } else {
        let rest = basis_at_zero(xs, i, n - 1, poly);
        if xs[n - 1] != xs[i] {
            gf_mul(rest, gf_div(xs[n - 1], xs[n - 1] ^ xs[i], poly), poly)
        } else {
            rest
        }
    }
}

/// Σ over i < n of basis_i(0) · ys[i].
pub open spec fn sum_at_zero(xs: Seq<u8>, ys: Seq<u8>, n: int, poly: u16) -> u8
    decreases n,
{
    if n <= 0 {
        0
    } else {
        sum_at_zero(xs, ys, n - 1, poly) ^ gf_mul(basis_at_zero(xs, n - 1, xs.len() as int, poly), ys[n - 1], poly)
    }
}

/// The value at x = 0 of the polynomial through the points (xs[i], ys[i]).
pub open spec fn lagrange_at_zero(xs: Seq<u8>, ys: Seq<u8>, poly: u16) -> u8 {
    sum_at_zero(xs, ys, xs.len() as int, poly)
}

/// Π over m < n, m ≠ i, of (x + xs[m]) / (xs[i] + xs[m]): the Lagrange basis
/// polynomial of point `i` at `x`.
pub open spec fn basis_at(xs: Seq<u8>, x: u8, i: int, n: int, poly: u16) -> u8
    decreases n,
{
    if n <= 0 {
        1
    } else {
        let rest = basis_at(xs, x, i, n - 1, poly);
        if n - 1 == i {
            rest
        } else {
            gf_mul(rest, gf_div(x ^ xs[n - 1], xs[i] ^ xs[n - 1], poly), poly)
        }
    }
}

/// Σ over i < n of ys[i] · basis_i(x).
pub open spec fn sum_at(xs: Seq<u8>, ys: Seq<u8>, x: u8, n: int, poly: u16) -> u8
    decreases n,
{
    if n <= 0 {
        0
    } else {
        sum_at(xs, ys, x, n - 1, poly) ^ gf_mul(ys[n - 1], basis_at(xs, x, n - 1, xs.len() as int, poly), poly)
    }
}

/// The value at `x` of the polynomial through the points (xs[i], ys[i]).
pub open spec fn lagrange_at(xs: Seq<u8>, ys: Seq<u8>, x: u8, poly: u16) -> u8 {
    sum_at(xs, ys, x, xs.len() as int, poly)
}

/// The secret that the points encode: each byte interpolated at x = 0.
pub open spec fn secret_of(ps: Points, poly: u16) -> Seq<u8> {
    Seq::new(ps[0].1.len(), |j: int| lagrange_at_zero(point_xs(ps), point_column(ps, j), poly))
}

/// The y values of the share at `x` on the polynomials through the points.
pub open spec fn reshared_at(ps: Points, x: u8, poly: u16) -> Seq<u8> {
    Seq::new(ps[0].1.len(), |j: int| lagrange_at(point_xs(ps), point_column(ps, j), x, poly))
}

/// The points of shares that carry their x.
pub open spec fn with_x_points<const POLY: u16>(s: Seq<ShareWithX<POLY>>) -> Points {
    s.map_values(|sh: ShareWithX<POLY>| sh@)
}

/// The points of shares paired with their x.
pub open spec fn paired_points<const POLY: u16>(s: Seq<(GF256<POLY>, ShareNoX<POLY>)>) -> Points {
    s.map_values(|p: (GF256<POLY>, ShareNoX<POLY>)| (p.0.0, p.1@))
}

/// The value at x of the polynomial with coefficients `c` (highest degree first),
/// by Horner's scheme over the first `n` coefficients.
pub open spec fn horner(c: Seq<u8>, x: u8, n: int, poly: u16) -> u8
    decreases n,
{
    if n <= 0 {
        0
    } else {
        gf_mul(horner(c, x, n - 1, poly), x, poly) ^ c[n - 1]
    }
}

/// The value at `x` of the polynomial with coefficients `c`, highest degree first.
pub open spec fn eval_poly(c: Seq<u8>, x: u8, poly: u16) -> u8 {
    horner(c, x, c.len() as int, poly)
}

/// The value at `x` of each polynomial: the y values of the share at `x`.
pub open spec fn evaluations(cs: Seq<Seq<u8>>, x: u8, poly: u16) -> Seq<u8> {
    Seq::new(cs.len(), |i: int| eval_poly(cs[i], x, poly))
}

fn basis_zero<const POLY: u16>(shares: &[ShareWithX<POLY>], i: usize) -> (r: GF256<POLY>)
    requires
        i < shares@.len(),
    ensures
        r.0 == basis_at_zero(point_xs(with_x_points(shares@)), i as int, shares@.len() as int, POLY),
{
    let ghost xs = point_xs(with_x_points(shares@));
    let mut basis = GF256::<POLY>::one();
    let mut j: usize = 0;
    while j < shares.len()
        invariant
            i < shares@.len(),
            j <= shares@.len(),
            xs == point_xs(with_x_points(shares@)),
            basis.0 == basis_at_zero(xs, i as int, j as int, POLY),
        decreases shares@.len() - j,
    {
        assert(xs[j as int] == shares@[j as int].x.0);
        assert(xs[i as int] == shares@[i as int].x.0);
        if shares[j].x.0 != shares[i].x.0 {
            proof {
                lemma_xor_nonzero(shares@[j as int].x.0, shares@[i as int].x.0);
            }
            let term = shares[j].x.div(shares[j].x.sub(shares[i].x));
            basis = basis.mul(term);
        }
        j = j + 1;
    }
    basis
}

fn column_at_zero<const POLY: u16>(shares: &[ShareWithX<POLY>], s: usize) -> (r: u8)
    requires
        shares@.len() >= 1,
        same_widths(with_x_points(shares@)),
        s < shares@[0].y@.len(),
    ensures
        r == lagrange_at_zero(
            point_xs(with_x_points(shares@)),
            point_column(with_x_points(shares@), s as int),
            POLY,
        ),
{
    let ghost ps = with_x_points(shares@);
    let ghost xs = point_xs(ps);
    let ghost ys = point_column(ps, s as int);
    let mut sum = GF256::<POLY>::zero();
    let mut i: usize = 0;
    while i < shares.len()
        invariant
            shares@.len() >= 1,
            same_widths(ps),
            s < shares@[0].y@.len(),
            ps == with_x_points(shares@),
            xs == point_xs(ps),
            ys == point_column(ps, s as int),
            i <= shares@.len(),
            sum.0 == sum_at_zero(xs, ys, i as int, POLY),
        decreases shares@.len() - i,
    {
        assert(ps[i as int].1.len() == ps[0].1.len());
        assert(shares@[i as int].y@.len() == shares@[0].y@.len());
        assert(ys[i as int] == shares@[i as int].y@[s as int].0);
        let basis = basis_zero(shares, i);
        sum = sum.add(basis.mul(shares[i].y[s]));
        i = i + 1;
    }
    sum.0
}

/// The secret encoded by shares with distinct x coordinates: for each byte
/// position, the Lagrange interpolation of the shares' values at x = 0.
pub fn interpolate<const POLY: u16>(shares: &[ShareWithX<POLY>]) -> (r: Vec<u8>)
    requires
        shares@.len() >= 1,
        same_widths(with_x_points(shares@)),
    ensures
        r@ == secret_of(with_x_points(shares@), POLY),
{
    let ghost ps = with_x_points(shares@);
    let len = shares[0].y.len();
    let mut out: Vec<u8> = Vec::with_capacity(len);
    let mut s: usize = 0;
    while s < len
        invariant
            shares@.len() >= 1,
            same_widths(ps),
            ps == with_x_points(shares@),
            len == shares@[0].y@.len(),
            s <= len,
            out@.len() == s,
            forall|j: int| 0 <= j < s ==> #[trigger] out@[j] == lagrange_at_zero(point_xs(ps), point_column(ps, j), POLY),
        decreases len - s,
    {
        let v = column_at_zero(shares, s);
        out.push(v);
        s = s + 1;
    }
    proof {
        assert(out@ =~= secret_of(ps, POLY));
    }
    out
}

/// The value at `x` of the polynomial through the sample points, by Lagrange interpolation.
pub fn interpolate_polynomial<const POLY: u16>(
    x_samples: &[GF256<POLY>],
    y_samples: &[GF256<POLY>],
    x: GF256<POLY>,
) -> (r: GF256<POLY>)
    requires
        x_samples@.len() == y_samples@.len(),
        distinct_xs(elems_bytes(x_samples@)),
    ensures
        r.0 == lagrange_at(elems_bytes(x_samples@), elems_bytes(y_samples@), x.0, POLY),
{
    let ghost xs = elems_bytes(x_samples@);
    let ghost ys = elems_bytes(y_samples@);
    let limit = x_samples.len();
    let mut result = GF256::<POLY>::zero();
    let mut i: usize = 0;
    while i < limit
        invariant
            limit == x_samples@.len(),
            x_samples@.len() == y_samples@.len(),
            distinct_xs(xs),
            xs == elems_bytes(x_samples@),
            ys == elems_bytes(y_samples@),
            i <= limit,
            result.0 == sum_at(xs, ys, x.0, i as int, POLY),
        decreases limit - i,
    {
        let mut basis = GF256::<POLY>::one();
        let mut j: usize = 0;
        while j < limit
            invariant
                limit == x_samples@.len(),
                distinct_xs(xs),
                xs == elems_bytes(x_samples@),
                i < limit,
                j <= limit,
                basis.0 == basis_at(xs, x.0, i as int, j as int, POLY),
            decreases limit - j,
        {
            if i != j {
                assert(xs[i as int] != xs[j as int]);
                proof {
                    lemma_xor_nonzero(xs[i as int], xs[j as int]);
                }
                let num = x.add(x_samples[j]);
                let denom = x_samples[i].add(x_samples[j]);
                let term = num.div(denom);
                basis = basis.mul(term);
            }
            j = j + 1;
        }
        result = result.add(y_samples[i].mul(basis));
        i = i + 1;
    }
    result
}

/// The share at `index` on the polynomials through the given points, computed
/// byte by byte with `interpolate_polynomial`.
pub fn reshare<const POLY: u16>(shares: &[(GF256<POLY>, ShareNoX<POLY>)], index: usize) -> (r: ShareNoX<POLY>)
    requires
        2 <= shares@.len() <= 255,
        same_widths(paired_points(shares@)),
        distinct_xs(point_xs(paired_points(shares@))),
    ensures
        r@ == reshared_at(paired_points(shares@), index as u8, POLY),
{
    let ghost ps = paired_points(shares@);
    let secret_length = shares[0].1.y.len();
    let target = GF256::<POLY>(index as u8);
    let mut new_secret: Vec<GF256<POLY>> = Vec::new();
    let mut i: usize = 0;
    while i < secret_length
        invariant
            2 <= shares@.len() <= 255,
            ps == paired_points(shares@),
            same_widths(ps),
            distinct_xs(point_xs(ps)),
            secret_length == shares@[0].1.y@.len(),
            target.0 == index as u8,
            i <= secret_length,
            new_secret@.len() == i,
            forall|j: int| 0 <= j < i ==> #[trigger] new_secret@[j].0 == lagrange_at(point_xs(ps), point_column(ps, j), index as u8, POLY),
        decreases secret_length - i,
    {
        let mut x_values: Vec<GF256<POLY>> = Vec::new();
        let mut y_values: Vec<GF256<POLY>> = Vec::new();
        let mut m: usize = 0;
        while m < shares.len()
            invariant
                ps == paired_points(shares@),
                same_widths(ps),
                secret_length == shares@[0].1.y@.len(),
                i < secret_length,
                m <= shares@.len(),
                x_values@.len() == m,
                y_values@.len() == m,
                forall|t: int| 0 <= t < m ==> #[trigger] x_values@[t].0 == point_xs(ps)[t],
                forall|t: int| 0 <= t < m ==> #[trigger] y_values@[t].0 == point_column(ps, i as int)[t],
            decreases shares@.len() - m,
        {
            assert(ps[m as int].1.len() == ps[0].1.len());
            x_values.push(GF256(shares[m].0.0));
            y_values.push(GF256(shares[m].1.y[i].0));
            m = m + 1;
        }
        proof {
            assert(elems_bytes(x_values@) =~= point_xs(ps));
            assert(elems_bytes(y_values@) =~= point_column(ps, i as int));
        }
        let v = interpolate_polynomial(x_values.as_slice(), y_values.as_slice(), target);
        new_secret.push(v);
        i = i + 1;
    }
    let r = ShareNoX { y: new_secret };
    proof {
        assert(r@ =~= reshared_at(ps, index as u8, POLY));
    }
    r
}

/// The share at `index`, carrying `index` as its x, on the polynomials through
/// the points of the given shares.
pub fn reshare_with_x<const POLY: u16>(shares: &[ShareWithX<POLY>], index: usize) -> (r: ShareWithX<POLY>)
    requires
        2 <= shares@.len() <= 255,
        same_widths(with_x_points(shares@)),
        distinct_xs(point_xs(with_x_points(shares@))),
    ensures
        r@ == (index as u8, reshared_at(with_x_points(shares@), index as u8, POLY)),
{
    let mut pairs: Vec<(GF256<POLY>, ShareNoX<POLY>)> = Vec::with_capacity(shares.len());
    let mut i: usize = 0;
    while i < shares.len()
        invariant
            i <= shares@.len(),
            pairs@.len() == i,
            forall|t: int| 0 <= t < i ==> paired_points(pairs@)[t] == (#[trigger] shares@[t])@,
        decreases shares@.len() - i,
    {
        pairs.push((GF256(shares[i].x.0), ShareNoX { y: copy_elems(&shares[i].y) }));
        i = i + 1;
    }
    proof {
        assert(paired_points(pairs@) =~= with_x_points(shares@));
    }
    let s = reshare(pairs.as_slice(), index);
    ShareWithX { x: GF256(index as u8), y: s.y }
}

/// The coefficients, highest degree first, of a polynomial of degree `k − 1`
/// with constant term `s`: the `k − 1` given random bytes in reverse order, then `s`.
pub fn random_polynomial<const POLY: u16>(s: GF256<POLY>, k: u8, random: &[u8]) -> (r: Vec<GF256<POLY>>)
    requires
        k >= 1,
        random@.len() == k - 1,
    ensures
        elems_bytes(r@) == random@.reverse().push(s.0),
{
    let mut poly: Vec<GF256<POLY>> = Vec::with_capacity(k as usize);
    let mut i: usize = random.len();
    while i > 0
        invariant
            i <= random@.len(),
            poly@.len() == random@.len() - i,
            forall|t: int| 0 <= t < poly@.len() ==> #[trigger] poly@[t].0 == random@[random@.len() - 1 - t],
        decreases i,
    {
        i = i - 1;
        poly.push(GF256(random[i]));
    }
    poly.push(s);
    proof {
        assert(elems_bytes(poly@) =~= random@.reverse().push(s.0));
    }
    poly
}

fn eval_at<const POLY: u16>(p: &Vec<GF256<POLY>>, x: GF256<POLY>) -> (r: GF256<POLY>)
    ensures
        r.0 == eval_poly(elems_bytes(p@), x.0, POLY),
{
    let ghost c = elems_bytes(p@);
    let mut acc = GF256::<POLY>::zero();
    let mut i: usize = 0;
    while i < p.len()
        invariant
            c == elems_bytes(p@),
            i <= p@.len(),
            acc.0 == horner(c, x.0, i as int, POLY),
        decreases p@.len() - i,
    {
        acc = acc.mul(x).add(p[i]);
        i = i + 1;
    }
    acc
}

/// The shares of a dealing: the polynomials of each secret byte, evaluated in
/// turn at x = 1, 2, ..., 255.
pub struct Evaluator<const POLY: u16> {
    /// One polynomial per secret byte, coefficients highest degree first.
    pub polys: Vec<Vec<GF256<POLY>>>,
    /// The x coordinate of the next share; 256 once all have been handed out.
    pub x: u16,
}

impl<const POLY: u16> Evaluator<POLY> {
    /// The coefficients of each polynomial.
    pub open spec fn coefficients(&self) -> Seq<Seq<u8>> {
        self.polys@.map_values(|p: Vec<GF256<POLY>>| elems_bytes(p@))
    }

    /// Whether the next x coordinate lies in 1..=256.
    pub open spec fn wf(&self) -> bool {
        1 <= self.x <= 256
    }

    /// The share at `x`: each polynomial evaluated there.
    pub fn share_at(&self, x: u8) -> (r: ShareNoX<POLY>)
        ensures
            r@ == evaluations(self.coefficients(), x, POLY),
    {
        let mut y: Vec<GF256<POLY>> = Vec::with_capacity(self.polys.len());
        let mut i: usize = 0;
        while i < self.polys.len()
            invariant
                i <= self.polys@.len(),
                y@.len() == i,
                forall|t: int| 0 <= t < i ==> #[trigger] y@[t].0 == eval_poly(self.coefficients()[t], x, POLY),
            decreases self.polys@.len() - i,
        {
            let v = eval_at(&self.polys[i], GF256(x));
            y.push(v);
            i = i + 1;
        }
        let r = ShareNoX { y };
        proof {
            assert(r@ =~= evaluations(self.coefficients(), x, POLY));
        }
        r
    }

    /// The share at the next x coordinate, or `None` once x = 255 has been handed out.
    pub fn next(&mut self) -> (r: Option<ShareNoX<POLY>>)
        requires
            old(self).wf(),
        ensures
            final(self).wf(),
            final(self).polys == old(self).polys,
            old(self).x <= 255 ==> final(self).x == old(self).x + 1 && r is Some,
            old(self).x <= 255 ==> (r matches Some(s) && s@ == evaluations(
                old(self).coefficients(),
                old(self).x as u8,
                POLY,
            )),
            old(self).x == 256 ==> final(self).x == 256 && r is None,
    {
        if self.x <= 255 {
            let s = self.share_at(self.x as u8);
            self.x = self.x + 1;
            Some(s)
        } else {
            None
        }
    }

    /// The share at `x`, carrying `x`: each polynomial evaluated there.
    pub fn share_at_with_x(&self, x: u8) -> (r: ShareWithX<POLY>)
        ensures
            r@ == (x, evaluations(self.coefficients(), x, POLY)),
    {
        let s = self.share_at(x);
        ShareWithX { x: GF256(x), y: s.y }
    }

    /// The next `n` shares, each carrying its x, or all that are left if fewer.
    pub fn take_with_x(self, n: usize) -> (r: Vec<ShareWithX<POLY>>)
        requires
            self.wf(),
        ensures
            r@.len() == if n <= 256 - self.x { n as int } else { 256 - self.x },
            forall|t: int|
                0 <= t < r@.len() ==> (#[trigger] r@[t])@ == ((self.x + t) as u8, evaluations(
                    self.coefficients(),
                    (self.x + t) as u8,
                    POLY,
                )),
    {
        let mut it = self;
        let ghost start = self.x;
        let mut out: Vec<ShareWithX<POLY>> = Vec::new();
        while out.len() < n && it.x <= 255
            invariant
                it.wf(),
                it.polys == self.polys,
                it.x == start + out@.len(),
                start == self.x,
                out@.len() <= n,
                forall|t: int|
                    0 <= t < out@.len() ==> (#[trigger] out@[t])@ == ((start + t) as u8, evaluations(
                        self.coefficients(),
                        (start + t) as u8,
                        POLY,
                    )),
            decreases 256 - it.x,
        {
            let s = it.share_at_with_x(it.x as u8);
            out.push(s);
            it.x = it.x + 1;
        }
        out
    }

    /// The next `n` shares, or all that are left if fewer.
    pub fn take(self, n: usize) -> (r: Vec<ShareNoX<POLY>>)
        requires
            self.wf(),
        ensures
            r@.len() == if n <= 256 - self.x { n as int } else { 256 - self.x },
            forall|t: int| 0 <= t < r@.len() ==> (#[trigger] r@[t])@ == evaluations(self.coefficients(), (self.x + t) as u8, POLY),
    {
        let mut it = self;
        let ghost start = self.x;
        let mut out: Vec<ShareNoX<POLY>> = Vec::new();
        while out.len() < n && it.x <= 255
            invariant
                it.wf(),
                it.polys == self.polys,
                it.x == start + out@.len(),
                start == self.x,
                out@.len() <= n,
                forall|t: int| 0 <= t < out@.len() ==> (#[trigger] out@[t])@ == evaluations(self.coefficients(), (start + t) as u8, POLY),
            decreases 256 - it.x,
        {
            let s = it.share_at(it.x as u8);
            out.push(s);
            it.x = it.x + 1;
        }
        out
    }
}

/// The evaluator over the given polynomials, starting at x = 1.
pub fn get_evaluator<const POLY: u16>(polys: Vec<Vec<GF256<POLY>>>) -> (r: Evaluator<POLY>)
    ensures
        r.polys@ == polys@,
        r.x == 1,
{
    Evaluator { polys, x: 1 }
}

proof fn lemma_own_basis_is_one(xs: Seq<u8>, i: int, n: int, poly: u16)
    requires
        is_irreducible(poly),
        0 <= i < xs.len(),
        n <= xs.len(),
        distinct_xs(xs),
    ensures
        basis_at(xs, xs[i], i, n, poly) == 1,
    decreases n,
{
    if n > 0 {
        lemma_own_basis_is_one(xs, i, n - 1, poly);
        if n - 1 != i {
            let c = xs[i] ^ xs[n - 1];
            lemma_xor_nonzero(xs[i], xs[n - 1]);
            lemma_mul_inverse(c, poly);
            lemma_mul_one_and_zero(1, poly);
        }
    }
}

proof fn lemma_other_basis_is_zero(xs: Seq<u8>, i: int, m: int, n: int, poly: u16)
    requires
        0 <= i < xs.len(),
        0 <= m < xs.len(),
        m != i,
        i < n <= xs.len(),
    ensures
        basis_at(xs, xs[i], m, n, poly) == 0,
    decreases n,
{
    let rest = basis_at(xs, xs[i], m, n - 1, poly);
    if n - 1 == i {
        let v = xs[i];
        assert(v ^ v == 0) by (bit_vector);
        lemma_mul_one_and_zero(crate::field::gf_inv(xs[m] ^ xs[i], poly), poly);
        lemma_mul_one_and_zero(rest, poly);
    } else {
        lemma_other_basis_is_zero(xs, i, m, n - 1, poly);
        if n - 1 != m {
            lemma_mul_one_and_zero(gf_div(xs[i] ^ xs[n - 1], xs[m] ^ xs[n - 1], poly), poly);
        }
    }
}

proof fn lemma_sum_at_own_x(xs: Seq<u8>, ys: Seq<u8>, i: int, n: int, poly: u16)
    requires
        is_irreducible(poly),
        xs.len() == ys.len(),
        0 <= i < xs.len(),
        0 <= n <= xs.len(),
        distinct_xs(xs),
    ensures
        sum_at(xs, ys, xs[i], n, poly) == if n > i { ys[i] } else { 0 },
    decreases n,
{
    if n > 0 {
        lemma_sum_at_own_x(xs, ys, i, n - 1, poly);
        let prev = sum_at(xs, ys, xs[i], n - 1, poly);
        if n - 1 == i {
            lemma_own_basis_is_one(xs, i, xs.len() as int, poly);
            lemma_mul_one_and_zero(ys[i], poly);
            let v = ys[i];
            assert(0u8 ^ v == v) by (bit_vector);
        } else {
            lemma_other_basis_is_zero(xs, i, n - 1, xs.len() as int, poly);
            lemma_mul_one_and_zero(ys[n - 1], poly);
            assert(prev ^ 0u8 == prev) by (bit_vector);
        }
    }
}

/// Interpolating at the x of one of the points gives that point's y value back.
pub proof fn lemma_lagrange_at_own_x(xs: Seq<u8>, ys: Seq<u8>, i: int, poly: u16)
    requires
        is_irreducible(poly),
        xs.len() == ys.len(),
        0 <= i < xs.len(),
        distinct_xs(xs),
    ensures
        lagrange_at(xs, ys, xs[i], poly) == ys[i],
{
    lemma_sum_at_own_x(xs, ys, i, xs.len() as int, poly);
}

/// Resharing at the x of one of the points gives that point's y values back.
pub proof fn lemma_reshare_at_own_x(ps: Points, i: int, poly: u16)
    requires
        is_irreducible(poly),
        0 <= i < ps.len(),
        same_widths(ps),
        distinct_xs(point_xs(ps)),
    ensures
        reshared_at(ps, ps[i].0, poly) == ps[i].1,
{
    assert forall|j: int| 0 <= j < ps[0].1.len() implies #[trigger] reshared_at(ps, ps[i].0, poly)[j]
        == ps[i].1[j] by {
        lemma_lagrange_at_own_x(point_xs(ps), point_column(ps, j), i, poly);
    }
    assert(ps[i].1.len() == ps[0].1.len());
    assert(reshared_at(ps, ps[i].0, poly) =~= ps[i].1);
}

} // verus!
