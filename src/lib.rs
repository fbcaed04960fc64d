//! Shamir's secret sharing over GF(2^8), with the field's reduction
//! polynomial chosen by a const generic parameter.
//!
//! A secret of s bytes is split into one polynomial of degree k − 1 per byte,
//! whose constant term is that byte; the share at x holds each polynomial's
//! value at x. Any k distinct shares give the secret back by Lagrange
//! interpolation at x = 0, and the share at any other x by interpolation there.
use vstd::prelude::*;

pub mod error;
pub mod field;
mod keys;
pub mod math;
pub mod share;

pub use error::Error;
pub use field::{GF256, PRIMITIVE_POLYS};
pub use share::{Share, ShareNoX, ShareWithX};

use field::{gf_mul, lemma_mul_one_and_zero};
use keys::{key_set_contents, KeySet};
use math::{
    distinct_xs, evaluations, get_evaluator, interpolate, paired_points, point_xs, random_polynomial,
    reshare, reshare_with_x, reshared_at, same_widths, secret_of, with_x_points, Evaluator, Points,
};
use share::{copy_elems, elems_bytes, with_x_bytes};

verus! {

/// The x coordinate of the share at 0-based position `i` of a collection.
pub open spec fn position_x(i: int) -> u8 {
    ((i + 1) % 256) as u8
}

/// The points of the present shares, each at the x of its position.
pub open spec fn present_points<const POLY: u16>(s: Seq<Option<ShareNoX<POLY>>>) -> Points
    decreases s.len(),
{
    if s.len() == 0 {
        Seq::empty()
    } else {
        let rest = present_points(s.drop_last());
        match s.last() {
            Some(sh) => rest.push((position_x(s.len() - 1), sh@)),
            None => rest,
        }
    }
}

/// The distinct byte forms of the present shares.
pub open spec fn present_keys<const POLY: u16>(s: Seq<Option<ShareNoX<POLY>>>) -> Set<Seq<u8>>
    decreases s.len(),
{
    if s.len() == 0 {
        Set::empty()
    } else {
        let rest = present_keys(s.drop_last());
        match s.last() {
            Some(sh) => rest.insert(sh@),
            None => rest,
        }
    }
}

/// All present shares have the same number of y values.
pub open spec fn lengths_agree<const POLY: u16>(s: Seq<Option<ShareNoX<POLY>>>) -> bool {
    forall|i: int, j: int|
        0 <= i < s.len() && 0 <= j < s.len() && #[trigger] s[i] is Some && #[trigger] s[j] is Some
            ==> s[i]->0.y@.len() == s[j]->0.y@.len()
}

/// Fewer distinct shares than the threshold `k`, or none at all.
pub open spec fn too_few<const POLY: u16>(s: Seq<Option<ShareNoX<POLY>>>, k: u8) -> bool {
    present_keys(s).len() == 0 || present_keys(s).len() < k
}

/// The points of the present shares whose byte form no earlier present share
/// has, in input order: the first share of each byte form.
pub open spec fn distinct_present<const POLY: u16>(s: Seq<Option<ShareNoX<POLY>>>) -> Points
    decreases s.len(),
{
    if s.len() == 0 {
        Seq::empty()
    } else {
        let rest = distinct_present(s.drop_last());
        match s.last() {
            Some(sh) => if present_keys(s.drop_last()).contains(sh@) {
                rest
            } else {
                rest.push((position_x(s.len() - 1), sh@))
            },
            None => rest,
        }
    }
}

/// The points of the present shares that carry their x.
pub open spec fn carried_points<const POLY: u16>(s: Seq<Option<ShareWithX<POLY>>>) -> Points
    decreases s.len(),
{
    if s.len() == 0 {
        Seq::empty()
    } else {
        let rest = carried_points(s.drop_last());
        match s.last() {
            Some(sh) => rest.push(sh@),
            None => rest,
        }
    }
}

/// The distinct byte forms, x first, of the present shares that carry their x.
pub open spec fn carried_keys<const POLY: u16>(s: Seq<Option<ShareWithX<POLY>>>) -> Set<Seq<u8>>
    decreases s.len(),
{
    if s.len() == 0 {
        Set::empty()
    } else {
        let rest = carried_keys(s.drop_last());
        match s.last() {
            Some(sh) => rest.insert(with_x_bytes(sh@.0, sh@.1)),
            None => rest,
        }
    }
}

/// All present shares that carry their x have the same number of y values.
pub open spec fn carried_lengths_agree<const POLY: u16>(s: Seq<Option<ShareWithX<POLY>>>) -> bool {
    forall|i: int, j: int|
        0 <= i < s.len() && 0 <= j < s.len() && #[trigger] s[i] is Some && #[trigger] s[j] is Some
            ==> s[i]->0.y@.len() == s[j]->0.y@.len()
}

/// Fewer distinct shares that carry their x than the threshold `k`, or none at all.
pub open spec fn too_few_carried<const POLY: u16>(s: Seq<Option<ShareWithX<POLY>>>, k: u8) -> bool {
    carried_keys(s).len() == 0 || carried_keys(s).len() < k
}

/// The points of the present shares that carry their x and whose byte form no
/// earlier present share has, in input order: the first share of each byte form.
pub open spec fn distinct_carried<const POLY: u16>(s: Seq<Option<ShareWithX<POLY>>>) -> Points
    decreases s.len(),
{
    if s.len() == 0 {
        Seq::empty()
    } else {
        let rest = distinct_carried(s.drop_last());
        match s.last() {
            Some(sh) => if carried_keys(s.drop_last()).contains(with_x_bytes(sh@.0, sh@.1)) {
                rest
            } else {
                rest.push(sh@)
            },
            None => rest,
        }
    }
}

/// Present shares with the same x are the same share: no two byte forms
/// share an x, so interpolation never divides by zero.
pub open spec fn x_determines_share<const POLY: u16>(s: Seq<Option<ShareWithX<POLY>>>) -> bool {
    forall|i: int, j: int|
        0 <= i < s.len() && 0 <= j < s.len() && #[trigger] s[i] is Some && #[trigger] s[j] is Some
            && s[i]->0.x.0 == s[j]->0.x.0 ==> s[i]->0@ == s[j]->0@
}

/// The shares that carry their x that a collection of borrowed ones refers to.
pub open spec fn deref_carried<const POLY: u16>(s: Seq<Option<&ShareWithX<POLY>>>) -> Seq<Option<ShareWithX<POLY>>> {
    s.map_values(|o: Option<&ShareWithX<POLY>>|
        match o {
            Some(r) => Some(*r),
            None => None,
        }
    )
}

/// The shares that a collection of borrowed shares refers to.
pub open spec fn deref_shares<const POLY: u16>(s: Seq<Option<&ShareNoX<POLY>>>) -> Seq<Option<ShareNoX<POLY>>> {
    s.map_values(|o: Option<&ShareNoX<POLY>>|
        match o {
            Some(r) => Some(*r),
            None => None,
        }
    )
}

/// The polynomials dealt for `secret` with threshold `k` from the given random
/// bytes: byte i gets the i-th run of k − 1 random bytes, reversed, then itself.
pub open spec fn dealt_polys(secret: Seq<u8>, random: Seq<u8>, k: int) -> Seq<Seq<u8>> {
    Seq::new(
        secret.len(),
        |i: int| random.subrange(i * (k - 1), (i + 1) * (k - 1)).reverse().push(secret[i]),
    )
}

proof fn lemma_present_step<const POLY: u16>(s: Seq<Option<ShareNoX<POLY>>>, i: int)
    requires
        0 <= i < s.len(),
    ensures
        s.take(i + 1).drop_last() == s.take(i),
        s.take(i + 1).last() == s[i],
        s.take(i + 1).len() == i + 1,
{
    assert(s.take(i + 1).drop_last() =~= s.take(i));
}

proof fn lemma_present_keys_finite<const POLY: u16>(s: Seq<Option<ShareNoX<POLY>>>)
    ensures
        present_keys(s).finite(),
        present_keys(s).len() <= present_points(s).len(),
    decreases s.len(),
{
    if s.len() > 0 {
        lemma_present_keys_finite(s.drop_last());
        match s.last() {
            Some(sh) => {
                vstd::set::axiom_set_insert_finite(present_keys(s.drop_last()), sh@);
                vstd::set::axiom_set_insert_len(present_keys(s.drop_last()), sh@);
            },
            None => {},
        }
    }
}

proof fn lemma_distinct_present_len<const POLY: u16>(s: Seq<Option<ShareNoX<POLY>>>)
    ensures
        distinct_present(s).len() == present_keys(s).len(),
    decreases s.len(),
{
    if s.len() > 0 {
        lemma_distinct_present_len(s.drop_last());
        lemma_present_keys_finite(s.drop_last());
        match s.last() {
            Some(sh) => {
                vstd::set::axiom_set_insert_len(present_keys(s.drop_last()), sh@);
            },
            None => {},
        }
    }
}

proof fn lemma_carried_step<const POLY: u16>(s: Seq<Option<ShareWithX<POLY>>>, i: int)
    requires
        0 <= i < s.len(),
    ensures
        s.take(i + 1).drop_last() == s.take(i),
        s.take(i + 1).last() == s[i],
        s.take(i + 1).len() == i + 1,
{
    assert(s.take(i + 1).drop_last() =~= s.take(i));
}

proof fn lemma_carried_keys_finite<const POLY: u16>(s: Seq<Option<ShareWithX<POLY>>>)
    ensures
        carried_keys(s).finite(),
        carried_keys(s).len() <= carried_points(s).len(),
    decreases s.len(),
{
    if s.len() > 0 {
        lemma_carried_keys_finite(s.drop_last());
        match s.last() {
            Some(sh) => {
                vstd::set::axiom_set_insert_finite(carried_keys(s.drop_last()), with_x_bytes(sh@.0, sh@.1));
                vstd::set::axiom_set_insert_len(carried_keys(s.drop_last()), with_x_bytes(sh@.0, sh@.1));
            },
            None => {},
        }
    }
}

/// With threshold 1 no random bytes are drawn, every dealt share holds the
/// secret itself, and any single share recovers it.
pub proof fn lemma_threshold_one_round_trip(secret: Seq<u8>, x: u8, poly: u16)
    ensures
        evaluations(dealt_polys(secret, Seq::empty(), 1), x, poly) == secret,
        secret_of(seq![(x, secret)], poly) == secret,
{
    let cs = dealt_polys(secret, Seq::empty(), 1);
    lemma_mul_one_and_zero(x, poly);
    assert forall|i: int| 0 <= i < secret.len() implies #[trigger] evaluations(cs, x, poly)[i]
        == secret[i] by {
        let v = secret[i];
        let c = cs[i];
        assert(c =~= seq![v]);
        assert(math::horner(c, x, 0, poly) == 0);
        assert(math::horner(c, x, 1, poly) == gf_mul(0, x, poly) ^ v);
        assert(0u8 ^ v == v) by (bit_vector);
    }
    assert(evaluations(cs, x, poly) =~= secret);
    let ps = seq![(x, secret)];
    let xs = point_xs(ps);
    assert(xs =~= seq![x]);
    assert(math::basis_at_zero(xs, 0, 0, poly) == 1);
    assert(math::basis_at_zero(xs, 0, 1, poly) == 1);
    assert forall|j: int| 0 <= j < secret.len() implies #[trigger] secret_of(ps, poly)[j] == secret[j] by {
        let v = secret[j];
        let ys = math::point_column(ps, j);
        assert(ys =~= seq![v]);
        lemma_mul_one_and_zero(v, poly);
        assert(math::sum_at_zero(xs, ys, 0, poly) == 0);
        assert(math::sum_at_zero(xs, ys, 1, poly) == 0 ^ gf_mul(1, v, poly));
        assert(0u8 ^ v == v) by (bit_vector);
    }
    assert(secret_of(ps, poly) =~= secret);
}

/// Relies on rand::thread_rng and rand::Rng::fill: a buffer of `n` bytes,
/// filled from the thread-local generator.
#[verifier::external_body]
fn random_bytes(n: usize) -> (r: Vec<u8>)
    ensures
        r@.len() == n,
{
    let mut buf = vec![0u8; n];
    rand::Rng::fill(&mut rand::thread_rng(), buf.as_mut_slice());
    buf
}

/// Splits secrets with threshold `k`, the tuple's field, and recovers them.
pub struct SecretSharing<const POLY: u16>(pub u8);

impl<const POLY: u16> SecretSharing<POLY> {
    /// The dealer of `secret` whose random coefficients are taken from `random`,
    /// k − 1 bytes per secret byte: the shares at x = 1, 2, ..., 255.
    pub fn dealer_rng(&self, secret: &[u8], random: &[u8]) -> (r: Evaluator<POLY>)
        requires
            self.0 >= 1,
            random@.len() == secret@.len() * (self.0 - 1),
        ensures
            r.x == 1,
            r.coefficients() == dealt_polys(secret@, random@, self.0 as int),
    {
        let k = self.0;
        let width: usize = (k - 1) as usize;
        let mut polys: Vec<Vec<GF256<POLY>>> = Vec::with_capacity(secret.len());
        let rlen = random.len();
        let mut start: usize = 0;
        let mut i: usize = 0;
        while i < secret.len()
            invariant
                rlen == random@.len(),
                k == self.0,
                k >= 1,
                width == k - 1,
                random@.len() == secret@.len() * width,
                i <= secret@.len(),
                start == i * width,
                polys@.len() == i,
                forall|t: int| 0 <= t < i ==> elems_bytes((#[trigger] polys@[t])@) == dealt_polys(secret@, random@, k as int)[t],
            decreases secret@.len() - i,
        {
            proof {
                assert((i + 1) * width <= secret@.len() * width) by (nonlinear_arith)
                    requires
                        i + 1 <= secret@.len(),
                ;
                assert((i + 1) * width == i * width + width) by (nonlinear_arith);
            }
            let mut chunk: Vec<u8> = Vec::with_capacity(width);
            let mut j: usize = 0;
            while j < width
                invariant
                    rlen == random@.len(),
                    start + width <= random@.len(),
                    j <= width,
                    chunk@ == random@.subrange(start as int, start + j),
                decreases width - j,
            {
                chunk.push(random[start + j]);
                proof {
                    assert(chunk@ =~= random@.subrange(start as int, start + j + 1));
                }
                j = j + 1;
            }
            let p = random_polynomial(GF256::<POLY>(secret[i]), k, chunk.as_slice());
            polys.push(p);
            start = start + width;
            i = i + 1;
        }
        let r = get_evaluator(polys);
        proof {
            assert(r.coefficients() =~= dealt_polys(secret@, random@, k as int));
        }
        r
    }

    /// The dealer of `secret`, its random coefficients drawn from the thread-local
    /// generator: each secret byte gets a polynomial of k coefficients whose last,
    /// the constant term, is that byte.
    pub fn dealer(&self, secret: &[u8]) -> (r: Evaluator<POLY>)
        requires
            self.0 >= 1,
        ensures
            r.x == 1,
            r.coefficients().len() == secret@.len(),
            forall|i: int|
                0 <= i < secret@.len() ==> (#[trigger] r.coefficients()[i]).len() == self.0
                    && r.coefficients()[i].last() == secret@[i],
    {
        let k = self.0;
        let mut polys: Vec<Vec<GF256<POLY>>> = Vec::with_capacity(secret.len());
        let mut i: usize = 0;
        while i < secret.len()
            invariant
                k == self.0,
                k >= 1,
                i <= secret@.len(),
                polys@.len() == i,
                forall|t: int|
                    0 <= t < i ==> elems_bytes((#[trigger] polys@[t])@).len() == k && elems_bytes(
                        polys@[t]@,
                    ).last() == secret@[t],
            decreases secret@.len() - i,
        {
            let random = random_bytes((k - 1) as usize);
            let p = random_polynomial(GF256::<POLY>(secret[i]), k, random.as_slice());
            polys.push(p);
            i = i + 1;
        }
        get_evaluator(polys)
    }

    /// The secret that the present shares encode. A share's x is its 1-based
    /// position in `shares`, absent slots counted, so `shares` holds at most
    /// 255 slots. Fails with
    /// `UnequalShareLength` when present shares differ in length, else with
    /// `InsufficientShares` when they hold fewer distinct byte forms than the
    /// threshold (or none).
    pub fn recover(&self, shares: &[Option<ShareNoX<POLY>>]) -> (r: Result<Vec<u8>, Error>)
        requires
            shares@.len() <= 255,
        ensures
            r == Err::<Vec<u8>, Error>(Error::UnequalShareLength) <==> !lengths_agree(shares@),
            r == Err::<Vec<u8>, Error>(Error::InsufficientShares) <==> lengths_agree(shares@)
                && too_few(shares@, self.0),
            r is Ok <==> lengths_agree(shares@) && !too_few(shares@, self.0),
            r matches Ok(secret) ==> secret@ == secret_of(present_points(shares@), POLY),
    {
        let ghost s = shares@;
        let mut share_length: Option<usize> = None;
        let ghost mut first: int = 0;
        let mut keys = KeySet::new();
        let mut values: Vec<ShareWithX<POLY>> = Vec::new();
        let mut i: usize = 0;
        while i < shares.len()
            invariant
                s == shares@,
                i <= s.len(),
                with_x_points(values@) == present_points(s.take(i as int)),
                key_set_contents(keys) == present_keys(s.take(i as int)),
                share_length is None ==> forall|t: int| 0 <= t < i ==> (#[trigger] s[t]) is None,
                share_length matches Some(l) ==> 0 <= first < i && s[first] is Some
                    && s[first]->0.y@.len() == l,
                share_length matches Some(l) ==> forall|t: int|
                    0 <= t < i && (#[trigger] s[t]) is Some ==> s[t]->0.y@.len() == l,
                share_length matches Some(l) ==> forall|t: int|
                    0 <= t < values@.len() ==> (#[trigger] values@[t]).y@.len() == l,
                share_length is None ==> values@.len() == 0,
            decreases s.len() - i,
        {
            proof {
                lemma_present_step(s, i as int);
            }
            match &shares[i] {
                None => {},
                Some(share) => {
                    let len = share.y.len();
                    match share_length {
                        None => {
                            share_length = Some(len);
                            proof {
                                first = i as int;
                            }
                        },
                        Some(l) => {
                            if l != len {
                                proof {
                                    assert(s[first] is Some && s[i as int] is Some);
                                }
                                return Err(Error::UnequalShareLength);
                            }
                        },
                    }
                    keys.insert(share.to_bytes());
                    let v = ShareWithX { x: GF256(((i + 1) % 256) as u8), y: copy_elems(&share.y) };
                    values.push(v);
                    proof {
                        assert(with_x_points(values@) =~= present_points(s.take(i + 1)));
                    }
                },
            }
            i = i + 1;
        }
        proof {
            assert(s.take(s.len() as int) =~= s);
            lemma_present_keys_finite(s);
            assert(lengths_agree(s));
        }
        let count = keys.len();
        if count == 0 || count < self.0 as usize {
            Err(Error::InsufficientShares)
        } else {
            proof {
                assert(same_widths(with_x_points(values@)));
            }
            Ok(interpolate(values.as_slice()))
        }
    }

    /// The secret that the present shares, which carry their x, encode.
    /// Fails with `UnequalShareLength` when present shares differ in length,
    /// else with `InsufficientShares` when they hold fewer distinct byte forms
    /// than the threshold (or none).
    pub fn recover_with_x(&self, shares: &[Option<ShareWithX<POLY>>]) -> (r: Result<Vec<u8>, Error>)
        ensures
            r == Err::<Vec<u8>, Error>(Error::UnequalShareLength) <==> !carried_lengths_agree(shares@),
            r == Err::<Vec<u8>, Error>(Error::InsufficientShares) <==> carried_lengths_agree(shares@)
                && too_few_carried(shares@, self.0),
            r is Ok <==> carried_lengths_agree(shares@) && !too_few_carried(shares@, self.0),
            r matches Ok(secret) ==> secret@ == secret_of(carried_points(shares@), POLY),
    {
        let ghost s = shares@;
        let mut share_length: Option<usize> = None;
        let ghost mut first: int = 0;
        let mut keys = KeySet::new();
        let mut values: Vec<ShareWithX<POLY>> = Vec::new();
        let mut i: usize = 0;
        while i < shares.len()
            invariant
                s == shares@,
                i <= s.len(),
                with_x_points(values@) == carried_points(s.take(i as int)),
                key_set_contents(keys) == carried_keys(s.take(i as int)),
                share_length is None ==> forall|t: int| 0 <= t < i ==> (#[trigger] s[t]) is None,
                share_length matches Some(l) ==> 0 <= first < i && s[first] is Some
                    && s[first]->0.y@.len() == l,
                share_length matches Some(l) ==> forall|t: int|
                    0 <= t < i && (#[trigger] s[t]) is Some ==> s[t]->0.y@.len() == l,
                share_length matches Some(l) ==> forall|t: int|
                    0 <= t < values@.len() ==> (#[trigger] values@[t]).y@.len() == l,
                share_length is None ==> values@.len() == 0,
            decreases s.len() - i,
        {
            proof {
                lemma_carried_step(s, i as int);
            }
            match &shares[i] {
                None => {},
                Some(share) => {
                    let len = share.y.len();
                    match share_length {
                        None => {
                            share_length = Some(len);
                            proof {
                                first = i as int;
                            }
                        },
                        Some(l) => {
                            if l != len {
                                proof {
                                    assert(s[first] is Some && s[i as int] is Some);
                                }
                                return Err(Error::UnequalShareLength);
                            }
                        },
                    }
                    keys.insert(share.to_bytes());
                    values.push(share.duplicate());
                    proof {
                        assert(with_x_points(values@) =~= carried_points(s.take(i + 1)));
                    }
                },
            }
            i = i + 1;
        }
        proof {
            assert(s.take(s.len() as int) =~= s);
            lemma_carried_keys_finite(s);
            assert(carried_lengths_agree(s));
        }
        let count = keys.len();
        if count == 0 || count < self.0 as usize {
            Err(Error::InsufficientShares)
        } else {
            proof {
                assert(same_widths(with_x_points(values@)));
            }
            Ok(interpolate(values.as_slice()))
        }
    }

    /// The shares at positions 1..=n on the polynomials through the present
    /// shares; `shares` must have length `n`, a share's x being its 1-based
    /// position, absent slots counted. Fails with `UnequalShareLength` when
    /// present shares differ in length, else with `WrongLength` when `shares`
    /// does not have length `n`, else with `InsufficientShares` when the present
    /// shares hold fewer distinct byte forms than the threshold (or none). With
    /// threshold 1 the distinct present shares, the first of each byte form, are
    /// repeated in turn up to length `n`.
    pub fn recover_shares(&self, shares: &[Option<&ShareNoX<POLY>>], n: usize) -> (r: Result<
        Vec<ShareNoX<POLY>>,
        Error,
    >)
        requires
            self.0 >= 1,
            n <= 255,
        ensures
            r == Err::<Vec<ShareNoX<POLY>>, Error>(Error::UnequalShareLength) <==> !lengths_agree(
                deref_shares(shares@),
            ),
            r == Err::<Vec<ShareNoX<POLY>>, Error>(Error::WrongLength) <==> lengths_agree(
                deref_shares(shares@),
            ) && shares@.len() != n,
            r == Err::<Vec<ShareNoX<POLY>>, Error>(Error::InsufficientShares) <==> lengths_agree(
                deref_shares(shares@),
            ) && shares@.len() == n && too_few(deref_shares(shares@), self.0),
            r is Ok <==> lengths_agree(deref_shares(shares@)) && shares@.len() == n && !too_few(
                deref_shares(shares@),
                self.0,
            ),
            r matches Ok(v) ==> v@.len() == n,
            r matches Ok(v) ==> self.0 == 1 ==> forall|t: int|
                0 <= t < n ==> (#[trigger] v@[t])@ == distinct_present(deref_shares(shares@))[t
                    % (distinct_present(deref_shares(shares@)).len() as int)].1,
            r matches Ok(v) ==> self.0 >= 2 ==> forall|t: int|
                0 <= t < n ==> (#[trigger] v@[t])@ == reshared_at(
                    present_points(deref_shares(shares@)),
                    (t + 1) as u8,
                    POLY,
                ),
    {
        let ghost s = deref_shares(shares@);
        let mut share_length: Option<usize> = None;
        let ghost mut first: int = 0;
        let mut keys = KeySet::new();
        let mut values: Vec<(GF256<POLY>, ShareNoX<POLY>)> = Vec::new();
        let mut distinct: Vec<(GF256<POLY>, ShareNoX<POLY>)> = Vec::new();
        let mut i: usize = 0;
        while i < shares.len()
            invariant
                s == deref_shares(shares@),
                i <= s.len(),
                values@.len() <= i,
                paired_points(distinct@) == distinct_present(s.take(i as int)),
                paired_points(values@) == present_points(s.take(i as int)),
                key_set_contents(keys) == present_keys(s.take(i as int)),
                share_length is None ==> forall|t: int| 0 <= t < i ==> (#[trigger] s[t]) is None,
                share_length matches Some(l) ==> 0 <= first < i && s[first] is Some
                    && s[first]->0.y@.len() == l,
                share_length matches Some(l) ==> forall|t: int|
                    0 <= t < i && (#[trigger] s[t]) is Some ==> s[t]->0.y@.len() == l,
                share_length matches Some(l) ==> forall|t: int|
                    0 <= t < values@.len() ==> (#[trigger] values@[t]).1.y@.len() == l,
                share_length is None ==> values@.len() == 0,
                s.len() <= 255 ==> forall|t: int| 0 <= t < values@.len() ==> (#[trigger] values@[t]).0.0 <= i,
                s.len() <= 255 ==> forall|a: int, b: int|
                    0 <= a < b < values@.len() ==> (#[trigger] values@[a]).0.0 < (#[trigger] values@[b]).0.0,
            decreases s.len() - i,
        {
            proof {
                lemma_present_step(s, i as int);
            }
            match shares[i] {
                None => {},
                Some(share) => {
                    assert(s[i as int] == Some(*share));
                    let len = share.y.len();
                    match share_length {
                        None => {
                            share_length = Some(len);
                            proof {
                                first = i as int;
                            }
                        },
                        Some(l) => {
                            if l != len {
                                proof {
                                    assert(s[first] is Some && s[i as int] is Some);
                                }
                                return Err(Error::UnequalShareLength);
                            }
                        },
                    }
                    let fresh = keys.insert(share.to_bytes());
                    let x = GF256::<POLY>(((i + 1) % 256) as u8);
                    values.push((x, share.duplicate()));
                    if fresh {
                        distinct.push((x, share.duplicate()));
                    }
                    proof {
                        assert(paired_points(values@) =~= present_points(s.take(i + 1)));
                        assert(paired_points(distinct@) =~= distinct_present(s.take(i + 1)));
                    }
                },
            }
            i = i + 1;
        }
        proof {
            assert(s.take(s.len() as int) =~= s);
            lemma_present_keys_finite(s);
            lemma_distinct_present_len(s);
            assert(lengths_agree(s));
        }
        if i != n {
            return Err(Error::WrongLength);
        }
        let count = keys.len();
        if count == 0 || count < self.0 as usize {
            return Err(Error::InsufficientShares);
        }
        let ghost ps = present_points(s);
        let mut out: Vec<ShareNoX<POLY>> = Vec::with_capacity(n);
        if self.0 == 1 {
            let ghost ds = distinct_present(s);
            let m = distinct.len();
            let mut t: usize = 0;
            while t < n
                invariant
                    m == distinct@.len(),
                    m >= 1,
                    paired_points(distinct@) == ds,
                    t <= n,
                    out@.len() == t,
                    forall|u: int| 0 <= u < t ==> (#[trigger] out@[u])@ == ds[u % (m as int)].1,
                decreases n - t,
            {
                let c = distinct[t % m].1.duplicate();
                out.push(c);
                t = t + 1;
            }
        } else {
            proof {
                assert(same_widths(paired_points(values@)));
                assert(distinct_xs(point_xs(paired_points(values@)))) by {
                    assert forall|a: int, b: int|
                        0 <= a < values@.len() && 0 <= b < values@.len() && a != b implies #[trigger] point_xs(
                            paired_points(values@),
                        )[a] != #[trigger] point_xs(paired_points(values@))[b] by {
                        if a < b {
                            assert(values@[a].0.0 < values@[b].0.0);
                        } else {
                            assert(values@[b].0.0 < values@[a].0.0);
                        }
                    }
                }
            }
            let mut t: usize = 1;
            while t <= n
                invariant
                    2 <= values@.len() <= 255,
                    paired_points(values@) == ps,
                    same_widths(ps),
                    distinct_xs(point_xs(ps)),
                    n <= 255,
                    1 <= t <= n + 1,
                    out@.len() == t - 1,
                    forall|u: int| 0 <= u < t - 1 ==> (#[trigger] out@[u])@ == reshared_at(ps, (u + 1) as u8, POLY),
                decreases n + 1 - t,
            {
                let c = reshare(values.as_slice(), t);
                out.push(c);
                t = t + 1;
            }
        }
        Ok(out)
    }

    /// The shares at x = 1..=n, each carrying its x, on the polynomials through
    /// the distinct present shares, which carry their x; `shares` must have
    /// length `n`. Fails with `UnequalShareLength` when present shares differ in
    /// length, else with `WrongLength` when `shares` does not have length `n`,
    /// else with `InsufficientShares` when the present shares hold fewer
    /// distinct byte forms than the threshold (or none). With threshold 1 the
    /// distinct present shares, the first of each byte form, are repeated in
    /// turn up to length `n`, each keeping its own x.
    pub fn recover_shares_with_x(&self, shares: &[Option<&ShareWithX<POLY>>], n: usize) -> (r:
        Result<Vec<ShareWithX<POLY>>, Error>)
        requires
            self.0 >= 1,
            n <= 255,
            x_determines_share(deref_carried(shares@)),
        ensures
            r == Err::<Vec<ShareWithX<POLY>>, Error>(Error::UnequalShareLength)
                <==> !carried_lengths_agree(deref_carried(shares@)),
            r == Err::<Vec<ShareWithX<POLY>>, Error>(Error::WrongLength) <==> carried_lengths_agree(
                deref_carried(shares@),
            ) && shares@.len() != n,
            r == Err::<Vec<ShareWithX<POLY>>, Error>(Error::InsufficientShares)
                <==> carried_lengths_agree(deref_carried(shares@)) && shares@.len() == n
                && too_few_carried(deref_carried(shares@), self.0),
            r is Ok <==> carried_lengths_agree(deref_carried(shares@)) && shares@.len() == n
                && !too_few_carried(deref_carried(shares@), self.0),
            r matches Ok(v) ==> v@.len() == n,
            r matches Ok(v) ==> self.0 == 1 ==> forall|t: int|
                0 <= t < n ==> (#[trigger] v@[t])@ == distinct_carried(deref_carried(shares@))[t
                    % (distinct_carried(deref_carried(shares@)).len() as int)],
            r matches Ok(v) ==> self.0 >= 2 ==> forall|t: int|
                0 <= t < n ==> (#[trigger] v@[t])@ == (
                    (t + 1) as u8,
                    reshared_at(distinct_carried(deref_carried(shares@)), (t + 1) as u8, POLY),
                ),
    {
        let ghost s = deref_carried(shares@);
        let mut share_length: Option<usize> = None;
        let ghost mut first: int = 0;
        let ghost mut idx: Seq<int> = Seq::empty();
        let mut keys = KeySet::new();
        let mut distinct: Vec<ShareWithX<POLY>> = Vec::new();
        let mut i: usize = 0;
        while i < shares.len()
            invariant
                s == deref_carried(shares@),
                x_determines_share(s),
                i <= s.len(),
                distinct@.len() <= i,
                with_x_points(distinct@) == distinct_carried(s.take(i as int)),
                key_set_contents(keys) == carried_keys(s.take(i as int)),
                key_set_contents(keys).finite(),
                distinct@.len() == key_set_contents(keys).len(),
                idx.len() == distinct@.len(),
                forall|t: int|
                    0 <= t < distinct@.len() ==> 0 <= #[trigger] idx[t] < i && s[idx[t]] is Some
                        && s[idx[t]]->0@ == distinct@[t]@,
                forall|t: int|
                    0 <= t < distinct@.len() ==> key_set_contents(keys).contains(
                        with_x_bytes((#[trigger] distinct@[t])@.0, distinct@[t]@.1),
                    ),
                forall|a: int, b: int|
                    0 <= a < b < distinct@.len() ==> with_x_bytes((#[trigger] distinct@[a])@.0, distinct@[a]@.1)
                        != with_x_bytes((#[trigger] distinct@[b])@.0, distinct@[b]@.1),
                share_length is None ==> forall|t: int| 0 <= t < i ==> (#[trigger] s[t]) is None,
                share_length matches Some(l) ==> 0 <= first < i && s[first] is Some
                    && s[first]->0.y@.len() == l,
                share_length matches Some(l) ==> forall|t: int|
                    0 <= t < i && (#[trigger] s[t]) is Some ==> s[t]->0.y@.len() == l,
                share_length matches Some(l) ==> forall|t: int|
                    0 <= t < distinct@.len() ==> (#[trigger] distinct@[t]).y@.len() == l,
                share_length is None ==> distinct@.len() == 0,
            decreases s.len() - i,
        {
            proof {
                lemma_carried_step(s, i as int);
            }
            match shares[i] {
                None => {},
                Some(share) => {
                    assert(s[i as int] == Some(*share));
                    let len = share.y.len();
                    match share_length {
                        None => {
                            share_length = Some(len);
                            proof {
                                first = i as int;
                            }
                        },
                        Some(l) => {
                            if l != len {
                                proof {
                                    assert(s[first] is Some && s[i as int] is Some);
                                }
                                return Err(Error::UnequalShareLength);
                            }
                        },
                    }
                    let ghost old_keys = key_set_contents(keys);
                    let fresh = keys.insert(share.to_bytes());
                    proof {
                        vstd::set::axiom_set_insert_finite(old_keys, with_x_bytes(share@.0, share@.1));
                        vstd::set::axiom_set_insert_len(old_keys, with_x_bytes(share@.0, share@.1));
                    }
                    if fresh {
                        distinct.push(share.duplicate());
                        proof {
                            idx = idx.push(i as int);
                        }
                    }
                    proof {
                        assert(with_x_points(distinct@) =~= distinct_carried(s.take(i + 1)));
                    }
                },
            }
            i = i + 1;
        }
        proof {
            assert(s.take(s.len() as int) =~= s);
            assert(carried_lengths_agree(s));
        }
        if i != n {
            return Err(Error::WrongLength);
        }
        let count = keys.len();
        if count == 0 || count < self.0 as usize {
            return Err(Error::InsufficientShares);
        }
        let ghost ds = distinct_carried(s);
        let mut out: Vec<ShareWithX<POLY>> = Vec::with_capacity(n);
        if self.0 == 1 {
            let m = distinct.len();
            let mut t: usize = 0;
            while t < n
                invariant
                    m == distinct@.len(),
                    m >= 1,
                    with_x_points(distinct@) == ds,
                    t <= n,
                    out@.len() == t,
                    forall|u: int| 0 <= u < t ==> (#[trigger] out@[u])@ == ds[u % (m as int)],
                decreases n - t,
            {
                let c = distinct[t % m].duplicate();
                out.push(c);
                t = t + 1;
            }
        } else {
            proof {
                assert(same_widths(with_x_points(distinct@)));
                assert(distinct_xs(point_xs(with_x_points(distinct@)))) by {
                    assert forall|a: int, b: int|
                        0 <= a < distinct@.len() && 0 <= b < distinct@.len() && a != b implies #[trigger] point_xs(
                            with_x_points(distinct@),
                        )[a] != #[trigger] point_xs(with_x_points(distinct@))[b] by {
                        if distinct@[a].x.0 == distinct@[b].x.0 {
                            assert(s[idx[a]] is Some && s[idx[b]] is Some);
                            assert(distinct@[a]@ == distinct@[b]@);
                            if a < b {
                                assert(with_x_bytes(distinct@[a]@.0, distinct@[a]@.1) != with_x_bytes(
                                    distinct@[b]@.0,
                                    distinct@[b]@.1,
                                ));
                            } else {
                                assert(with_x_bytes(distinct@[b]@.0, distinct@[b]@.1) != with_x_bytes(
                                    distinct@[a]@.0,
                                    distinct@[a]@.1,
                                ));
                            }
                        }
                    }
                }
            }
            let mut t: usize = 1;
            while t <= n
                invariant
                    2 <= distinct@.len() <= 255,
                    with_x_points(distinct@) == ds,
                    same_widths(ds),
                    distinct_xs(point_xs(ds)),
                    n <= 255,
                    1 <= t <= n + 1,
                    out@.len() == t - 1,
                    forall|u: int|
                        0 <= u < t - 1 ==> (#[trigger] out@[u])@ == ((u + 1) as u8, reshared_at(
                            ds,
                            (u + 1) as u8,
                            POLY,
                        )),
                decreases n + 1 - t,
            {
                let c = reshare_with_x(distinct.as_slice(), t);
                out.push(c);
                t = t + 1;
            }
        }
        Ok(out)
    }
}

} // verus!
