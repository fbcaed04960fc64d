//! Shares and their byte form.
use vstd::prelude::*;

use crate::error::Error;
use crate::field::GF256;

verus! {

/// The bytes that a sequence of field elements holds.
pub open spec fn elems_bytes<const POLY: u16>(v: Seq<GF256<POLY>>) -> Seq<u8> {
    v.map_values(|e: GF256<POLY>| e.0)
}

/// A copy of a vector of field elements.
pub fn copy_elems<const POLY: u16>(v: &Vec<GF256<POLY>>) -> (r: Vec<GF256<POLY>>)
    ensures
        r@ == v@,
{
    let mut r: Vec<GF256<POLY>> = Vec::with_capacity(v.len());
    let mut i: usize = 0;
    while i < v.len()
        invariant
            i <= v@.len(),
            r@ == v@.subrange(0, i as int),
        decreases v@.len() - i,
    {
        r.push(GF256(v[i].0));
        proof {
            assert(r@ =~= v@.subrange(0, i + 1));
        }
        i = i + 1;
    }
    proof {
        assert(r@ =~= v@);
    }
    r
}

/// Appends the bytes of `v` to `out`.
fn push_elem_bytes<const POLY: u16>(v: &Vec<GF256<POLY>>, out: &mut Vec<u8>)
    ensures
        final(out)@ == old(out)@ + elems_bytes(v@),
{
    let ghost start = out@;
    let mut i: usize = 0;
    while i < v.len()
        invariant
            i <= v@.len(),
            out@ == start + elems_bytes(v@.subrange(0, i as int)),
        decreases v@.len() - i,
    {
        out.push(v[i].0);
        proof {
            assert(elems_bytes(v@.subrange(0, i + 1)) =~= elems_bytes(v@.subrange(0, i as int)).push(
                v@[i as int].0,
            ));
        }
        i = i + 1;
    }
    proof {
        assert(v@.subrange(0, v@.len() as int) =~= v@);
    }
}

/// The field elements of bytes `start..` of `s`.
fn elems_from<const POLY: u16>(s: &[u8], start: usize) -> (r: Vec<GF256<POLY>>)
    requires
        start <= s@.len(),
    ensures
        elems_bytes(r@) == s@.subrange(start as int, s@.len() as int),
{
    let mut r: Vec<GF256<POLY>> = Vec::with_capacity(s.len() - start);
    let mut i: usize = start;
    while i < s.len()
        invariant
            start <= i <= s@.len(),
            r@.len() == i - start,
            forall|k: int| 0 <= k < r@.len() ==> #[trigger] r@[k].0 == s@[start + k],
        decreases s@.len() - i,
    {
        r.push(GF256(s[i]));
        i = i + 1;
    }
    proof {
        assert(elems_bytes(r@) =~= s@.subrange(start as int, s@.len() as int));
    }
    r
}

/// A share whose x coordinate is implicit: it is the share's 1-based position
/// in the collection that it is handed in.
#[derive(Clone, Debug)]
pub struct ShareNoX<const POLY: u16> {
    /// The y coordinates of the share.
    pub y: Vec<GF256<POLY>>,
}

/// A share that carries its x coordinate.
#[derive(Clone, Debug)]
pub struct ShareWithX<const POLY: u16> {
    /// The x coordinate of the share.
    pub x: GF256<POLY>,
    /// The y coordinates of the share.
    pub y: Vec<GF256<POLY>>,
}

/// The share type that the sharing operations produce and consume.
pub type Share<const POLY: u16> = ShareNoX<POLY>;

impl<const POLY: u16> View for ShareNoX<POLY> {
    type V = Seq<u8>;

    /// The y values, which are also the share's byte form.
    open spec fn view(&self) -> Seq<u8> {
        elems_bytes(self.y@)
    }
}

impl<const POLY: u16> View for ShareWithX<POLY> {
    type V = (u8, Seq<u8>);

    open spec fn view(&self) -> (u8, Seq<u8>) {
        (self.x.0, elems_bytes(self.y@))
    }
}

/// The byte form of a share with an x coordinate: x, then the y values.
pub open spec fn with_x_bytes(x: u8, y: Seq<u8>) -> Seq<u8> {
    seq![x] + y
}

impl<const POLY: u16> ShareNoX<POLY> {
    /// The byte form of the share: its y values.
    pub fn to_bytes(&self) -> (r: Vec<u8>)
        ensures
            r@ == self@,
    {
        let mut bytes: Vec<u8> = Vec::with_capacity(self.y.len());
        push_elem_bytes(&self.y, &mut bytes);
        proof {
            assert(bytes@ =~= self@);
        }
        bytes
    }

    /// Decodes a share from its byte form; fails when it is under two bytes.
    pub fn try_from(s: &[u8]) -> (r: Result<Self, Error>)
        ensures
            s@.len() < 2 <==> r is Err,
            r is Err ==> r == Err::<Self, Error>(Error::TooShort),
            r matches Ok(share) ==> share@ == s@,
    {
        if s.len() < 2 {
            Err(Error::TooShort)
        } else {
            let y = elems_from(s, 0);
            proof {
                assert(s@.subrange(0, s@.len() as int) =~= s@);
            }
            Ok(ShareNoX { y })
        }
    }

    /// A copy of the share.
    pub fn duplicate(&self) -> (r: Self)
        ensures
            r.y@ == self.y@,
    {
        ShareNoX { y: copy_elems(&self.y) }
    }
}

impl<const POLY: u16> ShareWithX<POLY> {
    /// The byte form of the share: x, then the y values.
    pub fn to_bytes(&self) -> (r: Vec<u8>)
        ensures
            r@ == with_x_bytes(self@.0, self@.1),
    {
        let mut bytes: Vec<u8> = Vec::new();
        bytes.push(self.x.0);
        push_elem_bytes(&self.y, &mut bytes);
        proof {
            assert(bytes@ =~= with_x_bytes(self@.0, self@.1));
        }
        bytes
    }

    /// Decodes a share from its byte form, x first; fails when it is under two bytes.
    pub fn try_from(s: &[u8]) -> (r: Result<Self, Error>)
        ensures
            s@.len() < 2 <==> r is Err,
            r is Err ==> r == Err::<Self, Error>(Error::TooShort),
            r matches Ok(share) ==> with_x_bytes(share@.0, share@.1) == s@,
    {
        if s.len() < 2 {
            Err(Error::TooShort)
        } else {
            let x = GF256(s[0]);
            let y = elems_from(s, 1);
            let r = ShareWithX { x, y };
            proof {
                assert(with_x_bytes(r@.0, r@.1) =~= s@);
            }
            Ok(r)
        }
    }

    /// A copy of the share.
    pub fn duplicate(&self) -> (r: Self)
        ensures
            r.x == self.x,
            r.y@ == self.y@,
    {
        ShareWithX { x: GF256(self.x.0), y: copy_elems(&self.y) }
    }
}

} // verus!
