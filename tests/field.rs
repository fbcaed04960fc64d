use ssskit::{GF256, PRIMITIVE_POLYS};

const AES: u16 = 0x11b_u16;
const RS: u16 = 0x11d_u16;

#[test]
fn aes_products() {
    assert_eq!(GF256::<AES>(0x57).mul(GF256(0x83)), GF256(0xc1));
    assert_eq!(GF256::<AES>(0x57).mul(GF256(0x13)), GF256(0xfe));
    assert_eq!(GF256::<AES>(0x02).mul(GF256(0x80)), GF256(0x1b));
}

#[test]
fn reed_solomon_products() {
    assert_eq!(GF256::<RS>(0x02).mul(GF256(0x80)), GF256(0x1d));
    assert_eq!(GF256::<RS>(3).mul(GF256(4)), GF256(12));
}

#[test]
fn aes_inverse() {
    assert_eq!(GF256::<AES>(0x53).inv(), GF256(0xca));
    assert_eq!(GF256::<AES>(1).inv(), GF256(1));
}

#[test]
fn addition_laws() {
    for a in 0..=255u8 {
        let a = GF256::<RS>(a);
        assert_eq!(a.add(a), GF256::zero());
        assert_eq!(a.add(GF256::zero()), a);
        assert_eq!(a.sub(a), GF256::zero());
    }
}

#[test]
fn identities() {
    for a in 0..=255u8 {
        let a = GF256::<AES>(a);
        assert_eq!(a.mul(GF256::one()), a);
        assert_eq!(a.mul(GF256::zero()), GF256::zero());
    }
}

#[test]
fn division_undoes_multiplication_for_every_polynomial() {
    for poly in PRIMITIVE_POLYS.iter() {
        assert!(*poly >= 0x100 && *poly < 0x200);
    }
    for a in 0..=255u8 {
        for b in 1..=255u8 {
            assert_eq!(GF256::<RS>(a).mul(GF256(b)).div(GF256(b)), GF256(a));
            assert_eq!(GF256::<AES>(a).mul(GF256(b)).div(GF256(b)), GF256(a));
        }
    }
}

#[test]
fn multiplication_distributes() {
    let samples = [0u8, 1, 2, 3, 0x1d, 0x53, 0x80, 0xca, 0xff];
    for &a in samples.iter() {
        for &b in samples.iter() {
            for &c in samples.iter() {
                let (a, b, c) = (GF256::<RS>(a), GF256(b), GF256(c));
                assert_eq!(a.add(b).mul(c), a.mul(c).add(b.mul(c)));
                assert_eq!(a.mul(b), b.mul(a));
            }
        }
    }
}

#[test]
fn primitive_polys_are_thirty_distinct() {
    assert_eq!(PRIMITIVE_POLYS.len(), 30);
    assert_eq!(PRIMITIVE_POLYS[0], 0x11b);
    assert_eq!(PRIMITIVE_POLYS[1], 0x11d);
    for i in 0..30 {
        for j in 0..i {
            assert_ne!(PRIMITIVE_POLYS[i], PRIMITIVE_POLYS[j]);
        }
    }
}
