use ssskit::math::{
    get_evaluator, interpolate, interpolate_polynomial, random_polynomial, reshare, reshare_with_x,
};
use ssskit::{SecretSharing, ShareNoX, ShareWithX, GF256};

const POLY: u16 = 0x11d_u16;

#[test]
fn evaluator_works() {
    let iter = get_evaluator::<POLY>(vec![vec![GF256(3), GF256(2), GF256(5)]]);
    let values: Vec<_> = iter.take(2).iter().map(|s| s.y.clone()).collect();
    assert_eq!(values, vec![(vec![GF256(4)]), (vec![GF256(13)])]);
}

#[test]
fn evaluator_stops_after_255() {
    let mut iter = get_evaluator::<POLY>(vec![vec![GF256(1)]]);
    let mut count = 0;
    while let Some(s) = iter.next() {
        assert_eq!(s.y, vec![GF256(1)]);
        count += 1;
    }
    assert_eq!(count, 255);
    assert!(iter.next().is_none());
    let all = get_evaluator::<POLY>(vec![vec![GF256(1)]]).take(1000);
    assert_eq!(all.len(), 255);
}

#[test]
fn random_polynomial_places_bytes_before_constant() {
    let poly = random_polynomial::<POLY>(GF256(1), 3, &[10, 20]);
    assert_eq!(poly, vec![GF256(20), GF256(10), GF256(1)]);
    let constant = random_polynomial::<POLY>(GF256(9), 1, &[]);
    assert_eq!(constant, vec![GF256(9)]);
}

#[test]
fn interpolate_works() {
    let sss = SecretSharing::<POLY>(10);
    let shares = sss.dealer(&[185]).take(10);
    let points: Vec<ShareWithX<POLY>> = shares
        .iter()
        .enumerate()
        .map(|(i, s)| ShareWithX {
            x: GF256(i as u8 + 1),
            y: s.y.clone(),
        })
        .collect();
    assert_eq!(interpolate(&points), vec![185]);
}

#[test]
fn interpolate_line_exact() {
    // y = 3x + 5: y(1) = 6, y(2) = 3; the value at 0 is 5.
    let points = vec![
        ShareWithX::<POLY> { x: GF256(1), y: vec![GF256(6)] },
        ShareWithX::<POLY> { x: GF256(2), y: vec![GF256(3)] },
    ];
    assert_eq!(interpolate(&points), vec![5]);
}

#[test]
fn interpolate_polynomial_exact() {
    let xs = [GF256::<POLY>(1), GF256(2)];
    let ys = [GF256::<POLY>(6), GF256(3)];
    assert_eq!(interpolate_polynomial(&xs, &ys, GF256(0)), GF256(5));
    assert_eq!(interpolate_polynomial(&xs, &ys, GF256(1)), GF256(6));
    // 3·3 + 5 = 5 ⊕ 5 = 0
    assert_eq!(interpolate_polynomial(&xs, &ys, GF256(3)), GF256(0));
}

#[test]
fn reshare_works() {
    for (k, index) in [(10usize, 2usize), (10, 5), (8, 7), (8, 8)] {
        let sss = SecretSharing::<POLY>(k as u8);
        let shares = sss.dealer(&[185]).take(k);
        let pairs: Vec<(GF256<POLY>, ShareNoX<POLY>)> = shares
            .iter()
            .enumerate()
            .map(|(i, s)| (GF256(i as u8 + 1), s.clone()))
            .collect();
        let share = reshare(&pairs, index);
        assert_eq!(share.y, pairs[index - 1].1.y);
    }
}

#[test]
fn reshare_at_new_index_matches_dealt_share() {
    let sss = SecretSharing::<POLY>(3);
    let shares = sss.dealer(&[7, 8]).take(6);
    let pairs: Vec<(GF256<POLY>, ShareNoX<POLY>)> = shares[..3]
        .iter()
        .enumerate()
        .map(|(i, s)| (GF256(i as u8 + 1), s.clone()))
        .collect();
    assert_eq!(reshare(&pairs, 6).y, shares[5].y);
}

#[test]
fn evaluator_with_x_carries_x() {
    let iter = get_evaluator::<POLY>(vec![vec![GF256(3), GF256(2), GF256(5)]]);
    let shares = iter.take_with_x(2);
    assert_eq!(shares[0].x, GF256(1));
    assert_eq!(shares[0].y, vec![GF256(4)]);
    assert_eq!(shares[1].x, GF256(2));
    assert_eq!(shares[1].y, vec![GF256(13)]);
    let one = get_evaluator::<POLY>(vec![vec![GF256(3), GF256(2), GF256(5)]]).share_at_with_x(2);
    assert_eq!(one.x, GF256(2));
    assert_eq!(one.y, vec![GF256(13)]);
}

#[test]
fn reshare_with_x_sets_index() {
    // y = 3x + 5 through (1, 6) and (2, 3); at x = 3 the value is 0.
    let points = vec![
        ShareWithX::<POLY> { x: GF256(1), y: vec![GF256(6)] },
        ShareWithX::<POLY> { x: GF256(2), y: vec![GF256(3)] },
    ];
    let s = reshare_with_x(&points, 3);
    assert_eq!(s.x, GF256(3));
    assert_eq!(s.y, vec![GF256(0)]);
}
