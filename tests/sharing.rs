use ssskit::{Error, SecretSharing, Share, ShareWithX, GF256};

const POLY: u16 = 0x11b_u16;

fn make_shares<const P: u16>(sss: &SecretSharing<P>, secret: &[u8], n: usize) -> Vec<Share<P>> {
    sss.dealer(secret).take(n)
}

#[test]
fn test_insufficient_shares_err() {
    let sss = SecretSharing::<POLY>(255);
    let shares: Vec<Share<POLY>> = make_shares(&sss, &[1], 254);
    let shares: Vec<Option<Share<POLY>>> = shares.iter().map(|s| Some(s.clone())).collect();
    let secret = sss.recover(&shares);
    assert!(secret.is_err());
}

#[test]
fn test_duplicate_shares_err() {
    let sss = SecretSharing::<POLY>(255);
    let mut shares: Vec<Share<POLY>> = make_shares(&sss, &[1], 255);
    shares[1] = Share {
        y: shares[0].y.clone(),
    };
    let shares: Vec<Option<Share<POLY>>> = shares.iter().map(|s| Some(s.clone())).collect();
    let secret = sss.recover(&shares);
    assert!(secret.is_err());
}

#[test]
fn test_integration_works() {
    let sss = SecretSharing::<POLY>(255);
    let shares: Vec<Share<POLY>> = make_shares(&sss, &[1, 2, 3, 4], 255);
    let shares: Vec<Option<Share<POLY>>> = shares.iter().map(|s| Some(s.clone())).collect();
    let secret = sss.recover(&shares).unwrap();
    assert_eq!(secret, vec![1, 2, 3, 4]);
}

#[test]
fn test_reshare_works() {
    let sss = SecretSharing::<POLY>(3);
    let shares: Vec<Share<POLY>> = make_shares(&sss, &[1, 2, 3, 4], 4);

    let recovered_shares = sss
        .recover_shares(
            &[Some(&shares[0]), None, Some(&shares[2]), Some(&shares[3])],
            4,
        )
        .unwrap();
    assert_eq!(recovered_shares.len(), 4);
    for (recovered_share, share) in recovered_shares.iter().zip(shares.iter()) {
        assert_eq!(recovered_share.y, share.y);
    }

    let recovered_shares = sss
        .recover_shares(
            &[None, Some(&shares[1]), Some(&shares[2]), Some(&shares[3])],
            4,
        )
        .unwrap();
    assert_eq!(recovered_shares.len(), 4);
    for (recovered_share, share) in recovered_shares.iter().zip(shares.iter()) {
        assert_eq!(recovered_share.y, share.y);
    }

    let recovered_shares = sss
        .recover_shares(
            &[Some(&shares[0]), Some(&shares[1]), Some(&shares[2]), None],
            4,
        )
        .unwrap();
    assert_eq!(recovered_shares.len(), 4);
    for (recovered_share, share) in recovered_shares.iter().zip(shares.iter()) {
        assert_eq!(recovered_share.y, share.y);
    }

    let recovered_shares =
        sss.recover_shares(&[Some(&shares[0]), None, None, Some(&shares[3])], 4);
    assert!(recovered_shares.is_err());
}

#[test]
fn test_k_of_n() {
    let sharks = SecretSharing::<POLY>(2);
    let shares: Vec<Share<POLY>> = make_shares(&sharks, &[18, 52, 86, 120], 4);

    let recovered_shares = sharks
        .recover_shares(
            &[Some(&shares[0]), Some(&shares[1]), Some(&shares[2]), None],
            4,
        )
        .unwrap();
    assert_eq!(recovered_shares.len(), 4);
    for (recovered_share, share) in recovered_shares.iter().zip(shares.iter()) {
        assert_eq!(recovered_share.y, share.y);
    }
}

#[test]
fn test_recover_order_independent_with_x() {
    let sss = SecretSharing::<POLY>(3);
    let shares: Vec<ShareWithX<POLY>> = sss.dealer(&[7, 8, 9]).take_with_x(5);

    let shuffled: Vec<ShareWithX<POLY>> =
        vec![shares[2].clone(), shares[4].clone(), shares[0].clone()];

    let shares_opt: Vec<Option<ShareWithX<POLY>>> = shuffled.into_iter().map(Some).collect();
    let secret = sss.recover_with_x(&shares_opt).unwrap();
    assert_eq!(secret, vec![7, 8, 9]);
}

#[test]
fn test_threshold_one_recover_shares() {
    let sss = SecretSharing::<POLY>(1);
    let shares: Vec<Share<POLY>> = make_shares(&sss, &[42, 43], 1);
    let recovered = sss
        .recover_shares(&[Some(&shares[0]), None, None], 3)
        .unwrap();
    assert_eq!(recovered.len(), 3);
    for r in &recovered {
        assert_eq!(r.y, shares[0].y);
    }
}

#[test]
fn three_of_four_recovers_secret() {
    let sss = SecretSharing::<0x11d>(3);
    let shares: Vec<Share<0x11d>> = make_shares(&sss, &[1, 2, 3, 4], 3);
    let shares: Vec<Option<Share<0x11d>>> = shares.into_iter().map(Some).collect();
    assert_eq!(sss.recover(&shares).unwrap(), vec![1, 2, 3, 4]);
}

#[test]
fn threshold_255_needs_255_shares() {
    let sss = SecretSharing::<POLY>(255);
    let shares: Vec<Share<POLY>> = make_shares(&sss, &[1], 255);
    // Shares that carry their x stay distinct, so all 255 recover the secret.
    let with_x: Vec<Option<ShareWithX<POLY>>> = shares
        .iter()
        .enumerate()
        .map(|(i, s)| Some(ShareWithX { x: GF256(i as u8 + 1), y: s.y.clone() }))
        .collect();
    assert_eq!(sss.recover_with_x(&with_x).unwrap(), vec![1]);
    assert_eq!(
        sss.recover_with_x(&with_x[..254]).unwrap_err(),
        Error::InsufficientShares
    );
    let all: Vec<Option<Share<POLY>>> = shares.iter().map(|s| Some(s.clone())).collect();
    let fewer: Vec<Option<Share<POLY>>> = all[..254].to_vec();
    assert_eq!(sss.recover(&fewer).unwrap_err(), Error::InsufficientShares);
}

#[test]
fn reshare_fourth_share_from_three() {
    let sss = SecretSharing::<0x11d>(2);
    let shares: Vec<Share<0x11d>> = make_shares(&sss, &[0x12, 0x34, 0x56, 0x78], 4);
    let recovered = sss
        .recover_shares(&[Some(&shares[0]), Some(&shares[1]), Some(&shares[2]), None], 4)
        .unwrap();
    assert_eq!(recovered[3].y, shares[3].y);
}

#[test]
fn any_k_subset_recovers_secret() {
    let sss = SecretSharing::<POLY>(3);
    let shares: Vec<Share<POLY>> = make_shares(&sss, &[9, 8, 7, 6, 5], 6);
    let picks = [[0usize, 1, 2], [1, 3, 5], [0, 4, 5], [2, 3, 4]];
    for pick in picks.iter() {
        let mut slots: Vec<Option<Share<POLY>>> = vec![None; 6];
        for &i in pick.iter() {
            slots[i] = Some(shares[i].clone());
        }
        assert_eq!(sss.recover(&slots).unwrap(), vec![9, 8, 7, 6, 5]);
    }
}

#[test]
fn reshared_shares_recover_secret() {
    let sss = SecretSharing::<POLY>(3);
    let shares: Vec<Share<POLY>> = make_shares(&sss, &[11, 22, 33], 3);
    let reshared = sss
        .recover_shares(
            &[Some(&shares[0]), Some(&shares[1]), Some(&shares[2]), None, None, None],
            6,
        )
        .unwrap();
    let mut slots: Vec<Option<Share<POLY>>> = vec![None; 6];
    for &i in [1usize, 3, 5].iter() {
        slots[i] = Some(reshared[i].clone());
    }
    assert_eq!(sss.recover(&slots).unwrap(), vec![11, 22, 33]);
}

#[test]
fn mismatched_lengths_are_rejected() {
    let sss = SecretSharing::<POLY>(2);
    let a = Share::<POLY> { y: vec![GF256(1), GF256(2)] };
    let b = Share::<POLY> { y: vec![GF256(3)] };
    let shares = vec![Some(a.clone()), None, Some(b.clone())];
    assert_eq!(sss.recover(&shares).unwrap_err(), Error::UnequalShareLength);
    assert_eq!(
        sss.recover_shares(&[Some(&a), Some(&b)], 2).unwrap_err(),
        Error::UnequalShareLength
    );
}

#[test]
fn wrong_length_is_rejected() {
    let sss = SecretSharing::<POLY>(2);
    let shares: Vec<Share<POLY>> = make_shares(&sss, &[5, 6], 2);
    assert_eq!(
        sss.recover_shares(&[Some(&shares[0]), Some(&shares[1])], 3).unwrap_err(),
        Error::WrongLength
    );
}

#[test]
fn empty_collection_is_insufficient() {
    let sss = SecretSharing::<POLY>(1);
    let none: Vec<Option<Share<POLY>>> = vec![None, None];
    assert_eq!(sss.recover(&none).unwrap_err(), Error::InsufficientShares);
    assert_eq!(sss.recover(&[]).unwrap_err(), Error::InsufficientShares);
}

#[test]
fn duplicates_count_once_in_recover_shares() {
    let sss = SecretSharing::<POLY>(2);
    let shares: Vec<Share<POLY>> = make_shares(&sss, &[5, 6], 2);
    let copy = shares[0].clone();
    assert_eq!(
        sss.recover_shares(&[Some(&shares[0]), Some(&copy), None], 3).unwrap_err(),
        Error::InsufficientShares
    );
}

#[test]
fn dealer_rng_uses_given_bytes() {
    // k = 2: secret byte 5 with random byte 3 gives 3x + 5.
    let sss = SecretSharing::<0x11d>(2);
    let shares = sss.dealer_rng(&[5, 9], &[3, 1]).take(2);
    assert_eq!(shares[0].y, vec![GF256(6), GF256(8)]);
    assert_eq!(shares[1].y, vec![GF256(3), GF256(11)]);
    let dealer = sss.dealer_rng(&[5, 9], &[3, 1]);
    assert_eq!(dealer.polys, vec![vec![GF256(3), GF256(5)], vec![GF256(1), GF256(9)]]);
}

#[test]
fn dealer_polynomials_end_with_secret() {
    let sss = SecretSharing::<POLY>(4);
    let dealer = sss.dealer(&[1, 2, 3]);
    assert_eq!(dealer.x, 1);
    assert_eq!(dealer.polys.len(), 3);
    for (i, p) in dealer.polys.iter().enumerate() {
        assert_eq!(p.len(), 4);
        assert_eq!(p[3], GF256(i as u8 + 1));
    }
}

#[test]
fn threshold_one_shares_are_the_secret() {
    let sss = SecretSharing::<POLY>(1);
    let shares = make_shares(&sss, &[42, 43], 3);
    for s in shares.iter() {
        assert_eq!(s.y, vec![GF256(42), GF256(43)]);
    }
}

#[test]
fn recover_with_x_checks_lengths_and_duplicates() {
    let sss = SecretSharing::<POLY>(2);
    let a = ShareWithX::<POLY> { x: GF256(1), y: vec![GF256(1), GF256(2)] };
    let b = ShareWithX::<POLY> { x: GF256(2), y: vec![GF256(3)] };
    assert_eq!(
        sss.recover_with_x(&[Some(a.clone()), Some(b)]).unwrap_err(),
        Error::UnequalShareLength
    );
    assert_eq!(
        sss.recover_with_x(&[Some(a.clone()), None, Some(a.clone())]).unwrap_err(),
        Error::InsufficientShares
    );
    // Same y, different x: two distinct shares.
    let c = ShareWithX::<POLY> { x: GF256(3), y: vec![GF256(1), GF256(2)] };
    assert!(sss.recover_with_x(&[Some(a), Some(c)]).is_ok());
}

#[test]
fn threshold_one_cycles_distinct_shares() {
    let sss = SecretSharing::<POLY>(1);
    let a = Share::<POLY> { y: vec![GF256(1), GF256(2)] };
    let b = Share::<POLY> { y: vec![GF256(3), GF256(4)] };
    let out = sss.recover_shares(&[Some(&a), Some(&a), Some(&b)], 3).unwrap();
    assert_eq!(out.len(), 3);
    assert_eq!(out[0].y, a.y);
    assert_eq!(out[1].y, b.y);
    assert_eq!(out[2].y, a.y);
}

#[test]
fn recover_shares_with_x_reshares_at_targets() {
    let sss = SecretSharing::<POLY>(3);
    let shares: Vec<ShareWithX<POLY>> = sss.dealer(&[1, 2, 3, 4]).take_with_x(5);
    let out = sss
        .recover_shares_with_x(
            &[Some(&shares[4]), None, Some(&shares[1]), Some(&shares[3]), Some(&shares[1])],
            5,
        )
        .unwrap();
    assert_eq!(out.len(), 5);
    for (t, share) in out.iter().enumerate() {
        assert_eq!(share.x, GF256(t as u8 + 1));
        assert_eq!(share.y, shares[t].y);
    }
}

#[test]
fn recover_shares_with_x_threshold_one_keeps_x() {
    let sss = SecretSharing::<POLY>(1);
    let a = ShareWithX::<POLY> { x: GF256(7), y: vec![GF256(42), GF256(43)] };
    let b = ShareWithX::<POLY> { x: GF256(9), y: vec![GF256(42), GF256(43)] };
    let out = sss.recover_shares_with_x(&[Some(&a), Some(&a), None, Some(&b)], 4).unwrap();
    let xs: Vec<GF256<POLY>> = out.iter().map(|s| s.x).collect();
    assert_eq!(xs, vec![GF256(7), GF256(9), GF256(7), GF256(9)]);
    for s in out.iter() {
        assert_eq!(s.y, vec![GF256(42), GF256(43)]);
    }
}

#[test]
fn recover_shares_with_x_errors() {
    let sss = SecretSharing::<POLY>(2);
    let a = ShareWithX::<POLY> { x: GF256(1), y: vec![GF256(1), GF256(2)] };
    let b = ShareWithX::<POLY> { x: GF256(2), y: vec![GF256(3)] };
    assert_eq!(
        sss.recover_shares_with_x(&[Some(&a), Some(&b)], 2).unwrap_err(),
        Error::UnequalShareLength
    );
    assert_eq!(
        sss.recover_shares_with_x(&[Some(&a), None], 3).unwrap_err(),
        Error::WrongLength
    );
    assert_eq!(
        sss.recover_shares_with_x(&[Some(&a), Some(&a), None], 3).unwrap_err(),
        Error::InsufficientShares
    );
}
