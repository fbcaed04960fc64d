use ssskit::{Error, ShareNoX, ShareWithX, GF256};

const POLY: u16 = 0x11d_u16;

#[test]
fn vec_from_share_works() {
    let share = ShareNoX::<POLY> {
        y: vec![GF256(2), GF256(3)],
    };
    let bytes = share.to_bytes();
    assert_eq!(bytes, vec![2, 3]);
}

#[test]
fn share_vec_from_share_works() {
    let share = ShareWithX::<POLY> {
        x: GF256(1),
        y: vec![GF256(2), GF256(3)],
    };
    let bytes = share.to_bytes();
    assert_eq!(bytes, vec![1, 2, 3]);
}

#[test]
fn share_from_u8_slice_works() {
    let bytes = [1, 2, 3];
    let share = ShareNoX::<POLY>::try_from(&bytes[..]).unwrap();
    assert_eq!(share.y, vec![GF256(1), GF256(2), GF256(3)]);
}

#[test]
fn share_share_from_u8_slice_works() {
    let bytes = [1, 2, 3];
    let share = ShareWithX::<POLY>::try_from(&bytes[..]).unwrap();
    assert_eq!(share.x, GF256(1));
    assert_eq!(share.y, vec![GF256(2), GF256(3)]);
}

#[test]
fn decoding_short_input_is_too_short() {
    assert_eq!(ShareNoX::<POLY>::try_from(&[][..]).unwrap_err(), Error::TooShort);
    assert_eq!(ShareNoX::<POLY>::try_from(&[7][..]).unwrap_err(), Error::TooShort);
    assert_eq!(ShareWithX::<POLY>::try_from(&[][..]).unwrap_err(), Error::TooShort);
    assert_eq!(ShareWithX::<POLY>::try_from(&[7][..]).unwrap_err(), Error::TooShort);
    assert!(ShareWithX::<POLY>::try_from(&[7, 8][..]).is_ok());
}

#[test]
fn with_x_round_trip() {
    let share = ShareWithX::<POLY> {
        x: GF256(1),
        y: vec![GF256(2), GF256(3)],
    };
    let bytes = share.to_bytes();
    assert_eq!(bytes, vec![1, 2, 3]);
    let back = ShareWithX::<POLY>::try_from(&bytes[..]).unwrap();
    assert_eq!(back.x, share.x);
    assert_eq!(back.y, share.y);
}

#[test]
fn duplicate_copies_share() {
    let share = ShareWithX::<POLY> {
        x: GF256(9),
        y: vec![GF256(4), GF256(5)],
    };
    let copy = share.duplicate();
    assert_eq!(copy.x, GF256(9));
    assert_eq!(copy.y, vec![GF256(4), GF256(5)]);
    let plain = ShareNoX::<POLY> { y: vec![GF256(6)] };
    assert_eq!(plain.duplicate().y, vec![GF256(6)]);
}

#[test]
fn error_messages_are_distinct() {
    assert_eq!(Error::TooShort.message(), "A Share must be at least 2 bytes long");
    assert_ne!(Error::WrongLength.message(), Error::InsufficientShares.message());
}
