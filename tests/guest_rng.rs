use valida_rs::guest_rng::{delendum_rand, GuestRng};

#[test]
fn fixed_seed_gives_the_same_bytes() {
    let mut a = GuestRng::new();
    let mut b = GuestRng::new();
    let mut x = [0u8; 32];
    let mut y = [0u8; 32];
    delendum_rand(&mut a, &mut x);
    delendum_rand(&mut b, &mut y);
    assert_eq!(x, y);
    assert_ne!(x, [0u8; 32]);
}

#[test]
fn later_draws_continue_the_stream() {
    let mut a = GuestRng::new();
    let mut whole = [0u8; 16];
    delendum_rand(&mut a, &mut whole);
    let mut b = GuestRng::new();
    let mut first = [0u8; 8];
    let mut second = [0u8; 8];
    delendum_rand(&mut b, &mut first);
    delendum_rand(&mut b, &mut second);
    assert_eq!(&whole[..8], &first[..]);
    assert_eq!(&whole[8..], &second[..]);
    let mut empty: [u8; 0] = [];
    delendum_rand(&mut b, &mut empty);
}
