use fss::input::{sign_magnitude_u32, u32_to_bool_vector};
use fss::pika::{lookup_share, mask_shares};
use fss::Group;
use fss::RingElm;

#[test]
fn masked_input_shares_wrap() {
    let r = vec![5u16, 0, 65535, 9];
    let x = vec![7u16, 1, 65535];
    assert_eq!(mask_shares(&r, &x), vec![65534u16, 65535, 0]);
    assert!(mask_shares(&r, &vec![]).is_empty());
}

fn table() -> Vec<RingElm> {
    (0..65535u32).map(|i| RingElm::from((i % 1000) as u16)).collect()
}

#[test]
fn lookup_with_no_bit_set_is_zero() {
    let y = vec![false; 65536];
    assert_eq!(lookup_share(&y, &table(), 10, true), RingElm::zero());
    assert_eq!(lookup_share(&y, &table(), 10, false), RingElm::zero());
}

#[test]
fn lookup_picks_the_shifted_entry() {
    // With mask 10, entry i reads position i + 9; position 509 is entry 500.
    let mut y = vec![false; 65536];
    y[509] = true;
    assert_eq!(lookup_share(&y, &table(), 10, true), RingElm::from(500u16));
    let mut neg = RingElm::from(500u16);
    neg.negate();
    assert_eq!(lookup_share(&y, &table(), 10, false), neg);
}

#[test]
fn lookup_wraps_around_the_domain() {
    // With mask 10, entry 65530 reads position 65530 + 10 - 65536 = 4.
    let mut y = vec![false; 65536];
    y[4] = true;
    assert_eq!(lookup_share(&y, &table(), 10, true), RingElm::from(530u16));
    // Entry 65526 is the first that wraps: it reads position 0.
    let mut w = vec![false; 65536];
    w[0] = true;
    assert_eq!(lookup_share(&w, &table(), 10, true), RingElm::from(526u16));
    // No entry reads the last position.
    let mut z = vec![false; 65536];
    z[65535] = true;
    assert_eq!(lookup_share(&z, &table(), 10, true), RingElm::zero());
}

#[test]
fn lookup_shares_of_both_parties_cancel() {
    let mut y = vec![false; 65536];
    y[100] = true;
    y[2000] = true;
    let mut s = lookup_share(&y, &table(), 3, true);
    s.add(&lookup_share(&y, &table(), 3, false));
    assert_eq!(s, RingElm::zero());
}

#[test]
fn sign_magnitude_words() {
    assert_eq!(sign_magnitude_u32(5), 5);
    assert_eq!(sign_magnitude_u32(0), 0);
    assert_eq!(sign_magnitude_u32(-5), 0x8000_0005);
    assert_eq!(sign_magnitude_u32(i32::MAX), 0x7fff_ffff);
    assert_eq!(sign_magnitude_u32(-i32::MAX), 0xffff_ffff);
}

#[test]
fn bool_vector_of_u32() {
    let v = u32_to_bool_vector(0x8000_0003);
    assert_eq!(v.len(), 32);
    assert!(v[0]);
    assert!(v[30] && v[31]);
    assert!(v[1..30].iter().all(|b| !b));
    assert_eq!(u32_to_bool_vector(0), vec![false; 32]);
}
