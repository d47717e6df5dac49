use fss::FromRng;
use fss::Group;
use fss::RingElm;

fn r(v: u16) -> RingElm {
    RingElm::from(v)
}

#[test]
fn group_operations_wrap_modulo_2_16() {
    let mut a = r(65535);
    a.add(&r(2));
    assert_eq!(a, r(1));
    let mut b = r(1);
    b.sub(&r(3));
    assert_eq!(b, r(65534));
    let mut c = r(300);
    c.mul(&r(300));
    assert_eq!(c, r((90000u32 % 65536) as u16));
    assert_eq!(RingElm::zero(), r(0));
    assert_eq!(RingElm::one(), r(1));
}

#[test]
fn negation_is_additive_inverse() {
    for v in [0u16, 1, 2, 32768, 65535].iter() {
        let mut n = r(*v);
        n.negate();
        let mut s = r(*v);
        s.add(&n);
        assert_eq!(s, RingElm::zero());
    }
    let mut z = r(0);
    z.negate();
    assert_eq!(z, r(0));
    let mut o = r(1);
    o.negate();
    assert_eq!(o, r(65535));
}

#[test]
fn operators_match_group_operations() {
    assert_eq!(r(65000) + r(1000), r(464));
    assert_eq!(r(5) - r(7), r(65534));
    assert_eq!(r(256) * r(256), r(0));
    let mut g = r(5);
    g.sub(&r(7));
    assert_eq!(g, r(5) - r(7));
}

#[test]
fn conversions() {
    assert_eq!(r(4660).to_u16(), Some(4660));
    assert_eq!(r(0x1234).to_u8_vec(), vec![0x12, 0x34]);
    assert_eq!(RingElm::from_bytes(vec![0xab, 0xcd]), r(0xabcd));
    assert_eq!(RingElm::from_bytes(r(513).to_u8_vec()), r(513));
    assert_eq!(r(9).to_vec(3), vec![r(9), r(9), r(9)]);
    assert!(r(9).to_vec(0).is_empty());
}

#[test]
fn drawing_keeps_the_low_16_bits() {
    let mut x = r(0);
    x.from_rng(0x0001_2345);
    assert_eq!(x, r(0x2345));
    x.from_rng(0xffff_ffff);
    assert_eq!(x, r(0xffff));
}

#[test]
fn ordering_follows_the_value() {
    assert!(r(3) < r(4));
    assert!(r(65535) > r(0));
    assert_eq!(r(7).cmp(&r(7)), std::cmp::Ordering::Equal);
    assert_eq!(r(2).partial_cmp(&r(9)), Some(std::cmp::Ordering::Less));
    assert_eq!(r(9).partial_cmp(&r(2)), Some(std::cmp::Ordering::Greater));
}

#[test]
fn pairs_form_a_group_componentwise() {
    let mut p = (r(1), r(65535));
    p.add(&(r(65535), r(2)));
    assert_eq!(p, (r(0), r(1)));
    let mut q = (r(3), r(4));
    q.sub(&(r(5), r(1)));
    assert_eq!(q, (r(65534), r(3)));
    let mut m = (r(2), r(3));
    m.mul(&(r(4), r(5)));
    assert_eq!(m, (r(8), r(15)));
    let mut n = (r(1), r(0));
    n.negate();
    assert_eq!(n, (r(65535), r(0)));
    assert_eq!(<(RingElm, RingElm) as Group>::zero(), (r(0), r(0)));
    assert_eq!(<(RingElm, RingElm) as Group>::one(), (r(1), r(1)));
}
