use fss::prg::PrgSeed;
use fss::RingElm;

#[test]
fn expansion_is_deterministic_and_new() {
    let s = PrgSeed { key: [42u8; 32] };
    let a = s.expand();
    let b = s.expand();
    assert_eq!(a.seeds.0.key, b.seeds.0.key);
    assert_eq!(a.seeds.1.key, b.seeds.1.key);
    assert_eq!(a.bits, b.bits);
    assert_ne!(a.seeds.0.key, s.key);
    assert_ne!(a.seeds.1.key, s.key);
    assert_ne!(a.seeds.0.key, a.seeds.1.key);
    let other = PrgSeed { key: [43u8; 32] }.expand();
    assert_ne!(a.seeds.0.key, other.seeds.0.key);
}

#[test]
fn direction_accessors() {
    let o = PrgSeed { key: [1u8; 32] }.expand();
    assert_eq!(o.seed_in(false).key, o.seeds.0.key);
    assert_eq!(o.seed_in(true).key, o.seeds.1.key);
    assert_eq!(o.bit_in(false), o.bits.0);
    assert_eq!(o.bit_in(true), o.bits.1);
}

#[test]
fn conversion_is_deterministic() {
    let s = PrgSeed { key: [9u8; 32] };
    let a = s.convert::<RingElm>();
    let b = s.convert::<RingElm>();
    assert_eq!(a.word, b.word);
    assert_eq!(a.seed.key, b.seed.key);
    assert_ne!(a.seed.key, s.key);
    assert_ne!(a.seed.key, s.expand().seeds.0.key);
}

#[test]
fn xor_of_seeds() {
    let a = PrgSeed { key: [0b1010_1010u8; 32] };
    let b = PrgSeed { key: [0b0110_0110u8; 32] };
    assert_eq!(a.xor(&b).key, [0b1100_1100u8; 32]);
    assert_eq!(a.xor(&a).key, [0u8; 32]);
    assert_eq!(a.xor(&b).xor(&b).key, a.key);
}

#[test]
fn random_seeds_differ() {
    let a = PrgSeed::random();
    let b = PrgSeed::random();
    assert_ne!(a.key, b.key);
}
