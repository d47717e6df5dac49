use fss::dpf::{find_first_difference_index, u16_to_boolean_vector, u32_to_boolean_vector, DPFKey};
use fss::prg::PrgSeed;
use fss::Group;
use fss::RingElm;

fn seed_of(byte: u8) -> PrgSeed {
    PrgSeed { key: [byte; 32] }
}

fn sum_at(k0: &DPFKey<RingElm>, k1: &DPFKey<RingElm>, x: &Vec<bool>) -> RingElm {
    let mut s = RingElm::zero();
    s.add(&k0.eval(x));
    s.add(&k1.eval(x));
    s
}

fn all_inputs(n: usize) -> Vec<Vec<bool>> {
    let mut out = Vec::new();
    for v in 0..(1u32 << n) {
        out.push((0..n).map(|i| (v >> (n - 1 - i)) & 1 == 1).collect());
    }
    out
}

#[test]
#[allow(non_snake_case)]
fn evalCheck() {
    // The three low bits of 7.
    let mut alpha = vec![true, true, true];

    let beta = RingElm::from(117u16);
    let (dpf_key0, dpf_key1) = DPFKey::gen(&alpha, &beta);

    {
        let mut evalResult = RingElm::zero();

        let word0 = dpf_key0.eval(&alpha);
        evalResult.add(&word0);

        let word1 = dpf_key1.eval(&alpha);
        evalResult.add(&word1);

        assert_eq!(evalResult, beta);
    }

    {
        let mut evalResult = RingElm::zero();

        alpha[1] ^= true;

        let word0 = dpf_key0.eval(&alpha);
        evalResult.add(&word0);

        let word1 = dpf_key1.eval(&alpha);
        evalResult.add(&word1);

        assert_eq!(evalResult, RingElm::zero());
    }
}

#[test]
fn point_function_on_every_input() {
    let alpha = vec![false, true, true, false, true];
    let beta = RingElm::from(40000u16);
    let (k0, k1) = DPFKey::gen(&alpha, &beta);
    for x in all_inputs(5) {
        let expected = if x == alpha { beta } else { RingElm::zero() };
        assert_eq!(sum_at(&k0, &k1, &x), expected);
    }
}

#[test]
fn point_function_with_one_bit_domain() {
    for &a in [false, true].iter() {
        let alpha = vec![a];
        let beta = RingElm::from(65535u16);
        let (k0, k1) = DPFKey::gen(&alpha, &beta);
        assert_eq!(sum_at(&k0, &k1, &vec![a]), beta);
        assert_eq!(sum_at(&k0, &k1, &vec![!a]), RingElm::zero());
    }
}

#[test]
fn point_function_with_equal_root_seeds() {
    let alpha = vec![true, false, false, true];
    let beta = RingElm::from(9u16);
    let (k0, k1) = DPFKey::gen_from_seeds(&alpha, &beta, seed_of(7), seed_of(7));
    for x in all_inputs(4) {
        let expected = if x == alpha { beta } else { RingElm::zero() };
        assert_eq!(sum_at(&k0, &k1, &x), expected);
    }
}

#[test]
fn generation_from_seeds_is_deterministic() {
    let alpha = vec![true, false, true];
    let beta = RingElm::from(5u16);
    let (a0, a1) = DPFKey::gen_from_seeds(&alpha, &beta, seed_of(1), seed_of(2));
    let (b0, b1) = DPFKey::gen_from_seeds(&alpha, &beta, seed_of(1), seed_of(2));
    for x in all_inputs(3) {
        assert_eq!(a0.eval(&x), b0.eval(&x));
        assert_eq!(a1.eval(&x), b1.eval(&x));
    }
}

#[test]
fn shares_of_single_key_look_nonzero_off_point() {
    // Each share alone is not the point function: some share off the point is nonzero.
    let alpha = vec![false, false, false, false];
    let beta = RingElm::from(1u16);
    let (k0, _k1) = DPFKey::gen_from_seeds(&alpha, &beta, seed_of(3), seed_of(4));
    let nonzero = all_inputs(4)
        .iter()
        .filter(|x| **x != alpha)
        .any(|x| k0.eval(x) != RingElm::zero());
    assert!(nonzero);
}

#[test]
fn domain_and_key_size() {
    let alpha = vec![true, false, true];
    let (k0, k1) = DPFKey::gen(&alpha, &RingElm::from(3u16));
    assert_eq!(k0.domain_size(), 3);
    assert_eq!(k1.domain_size(), 3);
    let expected = 1
        + std::mem::size_of::<PrgSeed>()
        + 3 * std::mem::size_of::<fss::dpf::CorWord>()
        + std::mem::size_of::<RingElm>();
    assert_eq!(k0.key_size(), expected);
    assert_eq!(k0.key_size(), 1 + 32 + 3 * 34 + 2);
}

#[test]
fn stateful_evaluation_matches_eval() {
    let alpha = vec![true, true, false, true, false, false];
    let beta = RingElm::from(1234u16);
    let (k0, k1) = DPFKey::gen_from_seeds(&alpha, &beta, seed_of(11), seed_of(12));
    for k in [&k0, &k1].iter() {
        for x in all_inputs(6) {
            let (w, _state) = k.stateful_eval_no_prev_state(&x);
            assert_eq!(w, k.eval(&x));
        }
        // Walk the domain in order, resuming from the previous state.
        let inputs = all_inputs(6);
        let (_w, mut state) = k.stateful_eval_no_prev_state(&inputs[0]);
        for n in 1..inputs.len() {
            let d = find_first_difference_index(&inputs[n - 1], &inputs[n]);
            if d == 0 {
                let (w, s) = k.stateful_eval_no_prev_state(&inputs[n]);
                assert_eq!(w, k.eval(&inputs[n]));
                state = s;
                continue;
            }
            let (w, s) = k.stateful_eval(&inputs[n], &state, d);
            assert_eq!(w, k.eval(&inputs[n]));
            state = s;
        }
    }
}

#[test]
fn stateful_evaluation_at_full_depth_gives_zero() {
    let alpha = vec![true, false];
    let (k0, _k1) = DPFKey::gen_from_seeds(&alpha, &RingElm::from(8u16), seed_of(5), seed_of(6));
    let (_w, state) = k0.stateful_eval_no_prev_state(&alpha);
    let (w, _s) = k0.stateful_eval(&alpha, &state, 2);
    assert_eq!(w, RingElm::zero());
}

#[test]
fn eval_all_layout() {
    let alpha = u16_to_boolean_vector(300);
    let beta = RingElm::from(77u16);
    let (k0, k1) = DPFKey::gen_from_seeds(&alpha, &beta, seed_of(21), seed_of(22));
    let y0 = k0.evalAll();
    let y1 = k1.evalAll();
    assert_eq!(y0.len(), 65536);
    assert_eq!(y1.len(), 65536);
    assert_eq!(y0[0], k0.eval(&u16_to_boolean_vector(0)));
    assert_eq!(y0[1], RingElm::zero());
    assert_eq!(y0[2], k0.eval(&u16_to_boolean_vector(1)));
    assert_eq!(y0[32768], k0.eval(&u16_to_boolean_vector(32768)));
    assert_eq!(y0[32769], RingElm::zero());
    assert_eq!(y0[65535], k0.eval(&u16_to_boolean_vector(65534)));
    // Entry 301 holds the share at input 300, the point.
    let mut s = y0[301];
    s.add(&y1[301]);
    assert_eq!(s, beta);
    let mut z = y0[300];
    z.add(&y1[300]);
    assert_eq!(z, RingElm::zero());
}

#[test]
fn boolean_vectors_are_most_significant_first() {
    let v = u16_to_boolean_vector(5);
    assert_eq!(v.len(), 16);
    assert_eq!(&v[13..], &[true, false, true]);
    assert!(v[..13].iter().all(|b| !b));
    let w = u32_to_boolean_vector(0x8000_0001);
    assert_eq!(w.len(), 32);
    assert!(w[0] && w[31]);
    assert!(w[1..31].iter().all(|b| !b));
}

#[test]
fn first_difference_index() {
    assert_eq!(find_first_difference_index(&[true, false, true], &[true, true, true]), 1);
    assert_eq!(find_first_difference_index(&[true, false], &[true, false]), 2);
    assert_eq!(find_first_difference_index(&[false, false, true], &[false, false]), 3);
    assert_eq!(find_first_difference_index(&[], &[true]), 0);
}
