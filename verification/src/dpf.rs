use vstd::prelude::*;

use crate::group::{lemma_neg_add, lemma_neg_neg, FromRng, Group};
use crate::prg::{
    convert_draw, expand_bit, expand_seed, seq_xor, PrgOutput, PrgSeed,
};

verus! {

/// The correction word of one level of the evaluation tree.
#[derive(Clone, Copy, Debug)]
pub struct CorWord {
    seed: PrgSeed,
    bits: (bool, bool),
}

/// A correction word as plain values.
pub struct CorWordView {
    pub seed: Seq<u8>,
    pub bits: (bool, bool),
}

impl View for CorWord {
    type V = CorWordView;

    closed spec fn view(&self) -> CorWordView {
        CorWordView { seed: self.seed.key@, bits: self.bits }
    }
}

/// One key of a pair of distributed point function keys.
#[derive(Clone, Debug)]
pub struct DPFKey<T> {
    key_idx: bool,
    root_seed: PrgSeed,
    cor_words: Vec<CorWord>,
    word: T,
}

/// A key as plain values: which of the two keys it is, its root seed, its
/// correction words (one per input bit) and its final correction word.
pub struct DPFKeyView<T> {
    pub key_idx: bool,
    pub root_seed: Seq<u8>,
    pub cor_words: Seq<CorWordView>,
    pub word: T,
}

spec fn cor_words_view(v: Seq<CorWord>) -> Seq<CorWordView> {
    Seq::new(v.len(), |i: int| v[i]@)
}

impl<T> View for DPFKey<T> {
    type V = DPFKeyView<T>;

    closed spec fn view(&self) -> DPFKeyView<T> {
        DPFKeyView {
            key_idx: self.key_idx,
            root_seed: self.root_seed.key@,
            cor_words: cor_words_view(self.cor_words@),
            word: self.word,
        }
    }
}

/// The control bit of a correction word in direction `dir`.
pub open spec fn cw_bit(cw: CorWordView, dir: bool) -> bool {
    if dir {
        cw.bits.1
    } else {
        cw.bits.0
    }
}

/// One step down the tree: from seed `s` and control bit `t`, in direction
/// `dir`, corrected by `cw` when the control bit is set.
pub open spec fn cw_step(cw: CorWordView, s: Seq<u8>, t: bool, dir: bool) -> (Seq<u8>, bool) {
    let s1 = expand_seed(s, dir);
    let t1 = expand_bit(s, dir);
    if t {
        (seq_xor(s1, cw.seed), t1 ^ cw_bit(cw, dir))
    } else {
        (s1, t1)
    }
}

/// The seed and control bit after walking levels `d..n` of the tree along
/// `x`, starting from seed `s` and control bit `t` at level `d`.
pub open spec fn run_from<T>(k: DPFKeyView<T>, x: Seq<bool>, d: int, s: Seq<u8>, t: bool, n: int) -> (
    Seq<u8>,
    bool,
)
    decreases n - d,
{
    if n <= d {
        (s, t)
    } else {
        let p = run_from(k, x, d, s, t, n - 1);
        cw_step(k.cor_words[n - 1], p.0, p.1, x[n - 1])
    }
}

/// The seed and control bit of key `k` after the first `n` bits of `x`.
pub open spec fn path_state<T>(k: DPFKeyView<T>, x: Seq<bool>, n: int) -> (Seq<u8>, bool) {
    run_from(k, x, 0, k.root_seed, k.key_idx, n)
}

/// The group element that `convert` draws from seed `s`.
pub open spec fn conv<T: FromRng>(s: Seq<u8>) -> T {
    T::spec_from_rng(convert_draw(s))
}

/// The output share of key `k` at a leaf reached with seed `s` and control
/// bit `t`.
pub open spec fn leaf_word<T: Group + FromRng>(k: DPFKeyView<T>, s: Seq<u8>, t: bool) -> T {
    let c = T::spec_add(T::spec_zero(), conv::<T>(s));
    let w = if t {
        T::spec_add(c, k.word)
    } else {
        c
    };
    if k.key_idx {
        T::spec_neg(w)
    } else {
        w
    }
}

/// The output share of key `k` at input `x`.
pub open spec fn spec_eval<T: Group + FromRng>(k: DPFKeyView<T>, x: Seq<bool>) -> T {
    if x.len() == 0 {
        T::spec_zero()
    } else {
        let p = path_state(k, x, x.len() as int);
        leaf_word(k, p.0, p.1)
    }
}

/// The correction word for a level whose point bit is `bit`, where the two
/// keys stand at seeds `s0` and `s1`.
pub open spec fn spec_cor_word(bit: bool, s0: Seq<u8>, s1: Seq<u8>) -> CorWordView {
    let lose = !bit;
    CorWordView {
        seed: seq_xor(expand_seed(s0, lose), expand_seed(s1, lose)),
        bits: (
            expand_bit(s0, false) ^ expand_bit(s1, false) ^ bit ^ true,
            expand_bit(s0, true) ^ expand_bit(s1, true) ^ bit,
        ),
    }
}

/// The seeds and control bits of both keys after the first `n` bits of the
/// point `alpha`, during key generation from root seeds `r0` and `r1`.
pub open spec fn gen_state(alpha: Seq<bool>, r0: Seq<u8>, r1: Seq<u8>, n: int) -> (
    (Seq<u8>, bool),
    (Seq<u8>, bool),
)
    decreases n,
{
    if n <= 0 {
        ((r0, false), (r1, true))
    } else {
        let p = gen_state(alpha, r0, r1, n - 1);
        let cw = spec_cor_word(alpha[n - 1], p.0.0, p.1.0);
        (cw_step(cw, p.0.0, p.0.1, alpha[n - 1]), cw_step(cw, p.1.0, p.1.1, alpha[n - 1]))
    }
}

/// The correction words that key generation produces.
pub open spec fn gen_cor_words(alpha: Seq<bool>, r0: Seq<u8>, r1: Seq<u8>) -> Seq<CorWordView> {
    Seq::new(
        alpha.len(),
        |i: int|
            {
                let p = gen_state(alpha, r0, r1, i);
                spec_cor_word(alpha[i], p.0.0, p.1.0)
            },
    )
}

/// The final correction word that key generation produces for the point
/// `alpha` and the value `value`.
pub open spec fn gen_last_word<T: Group + FromRng>(
    alpha: Seq<bool>,
    value: T,
    r0: Seq<u8>,
    r1: Seq<u8>,
) -> T {
    if alpha.len() == 0 {
        T::spec_zero()
    } else {
        let p = gen_state(alpha, r0, r1, alpha.len() as int);
        let w = T::spec_add(
            T::spec_add(T::spec_add(T::spec_zero(), value), T::spec_neg(conv::<T>(p.0.0))),
            conv::<T>(p.1.0),
        );
        if p.1.1 {
            T::spec_neg(w)
        } else {
            w
        }
    }
}

/// Key `party` (`false` for the first, `true` for the second) of the pair
/// generated for the point `alpha` and value `value` from root seeds `r0`, `r1`.
pub open spec fn spec_gen_key<T: Group + FromRng>(
    alpha: Seq<bool>,
    value: T,
    r0: Seq<u8>,
    r1: Seq<u8>,
    party: bool,
) -> DPFKeyView<T> {
    DPFKeyView {
        key_idx: party,
        root_seed: if party {
            r1
        } else {
            r0
        },
        cor_words: gen_cor_words(alpha, r0, r1),
        word: gen_last_word(alpha, value, r0, r1),
    }
}

/// Produces the correction word for one level and moves both keys' seeds and
/// control bits one level down towards the point.
fn gen_cor_word(bit: bool, bits: &mut (bool, bool), seeds: &mut (PrgSeed, PrgSeed)) -> (cw:
    CorWord)
    ensures
        cw@ == spec_cor_word(bit, old(seeds).0.key@, old(seeds).1.key@),
        (final(seeds).0.key@, final(bits).0) == cw_step(cw@, old(seeds).0.key@, old(bits).0, bit),
        (final(seeds).1.key@, final(bits).1) == cw_step(cw@, old(seeds).1.key@, old(bits).1, bit),
{
    let data0 = seeds.0.expand();
    let data1 = seeds.1.expand();
    let keep = bit;
    let lose = !keep;
    let cw = CorWord {
        seed: data0.seed_in(lose).xor(&data1.seed_in(lose)),
        bits: (data0.bits.0 ^ data1.bits.0 ^ bit ^ true, data0.bits.1 ^ data1.bits.1 ^ bit),
    };
    let cw_keep: bool = if keep {
        cw.bits.1
    } else {
        cw.bits.0
    };

    let mut s0 = data0.seed_in(keep);
    if bits.0 {
        s0 = s0.xor(&cw.seed);
    }
    let mut nb0 = data0.bit_in(keep);
    if bits.0 {
        nb0 = nb0 ^ cw_keep;
    }

    let mut s1 = data1.seed_in(keep);
    if bits.1 {
        s1 = s1.xor(&cw.seed);
    }
    let mut nb1 = data1.bit_in(keep);
    if bits.1 {
        nb1 = nb1 ^ cw_keep;
    }

    seeds.0 = s0;
    seeds.1 = s1;
    bits.0 = nb0;
    bits.1 = nb1;
    cw
}


/// Bytewise exclusive or with a common seed cancels.
proof fn lemma_xor_cancel(a: Seq<u8>, b: Seq<u8>)
    requires
        a.len() == 32,
        b.len() == 32,
    ensures
        seq_xor(a, seq_xor(a, b)) == b,
        seq_xor(b, seq_xor(a, b)) == a,
{
    assert forall|i: int| 0 <= i < 32 implies #[trigger] seq_xor(a, seq_xor(a, b))[i] == b[i]
        && seq_xor(b, seq_xor(a, b))[i] == a[i] by {
        let x: u8 = a[i];
        let y: u8 = b[i];
        assert(x ^ (x ^ y) == y && y ^ (x ^ y) == x) by (bit_vector);
    }
    assert(seq_xor(a, seq_xor(a, b)) =~= b);
    assert(seq_xor(b, seq_xor(a, b)) =~= a);
}

/// A walk only reads the bits of `x` it walks over.
proof fn lemma_run_from_prefix<T>(
    k: DPFKeyView<T>,
    x: Seq<bool>,
    y: Seq<bool>,
    d: int,
    s: Seq<u8>,
    t: bool,
    n: int,
)
    requires
        forall|i: int| d <= i < n ==> x[i] == y[i],
    ensures
        run_from(k, x, d, s, t, n) == run_from(k, y, d, s, t, n),
    decreases n - d,
{
    if n > d {
        lemma_run_from_prefix(k, x, y, d, s, t, n - 1);
    }
}

/// Walking to level `d` and then on to level `n` is walking to level `n`.
proof fn lemma_run_from_split<T>(k: DPFKeyView<T>, x: Seq<bool>, s: Seq<u8>, t: bool, d: int, n: int)
    requires
        0 <= d <= n,
    ensures
        ({
            let p = run_from(k, x, 0, s, t, d);
            run_from(k, x, d, p.0, p.1, n)
        }) == run_from(k, x, 0, s, t, n),
    decreases n - d,
{
    if n > d {
        lemma_run_from_split(k, x, s, t, d, n - 1);
    }
}

/// Along the point, the keys stand where key generation stood, and exactly
/// one of their control bits is set.
proof fn lemma_gen_on_path<T: Group + FromRng>(
    alpha: Seq<bool>,
    value: T,
    r0: Seq<u8>,
    r1: Seq<u8>,
    x: Seq<bool>,
    n: int,
)
    requires
        0 <= n <= alpha.len(),
        forall|i: int| 0 <= i < n ==> x[i] == alpha[i],
    ensures
        path_state(spec_gen_key(alpha, value, r0, r1, false), x, n) == gen_state(
            alpha,
            r0,
            r1,
            n,
        ).0,
        path_state(spec_gen_key(alpha, value, r0, r1, true), x, n) == gen_state(
            alpha,
            r0,
            r1,
            n,
        ).1,
        gen_state(alpha, r0, r1, n).0.1 != gen_state(alpha, r0, r1, n).1.1,
    decreases n,
{
    if n > 0 {
        lemma_gen_on_path(alpha, value, r0, r1, x, n - 1);
        let p = gen_state(alpha, r0, r1, n - 1);
        let bit = alpha[n - 1];
        assert(gen_cor_words(alpha, r0, r1)[n - 1] == spec_cor_word(bit, p.0.0, p.1.0));
    }
}

/// Off the point, once the walk has left the point's path, both keys stand
/// at the same seed with the same control bit.
proof fn lemma_gen_off_path<T: Group + FromRng>(
    alpha: Seq<bool>,
    value: T,
    r0: Seq<u8>,
    r1: Seq<u8>,
    x: Seq<bool>,
    j: int,
    n: int,
)
    requires
        0 <= j < n <= alpha.len(),
        forall|i: int| 0 <= i < j ==> x[i] == alpha[i],
        x[j] != alpha[j],
    ensures
        path_state(spec_gen_key(alpha, value, r0, r1, false), x, n) == path_state(
            spec_gen_key(alpha, value, r0, r1, true),
            x,
            n,
        ),
    decreases n,
{
    let k0 = spec_gen_key(alpha, value, r0, r1, false);
    let k1 = spec_gen_key(alpha, value, r0, r1, true);
    if n == j + 1 {
        lemma_gen_on_path(alpha, value, r0, r1, x, j);
        let p = gen_state(alpha, r0, r1, j);
        let bit = alpha[j];
        let lose = !bit;
        let cw = spec_cor_word(bit, p.0.0, p.1.0);
        assert(gen_cor_words(alpha, r0, r1)[j] == cw);
        lemma_xor_cancel(expand_seed(p.0.0, lose), expand_seed(p.1.0, lose));
        assert(path_state(k0, x, n) == cw_step(cw, p.0.0, p.0.1, lose));
        assert(path_state(k1, x, n) == cw_step(cw, p.1.0, p.1.1, lose));
    } else {
        lemma_gen_off_path(alpha, value, r0, r1, x, j, n - 1);
    }
}

/// `a + (-a + b) == b`.
proof fn lemma_cancel_left<G: Group>(a: G, b: G)
    ensures
        G::spec_add(a, G::spec_add(G::spec_neg(a), b)) == b,
{
    G::lemma_add_assoc(a, G::spec_neg(a), b);
    G::lemma_add_neg(a);
    G::lemma_add_zero(b);
}

/// `(b + a) + -a == b`.
proof fn lemma_cancel_right<G: Group>(a: G, b: G)
    ensures
        G::spec_add(G::spec_add(b, a), G::spec_neg(a)) == b,
{
    G::lemma_add_assoc(b, a, G::spec_neg(a));
    G::lemma_add_neg(a);
    G::lemma_add_comm(b, G::spec_zero());
    G::lemma_add_zero(b);
}

/// Correctness of the distributed point function: for any root seeds, any
/// point `alpha` of at least one bit and any value, the shares of the two
/// generated keys at an input `x` of the same length add up to `value` when
/// `x` is the point and to zero everywhere else.
pub proof fn lemma_dpf_correct<T: Group + FromRng>(
    alpha: Seq<bool>,
    value: T,
    r0: Seq<u8>,
    r1: Seq<u8>,
    x: Seq<bool>,
)
    requires
        alpha.len() >= 1,
        x.len() == alpha.len(),
    ensures
        T::spec_add(
            spec_eval(spec_gen_key(alpha, value, r0, r1, false), x),
            spec_eval(spec_gen_key(alpha, value, r0, r1, true), x),
        ) == (if x == alpha {
            value
        } else {
            T::spec_zero()
        }),
{
    let k0 = spec_gen_key(alpha, value, r0, r1, false);
    let k1 = spec_gen_key(alpha, value, r0, r1, true);
    let len = alpha.len() as int;
    if x =~= alpha {
        lemma_gen_on_path(alpha, value, r0, r1, x, len);
        let p = gen_state(alpha, r0, r1, len);
        let q0 = conv::<T>(p.0.0);
        let q1 = conv::<T>(p.1.0);
        T::lemma_add_zero(q0);
        T::lemma_add_zero(q1);
        T::lemma_add_zero(value);
        let a = T::spec_add(value, T::spec_neg(q0));
        let v1 = T::spec_add(a, q1);
        // a + q1 - q1 == a, and q0 + a == v
        lemma_cancel_right(q1, a);
        T::lemma_add_comm(value, T::spec_neg(q0));
        lemma_cancel_left(q0, value);
        if p.1.1 {
            // key 0 holds q0, key 1 holds -(q1 + -v1) == -q1 + v1 == a
            lemma_neg_add(q1, T::spec_neg(v1));
            lemma_neg_neg(v1);
            T::lemma_add_comm(T::spec_neg(q1), v1);
        } else {
            // key 0 holds q0 + v1, key 1 holds -q1
            T::lemma_add_assoc(q0, v1, T::spec_neg(q1));
        }
    } else {
        let j = lemma_first_difference(x, alpha);
        lemma_gen_off_path(alpha, value, r0, r1, x, j, len);
        let p = path_state(k0, x, len);
        let w = leaf_word(k0, p.0, p.1);
        T::lemma_add_neg(w);
    }
}

/// Correctness of the table that `evalAll` returns: for keys generated for a
/// 16-bit point, the two tables add up entrywise to `value` at the entries
/// that hold the share at the point, and to zero everywhere else.
pub proof fn lemma_eval_all_correct<T: Group + FromRng>(
    alpha: Seq<bool>,
    value: T,
    r0: Seq<u8>,
    r1: Seq<u8>,
    j: int,
)
    requires
        alpha.len() == 16,
        0 <= j < 0x1_0000,
    ensures
        T::spec_add(
            eval_all_entry(spec_gen_key(alpha, value, r0, r1, false), j),
            eval_all_entry(spec_gen_key(alpha, value, r0, r1, true), j),
        ) == (if j % 0x8000 == 1 {
            T::spec_zero()
        } else if (j % 0x8000 == 0 && bits16(j as u16) == alpha) || (j % 0x8000 >= 2 && bits16(
            (j - 1) as u16,
        ) == alpha) {
            value
        } else {
            T::spec_zero()
        }),
{
    let off = j % 0x8000;
    if off == 1 {
        T::lemma_add_zero(T::spec_zero());
    } else if off == 0 {
        lemma_dpf_correct(alpha, value, r0, r1, bits16(j as u16));
    } else {
        lemma_dpf_correct(alpha, value, r0, r1, bits16((j - 1) as u16));
    }
}

/// The first position where two sequences of the same length differ.
proof fn lemma_first_difference(a: Seq<bool>, b: Seq<bool>) -> (j: int)
    requires
        a.len() == b.len(),
        !(a =~= b),
    ensures
        0 <= j < a.len(),
        a[j] != b[j],
        forall|i: int| 0 <= i < j ==> a[i] == b[i],
{
    lemma_first_difference_from(a, b, 0)
}

proof fn lemma_first_difference_from(a: Seq<bool>, b: Seq<bool>, from: int) -> (j: int)
    requires
        a.len() == b.len(),
        0 <= from <= a.len(),
        forall|i: int| 0 <= i < from ==> a[i] == b[i],
        exists|i: int| from <= i < a.len() && a[i] != b[i],
    ensures
        from <= j < a.len(),
        a[j] != b[j],
        forall|i: int| 0 <= i < j ==> a[i] == b[i],
    decreases a.len() - from,
{
    if a[from] != b[from] {
        from
    } else {
        lemma_first_difference_from(a, b, from + 1)
    }
}

/// `o` is what `expand` gives for seed `s`.
pub open spec fn tau_matches(o: PrgOutput, s: Seq<u8>) -> bool {
    &&& o.seeds.0.key@ == expand_seed(s, false)
    &&& o.seeds.1.key@ == expand_seed(s, true)
    &&& o.bits.0 == expand_bit(s, false)
    &&& o.bits.1 == expand_bit(s, true)
}

/// What a stateful evaluation keeps of the path it walked, one entry per
/// level: the seed and control bit after the level, the input bit taken at
/// the level, and the expansion of the seed the level started from.
pub struct EvalState {
    seed: Vec<PrgSeed>,
    t_bit: Vec<bool>,
    bit: Vec<bool>,
    tau: Vec<PrgOutput>,
}

/// An evaluation state as plain values.
pub struct EvalStateView {
    pub seed: Seq<PrgSeed>,
    pub t_bit: Seq<bool>,
    pub bit: Seq<bool>,
    pub tau: Seq<PrgOutput>,
}

impl View for EvalState {
    type V = EvalStateView;

    closed spec fn view(&self) -> EvalStateView {
        EvalStateView {
            seed: self.seed@,
            t_bit: self.t_bit@,
            bit: self.bit@,
            tau: self.tau@,
        }
    }
}

/// The first `n` entries of `s`, or nothing when `s` has fewer than `n`.
pub open spec fn slice_prefix<A>(s: Seq<A>, n: int) -> Seq<A> {
    if n <= s.len() {
        s.take(n)
    } else {
        Seq::empty()
    }
}

/// State `st` records the first `n` levels of key `k`'s walk along `x`.
pub open spec fn state_tracks<T>(st: EvalStateView, k: DPFKeyView<T>, x: Seq<bool>, n: int) -> bool {
    &&& st.seed.len() == n
    &&& st.t_bit.len() == n
    &&& st.bit.len() == n
    &&& st.tau.len() == n
    &&& forall|l: int|
        0 <= l < n ==> ((#[trigger] st.seed[l]).key@, st.t_bit[l]) == path_state(k, x, l + 1)
    &&& forall|l: int| 0 <= l < n ==> #[trigger] st.bit[l] == x[l]
    &&& forall|l: int| 0 <= l < n ==> tau_matches(#[trigger] st.tau[l], path_state(k, x, l).0)
}

/// State `st` records key `k`'s walk along the input bits it holds.
pub open spec fn state_valid<T>(st: EvalStateView, k: DPFKeyView<T>) -> bool {
    state_tracks(st, k, st.bit, st.bit.len() as int)
}

/// The first `n` entries of `v`, or nothing when `v` has fewer than `n`.
fn prefix_copy<A: Copy>(v: &Vec<A>, n: usize) -> (r: Vec<A>)
    ensures
        r@ == slice_prefix(v@, n as int),
{
    let mut r: Vec<A> = Vec::new();
    if n <= v.len() {
        let mut i: usize = 0;
        while i < n
            invariant
                i <= n <= v@.len(),
                r@ == v@.take(i as int),
            decreases n - i,
        {
            r.push(v[i]);
            i = i + 1;
            assert(r@ =~= v@.take(i as int));
        }
    }
    assert(r@ =~= slice_prefix(v@, n as int));
    r
}

impl EvalState {
    /// The state cut down to levels `0..=index`; a record with fewer levels
    /// than that is emptied instead.
    fn slice_to_index(&self, index: usize) -> (r: EvalState)
        requires
            index < usize::MAX,
        ensures
            r@.seed == slice_prefix(self@.seed, index + 1),
            r@.t_bit == slice_prefix(self@.t_bit, index + 1),
            r@.bit == slice_prefix(self@.bit, index + 1),
            r@.tau == slice_prefix(self@.tau, index + 1),
    {
        let seed = prefix_copy(&self.seed, index + 1);
        let bit = prefix_copy(&self.bit, index + 1);
        let t_bit = prefix_copy(&self.t_bit, index + 1);
        let tau = prefix_copy(&self.tau, index + 1);
        EvalState { seed, bit, t_bit, tau }
    }
}

/// The 16 bits of `num`, most significant first.
pub open spec fn bits16(num: u16) -> Seq<bool> {
    Seq::new(16, |i: int| (num >> ((15 - i) as u16)) & 1u16 == 1u16)
}

/// The 32 bits of `num`, most significant first.
pub open spec fn bits32(num: u32) -> Seq<bool> {
    Seq::new(32, |i: int| (num >> ((31 - i) as u32)) & 1u32 == 1u32)
}

/// The number whose binary digits, most significant first, are `s`.
pub open spec fn bits_value(s: Seq<bool>) -> int
    decreases s.len(),
{
    if s.len() == 0 {
        0
    } else {
        2 * bits_value(s.drop_last()) + if s.last() {
            1int
        } else {
            0int
        }
    }
}

/// Two digit strings of the same length with the same value are equal.
pub proof fn lemma_bits_value_injective(x: Seq<bool>, y: Seq<bool>)
    requires
        x.len() == y.len(),
        bits_value(x) == bits_value(y),
    ensures
        x == y,
    decreases x.len(),
{
    if x.len() > 0 {
        lemma_bits_value_injective(x.drop_last(), y.drop_last());
        assert(x =~= x.drop_last().push(x.last()));
        assert(y =~= y.drop_last().push(y.last()));
    }
}

proof fn lemma_bits16_prefix_value(n: u16, k: int)
    requires
        1 <= k <= 16,
    ensures
        bits_value(bits16(n).take(k)) == (n >> ((16 - k) as u16)) as int,
    decreases k,
{
    let t = bits16(n).take(k);
    let sh: u16 = (16 - k) as u16;
    assert(t.last() == ((n >> sh) & 1u16 == 1u16));
    if k == 1 {
        assert(t.drop_last() =~= Seq::<bool>::empty());
        assert(bits_value(t.drop_last()) == 0);
        assert((n >> 15u16) == ((n >> 15u16) & 1u16) && (n >> 15u16) <= 1u16) by (bit_vector);
        assert(bits_value(t) == 2 * bits_value(t.drop_last()) + if t.last() {
            1int
        } else {
            0int
        });
    } else {
        lemma_bits16_prefix_value(n, k - 1);
        assert(t.drop_last() =~= bits16(n).take(k - 1));
        let sh1: u16 = (17 - k) as u16;
        assert((n >> sh) == 2 * (n >> sh1) + ((n >> sh) & 1u16) && (n >> sh) & 1u16 <= 1u16)
            by (bit_vector)
            requires
                sh < 15u16,
                sh1 == sh + 1u16,
        ;
    }
}

/// The bits `u16_to_boolean_vector` gives are the binary digits of the
/// number, most significant first.
pub proof fn lemma_bits16_value(n: u16)
    ensures
        bits16(n).len() == 16,
        bits_value(bits16(n)) == n,
{
    lemma_bits16_prefix_value(n, 16);
    assert(bits16(n).take(16) =~= bits16(n));
    assert((n >> 0u16) == n) by (bit_vector);
}

proof fn lemma_bits32_prefix_value(n: u32, k: int)
    requires
        1 <= k <= 32,
    ensures
        bits_value(bits32(n).take(k)) == (n >> ((32 - k) as u32)) as int,
    decreases k,
{
    let t = bits32(n).take(k);
    let sh: u32 = (32 - k) as u32;
    assert(t.last() == ((n >> sh) & 1u32 == 1u32));
    if k == 1 {
        assert(t.drop_last() =~= Seq::<bool>::empty());
        assert(bits_value(t.drop_last()) == 0);
        assert((n >> 31u32) == ((n >> 31u32) & 1u32) && (n >> 31u32) <= 1u32) by (bit_vector);
        assert(bits_value(t) == 2 * bits_value(t.drop_last()) + if t.last() {
            1int
        } else {
            0int
        });
    } else {
        lemma_bits32_prefix_value(n, k - 1);
        assert(t.drop_last() =~= bits32(n).take(k - 1));
        let sh1: u32 = (33 - k) as u32;
        assert((n >> sh) == 2 * (n >> sh1) + ((n >> sh) & 1u32) && (n >> sh) & 1u32 <= 1u32)
            by (bit_vector)
            requires
                sh < 31u32,
                sh1 == sh + 1u32,
        ;
    }
}

/// The bits `u32_to_boolean_vector` gives are the binary digits of the
/// number, most significant first.
pub proof fn lemma_bits32_value(n: u32)
    ensures
        bits32(n).len() == 32,
        bits_value(bits32(n)) == n,
{
    lemma_bits32_prefix_value(n, 32);
    assert(bits32(n).take(32) =~= bits32(n));
    assert((n >> 0u32) == n) by (bit_vector);
}

/// The bits of `num`, most significant first.
pub fn u32_to_boolean_vector(num: u32) -> (r: Vec<bool>)
    ensures
        r@ == bits32(num),
        r@.len() == 32,
        bits_value(r@) == num,
{
    proof {
        lemma_bits32_value(num);
    }
    let mut r: Vec<bool> = Vec::new();
    let mut j: u32 = 0;
    while j < 32
        invariant
            j <= 32,
            r@ == bits32(num).take(j as int),
        decreases 32 - j,
    {
        r.push(((num >> (31 - j)) & 1) == 1);
        j = j + 1;
        assert(r@ =~= bits32(num).take(j as int));
    }
    assert(r@ =~= bits32(num));
    r
}

/// The bits of `num`, most significant first.
pub fn u16_to_boolean_vector(num: u16) -> (r: Vec<bool>)
    ensures
        r@ == bits16(num),
        r@.len() == 16,
        bits_value(r@) == num,
{
    proof {
        lemma_bits16_value(num);
    }
    let mut r: Vec<bool> = Vec::new();
    let mut j: u16 = 0;
    while j < 16
        invariant
            j <= 16,
            r@ == bits16(num).take(j as int),
        decreases 16 - j,
    {
        r.push(((num >> (15 - j)) & 1) == 1);
        j = j + 1;
        assert(r@ =~= bits16(num).take(j as int));
    }
    assert(r@ =~= bits16(num));
    r
}

/// The first position, among those both slices have, at which `v1` and
/// `v2` differ; the length of `v1` when there is none.
pub fn find_first_difference_index(v1: &[bool], v2: &[bool]) -> (r: usize)
    ensures
        r <= v1@.len(),
        forall|j: int| 0 <= j < r && j < v1@.len() && j < v2@.len() ==> v1@[j] == v2@[j],
        r < v1@.len() && r < v2@.len() ==> v1@[r as int] != v2@[r as int],
        r >= v1@.len() || r >= v2@.len() ==> r == v1@.len(),
{
    let n: usize = if v1.len() < v2.len() {
        v1.len()
    } else {
        v2.len()
    };
    let mut i: usize = 0;
    while i < n
        invariant
            i <= n,
            n <= v1@.len(),
            n <= v2@.len(),
            n == v1@.len() || n == v2@.len(),
            forall|j: int| 0 <= j < i ==> v1@[j] == v2@[j],
        decreases n - i,
    {
        if v1[i] != v2[i] {
            return i;
        }
        i = i + 1;
    }
    v1.len()
}

/// Different numbers have different bits.
proof fn lemma_bits16_injective(a: u16, b: u16)
    requires
        bits16(a) == bits16(b),
    ensures
        a == b,
{
    let x = bits16(a);
    let y = bits16(b);
    assert(x[0] == y[0] && x[1] == y[1] && x[2] == y[2] && x[3] == y[3]);
    assert(x[4] == y[4] && x[5] == y[5] && x[6] == y[6] && x[7] == y[7]);
    assert(x[8] == y[8] && x[9] == y[9] && x[10] == y[10] && x[11] == y[11]);
    assert(x[12] == y[12] && x[13] == y[13] && x[14] == y[14] && x[15] == y[15]);
    assert(a == b) by (bit_vector)
        requires
            ((a >> 15u16) & 1u16 == 1u16) == ((b >> 15u16) & 1u16 == 1u16),
            ((a >> 14u16) & 1u16 == 1u16) == ((b >> 14u16) & 1u16 == 1u16),
            ((a >> 13u16) & 1u16 == 1u16) == ((b >> 13u16) & 1u16 == 1u16),
            ((a >> 12u16) & 1u16 == 1u16) == ((b >> 12u16) & 1u16 == 1u16),
            ((a >> 11u16) & 1u16 == 1u16) == ((b >> 11u16) & 1u16 == 1u16),
            ((a >> 10u16) & 1u16 == 1u16) == ((b >> 10u16) & 1u16 == 1u16),
            ((a >> 9u16) & 1u16 == 1u16) == ((b >> 9u16) & 1u16 == 1u16),
            ((a >> 8u16) & 1u16 == 1u16) == ((b >> 8u16) & 1u16 == 1u16),
            ((a >> 7u16) & 1u16 == 1u16) == ((b >> 7u16) & 1u16 == 1u16),
            ((a >> 6u16) & 1u16 == 1u16) == ((b >> 6u16) & 1u16 == 1u16),
            ((a >> 5u16) & 1u16 == 1u16) == ((b >> 5u16) & 1u16 == 1u16),
            ((a >> 4u16) & 1u16 == 1u16) == ((b >> 4u16) & 1u16 == 1u16),
            ((a >> 3u16) & 1u16 == 1u16) == ((b >> 3u16) & 1u16 == 1u16),
            ((a >> 2u16) & 1u16 == 1u16) == ((b >> 2u16) & 1u16 == 1u16),
            ((a >> 1u16) & 1u16 == 1u16) == ((b >> 1u16) & 1u16 == 1u16),
            ((a >> 0u16) & 1u16 == 1u16) == ((b >> 0u16) & 1u16 == 1u16),
    ;
}

/// Within one half of the domain, consecutive numbers share their top bit.
proof fn lemma_bits16_top_bit(a: u16)
    requires
        a != 0x7fff,
        a != 0xffff,
    ensures
        bits16(a)[0] == bits16((a + 1) as u16)[0],
{
    let b = (a + 1) as u16;
    assert(((a >> 15u16) & 1u16 == 1u16) == ((b >> 15u16) & 1u16 == 1u16)) by (bit_vector)
        requires
            a != 0x7fffu16,
            a != 0xffffu16,
            b == (a + 1) as u16,
    ;
}

/// Entry `j` of the table that `evalAll` returns: in each half of the
/// domain, the first entry holds the share at the half's first input, the
/// second entry holds zero, and every later entry `j` holds the share at
/// input `j - 1`.
pub open spec fn eval_all_entry<T: Group + FromRng>(k: DPFKeyView<T>, j: int) -> T {
    let off = j % 0x8000;
    if off == 0 {
        spec_eval(k, bits16(j as u16))
    } else if off == 1 {
        T::spec_zero()
    } else {
        spec_eval(k, bits16((j - 1) as u16))
    }
}

impl CorWord {
    /// The control bit in direction `dir`.
    fn bit_in(&self, dir: bool) -> (r: bool)
        ensures
            r == cw_bit(self@, dir),
    {
        if dir {
            self.bits.1
        } else {
            self.bits.0
        }
    }
}

impl<T: FromRng + Group + Copy> DPFKey<T> {
    /// One level of evaluation: from `seed` and `t_bit` at `level`, in
    /// direction `bit`; also hands back the expansion of `seed`.
    fn next_level(&self, level: usize, seed: &PrgSeed, t_bit: bool, bit: bool) -> (r: (
        PrgSeed,
        bool,
        PrgOutput,
    ))
        requires
            level < self@.cor_words.len(),
        ensures
            (r.0.key@, r.1) == cw_step(self@.cor_words[level as int], seed.key@, t_bit, bit),
            tau_matches(r.2, seed.key@),
    {
        let tau = seed.expand();
        let mut next = tau.seed_in(bit);
        let next_bit: bool;
        if t_bit {
            next = next.xor(&self.cor_words[level].seed);
            let new_bit = tau.bit_in(bit);
            next_bit = new_bit ^ self.cor_words[level].bit_in(bit);
        } else {
            next_bit = tau.bit_in(bit);
        }
        (next, next_bit, tau)
    }

    /// The output share at a leaf reached with `seed` and `t_bit`.
    fn leaf(&self, seed: &PrgSeed, t_bit: bool) -> (r: T)
        ensures
            r == leaf_word(self@, seed.key@, t_bit),
    {
        let mut word: T = T::zero();
        let converted = seed.convert::<T>();
        word.add(&converted.word);
        if t_bit {
            word.add(&self.word);
        }
        if self.key_idx {
            word.negate();
        }
        word
    }

    /// The pair of keys for the point `alpha_bits` and value `value`, grown
    /// from the root seeds `root0` and `root1`.
    pub fn gen_from_seeds(alpha_bits: &[bool], value: &T, root0: PrgSeed, root1: PrgSeed) -> (r: (
        DPFKey<T>,
        DPFKey<T>,
    ))
        ensures
            r.0@ == spec_gen_key(alpha_bits@, *value, root0.key@, root1.key@, false),
            r.1@ == spec_gen_key(alpha_bits@, *value, root0.key@, root1.key@, true),
    {
        let ghost alpha = alpha_bits@;
        let ghost r0 = root0.key@;
        let ghost r1 = root1.key@;
        let mut seeds = (root0, root1);
        let mut bits = (false, true);
        let mut cor_words0: Vec<CorWord> = Vec::new();
        let mut cor_words1: Vec<CorWord> = Vec::new();
        assert(cor_words_view(cor_words0@) =~= gen_cor_words(alpha, r0, r1).take(0));
        let mut last_word: T = T::zero();
        let mut i: usize = 0;
        while i < alpha_bits.len()
            invariant
                i <= alpha.len(),
                alpha == alpha_bits@,
                (seeds.0.key@, bits.0) == gen_state(alpha, r0, r1, i as int).0,
                (seeds.1.key@, bits.1) == gen_state(alpha, r0, r1, i as int).1,
                cor_words_view(cor_words0@) == gen_cor_words(alpha, r0, r1).take(i as int),
                cor_words1@ == cor_words0@,
                cor_words0@.len() == i,
                last_word == (if i == alpha.len() {
                    gen_last_word(alpha, *value, r0, r1)
                } else {
                    T::spec_zero()
                }),
            decreases alpha.len() - i,
        {
            let bit = alpha_bits[i];
            let ghost prev0 = cor_words0@;
            let ghost p = gen_state(alpha, r0, r1, i as int);
            assert(seeds.0.key@ == p.0.0 && seeds.1.key@ == p.1.0);
            let cw = gen_cor_word(bit, &mut bits, &mut seeds);
            assert(cw@ == gen_cor_words(alpha, r0, r1)[i as int]);
            assert forall|j: int| 0 <= j < i implies #[trigger] prev0[j]@ == gen_cor_words(
                alpha,
                r0,
                r1,
            )[j] by {
                assert(cor_words_view(prev0)[j] == gen_cor_words(alpha, r0, r1).take(i as int)[j]);
            }
            cor_words0.push(cw);
            cor_words1.push(cw);
            assert(cor_words_view(cor_words0@) =~= gen_cor_words(alpha, r0, r1).take(i + 1));
            assert(cor_words1@ == cor_words0@);
            assert(cor_words_view(cor_words1@) =~= gen_cor_words(alpha, r0, r1).take(i + 1));
            if i == alpha_bits.len() - 1 {
                let converted0 = seeds.0.convert::<T>();
                let converted1 = seeds.1.convert::<T>();
                last_word.add(value);
                last_word.sub(&converted0.word);
                last_word.add(&converted1.word);
                if bits.1 {
                    last_word.negate();
                }
            }
            i = i + 1;
        }
        assert(gen_cor_words(alpha, r0, r1).take(alpha.len() as int) =~= gen_cor_words(
            alpha,
            r0,
            r1,
        ));
        (
            DPFKey { key_idx: false, root_seed: root0, cor_words: cor_words0, word: last_word },
            DPFKey { key_idx: true, root_seed: root1, cor_words: cor_words1, word: last_word },
        )
    }

    /// The pair of keys for the point `alpha_bits` and value `value`, grown
    /// from two freshly drawn random root seeds.
    pub fn gen(alpha_bits: &[bool], value: &T) -> (r: (DPFKey<T>, DPFKey<T>))
        ensures
            r.0@ == spec_gen_key(alpha_bits@, *value, r.0@.root_seed, r.1@.root_seed, false),
            r.1@ == spec_gen_key(alpha_bits@, *value, r.0@.root_seed, r.1@.root_seed, true),
    {
        let root0 = PrgSeed::random();
        let root1 = PrgSeed::random();
        DPFKey::gen_from_seeds(alpha_bits, value, root0, root1)
    }

    /// This key's share of the point function at input `idx`.
    pub fn eval(&self, idx: &Vec<bool>) -> (r: T)
        requires
            1 <= idx@.len() <= self@.cor_words.len(),
        ensures
            r == spec_eval(self@, idx@),
    {
        let mut seed: PrgSeed = self.root_seed;
        let mut t_bit: bool = self.key_idx;
        let mut word: T = T::zero();
        let mut level: usize = 0;
        while level < idx.len()
            invariant
                level <= idx@.len(),
                1 <= idx@.len() <= self@.cor_words.len(),
                (seed.key@, t_bit) == path_state(self@, idx@, level as int),
                word == (if level == idx@.len() {
                    spec_eval(self@, idx@)
                } else {
                    T::spec_zero()
                }),
            decreases idx@.len() - level,
        {
            let bit = idx[level];
            let (next, next_bit, _tau) = self.next_level(level, &seed, t_bit, bit);
            seed = next;
            t_bit = next_bit;
            if level == idx.len() - 1 {
                word = self.leaf(&seed, t_bit);
            }
            level = level + 1;
        }
        word
    }

    /// This key's share at input `idx`, together with the state of the walk
    /// that computed it.
    pub fn stateful_eval_no_prev_state(&self, idx: &Vec<bool>) -> (r: (T, EvalState))
        requires
            idx@.len() <= self@.cor_words.len(),
        ensures
            r.0 == spec_eval(self@, idx@),
            state_tracks(r.1@, self@, idx@, idx@.len() as int),
            r.1@.bit == idx@,
            state_valid(r.1@, self@),
    {
        let mut new_state = EvalState {
            seed: Vec::new(),
            bit: Vec::new(),
            t_bit: Vec::new(),
            tau: Vec::new(),
        };
        let mut seed: PrgSeed = self.root_seed;
        let mut t_bit: bool = self.key_idx;
        let mut word: T = T::zero();
        let mut level: usize = 0;
        assert(new_state@.bit =~= idx@.take(0));
        while level < idx.len()
            invariant
                level <= idx@.len() <= self@.cor_words.len(),
                (seed.key@, t_bit) == path_state(self@, idx@, level as int),
                state_tracks(new_state@, self@, idx@, level as int),
                new_state@.bit == idx@.take(level as int),
                word == (if level == idx@.len() {
                    spec_eval(self@, idx@)
                } else {
                    T::spec_zero()
                }),
            decreases idx@.len() - level,
        {
            let bit = idx[level];
            let ghost before = seed.key@;
            let (next, next_bit, tau) = self.next_level(level, &seed, t_bit, bit);
            seed = next;
            t_bit = next_bit;
            if level == idx.len() - 1 {
                word = self.leaf(&seed, t_bit);
            }
            new_state.seed.push(seed);
            new_state.t_bit.push(t_bit);
            new_state.bit.push(bit);
            new_state.tau.push(tau);
            assert(new_state@.bit =~= idx@.take(level + 1));
            assert(new_state@.seed[level as int] == seed);
            assert(tau_matches(new_state@.tau[level as int], path_state(self@, idx@, level as int).0));
            level = level + 1;
        }
        assert(idx@.take(idx@.len() as int) =~= idx@);
        (word, new_state)
    }

    /// This key's share at input `idx`, resuming the walk recorded in
    /// `prev_state` from level `idx_diff` on (the first level at which `idx`
    /// differs from the input of `prev_state`), together with the updated
    /// state.
    pub fn stateful_eval(&self, idx: &Vec<bool>, prev_state: &EvalState, idx_diff: usize) -> (r: (
        T,
        EvalState,
    ))
        requires
            1 <= idx_diff <= prev_state@.seed.len(),
            idx_diff <= prev_state@.t_bit.len(),
            idx_diff < idx@.len() ==> idx@.len() <= self@.cor_words.len(),
        ensures
            ({
                let d = idx_diff as int;
                let len = idx@.len() as int;
                let s = prev_state@.seed[d - 1].key@;
                let t = prev_state@.t_bit[d - 1];
                let m = if d < len {
                    len - d
                } else {
                    0
                };
                let pre_tau = slice_prefix(prev_state@.tau, d);
                &&& r.0 == (if d < len {
                    leaf_word(self@, run_from(self@, idx@, d, s, t, len).0, run_from(self@, idx@, d, s, t, len).1)
                } else {
                    T::spec_zero()
                })
                &&& r.1@.seed.len() == d + m
                &&& r.1@.t_bit.len() == d + m
                &&& forall|l: int| 0 <= l < d ==> #[trigger] r.1@.seed[l] == prev_state@.seed[l]
                &&& forall|l: int| 0 <= l < d ==> #[trigger] r.1@.t_bit[l] == prev_state@.t_bit[l]
                &&& forall|l: int|
                    d <= l < d + m ==> (#[trigger] r.1@.seed[l].key@, r.1@.t_bit[l]) == run_from(
                        self@,
                        idx@,
                        d,
                        s,
                        t,
                        l + 1,
                    )
                &&& r.1@.bit == slice_prefix(prev_state@.bit, d) + Seq::new(m as nat, |j: int| idx@[d + j])
                &&& r.1@.tau.len() == pre_tau.len() + m
                &&& r.1@.tau.take(pre_tau.len() as int) == pre_tau
                &&& forall|j: int|
                    0 <= j < m ==> tau_matches(
                        #[trigger] r.1@.tau[pre_tau.len() + j],
                        run_from(self@, idx@, d, s, t, d + j).0,
                    )
            }),
            // Resuming a valid state at a level up to which the inputs agree
            // gives the share that a fresh evaluation gives.
            state_valid(prev_state@, self@) && idx_diff < idx@.len() && prev_state@.bit.take(
                idx_diff as int,
            ) == idx@.take(idx_diff as int) ==> r.0 == spec_eval(self@, idx@) && state_valid(
                r.1@,
                self@,
            ) && r.1@.bit == idx@,
    {
        let ghost d = idx_diff as int;
        let ghost len = idx@.len() as int;
        let ghost k = self@;
        let ghost x = idx@;
        let mut new_state = prev_state.slice_to_index(idx_diff - 1);
        let start_idx: usize = idx_diff;
        let mut seed: PrgSeed = new_state.seed[new_state.seed.len() - 1];
        let mut t_bit: bool = new_state.t_bit[new_state.t_bit.len() - 1];
        let ghost s = seed.key@;
        let ghost t = t_bit;
        let ghost pre_tau = slice_prefix(prev_state@.tau, d);
        let ghost pre_bit = slice_prefix(prev_state@.bit, d);
        let mut word: T = T::zero();
        let mut level: usize = start_idx;
        let ghost n_end: int = if d < len {
            len
        } else {
            d
        };
        assert(new_state@.bit =~= pre_bit + Seq::new(0, |j: int| x[d + j]));
        assert(new_state@.tau.take(pre_tau.len() as int) =~= pre_tau);
        while level < idx.len()
            invariant
                d == idx_diff,
                len == idx@.len(),
                k == self@,
                x == idx@,
                n_end == (if d < len {
                    len
                } else {
                    d
                }),
                d <= level <= n_end,
                1 <= d <= prev_state@.seed.len(),
                d <= prev_state@.t_bit.len(),
                d < len ==> len <= k.cor_words.len(),
                s == prev_state@.seed[d - 1].key@,
                t == prev_state@.t_bit[d - 1],
                pre_tau == slice_prefix(prev_state@.tau, d),
                pre_bit == slice_prefix(prev_state@.bit, d),
                (seed.key@, t_bit) == run_from(k, x, d, s, t, level as int),
                new_state@.seed.len() == level,
                new_state@.t_bit.len() == level,
                forall|l: int| 0 <= l < d ==> #[trigger] new_state@.seed[l] == prev_state@.seed[l],
                forall|l: int| 0 <= l < d ==> #[trigger] new_state@.t_bit[l] == prev_state@.t_bit[l],
                forall|l: int|
                    d <= l < level ==> (#[trigger] new_state@.seed[l].key@, new_state@.t_bit[l])
                        == run_from(k, x, d, s, t, l + 1),
                new_state@.bit == pre_bit + Seq::new((level - d) as nat, |j: int| x[d + j]),
                new_state@.tau.len() == pre_tau.len() + (level - d),
                new_state@.tau.take(pre_tau.len() as int) == pre_tau,
                forall|j: int|
                    0 <= j < level - d ==> tau_matches(
                        #[trigger] new_state@.tau[pre_tau.len() + j],
                        run_from(k, x, d, s, t, d + j).0,
                    ),
                word == (if level == len && d < len {
                    leaf_word(k, run_from(k, x, d, s, t, len).0, run_from(k, x, d, s, t, len).1)
                } else {
                    T::spec_zero()
                }),
            decreases n_end - level,
        {
            let bit = idx[level];
            let ghost old_tau = new_state@.tau;
            let ghost old_seed = new_state@.seed;
            let ghost old_tbit = new_state@.t_bit;
            let (next, next_bit, tau) = self.next_level(level, &seed, t_bit, bit);
            seed = next;
            t_bit = next_bit;
            if level == idx.len() - 1 {
                word = self.leaf(&seed, t_bit);
            }
            new_state.seed.push(seed);
            new_state.t_bit.push(t_bit);
            new_state.bit.push(bit);
            new_state.tau.push(tau);
            assert(new_state@.bit =~= pre_bit + Seq::new((level + 1 - d) as nat, |j: int| x[d + j]));
            assert forall|l: int| 0 <= l < level implies #[trigger] new_state@.seed[l] == old_seed[l] by {}
            assert forall|l: int| 0 <= l < level implies #[trigger] new_state@.t_bit[l] == old_tbit[l] by {}
            assert forall|l: int| d <= l < level + 1 implies (#[trigger] new_state@.seed[l].key@,
                new_state@.t_bit[l]) == run_from(k, x, d, s, t, l + 1) by {
                if l < level {
                    assert(new_state@.seed[l] == old_seed[l]);
                    assert(new_state@.t_bit[l] == old_tbit[l]);
                    assert((old_seed[l].key@, old_tbit[l]) == run_from(k, x, d, s, t, l + 1));
                } else {
                    assert(new_state@.seed[l] == seed);
                    assert(new_state@.t_bit[l] == t_bit);
                }
            }
            assert forall|j: int| 0 <= j < level - d implies #[trigger] new_state@.tau[pre_tau.len() + j]
                == old_tau[pre_tau.len() + j] by {}
            assert(new_state@.tau.take(pre_tau.len() as int) =~= old_tau.take(
                pre_tau.len() as int,
            ));
            assert(new_state@.tau[pre_tau.len() + (level - d)] == tau);
            level = level + 1;
        }
        proof {
            if state_valid(prev_state@, k) && d < len && prev_state@.bit.take(d) == x.take(d) {
                let y = prev_state@.bit;
                assert forall|i: int| 0 <= i < d implies y[i] == x[i] by {
                    assert(y.take(d)[i] == x.take(d)[i]);
                }
                lemma_run_from_prefix(k, y, x, 0, k.root_seed, k.key_idx, d);
                lemma_run_from_split(k, x, k.root_seed, k.key_idx, d, len);
                assert(pre_tau.len() == d);
                assert forall|l: int| 0 <= l < len implies ((#[trigger] new_state@.seed[l]).key@,
                    new_state@.t_bit[l]) == path_state(k, x, l + 1) by {
                    if l < d {
                        lemma_run_from_prefix(k, y, x, 0, k.root_seed, k.key_idx, l + 1);
                        assert(new_state@.seed[l] == prev_state@.seed[l]);
                        assert((prev_state@.seed[l].key@, prev_state@.t_bit[l]) == path_state(k, y, l + 1));
                    } else {
                        lemma_run_from_split(k, x, k.root_seed, k.key_idx, d, l + 1);
                    }
                }
                assert forall|l: int| 0 <= l < len implies tau_matches(
                    #[trigger] new_state@.tau[l],
                    path_state(k, x, l).0,
                ) by {
                    if l < d {
                        lemma_run_from_prefix(k, y, x, 0, k.root_seed, k.key_idx, l);
                        assert(new_state@.tau.take(pre_tau.len() as int)[l] == pre_tau[l]);
                        assert(pre_tau[l] == prev_state@.tau[l]);
                        assert(tau_matches(prev_state@.tau[l], path_state(k, y, l).0));
                    } else {
                        lemma_run_from_split(k, x, k.root_seed, k.key_idx, d, l);
                        assert(new_state@.tau[pre_tau.len() + (l - d)] == new_state@.tau[l]);
                    }
                }
                assert(new_state@.bit =~= x);
            }
        }
        (word, new_state)
    }

    /// This key's shares over the whole 16-bit domain, walked in order with
    /// stateful evaluation; the table's layout is that of `eval_all_entry`.
    #[allow(non_snake_case)]
    pub fn evalAll(&self) -> (r: Vec<T>)
        requires
            self@.cor_words.len() >= 16,
        ensures
            r@.len() == 0x1_0000,
            forall|j: int| 0 <= j < 0x1_0000 ==> #[trigger] r@[j] == eval_all_entry(self@, j),
            // Read on the integers: entry `j` of each half holds the share at
            // the input whose digits, most significant first, have the value
            // `j` for the first entry of the half and `j - 1` from the third
            // entry on; the second entry of each half holds zero.
            forall|j: int, x: Seq<bool>|
                #![trigger r@[j], bits_value(x)]
                0 <= j < 0x1_0000 && x.len() == 16 && j % 0x8000 != 1 && bits_value(x) == (if j
                    % 0x8000 == 0 {
                    j
                } else {
                    j - 1
                }) ==> r@[j] == spec_eval(self@, x),
            forall|j: int| 0 <= j < 0x1_0000 && j % 0x8000 == 1 ==> #[trigger] r@[j] == T::spec_zero(),
    {
        let mut y_vec: Vec<T> = Vec::new();
        let max_value: u16 = u16::MAX;
        let half_value: u16 = max_value / 2;
        let mut i: u16 = 0;
        while i < 2
            invariant
                i <= 2,
                half_value == 0x7fff,
                self@.cor_words.len() >= 16,
                y_vec@.len() == i * 0x8000,
                forall|j: int| 0 <= j < y_vec@.len() ==> #[trigger] y_vec@[j] == eval_all_entry(self@, j),
            decreases 2 - i,
        {
            // Start from 0 and 2^15 outside the inner walk.
            let init_16b: u16 = i * (half_value + 1);
            let init_16b_bool_vec: Vec<bool> = u16_to_boolean_vector(init_16b);
            let iter_start: u16 = i * (half_value + 1);
            let iter_end: u16 = iter_start + half_value;
            let (res, state) = self.stateful_eval_no_prev_state(&init_16b_bool_vec);
            let mut prev_state = state;
            assert(init_16b as int % 0x8000 == 0);
            y_vec.push(res);
            let mut prev_num_bool: Vec<bool> = init_16b_bool_vec;
            let mut num: u16 = iter_start;
            while num < iter_end
                invariant
                    i < 2,
                    iter_start == i * 0x8000,
                    iter_end == iter_start + 0x7fff,
                    iter_start <= num <= iter_end,
                    self@.cor_words.len() >= 16,
                    prev_num_bool@ == bits16(
                        if num == iter_start {
                            iter_start
                        } else {
                            (num - 1) as u16
                        },
                    ),
                    state_valid(prev_state@, self@),
                    prev_state@.bit == prev_num_bool@,
                    y_vec@.len() == iter_start + 1 + (num - iter_start),
                    forall|j: int|
                        0 <= j < y_vec@.len() ==> #[trigger] y_vec@[j] == eval_all_entry(self@, j),
                decreases iter_end - num,
            {
                let num_bool_vec: Vec<bool> = u16_to_boolean_vector(num);
                let idx_diff = find_first_difference_index(&prev_num_bool, &num_bool_vec);
                proof {
                    if num == iter_start {
                        if idx_diff < 16 {
                            assert(prev_num_bool@[idx_diff as int] == num_bool_vec@[idx_diff as int]);
                        }
                    } else {
                        lemma_bits16_top_bit((num - 1) as u16);
                        if idx_diff >= 16 {
                            assert(bits16((num - 1) as u16) =~= bits16(num));
                            lemma_bits16_injective((num - 1) as u16, num);
                        }
                        assert(prev_num_bool@.take(idx_diff as int) =~= num_bool_vec@.take(
                            idx_diff as int,
                        ));
                    }
                }
                let (res, state) = self.stateful_eval(&num_bool_vec, &prev_state, idx_diff);
                proof {
                    if num == iter_start {
                        assert(state@.seed =~= prev_state@.seed);
                        assert(state@.t_bit =~= prev_state@.t_bit);
                        assert(state@.bit =~= prev_state@.bit);
                        assert(prev_state@.tau.take(16) =~= prev_state@.tau);
                        assert(state@.tau.take(16) =~= state@.tau);
                        assert(state@.tau =~= prev_state@.tau);
                    }
                    assert(((num + 1) as int) % 0x8000 == num + 1 - iter_start);
                }
                y_vec.push(res);
                prev_state = state;
                prev_num_bool = num_bool_vec;
                num = num + 1;
            }
            i = i + 1;
        }
        proof {
            assert forall|j: int, x: Seq<bool>|
                #![trigger y_vec@[j], bits_value(x)]
                0 <= j < 0x1_0000 && x.len() == 16 && j % 0x8000 != 1 && bits_value(x) == (if j
                    % 0x8000 == 0 {
                    j
                } else {
                    j - 1
                }) implies y_vec@[j] == spec_eval(self@, x) by {
                let target: int = if j % 0x8000 == 0 {
                    j
                } else {
                    j - 1
                };
                lemma_bits16_value(target as u16);
                lemma_bits_value_injective(x, bits16(target as u16));
            }
        }
        y_vec
    }

    /// The bytes the key occupies: its index, its root seed, its correction
    /// words and its final word.
    pub fn key_size(&self) -> (r: usize)
        requires
            1 + vstd::layout::size_of::<PrgSeed>() + self@.cor_words.len()
                * vstd::layout::size_of::<CorWord>() + vstd::layout::size_of::<T>() <= usize::MAX,
        ensures
            r == 1 + vstd::layout::size_of::<PrgSeed>() + self@.cor_words.len()
                * vstd::layout::size_of::<CorWord>() + vstd::layout::size_of::<T>(),
    {
        broadcast use vstd::layout::layout_of_primitives, vstd::layout::layout_of_slices;

        let mut key_size: usize = 0;
        key_size += core::mem::size_of::<bool>();
        key_size += core::mem::size_of::<PrgSeed>();
        key_size += core::mem::size_of_val(self.cor_words.as_slice());
        key_size += core::mem::size_of::<T>();
        key_size
    }

    /// The number of input bits the key was generated for.
    pub fn domain_size(&self) -> (r: usize)
        ensures
            r == self@.cor_words.len(),
    {
        self.cor_words.len()
    }
}

} // verus!
