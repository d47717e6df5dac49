use vstd::prelude::*;

use crate::group::Group;
use crate::ring::RingElm;

verus! {

/// One party's share of the masked input, `r - x` modulo 2^16, for each of
/// the inputs whose shares the party holds (step (a) of the protocol).
pub fn mask_shares(r_share: &Vec<u16>, x_share: &Vec<u16>) -> (r: Vec<u16>)
    requires
        r_share@.len() >= x_share@.len(),
    ensures
        r@.len() == x_share@.len(),
        forall|k: int|
            0 <= k < x_share@.len() ==> #[trigger] r@[k] == (r_share@[k] - x_share@[k]) % 0x1_0000,
{
    let mut party_mask: Vec<u16> = Vec::new();
    let iter_end: usize = x_share.len();
    let mut k: usize = 0;
    while k < iter_end
        invariant
            k <= iter_end == x_share@.len(),
            r_share@.len() >= x_share@.len(),
            party_mask@.len() == k,
            forall|j: int|
                0 <= j < k ==> #[trigger] party_mask@[j] == (r_share@[j] - x_share@[j]) % 0x1_0000,
        decreases iter_end - k,
    {
        party_mask.push(r_share[k].wrapping_sub(x_share[k]));
        k = k + 1;
    }
    party_mask
}

/// The table position read for entry `i` when the opened mask is `mask`:
/// `i + mask - 1`, taken modulo 2^16.
pub open spec fn shift_index(i: int, mask: u16) -> int {
    if i + mask <= 0xffff {
        i + mask - 1
    } else {
        i + mask - 0x1_0000
    }
}

/// For a nonzero mask the entries `0..2^16 - 1` read the positions
/// `0..2^16 - 1` rotated by `mask - 1`: entry `i` reads position
/// `(i + mask - 1) mod (2^16 - 1)`.
pub proof fn lemma_shift_is_rotation(i: int, mask: u16)
    requires
        0 <= i < 0xffff,
        mask >= 1,
    ensures
        shift_index(i, mask) == (i + mask - 1) % 0xffff,
        0 <= shift_index(i, mask) < 0xffff,
{
    if i + mask <= 0xffff {
        assert(0 <= i + mask - 1 < 0xffff);
        vstd::arithmetic::div_mod::lemma_small_mod((i + mask - 1) as nat, 0xffff);
    } else {
        assert(0xffff <= i + mask - 1 < 2 * 0xffff);
        vstd::arithmetic::div_mod::lemma_mod_sub_multiples_vanish(i + mask - 1, 0xffff);
        vstd::arithmetic::div_mod::lemma_small_mod((i + mask - 1 - 0xffff) as nat, 0xffff);
    }
}

/// The integer sum of what the entries `0..n` contribute: table entry `i`'s
/// value, negated for the party that is not the server, where the party's
/// bit at position `(i + mask - 1) mod (2^16 - 1)` is set.
pub open spec fn lookup_value(
    y_vec: Seq<bool>,
    func_db: Seq<RingElm>,
    mask: u16,
    is_server: bool,
    n: int,
) -> int
    decreases n,
{
    if n <= 0 {
        0
    } else {
        lookup_value(y_vec, func_db, mask, is_server, n - 1) + if y_vec[(n - 1 + mask - 1)
            % 0xffff] {
            if is_server {
                func_db[n - 1].val() as int
            } else {
                -func_db[n - 1].val()
            }
        } else {
            0
        }
    }
}

/// What entry `i` of the table contributes to the lookup: the table value,
/// negated for the party that is not the server, where the party's evaluation
/// bit at the shifted position is set; zero elsewhere.
pub open spec fn lookup_term(
    y_vec: Seq<bool>,
    func_db: Seq<RingElm>,
    mask: u16,
    is_server: bool,
    i: int,
) -> RingElm {
    if y_vec[shift_index(i, mask)] {
        if is_server {
            func_db[i]
        } else {
            RingElm::spec_neg(func_db[i])
        }
    } else {
        RingElm::spec_zero()
    }
}

/// The sum of the contributions of entries `0..n`.
pub open spec fn lookup_sum(
    y_vec: Seq<bool>,
    func_db: Seq<RingElm>,
    mask: u16,
    is_server: bool,
    n: int,
) -> RingElm
    decreases n,
{
    if n <= 0 {
        RingElm::spec_zero()
    } else {
        RingElm::spec_add(
            lookup_sum(y_vec, func_db, mask, is_server, n - 1),
            lookup_term(y_vec, func_db, mask, is_server, n - 1),
        )
    }
}

/// One party's share `u` of the table lookup at the masked input (step (c)
/// of the protocol): the sum over the entries `i < 2^16 - 1` of the table
/// whose shifted evaluation bit is set.
pub fn lookup_share(y_vec: &Vec<bool>, func_db: &Vec<RingElm>, mask: u16, is_server: bool) -> (r:
    RingElm)
    requires
        mask >= 1,
        y_vec@.len() >= 0xffff,
        func_db@.len() >= 0xffff,
    ensures
        r == lookup_sum(y_vec@, func_db@, mask, is_server, 0xffff),
        r.val() == lookup_value(y_vec@, func_db@, mask, is_server, 0xffff) % 0x1_0000,
{
    let mut u: RingElm = RingElm::from(0u16);
    let mut i: u16 = 0;
    while i < u16::MAX
        invariant
            mask >= 1,
            y_vec@.len() >= 0xffff,
            func_db@.len() >= 0xffff,
            u == lookup_sum(y_vec@, func_db@, mask, is_server, i as int),
            u.val() == lookup_value(y_vec@, func_db@, mask, is_server, i as int) % 0x1_0000,
        decreases u16::MAX - i,
    {
        let mut shift: u16 = i;
        shift = shift.wrapping_add(mask);
        if i <= u16::MAX - mask {
            shift = shift - 1u16;
        }
        proof {
            RingElm::lemma_add_zero(u);
            RingElm::lemma_add_comm(u, RingElm::spec_zero());
        }
        proof {
            lemma_shift_is_rotation(i as int, mask);
            assert(shift == shift_index(i as int, mask));
        }
        let ghost prev = lookup_value(y_vec@, func_db@, mask, is_server, i as int);
        let ghost u0 = u;
        if y_vec[shift as usize] {
            let mut temp: RingElm = func_db[i as usize];
            // -1^sigma
            if !is_server {
                temp.negate();
            }
            proof {
                crate::ring::lemma_ring_arithmetic(u0, temp);
                crate::ring::lemma_ring_arithmetic(func_db@[i as int], temp);
                let c: int = if is_server {
                    func_db@[i as int].val() as int
                } else {
                    -func_db@[i as int].val()
                };
                assert(temp.val() == c % 0x1_0000);
                vstd::arithmetic::div_mod::lemma_add_mod_noop(prev, c, 0x1_0000);
                vstd::arithmetic::div_mod::lemma_mod_twice(c, 0x1_0000);
            }
            u = u + temp;
        }
        i = i + 1;
    }
    u
}

} // verus!
