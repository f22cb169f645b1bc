//! Laws of the ROM search engine, proved against a specification-level bus:
//! a set of 64-bit device addresses whose responses are the wired-AND of the
//! devices' bits, exactly as the shared open-drain line forms them. A pass
//! of [`crate::search::search_step`] against these responses realizes a
//! depth-first traversal of the implicit binary trie over addresses, pruned
//! to inhabited branches, and yields addresses in ascending wire order
//! (bit 0 compared first) across successive passes.

use vstd::prelude::*;

use crate::search::{fork_phase, follow_phase, search_fold, search_step, u64_bit, SearchState};

verus! {

/// The mask selecting the address bits below position `i`.
pub open spec fn mask_below(i: int) -> u64 {
    if i >= 64 {
        0xFFFF_FFFF_FFFF_FFFFu64
    } else if i <= 0 {
        0u64
    } else {
        ((1u64 << (i as u64)) - 1) as u64
    }
}

/// Whether device `d` agrees with the chosen prefix `rom` on every bit
/// below `i`: such a device is still active in the search.
pub open spec fn agrees_below(d: u64, rom: u64, i: int) -> bool {
    (d ^ rom) & mask_below(i) == 0
}

/// Whether some device of `devs` is still active for prefix `rom` at `i`.
pub open spec fn branch_nonempty(devs: Set<u64>, rom: u64, i: int) -> bool {
    exists|d: u64| #[trigger] devs.contains(d) && agrees_below(d, rom, i)
}

/// Whether at most one device of `devs` is active for prefix `rom` at `i`.
pub open spec fn branch_singleton(devs: Set<u64>, rom: u64, i: int) -> bool {
    forall|d: u64, e: u64|
        #[trigger] devs.contains(d) && #[trigger] devs.contains(e) && agrees_below(d, rom, i)
            && agrees_below(e, rom, i) ==> d == e
}

/// The two bits the active devices answer at position `i`: the wired-AND
/// leaves the first read high exactly when no active device carries a 1
/// there, and the second exactly when no active device carries a 0.
pub open spec fn wired_response(devs: Set<u64>, rom: u64, i: int) -> (bool, bool) {
    (
        forall|d: u64| #[trigger] devs.contains(d) && agrees_below(d, rom, i) ==> !u64_bit(d, i),
        forall|d: u64| #[trigger] devs.contains(d) && agrees_below(d, rom, i) ==> u64_bit(d, i),
    )
}

/// One search pass against the simulated bus of `devs`, from step `i` with
/// the given accumulators: each step feeds the wired-AND response into
/// `search_step`.
pub open spec fn sim_pass(
    devs: Set<u64>,
    resume: Option<SearchState>,
    i: int,
    rom: u64,
    disc: u64,
    ld: u8,
) -> Option<(u64, u64, u8)>
    decreases 64 - i,
{
    if i < 0 || i >= 64 {
        Some((rom, disc, ld))
    } else {
        let r = wired_response(devs, rom, i);
        match search_step(resume, i, rom, disc, ld, r.0, r.1) {
            None => None,
            Some(s) => sim_pass(devs, resume, i + 1, s.0, s.1, s.2),
        }
    }
}

/// Wire order on addresses from bit `i` upward: bit `i` is compared first,
/// and a 0 sorts before a 1.
pub open spec fn wire_le_from(a: u64, d: u64, i: int) -> bool
    decreases 64 - i,
{
    if i < 0 || i >= 64 {
        true
    } else if u64_bit(a, i) == u64_bit(d, i) {
        wire_le_from(a, d, i + 1)
    } else {
        !u64_bit(a, i)
    }
}

/// Wire order on whole addresses: bit 0 is compared first.
pub open spec fn wire_le(a: u64, d: u64) -> bool {
    wire_le_from(a, d, 0)
}

/// Whether step `i` belongs to neither the follow nor the fork phase, so
/// the pass is driven by the bus responses alone from `i` on.
pub open spec fn past_resume(resume: Option<SearchState>, i: int) -> bool {
    match resume {
        Some(st) => i > st.last_discrepancy_index,
        None => true,
    }
}

proof fn lemma_mask_below_step(i: u64, m: u64, m1: u64)
    by (bit_vector)
    requires
        i < 64,
        m == (if i == 0 {
            0u64
        } else {
            ((1u64 << i) - 1) as u64
        }),
        m1 == (if i == 63 {
            0xFFFF_FFFF_FFFF_FFFFu64
        } else {
            ((1u64 << (i + 1) as u64) - 1) as u64
        }),
    ensures
        m1 == m | (1u64 << i),
{
}

/// `mask_below(i + 1)` adds exactly bit `i` to `mask_below(i)`.
proof fn lemma_mask_step(i: int)
    requires
        0 <= i < 64,
    ensures
        mask_below(i + 1) == mask_below(i) | (1u64 << (i as u64)),
{
    lemma_mask_below_step(i as u64, mask_below(i), mask_below(i + 1));
}

proof fn lemma_agree_self(d: u64, m: u64)
    by (bit_vector)
    ensures
        (d ^ d) & m == 0,
{
}

proof fn lemma_agree_full(d: u64, r: u64)
    by (bit_vector)
    requires
        (d ^ r) & 0xFFFF_FFFF_FFFF_FFFFu64 == 0,
    ensures
        d == r,
{
}

/// Agreement below a mask is transitive.
proof fn lemma_agree_trans(x: u64, y: u64, z: u64, m: u64)
    by (bit_vector)
    requires
        (x ^ y) & m == 0,
        (y ^ z) & m == 0,
    ensures
        (x ^ z) & m == 0,
{
}

/// Agreement below a mask is symmetric.
proof fn lemma_agree_sym(x: u64, y: u64, m: u64)
    by (bit_vector)
    requires
        (x ^ y) & m == 0,
    ensures
        (y ^ x) & m == 0,
{
}

/// Every address agrees with the empty prefix below position 0.
proof fn lemma_agree_zero(d: u64)
    by (bit_vector)
    ensures
        (d ^ 0u64) & 0u64 == 0,
{
}

proof fn lemma_agree_extend(d: u64, r: u64, r2: u64, i: u64, m: u64, m1: u64, b: bool)
    by (bit_vector)
    requires
        i < 64,
        m1 == m | (1u64 << i),
        (r >> i) & 1 == 0,
        (d ^ r) & m == 0,
        ((d >> i) & 1 == 1) == b,
        r2 == (if b {
            r | (1u64 << i)
        } else {
            r
        }),
    ensures
        (d ^ r2) & m1 == 0,
        (d ^ r2) & m == 0,
{
}

proof fn lemma_agree_narrow(d: u64, r: u64, r2: u64, i: u64, m: u64, m1: u64, b: bool)
    by (bit_vector)
    requires
        i < 64,
        m1 == m | (1u64 << i),
        m & (1u64 << i) == 0,
        (r >> i) & 1 == 0,
        r2 == (if b {
            r | (1u64 << i)
        } else {
            r
        }),
        (d ^ r2) & m1 == 0,
    ensures
        (d ^ r) & m == 0,
        ((d >> i) & 1 == 1) == b,
{
}

proof fn lemma_agree_bit_below(d: u64, r: u64, i: u64, q: u64, m: u64)
    by (bit_vector)
    requires
        q < i,
        i <= 64,
        m == (if i == 0 {
            0u64
        } else if i >= 64 {
            0xFFFF_FFFF_FFFF_FFFFu64
        } else {
            ((1u64 << i) - 1) as u64
        }),
        (d ^ r) & m == 0,
    ensures
        ((d >> q) & 1 == 1) == ((r >> q) & 1 == 1),
{
}

/// Two addresses that agree below `i` carry the same bit at any `q < i`.
proof fn lemma_agree_bit(d: u64, r: u64, i: int, q: int)
    requires
        0 <= q < i <= 64,
        agrees_below(d, r, i),
    ensures
        u64_bit(d, q) == u64_bit(r, q),
{
    lemma_agree_bit_below(d, r, i as u64, q as u64, mask_below(i));
}

proof fn lemma_bit_not_set(v: u64, i: u64)
    by (bit_vector)
    requires
        !((v >> i) & 1 == 1),
    ensures
        (v >> i) & 1 == 0,
{
}

proof fn lemma_mask_bit_clear(i: u64, m: u64)
    by (bit_vector)
    requires
        i < 64,
        m == (if i == 0 {
            0u64
        } else {
            ((1u64 << i) - 1) as u64
        }),
    ensures
        m & (1u64 << i) == 0,
{
}

/// From step `i` past the resume phases, a pass over a nonempty active
/// branch always succeeds, returns a member of that branch, and returns
/// its least member in wire order.
proof fn lemma_sim_pass_least(
    devs: Set<u64>,
    resume: Option<SearchState>,
    i: int,
    rom: u64,
    disc: u64,
    ld: u8,
)
    requires
        0 <= i <= 64,
        past_resume(resume, i),
        branch_nonempty(devs, rom, i),
        forall|j: int| i <= j < 64 ==> !u64_bit(rom, j),
    ensures
        sim_pass(devs, resume, i, rom, disc, ld) is Some,
        ({
            let a = sim_pass(devs, resume, i, rom, disc, ld).unwrap().0;
            devs.contains(a) && agrees_below(a, rom, i) && forall|d: u64|
                #[trigger] devs.contains(d) && agrees_below(d, rom, i) ==> wire_le_from(a, d, i)
        }),
    decreases 64 - i,
{
    if i == 64 {
        let w = choose|d: u64| #[trigger] devs.contains(d) && agrees_below(d, rom, 64);
        lemma_agree_full(w, rom);
        lemma_agree_self(rom, mask_below(64));
        assert forall|d: u64|
            #[trigger] devs.contains(d) && agrees_below(d, rom, 64) implies wire_le_from(
            rom,
            d,
            64,
        ) by {}
    } else {
        let iu = i as u64;
        let m = mask_below(i);
        let m1 = mask_below(i + 1);
        lemma_mask_step(i);
        lemma_mask_bit_clear(iu, m);
        assert(!u64_bit(rom, i as int));
        lemma_bit_not_set(rom, iu);
        let resp = wired_response(devs, rom, i);
        let b1 = resp.0;
        let b2 = resp.1;
        let w = choose|d: u64| #[trigger] devs.contains(d) && agrees_below(d, rom, i);
        assert(!(b1 && b2));
        assert(!follow_phase(resume, i) && !fork_phase(resume, i));
        if !b1 && b2 {
            // all active devices carry a 1 here
            let rom2 = rom | (1u64 << iu);
            assert(search_step(resume, i, rom, disc, ld, b1, b2) == Some((rom2, disc, ld)));
            assert(u64_bit(w, i));
            lemma_agree_extend(w, rom, rom2, iu, m, m1, true);
            crate::search::lemma_u64_or_bit(rom, iu);
            assert forall|j: int| i + 1 <= j < 64 implies !u64_bit(rom2, j) by {
                let ju = j as u64;
                assert(!u64_bit(rom, j));
                assert(((rom | (1u64 << iu)) >> ju) & 1 == (rom >> ju) & 1);
            }
            lemma_sim_pass_least(devs, resume, i + 1, rom2, disc, ld);
            let a = sim_pass(devs, resume, i + 1, rom2, disc, ld).unwrap().0;
            lemma_agree_narrow(a, rom, rom2, iu, m, m1, true);
            assert forall|d: u64|
                #[trigger] devs.contains(d) && agrees_below(d, rom, i) implies wire_le_from(
                a,
                d,
                i,
            ) by {
                assert(u64_bit(d, i));
                lemma_agree_extend(d, rom, rom2, iu, m, m1, true);
                assert(wire_le_from(a, d, i + 1));
                assert(u64_bit(a, i) == u64_bit(d, i));
            }
        } else if b1 && !b2 {
            // all active devices carry a 0 here
            assert(search_step(resume, i, rom, disc, ld, b1, b2) == Some((rom, disc, ld)));
            assert(!u64_bit(w, i));
            lemma_bit_not_set(w, iu);
            lemma_agree_extend(w, rom, rom, iu, m, m1, false);
            lemma_sim_pass_least(devs, resume, i + 1, rom, disc, ld);
            let a = sim_pass(devs, resume, i + 1, rom, disc, ld).unwrap().0;
            lemma_agree_narrow(a, rom, rom, iu, m, m1, false);
            assert forall|d: u64|
                #[trigger] devs.contains(d) && agrees_below(d, rom, i) implies wire_le_from(
                a,
                d,
                i,
            ) by {
                assert(!u64_bit(d, i));
                lemma_bit_not_set(d, iu);
                lemma_agree_extend(d, rom, rom, iu, m, m1, false);
                assert(wire_le_from(a, d, i + 1));
                assert(u64_bit(a, i) == u64_bit(d, i));
            }
        } else {
            // conflict: devices disagree here and the 0 branch is taken
            let disc2 = disc | (1u64 << iu);
            assert(search_step(resume, i, rom, disc, ld, b1, b2) == Some((rom, disc2, i as u8)));
            let w0 = choose|d: u64|
                #[trigger] devs.contains(d) && agrees_below(d, rom, i) && !u64_bit(d, i);
            assert(devs.contains(w0) && agrees_below(w0, rom, i) && !u64_bit(w0, i));
            lemma_bit_not_set(w0, iu);
            lemma_agree_extend(w0, rom, rom, iu, m, m1, false);
            lemma_sim_pass_least(devs, resume, i + 1, rom, disc2, i as u8);
            let a = sim_pass(devs, resume, i + 1, rom, disc2, i as u8).unwrap().0;
            lemma_agree_narrow(a, rom, rom, iu, m, m1, false);
            assert forall|d: u64|
                #[trigger] devs.contains(d) && agrees_below(d, rom, i) implies wire_le_from(
                a,
                d,
                i,
            ) by {
                if u64_bit(d, i) {
                    assert(!u64_bit(a, i));
                } else {
                    lemma_bit_not_set(d, iu);
                    lemma_agree_extend(d, rom, rom, iu, m, m1, false);
                    assert(wire_le_from(a, d, i + 1));
                    assert(u64_bit(a, i) == u64_bit(d, i));
                }
            }
        }
    }
}

/// From step `i` past the resume phases, a pass whose active branch holds
/// exactly one device walks straight to that device: the accumulated
/// conflict mask and highest-conflict index come back unchanged.
proof fn lemma_sim_pass_singleton(
    devs: Set<u64>,
    resume: Option<SearchState>,
    i: int,
    rom: u64,
    disc: u64,
    ld: u8,
    x: u64,
)
    requires
        0 <= i <= 64,
        past_resume(resume, i),
        devs.contains(x),
        agrees_below(x, rom, i),
        branch_singleton(devs, rom, i),
        forall|j: int| i <= j < 64 ==> !u64_bit(rom, j),
    ensures
        sim_pass(devs, resume, i, rom, disc, ld) == Some((x, disc, ld)),
    decreases 64 - i,
{
    if i == 64 {
        lemma_agree_full(x, rom);
    } else {
        let iu = i as u64;
        let m = mask_below(i);
        let m1 = mask_below(i + 1);
        lemma_mask_step(i);
        lemma_mask_bit_clear(iu, m);
        assert(!u64_bit(rom, i as int));
        lemma_bit_not_set(rom, iu);
        let resp = wired_response(devs, rom, i);
        let b1 = resp.0;
        let b2 = resp.1;
        let b = u64_bit(x, i);
        // every active device is x, so the response is unanimous
        assert forall|d: u64|
            #[trigger] devs.contains(d) && agrees_below(d, rom, i) implies u64_bit(d, i)
            == b by {
            assert(d == x);
        }
        assert(b1 == !b);
        assert(b2 == b);
        let rom2 = if b {
            rom | (1u64 << iu)
        } else {
            rom
        };
        assert(search_step(resume, i, rom, disc, ld, b1, b2) == Some((rom2, disc, ld)));
        if !b {
            lemma_bit_not_set(x, iu);
        }
        lemma_agree_extend(x, rom, rom2, iu, m, m1, b);
        if b {
            crate::search::lemma_u64_or_bit(rom, iu);
        }
        assert forall|j: int| i + 1 <= j < 64 implies !u64_bit(rom2, j) by {
            let ju = j as u64;
            assert(!u64_bit(rom, j));
            if b {
                assert(((rom | (1u64 << iu)) >> ju) & 1 == (rom >> ju) & 1);
            }
        }
        assert forall|d: u64, e: u64|
            #[trigger] devs.contains(d) && #[trigger] devs.contains(e) && agrees_below(
                d,
                rom2,
                i + 1,
            ) && agrees_below(e, rom2, i + 1) implies d == e by {
            lemma_agree_narrow(d, rom, rom2, iu, m, m1, b);
            lemma_agree_narrow(e, rom, rom2, iu, m, m1, b);
        }
        lemma_sim_pass_singleton(devs, resume, i + 1, rom2, disc, ld, x);
    }
}

/// Wire order from `j` is decided at the first differing bit: for two
/// addresses that agree on `[j, p)` and differ at `p`, the one carrying
/// the 0 at `p` comes first.
proof fn lemma_wire_decided(x: u64, y: u64, j: int, p: int)
    requires
        0 <= j <= p < 64,
        forall|q: int| j <= q < p ==> u64_bit(x, q) == u64_bit(y, q),
        u64_bit(x, p) != u64_bit(y, p),
    ensures
        wire_le_from(x, y, j) == !u64_bit(x, p),
    decreases p - j,
{
    if j < p {
        lemma_wire_decided(x, y, j + 1, p);
    }
}

/// Two addresses that agree on every bit of `[j, p)` compare from `j` as
/// they compare from `p`.
proof fn lemma_wire_shared_prefix(x: u64, y: u64, j: int, p: int)
    requires
        0 <= j <= p <= 64,
        forall|q: int| j <= q < p ==> u64_bit(x, q) == u64_bit(y, q),
    ensures
        wire_le_from(x, y, j) == wire_le_from(x, y, p),
    decreases p - j,
{
    if j < p {
        lemma_wire_shared_prefix(x, y, j + 1, p);
    }
}

proof fn lemma_and_zero(v: u64)
    by (bit_vector)
    ensures
        v & 0u64 == 0,
{
}

proof fn lemma_agree_join(d: u64, r: u64, i: u64, m: u64, m1: u64)
    by (bit_vector)
    requires
        i < 64,
        m1 == m | (1u64 << i),
        (d ^ r) & m == 0,
        ((d >> i) & 1 == 1) == ((r >> i) & 1 == 1),
    ensures
        (d ^ r) & m1 == 0,
{
}

/// Bitwise agreement below `i` gives agreement below the mask.
proof fn lemma_bits_to_mask(d: u64, r: u64, i: int)
    requires
        0 <= i <= 64,
        forall|q: int| 0 <= q < i ==> u64_bit(d, q) == u64_bit(r, q),
    ensures
        agrees_below(d, r, i),
    decreases i,
{
    if i == 0 {
        lemma_and_zero(d ^ r);
    } else {
        lemma_bits_to_mask(d, r, i - 1);
        lemma_mask_step(i - 1);
        assert(u64_bit(d, i - 1) == u64_bit(r, i - 1));
        lemma_agree_join(d, r, (i - 1) as u64, mask_below(i - 1), mask_below(i));
    }
}

/// Two distinct addresses have a first differing bit.
proof fn lemma_first_diff(x: u64, y: u64) -> (q: int)
    requires
        x != y,
    ensures
        0 <= q < 64,
        u64_bit(x, q) != u64_bit(y, q),
        forall|r: int| 0 <= r < q ==> u64_bit(x, r) == u64_bit(y, r),
{
    let q = lemma_first_diff_from(x, y, 0);
    q
}

proof fn lemma_first_diff_from(x: u64, y: u64, j: int) -> (q: int)
    requires
        0 <= j <= 64,
        x != y,
        forall|r: int| 0 <= r < j ==> u64_bit(x, r) == u64_bit(y, r),
    ensures
        j <= q < 64,
        u64_bit(x, q) != u64_bit(y, q),
        forall|r: int| 0 <= r < q ==> u64_bit(x, r) == u64_bit(y, r),
    decreases 64 - j,
{
    if j == 64 {
        lemma_bits_to_mask(x, y, 64);
        lemma_agree_full(x, y);
        64
    } else if u64_bit(x, j) != u64_bit(y, j) {
        j
    } else {
        lemma_first_diff_from(x, y, j + 1)
    }
}

/// Whether the devices of `devs` disagree at position `q` behind the
/// prefix of `a`: both branches of the trie are inhabited there.
pub open spec fn conflict_at(devs: Set<u64>, a: u64, q: int) -> bool {
    exists|e: u64|
        #[trigger] devs.contains(e) && agrees_below(e, a, q) && u64_bit(e, q) != u64_bit(a, q)
}

/// A search state accounts for every conflict of the bus: each position
/// where devices disagree behind the found address's prefix and the found
/// address carries the 0 (an unexplored 1 branch) is recorded in the
/// conflict mask, and the mask holds no position above its recorded
/// highest one.
pub open spec fn state_complete(devs: Set<u64>, st: SearchState) -> bool {
    &&& forall|q: int|
        0 <= q < 64 && !u64_bit(st.address, q) && #[trigger] conflict_at(devs, st.address, q)
            ==> u64_bit(st.discrepancies, q)
    &&& forall|q: int|
        (st.last_discrepancy_index as int) < q < 64 ==> !u64_bit(st.discrepancies, q)
}

/// A resumed pass from state `st`: follows the previous address below the
/// fork, takes the unexplored 1 branch at the fork (`y` names a device on
/// that branch), and continues least-first. The result is a device of the
/// 1 branch, strictly greater than the previous address in wire order.
/// When the previous mask held the fork bit alone and the 1 branch holds
/// exactly one device, the pass comes back with that device and a zero
/// conflict mask: the search is then exhausted.
proof fn lemma_sim_follow(
    devs: Set<u64>,
    st: SearchState,
    i: int,
    rom: u64,
    disc: u64,
    ld: u8,
    y: u64,
)
    requires
        0 <= i <= st.last_discrepancy_index,
        (st.last_discrepancy_index as int) < 64,
        agrees_below(st.address, rom, i),
        forall|j: int| i <= j < 64 ==> !u64_bit(rom, j),
        devs.contains(st.address),
        !u64_bit(st.address, st.last_discrepancy_index as int),
        devs.contains(y),
        agrees_below(y, st.address, st.last_discrepancy_index as int),
        u64_bit(y, st.last_discrepancy_index as int),
    ensures
        sim_pass(devs, Some(st), i, rom, disc, ld) is Some,
        ({
            let a = sim_pass(devs, Some(st), i, rom, disc, ld).unwrap().0;
            devs.contains(a) && agrees_below(a, st.address, st.last_discrepancy_index as int)
                && u64_bit(a, st.last_discrepancy_index as int) && wire_le_from(st.address, a, i)
                && a != st.address && forall|d: u64|
                #[trigger] devs.contains(d) && agrees_below(
                    d,
                    st.address,
                    st.last_discrepancy_index as int,
                ) && u64_bit(d, st.last_discrepancy_index as int) ==> wire_le_from(
                    a,
                    d,
                    st.last_discrepancy_index as int,
                )
        }),
        (st.discrepancies == 1u64 << (st.last_discrepancy_index as u64) && branch_singleton(
            devs,
            st.address | (1u64 << (st.last_discrepancy_index as u64)),
            st.last_discrepancy_index as int + 1,
        )) ==> sim_pass(devs, Some(st), i, rom, disc, ld) == Some((y, disc, ld)),
    decreases 64 - i,
{
    let p = st.last_discrepancy_index as int;
    let pu = st.last_discrepancy_index as u64;
    let iu = i as u64;
    let m = mask_below(i);
    let m1 = mask_below(i + 1);
    let ghost sa = st.address;
    lemma_mask_step(i);
    lemma_mask_bit_clear(iu, m);
    assert(!u64_bit(rom, i as int));
    lemma_bit_not_set(rom, iu);
    let resp = wired_response(devs, rom, i);
    let b1 = resp.0;
    let b2 = resp.1;
    if i == p {
        // the fork: the previous pass saw a conflict here, and both
        // branches are still inhabited, so the bus reports (0, 0)
        lemma_agree_trans(y, sa, rom, m);
        assert(devs.contains(y) && agrees_below(y, rom, i) && u64_bit(y, i));
        assert(devs.contains(sa) && agrees_below(sa, rom, i) && !u64_bit(sa, i));
        assert(!b1 && !b2);
        let rom2 = rom | (1u64 << iu);
        assert(fork_phase(Some(st), i) && !follow_phase(Some(st), i));
        assert(search_step(Some(st), i, rom, disc, ld, b1, b2) == Some((rom2, disc, ld)));
        lemma_agree_extend(y, rom, rom2, iu, m, m1, true);
        crate::search::lemma_u64_or_bit(rom, iu);
        assert forall|j: int| i + 1 <= j < 64 implies !u64_bit(rom2, j) by {
            let ju = j as u64;
            assert(!u64_bit(rom, j));
            assert(((rom | (1u64 << iu)) >> ju) & 1 == (rom >> ju) & 1);
        }
        lemma_sim_pass_least(devs, Some(st), i + 1, rom2, disc, ld);
        let a = sim_pass(devs, Some(st), i + 1, rom2, disc, ld).unwrap().0;
        // the result lies in the 1 branch above the previous address
        lemma_agree_narrow(a, rom, rom2, iu, m, m1, true);
        assert(agrees_below(a, rom, i) && u64_bit(a, i));
        lemma_agree_sym(sa, rom, m);
        lemma_agree_trans(a, rom, sa, m);
        assert(agrees_below(a, sa, p));
        assert forall|q: int| i <= q < p implies u64_bit(sa, q) == u64_bit(a, q) by {
            lemma_agree_bit(a, sa, p, q);
        }
        lemma_wire_decided(sa, a, i, p);
        assert forall|d: u64|
            #[trigger] devs.contains(d) && agrees_below(d, sa, p) && u64_bit(
                d,
                p,
            ) implies wire_le_from(a, d, p) by {
            lemma_agree_trans(d, sa, rom, m);
            lemma_agree_extend(d, rom, rom2, iu, m, m1, true);
            assert(wire_le_from(a, d, i + 1));
            assert(u64_bit(a, i) == u64_bit(d, i));
        }
        if st.discrepancies == 1u64 << pu && branch_singleton(devs, sa | (1u64 << pu), p + 1) {
            // the explored branch holds one device: walk straight to it
            lemma_bit_not_set(sa, pu);
            let ghost s1 = sa | (1u64 << pu);
            assert((s1 >> iu) & 1 == 1 && (s1 ^ sa) & m == 0) by (bit_vector)
                requires
                    iu < 64,
                    pu == iu,
                    m == (if iu == 0 {
                        0u64
                    } else {
                        ((1u64 << iu) - 1) as u64
                    }),
                    s1 == sa | (1u64 << pu),
                    (sa >> pu) & 1 == 0,
            ;
            lemma_agree_trans(s1, sa, rom, m);
            lemma_agree_extend(s1, rom, rom2, iu, m, m1, true);
            lemma_agree_sym(s1, rom2, m1);
            // the two prefixes rom2 and s1 coincide below and at the fork,
            // so their active branches coincide
            assert forall|d: u64, e: u64|
                #[trigger] devs.contains(d) && #[trigger] devs.contains(e) && agrees_below(
                    d,
                    rom2,
                    i + 1,
                ) && agrees_below(e, rom2, i + 1) implies d == e by {
                lemma_agree_trans(d, rom2, s1, m1);
                lemma_agree_trans(e, rom2, s1, m1);
            }
            lemma_agree_sym(s1, sa, m);
            lemma_agree_trans(y, sa, s1, m);
            let ghost ya = y;
            assert((ya ^ s1) & m1 == 0) by (bit_vector)
                requires
                    iu < 64,
                    m1 == m | (1u64 << iu),
                    (ya ^ s1) & m == 0,
                    (ya >> iu) & 1 == 1,
                    (s1 >> iu) & 1 == 1,
            ;
            lemma_agree_trans(y, s1, rom2, m1);
            lemma_sim_pass_singleton(devs, Some(st), i + 1, rom2, disc, ld, y);
        }
    } else {
        // follow the previous path: copy the previous address bit
        let b = u64_bit(sa, i);
        let rom2 = if b {
            rom | (1u64 << iu)
        } else {
            rom
        };
        assert(follow_phase(Some(st), i));
        let db = u64_bit(st.discrepancies, i);
        let disc2 = if db {
            disc | (1u64 << iu)
        } else {
            disc
        };
        let ld2 = if db {
            i as u8
        } else {
            ld
        };
        assert(search_step(Some(st), i, rom, disc, ld, b1, b2) == Some((rom2, disc2, ld2)));
        if !b {
            lemma_bit_not_set(sa, iu);
        }
        lemma_agree_extend(sa, rom, rom2, iu, m, m1, b);
        if b {
            crate::search::lemma_u64_or_bit(rom, iu);
        }
        assert forall|j: int| i + 1 <= j < 64 implies !u64_bit(rom2, j) by {
            let ju = j as u64;
            assert(!u64_bit(rom, j));
            if b {
                assert(((rom | (1u64 << iu)) >> ju) & 1 == (rom >> ju) & 1);
            }
        }
        lemma_sim_follow(devs, st, i + 1, rom2, disc2, ld2, y);
        let a = sim_pass(devs, Some(st), i + 1, rom2, disc2, ld2).unwrap().0;
        assert(wire_le_from(sa, a, i + 1));
        lemma_agree_bit(a, sa, p, i);
        assert(u64_bit(a, i) == u64_bit(sa, i));
        if st.discrepancies == 1u64 << pu && branch_singleton(devs, sa | (1u64 << pu), p + 1) {
            let ghost sd = st.discrepancies;
            assert((sd >> iu) & 1 == 0) by (bit_vector)
                requires
                    sd == 1u64 << pu,
                    iu < pu,
            ;
            assert(!db);
        }
    }
}

/// Law: a fresh search pass against any nonempty simulated bus succeeds
/// and yields the device whose address is least in wire order; every
/// device on the bus is at or above the result.
pub proof fn lemma_search_first_pass_least(devs: Set<u64>)
    requires
        exists|d: u64| #[trigger] devs.contains(d),
    ensures
        sim_pass(devs, None, 0, 0, 0, 0) is Some,
        ({
            let a = sim_pass(devs, None, 0, 0, 0, 0).unwrap().0;
            devs.contains(a) && forall|d: u64| #[trigger] devs.contains(d) ==> wire_le(a, d)
        }),
{
    let w = choose|d: u64| #[trigger] devs.contains(d);
    lemma_agree_zero(w);
    assert(agrees_below(w, 0, 0));
    assert(branch_nonempty(devs, 0, 0));
    assert forall|j: int| 0 <= j < 64 implies !u64_bit(0u64, j) by {
        let ju = j as u64;
        assert((0u64 >> ju) & 1 == 0) by (bit_vector);
    }
    lemma_sim_pass_least(devs, None, 0, 0u64, 0u64, 0u8);
    let a = sim_pass(devs, None, 0, 0, 0, 0).unwrap().0;
    assert forall|d: u64| #[trigger] devs.contains(d) implies wire_le(a, d) by {
        lemma_agree_zero(d);
        assert(agrees_below(d, 0, 0));
    }
}

/// Law: a resumed search pass, run against a bus that still holds the
/// previously found device and at least one device (`y`) on the
/// unexplored 1 branch of the highest recorded conflict, succeeds and
/// yields a device strictly greater in wire order than the previously
/// found address: successive passes enumerate addresses in ascending wire
/// order.
pub proof fn lemma_search_next_pass_ascends(devs: Set<u64>, st: SearchState, y: u64)
    requires
        (st.last_discrepancy_index as int) < 64,
        devs.contains(st.address),
        !u64_bit(st.address, st.last_discrepancy_index as int),
        devs.contains(y),
        agrees_below(y, st.address, st.last_discrepancy_index as int),
        u64_bit(y, st.last_discrepancy_index as int),
    ensures
        sim_pass(devs, Some(st), 0, 0, 0, 0) is Some,
        ({
            let a = sim_pass(devs, Some(st), 0, 0, 0, 0).unwrap().0;
            devs.contains(a) && wire_le(st.address, a) && a != st.address
        }),
{
    lemma_agree_zero(st.address);
    assert(agrees_below(st.address, 0u64, 0));
    assert forall|j: int| 0 <= j < 64 implies !u64_bit(0u64, j) by {
        let ju = j as u64;
        assert((0u64 >> ju) & 1 == 0) by (bit_vector);
    }
    lemma_sim_follow(devs, st, 0, 0u64, 0u64, 0u8, y);
}

proof fn lemma_pair_agree(x: u64, y: u64, pu: u64, iu: u64, m: u64)
    by (bit_vector)
    requires
        pu < 64,
        iu <= pu,
        x ^ y == 1u64 << pu,
        m == (if iu == 0 {
            0u64
        } else {
            ((1u64 << iu) - 1) as u64
        }),
    ensures
        (x ^ y) & m == 0,
        iu < pu ==> ((x >> iu) & 1 == 1) == ((y >> iu) & 1 == 1),
        ((x >> pu) & 1 == 0) ==> (y >> pu) & 1 == 1,
{
}

proof fn lemma_pair_fork_excludes(x: u64, pu: u64, m: u64, m1: u64)
    by (bit_vector)
    requires
        pu < 64,
        (x >> pu) & 1 == 0,
        m1 == m | (1u64 << pu),
    ensures
        !((x ^ (x | (1u64 << pu))) & m1 == 0),
{
}

proof fn lemma_or_zero(v: u64)
    by (bit_vector)
    ensures
        0u64 | v == v,
{
}

/// From step `i` at or below the single position `p` where the only two
/// active devices disagree, a pass walks the shared prefix, records the
/// one conflict at `p`, takes the 0 branch there, and ends at the device
/// carrying the 0: the returned mask holds bit `p` alone above the
/// accumulator.
proof fn lemma_sim_pass_pair(
    devs: Set<u64>,
    resume: Option<SearchState>,
    i: int,
    rom: u64,
    disc: u64,
    ld: u8,
    x: u64,
    y: u64,
    p: int,
)
    requires
        0 <= i <= p < 64,
        past_resume(resume, i),
        devs.contains(x),
        devs.contains(y),
        x ^ y == 1u64 << (p as u64),
        !u64_bit(x, p),
        agrees_below(x, rom, i),
        forall|d: u64|
            #[trigger] devs.contains(d) && agrees_below(d, rom, i) ==> d == x || d == y,
        forall|j: int| i <= j < 64 ==> !u64_bit(rom, j),
    ensures
        sim_pass(devs, resume, i, rom, disc, ld) == Some(
            (x, disc | (1u64 << (p as u64)), p as u8),
        ),
    decreases 64 - i,
{
    let iu = i as u64;
    let pu = p as u64;
    let m = mask_below(i);
    let m1 = mask_below(i + 1);
    lemma_mask_step(i);
    lemma_mask_bit_clear(iu, m);
    assert(!u64_bit(rom, i as int));
    lemma_bit_not_set(rom, iu);
    lemma_pair_agree(x, y, pu, iu, m);
    assert(agrees_below(y, rom, i)) by {
        lemma_agree_sym(x, y, m);
        lemma_agree_trans(y, x, rom, m);
    }
    let resp = wired_response(devs, rom, i);
    let b1 = resp.0;
    let b2 = resp.1;
    if i == p {
        // the single conflict: x answers with its 0, y with its 1
        assert(u64_bit(y, p)) by {
            lemma_bit_not_set(x, pu);
        }
        assert(!b1 && !b2);
        let disc2 = disc | (1u64 << iu);
        assert(search_step(resume, i, rom, disc, ld, b1, b2) == Some((rom, disc2, i as u8)));
        lemma_bit_not_set(x, iu);
        lemma_agree_extend(x, rom, rom, iu, m, m1, false);
        assert forall|d: u64, e: u64|
            #[trigger] devs.contains(d) && #[trigger] devs.contains(e) && agrees_below(
                d,
                rom,
                i + 1,
            ) && agrees_below(e, rom, i + 1) implies d == e by {
            lemma_agree_narrow(d, rom, rom, iu, m, m1, false);
            lemma_agree_narrow(e, rom, rom, iu, m, m1, false);
            assert(!u64_bit(d, i) && !u64_bit(e, i));
            assert(d == x || d == y);
            assert(e == x || e == y);
        }
        lemma_sim_pass_singleton(devs, resume, i + 1, rom, disc2, i as u8, x);
    } else {
        // the two devices still agree here: the response is unanimous
        let b = u64_bit(x, i);
        assert(u64_bit(y, i) == b);
        assert forall|d: u64|
            #[trigger] devs.contains(d) && agrees_below(d, rom, i) implies u64_bit(d, i)
            == b by {
            assert(d == x || d == y);
        }
        assert(b1 == !b);
        assert(b2 == b);
        let rom2 = if b {
            rom | (1u64 << iu)
        } else {
            rom
        };
        assert(search_step(resume, i, rom, disc, ld, b1, b2) == Some((rom2, disc, ld)));
        if !b {
            lemma_bit_not_set(x, iu);
        }
        lemma_agree_extend(x, rom, rom2, iu, m, m1, b);
        if b {
            crate::search::lemma_u64_or_bit(rom, iu);
        }
        assert forall|j: int| i + 1 <= j < 64 implies !u64_bit(rom2, j) by {
            let ju = j as u64;
            assert(!u64_bit(rom, j));
            if b {
                assert(((rom | (1u64 << iu)) >> ju) & 1 == (rom >> ju) & 1);
            }
        }
        assert forall|d: u64|
            #[trigger] devs.contains(d) && agrees_below(d, rom2, i + 1) implies d == x || d
            == y by {
            lemma_agree_narrow(d, rom, rom2, iu, m, m1, b);
        }
        lemma_sim_pass_pair(devs, resume, i + 1, rom2, disc, ld, x, y, p);
    }
}

/// Law: against a simulated two-device bus whose addresses disagree at a
/// single bit position, a fresh pass yields the device carrying the 0
/// there together with a conflict mask holding exactly that position, and
/// the resumed pass yields the other device with a zero mask: both
/// addresses are resolved, uncorrupted, in exactly two passes, after which
/// the search reports itself exhausted.
pub proof fn lemma_two_device_collision(devs: Set<u64>, x: u64, y: u64, p: int)
    requires
        0 <= p < 64,
        devs.contains(x),
        devs.contains(y),
        forall|d: u64| #[trigger] devs.contains(d) ==> d == x || d == y,
        x ^ y == 1u64 << (p as u64),
        !u64_bit(x, p),
    ensures
        sim_pass(devs, None, 0, 0u64, 0u64, 0u8) == Some((x, 1u64 << (p as u64), p as u8)),
        sim_pass(
            devs,
            Some(
                SearchState {
                    address: x,
                    discrepancies: 1u64 << (p as u64),
                    last_discrepancy_index: p as u8,
                },
            ),
            0,
            0u64,
            0u64,
            0u8,
        ) == Some((y, 0u64, 0u8)),
{
    let pu = p as u64;
    lemma_agree_zero(x);
    assert(agrees_below(x, 0u64, 0));
    assert forall|j: int| 0 <= j < 64 implies !u64_bit(0u64, j) by {
        let ju = j as u64;
        assert((0u64 >> ju) & 1 == 0) by (bit_vector);
    }
    assert forall|d: u64|
        #[trigger] devs.contains(d) && agrees_below(d, 0u64, 0) implies d == x || d == y by {}
    lemma_sim_pass_pair(devs, None, 0, 0u64, 0u64, 0u8, x, y, p);
    lemma_or_zero(1u64 << pu);

    // the resumed pass: y is the one device on the unexplored 1 branch
    let st = SearchState {
        address: x,
        discrepancies: 1u64 << pu,
        last_discrepancy_index: p as u8,
    };
    let mp = mask_below(p);
    let mp1 = mask_below(p + 1);
    lemma_mask_step(p);
    lemma_mask_bit_clear(pu, mp);
    lemma_pair_agree(x, y, pu, pu, mp);
    lemma_agree_sym(x, y, mp);
    assert(agrees_below(y, x, p));
    assert(u64_bit(y, p)) by {
        lemma_bit_not_set(x, pu);
        lemma_pair_agree(x, y, pu, pu, mp);
    }
    let s1 = x | (1u64 << pu);
    lemma_bit_not_set(x, pu);
    lemma_pair_fork_excludes(x, pu, mp, mp1);
    assert(!agrees_below(x, s1, p + 1));
    assert forall|d: u64, e: u64|
        #[trigger] devs.contains(d) && #[trigger] devs.contains(e) && agrees_below(d, s1, p + 1)
            && agrees_below(e, s1, p + 1) implies d == e by {
        assert(d == x || d == y);
        assert(e == x || e == y);
    }
    assert(branch_singleton(devs, s1, p + 1));
    lemma_sim_follow(devs, st, 0, 0u64, 0u64, 0u8, y);
}

/// Law: a resumed pass from a complete state yields the immediate
/// successor of the previously found address: a device of the bus,
/// strictly greater in wire order, and at or below every other device
/// that is strictly greater. Repeated passes therefore enumerate the
/// devices one by one, in ascending wire order, skipping none.
pub proof fn lemma_search_next_pass_successor(devs: Set<u64>, st: SearchState, y: u64)
    requires
        (st.last_discrepancy_index as int) < 64,
        devs.contains(st.address),
        !u64_bit(st.address, st.last_discrepancy_index as int),
        devs.contains(y),
        agrees_below(y, st.address, st.last_discrepancy_index as int),
        u64_bit(y, st.last_discrepancy_index as int),
        state_complete(devs, st),
    ensures
        sim_pass(devs, Some(st), 0, 0, 0, 0) is Some,
        ({
            let a = sim_pass(devs, Some(st), 0, 0, 0, 0).unwrap().0;
            devs.contains(a) && wire_le(st.address, a) && a != st.address && forall|d: u64|
                #[trigger] devs.contains(d) && wire_le(st.address, d) && d != st.address
                    ==> wire_le_from(a, d, 0)
        }),
{
    let sa = st.address;
    let p = st.last_discrepancy_index as int;
    lemma_agree_zero(sa);
    assert(agrees_below(sa, 0u64, 0));
    assert forall|j: int| 0 <= j < 64 implies !u64_bit(0u64, j) by {
        let ju = j as u64;
        assert((0u64 >> ju) & 1 == 0) by (bit_vector);
    }
    lemma_sim_follow(devs, st, 0, 0u64, 0u64, 0u8, y);
    let a = sim_pass(devs, Some(st), 0, 0, 0, 0).unwrap().0;
    assert forall|d: u64|
        #[trigger] devs.contains(d) && wire_le(sa, d) && d != sa implies wire_le_from(
        a,
        d,
        0,
    ) by {
        let q = lemma_first_diff(sa, d);
        lemma_wire_decided(sa, d, 0, q);
        assert(!u64_bit(sa, q));
        assert(u64_bit(d, q));
        // the first difference is an unexplored conflict, so it is
        // recorded in the mask, hence at or below the fork
        lemma_bits_to_mask(d, sa, q);
        assert(conflict_at(devs, sa, q));
        assert(u64_bit(st.discrepancies, q));
        assert(q <= p);
        if q == p {
            // d lies on the explored 1 branch: the result is its least
            assert(wire_le_from(a, d, p));
            assert forall|r: int| 0 <= r < p implies u64_bit(a, r) == u64_bit(d, r) by {
                lemma_agree_bit(a, sa, p, r);
                lemma_agree_bit(d, sa, p, r);
            }
            lemma_wire_shared_prefix(a, d, 0, p);
        } else {
            // the result follows the previous address through q, carrying
            // its 0 there, while d carries a 1
            lemma_agree_bit(a, sa, p, q);
            assert forall|r: int| 0 <= r < q implies u64_bit(a, r) == u64_bit(d, r) by {
                lemma_agree_bit(a, sa, p, r);
            }
            lemma_wire_decided(a, d, 0, q);
        }
    }
}

/// Law: when the conflict mask of a complete state is zero, no device of
/// the bus lies beyond the found address in wire order: the search is
/// exhausted, and the engine's next pass duly reports it so.
pub proof fn lemma_search_exhausted(devs: Set<u64>, st: SearchState)
    requires
        devs.contains(st.address),
        st.discrepancies == 0,
        state_complete(devs, st),
    ensures
        forall|d: u64| #[trigger] devs.contains(d) ==> wire_le(d, st.address),
{
    let sa = st.address;
    assert forall|d: u64| #[trigger] devs.contains(d) implies wire_le(d, sa) by {
        if d != sa {
            let q = lemma_first_diff(sa, d);
            if !u64_bit(sa, q) {
                // this would be an unexplored conflict, but the mask is zero
                lemma_bits_to_mask(d, sa, q);
                assert(conflict_at(devs, sa, q));
                assert(u64_bit(st.discrepancies, q));
                let sd = st.discrepancies;
                let qu = q as u64;
                assert(!((sd >> qu) & 1 == 1)) by (bit_vector)
                    requires
                        sd == 0u64,
                ;
            } else {
                // the previous address carries the 1 at the first
                // difference: d comes before it
                lemma_wire_decided(d, sa, 0, q);
            }
        } else {
            lemma_wire_shared_prefix(d, sa, 0, 64);
        }
    }
}

proof fn lemma_mask_mono_bv(q: u64, p: u64, mq: u64, mp: u64)
    by (bit_vector)
    requires
        q <= p,
        mq == (if q == 0 {
            0u64
        } else if q >= 64 {
            0xFFFF_FFFF_FFFF_FFFFu64
        } else {
            ((1u64 << q) - 1) as u64
        }),
        mp == (if p == 0 {
            0u64
        } else if p >= 64 {
            0xFFFF_FFFF_FFFF_FFFFu64
        } else {
            ((1u64 << p) - 1) as u64
        }),
    ensures
        mq & mp == mq,
{
}

proof fn lemma_agree_mono_bv(x: u64, mq: u64, mp: u64)
    by (bit_vector)
    requires
        mq & mp == mq,
        x & mp == 0,
    ensures
        x & mq == 0,
{
}

/// Agreement below `p` includes agreement below any `q <= p`.
proof fn lemma_agree_mono(a: u64, b: u64, q: int, p: int)
    requires
        0 <= q <= p <= 64,
        agrees_below(a, b, p),
    ensures
        agrees_below(a, b, q),
{
    lemma_mask_mono_bv(q as u64, p as u64, mask_below(q), mask_below(p));
    lemma_agree_mono_bv(a ^ b, mask_below(q), mask_below(p));
}

/// Whether a position below `p` is a conflict depends only on the prefix
/// below `p`: two addresses that agree there see the same conflicts.
proof fn lemma_conflict_congruent(devs: Set<u64>, a: u64, b: u64, p: int, q: int)
    requires
        0 <= q < p <= 64,
        agrees_below(a, b, p),
    ensures
        conflict_at(devs, a, q) == conflict_at(devs, b, q),
{
    lemma_agree_mono(a, b, q, p);
    lemma_agree_bit(a, b, p, q);
    if conflict_at(devs, a, q) {
        let e = choose|e: u64|
            #[trigger] devs.contains(e) && agrees_below(e, a, q) && u64_bit(e, q) != u64_bit(a, q);
        lemma_agree_trans(e, a, b, mask_below(q));
        assert(devs.contains(e) && agrees_below(e, b, q) && u64_bit(e, q) != u64_bit(b, q));
    }
    if conflict_at(devs, b, q) {
        let e = choose|e: u64|
            #[trigger] devs.contains(e) && agrees_below(e, b, q) && u64_bit(e, q) != u64_bit(b, q);
        lemma_agree_sym(a, b, mask_below(q));
        lemma_agree_trans(e, b, a, mask_below(q));
        assert(devs.contains(e) && agrees_below(e, a, q) && u64_bit(e, q) != u64_bit(a, q));
    }
}

/// The shape of the conflict mask a pass accumulates past the resume
/// phases: bits below `i` come through unchanged, a bit at or above `i`
/// is set exactly at the positions where the bus conflicted behind the
/// result's prefix and the 0 branch was taken, and no bit lies above the
/// returned highest-conflict index.
proof fn lemma_sim_pass_mask(
    devs: Set<u64>,
    resume: Option<SearchState>,
    i: int,
    rom: u64,
    disc: u64,
    ld: u8,
)
    requires
        0 <= i <= 64,
        past_resume(resume, i),
        branch_nonempty(devs, rom, i),
        forall|j: int| i <= j < 64 ==> !u64_bit(rom, j),
        forall|q: int| i <= q < 64 ==> !u64_bit(disc, q),
        forall|q: int| (ld as int) < q < 64 ==> !u64_bit(disc, q),
        (ld as int) < 64,
    ensures
        ({
            let t = sim_pass(devs, resume, i, rom, disc, ld).unwrap();
            sim_pass(devs, resume, i, rom, disc, ld) is Some && (forall|q: int|
                0 <= q < i ==> u64_bit(t.1, q) == u64_bit(disc, q)) && (forall|q: int|
                i <= q < 64 ==> (u64_bit(t.1, q) <==> (!u64_bit(t.0, q) && conflict_at(
                    devs,
                    t.0,
                    q,
                )))) && (forall|q: int| (t.2 as int) < q < 64 ==> !u64_bit(t.1, q)) && (
            t.2 as int) < 64
        }),
    decreases 64 - i,
{
    lemma_sim_pass_least(devs, resume, i, rom, disc, ld);
    if i == 64 {
    } else {
        let iu = i as u64;
        let m = mask_below(i);
        let m1 = mask_below(i + 1);
        lemma_mask_step(i);
        lemma_mask_bit_clear(iu, m);
        assert(!u64_bit(rom, i as int));
        lemma_bit_not_set(rom, iu);
        let resp = wired_response(devs, rom, i);
        let b1 = resp.0;
        let b2 = resp.1;
        let w = choose|d: u64| #[trigger] devs.contains(d) && agrees_below(d, rom, i);
        assert(!(b1 && b2));
        assert(!follow_phase(resume, i) && !fork_phase(resume, i));
        if !b1 && b2 {
            // unanimous 1: the mask is untouched and the result carries a 1
            let rom2 = rom | (1u64 << iu);
            assert(search_step(resume, i, rom, disc, ld, b1, b2) == Some((rom2, disc, ld)));
            assert(u64_bit(w, i));
            lemma_agree_extend(w, rom, rom2, iu, m, m1, true);
            crate::search::lemma_u64_or_bit(rom, iu);
            assert forall|j: int| i + 1 <= j < 64 implies !u64_bit(rom2, j) by {
                let ju = j as u64;
                assert(!u64_bit(rom, j));
                assert(((rom | (1u64 << iu)) >> ju) & 1 == (rom >> ju) & 1);
            }
            lemma_sim_pass_least(devs, resume, i + 1, rom2, disc, ld);
            lemma_sim_pass_mask(devs, resume, i + 1, rom2, disc, ld);
            let t = sim_pass(devs, resume, i + 1, rom2, disc, ld).unwrap();
            lemma_agree_narrow(t.0, rom, rom2, iu, m, m1, true);
            assert(u64_bit(t.0, i));
            assert(u64_bit(t.1, i) == u64_bit(disc, i));
            assert(!u64_bit(t.1, i));
        } else if b1 && !b2 {
            // unanimous 0: no device disagrees behind the result's prefix
            assert(search_step(resume, i, rom, disc, ld, b1, b2) == Some((rom, disc, ld)));
            assert(!u64_bit(w, i));
            lemma_bit_not_set(w, iu);
            lemma_agree_extend(w, rom, rom, iu, m, m1, false);
            lemma_sim_pass_least(devs, resume, i + 1, rom, disc, ld);
            lemma_sim_pass_mask(devs, resume, i + 1, rom, disc, ld);
            let t = sim_pass(devs, resume, i + 1, rom, disc, ld).unwrap();
            lemma_agree_narrow(t.0, rom, rom, iu, m, m1, false);
            assert(!u64_bit(t.0, i));
            assert(u64_bit(t.1, i) == u64_bit(disc, i));
            assert(!u64_bit(t.1, i));
            assert forall|e: u64|
                #[trigger] devs.contains(e) && agrees_below(e, t.0, i) implies u64_bit(e, i)
                == u64_bit(t.0, i) by {
                lemma_agree_mono(t.0, rom, i, i + 1);
                lemma_agree_trans(e, t.0, rom, m);
                assert(!u64_bit(e, i));
            }
            assert(!conflict_at(devs, t.0, i));
        } else {
            // conflict: the mask gains exactly this position
            let disc2 = disc | (1u64 << iu);
            assert(search_step(resume, i, rom, disc, ld, b1, b2) == Some((rom, disc2, i as u8)));
            let w0 = choose|d: u64|
                #[trigger] devs.contains(d) && agrees_below(d, rom, i) && !u64_bit(d, i);
            let w1 = choose|d: u64|
                #[trigger] devs.contains(d) && agrees_below(d, rom, i) && u64_bit(d, i);
            assert(devs.contains(w0) && agrees_below(w0, rom, i) && !u64_bit(w0, i));
            assert(devs.contains(w1) && agrees_below(w1, rom, i) && u64_bit(w1, i));
            lemma_bit_not_set(w0, iu);
            lemma_agree_extend(w0, rom, rom, iu, m, m1, false);
            crate::search::lemma_u64_or_bit(disc, iu);
            assert forall|q: int| i + 1 <= q < 64 implies !u64_bit(disc2, q) by {
                let qu = q as u64;
                assert(!u64_bit(disc, q));
                assert(((disc | (1u64 << iu)) >> qu) & 1 == (disc >> qu) & 1);
            }
            lemma_sim_pass_least(devs, resume, i + 1, rom, disc2, i as u8);
            lemma_sim_pass_mask(devs, resume, i + 1, rom, disc2, i as u8);
            let t = sim_pass(devs, resume, i + 1, rom, disc2, i as u8).unwrap();
            lemma_agree_narrow(t.0, rom, rom, iu, m, m1, false);
            assert(!u64_bit(t.0, i));
            assert(u64_bit(t.1, i) == u64_bit(disc2, i));
            assert(u64_bit(disc2, i));
            lemma_agree_mono(t.0, rom, i, i + 1);
            lemma_agree_sym(t.0, rom, m);
            lemma_agree_trans(w1, rom, t.0, m);
            assert(devs.contains(w1) && agrees_below(w1, t.0, i) && u64_bit(w1, i) != u64_bit(
                t.0,
                i,
            ));
            assert(conflict_at(devs, t.0, i));
            assert forall|q: int| 0 <= q < i implies u64_bit(t.1, q) == u64_bit(disc, q) by {
                let qu = q as u64;
                assert(u64_bit(t.1, q) == u64_bit(disc2, q));
                assert(((disc | (1u64 << iu)) >> qu) & 1 == (disc >> qu) & 1);
            }
        }
    }
}

/// The shape of the conflict mask a resumed pass accumulates: below the
/// fork it copies the previous mask, the fork bit itself comes back
/// cleared, and above the fork a bit is set exactly at the new conflicts
/// where the 0 branch was taken.
proof fn lemma_sim_follow_mask(
    devs: Set<u64>,
    st: SearchState,
    i: int,
    rom: u64,
    disc: u64,
    ld: u8,
    y: u64,
)
    requires
        0 <= i <= st.last_discrepancy_index,
        (st.last_discrepancy_index as int) < 64,
        agrees_below(st.address, rom, i),
        forall|j: int| i <= j < 64 ==> !u64_bit(rom, j),
        devs.contains(st.address),
        !u64_bit(st.address, st.last_discrepancy_index as int),
        devs.contains(y),
        agrees_below(y, st.address, st.last_discrepancy_index as int),
        u64_bit(y, st.last_discrepancy_index as int),
        forall|q: int| i <= q < 64 ==> !u64_bit(disc, q),
        forall|q: int| (ld as int) < q < 64 ==> !u64_bit(disc, q),
        (ld as int) < 64,
        forall|q: int| 0 <= q < i ==> u64_bit(disc, q) == u64_bit(st.discrepancies, q),
    ensures
        ({
            let t = sim_pass(devs, Some(st), i, rom, disc, ld).unwrap();
            sim_pass(devs, Some(st), i, rom, disc, ld) is Some && (forall|q: int|
                0 <= q < (st.last_discrepancy_index as int) ==> u64_bit(t.1, q) == u64_bit(
                    st.discrepancies,
                    q,
                )) && !u64_bit(t.1, st.last_discrepancy_index as int) && (forall|q: int|
                (st.last_discrepancy_index as int) < q < 64 ==> (u64_bit(t.1, q) <==> (!u64_bit(
                    t.0,
                    q,
                ) && conflict_at(devs, t.0, q)))) && (forall|q: int|
                (t.2 as int) < q < 64 ==> !u64_bit(t.1, q)) && (t.2 as int) < 64
        }),
    decreases 64 - i,
{
    let p = st.last_discrepancy_index as int;
    let pu = st.last_discrepancy_index as u64;
    let iu = i as u64;
    let m = mask_below(i);
    let m1 = mask_below(i + 1);
    let ghost sa = st.address;
    lemma_mask_step(i);
    lemma_mask_bit_clear(iu, m);
    assert(!u64_bit(rom, i as int));
    lemma_bit_not_set(rom, iu);
    let resp = wired_response(devs, rom, i);
    let b1 = resp.0;
    let b2 = resp.1;
    if i == p {
        // the fork behaves like a fresh step from here on
        lemma_agree_trans(y, sa, rom, m);
        assert(devs.contains(y) && agrees_below(y, rom, i) && u64_bit(y, i));
        assert(devs.contains(sa) && agrees_below(sa, rom, i) && !u64_bit(sa, i));
        assert(!b1 && !b2);
        let rom2 = rom | (1u64 << iu);
        assert(fork_phase(Some(st), i) && !follow_phase(Some(st), i));
        assert(search_step(Some(st), i, rom, disc, ld, b1, b2) == Some((rom2, disc, ld)));
        lemma_agree_extend(y, rom, rom2, iu, m, m1, true);
        crate::search::lemma_u64_or_bit(rom, iu);
        assert forall|j: int| i + 1 <= j < 64 implies !u64_bit(rom2, j) by {
            let ju = j as u64;
            assert(!u64_bit(rom, j));
            assert(((rom | (1u64 << iu)) >> ju) & 1 == (rom >> ju) & 1);
        }
        lemma_sim_pass_mask(devs, Some(st), i + 1, rom2, disc, ld);
        let t = sim_pass(devs, Some(st), i + 1, rom2, disc, ld).unwrap();
        assert(sim_pass(devs, Some(st), i, rom, disc, ld) == Some(t));
        assert forall|q: int| 0 <= q < p implies u64_bit(t.1, q) == u64_bit(
            st.discrepancies,
            q,
        ) by {
            assert(u64_bit(t.1, q) == u64_bit(disc, q));
        }
        assert(u64_bit(t.1, p) == u64_bit(disc, p));
        assert(!u64_bit(disc, p));
    } else {
        // follow: copy the previous address bit and mask bit
        let b = u64_bit(sa, i);
        let rom2 = if b {
            rom | (1u64 << iu)
        } else {
            rom
        };
        assert(follow_phase(Some(st), i));
        let db = u64_bit(st.discrepancies, i);
        let disc2 = if db {
            disc | (1u64 << iu)
        } else {
            disc
        };
        let ld2 = if db {
            i as u8
        } else {
            ld
        };
        assert(search_step(Some(st), i, rom, disc, ld, b1, b2) == Some((rom2, disc2, ld2)));
        if !b {
            lemma_bit_not_set(sa, iu);
        }
        lemma_agree_extend(sa, rom, rom2, iu, m, m1, b);
        if b {
            crate::search::lemma_u64_or_bit(rom, iu);
        }
        assert forall|j: int| i + 1 <= j < 64 implies !u64_bit(rom2, j) by {
            let ju = j as u64;
            assert(!u64_bit(rom, j));
            if b {
                assert(((rom | (1u64 << iu)) >> ju) & 1 == (rom >> ju) & 1);
            }
        }
        if db {
            crate::search::lemma_u64_or_bit(disc, iu);
            assert forall|q: int| i + 1 <= q < 64 implies !u64_bit(disc2, q) by {
                let qu = q as u64;
                assert(!u64_bit(disc, q));
                assert(((disc | (1u64 << iu)) >> qu) & 1 == (disc >> qu) & 1);
            }
            assert forall|q: int| 0 <= q < i implies u64_bit(disc2, q) == u64_bit(
                st.discrepancies,
                q,
            ) by {
                let qu = q as u64;
                assert(qu < 64 && qu != iu);
                assert(u64_bit(disc, q) == u64_bit(st.discrepancies, q));
                assert(((disc | (1u64 << iu)) >> qu) & 1 == (disc >> qu) & 1);
            }
            assert(u64_bit(disc2, i as int) == u64_bit(st.discrepancies, i as int));
        }
        lemma_sim_follow_mask(devs, st, i + 1, rom2, disc2, ld2, y);
    }
}

/// Law: the state a fresh pass returns is complete: its conflict mask
/// records exactly the positions where the bus disagreed behind the found
/// address and the 0 branch was taken, with nothing above the recorded
/// highest conflict. A complete state is what the successor and
/// exhaustion laws ask for, so successive passes enumerate the devices in
/// ascending wire order, skipping none, until the mask reaches zero.
pub proof fn lemma_search_first_pass_complete(devs: Set<u64>)
    requires
        exists|d: u64| #[trigger] devs.contains(d),
    ensures
        sim_pass(devs, None, 0, 0, 0, 0) is Some,
        ({
            let t = sim_pass(devs, None, 0, 0, 0, 0).unwrap();
            state_complete(
                devs,
                SearchState {
                    address: t.0,
                    discrepancies: t.1,
                    last_discrepancy_index: t.2,
                },
            )
        }),
{
    let w = choose|d: u64| #[trigger] devs.contains(d);
    lemma_agree_zero(w);
    assert(agrees_below(w, 0, 0));
    assert(branch_nonempty(devs, 0, 0));
    assert forall|j: int| 0 <= j < 64 implies !u64_bit(0u64, j) by {
        let ju = j as u64;
        assert((0u64 >> ju) & 1 == 0) by (bit_vector);
    }
    lemma_sim_pass_mask(devs, None, 0, 0u64, 0u64, 0u8);
}

/// Law: a resumed pass from a complete state returns a complete state
/// again: completeness of the conflict mask is an invariant of the
/// search, established by the first pass and preserved by every
/// subsequent one.
pub proof fn lemma_search_next_pass_complete(devs: Set<u64>, st: SearchState, y: u64)
    requires
        (st.last_discrepancy_index as int) < 64,
        devs.contains(st.address),
        !u64_bit(st.address, st.last_discrepancy_index as int),
        devs.contains(y),
        agrees_below(y, st.address, st.last_discrepancy_index as int),
        u64_bit(y, st.last_discrepancy_index as int),
        state_complete(devs, st),
    ensures
        sim_pass(devs, Some(st), 0, 0, 0, 0) is Some,
        ({
            let t = sim_pass(devs, Some(st), 0, 0, 0, 0).unwrap();
            state_complete(
                devs,
                SearchState {
                    address: t.0,
                    discrepancies: t.1,
                    last_discrepancy_index: t.2,
                },
            )
        }),
{
    let sa = st.address;
    let p = st.last_discrepancy_index as int;
    lemma_agree_zero(sa);
    assert(agrees_below(sa, 0u64, 0));
    assert forall|j: int| 0 <= j < 64 implies !u64_bit(0u64, j) by {
        let ju = j as u64;
        assert((0u64 >> ju) & 1 == 0) by (bit_vector);
    }
    lemma_sim_follow(devs, st, 0, 0u64, 0u64, 0u8, y);
    lemma_sim_follow_mask(devs, st, 0, 0u64, 0u64, 0u8, y);
    let t = sim_pass(devs, Some(st), 0, 0, 0, 0).unwrap();
    let a = t.0;
    assert forall|q: int|
        0 <= q < 64 && !u64_bit(a, q) && #[trigger] conflict_at(devs, a, q) implies u64_bit(
        t.1,
        q,
    ) by {
        if q < p {
            // below the fork the path and mask match the previous pass
            lemma_conflict_congruent(devs, a, sa, p, q);
            lemma_agree_bit(a, sa, p, q);
            assert(conflict_at(devs, sa, q) && !u64_bit(sa, q));
            assert(u64_bit(st.discrepancies, q));
        } else if q == p {
            assert(u64_bit(a, p));
        }
    }
}

/// The responses a simulated bus produces along a pass, in step order.
pub open spec fn sim_responses(
    devs: Set<u64>,
    resume: Option<SearchState>,
    i: int,
    rom: u64,
    disc: u64,
    ld: u8,
) -> Seq<(bool, bool)>
    decreases 64 - i,
{
    if i < 0 || i >= 64 {
        Seq::empty()
    } else {
        let r = wired_response(devs, rom, i);
        seq![(r.0, r.1)] + (match search_step(resume, i, rom, disc, ld, r.0, r.1) {
            None => Seq::empty(),
            Some(s) => sim_responses(devs, resume, i + 1, s.0, s.1, s.2),
        })
    }
}

proof fn lemma_fold_sim_rec(
    devs: Set<u64>,
    resume: Option<SearchState>,
    pre: Seq<(bool, bool)>,
    i: int,
    rom: u64,
    disc: u64,
    ld: u8,
)
    requires
        0 <= i <= 64,
        pre.len() == i,
        search_fold(resume, pre) == Some((rom, disc, ld)),
        sim_pass(devs, resume, i, rom, disc, ld) is Some,
    ensures
        ({
            let rest = sim_responses(devs, resume, i, rom, disc, ld);
            rest.len() == 64 - i && search_fold(resume, pre + rest) == sim_pass(
                devs,
                resume,
                i,
                rom,
                disc,
                ld,
            )
        }),
    decreases 64 - i,
{
    if i == 64 {
        assert(pre + sim_responses(devs, resume, i, rom, disc, ld) =~= pre);
    } else {
        let r = wired_response(devs, rom, i);
        let stepped = search_step(resume, i, rom, disc, ld, r.0, r.1);
        assert(stepped is Some);
        let s = stepped.unwrap();
        let pre2 = pre.push((r.0, r.1));
        assert(pre2.drop_last() =~= pre);
        assert(search_fold(resume, pre2) == Some(s));
        lemma_fold_sim_rec(devs, resume, pre2, i + 1, s.0, s.1, s.2);
        let rest2 = sim_responses(devs, resume, i + 1, s.0, s.1, s.2);
        assert(sim_responses(devs, resume, i, rom, disc, ld) =~= seq![(r.0, r.1)] + rest2);
        assert(pre + sim_responses(devs, resume, i, rom, disc, ld) =~= pre2 + rest2);
    }
}

/// Law: the response-stream fold that the driver's search contract speaks
/// of agrees with the simulated pass: when the bus's responses are the
/// wired-AND answers of a device set, folding them yields exactly what
/// `sim_pass` computes, so the ordering, successor and exhaustion laws
/// apply to the address and state the driver returns.
pub proof fn lemma_search_fold_matches_sim(devs: Set<u64>, resume: Option<SearchState>)
    requires
        sim_pass(devs, resume, 0, 0, 0, 0) is Some,
    ensures
        ({
            let resp = sim_responses(devs, resume, 0, 0u64, 0u64, 0u8);
            resp.len() == 64 && search_fold(resume, resp) == sim_pass(devs, resume, 0, 0, 0, 0)
        }),
{
    let pre = Seq::<(bool, bool)>::empty();
    assert(search_fold(resume, pre) == Some((0u64, 0u64, 0u8)));
    lemma_fold_sim_rec(devs, resume, pre, 0, 0u64, 0u64, 0u8);
    assert(pre + sim_responses(devs, resume, 0, 0u64, 0u64, 0u8) =~= sim_responses(
        devs,
        resume,
        0,
        0u64,
        0u64,
        0u8,
    ));
}

} // verus!
