//! Residency-weighted frequency and utilization of one performance-state channel.
use vstd::prelude::*;
use crate::text::str_eq;

verus! {

/// Parts per million: the scale of utilization fractions.
pub const PPM: u32 = 1_000_000;

/// One performance state of a channel and the ticks it accrued in the window.
pub struct ResidencyState {
    pub name: String,
    pub ticks: i64,
}

/// Frequency in MHz and utilization in parts per million of one channel or cluster.
#[derive(Clone, Copy, Debug, PartialEq, Eq, Structural)]
pub struct Usage {
    pub freq_mhz: u32,
    pub util_ppm: u32,
}

/// Ticks of a state; a negative count, which a monotone counter never yields,
/// counts as zero.
pub open spec fn tick(s: ResidencyState) -> int {
    if s.ticks < 0 {
        0
    } else {
        s.ticks as int
    }
}

/// Sum of the ticks of states `lo .. hi`.
pub open spec fn sum_ticks(st: Seq<ResidencyState>, lo: int, hi: int) -> int
    decreases hi - lo,
{
    if hi <= lo {
        0
    } else {
        sum_ticks(st, lo, hi - 1) + tick(st[hi - 1])
    }
}

/// The idle and parked markers: `IDLE`, `DOWN` and `OFF`.
pub open spec fn is_idle_name(n: Seq<char>) -> bool {
    n == seq!['I', 'D', 'L', 'E'] || n == seq!['D', 'O', 'W', 'N'] || n == seq!['O', 'F', 'F']
}

/// Index of the first state at or after `i` that is not idle; 0 when there is none.
pub open spec fn first_active_from(st: Seq<ResidencyState>, i: int) -> int
    decreases st.len() - i,
{
    if i < 0 || i >= st.len() {
        0
    } else if !is_idle_name(st[i].name@) {
        i
    } else {
        first_active_from(st, i + 1)
    }
}

/// The offset: index of the first state that is not idle, or 0.
pub open spec fn active_offset(st: Seq<ResidencyState>) -> int {
    first_active_from(st, 0)
}

/// Sum over `i < k` of the ticks of state `off + i` times ladder entry `i`.
pub open spec fn weighted_sum(st: Seq<ResidencyState>, ladder: Seq<u32>, off: int, k: int) -> int
    decreases k,
{
    if k <= 0 {
        0
    } else {
        weighted_sum(st, ladder, off, k - 1) + tick(st[off + k - 1]) * ladder[k - 1]
    }
}

/// How many ladder entries line up with states from the offset on.
pub open spec fn paired_len(st: Seq<ResidencyState>, ladder: Seq<u32>, off: int) -> int {
    if ladder.len() < st.len() - off {
        ladder.len() as int
    } else {
        st.len() - off
    }
}

/// Frequency and utilization of a channel against its ladder. With `active`
/// the ticks from the offset on, `total` all ticks and `w` the ticks-weighted
/// ladder sum, the frequency is `w / active` rounded down and the utilization is
/// `max(w / active, ladder[0]) * (active / total) / ladder[last]`, at most 1,
/// in parts per million rounded down. No activity or no ladder gives zeros.
pub open spec fn calc_freq_spec(st: Seq<ResidencyState>, ladder: Seq<u32>) -> (int, int) {
    let off = active_offset(st);
    let active = sum_ticks(st, off, st.len() as int);
    let total = sum_ticks(st, 0, st.len() as int);
    if active == 0 || total == 0 || ladder.len() == 0 {
        (0, 0)
    } else {
        let w = weighted_sum(st, ladder, off, paired_len(st, ladder, off));
        let floor = ladder[0] * active;
        let x = if w > floor {
            w
        } else {
            floor
        };
        let d = total * ladder[ladder.len() - 1];
        let util = if d == 0 {
            0
        } else if x > d {
            PPM as int
        } else {
            x * PPM / d
        };
        (w / active, util)
    }
}

/// Sum of the ticks of all states.
pub open spec fn total_ticks_spec(st: Seq<ResidencyState>) -> int {
    sum_ticks(st, 0, st.len() as int)
}

proof fn lemma_sum_ticks_bounds(st: Seq<ResidencyState>, lo: int, hi: int)
    requires
        0 <= lo <= hi <= st.len(),
    ensures
        0 <= sum_ticks(st, lo, hi) <= (hi - lo) * 0x8000_0000_0000_0000,
    decreases hi - lo,
{
    if hi > lo {
        lemma_sum_ticks_bounds(st, lo, hi - 1);
    }
}

proof fn lemma_sum_ticks_split(st: Seq<ResidencyState>, lo: int, mid: int, hi: int)
    requires
        0 <= lo <= mid <= hi <= st.len(),
    ensures
        sum_ticks(st, lo, hi) == sum_ticks(st, lo, mid) + sum_ticks(st, mid, hi),
    decreases hi - mid,
{
    if hi > mid {
        lemma_sum_ticks_split(st, lo, mid, hi - 1);
    }
}

proof fn lemma_weighted_bound(st: Seq<ResidencyState>, ladder: Seq<u32>, off: int, k: int)
    requires
        0 <= off,
        0 <= k,
        off + k <= st.len(),
        k <= ladder.len(),
    ensures
        0 <= weighted_sum(st, ladder, off, k) <= sum_ticks(st, off, off + k) * 0xFFFF_FFFF,
    decreases k,
{
    if k > 0 {
        lemma_weighted_bound(st, ladder, off, k - 1);
        let t = tick(st[off + k - 1]);
        let l = ladder[k - 1] as int;
        assert(0 <= t * l <= t * 0xFFFF_FFFF) by (nonlinear_arith)
            requires
                0 <= t,
                0 <= l <= 0xFFFF_FFFF,
        ;
    }
}

/// Whether a state name is an idle or parked marker.
fn is_idle(name: &String) -> (r: bool)
    ensures
        r == is_idle_name(name@),
{
    proof {
        reveal_strlit("IDLE");
        reveal_strlit("DOWN");
        reveal_strlit("OFF");
        assert("IDLE"@ =~= seq!['I', 'D', 'L', 'E']);
        assert("DOWN"@ =~= seq!['D', 'O', 'W', 'N']);
        assert("OFF"@ =~= seq!['O', 'F', 'F']);
    }
    str_eq(name.as_str(), "IDLE") || str_eq(name.as_str(), "DOWN") || str_eq(name.as_str(), "OFF")
}

/// Index of the first state that is not idle, or 0 when all are idle.
pub fn find_active_offset(states: &[ResidencyState]) -> (r: usize)
    ensures
        r == active_offset(states@),
        r == 0 || r < states@.len(),
{
    let mut i: usize = 0;
    while i < states.len()
        invariant
            i <= states@.len(),
            first_active_from(states@, 0) == first_active_from(states@, i as int),
        decreases states@.len() - i,
    {
        if !is_idle(&states[i].name) {
            return i;
        }
        i += 1;
    }
    0
}

fn sum_from(states: &[ResidencyState], lo: usize) -> (r: u128)
    requires
        lo <= states@.len(),
    ensures
        r == sum_ticks(states@, lo as int, states@.len() as int),
{
    let mut acc: u128 = 0;
    let mut i: usize = lo;
    while i < states.len()
        invariant
            lo <= i <= states@.len(),
            acc == sum_ticks(states@, lo as int, i as int),
        decreases states@.len() - i,
    {
        proof {
            lemma_sum_ticks_bounds(states@, lo as int, i + 1);
            assert((i + 1 - lo) * 0x8000_0000_0000_0000 <= 0x1_0000_0000_0000_0000 * 0x8000_0000_0000_0000)
                by (nonlinear_arith)
                requires
                    i + 1 - lo <= 0x1_0000_0000_0000_0000,
            ;
        }
        let t = states[i].ticks;
        if t > 0 {
            acc = acc + t as u128;
        }
        i += 1;
    }
    acc
}

/// Sum of the ticks of all states, or `None` when it does not fit in 64 bits.
pub fn total_ticks(states: &[ResidencyState]) -> (r: Option<u64>)
    ensures
        r matches Some(t) ==> t == total_ticks_spec(states@),
        r is None <==> total_ticks_spec(states@) > u64::MAX,
{
    let s = sum_from(states, 0);
    if s > u64::MAX as u128 {
        None
    } else {
        Some(s as u64)
    }
}

/// Residency-weighted average frequency and utilization of one channel (see
/// `calc_freq_spec`). States from the offset on line up with ladder entries
/// from index 0.
pub fn calc_freq(states: &[ResidencyState], ladder: &[u32]) -> (r: Usage)
    requires
        total_ticks_spec(states@) <= u64::MAX,
    ensures
        r.freq_mhz as int == calc_freq_spec(states@, ladder@).0,
        r.util_ppm as int == calc_freq_spec(states@, ladder@).1,
        r.util_ppm <= PPM,
{
    let st = Ghost(states@);
    let off = find_active_offset(states);
    let active = sum_from(states, off);
    let total = sum_from(states, 0);
    proof {
        lemma_sum_ticks_split(st@, 0, off as int, st@.len() as int);
        lemma_sum_ticks_bounds(st@, 0, off as int);
        lemma_sum_ticks_bounds(st@, off as int, st@.len() as int);
    }
    if active == 0 || total == 0 || ladder.len() == 0 {
        return Usage { freq_mhz: 0, util_ppm: 0 };
    }
    let n = states.len();
    let k: usize = if ladder.len() < n - off {
        ladder.len()
    } else {
        n - off
    };
    let mut w: u128 = 0;
    let mut i: usize = 0;
    while i < k
        invariant
            k == paired_len(st@, ladder@, off as int),
            st@ == states@,
            n == states@.len(),
            k <= ladder@.len(),
            off + k <= states@.len(),
            i <= k,
            w == weighted_sum(states@, ladder@, off as int, i as int),
            sum_ticks(states@, off as int, states@.len() as int) == active,
            active <= u64::MAX,
        decreases k - i,
    {
        proof {
            lemma_weighted_bound(states@, ladder@, off as int, i + 1);
            lemma_sum_ticks_split(states@, off as int, off + i + 1, states@.len() as int);
            lemma_sum_ticks_bounds(states@, off + i + 1, states@.len() as int);
            assert(sum_ticks(states@, off as int, off + i + 1) * 0xFFFF_FFFF <= u64::MAX as int * 0xFFFF_FFFF)
                by (nonlinear_arith)
                requires
                    sum_ticks(states@, off as int, off + i + 1) <= u64::MAX,
            ;
        }
        let t = states[off + i].ticks;
        if t > 0 {
            proof {
                assert(t as int * ladder@[i as int] as int <= u64::MAX as int * 0xFFFF_FFFF) by (nonlinear_arith)
                    requires
                        0 < t <= u64::MAX,
                        ladder@[i as int] <= 0xFFFF_FFFF,
                ;
            }
            w = w + (t as u128) * (ladder[i] as u128);
        }
        i += 1;
    }
    proof {
        lemma_weighted_bound(states@, ladder@, off as int, k as int);
        lemma_sum_ticks_split(states@, off as int, off + k, states@.len() as int);
        lemma_sum_ticks_bounds(states@, off + k, states@.len() as int);
        assert(w as int / active as int <= 0xFFFF_FFFF) by (nonlinear_arith)
            requires
                w <= sum_ticks(states@, off as int, off + k) * 0xFFFF_FFFF,
                sum_ticks(states@, off as int, off + k) <= active,
                active > 0,
        ;
        assert(w <= u64::MAX as int * 0xFFFF_FFFF) by (nonlinear_arith)
            requires
                w <= sum_ticks(states@, off as int, off + k) * 0xFFFF_FFFF,
                sum_ticks(states@, off as int, off + k) <= active,
                active <= u64::MAX,
        ;
    }
    let freq = (w / active) as u32;
    let lo = ladder[0] as u128;
    let hi = ladder[ladder.len() - 1] as u128;
    proof {
        assert(lo * active <= 0xFFFF_FFFF * u64::MAX as int) by (nonlinear_arith)
            requires
                lo <= 0xFFFF_FFFF,
                active <= u64::MAX,
        ;
        assert(total * hi <= u64::MAX as int * 0xFFFF_FFFF) by (nonlinear_arith)
            requires
                hi <= 0xFFFF_FFFF,
                total <= u64::MAX,
        ;
    }
    let floor = lo * active;
    let x = if w > floor {
        w
    } else {
        floor
    };
    let d = total * hi;
    let util: u32 = if d == 0 {
        0
    } else if x > d {
        PPM
    } else {
        proof {
            assert(x as int * 1_000_000 / d as int <= 1_000_000) by (nonlinear_arith)
                requires
                    x <= d,
                    d > 0,
            ;
        }
        ((x * 1_000_000) / d) as u32
    };
    Usage { freq_mhz: freq, util_ppm: util }
}

} // verus!
