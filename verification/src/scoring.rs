//! Scoring and the persistent high-score table.
//!
//! The score for one cascade of clears follows the shape
//! `ceil(5 * matched * (log_1.4(matched) + log_1.3(level)))`, computed
//! with a fixed-point base-two logarithm (1024 units per bit, with the
//! fraction linearly interpolated between powers of two) so that the
//! result is exact integer arithmetic: deliberately super-linear in the
//! number of matched blocks, and monotonic in both arguments.

use vstd::arithmetic::div_mod::{
    lemma_div_is_ordered, lemma_div_multiples_vanish, lemma_div_pos_is_pos,
    lemma_multiply_divide_lt,
};
use vstd::arithmetic::power2::{
    lemma2_to64, lemma2_to64_rest, lemma_pow2_pos, lemma_pow2_strictly_increases, lemma_pow2_unfold,
    pow2,
};
use vstd::prelude::*;

verus! {

/// Fixed-point units per whole unit of a logarithm.
pub const LOG_SCALE: u64 = 1024;

/// `1 / log2(1.4)` in fixed-point units: converts a base-two logarithm
/// into a base-1.4 logarithm.
pub const INV_LOG2_14: u64 = 2109;

/// `1 / log2(1.3)` in fixed-point units: converts a base-two logarithm
/// into a base-1.3 logarithm.
pub const INV_LOG2_13: u64 = 2705;

/// The whole part of the base-two logarithm.
pub open spec fn spec_floor_log2(m: nat) -> nat
    decreases m,
{
    if m < 2 {
        0
    } else {
        1 + spec_floor_log2((m / 2) as nat)
    }
}

/// The fixed-point base-two logarithm: 1024 units per bit, with the
/// fractional part linearly interpolated between consecutive powers of
/// two. Zero maps to zero.
pub open spec fn spec_lg2_fixed(m: nat) -> int {
    if m == 0 {
        0
    } else {
        let k = spec_floor_log2(m);
        1024 * k + (m - pow2(k)) * 1024 / pow2(k) as int
    }
}

pub open spec fn spec_term14(m: nat) -> int {
    spec_lg2_fixed(m) * INV_LOG2_14 / 1024
}

pub open spec fn spec_term13(l: nat) -> int {
    spec_lg2_fixed(l) * INV_LOG2_13 / 1024
}

/// The points awarded for clearing `m` blocks at level `l`: the
/// fixed-point logarithmic formula above, rounded up to whole points
/// and saturated at `u64::MAX`.
pub open spec fn spec_calculate_points(m: nat, l: nat) -> int {
    if m == 0 {
        0
    } else {
        let t = 5 * m * (spec_term14(m) + spec_term13(l));
        let p = (t + 1023) / 1024;
        if p > u64::MAX {
            u64::MAX as int
        } else {
            p
        }
    }
}

proof fn lemma_floor_log2_bounds(m: nat)
    requires
        1 <= m,
    ensures
        pow2(spec_floor_log2(m)) <= m < pow2(spec_floor_log2(m) + 1),
    decreases m,
{
    lemma2_to64();
    if m < 2 {
    } else {
        lemma_floor_log2_bounds((m / 2) as nat);
        let k = spec_floor_log2((m / 2) as nat);
        lemma_pow2_unfold(k + 1);
        lemma_pow2_unfold(k + 2);
    }
}

proof fn lemma_pow2_increases(e1: nat, e2: nat)
    requires
        e1 <= e2,
    ensures
        pow2(e1) <= pow2(e2),
{
    if e1 < e2 {
        lemma_pow2_strictly_increases(e1, e2);
    }
}

proof fn lemma_floor_log2_monotonic(a: nat, b: nat)
    requires
        1 <= a <= b,
    ensures
        spec_floor_log2(a) <= spec_floor_log2(b),
{
    lemma_floor_log2_bounds(a);
    lemma_floor_log2_bounds(b);
    if spec_floor_log2(a) > spec_floor_log2(b) {
        lemma_pow2_increases(spec_floor_log2(b) + 1, spec_floor_log2(a));
        assert(false);
    }
}

/// The fixed-point logarithm lies within its whole bit: between
/// `1024 * k` and `1024 * k + 1023` for `k` the floor logarithm.
proof fn lemma_lg2_fixed_bounds(m: nat)
    requires
        1 <= m,
    ensures
        1024 * spec_floor_log2(m) <= spec_lg2_fixed(m) <= 1024 * spec_floor_log2(m) + 1023,
{
    let k = spec_floor_log2(m);
    lemma_floor_log2_bounds(m);
    lemma_pow2_pos(k);
    let frac = (m - pow2(k)) * 1024 / pow2(k) as int;
    lemma_div_pos_is_pos((m - pow2(k)) * 1024, pow2(k) as int);
    lemma_pow2_unfold(k + 1);
    assert((m - pow2(k)) * 1024 < pow2(k) * 1024) by (nonlinear_arith)
        requires
            m - pow2(k) < pow2(k),
    ;
    lemma_multiply_divide_lt((m - pow2(k)) * 1024, pow2(k) as int, 1024);
}

proof fn lemma_lg2_fixed_monotonic(a: nat, b: nat)
    requires
        1 <= a <= b,
    ensures
        spec_lg2_fixed(a) <= spec_lg2_fixed(b),
{
    let ka = spec_floor_log2(a);
    let kb = spec_floor_log2(b);
    lemma_floor_log2_monotonic(a, b);
    lemma_lg2_fixed_bounds(a);
    lemma_lg2_fixed_bounds(b);
    if ka == kb {
        lemma_pow2_pos(ka);
        assert((a - pow2(ka)) * 1024 <= (b - pow2(ka)) * 1024) by (nonlinear_arith)
            requires
                a <= b,
        ;
        lemma_div_is_ordered((a - pow2(ka)) * 1024, (b - pow2(ka)) * 1024, pow2(ka) as int);
    }
}

/// The fixed-point logarithm of a 64-bit value fits in 16 bits.
proof fn lemma_lg2_fixed_range(m: nat)
    requires
        1 <= m <= u64::MAX,
    ensures
        0 <= spec_lg2_fixed(m) <= 65535,
        spec_floor_log2(m) <= 63,
{
    lemma_floor_log2_bounds(m);
    lemma_lg2_fixed_bounds(m);
    lemma2_to64();
    lemma2_to64_rest();
    if spec_floor_log2(m) > 63 {
        lemma_pow2_increases(64, spec_floor_log2(m));
        assert(false);
    }
}

/// The base-1.4 term for two or more matched blocks is at least the
/// term for exactly two, which the fixed-point logarithm gets exact.
proof fn lemma_term14_at_least_two(m: nat)
    requires
        2 <= m,
    ensures
        spec_term14(m) >= 2109,
{
    lemma2_to64();
    assert(spec_floor_log2(1) == 0);
    assert(spec_floor_log2(2) == 1);
    assert(spec_lg2_fixed(2) == 1024);
    lemma_lg2_fixed_monotonic(2, m);
    lemma_div_is_ordered(1024 * INV_LOG2_14, spec_lg2_fixed(m) * INV_LOG2_14, 1024);
    assert((1024 * (INV_LOG2_14 as int)) / 1024 == 2109) by {
        lemma_div_multiples_vanish(INV_LOG2_14 as int, 1024);
    }
}

/// The fixed-point base-two logarithm, executable form.
fn lg2_fixed(m: u64) -> (r: u64)
    requires
        1 <= m,
    ensures
        r == spec_lg2_fixed(m as nat),
        r <= 65535,
{
    proof {
        lemma_lg2_fixed_range(m as nat);
        lemma_floor_log2_bounds(m as nat);
    }
    let mut k: u64 = 0;
    let mut v: u64 = m;
    while v >= 2
        invariant
            1 <= v <= m,
            spec_floor_log2(m as nat) == k + spec_floor_log2(v as nat),
            k <= spec_floor_log2(m as nat),
            spec_floor_log2(m as nat) <= 63,
        decreases v,
    {
        v = v / 2;
        k = k + 1;
    }
    assert(k == spec_floor_log2(m as nat));
    let mut p: u64 = 1;
    let mut i: u64 = 0;
    proof {
        lemma2_to64();
    }
    while i < k
        invariant
            i <= k,
            p == pow2(i as nat),
            k == spec_floor_log2(m as nat),
            pow2(k as nat) <= m,
        decreases k - i,
    {
        proof {
            lemma_pow2_unfold(i as nat + 1);
            lemma_pow2_increases(i as nat + 1, k as nat);
        }
        p = p * 2;
        i = i + 1;
    }
    proof {
        lemma_pow2_pos(k as nat);
        lemma_pow2_unfold(k as nat + 1);
        lemma_div_pos_is_pos(((m - p) as int) * 1024, p as int);
        assert(((m - p) as int) * 1024 < (p as int) * 1024) by (nonlinear_arith)
            requires
                (m as int) - (p as int) < p as int,
        ;
        lemma_multiply_divide_lt(((m - p) as int) * 1024, p as int, 1024);
    }
    let frac = (((m - p) as u128) * 1024 / (p as u128)) as u64;
    proof {
        lemma_lg2_fixed_bounds(m as nat);
    }
    k * 1024 + frac
}

/// The points awarded for clearing `matched_blocks` blocks at `level`.
pub fn calculate_points(matched_blocks: u64, level: u64) -> (r: u64)
    ensures
        r == spec_calculate_points(matched_blocks as nat, level as nat),
{
    if matched_blocks == 0 {
        return 0;
    }
    proof {
        lemma_lg2_fixed_range(matched_blocks as nat);
    }
    let lg_m = lg2_fixed(matched_blocks);
    let term14 = lg_m * INV_LOG2_14 / 1024;
    let term13 = if level == 0 {
        0
    } else {
        proof {
            lemma_lg2_fixed_range(level as nat);
        }
        let lg_l = lg2_fixed(level);
        lg_l * INV_LOG2_13 / 1024
    };
    assert(term14 == spec_term14(matched_blocks as nat));
    assert(term13 == spec_term13(level as nat)) by {
        if level == 0 {
            assert(spec_lg2_fixed(0) == 0);
        }
    }
    proof {
        assert(term14 <= 134974) by {
            lemma_div_is_ordered(lg_m * INV_LOG2_14, 138213315int, 1024);
        }
        assert(term13 <= 173117) by {
            if level != 0 {
                lemma_div_is_ordered(spec_lg2_fixed(level as nat) * INV_LOG2_13, 177272175int, 1024);
            }
        }
        assert(5 * (matched_blocks as int) * ((term14 + term13) as int) <= 5 * 0xffff_ffff_ffff_ffff * 308091) by (nonlinear_arith)
            requires
                matched_blocks <= 0xffff_ffff_ffff_ffff,
                0 <= term14 + term13 <= 308091,
        ;
    }
    let t: u128 = 5u128 * (matched_blocks as u128) * ((term14 + term13) as u128);
    let p: u128 = (t + 1023) / 1024;
    if p > u64::MAX as u128 {
        u64::MAX
    } else {
        p as u64
    }
}

/// For a fixed level of at least one, clearing more blocks always
/// scores strictly more points, as long as neither score saturates
/// (both block counts and the level within 2^32 keep the formula far
/// below the saturation bound).
pub proof fn lemma_points_monotonic(m1: u64, m2: u64, level: u64)
    requires
        1 <= m1 < m2,
        1 <= level,
        m2 <= 0x1_0000_0000,
        level <= 0x1_0000_0000,
    ensures
        spec_calculate_points(m1 as nat, level as nat) < spec_calculate_points(
            m2 as nat,
            level as nat,
        ),
{
    let a1 = spec_term14(m1 as nat);
    let a2 = spec_term14(m2 as nat);
    let b = spec_term13(level as nat);
    lemma_lg2_fixed_range(m1 as nat);
    lemma_lg2_fixed_range(m2 as nat);
    lemma_lg2_fixed_range(level as nat);
    lemma_lg2_fixed_monotonic(m1 as nat, m2 as nat);
    lemma_div_is_ordered(
        spec_lg2_fixed(m1 as nat) * INV_LOG2_14,
        spec_lg2_fixed(m2 as nat) * INV_LOG2_14,
        1024,
    );
    lemma_div_pos_is_pos(spec_lg2_fixed(m1 as nat) * INV_LOG2_14, 1024);
    lemma_div_pos_is_pos(spec_lg2_fixed(level as nat) * INV_LOG2_13, 1024);
    assert(a1 <= a2);
    assert(0 <= a1 && 0 <= b);
    // the fixed-point logarithm is exact at powers of two, so the term
    // for two or more blocks is at least the term for exactly two
    lemma_term14_at_least_two(m2 as nat);
    assert(a2 >= 2109);
    let t1 = 5 * m1 * (a1 + b);
    let t2 = 5 * m2 * (a2 + b);
    // the scaled totals differ by at least one whole point
    assert(t1 + 1024 <= t2) by {
        if m1 == 1 {
            assert(spec_lg2_fixed(1) == 0) by {
                assert(spec_floor_log2(1) == 0);
                lemma2_to64();
            }
            assert(a1 == 0);
            assert(t1 == 5 * b);
            assert(t2 >= 10 * a2 + 10 * b) by (nonlinear_arith)
                requires
                    t2 == 5 * m2 * (a2 + b),
                    m2 >= 2,
                    a2 >= 0,
                    b >= 0,
            ;
        } else {
            lemma_term14_at_least_two(m1 as nat);
            assert(a1 >= 2109);
            assert(t2 - t1 >= 5 * (a1 + b)) by (nonlinear_arith)
                requires
                    t1 == 5 * m1 * (a1 + b),
                    t2 == 5 * m2 * (a2 + b),
                    m2 > m1 >= 1,
                    a2 >= a1,
                    b >= 0,
                    a1 >= 0,
            ;
        }
    }
    // rounding up keeps a gap of a whole scale unit strict
    assert((t1 + 1023) / 1024 < (t2 + 1023) / 1024) by {
        lemma_div_is_ordered(t1 + 1023 + 1024, t2 + 1023, 1024);
        assert((t1 + 1023 + 1024) / 1024 == (t1 + 1023) / 1024 + 1) by {
            vstd::arithmetic::div_mod::lemma_div_plus_one(t1 + 1023, 1024);
        }
    }
    // neither side saturates under the required bounds
    assert(a2 <= 69595) by {
        assert(spec_lg2_fixed(m2 as nat) <= 33791) by {
            lemma_lg2_fixed_bounds(m2 as nat);
            if spec_floor_log2(m2 as nat) > 32 {
                lemma_floor_log2_bounds(m2 as nat);
                lemma_pow2_increases(33, spec_floor_log2(m2 as nat));
                lemma2_to64_rest();
                assert(false);
            }
        }
        lemma_div_is_ordered(spec_lg2_fixed(m2 as nat) * INV_LOG2_14, 71265219int, 1024);
    }
    assert(b <= 89262) by {
        assert(spec_lg2_fixed(level as nat) <= 33791) by {
            lemma_lg2_fixed_bounds(level as nat);
            if spec_floor_log2(level as nat) > 32 {
                lemma_floor_log2_bounds(level as nat);
                lemma_pow2_increases(33, spec_floor_log2(level as nat));
                lemma2_to64_rest();
                assert(false);
            }
        }
        lemma_div_is_ordered(spec_lg2_fixed(level as nat) * INV_LOG2_13, 91404655int, 1024);
    }
    assert(0 <= t2 && t2 + 1023 < u64::MAX) by (nonlinear_arith)
        requires
            t2 == 5 * m2 * (a2 + b),
            1 <= m2 <= 0x1_0000_0000,
            0 <= a2 <= 69595,
            0 <= b <= 89262,
    ;
    vstd::arithmetic::div_mod::lemma_div_is_strictly_smaller(t2 + 1023, 1024);
    assert((t2 + 1023) / 1024 < t2 + 1023);
    assert((t2 + 1023) / 1024 <= u64::MAX);
    lemma_div_pos_is_pos(t1 + 1023, 1024);
}

/// One high-score entry: total score, level reached, and a
/// three-character player handle.
#[derive(Clone, Copy, Debug)]
pub struct HighScore {
    pub score: u64,
    pub level: u64,
    pub handle: [char; 3],
}

/// The persistent high-score table: a list of entries ordered by
/// descending score (equal scores keep earlier entries ahead), plus the
/// most recently inserted entry.
#[derive(Clone, Debug)]
pub struct HighScoresTable {
    scores: Vec<HighScore>,
    prev_score: Option<HighScore>,
}

impl View for HighScoresTable {
    type V = Seq<HighScore>;

    closed spec fn view(&self) -> Seq<HighScore> {
        self.scores@
    }
}

impl HighScoresTable {
    /// The most recently inserted entry, if any.
    pub closed spec fn spec_prev(self) -> Option<HighScore> {
        self.prev_score
    }

    /// Entries are ordered by descending score.
    pub open spec fn wf(self) -> bool {
        forall|i: int, j: int|
            0 <= i < j < self@.len() ==> (#[trigger] self@[i]).score >= (#[trigger] self@[j]).score
    }

    pub fn new() -> (r: HighScoresTable)
        ensures
            r@ == Seq::<HighScore>::empty(),
            r.spec_prev() is None,
            r.wf(),
    {
        HighScoresTable { scores: Vec::new(), prev_score: None }
    }

    /// All entries, best first.
    pub fn list(&self) -> (r: &Vec<HighScore>)
        ensures
            r@ == self@,
    {
        &self.scores
    }

    /// The highest-scoring entry, if the table is not empty.
    pub fn best(&self) -> (r: Option<&HighScore>)
        ensures
            self@.len() == 0 ==> r is None,
            self@.len() > 0 ==> (r matches Some(h) && *h == self@[0]),
    {
        if self.scores.is_empty() {
            None
        } else {
            Some(&self.scores[0])
        }
    }

    /// The first index whose entry scores less than `h` — where `h`
    /// would be inserted, keeping equal scores stably ahead of it.
    pub fn find_position(&self, h: &HighScore) -> (r: usize)
        ensures
            r <= self@.len(),
            forall|i: int| 0 <= i < r ==> (#[trigger] self@[i]).score >= h.score,
            r < self@.len() ==> self@[r as int].score < h.score,
    {
        let n = self.scores.len();
        let mut idx: usize = 0;
        while idx < n
            invariant
                n == self@.len(),
                idx <= n,
                forall|i: int| 0 <= i < idx ==> (#[trigger] self@[i]).score >= h.score,
            decreases n - idx,
        {
            if self.scores[idx].score < h.score {
                return idx;
            }
            idx = idx + 1;
        }
        n
    }

    /// Inserts `h` at the first position whose entry scores less than
    /// `h`, so that the descending order is kept and an entry with an
    /// equal score stays behind the existing ones; records `h` as the
    /// most recent entry and returns the insertion index.
    pub fn insert(&mut self, h: HighScore) -> (idx: usize)
        requires
            old(self).wf(),
        ensures
            final(self).wf(),
            idx <= old(self)@.len(),
            final(self)@ == old(self)@.insert(idx as int, h),
            final(self).spec_prev() == Some(h),
            forall|i: int| 0 <= i < idx ==> (#[trigger] old(self)@[i]).score >= h.score,
            idx < old(self)@.len() ==> old(self)@[idx as int].score < h.score,
    {
        let index = self.find_position(&h);
        self.prev_score = Some(h);
        self.scores.insert(index, h);
        proof {
            let new = self@;
            let olds = old(self)@;
            assert forall|i: int, j: int| 0 <= i < j < new.len() implies (
            #[trigger] new[i]).score >= (#[trigger] new[j]).score by {
                assert(new == olds.insert(index as int, h));
                if i < index {
                    assert(new[i] == olds[i]);
                } else if i == index {
                    assert(new[i] == h);
                } else {
                    assert(new[i] == olds[i - 1]);
                }
                if j < index {
                    assert(new[j] == olds[j]);
                } else if j == index {
                    assert(new[j] == h);
                } else {
                    assert(new[j] == olds[j - 1]);
                }
            }
        }
        index
    }

    /// The most recently inserted entry, if any.
    pub fn prev(&self) -> (r: &Option<HighScore>)
        ensures
            *r == self.spec_prev(),
    {
        &self.prev_score
    }

    /// Rebuilds a table from its persisted parts: the entries, best
    /// first, and the most recently inserted entry. Entries that are
    /// not in descending score order are rejected.
    pub fn restore(entries: Vec<HighScore>, prev: Option<HighScore>) -> (r: Option<
        HighScoresTable,
    >)
        ensures
            r is Some <==> (forall|i: int, j: int|
                0 <= i < j < entries@.len() ==> (#[trigger] entries@[i]).score
                    >= (#[trigger] entries@[j]).score),
            r matches Some(t) ==> {
                &&& t.wf()
                &&& t@ == entries@
                &&& t.spec_prev() == prev
            },
    {
        let n = entries.len();
        let mut i: usize = 1;
        while i < n
            invariant
                n == entries@.len(),
                1 <= i,
                forall|a: int, b: int|
                    0 <= a < b < i ==> (#[trigger] entries@[a]).score
                        >= (#[trigger] entries@[b]).score,
            decreases n - i,
        {
            if entries[i - 1].score < entries[i].score {
                proof {
                    assert(entries@[i - 1].score < entries@[i as int].score);
                }
                return None;
            }
            i = i + 1;
        }
        Some(HighScoresTable { scores: entries, prev_score: prev })
    }
}

} // verus!
