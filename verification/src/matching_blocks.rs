//! The matching phase: a short highlight pulse over the discovered
//! match set, after which the matched cells are cleared, burst
//! descriptors are emitted, and the exploding pause begins.

use vstd::prelude::*;

use crate::board::{Block, Board};
use crate::game_loop::{CommonState, Commands, GamePhase, PuffSeed, SoundCue};
use crate::input::InputState;
use crate::timer::Timer;

verus! {

pub struct MatchingBlocks {
    pub common: CommonState,
    pub timer: Timer,
    /// Highlight blend progress, in milli-units.
    pub h_s: u64,
    pub match_count: u64,
    pub current_matches: Vec<([usize; 2], Block)>,
}

/// The grid after clearing every coordinate that the match list names.
pub open spec fn spec_cleared_grid(b: Board, ms: Seq<([usize; 2], Block)>) -> Seq<
    Seq<Option<Block>>,
> {
    Seq::new(
        b.spec_x_len(),
        |x: int|
            Seq::new(
                b.spec_y_len(),
                |y: int|
                    if exists|k: int|
                        0 <= k < ms.len() && (#[trigger] ms[k]).0[0] == x && ms[k].0[1] == y {
                        None
                    } else {
                        b.cell(x, y)
                    },
            ),
    )
}

impl MatchingBlocks {
    pub open spec fn wf(self) -> bool {
        &&& self.common.wf()
        &&& forall|k: int|
            0 <= k < self.current_matches@.len() ==> self.common.board.in_bounds(
                (#[trigger] self.current_matches@[k]).0[0] as int,
                self.current_matches@[k].0[1] as int,
            )
    }

    pub open spec fn spec_elapsed(self, dt: u64) -> bool {
        self.timer.spec_counted_down(dt) <= 0
    }

    /// Everything one tick of the highlight pulse does, as a relation
    /// between the incoming and outgoing command accumulators and the
    /// next phase: while the timer runs the blend advances; when it
    /// elapses, a clear sound plays (if anything matched), one burst
    /// descriptor per matched cell is emitted, the matched cells are
    /// cleared, the cleared count joins the cascade total, and the
    /// exploding pause begins.
    pub open spec fn spec_step(self, dt: u64, c0: Commands, c1: Commands, r: GamePhase) -> bool {
        &&& c0.same_but_effects(c1)
        &&& (!self.spec_elapsed(dt) ==> {
            &&& c1.sounds == c0.sounds
            &&& c1.puffer == c0.puffer
            &&& (r matches GamePhase::Matching(m) && {
                &&& m.common == self.common
                &&& m.timer.0 == self.timer.spec_counted_down(dt)
                &&& m.h_s == (if self.h_s + 3 * dt > u64::MAX {
                    u64::MAX as int
                } else {
                    self.h_s + 3 * dt
                })
                &&& m.match_count == self.match_count
                &&& m.current_matches == self.current_matches
            })
        })
        &&& (self.spec_elapsed(dt) ==> {
            &&& c1.sounds@ == if self.current_matches@.len() > 0 {
                c0.sounds@.push(SoundCue::MatchCleared)
            } else {
                c0.sounds@
            }
            &&& c1.puffer@.len() == c0.puffer@.len() + self.current_matches@.len()
            &&& (forall|i: int|
                0 <= i < c0.puffer@.len() ==> #[trigger] c1.puffer@[i] == c0.puffer@[i])
            &&& (forall|k: int|
                0 <= k < self.current_matches@.len() ==> c1.puffer@[c0.puffer@.len() + k] == (
                PuffSeed {
                    cell: (#[trigger] self.current_matches@[k]).0,
                    block: self.current_matches@[k].1,
                }))
            &&& (r matches GamePhase::Exploding(e) && {
                &&& e.common.board.grid() == spec_cleared_grid(
                    self.common.board,
                    self.current_matches@,
                )
                &&& e.common.rules == self.common.rules
                &&& e.common.next_pillar == self.common.next_pillar
                &&& e.common.palette == self.common.palette
                &&& e.common.level == self.common.level
                &&& e.common.drop_count == self.common.drop_count
                &&& e.common.pillar_fall_rate == self.common.pillar_fall_rate
                &&& e.timer.0 == 200
                &&& e.match_count == (if self.match_count + self.current_matches@.len()
                    > u64::MAX {
                    u64::MAX as int
                } else {
                    self.match_count + self.current_matches@.len()
                })
            })
        })
    }

    /// One tick of the highlight pulse. While the timer runs the blend
    /// advances; when it elapses, a clear sound plays (if anything
    /// matched), one burst descriptor is emitted per matched cell, the
    /// matched cells are cleared from the board, the cleared count is
    /// added to the cascade total, and the exploding pause begins.
    pub fn update(self, dt: u64, _input: &InputState, commands: &mut Commands) -> (r: GamePhase)
        requires
            self.wf(),
        ensures
            r.wf(),
            self.spec_step(dt, *old(commands), *final(commands), r),
    {
        let mut st = self;
        if st.timer.update(dt) {
            if st.current_matches.len() > 0 {
                commands.add_sound(SoundCue::MatchCleared);
            }
            let n = st.current_matches.len();
            let ghost sounds_now = commands.sounds@;
            let mut i: usize = 0;
            while i < n
                invariant
                    n == st.current_matches@.len(),
                    i <= n,
                    commands.puffer@.len() == old(commands).puffer@.len() + i,
                    forall|q: int|
                        0 <= q < old(commands).puffer@.len() ==> #[trigger] commands.puffer@[q]
                            == old(commands).puffer@[q],
                    forall|k: int|
                        0 <= k < i ==> commands.puffer@[old(commands).puffer@.len() + k] == (
                        PuffSeed {
                            cell: (#[trigger] st.current_matches@[k]).0,
                            block: st.current_matches@[k].1,
                        }),
                    commands.sounds@ == sounds_now,
                    old(commands).same_but_effects(*commands),
                decreases n - i,
            {
                let (cell, block) = st.current_matches[i];
                commands.add_puff(PuffSeed { cell, block });
                i = i + 1;
            }
            let mut j: usize = 0;
            while j < n
                invariant
                    st.wf(),
                    n == st.current_matches@.len(),
                    j <= n,
                    st.common.rules == self.common.rules,
                    st.common.next_pillar == self.common.next_pillar,
                    st.common.palette == self.common.palette,
                    st.common.level == self.common.level,
                    st.common.drop_count == self.common.drop_count,
                    st.common.pillar_fall_rate == self.common.pillar_fall_rate,
                    st.current_matches == self.current_matches,
                    st.match_count == self.match_count,
                    st.common.board.spec_x_len() == self.common.board.spec_x_len(),
                    st.common.board.spec_y_len() == self.common.board.spec_y_len(),
                    forall|x: int, y: int|
                        self.common.board.in_bounds(x, y) ==> #[trigger] st.common.board.cell(x, y)
                            == (if exists|k: int|
                            0 <= k < j && (#[trigger] self.current_matches@[k]).0[0] == x
                                && self.current_matches@[k].0[1] == y {
                            None
                        } else {
                            self.common.board.cell(x, y)
                        }),
                decreases n - j,
            {
                let (cell, _block) = st.current_matches[j];
                let ghost bpre = st.common.board;
                st.common.board.set(cell, None);
                proof {
                    assert forall|x: int, y: int|
                        self.common.board.in_bounds(x, y) implies #[trigger] st.common.board.cell(
                        x,
                        y,
                    ) == (if exists|k: int|
                        0 <= k < j + 1 && (#[trigger] self.current_matches@[k]).0[0] == x
                            && self.current_matches@[k].0[1] == y {
                        None
                    } else {
                        self.common.board.cell(x, y)
                    }) by {
                        assert(cell == self.current_matches@[j as int].0);
                        if x == cell[0] && y == cell[1] {
                            assert(self.current_matches@[j as int].0[0] == x
                                && self.current_matches@[j as int].0[1] == y);
                            assert(st.common.board.cell(x, y) is None);
                        } else {
                            assert(st.common.board.cell(x, y) == bpre.cell(x, y));
                            assert(!(self.current_matches@[j as int].0[0] == x
                                && self.current_matches@[j as int].0[1] == y));
                            if exists|k: int|
                                0 <= k < j + 1 && (#[trigger] self.current_matches@[k]).0[0] == x
                                    && self.current_matches@[k].0[1] == y {
                                let k = choose|k: int|
                                    0 <= k < j + 1 && (#[trigger] self.current_matches@[k]).0[0]
                                        == x && self.current_matches@[k].0[1] == y;
                                assert(k < j);
                                assert(bpre.cell(x, y) is None);
                            }
                        }
                    }
                }
                j = j + 1;
            }
            let total = st.match_count.saturating_add(n as u64);
            proof {
                let expected = spec_cleared_grid(self.common.board, self.current_matches@);
                assert forall|ci: int| 0 <= ci < expected.len() implies st.common.board.grid()[ci]
                    =~= expected[ci] by {
                    assert forall|y: int|
                        0 <= y < self.common.board.spec_y_len() implies st.common.board.grid(
                    )[ci][y] == expected[ci][y] by {
                        assert(self.common.board.in_bounds(ci, y));
                        assert(st.common.board.cell(ci, y) == st.common.board.grid()[ci][y]);
                    }
                }
                assert(st.common.board.grid() =~= expected);
            }
            GamePhase::Exploding(
                crate::exploding_blocks::ExplodingBlocks {
                    common: st.common,
                    timer: Timer::new(200),
                    match_count: total,
                },
            )
        } else {
            let hw: u128 = (st.h_s as u128) + 3u128 * (dt as u128);
            st.h_s = if hw > u64::MAX as u128 {
                u64::MAX
            } else {
                hw as u64
            };
            GamePhase::Matching(st)
        }
    }
}

} // verus!
