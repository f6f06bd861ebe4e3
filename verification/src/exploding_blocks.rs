//! The exploding phase: a short pause, then gravity settles the board;
//! new matches chain back into the matching phase, a filled death zone
//! ends the run, and otherwise the cascade is scored and the next drop
//! begins.

use vstd::prelude::*;

use crate::board::{fall_down, find_matches, in_match_set, is_game_over, packed_col, Block};
use crate::game_is_over::GameIsOver;
use crate::game_loop::{CommonState, Commands, GamePhase, SoundCue};
use crate::input::InputState;
use crate::matching_blocks::MatchingBlocks;
use crate::scoring::{calculate_points, spec_calculate_points, HighScoresTable};
use crate::the_pillar_descending::{death_zone_clear, ThePillarIsFalling};
use crate::timer::Timer;

verus! {

pub struct ExplodingBlocks {
    pub common: CommonState,
    pub timer: Timer,
    pub match_count: u64,
}

impl ExplodingBlocks {
    pub open spec fn wf(self) -> bool {
        self.common.wf()
    }

    pub open spec fn spec_elapsed(self, dt: u64) -> bool {
        self.timer.spec_counted_down(dt) <= 0
    }

    /// Whether gravity still had blocks to move this tick.
    pub open spec fn spec_still_falling(self) -> bool {
        !self.common.board.spec_settled()
    }

    /// The settled board holds a new match somewhere.
    pub open spec fn spec_chains(self, settled: CommonState) -> bool {
        exists|c: [usize; 2], blk: Block|
            in_match_set(settled.board, settled.rules.matches_required, c, blk)
    }

    /// Everything but the board is carried over unchanged, and the
    /// board is the old one settled by gravity: per column the same
    /// blocks in the same order, merely fallen to the bottom.
    pub open spec fn spec_settled_common(self, c: CommonState) -> bool {
        &&& c.rules == self.common.rules
        &&& c.next_pillar == self.common.next_pillar
        &&& c.palette == self.common.palette
        &&& c.level == self.common.level
        &&& c.drop_count == self.common.drop_count
        &&& c.pillar_fall_rate == self.common.pillar_fall_rate
        &&& c.board.spec_x_len() == self.common.board.spec_x_len()
        &&& c.board.spec_y_len() == self.common.board.spec_y_len()
        &&& c.board.spec_settled()
        &&& forall|i: int|
            0 <= i < self.common.board.spec_x_len() ==> packed_col(#[trigger] c.board.grid()[i])
                == packed_col(self.common.board.grid()[i])
    }

    /// Everything one tick of the pause does, as a relation between the
    /// incoming and outgoing command accumulators and the next phase:
    /// when the timer elapses gravity settles the board; a chained
    /// match resumes the matching phase with the cascade count carried
    /// over, a settled board with a filled death zone ends the run, and
    /// otherwise the cascade is scored once and the next drop begins.
    pub open spec fn spec_step(self, dt: u64, c0: Commands, c1: Commands, r: GamePhase) -> bool {
        &&& c1.puffer == c0.puffer
        &&& c1.reset_score == c0.reset_score
        &&& c1.quit == c0.quit
        &&& c1.save_scores == c0.save_scores
        &&& c1.current_score == c0.current_score
        &&& (!self.spec_elapsed(dt) ==> {
            &&& c1.points_accum == c0.points_accum
            &&& c1.sounds == c0.sounds
            &&& (r matches GamePhase::Exploding(e) && {
                &&& e.common == self.common
                &&& e.timer.0 == self.timer.spec_counted_down(dt)
                &&& e.match_count == self.match_count
            })
        })
        &&& (self.spec_elapsed(dt) && self.spec_still_falling() ==> {
            &&& c1.points_accum == c0.points_accum
            &&& c1.sounds == c0.sounds
            &&& ((r matches GamePhase::Matching(m) && {
                &&& self.spec_settled_common(m.common)
                &&& self.spec_chains(m.common)
                &&& m.match_count == self.match_count
                &&& m.timer.0 == 250
                &&& m.h_s == 0
                &&& (forall|c: [usize; 2], blk: Block| #[trigger]
                    m.current_matches@.contains((c, blk)) <==> in_match_set(
                        m.common.board,
                        m.common.rules.matches_required,
                        c,
                        blk,
                    ))
            }) || (r matches GamePhase::Exploding(e) && {
                &&& self.spec_settled_common(e.common)
                &&& !self.spec_chains(e.common)
                &&& e.match_count == self.match_count
                &&& e.timer.0 == self.timer.spec_counted_down(dt)
            }))
        })
        &&& (self.spec_elapsed(dt) && !self.spec_still_falling() ==> {
            &&& (!death_zone_clear(self.common) ==> {
                &&& c1.points_accum == c0.points_accum
                &&& c1.sounds@ == c0.sounds@.push(SoundCue::GameOver)
                &&& (r matches GamePhase::Over(g) && {
                    &&& g.common.board.grid() == self.common.board.grid()
                    &&& g.common.rules == self.common.rules
                    &&& g.common.next_pillar == self.common.next_pillar
                    &&& g.common.palette == self.common.palette
                    &&& g.common.level == self.common.level
                    &&& g.common.drop_count == self.common.drop_count
                    &&& g.common.pillar_fall_rate == self.common.pillar_fall_rate
                    &&& g.fade == 0
                    &&& g.cursor == 0
                })
            })
            &&& (death_zone_clear(self.common) ==> {
                &&& c1.sounds == c0.sounds
                &&& c1.points_accum == (if c0.points_accum + spec_calculate_points(
                    self.match_count as nat,
                    self.common.level as nat,
                ) > u64::MAX {
                    u64::MAX as int
                } else {
                    c0.points_accum + spec_calculate_points(
                        self.match_count as nat,
                        self.common.level as nat,
                    )
                })
                &&& (r matches GamePhase::Falling(f) && {
                    &&& f.common.rules == self.common.rules
                    &&& f.common.board.grid() == self.common.board.grid()
                    &&& f.common.palette == self.common.palette
                    &&& f.common.level == self.common.level
                    &&& f.common.drop_count == self.common.drop_count
                    &&& f.common.pillar_fall_rate == self.common.pillar_fall_rate
                    &&& f.current_pillar@ == self.common.next_pillar@
                    &&& f.pillar_pos == self.common.rules.pillar_spawn_pt
                })
            })
        })
    }

    /// One tick of the pause. When the timer elapses, gravity runs to
    /// its fixed point. If it moved anything and the settled board has
    /// a match, the matching phase resumes with the cascade count
    /// carried over; if it moved anything without a match, the pause
    /// simply continues on the settled board. Once nothing falls, a
    /// filled death zone ends the run, and otherwise the cascade is
    /// scored once, the score is banked, and the next drop begins.
    pub fn update(
        self,
        dt: u64,
        _input: &InputState,
        rng: &mut rand::rngs::StdRng,
        scores: &HighScoresTable,
        commands: &mut Commands,
    ) -> (r: GamePhase)
        requires
            self.wf(),
            scores@.len() < usize::MAX,
        ensures
            r.wf(),
            self.spec_step(dt, *old(commands), *final(commands), r),
    {
        let mut st = self;
        if st.timer.update(dt) {
            if fall_down(&mut st.common.board) {
                let current_matches = find_matches(
                    &st.common.board,
                    st.common.rules.matches_required,
                );
                if current_matches.len() > 0 {
                    proof {
                        let e0 = current_matches@[0];
                        assert(current_matches@.contains(e0));
                        assert(in_match_set(
                            st.common.board,
                            st.common.rules.matches_required,
                            e0.0,
                            e0.1,
                        ));
                        assert forall|k: int|
                            0 <= k < current_matches@.len() implies st.common.board.in_bounds(
                            (#[trigger] current_matches@[k]).0[0] as int,
                            current_matches@[k].0[1] as int,
                        ) by {
                            let e = current_matches@[k];
                            assert(current_matches@.contains(e));
                            assert(in_match_set(
                                st.common.board,
                                st.common.rules.matches_required,
                                e.0,
                                e.1,
                            ));
                        }
                    }
                    let next = MatchingBlocks {
                        common: st.common,
                        timer: Timer::new(250),
                        h_s: 0,
                        match_count: st.match_count,
                        current_matches,
                    };
                    return GamePhase::Matching(next);
                }
                proof {
                    assert forall|c: [usize; 2], blk: Block| !in_match_set(
                        st.common.board,
                        st.common.rules.matches_required,
                        c,
                        blk,
                    ) by {
                        assert(!current_matches@.contains((c, blk)));
                    }
                }
                return GamePhase::Exploding(st);
            } else {
                proof {
                    assert(st.common.board.grid() == self.common.board.grid());
                }
                let game_over = is_game_over(&st.common.board, st.common.rules.pillar_sz);
                proof {
                    if game_over {
                        let (x, y) = choose|x: int, y: int|
                            0 <= x < st.common.board.spec_x_len() && 0 <= y
                                <= st.common.rules.pillar_sz && #[trigger] st.common.board.cell(
                                x,
                                y,
                            ) is Some;
                        assert(self.common.board.cell(x, y) is Some);
                        assert(!death_zone_clear(self.common));
                    } else {
                        assert forall|x: int, y: int|
                            0 <= x < self.common.board.spec_x_len() && 0 <= y
                                <= self.common.rules.pillar_sz implies !(
                        #[trigger] self.common.board.cell(x, y) is Some) by {
                            assert(!(st.common.board.cell(x, y) is Some));
                        }
                    }
                }
                if game_over {
                    commands.add_sound(SoundCue::GameOver);
                    let score = commands.get_score();
                    let next = GameIsOver::new(st.common, scores, score);
                    return GamePhase::Over(next);
                } else {
                    let points = calculate_points(st.match_count, st.common.level);
                    commands.add_to_score(points);
                    let next = ThePillarIsFalling::new(st.common, rng);
                    return GamePhase::Falling(next);
                }
            }
        }
        GamePhase::Exploding(st)
    }
}

} // verus!
