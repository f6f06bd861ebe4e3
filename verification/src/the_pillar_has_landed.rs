//! The landed phase: a short grace period during which the pillar may
//! still be rotated; when it elapses the pillar fuses into the board,
//! the drop is counted, and matching, game-over or the next drop
//! follows.

use vstd::prelude::*;

use crate::board::{
    find_matches, in_match_set, is_game_over, spec_written_grid, write_pillar, Block,
};
use crate::game_is_over::GameIsOver;
use crate::game_loop::{
    increase_level, spec_leveled_fields, CommonState, Commands, GamePhase, PilPos, SoundCue,
};
use crate::input::{InputState, PlayerCommand};
use crate::matching_blocks::MatchingBlocks;
use crate::pillar::{rot_down_spec, rot_up_spec, Pillar};
use crate::scoring::HighScoresTable;
use crate::the_pillar_descending::{death_zone_clear, ThePillarIsFalling};
use crate::timer::Timer;

verus! {

pub struct ThePillarHasLanded {
    pub common: CommonState,
    pub current_pillar: Pillar,
    pub pillar_pos: PilPos,
    pub rot_cooldown: i64,
    pub rot_timer: Timer,
    /// Time left until the pillar is fixed into the board.
    pub grace_period: Timer,
}

impl ThePillarHasLanded {
    pub open spec fn wf(self) -> bool {
        &&& self.common.wf()
        &&& self.current_pillar@.len() == self.common.rules.pillar_sz
        &&& (self.pillar_pos.x as int) < self.common.board.spec_x_len()
        &&& self.common.rules.pillar_sz <= self.pillar_pos.spec_row()
        &&& self.pillar_pos.spec_row() < self.common.board.spec_y_len()
    }

    pub open spec fn spec_rot_elapsed(self, dt: u64) -> bool {
        self.rot_timer.spec_counted_down(dt) <= 0
    }

    /// The pillar's blocks after this tick's rotation input.
    pub open spec fn spec_pillar_after(self, dt: u64, input: InputState) -> Seq<Block> {
        if self.spec_rot_elapsed(dt) && input.spec_just_active(PlayerCommand::RotUp) {
            rot_up_spec(self.current_pillar@)
        } else if self.spec_rot_elapsed(dt) && input.spec_just_active(PlayerCommand::RotDown) {
            rot_down_spec(self.current_pillar@)
        } else {
            self.current_pillar@
        }
    }

    pub open spec fn spec_rot_timer_after(self, dt: u64, input: InputState) -> int {
        if self.spec_rot_elapsed(dt) && (input.spec_just_active(PlayerCommand::RotUp)
            || input.spec_just_active(PlayerCommand::RotDown)) {
            self.rot_cooldown as int
        } else {
            self.rot_timer.spec_counted_down(dt)
        }
    }

    pub open spec fn spec_grace_elapsed(self, dt: u64) -> bool {
        self.grace_period.spec_counted_down(dt) <= 0
    }

    /// The drop counter after this landing.
    pub open spec fn spec_dropped(self) -> int {
        if self.common.drop_count == u64::MAX {
            u64::MAX as int
        } else {
            self.common.drop_count + 1
        }
    }

    /// The shared state after a pillar with blocks `p` has fused: `p`
    /// written into the board at the landing position, the drop
    /// counted, and a level-up applied on every `drops_per_level`th
    /// drop.
    pub open spec fn spec_fused_with(self, p: Seq<Block>, c: CommonState) -> bool {
        &&& c.board.grid() == spec_written_grid(
            self.common.board,
            p,
            self.pillar_pos.x as int,
            self.pillar_pos.spec_row(),
        )
        &&& c.rules == self.common.rules
        &&& c.drop_count == self.spec_dropped()
        &&& (self.spec_dropped() % (self.common.rules.drops_per_level as int) == 0 ==> {
            spec_leveled_fields(self.common, c)
        })
        &&& (self.spec_dropped() % (self.common.rules.drops_per_level as int) != 0 ==> {
            &&& c.level == self.common.level
            &&& c.palette@ == self.common.palette@
            &&& c.pillar_fall_rate == self.common.pillar_fall_rate
        })
    }

    /// The shared state after this tick's (possibly rotated) pillar has
    /// fused.
    pub open spec fn spec_fused_core(self, dt: u64, input: InputState, c: CommonState) -> bool {
        self.spec_fused_with(self.spec_pillar_after(dt, input), c)
    }

    /// The fused state with the preview pillar still untouched (as the
    /// matching and game-over phases see it).
    pub open spec fn spec_fused_ok(self, dt: u64, input: InputState, c: CommonState) -> bool {
        &&& self.spec_fused_core(dt, input, c)
        &&& c.next_pillar == self.common.next_pillar
    }

    /// Everything one tick of the grace period does, as a relation
    /// between the incoming and outgoing command accumulators and the
    /// next phase: while the grace period runs only rotation happens;
    /// when it elapses the pillar fuses, the drop is counted (leveling
    /// up on every `drops_per_level`th one), and new matches, a filled
    /// death zone or the next drop decide the next phase.
    pub open spec fn spec_step(
        self,
        dt: u64,
        input: InputState,
        c0: Commands,
        c1: Commands,
        r: GamePhase,
    ) -> bool {
        &&& c0.same_but_effects(c1)
        &&& c1.puffer == c0.puffer
        &&& (!self.spec_grace_elapsed(dt) ==> {
            &&& c1.sounds == c0.sounds
            &&& (r matches GamePhase::Landed(l) && {
                &&& l.common == self.common
                &&& l.pillar_pos == self.pillar_pos
                &&& l.current_pillar@ == self.spec_pillar_after(dt, input)
                &&& l.rot_cooldown == self.rot_cooldown
                &&& l.rot_timer.0 == self.spec_rot_timer_after(dt, input)
                &&& l.grace_period.0 == self.grace_period.spec_counted_down(dt)
            })
        })
        &&& (self.spec_grace_elapsed(dt) ==> (r is Matching || r is Over || r is Falling))
        &&& (!self.spec_grace_elapsed(dt) || (r matches GamePhase::Matching(m) ==> {
            &&& self.spec_fused_ok(dt, input, m.common)
            &&& m.match_count == 0
            &&& m.timer.0 == 250
            &&& m.h_s == 0
            &&& (exists|c: [usize; 2], blk: Block|
                in_match_set(m.common.board, m.common.rules.matches_required, c, blk))
            &&& (forall|c: [usize; 2], blk: Block| #[trigger]
                m.current_matches@.contains((c, blk)) <==> in_match_set(
                    m.common.board,
                    m.common.rules.matches_required,
                    c,
                    blk,
                ))
            &&& c1.sounds == c0.sounds
        }))
        &&& (!self.spec_grace_elapsed(dt) || (r matches GamePhase::Over(g) ==> {
            &&& self.spec_fused_ok(dt, input, g.common)
            &&& !(exists|c: [usize; 2], blk: Block|
                in_match_set(g.common.board, g.common.rules.matches_required, c, blk))
            &&& !death_zone_clear(g.common)
            &&& g.fade == 0
            &&& g.cursor == 0
            &&& c1.sounds@ == c0.sounds@.push(SoundCue::GameOver)
        }))
        &&& (!self.spec_grace_elapsed(dt) || (r matches GamePhase::Falling(f) ==> {
            &&& self.spec_fused_core(dt, input, f.common)
            &&& f.common.next_pillar@.len() == self.common.rules.pillar_sz
            &&& (forall|i: int|
                0 <= i < f.common.next_pillar@.len() ==> f.common.palette@.contains(
                    #[trigger] f.common.next_pillar@[i],
                ))
            &&& f.current_pillar@ == self.common.next_pillar@
            &&& f.pillar_pos == self.common.rules.pillar_spawn_pt
            &&& death_zone_clear(f.common)
            &&& !(exists|c: [usize; 2], blk: Block|
                in_match_set(f.common.board, f.common.rules.matches_required, c, blk))
            &&& c1.sounds == c0.sounds
        }))
    }

    /// One tick of the grace period: rotation stays possible behind its
    /// cooldown; when the grace period elapses the pillar fuses into
    /// the board and the drop is counted (with a level-up every
    /// `drops_per_level` drops). New matches open the matching phase, a
    /// filled death zone ends the run, and otherwise the next drop
    /// begins.
    #[verifier::rlimit(100)]
    #[verifier::spinoff_prover]
    pub fn update(
        self,
        dt: u64,
        input: &InputState,
        rng: &mut rand::rngs::StdRng,
        scores: &HighScoresTable,
        commands: &mut Commands,
    ) -> (r: GamePhase)
        requires
            self.wf(),
            scores@.len() < usize::MAX,
        ensures
            r.wf(),
            self.spec_step(dt, *input, *old(commands), *final(commands), r),
    {
        let mut st = self;
        if st.rot_timer.update(dt) {
            if input.just_active(PlayerCommand::RotUp) {
                st.current_pillar.rot_up();
                st.rot_timer.set(st.rot_cooldown);
            } else if input.just_active(PlayerCommand::RotDown) {
                st.current_pillar.rot_down();
                st.rot_timer.set(st.rot_cooldown);
            }
        }
        if st.grace_period.update(dt) {
            return st.finish_landing(rng, scores, commands);
        }
        GamePhase::Landed(st)
    }

    /// Fuses the pillar into the board, counts the drop (leveling up on
    /// every `drops_per_level`th one) and decides what follows: new
    /// matches, game over, or the next drop.
    fn finish_landing(
        self,
        rng: &mut rand::rngs::StdRng,
        scores: &HighScoresTable,
        commands: &mut Commands,
    ) -> (r: GamePhase)
        requires
            self.wf(),
            scores@.len() < usize::MAX,
        ensures
            r.wf(),
            old(commands).same_but_effects(*final(commands)),
            final(commands).puffer == old(commands).puffer,
            r is Matching || r is Over || r is Falling,
            r matches GamePhase::Matching(m) ==> {
                &&& self.spec_fused_with(self.current_pillar@, m.common)
                &&& m.common.next_pillar == self.common.next_pillar
                &&& m.match_count == 0
                &&& m.timer.0 == 250
                &&& m.h_s == 0
                &&& (exists|c: [usize; 2], blk: Block|
                    in_match_set(m.common.board, m.common.rules.matches_required, c, blk))
                &&& (forall|c: [usize; 2], blk: Block| #[trigger]
                    m.current_matches@.contains((c, blk)) <==> in_match_set(
                        m.common.board,
                        m.common.rules.matches_required,
                        c,
                        blk,
                    ))
                &&& final(commands).sounds == old(commands).sounds
            },
            r matches GamePhase::Over(g) ==> {
                &&& self.spec_fused_with(self.current_pillar@, g.common)
                &&& g.common.next_pillar == self.common.next_pillar
                &&& !(exists|c: [usize; 2], blk: Block|
                    in_match_set(g.common.board, g.common.rules.matches_required, c, blk))
                &&& !death_zone_clear(g.common)
                &&& g.fade == 0
                &&& g.cursor == 0
                &&& final(commands).sounds@ == old(commands).sounds@.push(SoundCue::GameOver)
            },
            r matches GamePhase::Falling(f) ==> {
                &&& self.spec_fused_with(self.current_pillar@, f.common)
                &&& f.common.next_pillar@.len() == self.common.rules.pillar_sz
                &&& (forall|i: int|
                    0 <= i < f.common.next_pillar@.len() ==> f.common.palette@.contains(
                        #[trigger] f.common.next_pillar@[i],
                    ))
                &&& f.current_pillar@ == self.common.next_pillar@
                &&& f.pillar_pos == self.common.rules.pillar_spawn_pt
                &&& death_zone_clear(f.common)
                &&& !(exists|c: [usize; 2], blk: Block|
                    in_match_set(f.common.board, f.common.rules.matches_required, c, blk))
                &&& final(commands).sounds == old(commands).sounds
            },
    {
        let mut st = self;
        write_pillar(&mut st.common.board, &st.current_pillar, st.pillar_pos);
            st.common.drop_count = st.common.drop_count.saturating_add(1);
            if st.common.drop_count % st.common.rules.drops_per_level == 0 {
                increase_level(&mut st.common);
            }
            let current_matches = find_matches(
                &st.common.board,
                st.common.rules.matches_required,
            );
            if current_matches.len() > 0 {
                proof {
                    let e0 = current_matches@[0];
                    assert(current_matches@.contains(e0));
                    assert(in_match_set(
                        st.common.board,
                        st.common.rules.matches_required,
                        e0.0,
                        e0.1,
                    ));
                    assert forall|k: int|
                        0 <= k < current_matches@.len() implies st.common.board.in_bounds(
                        (#[trigger] current_matches@[k]).0[0] as int,
                        current_matches@[k].0[1] as int,
                    ) by {
                        let e = current_matches@[k];
                        assert(current_matches@.contains(e));
                        assert(in_match_set(
                            st.common.board,
                            st.common.rules.matches_required,
                            e.0,
                            e.1,
                        ));
                    }
                }
                let next = MatchingBlocks {
                    common: st.common,
                    match_count: 0,
                    timer: Timer::new(250),
                    h_s: 0,
                    current_matches,
                };
                return GamePhase::Matching(next);
            } else {
                proof {
                    assert forall|c: [usize; 2], blk: Block| !in_match_set(
                        st.common.board,
                        st.common.rules.matches_required,
                        c,
                        blk,
                    ) by {
                        assert(!current_matches@.contains((c, blk)));
                    }
                }
                let game_over = is_game_over(&st.common.board, st.common.rules.pillar_sz);
                proof {
                    if game_over {
                        let (x, y) = choose|x: int, y: int|
                            0 <= x < st.common.board.spec_x_len() && 0 <= y
                                <= st.common.rules.pillar_sz && #[trigger] st.common.board.cell(
                                x,
                                y,
                            ) is Some;
                        assert(!death_zone_clear(st.common));
                    } else {
                        assert forall|x: int, y: int|
                            0 <= x < st.common.board.spec_x_len() && 0 <= y
                                <= st.common.rules.pillar_sz implies !(
                        #[trigger] st.common.board.cell(x, y) is Some) by {}
                    }
                }
                if game_over {
                    commands.add_sound(SoundCue::GameOver);
                    let score = commands.get_score();
                    let next = GameIsOver::new(st.common, scores, score);
                    return GamePhase::Over(next);
                } else {
                    let next = ThePillarIsFalling::new(st.common, rng);
                    return GamePhase::Falling(next);
                }
            }
    }
}

} // verus!
