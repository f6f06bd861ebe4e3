//! The falling phase: the current pillar descends at the fall rate
//! while horizontal moves and rotations are accepted, debounced by
//! per-command cooldown timers; when the next position collides, the
//! pillar snaps to its landing row and the landed phase begins.

use vstd::prelude::*;

use crate::board::{Block, BoardCell};
use crate::game_loop::{CommonState, Commands, GamePhase, PilPos, SoundCue, MILLI};
use crate::input::{InputState, PlayerCommand};
use crate::pillar::{rot_down_spec, rot_up_spec, Pillar};
use crate::the_rules::GameRules;
use crate::timer::Timer;

verus! {

/// No cell in the spawn/death buffer (the topmost `pillar_sz + 1` rows)
/// is occupied; this is what lets a fresh pillar spawn and descend.
pub open spec fn death_zone_clear(c: CommonState) -> bool {
    forall|x: int, y: int|
        0 <= x < c.board.spec_x_len() && 0 <= y <= c.rules.pillar_sz ==> !(#[trigger] c.board.cell(
            x,
            y,
        ) is Some)
}

pub struct ThePillarIsFalling {
    pub common: CommonState,
    pub pillar_pos: PilPos,
    pub current_pillar: Pillar,
    pub held_down_flag: bool,
    pub rot_cooldown: i64,
    pub rot_timer: Timer,
    pub horizontal_move_timer: Timer,
    pub horizontal_move_cooldown: i64,
}

impl ThePillarIsFalling {
    pub open spec fn wf(self) -> bool {
        &&& self.common.wf()
        &&& self.current_pillar@.len() == self.common.rules.pillar_sz
        &&& (self.pillar_pos.x as int) < self.common.board.spec_x_len()
        &&& self.common.rules.pillar_spawn_pt.y <= self.pillar_pos.y
        &&& self.pillar_pos.spec_row() < self.common.board.spec_y_len()
        &&& death_zone_clear(self.common)
    }

    /// Whether the down command keeps being held over from before this
    /// pillar began to fall (fast drop is suppressed until it is
    /// released once).
    pub open spec fn spec_held_after(self, input: InputState) -> bool {
        self.held_down_flag && input.spec_active(PlayerCommand::MoveDown)
    }

    pub open spec fn spec_rot_elapsed(self, dt: u64) -> bool {
        self.rot_timer.spec_counted_down(dt) <= 0
    }

    /// The pillar's blocks after this tick's rotation input.
    pub open spec fn spec_pillar_after(self, dt: u64, input: InputState) -> Seq<Block> {
        if self.spec_rot_elapsed(dt) && input.spec_just_active(PlayerCommand::RotUp) {
            rot_up_spec(self.current_pillar@)
        } else if self.spec_rot_elapsed(dt) && input.spec_just_active(PlayerCommand::RotDown) {
            rot_down_spec(self.current_pillar@)
        } else {
            self.current_pillar@
        }
    }

    pub open spec fn spec_rot_timer_after(self, dt: u64, input: InputState) -> int {
        if self.spec_rot_elapsed(dt) && (input.spec_just_active(PlayerCommand::RotUp)
            || input.spec_just_active(PlayerCommand::RotDown)) {
            self.rot_cooldown as int
        } else {
            self.rot_timer.spec_counted_down(dt)
        }
    }

    pub open spec fn spec_hm_elapsed(self, dt: u64) -> bool {
        self.horizontal_move_timer.spec_counted_down(dt) <= 0
    }

    /// The column the player is steering toward this tick: held moves
    /// repeat once the cooldown has elapsed, fresh presses move at once.
    pub open spec fn spec_desired_x(self, dt: u64, input: InputState) -> int {
        let left = if self.spec_hm_elapsed(dt) {
            input.spec_active(PlayerCommand::MoveLeft) && !input.spec_active(
                PlayerCommand::MoveRight,
            )
        } else {
            input.spec_just_active(PlayerCommand::MoveLeft) && !input.spec_active(
                PlayerCommand::MoveRight,
            )
        };
        let right = if self.spec_hm_elapsed(dt) {
            !input.spec_active(PlayerCommand::MoveLeft) && input.spec_active(
                PlayerCommand::MoveRight,
            )
        } else {
            !input.spec_active(PlayerCommand::MoveLeft) && input.spec_just_active(
                PlayerCommand::MoveRight,
            )
        };
        if left {
            if self.pillar_pos.x == 0 {
                0
            } else {
                self.pillar_pos.x - 1
            }
        } else if right {
            self.pillar_pos.x + 1
        } else {
            self.pillar_pos.x as int
        }
    }

    /// A horizontal move is valid when the target column is on the
    /// board and its cell at the pillar's current row is unoccupied.
    pub open spec fn spec_move_valid(self, dt: u64, input: InputState) -> bool {
        let nx = self.spec_desired_x(dt, input);
        nx < self.common.board.spec_x_len() && !(self.common.board.cell(
            nx,
            self.pillar_pos.spec_row(),
        ) is Some)
    }

    pub open spec fn spec_next_x(self, dt: u64, input: InputState) -> int {
        if self.spec_move_valid(dt, input) {
            self.spec_desired_x(dt, input)
        } else {
            self.pillar_pos.x as int
        }
    }

    pub open spec fn spec_hm_timer_after(self, dt: u64, input: InputState) -> int {
        if self.spec_move_valid(dt, input) && self.spec_desired_x(dt, input)
            != self.pillar_pos.x {
            self.horizontal_move_cooldown as int
        } else {
            self.horizontal_move_timer.spec_counted_down(dt)
        }
    }

    /// This tick's descent in milli-cells: the maximum fall rate while
    /// the player fast-drops, the current rate otherwise; saturated.
    pub open spec fn spec_dy(self, dt: u64, input: InputState) -> int {
        let rate: int = if input.spec_active(PlayerCommand::MoveDown) && !self.spec_held_after(
            input,
        ) {
            self.common.rules.max_fall_rate as int
        } else {
            if self.common.pillar_fall_rate < self.common.rules.max_fall_rate {
                self.common.pillar_fall_rate as int
            } else {
                self.common.rules.max_fall_rate as int
            }
        };
        let d = dt * rate / (MILLI as int);
        if d > u64::MAX {
            u64::MAX as int
        } else {
            d
        }
    }

    pub open spec fn spec_next_y(self, dt: u64, input: InputState) -> int {
        if self.pillar_pos.y + self.spec_dy(dt, input) > u64::MAX {
            u64::MAX as int
        } else {
            self.pillar_pos.y + self.spec_dy(dt, input)
        }
    }

    /// The pillar lands when the cell at the next descent position is
    /// anything but empty (occupied or out of bounds).
    pub open spec fn spec_lands(self, dt: u64, input: InputState) -> bool {
        !(self.common.board.spec_get(
            self.spec_next_x(dt, input),
            self.spec_next_y(dt, input) / (MILLI as int),
        ) is Empty)
    }

    /// The landing position: one milli-cell short of the next whole
    /// row, so the landed pillar does not immediately re-collide, and
    /// never above the spawn row.
    pub open spec fn spec_snapped_y(self) -> int {
        let c = ((self.pillar_pos.y + 999) / (MILLI as int)) * (MILLI as int) - 1;
        let cs = if c > u64::MAX {
            u64::MAX as int
        } else {
            c
        };
        if cs < self.common.rules.pillar_spawn_pt.y {
            self.common.rules.pillar_spawn_pt.y as int
        } else {
            cs
        }
    }

    /// Starts a fresh run: a new empty board (with the spawn/death
    /// buffer rows on top of the visible height), level one, the
    /// initial palette and fall rate, and two freshly drawn pillars.
    pub fn new_game(rules: GameRules, rng: &mut rand::rngs::StdRng) -> (r: ThePillarIsFalling)
        requires
            rules.wf(),
        ensures
            r.wf(),
            r.common.rules == rules,
            r.common.level == 1,
            r.common.drop_count == 0,
            r.common.pillar_fall_rate == rules.initial_fall_rate,
            r.common.palette@ == rules.initial_palette@,
            r.common.board.spec_x_len() == rules.board_sz[0],
            r.common.board.spec_y_len() == rules.board_sz[1] + rules.pillar_sz + 1,
            forall|x: int, y: int|
                r.common.board.in_bounds(x, y) ==> #[trigger] r.common.board.cell(x, y) is None,
            r.pillar_pos == rules.pillar_spawn_pt,
            r.current_pillar@.len() == rules.pillar_sz,
            forall|i: int|
                0 <= i < r.current_pillar@.len() ==> rules.initial_palette@.contains(
                    #[trigger] r.current_pillar@[i],
                ),
            forall|i: int|
                0 <= i < r.common.next_pillar@.len() ==> rules.initial_palette@.contains(
                    #[trigger] r.common.next_pillar@[i],
                ),
            r.held_down_flag,
            r.rot_cooldown == 200 && r.horizontal_move_cooldown == 100,
            r.rot_timer.0 == 0 && r.horizontal_move_timer.0 == 0,
    {
        let board = crate::board::Board::new(
            [rules.board_sz[0], rules.board_sz[1] + rules.pillar_sz + 1],
        );
        let current_pillar = Pillar::new_random(rng, &rules.initial_palette, rules.pillar_sz);
        let next_pillar = Pillar::new_random(rng, &rules.initial_palette, rules.pillar_sz);
        let pillar_pos = rules.pillar_spawn_pt;
        let palette = rules.initial_palette.duplicate();
        let pillar_fall_rate = rules.initial_fall_rate;
        let common = CommonState {
            rules,
            board,
            next_pillar,
            palette,
            level: 1,
            drop_count: 0,
            pillar_fall_rate,
        };
        ThePillarIsFalling {
            common,
            pillar_pos,
            current_pillar,
            held_down_flag: true,
            rot_cooldown: 200,
            rot_timer: Timer::new(0),
            horizontal_move_timer: Timer::new(0),
            horizontal_move_cooldown: 100,
        }
    }

    /// Starts the next drop of an ongoing run: the previewed next
    /// pillar becomes the current one and a fresh preview is drawn.
    pub fn new(common: CommonState, rng: &mut rand::rngs::StdRng) -> (r: ThePillarIsFalling)
        requires
            common.wf(),
            death_zone_clear(common),
        ensures
            r.wf(),
            r.common.rules == common.rules,
            r.common.board == common.board,
            r.common.palette == common.palette,
            r.common.level == common.level,
            r.common.drop_count == common.drop_count,
            r.common.pillar_fall_rate == common.pillar_fall_rate,
            r.current_pillar@ == common.next_pillar@,
            r.common.next_pillar@.len() == common.rules.pillar_sz,
            forall|i: int|
                0 <= i < r.common.next_pillar@.len() ==> common.palette@.contains(
                    #[trigger] r.common.next_pillar@[i],
                ),
            r.pillar_pos == common.rules.pillar_spawn_pt,
            r.held_down_flag,
            r.rot_cooldown == 200 && r.horizontal_move_cooldown == 100,
            r.rot_timer.0 == 0 && r.horizontal_move_timer.0 == 0,
    {
        let mut common = common;
        let current_pillar = common.next_pillar.duplicate();
        common.next_pillar = Pillar::new_random(rng, &common.palette, common.rules.pillar_sz);
        let pillar_pos = common.rules.pillar_spawn_pt;
        proof {
            assert(pillar_pos.spec_row() == common.rules.pillar_sz) by {
                assert(pillar_pos.y == common.rules.pillar_sz * (MILLI as int));
                vstd::arithmetic::div_mod::lemma_div_by_multiple(
                    common.rules.pillar_sz as int,
                    MILLI as int,
                );
            }
        }
        ThePillarIsFalling {
            common,
            pillar_pos,
            current_pillar,
            held_down_flag: true,
            rot_cooldown: 200,
            rot_timer: Timer::new(0),
            horizontal_move_timer: Timer::new(0),
            horizontal_move_cooldown: 100,
        }
    }

    /// Everything one tick of descent does, as a relation between the
    /// incoming and outgoing command accumulators and the next phase:
    /// the pillar rotates and moves as the inputs and cooldown timers
    /// allow, then descends; if the next position is not an empty cell
    /// it snaps to its landing row, a thud sounds, and the landed phase
    /// begins with the grace period running.
    pub open spec fn spec_step(
        self,
        dt: u64,
        input: InputState,
        c0: Commands,
        c1: Commands,
        r: GamePhase,
    ) -> bool {
        &&& c0.same_but_effects(c1)
        &&& c1.puffer == c0.puffer
        &&& (!self.spec_lands(dt, input) ==> {
            &&& c1.sounds == c0.sounds
            &&& (r matches GamePhase::Falling(f) && {
                &&& f.common == self.common
                &&& f.pillar_pos.x == self.spec_next_x(dt, input)
                &&& f.pillar_pos.y == self.spec_next_y(dt, input)
                &&& f.current_pillar@ == self.spec_pillar_after(dt, input)
                &&& f.held_down_flag == self.spec_held_after(input)
                &&& f.rot_cooldown == self.rot_cooldown
                &&& f.rot_timer.0 == self.spec_rot_timer_after(dt, input)
                &&& f.horizontal_move_timer.0 == self.spec_hm_timer_after(dt, input)
                &&& f.horizontal_move_cooldown == self.horizontal_move_cooldown
            })
        })
        &&& (self.spec_lands(dt, input) ==> {
            &&& c1.sounds@ == c0.sounds@.push(SoundCue::LandedThud)
            &&& (r matches GamePhase::Landed(l) && {
                &&& l.common == self.common
                &&& l.pillar_pos.x == self.spec_next_x(dt, input)
                &&& l.pillar_pos.y == self.spec_snapped_y()
                &&& l.current_pillar@ == self.spec_pillar_after(dt, input)
                &&& l.rot_cooldown == self.rot_cooldown
                &&& l.rot_timer.0 == self.spec_rot_timer_after(dt, input)
                &&& l.grace_period.0 == 300
            })
        })
    }

    /// One tick of descent: handles the held-down flag, rotation and
    /// horizontal movement (each behind its cooldown timer), then moves
    /// the pillar down by this tick's descent; if the next position is
    /// not an empty cell, the pillar snaps to its landing row, a thud
    /// sounds, and the landed phase begins with the grace period
    /// running.
    #[verifier::rlimit(100)]
    pub fn update(self, dt: u64, input: &InputState, commands: &mut Commands) -> (r: GamePhase)
        requires
            self.wf(),
        ensures
            r.wf(),
            self.spec_step(dt, *input, *old(commands), *final(commands), r),
    {
        let mut st = self;
        if st.held_down_flag && input.inactive(PlayerCommand::MoveDown) {
            st.held_down_flag = false;
        }
        if st.rot_timer.update(dt) {
            if input.just_active(PlayerCommand::RotUp) {
                st.current_pillar.rot_up();
                st.rot_timer.set(st.rot_cooldown);
            } else if input.just_active(PlayerCommand::RotDown) {
                st.current_pillar.rot_down();
                st.rot_timer.set(st.rot_cooldown);
            }
        }
        let hm_elapsed = st.horizontal_move_timer.update(dt);
        let new_pillar_x = if hm_elapsed {
            if input.active(PlayerCommand::MoveLeft) && !input.active(PlayerCommand::MoveRight) {
                if st.pillar_pos.x == 0 {
                    0
                } else {
                    st.pillar_pos.x - 1
                }
            } else if !input.active(PlayerCommand::MoveLeft) && input.active(
                PlayerCommand::MoveRight,
            ) {
                st.pillar_pos.x + 1
            } else {
                st.pillar_pos.x
            }
        } else {
            if input.just_active(PlayerCommand::MoveLeft) && !input.active(
                PlayerCommand::MoveRight,
            ) {
                if st.pillar_pos.x == 0 {
                    0
                } else {
                    st.pillar_pos.x - 1
                }
            } else if !input.active(PlayerCommand::MoveLeft) && input.just_active(
                PlayerCommand::MoveRight,
            ) {
                st.pillar_pos.x + 1
            } else {
                st.pillar_pos.x
            }
        };
        if is_horizontal_move_valid(new_pillar_x, st.pillar_pos.y, &st.common.board) {
            if new_pillar_x != st.pillar_pos.x {
                st.horizontal_move_timer.set(st.horizontal_move_cooldown);
            }
            st.pillar_pos.x = new_pillar_x;
        }
        let fast = input.active(PlayerCommand::MoveDown) && !st.held_down_flag;
        let rate = if fast {
            st.common.rules.max_fall_rate
        } else {
            if st.common.pillar_fall_rate < st.common.rules.max_fall_rate {
                st.common.pillar_fall_rate
            } else {
                st.common.rules.max_fall_rate
            }
        };
        proof {
            assert((dt as int) * (rate as int) <= u128::MAX) by (nonlinear_arith)
                requires
                    dt <= u64::MAX,
                    rate <= u64::MAX,
            ;
        }
        let dy_wide: u128 = (dt as u128) * (rate as u128) / (MILLI as u128);
        let dy: u64 = if dy_wide > u64::MAX as u128 {
            u64::MAX
        } else {
            dy_wide as u64
        };
        let next_pillar_y = st.pillar_pos.y.saturating_add(dy);
        if st.common.board.get_pp(PilPos { x: st.pillar_pos.x, y: next_pillar_y })
            == BoardCell::Empty {
            st.pillar_pos.y = next_pillar_y;
            GamePhase::Falling(st)
        } else {
            commands.add_sound(SoundCue::LandedThud);
            let ceil_wide: u128 = ((st.pillar_pos.y as u128) + 999) / (MILLI as u128) * (
            MILLI as u128) - 1;
            let ceil_snap: u64 = if ceil_wide > u64::MAX as u128 {
                u64::MAX
            } else {
                ceil_wide as u64
            };
            let snapped = if ceil_snap < st.common.rules.pillar_spawn_pt.y {
                st.common.rules.pillar_spawn_pt.y
            } else {
                ceil_snap
            };
            proof {
                lemma_snap_row(st.pillar_pos.y as int, st.common.rules.pillar_spawn_pt.y as int);
            }
            let next = crate::the_pillar_has_landed::ThePillarHasLanded {
                common: st.common,
                current_pillar: st.current_pillar,
                pillar_pos: PilPos { x: st.pillar_pos.x, y: snapped },
                rot_cooldown: st.rot_cooldown,
                rot_timer: st.rot_timer,
                grace_period: Timer::new(300),
            };
            GamePhase::Landed(next)
        }
    }
}

/// The landing row never exceeds the original row and never rises above
/// the spawn row.
proof fn lemma_snap_row(y: int, spawn_y: int)
    requires
        0 <= y <= u64::MAX,
        0 <= spawn_y <= y,
        spawn_y % (MILLI as int) == 0,
    ensures
        ({
            let c = ((y + 999) / (MILLI as int)) * (MILLI as int) - 1;
            let cs = if c > u64::MAX {
                u64::MAX as int
            } else {
                c
            };
            let s = if cs < spawn_y {
                spawn_y
            } else {
                cs
            };
            &&& s / (MILLI as int) <= y / (MILLI as int)
            &&& spawn_y <= s <= u64::MAX
        }),
{
    let m = MILLI as int;
    let q = y / m;
    let rem = y % m;
    vstd::arithmetic::div_mod::lemma_fundamental_div_mod(y, m);
    vstd::arithmetic::div_mod::lemma_mod_bound(y, m);
    let c = ((y + 999) / m) * m - 1;
    assert((y + 999) / m == if rem == 0 {
        q
    } else {
        q + 1
    }) by {
        if rem == 0 {
            assert(y == q * m);
            vstd::arithmetic::div_mod::lemma_hoist_over_denominator(999int, q, MILLI as nat);
            assert(999int / m == 0) by {
                vstd::arithmetic::div_mod::lemma_basic_div(999int, m);
            }
        } else {
            assert(y + 999 == (q + 1) * m + (rem - 1)) by (nonlinear_arith)
                requires
                    y == q * m + rem,
                    m == 1000,
            ;
            vstd::arithmetic::div_mod::lemma_hoist_over_denominator(rem - 1, q + 1, MILLI as nat);
            assert((rem - 1) / m == 0) by {
                vstd::arithmetic::div_mod::lemma_basic_div(rem - 1, m);
            }
        }
    }
    if rem == 0 {
        assert(c == q * m - 1);
        assert(c < y);
        if c >= spawn_y {
            assert(c / m <= y / m) by {
                vstd::arithmetic::div_mod::lemma_div_is_ordered(c, y, m);
            }
        } else {
            assert(spawn_y / m <= y / m) by {
                vstd::arithmetic::div_mod::lemma_div_is_ordered(spawn_y, y, m);
            }
        }
    } else {
        assert(c == (q + 1) * m - 1);
        assert(c == q * m + (m - 1)) by (nonlinear_arith)
            requires
                c == (q + 1) * m - 1,
                m == 1000,
        ;
        assert(c / m == q) by {
            vstd::arithmetic::div_mod::lemma_hoist_over_denominator(m - 1, q, MILLI as nat);
            vstd::arithmetic::div_mod::lemma_basic_div(m - 1, m);
        }
        assert(spawn_y <= c) by {
            assert(spawn_y <= y);
            assert(y <= q * m + (m - 1));
        }
        if c > u64::MAX {
            vstd::arithmetic::div_mod::lemma_div_is_ordered(y, u64::MAX as int, m);
        }
    }
}

/// A horizontal move is valid when the target column lies on the board
/// and its cell at the pillar's current row is unoccupied.
fn is_horizontal_move_valid(new_pillar_x: usize, pillar_y: u64, board: &crate::board::Board) -> (r:
    bool)
    requires
        board.wf(),
        (pillar_y as int) / (MILLI as int) < board.spec_y_len(),
    ensures
        r == ((new_pillar_x as int) < board.spec_x_len() && !(board.cell(
            new_pillar_x as int,
            pillar_y as int / (MILLI as int),
        ) is Some)),
{
    if new_pillar_x < board.x_len() {
        let cell = board.get_pp(PilPos { x: new_pillar_x, y: pillar_y });
        cell == BoardCell::Empty
    } else {
        false
    }
}

} // verus!
