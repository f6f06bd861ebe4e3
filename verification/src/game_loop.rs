//! Shared run state, per-tick command accumulation, and the closed set
//! of game phases that own the run state in turn.

use vstd::prelude::*;

use crate::board::{Block, Board, Palette, BLOCK_KINDS};
use crate::pillar::Pillar;
use crate::input::InputState;
use crate::the_rules::GameRules;

verus! {

/// Milli-units per board cell (and per second of game time): sub-cell
/// descent progress and rates are fixed-point integers at this scale.
pub const MILLI: u64 = 1000;

/// Placement of the falling pillar: an integer column together with the
/// vertical descent progress of the pillar's lowest block, in
/// milli-cells. Only the whole-cell row is used for occupancy tests; the
/// milli-cell remainder drives smooth timed falling.
#[derive(Clone, Copy, Debug)]
pub struct PilPos {
    pub x: usize,
    /// Vertical position in milli-cells; `y / MILLI` is the board row.
    pub y: u64,
}

impl PilPos {
    /// The whole-cell board row of this position.
    pub open spec fn spec_row(self) -> int {
        self.y as int / MILLI as int
    }
}

/// A pillar position from a column and a milli-cell vertical
/// coordinate.
pub fn pilpos(x: usize, y: u64) -> (r: PilPos)
    ensures
        r.x == x,
        r.y == y,
{
    PilPos { x, y }
}

/// A fire-and-forget audio trigger the core emits for a collaborator to
/// play.
#[derive(Clone, Copy, Debug, Eq, PartialEq, Structural)]
pub enum SoundCue {
    LandedThud,
    MatchCleared,
    GameOver,
}

/// A transient visual burst descriptor emitted when a cell is cleared;
/// rendering the burst itself is a collaborator concern.
#[derive(Clone, Copy, Debug)]
pub struct PuffSeed {
    pub cell: [usize; 2],
    pub block: Block,
}

/// What one tick of the state machine asks its collaborators to do:
/// points to add, bursts to spawn, sounds to play, a score reset, a
/// high-score save, or quitting the program. Score arithmetic saturates
/// at `u64::MAX`.
pub struct Commands {
    pub points_accum: u64,
    pub puffer: Vec<PuffSeed>,
    pub current_score: u64,
    pub reset_score: bool,
    pub sounds: Vec<SoundCue>,
    pub quit: bool,
    pub save_scores: bool,
}

/// A command accumulator at the start of a tick: no effects yet, over
/// the given running score.
pub open spec fn spec_fresh_commands(c: Commands, current_score: u64) -> bool {
    &&& c.points_accum == 0
    &&& c.puffer@ == Seq::<PuffSeed>::empty()
    &&& c.current_score == current_score
    &&& !c.reset_score
    &&& c.sounds@ == Seq::<SoundCue>::empty()
    &&& !c.quit
    &&& !c.save_scores
}

impl Commands {
    /// A fresh per-tick command accumulator over the given running
    /// score.
    pub fn new(current_score: u64) -> (r: Commands)
        ensures
            spec_fresh_commands(r, current_score),
    {
        Commands {
            points_accum: 0,
            puffer: Vec::new(),
            current_score,
            reset_score: false,
            sounds: Vec::new(),
            quit: false,
            save_scores: false,
        }
    }

    pub open spec fn spec_score(self) -> int {
        if self.current_score + self.points_accum > u64::MAX {
            u64::MAX as int
        } else {
            self.current_score + self.points_accum
        }
    }

    /// Everything except the named effect accumulators is unchanged.
    pub open spec fn same_but_effects(self, other: Commands) -> bool {
        &&& self.points_accum == other.points_accum
        &&& self.current_score == other.current_score
        &&& self.reset_score == other.reset_score
        &&& self.quit == other.quit
        &&& self.save_scores == other.save_scores
    }

    pub fn add_to_score(&mut self, points: u64)
        ensures
            final(self).points_accum == if old(self).points_accum + points > u64::MAX {
                u64::MAX as int
            } else {
                old(self).points_accum + points
            },
            final(self).puffer == old(self).puffer,
            final(self).current_score == old(self).current_score,
            final(self).reset_score == old(self).reset_score,
            final(self).sounds == old(self).sounds,
            final(self).quit == old(self).quit,
            final(self).save_scores == old(self).save_scores,
    {
        self.points_accum = self.points_accum.saturating_add(points);
    }

    pub fn add_puff(&mut self, puff: PuffSeed)
        ensures
            final(self).puffer@ == old(self).puffer@.push(puff),
            final(self).sounds == old(self).sounds,
            old(self).same_but_effects(*final(self)),
    {
        self.puffer.push(puff);
    }

    pub fn add_sound(&mut self, cue: SoundCue)
        ensures
            final(self).sounds@ == old(self).sounds@.push(cue),
            final(self).puffer == old(self).puffer,
            old(self).same_but_effects(*final(self)),
    {
        self.sounds.push(cue);
    }

    /// The running score including this tick's points, saturated.
    pub fn get_score(&self) -> (r: u64)
        ensures
            r == self.spec_score(),
    {
        self.current_score.saturating_add(self.points_accum)
    }

    /// Asks for the running score to be reset (a new run begins).
    pub fn reset_score(&mut self)
        ensures
            final(self).reset_score,
            final(self).points_accum == old(self).points_accum,
            final(self).current_score == old(self).current_score,
            final(self).puffer == old(self).puffer,
            final(self).sounds == old(self).sounds,
            final(self).quit == old(self).quit,
            final(self).save_scores == old(self).save_scores,
    {
        self.reset_score = true;
    }

    /// Asks for the program to quit.
    pub fn request_quit(&mut self)
        ensures
            final(self).quit,
            final(self).points_accum == old(self).points_accum,
            final(self).current_score == old(self).current_score,
            final(self).puffer == old(self).puffer,
            final(self).sounds == old(self).sounds,
            final(self).reset_score == old(self).reset_score,
            final(self).save_scores == old(self).save_scores,
    {
        self.quit = true;
    }

    /// Asks for the high-score table to be persisted.
    pub fn request_save(&mut self)
        ensures
            final(self).save_scores,
            final(self).points_accum == old(self).points_accum,
            final(self).current_score == old(self).current_score,
            final(self).puffer == old(self).puffer,
            final(self).sounds == old(self).sounds,
            final(self).reset_score == old(self).reset_score,
            final(self).quit == old(self).quit,
    {
        self.save_scores = true;
    }
}

/// The mutable aggregate owned by exactly one state-machine phase at a
/// time; ownership moves wholly with every phase transition.
pub struct CommonState {
    pub rules: GameRules,
    pub board: Board,
    pub next_pillar: Pillar,
    pub palette: Palette,
    pub level: u64,
    pub drop_count: u64,
    pub pillar_fall_rate: u64,
}

impl CommonState {
    pub open spec fn wf(self) -> bool {
        &&& self.rules.wf()
        &&& self.board.wf()
        &&& self.board.spec_x_len() == self.rules.board_sz[0]
        &&& self.board.spec_y_len() == self.rules.board_sz[1] + self.rules.pillar_sz + 1
        &&& self.palette.wf()
        &&& 0 < self.palette@.len()
        &&& self.next_pillar@.len() == self.rules.pillar_sz
        &&& 1 <= self.level
        &&& 0 < self.pillar_fall_rate <= self.rules.max_fall_rate
    }
}

/// How a level-up changes the leveling fields: the level rises by one
/// (saturating), and depending on the new level's residue, either the
/// fall rate speeds up (clamped to the configured maximum) or the
/// palette gains one more color (a no-op once all colors are in use).
pub open spec fn spec_leveled_fields(a: CommonState, b: CommonState) -> bool {
    &&& b.level == (if a.level == u64::MAX {
        u64::MAX as int
    } else {
        a.level + 1
    })
    &&& ((b.level % 3 == 0 || b.level % 3 == 1) ==> {
        &&& b.palette@ == a.palette@
        &&& b.pillar_fall_rate == (if a.pillar_fall_rate + a.rules.fall_rate_increment
            > a.rules.max_fall_rate {
            a.rules.max_fall_rate as int
        } else {
            a.pillar_fall_rate + a.rules.fall_rate_increment
        })
    })
    &&& (b.level % 3 == 2 ==> {
        &&& b.pillar_fall_rate == a.pillar_fall_rate
        &&& (a.palette@.len() < BLOCK_KINDS ==> b.palette@ == a.palette@.push(
            Block::spec_from_usize(a.palette@.len() as int)->Some_0,
        ))
        &&& (a.palette@.len() >= BLOCK_KINDS ==> b.palette@ == a.palette@)
    })
}

/// Raises the level by one. Two of every three level-ups speed the fall
/// rate up (clamped to the configured maximum); the third expands the
/// palette by one more color (a no-op once all colors are in use). The
/// level saturates at `u64::MAX`.
pub fn increase_level(common: &mut CommonState)
    requires
        old(common).wf(),
    ensures
        final(common).wf(),
        final(common).rules == old(common).rules,
        final(common).board == old(common).board,
        final(common).next_pillar == old(common).next_pillar,
        final(common).drop_count == old(common).drop_count,
        spec_leveled_fields(*old(common), *final(common)),
{
    common.level = common.level.saturating_add(1);
    if common.level % 3 == 2 {
        common.palette.expand();
    } else {
        let raised = common.pillar_fall_rate.saturating_add(common.rules.fall_rate_increment);
        common.pillar_fall_rate = if raised < common.rules.max_fall_rate {
            raised
        } else {
            common.rules.max_fall_rate
        };
    }
}

/// The closed set of game phases. Each variant holds the shared run
/// state (where it has one) plus its phase-local fields; the transition
/// function consumes the current variant and produces the next, so the
/// run state always has exactly one live owner.
pub enum GamePhase {
    Title(crate::title_screen::TitleScreen),
    Falling(crate::the_pillar_descending::ThePillarIsFalling),
    Landed(crate::the_pillar_has_landed::ThePillarHasLanded),
    Matching(crate::matching_blocks::MatchingBlocks),
    Exploding(crate::exploding_blocks::ExplodingBlocks),
    Over(crate::game_is_over::GameIsOver),
}

impl GamePhase {
    pub open spec fn wf(self) -> bool {
        match self {
            GamePhase::Title(_) => true,
            GamePhase::Falling(f) => f.wf(),
            GamePhase::Landed(l) => l.wf(),
            GamePhase::Matching(m) => m.wf(),
            GamePhase::Exploding(e) => e.wf(),
            GamePhase::Over(g) => g.wf(),
        }
    }

    /// Dispatches one tick to the active phase, which consumes the run
    /// state and yields the next phase.
    pub fn update(
        self,
        dt: u64,
        input: &InputState,
        rng: &mut rand::rngs::StdRng,
        scores: &mut crate::scoring::HighScoresTable,
        commands: &mut Commands,
    ) -> (r: GamePhase)
        requires
            self.wf(),
            old(scores).wf(),
            old(scores)@.len() < usize::MAX,
        ensures
            r.wf(),
            final(scores).wf(),
            final(commands).current_score == old(commands).current_score,
            !(self is Over) ==> *final(scores) == *old(scores),
            self matches GamePhase::Title(t) ==> t.spec_step(
                *input,
                *old(commands),
                *final(commands),
                r,
            ),
            self matches GamePhase::Falling(f) ==> f.spec_step(
                dt,
                *input,
                *old(commands),
                *final(commands),
                r,
            ),
            self matches GamePhase::Landed(l) ==> l.spec_step(
                dt,
                *input,
                *old(commands),
                *final(commands),
                r,
            ),
            self matches GamePhase::Matching(m) ==> m.spec_step(
                dt,
                *old(commands),
                *final(commands),
                r,
            ),
            self matches GamePhase::Exploding(e) ==> e.spec_step(
                dt,
                *old(commands),
                *final(commands),
                r,
            ),
            self matches GamePhase::Over(g) ==> g.spec_step(
                dt,
                *input,
                *old(scores),
                *final(scores),
                *old(commands),
                *final(commands),
                r,
            ),
            self is Title ==> (r is Title || r is Falling),
            self is Falling ==> (r is Falling || r is Landed),
            self is Landed ==> (r is Landed || r is Matching || r is Over || r is Falling),
            self is Matching ==> (r is Matching || r is Exploding),
            self is Exploding ==> (r is Exploding || r is Matching || r is Over || r is Falling),
            self is Over ==> (r is Over || r is Title),
    {
        match self {
            GamePhase::Title(t) => t.update(input, rng, commands),
            GamePhase::Falling(f) => f.update(dt, input, commands),
            GamePhase::Landed(l) => l.update(dt, input, rng, &*scores, commands),
            GamePhase::Matching(m) => m.update(dt, input, commands),
            GamePhase::Exploding(e) => e.update(dt, input, rng, &*scores, commands),
            GamePhase::Over(g) => g.update(dt, input, scores, commands),
        }
    }
}

/// The whole game: the active phase, the command-activity snapshots,
/// and the running and best scores.
pub struct GameLoop {
    pub input_state: InputState,
    pub current_score: u64,
    pub high_score: u64,
    pub state: GamePhase,
}

impl GameLoop {
    pub open spec fn wf(self) -> bool {
        self.state.wf()
    }

    /// A fresh game at the title screen; `high_score` is the best score
    /// the loaded table holds.
    pub fn new(high_score: u64) -> (r: GameLoop)
        ensures
            r.wf(),
            r.current_score == 0,
            r.high_score == high_score,
            r.state is Title,
    {
        GameLoop {
            input_state: InputState::new(),
            current_score: 0,
            high_score,
            state: GamePhase::Title(crate::title_screen::TitleScreen::new()),
        }
    }

    /// One tick: steps the active phase, banks this tick's points into
    /// the running score (saturating), raises the best score when it is
    /// beaten, applies a requested score reset, and saves the current
    /// command snapshot as the previous one. The returned commands tell
    /// the caller which effects (sounds, bursts, a table save, quitting)
    /// to perform.
    pub fn update(
        &mut self,
        dt: u64,
        rng: &mut rand::rngs::StdRng,
        scores: &mut crate::scoring::HighScoresTable,
    ) -> (r: Commands)
        requires
            old(self).wf(),
            old(scores).wf(),
            old(scores)@.len() < usize::MAX,
        ensures
            final(self).wf(),
            final(scores).wf(),
            final(self).current_score == (if old(self).current_score + r.points_accum > u64::MAX {
                if r.reset_score {
                    0int
                } else {
                    u64::MAX as int
                }
            } else {
                if r.reset_score {
                    0int
                } else {
                    old(self).current_score + r.points_accum
                }
            }),
            final(self).high_score == (if old(self).high_score >= (if old(self).current_score
                + r.points_accum > u64::MAX {
                u64::MAX as int
            } else {
                old(self).current_score + r.points_accum
            }) {
                old(self).high_score as int
            } else {
                (if old(self).current_score + r.points_accum > u64::MAX {
                    u64::MAX as int
                } else {
                    old(self).current_score + r.points_accum
                })
            }),
            r.current_score == old(self).current_score,
            final(self).input_state.previous == old(self).input_state.current,
            final(self).input_state.current == old(self).input_state.current,
            old(self).state is Title ==> (final(self).state is Title || final(self).state
                is Falling),
            old(self).state is Falling ==> (final(self).state is Falling || final(self).state
                is Landed),
            old(self).state is Landed ==> (final(self).state is Landed || final(self).state
                is Matching || final(self).state is Over || final(self).state is Falling),
            old(self).state is Matching ==> (final(self).state is Matching || final(self).state
                is Exploding),
            old(self).state is Exploding ==> (final(self).state is Exploding || final(self).state
                is Matching || final(self).state is Over || final(self).state is Falling),
            old(self).state is Over ==> (final(self).state is Over || final(self).state is Title),
            old(self).state matches GamePhase::Title(t) ==> (exists|c0: Commands|
                #[trigger] spec_fresh_commands(c0, old(self).current_score) && t.spec_step(
                    old(self).input_state,
                    c0,
                    r,
                    final(self).state,
                )),
            old(self).state matches GamePhase::Falling(f) ==> (exists|c0: Commands|
                #[trigger] spec_fresh_commands(c0, old(self).current_score) && f.spec_step(
                    dt,
                    old(self).input_state,
                    c0,
                    r,
                    final(self).state,
                )),
            old(self).state matches GamePhase::Landed(l) ==> (exists|c0: Commands|
                #[trigger] spec_fresh_commands(c0, old(self).current_score) && l.spec_step(
                    dt,
                    old(self).input_state,
                    c0,
                    r,
                    final(self).state,
                )),
            old(self).state matches GamePhase::Matching(m) ==> (exists|c0: Commands|
                #[trigger] spec_fresh_commands(c0, old(self).current_score) && m.spec_step(
                    dt,
                    c0,
                    r,
                    final(self).state,
                )),
            old(self).state matches GamePhase::Exploding(e) ==> (exists|c0: Commands|
                #[trigger] spec_fresh_commands(c0, old(self).current_score) && e.spec_step(
                    dt,
                    c0,
                    r,
                    final(self).state,
                )),
            old(self).state matches GamePhase::Over(g) ==> (exists|c0: Commands|
                #[trigger] spec_fresh_commands(c0, old(self).current_score) && g.spec_step(
                    dt,
                    old(self).input_state,
                    *old(scores),
                    *final(scores),
                    c0,
                    r,
                    final(self).state,
                )),
    {
        let mut commands = Commands::new(self.current_score);
        let ghost c0 = commands;
        let input = self.input_state;
        let mut state = GamePhase::Title(crate::title_screen::TitleScreen::new());
        core::mem::swap(&mut state, &mut self.state);
        let next = state.update(dt, &input, rng, scores, &mut commands);
        proof {
            assert(spec_fresh_commands(c0, old(self).current_score));
        }
        self.state = next;
        self.current_score = self.current_score.saturating_add(commands.points_accum);
        if self.high_score < self.current_score {
            self.high_score = self.current_score;
        }
        if commands.reset_score {
            self.current_score = 0;
        }
        self.input_state.save_current();
        commands
    }
}

} // verus!
