//! The title screen: shows the high-score table until the player starts
//! a new run (or quits).

use vstd::prelude::*;

use crate::game_loop::{Commands, GamePhase};
use crate::input::{InputState, PlayerCommand};
use crate::the_pillar_descending::ThePillarIsFalling;
use crate::the_rules::GameRules;

verus! {

pub struct TitleScreen {}

impl TitleScreen {
    pub fn new() -> (r: TitleScreen) {
        TitleScreen {  }
    }

    /// Everything one tick of the title screen does, as a relation
    /// between the incoming and outgoing command accumulators and the
    /// next phase: a quit command asks the program to quit; a start
    /// command resets the running score and begins a fresh run under
    /// the standard rules.
    pub open spec fn spec_step(self, input: InputState, c0: Commands, c1: Commands, r: GamePhase)
        -> bool {
        &&& c1.puffer == c0.puffer
        &&& c1.sounds == c0.sounds
        &&& c1.points_accum == c0.points_accum
        &&& c1.current_score == c0.current_score
        &&& c1.save_scores == c0.save_scores
        &&& c1.quit == (c0.quit || input.spec_just_active(PlayerCommand::Quit))
        &&& c1.reset_score == (c0.reset_score || input.spec_just_active(PlayerCommand::Start))
        &&& (input.spec_just_active(PlayerCommand::Start) ==> (r matches GamePhase::Falling(f)
            && {
            &&& f.common.level == 1
            &&& f.common.drop_count == 0
            &&& f.common.rules.matches_required == 3
            &&& f.common.rules.pillar_sz == 3
            &&& f.common.rules.board_sz[0] == 7 && f.common.rules.board_sz[1] == 16
            &&& f.common.palette@.len() == 3
            &&& (forall|x: int, y: int|
                f.common.board.in_bounds(x, y) ==> #[trigger] f.common.board.cell(x, y) is None)
            &&& f.pillar_pos == f.common.rules.pillar_spawn_pt
        }))
        &&& (!input.spec_just_active(PlayerCommand::Start) ==> r is Title)
    }

    /// One tick of the title screen. A quit command asks the program to
    /// quit; a start command resets the running score and begins a
    /// fresh run under the standard rules.
    pub fn update(self, input: &InputState, rng: &mut rand::rngs::StdRng, commands: &mut Commands)
        -> (r: GamePhase)
        ensures
            r.wf(),
            self.spec_step(*input, *old(commands), *final(commands), r),
    {
        if input.just_active(PlayerCommand::Quit) {
            commands.request_quit();
        }
        if input.just_active(PlayerCommand::Start) {
            commands.reset_score();
            let rules = GameRules::default();
            let new_state = ThePillarIsFalling::new_game(rules, rng);
            return GamePhase::Falling(new_state);
        }
        GamePhase::Title(self)
    }
}

} // verus!
