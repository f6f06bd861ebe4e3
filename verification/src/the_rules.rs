//! Immutable per-game parameters, fixed at new-game start.

use vstd::prelude::*;

use crate::board::Palette;
use crate::game_loop::{PilPos, MILLI};

verus! {

/// The per-run configuration: board size, pillar size, match threshold,
/// leveling pace, spawn point, fall rates (milli-cells per second) and
/// input-repeat cooldowns (milliseconds).
#[derive(Clone, Debug)]
pub struct GameRules {
    pub matches_required: u64,
    pub drops_per_level: u64,
    pub pillar_sz: usize,
    /// Width and visible play height; the board itself gets
    /// `pillar_sz + 1` extra spawn/death buffer rows on top.
    pub board_sz: [usize; 2],
    pub initial_palette: Palette,
    pub pillar_spawn_pt: PilPos,
    pub initial_fall_rate: u64,
    pub fall_rate_increment: u64,
    pub max_fall_rate: u64,
    pub rot_cooldown: i64,
    pub horizontal_move_cooldown: i64,
}

impl GameRules {
    pub open spec fn wf(self) -> bool {
        &&& 0 < self.board_sz[0]
        &&& 3 < self.board_sz[1]
        &&& 0 < self.pillar_sz
        &&& self.board_sz[1] + self.pillar_sz + 1 <= usize::MAX
        &&& self.initial_palette.wf()
        &&& 0 < self.initial_palette@.len()
        &&& 0 < self.drops_per_level
        &&& (self.pillar_spawn_pt.x as int) < self.board_sz[0]
        &&& self.pillar_spawn_pt.y == self.pillar_sz * (MILLI as int)
        &&& 0 < self.initial_fall_rate <= self.max_fall_rate
    }
}

impl Default for GameRules {
    /// The standard game: a 7 by 16 visible board, pillars of three
    /// blocks, three colors to start with, matches of three, a level-up
    /// every ten drops.
    fn default() -> (r: GameRules)
        ensures
            r.wf(),
            r.matches_required == 3,
            r.drops_per_level == 10,
            r.pillar_sz == 3,
            r.board_sz[0] == 7 && r.board_sz[1] == 16,
            r.initial_palette@.len() == 3,
            r.pillar_spawn_pt.x == 3 && r.pillar_spawn_pt.y == 3000,
            r.initial_fall_rate == 2400,
            r.fall_rate_increment == 200,
            r.max_fall_rate == 25000,
            r.rot_cooldown == 150,
            r.horizontal_move_cooldown == 100,
    {
        let pillar_sz: usize = 3;
        GameRules {
            matches_required: 3,
            drops_per_level: 10,
            pillar_sz,
            board_sz: [7, 16],
            initial_palette: Palette::new(3),
            pillar_spawn_pt: PilPos { x: 3, y: 3000 },
            initial_fall_rate: 2400,
            fall_rate_increment: 200,
            max_fall_rate: 25000,
            rot_cooldown: 150,
            horizontal_move_cooldown: 100,
        }
    }
}

} // verus!
