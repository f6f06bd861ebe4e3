//! The game-over phase: a fading overlay and a three-character name
//! entry with a cyclic alphabet per character; committing the entry
//! records the score in the high-score table and returns to the title
//! screen.

use vstd::prelude::*;

use crate::game_loop::{CommonState, Commands, GamePhase};
use crate::input::{InputState, PlayerCommand};
use crate::scoring::{HighScore, HighScoresTable};
use crate::timer::Timer;
use crate::title_screen::TitleScreen;

verus! {

/// The letter with ordinal `i` (1 is 'a', 26 is 'z'); 0 stands for an
/// unchosen character.
pub open spec fn spec_letter(i: int) -> char {
    ((96 + i) as u8) as char
}

fn letter_of(i: u8) -> (r: char)
    requires
        1 <= i <= 26,
    ensures
        r == spec_letter(i as int),
{
    (96 + i) as char
}

/// The ordinal of a lowercase letter (1 for 'a' through 26 for 'z');
/// any other character counts as unchosen.
pub open spec fn spec_letter_index(c: char) -> int {
    if 'a' <= c <= 'z' {
        c as int - 96
    } else {
        0
    }
}

fn letter_index(c: char) -> (r: u8)
    ensures
        r == spec_letter_index(c),
        r <= 26,
{
    if 'a' <= c && c <= 'z' {
        ((c as u32) - 96) as u8
    } else {
        0
    }
}

pub struct GameIsOver {
    pub common: CommonState,
    pub timer: Timer,
    /// Chosen letter ordinals (0 is unchosen) for the three handle
    /// characters.
    pub name: [u8; 3],
    pub cursor: usize,
    pub cursor_cooldown: i64,
    /// Overlay fade-in progress in milli-units, capped at 900.
    pub fade: u64,
    pub rank: usize,
}

impl GameIsOver {
    pub open spec fn wf(self) -> bool {
        &&& self.common.wf()
        &&& self.cursor <= 2
        &&& forall|i: int| 0 <= i < 3 ==> (#[trigger] self.name[i]) <= 26
    }

    /// The prefilled name: the previous entry's handle mapped to letter
    /// ordinals, or all unchosen when the table has no previous entry.
    pub open spec fn spec_prefill(prev: Option<HighScore>, i: int) -> int {
        match prev {
            Some(h) => spec_letter_index(h.handle[i]),
            None => 0,
        }
    }

    /// Enters the game-over phase: ranks the finished run against the
    /// table (one-based, among the current entries) and prefills the
    /// name entry from the most recently recorded handle.
    pub fn new(common: CommonState, scores: &HighScoresTable, score: u64) -> (r: GameIsOver)
        requires
            common.wf(),
            scores@.len() < usize::MAX,
        ensures
            r.wf(),
            r.common == common,
            r.timer.0 == 0,
            r.cursor == 0,
            r.cursor_cooldown == 250,
            r.fade == 0,
            1 <= r.rank <= scores@.len() + 1,
            forall|i: int| 0 <= i < r.rank - 1 ==> (#[trigger] scores@[i]).score >= score,
            r.rank - 1 < scores@.len() ==> scores@[r.rank - 1].score < score,
            forall|i: int| 0 <= i < 3 ==> (#[trigger] r.name[i])
                == GameIsOver::spec_prefill(scores.spec_prev(), i),
    {
        let probe = HighScore { score, level: common.level, handle: [' ', ' ', ' '] };
        let rank = 1 + scores.find_position(&probe);
        let name: [u8; 3] = match scores.prev() {
            Some(h) => [
                letter_index(h.handle[0]),
                letter_index(h.handle[1]),
                letter_index(h.handle[2]),
            ],
            None => [0, 0, 0],
        };
        GameIsOver {
            common,
            timer: Timer::new(0),
            name,
            cursor: 0,
            cursor_cooldown: 250,
            fade: 0,
            rank,
        }
    }

    /// All three handle characters have been chosen.
    pub open spec fn spec_name_complete(self) -> bool {
        0 < self.name[0] && 0 < self.name[1] && 0 < self.name[2]
    }

    /// The handle the chosen name spells.
    pub open spec fn spec_handle(self) -> Seq<char> {
        seq![
            spec_letter(self.name[0] as int),
            spec_letter(self.name[1] as int),
            spec_letter(self.name[2] as int),
        ]
    }

    pub open spec fn spec_committed(self, input: InputState) -> bool {
        input.spec_just_active(PlayerCommand::Start) && self.spec_name_complete()
    }

    pub open spec fn spec_fade_after(self, dt: u64) -> int {
        if self.fade + dt / 2 > 900 {
            900
        } else {
            self.fade + dt / 2
        }
    }

    pub open spec fn spec_cursor_elapsed(self, dt: u64) -> bool {
        self.timer.spec_counted_down(dt) <= 0
    }

    /// Which editing action this tick performs, in priority order:
    /// cursor left, cursor right, letter up, letter down, or none.
    pub open spec fn spec_edit_action(self, dt: u64, input: InputState) -> int {
        if !self.spec_cursor_elapsed(dt) {
            0
        } else if input.spec_active(PlayerCommand::MoveLeft) {
            1
        } else if input.spec_active(PlayerCommand::MoveRight) {
            2
        } else if input.spec_active(PlayerCommand::RotUp) {
            3
        } else if input.spec_active(PlayerCommand::RotDown) {
            4
        } else {
            0
        }
    }

    pub open spec fn spec_cursor_after(self, dt: u64, input: InputState) -> int {
        let a = self.spec_edit_action(dt, input);
        if a == 1 {
            if self.cursor == 0 {
                0
            } else {
                self.cursor - 1
            }
        } else if a == 2 {
            if self.cursor + 1 > 2 {
                2
            } else {
                self.cursor + 1
            }
        } else {
            self.cursor as int
        }
    }

    /// Letter `i` of the name after this tick: stepping cyclically
    /// through 1..=26 at the cursor on a rotate command.
    pub open spec fn spec_name_after(self, dt: u64, input: InputState, i: int) -> int {
        let a = self.spec_edit_action(dt, input);
        if i == self.cursor && a == 3 {
            if self.name[i] >= 26 {
                1
            } else {
                self.name[i] + 1
            }
        } else if i == self.cursor && a == 4 {
            if self.name[i] <= 1 {
                26
            } else {
                self.name[i] - 1
            }
        } else {
            self.name[i] as int
        }
    }

    pub open spec fn spec_edit_timer_after(self, dt: u64, input: InputState) -> int {
        if self.spec_edit_action(dt, input) != 0 {
            self.cursor_cooldown as int
        } else {
            self.timer.spec_counted_down(dt)
        }
    }

    /// Everything one tick of the overlay does, as a relation between
    /// the incoming and outgoing high-score tables and command
    /// accumulators and the next phase: the fade advances; committing a
    /// complete name records the run, asks for a save and returns to
    /// the title screen; otherwise the cooldown gates cursor movement
    /// and cyclic letter stepping.
    pub open spec fn spec_step(
        self,
        dt: u64,
        input: InputState,
        s0: HighScoresTable,
        s1: HighScoresTable,
        c0: Commands,
        c1: Commands,
        r: GamePhase,
    ) -> bool {
        &&& c1.puffer == c0.puffer
        &&& c1.sounds == c0.sounds
        &&& c1.points_accum == c0.points_accum
        &&& c1.current_score == c0.current_score
        &&& c1.reset_score == c0.reset_score
        &&& c1.quit == c0.quit
        &&& (self.spec_committed(input) ==> {
            &&& r is Title
            &&& c1.save_scores
            &&& (s1.spec_prev() matches Some(h) && {
                &&& h.score == c0.spec_score()
                &&& h.level == self.common.level
                &&& h.handle@ == self.spec_handle()
                &&& exists|i: int| 0 <= i <= s0@.len() && s1@ == #[trigger] s0@.insert(i, h)
            })
        })
        &&& (!self.spec_committed(input) ==> {
            &&& s1 == s0
            &&& c1.save_scores == c0.save_scores
            &&& (r matches GamePhase::Over(g) && {
                &&& g.common == self.common
                &&& g.rank == self.rank
                &&& g.cursor_cooldown == self.cursor_cooldown
                &&& g.fade == self.spec_fade_after(dt)
                &&& g.cursor == self.spec_cursor_after(dt, input)
                &&& (forall|i: int|
                    0 <= i < 3 ==> (#[trigger] g.name[i]) == self.spec_name_after(dt, input, i))
                &&& g.timer.0 == self.spec_edit_timer_after(dt, input)
            })
        })
    }

    /// One tick of the overlay. The fade advances. Committing a
    /// complete name (start, all three characters chosen) records the
    /// run in the table, asks for it to be saved, and returns to the
    /// title screen; otherwise the cooldown gates cursor movement and
    /// cyclic letter stepping at the cursor.
    pub fn update(
        self,
        dt: u64,
        input: &InputState,
        scores: &mut HighScoresTable,
        commands: &mut Commands,
    ) -> (r: GamePhase)
        requires
            self.wf(),
            old(scores).wf(),
        ensures
            r.wf(),
            final(scores).wf(),
            self.spec_step(
                dt,
                *input,
                *old(scores),
                *final(scores),
                *old(commands),
                *final(commands),
                r,
            ),
    {
        let mut st = self;
        let half: u64 = dt / 2;
        let fw: u64 = if st.fade > 900 {
            900
        } else {
            st.fade
        };
        st.fade = if fw + half > 900 {
            900
        } else {
            fw + half
        };
        if input.just_active(PlayerCommand::Start) {
            if 0 < st.name[0] && 0 < st.name[1] && 0 < st.name[2] {
                let handle: [char; 3] = [
                    letter_of(st.name[0]),
                    letter_of(st.name[1]),
                    letter_of(st.name[2]),
                ];
                let h = HighScore { score: commands.get_score(), level: st.common.level, handle };
                let idx = scores.insert(h);
                proof {
                    assert(handle@ =~= self.spec_handle());
                    assert(scores@[idx as int] == h);
                    assert(scores@ == old(scores)@.insert(idx as int, scores@[idx as int]));
                }
                commands.request_save();
                return GamePhase::Title(TitleScreen::new());
            }
        }
        if st.timer.update(dt) {
            if input.active(PlayerCommand::MoveLeft) {
                if st.cursor > 0 {
                    st.cursor = st.cursor - 1;
                }
                st.timer.set(st.cursor_cooldown);
            } else if input.active(PlayerCommand::MoveRight) {
                st.cursor = st.cursor + 1;
                if st.cursor > 2 {
                    st.cursor = 2;
                }
                st.timer.set(st.cursor_cooldown);
            } else if input.active(PlayerCommand::RotUp) {
                let v = st.name[st.cursor];
                st.name[st.cursor] = if v >= 26 {
                    1
                } else {
                    v + 1
                };
                st.timer.set(st.cursor_cooldown);
            } else if input.active(PlayerCommand::RotDown) {
                let v = st.name[st.cursor];
                st.name[st.cursor] = if v <= 1 {
                    26
                } else {
                    v - 1
                };
                st.timer.set(st.cursor_cooldown);
            }
        }
        GamePhase::Over(st)
    }
}

} // verus!
