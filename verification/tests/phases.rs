//! Tests for the timer, the command-activity state and the six-phase
//! state machine.

use rand::rngs::StdRng;
use rand::SeedableRng;

use pillars::board::{Block, Board, BoardCell, Palette};
use pillars::game_loop::{
    increase_level, pilpos, CommonState, Commands, GameLoop, GamePhase, SoundCue,
};
use pillars::game_is_over::GameIsOver;
use pillars::input::{InputState, PlayerCommand};
use pillars::pillar::Pillar;
use pillars::scoring::HighScoresTable;
use pillars::the_pillar_descending::ThePillarIsFalling;
use pillars::the_rules::GameRules;
use pillars::timer::Timer;

fn test_rng() -> StdRng {
    StdRng::seed_from_u64(7)
}

fn quiet_input() -> InputState {
    InputState::new()
}

fn test_common(board: Board) -> CommonState {
    CommonState {
        rules: GameRules::default(),
        board,
        next_pillar: Pillar::new(vec![Block::Red, Block::Green, Block::Blue]),
        palette: Palette::new(3),
        level: 1,
        drop_count: 0,
        pillar_fall_rate: 2400,
    }
}

fn test_falling(board: Board, pillar: Vec<Block>, x: usize, y: u64) -> ThePillarIsFalling {
    ThePillarIsFalling {
        common: test_common(board),
        pillar_pos: pilpos(x, y),
        current_pillar: Pillar::new(pillar),
        held_down_flag: true,
        rot_cooldown: 200,
        rot_timer: Timer::new(0),
        horizontal_move_timer: Timer::new(0),
        horizontal_move_cooldown: 100,
    }
}

#[test]
fn random_pillar_draws_from_palette() {
    let mut rng = test_rng();
    let palette = Palette::new(2);
    let p = Pillar::new_random(&mut rng, &palette, 5);
    assert_eq!(p.len(), 5);
    for i in 0..5 {
        let b = p.get(i);
        assert!(b == Block::Red || b == Block::Green, "block outside the palette");
    }
}

#[test]
fn random_palette_draw_is_a_palette_color() {
    let mut rng = test_rng();
    let palette = Palette::new(3);
    for _ in 0..50 {
        let b = palette.get_random(&mut rng);
        assert!(b == Block::Red || b == Block::Green || b == Block::Blue);
    }
}

#[test]
fn timer_counts_down_and_elapses() {
    let mut t = Timer::new(300);
    assert!(!t.has_elapsed());
    assert_eq!(t.time_left(), 300);
    assert!(!t.update(100));
    assert_eq!(t.time_left(), 200);
    assert!(t.update(250));
    assert!(t.has_elapsed());
    assert_eq!(t.time_left(), 0);
    t.set(50);
    assert!(!t.has_elapsed());
}

#[test]
fn input_edge_queries() {
    let mut input = InputState::new();
    assert!(input.inactive(PlayerCommand::Start));
    input.activate_command(PlayerCommand::Start);
    assert!(input.active(PlayerCommand::Start));
    assert!(input.just_active(PlayerCommand::Start));
    input.save_current();
    assert!(input.active(PlayerCommand::Start));
    assert!(!input.just_active(PlayerCommand::Start));
    input.deactivate_command(PlayerCommand::Start);
    assert!(input.just_inactive(PlayerCommand::Start));
    assert!(!input.just_active(PlayerCommand::MoveLeft));
}

#[test]
fn level_up_cycles_rate_rate_palette() {
    let board = Board::new([7, 20]);
    let mut common = test_common(board);
    // level 2: the third step of the cycle expands the palette
    increase_level(&mut common);
    assert_eq!(common.level, 2);
    assert_eq!(common.palette.len(), 4);
    assert_eq!(common.pillar_fall_rate, 2400);
    // level 3: fall rate speeds up
    increase_level(&mut common);
    assert_eq!(common.level, 3);
    assert_eq!(common.palette.len(), 4);
    assert_eq!(common.pillar_fall_rate, 2600);
    // level 4: fall rate speeds up again
    increase_level(&mut common);
    assert_eq!(common.level, 4);
    assert_eq!(common.pillar_fall_rate, 2800);
    // level 5: palette expands again
    increase_level(&mut common);
    assert_eq!(common.level, 5);
    assert_eq!(common.palette.len(), 5);
}

#[test]
fn title_starts_a_new_game_on_start() {
    let mut rng = test_rng();
    let mut input = InputState::new();
    input.activate_command(PlayerCommand::Start);
    let mut commands = Commands::new(0);
    let title = pillars::title_screen::TitleScreen::new();
    let next = title.update(&input, &mut rng, &mut commands);
    assert!(commands.reset_score);
    match next {
        GamePhase::Falling(f) => {
            assert_eq!(f.common.level, 1);
            assert_eq!(f.common.drop_count, 0);
            assert_eq!(f.pillar_pos.x, 3);
            assert_eq!(f.pillar_pos.y, 3000);
            assert_eq!(f.current_pillar.len(), 3);
            assert_eq!(f.common.board.sz(), [7, 20]);
        },
        _ => panic!("expected the falling phase"),
    }
}

#[test]
fn title_stays_without_start_and_quits_on_quit() {
    let mut rng = test_rng();
    let mut input = InputState::new();
    input.activate_command(PlayerCommand::Quit);
    let mut commands = Commands::new(0);
    let title = pillars::title_screen::TitleScreen::new();
    let next = title.update(&input, &mut rng, &mut commands);
    assert!(commands.quit);
    assert!(matches!(next, GamePhase::Title(_)));
}

#[test]
fn landing_scenario() {
    // a 7 by 20 board, pillar size 3, column 3 filled from row 19 up to
    // row 17; a pillar descending in column 3 must land once its floor
    // row reaches 16 and then fuse into rows 14 through 16
    let mut board = Board::new([7, 20]);
    board.set([3, 17], Some(Block::Red));
    board.set([3, 18], Some(Block::Green));
    board.set([3, 19], Some(Block::Blue));
    let falling = test_falling(board, vec![Block::Red, Block::Green, Block::Blue], 3, 3000);
    let input = quiet_input();
    let mut rng = test_rng();
    let mut scores = HighScoresTable::new();
    let mut commands = Commands::new(0);
    let mut phase = GamePhase::Falling(falling);
    let mut steps = 0;
    loop {
        match phase {
            GamePhase::Falling(f) => {
                phase = f.update(100, &input, &mut commands);
            },
            GamePhase::Landed(l) => {
                // landed with its floor position on row 16
                assert_eq!(l.pillar_pos.x, 3);
                assert_eq!(l.pillar_pos.y / 1000, 16);
                assert_eq!(commands.sounds.len(), 1);
                assert_eq!(commands.sounds[0], SoundCue::LandedThud);
                // the grace period elapses and the pillar fuses
                let next = l.update(400, &input, &mut rng, &scores, &mut commands);
                match next {
                    GamePhase::Falling(f2) => {
                        let b = &f2.common.board;
                        assert_eq!(b.get([3, 14]), BoardCell::Contains(Block::Red));
                        assert_eq!(b.get([3, 15]), BoardCell::Contains(Block::Green));
                        assert_eq!(b.get([3, 16]), BoardCell::Contains(Block::Blue));
                        assert_eq!(b.get([3, 13]), BoardCell::Empty);
                        assert_eq!(f2.common.drop_count, 1);
                        // the next drop starts from the spawn point
                        assert_eq!(f2.pillar_pos.x, 3);
                        assert_eq!(f2.pillar_pos.y, 3000);
                    },
                    _ => panic!("expected the next drop"),
                }
                return;
            },
            _ => panic!("unexpected phase"),
        }
        steps += 1;
        assert!(steps < 400, "the pillar never landed");
    }
}

#[test]
fn landing_with_match_enters_matching_phase() {
    // two red blocks already rest at the bottom of column 0; a pillar
    // whose bottom block is red lands beside them and completes a group
    let mut board = Board::new([7, 20]);
    board.set([0, 19], Some(Block::Red));
    board.set([0, 18], Some(Block::Red));
    let falling = test_falling(board, vec![Block::Green, Block::Blue, Block::Red], 0, 17900);
    let input = quiet_input();
    let mut rng = test_rng();
    let scores = HighScoresTable::new();
    let mut commands = Commands::new(0);
    let phase = GamePhase::Falling(falling);
    let landed = match phase {
        GamePhase::Falling(f) => f.update(300, &input, &mut commands),
        _ => unreachable!(),
    };
    match landed {
        GamePhase::Landed(l) => {
            assert_eq!(l.pillar_pos.y / 1000, 17);
            match l.update(301, &input, &mut rng, &scores, &mut commands) {
                GamePhase::Matching(m) => {
                    assert_eq!(m.match_count, 0);
                    assert_eq!(m.current_matches.len(), 3);
                    assert!(m.current_matches.contains(&([0, 17], Block::Red)));
                    assert!(m.current_matches.contains(&([0, 18], Block::Red)));
                    assert!(m.current_matches.contains(&([0, 19], Block::Red)));
                },
                _ => panic!("expected the matching phase"),
            }
        },
        _ => panic!("expected the landed phase"),
    }
}

#[test]
fn matching_clears_cells_and_emits_bursts() {
    let mut board = Board::new([7, 20]);
    board.set([0, 19], Some(Block::Red));
    board.set([0, 18], Some(Block::Red));
    board.set([1, 18], Some(Block::Red));
    board.set([2, 19], Some(Block::Green));
    let matching = pillars::matching_blocks::MatchingBlocks {
        common: test_common(board),
        timer: Timer::new(250),
        h_s: 0,
        match_count: 0,
        current_matches: vec![
            ([0, 19], Block::Red),
            ([0, 18], Block::Red),
            ([1, 18], Block::Red),
        ],
    };
    let input = quiet_input();
    let mut commands = Commands::new(0);
    match matching.update(251, &input, &mut commands) {
        GamePhase::Exploding(e) => {
            assert_eq!(e.match_count, 3);
            let b = &e.common.board;
            assert_eq!(b.get([0, 19]), BoardCell::Empty);
            assert_eq!(b.get([0, 18]), BoardCell::Empty);
            assert_eq!(b.get([1, 18]), BoardCell::Empty);
            assert_eq!(b.get([2, 19]), BoardCell::Contains(Block::Green));
            assert_eq!(commands.puffer.len(), 3);
            assert_eq!(commands.sounds, vec![SoundCue::MatchCleared]);
        },
        _ => panic!("expected the exploding phase"),
    }
}

#[test]
fn exploding_scores_and_starts_next_drop() {
    let mut board = Board::new([7, 20]);
    board.set([2, 19], Some(Block::Green));
    let exploding = pillars::exploding_blocks::ExplodingBlocks {
        common: test_common(board),
        timer: Timer::new(200),
        match_count: 3,
    };
    let input = quiet_input();
    let mut rng = test_rng();
    let scores = HighScoresTable::new();
    let mut commands = Commands::new(0);
    match exploding.update(201, &input, &mut rng, &scores, &mut commands) {
        GamePhase::Falling(f) => {
            // calculate_points(3, 1) points were banked for the cascade
            assert_eq!(commands.points_accum, 47);
            assert_eq!(f.common.drop_count, 0);
        },
        _ => panic!("expected the next drop"),
    }
}

#[test]
fn exploding_chains_into_matching_after_settling() {
    // a red block floats above two reds at the bottom; once gravity
    // settles it, a new group of three forms and the cascade continues
    let mut board = Board::new([7, 20]);
    board.set([0, 19], Some(Block::Red));
    board.set([1, 19], Some(Block::Red));
    board.set([2, 15], Some(Block::Red));
    let exploding = pillars::exploding_blocks::ExplodingBlocks {
        common: test_common(board),
        timer: Timer::new(200),
        match_count: 3,
    };
    let input = quiet_input();
    let mut rng = test_rng();
    let scores = HighScoresTable::new();
    let mut commands = Commands::new(0);
    match exploding.update(201, &input, &mut rng, &scores, &mut commands) {
        GamePhase::Matching(m) => {
            // the cascade count is carried over into the chained clear
            assert_eq!(m.match_count, 3);
            assert_eq!(m.current_matches.len(), 3);
            assert!(m.current_matches.contains(&([2, 19], Block::Red)));
        },
        _ => panic!("expected a chained matching phase"),
    }
}

#[test]
fn exploding_stays_when_settling_finds_no_match() {
    let mut board = Board::new([7, 20]);
    board.set([2, 15], Some(Block::Green));
    let exploding = pillars::exploding_blocks::ExplodingBlocks {
        common: test_common(board),
        timer: Timer::new(200),
        match_count: 2,
    };
    let input = quiet_input();
    let mut rng = test_rng();
    let scores = HighScoresTable::new();
    let mut commands = Commands::new(0);
    match exploding.update(201, &input, &mut rng, &scores, &mut commands) {
        GamePhase::Exploding(e) => {
            assert_eq!(e.match_count, 2);
            assert_eq!(e.common.board.get([2, 19]), BoardCell::Contains(Block::Green));
            assert_eq!(e.common.board.get([2, 15]), BoardCell::Empty);
        },
        _ => panic!("expected to stay in the exploding phase"),
    }
}

#[test]
fn exploding_detects_game_over() {
    let mut board = Board::new([7, 20]);
    // a settled, full column reaching the death zone
    for y in 2..20 {
        board.set([4, y], Some(if y % 2 == 0 { Block::Red } else { Block::Green }));
    }
    let exploding = pillars::exploding_blocks::ExplodingBlocks {
        common: test_common(board),
        timer: Timer::new(200),
        match_count: 0,
    };
    let input = quiet_input();
    let mut rng = test_rng();
    let scores = HighScoresTable::new();
    let mut commands = Commands::new(0);
    match exploding.update(201, &input, &mut rng, &scores, &mut commands) {
        GamePhase::Over(g) => {
            assert_eq!(g.rank, 1);
            assert_eq!(commands.sounds, vec![SoundCue::GameOver]);
        },
        _ => panic!("expected the game-over phase"),
    }
}

#[test]
fn game_over_name_entry_and_commit() {
    let board = Board::new([7, 20]);
    let scores_ref = HighScoresTable::new();
    let g = GameIsOver::new(test_common(board), &scores_ref, 120);
    assert_eq!(g.rank, 1);
    assert_eq!(g.name, [0, 0, 0]);
    let mut scores = HighScoresTable::new();
    let mut commands = Commands::new(120);
    // stepping the letter at the cursor: 0 cycles up to 1, which is 'a'
    let mut up = InputState::new();
    up.activate_command(PlayerCommand::RotUp);
    let mut phase = GamePhase::Over(g);
    for _ in 0..3 {
        // press rotate-up once (the cooldown timer starts elapsed)
        phase = match phase {
            GamePhase::Over(go) => go.update(300, &up, &mut scores, &mut commands),
            _ => panic!("expected the game-over phase"),
        };
        // move the cursor right
        let mut right = InputState::new();
        right.activate_command(PlayerCommand::MoveRight);
        phase = match phase {
            GamePhase::Over(go) => go.update(300, &right, &mut scores, &mut commands),
            _ => panic!("expected the game-over phase"),
        };
    }
    match &phase {
        GamePhase::Over(go) => assert_eq!(go.name, [1, 1, 1]),
        _ => panic!("expected the game-over phase"),
    }
    // committing with start records the entry and returns to the title
    let mut start = InputState::new();
    start.activate_command(PlayerCommand::Start);
    phase = match phase {
        GamePhase::Over(go) => go.update(16, &start, &mut scores, &mut commands),
        _ => panic!("expected the game-over phase"),
    };
    assert!(matches!(phase, GamePhase::Title(_)));
    assert!(commands.save_scores);
    assert_eq!(scores.list().len(), 1);
    assert_eq!(scores.list()[0].score, 120);
    assert_eq!(scores.list()[0].handle, ['a', 'a', 'a']);
}

#[test]
fn game_over_prefills_name_from_previous_entry() {
    let mut scores = HighScoresTable::new();
    scores.insert(pillars::scoring::HighScore { score: 5, level: 1, handle: ['a', 'g', 'r'] });
    let board = Board::new([7, 20]);
    let g = GameIsOver::new(test_common(board), &scores, 3);
    assert_eq!(g.name, [1, 7, 18]);
    assert_eq!(g.rank, 2);
}

#[test]
fn game_loop_runs_a_tick_and_banks_points() {
    let mut game = GameLoop::new(999);
    let mut rng = test_rng();
    let mut scores = HighScoresTable::new();
    // start a run from the title screen
    game.input_state.activate_command(PlayerCommand::Start);
    let commands = game.update(16, &mut rng, &mut scores);
    assert!(commands.reset_score);
    assert_eq!(game.current_score, 0);
    assert_eq!(game.high_score, 999);
    assert!(matches!(game.state, GamePhase::Falling(_)));
    // the next tick simply descends
    game.input_state.deactivate_command(PlayerCommand::Start);
    let _ = game.update(16, &mut rng, &mut scores);
    assert!(matches!(game.state, GamePhase::Falling(_)));
}

#[test]
fn fast_drop_waits_for_release_of_held_down() {
    let board = Board::new([7, 20]);
    let mut down = InputState::new();
    down.activate_command(PlayerCommand::MoveDown);
    down.save_current();
    let falling = test_falling(board, vec![Block::Red, Block::Green, Block::Blue], 3, 3000);
    let mut commands = Commands::new(0);
    // held over from the previous pillar: no fast drop yet
    match falling.update(100, &down, &mut commands) {
        GamePhase::Falling(f) => {
            assert_eq!(f.pillar_pos.y, 3240);
            assert!(f.held_down_flag);
        },
        _ => panic!("expected the falling phase"),
    }
}

#[test]
fn horizontal_move_respects_bounds_and_cooldown() {
    let board = Board::new([7, 20]);
    let mut left = InputState::new();
    left.activate_command(PlayerCommand::MoveLeft);
    let falling = test_falling(board, vec![Block::Red, Block::Green, Block::Blue], 0, 5000);
    let mut commands = Commands::new(0);
    // already in the leftmost column: the move is a no-op
    match falling.update(10, &left, &mut commands) {
        GamePhase::Falling(f) => {
            assert_eq!(f.pillar_pos.x, 0);
        },
        _ => panic!("expected the falling phase"),
    }
    let board2 = Board::new([7, 20]);
    let falling2 = test_falling(board2, vec![Block::Red, Block::Green, Block::Blue], 3, 5000);
    match falling2.update(10, &left, &mut commands) {
        GamePhase::Falling(f) => {
            assert_eq!(f.pillar_pos.x, 2);
        },
        _ => panic!("expected the falling phase"),
    }
}

#[test]
fn rotation_during_fall() {
    let board = Board::new([7, 20]);
    let mut rot = InputState::new();
    rot.activate_command(PlayerCommand::RotUp);
    let falling = test_falling(board, vec![Block::Red, Block::Green, Block::Blue], 3, 5000);
    let mut commands = Commands::new(0);
    match falling.update(10, &rot, &mut commands) {
        GamePhase::Falling(f) => {
            assert_eq!(
                f.current_pillar.iter().as_slice(),
                &[Block::Green, Block::Blue, Block::Red]
            );
        },
        _ => panic!("expected the falling phase"),
    }
}
