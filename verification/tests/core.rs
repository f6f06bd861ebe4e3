//! Tests for the board engine, the pillar, scoring and the high-score
//! table.

use pillars::board::{
    fall_down, find_matches, is_game_over, write_pillar, Block, Board, BoardCell, Palette,
};
use pillars::game_loop::pilpos;
use pillars::helpful_things::{neighbours, search};
use pillars::pillar::Pillar;
use pillars::scoring::{calculate_points, HighScore, HighScoresTable};

fn count_blocks(board: &Board) -> usize {
    let [w, h] = board.sz();
    let mut n = 0;
    for x in 0..w {
        for y in 0..h {
            if let BoardCell::Contains(_) = board.get([x, y]) {
                n += 1;
            }
        }
    }
    n
}

#[test]
fn board_construction_and_access() {
    let board = Board::new([5, 8]);
    assert_eq!(board.x_len(), 5);
    assert_eq!(board.y_len(), 8);
    assert_eq!(board.sz(), [5, 8]);
    assert_eq!(board.get([0, 0]), BoardCell::Empty);
    assert_eq!(board.get([5, 0]), BoardCell::OutOfBounds);
    assert_eq!(board.get([0, 8]), BoardCell::OutOfBounds);
    assert_eq!(board.get_pp(pilpos(2, 7999)), BoardCell::Empty);
    assert_eq!(board.get_pp(pilpos(2, 8000)), BoardCell::OutOfBounds);
}

#[test]
fn board_set_and_get() {
    let mut board = Board::new([4, 6]);
    board.set([1, 3], Some(Block::Red));
    assert_eq!(board.get([1, 3]), BoardCell::Contains(Block::Red));
    assert_eq!(board.get_pp(pilpos(1, 3500)), BoardCell::Contains(Block::Red));
    board.set([1, 3], None);
    assert_eq!(board.get([1, 3]), BoardCell::Empty);
}

#[test]
fn gravity_idempotent_on_settled_board() {
    let mut board = Board::new([4, 6]);
    board.set([0, 5], Some(Block::Red));
    board.set([0, 4], Some(Block::Green));
    board.set([2, 5], Some(Block::Blue));
    // this board is already settled
    assert!(!fall_down(&mut board));
    assert_eq!(board.get([0, 5]), BoardCell::Contains(Block::Red));
    assert_eq!(board.get([0, 4]), BoardCell::Contains(Block::Green));
    assert_eq!(board.get([2, 5]), BoardCell::Contains(Block::Blue));
    assert_eq!(count_blocks(&board), 3);
}

#[test]
fn gravity_settles_and_conserves() {
    let mut board = Board::new([3, 6]);
    board.set([0, 0], Some(Block::Red));
    board.set([0, 2], Some(Block::Green));
    board.set([1, 3], Some(Block::Blue));
    assert_eq!(count_blocks(&board), 3);
    // the board has floating blocks, so the first call reports movement
    assert!(fall_down(&mut board));
    // a second call finds a settled board and reports none
    assert!(!fall_down(&mut board));
    // same blocks per column, merely fallen to the bottom in order
    assert_eq!(board.get([0, 4]), BoardCell::Contains(Block::Red));
    assert_eq!(board.get([0, 5]), BoardCell::Contains(Block::Green));
    assert_eq!(board.get([1, 5]), BoardCell::Contains(Block::Blue));
    assert_eq!(count_blocks(&board), 3);
}

#[test]
fn gravity_cascades_over_multiple_rows() {
    let mut board = Board::new([1, 8]);
    board.set([0, 0], Some(Block::Red));
    board.set([0, 1], Some(Block::Green));
    assert!(fall_down(&mut board));
    assert_eq!(board.get([0, 6]), BoardCell::Contains(Block::Red));
    assert_eq!(board.get([0, 7]), BoardCell::Contains(Block::Green));
    assert_eq!(count_blocks(&board), 2);
}

#[test]
fn connectivity_finds_l_shaped_group() {
    let mut board = Board::new([6, 8]);
    // an L of four red cells
    board.set([1, 4], Some(Block::Red));
    board.set([1, 5], Some(Block::Red));
    board.set([1, 6], Some(Block::Red));
    board.set([2, 6], Some(Block::Red));
    // an isolated cell of a unique color
    board.set([4, 2], Some(Block::Cyan));
    let ms = find_matches(&board, 3);
    assert_eq!(ms.len(), 4);
    assert!(ms.contains(&([1, 4], Block::Red)));
    assert!(ms.contains(&([1, 5], Block::Red)));
    assert!(ms.contains(&([1, 6], Block::Red)));
    assert!(ms.contains(&([2, 6], Block::Red)));
    for &(_, b) in ms.iter() {
        assert_ne!(b, Block::Cyan);
    }
}

#[test]
fn connectivity_ignores_small_and_differently_colored_groups() {
    let mut board = Board::new([6, 8]);
    board.set([0, 7], Some(Block::Red));
    board.set([1, 7], Some(Block::Red));
    board.set([2, 7], Some(Block::Green));
    board.set([3, 7], Some(Block::Green));
    assert_eq!(find_matches(&board, 3).len(), 0);
    assert_eq!(find_matches(&board, 2).len(), 4);
}

#[test]
fn search_collects_component() {
    let mut board = Board::new([5, 5]);
    board.set([0, 0], Some(Block::Red));
    board.set([1, 0], Some(Block::Red));
    board.set([1, 1], Some(Block::Red));
    board.set([3, 3], Some(Block::Red));
    let group = search([0, 0], &board, Block::Red);
    assert_eq!(group.len(), 3);
    assert!(group.contains(&[0, 0]));
    assert!(group.contains(&[1, 0]));
    assert!(group.contains(&[1, 1]));
    assert!(!group.contains(&[3, 3]));
}

#[test]
fn neighbours_of_interior_and_corner() {
    let n = neighbours([2, 3]);
    assert_eq!(n[0], [3, 3]);
    assert_eq!(n[1], [2, 4]);
    assert_eq!(n[2], [1, 3]);
    assert_eq!(n[3], [2, 2]);
    let c = neighbours([0, 0]);
    assert_eq!(c[0], [1, 0]);
    assert_eq!(c[1], [0, 1]);
    // wrapped coordinates are out of bounds for every board
    assert_eq!(c[2], [usize::MAX, 0]);
    assert_eq!(c[3], [0, usize::MAX]);
}

#[test]
fn write_pillar_places_blocks_upward() {
    let mut board = Board::new([4, 8]);
    let pillar = Pillar::new(vec![Block::Red, Block::Green, Block::Blue]);
    write_pillar(&mut board, &pillar, pilpos(2, 6999));
    assert_eq!(board.get([2, 4]), BoardCell::Contains(Block::Red));
    assert_eq!(board.get([2, 5]), BoardCell::Contains(Block::Green));
    assert_eq!(board.get([2, 6]), BoardCell::Contains(Block::Blue));
    assert_eq!(board.get([2, 7]), BoardCell::Empty);
}

#[test]
fn game_over_when_death_zone_occupied() {
    let mut board = Board::new([7, 20]);
    assert!(!is_game_over(&board, 3));
    board.set([5, 3], Some(Block::Red));
    assert!(is_game_over(&board, 3));
    let mut low = Board::new([7, 20]);
    low.set([5, 4], Some(Block::Red));
    assert!(!is_game_over(&low, 3));
    assert!(is_game_over(&low, 4));
}

#[test]
fn pillar_rotation_round_trip() {
    let mut p = Pillar::new(vec![Block::Red, Block::Green, Block::Blue]);
    p.rot_up();
    assert_eq!(p.iter().as_slice(), &[Block::Green, Block::Blue, Block::Red]);
    p.rot_down();
    assert_eq!(p.iter().as_slice(), &[Block::Red, Block::Green, Block::Blue]);
    p.rot_down();
    assert_eq!(p.iter().as_slice(), &[Block::Blue, Block::Red, Block::Green]);
    p.rot_up();
    assert_eq!(p.iter().as_slice(), &[Block::Red, Block::Green, Block::Blue]);
}

#[test]
fn pillar_full_cycle_restores_order() {
    let mut p = Pillar::new(vec![Block::Red, Block::Green, Block::Blue]);
    for _ in 0..3 {
        p.rot_up();
    }
    assert_eq!(p.iter().as_slice(), &[Block::Red, Block::Green, Block::Blue]);
    assert_eq!(p.len(), 3);
    assert_eq!(p.get(1), Block::Green);
}

#[test]
fn palette_starts_with_first_colors_and_expands_once_each() {
    let p = Palette::new(3);
    assert_eq!(p.len(), 3);
    assert_eq!(p.get(0), Block::Red);
    assert_eq!(p.get(1), Block::Green);
    assert_eq!(p.get(2), Block::Blue);
    let mut q = Palette::new(9);
    assert!(q.expand());
    assert_eq!(q.len(), 10);
    assert_eq!(q.get(9), Block::Black);
    // the color domain is exhausted: expanding further is a no-op
    assert!(!q.expand());
    assert_eq!(q.len(), 10);
}

#[test]
fn block_ordinals_cover_the_domain() {
    assert_eq!(Block::from_usize(0), Some(Block::Red));
    assert_eq!(Block::from_usize(9), Some(Block::Black));
    assert_eq!(Block::from_usize(10), None);
}

#[test]
fn scoring_exact_values() {
    assert_eq!(calculate_points(0, 1), 0);
    assert_eq!(calculate_points(1, 1), 0);
    assert_eq!(calculate_points(2, 1), 21);
    assert_eq!(calculate_points(3, 1), 47);
    assert_eq!(calculate_points(4, 1), 83);
    assert_eq!(calculate_points(3, 2), 86);
    assert_eq!(calculate_points(6, 3), 274);
    assert_eq!(calculate_points(10, 5), 632);
}

#[test]
fn scoring_monotonic_in_blocks_and_level() {
    for level in 1..6u64 {
        let mut prev = calculate_points(1, level);
        for m in 2..30u64 {
            let p = calculate_points(m, level);
            assert!(prev < p, "not monotonic at m={} level={}", m, level);
            prev = p;
        }
    }
    assert!(calculate_points(5, 1) <= calculate_points(5, 2));
}

#[test]
fn high_score_ordering_and_stability() {
    let mut t = HighScoresTable::new();
    t.insert(HighScore { score: 50, level: 1, handle: ['a', 'a', 'a'] });
    t.insert(HighScore { score: 10, level: 1, handle: ['b', 'b', 'b'] });
    t.insert(HighScore { score: 30, level: 1, handle: ['c', 'c', 'c'] });
    let scores: Vec<u64> = t.list().iter().map(|h| h.score).collect();
    assert_eq!(scores, vec![50, 30, 10]);
    // a tied entry goes behind the existing one
    let idx = t.insert(HighScore { score: 30, level: 2, handle: ['d', 'd', 'd'] });
    assert_eq!(idx, 2);
    assert_eq!(t.list()[1].handle, ['c', 'c', 'c']);
    assert_eq!(t.list()[2].handle, ['d', 'd', 'd']);
    assert_eq!(t.prev().as_ref().unwrap().handle, ['d', 'd', 'd']);
}

#[test]
fn insert_and_best() {
    let h = HighScore { score: 11, level: 10, handle: ['a', 'g', 'r'] };
    let mut t = HighScoresTable::new();
    assert!(t.best().is_none());
    t.insert(h);
    assert_eq!(t.best().unwrap().score, 11);
    assert_eq!(t.best().unwrap().level, 10);
    assert_eq!(t.best().unwrap().handle, ['a', 'g', 'r']);
}

#[test]
fn restore_rebuilds_table_with_previous_entry() {
    let entries = vec![
        HighScore { score: 50, level: 2, handle: ['a', 'a', 'a'] },
        HighScore { score: 30, level: 1, handle: ['b', 'b', 'b'] },
        HighScore { score: 30, level: 3, handle: ['c', 'c', 'c'] },
        HighScore { score: 10, level: 1, handle: ['d', 'd', 'd'] },
    ];
    let prev = Some(HighScore { score: 30, level: 3, handle: ['c', 'c', 'c'] });
    let t = HighScoresTable::restore(entries, prev).unwrap();
    let scores: Vec<u64> = t.list().iter().map(|h| h.score).collect();
    assert_eq!(scores, vec![50, 30, 30, 10]);
    assert_eq!(t.prev().as_ref().unwrap().handle, ['c', 'c', 'c']);
}

#[test]
fn restore_rejects_out_of_order_entries() {
    let entries = vec![
        HighScore { score: 10, level: 1, handle: ['a', 'a', 'a'] },
        HighScore { score: 50, level: 1, handle: ['b', 'b', 'b'] },
    ];
    assert!(HighScoresTable::restore(entries, None).is_none());
}

#[test]
fn find_position_is_first_smaller_score() {
    let mut t = HighScoresTable::new();
    t.insert(HighScore { score: 40, level: 1, handle: ['x', 'x', 'x'] });
    t.insert(HighScore { score: 20, level: 1, handle: ['y', 'y', 'y'] });
    assert_eq!(t.find_position(&HighScore { score: 50, level: 1, handle: [' ', ' ', ' '] }), 0);
    assert_eq!(t.find_position(&HighScore { score: 40, level: 1, handle: [' ', ' ', ' '] }), 1);
    assert_eq!(t.find_position(&HighScore { score: 30, level: 1, handle: [' ', ' ', ' '] }), 1);
    assert_eq!(t.find_position(&HighScore { score: 10, level: 1, handle: [' ', ' ', ' '] }), 2);
}
