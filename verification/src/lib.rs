//! Simulation core of a falling-block matching puzzle game.
//!
//! A vertical board receives descending multi-block "pillars"; landed blocks
//! form same-color connected groups that are cleared for score, gravity
//! re-settles the remainder, and a six-phase state machine sequences
//! falling, landing, matching, exploding, game over and restart.
//!
//! Time and sub-cell descent progress are measured in integer
//! milli-units (one cell, or one second, is 1000 units), so that every
//! per-tick computation is exact integer arithmetic.

pub mod board;
pub mod exploding_blocks;
pub mod game_is_over;
pub mod game_loop;
pub mod helpful_things;
pub mod input;
pub mod matching_blocks;
pub mod pillar;
pub mod rng;
pub mod scoring;
pub mod the_pillar_descending;
pub mod the_pillar_has_landed;
pub mod the_rules;
pub mod timer;
pub mod title_screen;
