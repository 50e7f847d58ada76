//! Performance ratings ("match costs") for osu! multiplayer matches, and a few
//! small helpers of the bot that serves them.
//!
//! A match cost is a real number. This crate computes everything about it that
//! is integral: who took part, each player's score relative to the game's
//! total, the won-games tally, whether the tiebreaker and mod bonuses apply,
//! and the final grouping, ordering and choice of the most valuable player.
//! The one real-valued step, turning a player's terms into a number, is handed
//! in by the caller as a function that returns an order-preserving integer key.
//!
//! - [`model`]: games and scores, as they come in.
//! - [`game`]: the sums and the winner of one game.
//! - [`scores`]: the tally of won games.
//! - [`cost`]: the terms of a match cost, as exact fractions.
//! - [`index`]: the hash tables of the collecting pass.
//! - [`tally`]: the collecting pass, from games to one record per player.
//! - [`rank`]: the ordering of rated players and the most valuable player.
//! - [`match_costs`]: the rating of a whole match.
//! - [`args`]: the arguments of the match cost command.
//! - [`mapset`]: artist and title of a mapset to be guessed.

pub mod args;
pub mod cost;
pub mod game;
pub mod index;
pub mod mapset;
pub mod match_costs;
pub mod model;
pub mod rank;
pub mod scores;
pub mod tally;
