//! The decision engine of a player of a territory game on a grid.
//!
//! Each turn the player moves one unit: it stays where it is, or takes one
//! step up, down, left or right. The engine looks at a snapshot of the game
//! and decides which. It finds the cell of the home zone that most
//! urgently needs defending, casts a ray in each direction to see what the
//! ground there is worth, and takes the direction that scores best.
//!
//! - [`roster`]: a table keyed by name that keeps the order of arrival.
//! - [`game`]: directions, teams, positions, players, squares and the
//!   snapshot of a game.
//! - [`board`]: the board, a rectangular grid with the players on it, and
//!   the marking of players on a grid.
//! - [`ai`]: the target, the survey of the five moves, and the choice.
//! - [`data`]: the game as text: team codes, the map, the players.
//! - [`show`]: players and squares counted by team.
//! - [`text`]: decimal numbers, fields and lines.
//!
//! Scores are fractions and are added up by the caller, who hands back
//! their ranks for the choice.

pub mod ai;
pub mod board;
pub mod data;
pub mod game;
pub mod roster;
pub mod show;
pub mod text;
