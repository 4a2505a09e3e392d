//! Game logic of "catch the mouse", a two-player hex game played over the
//! network: a hunter blocks cells, a mouse (a player or the computer) tries to
//! reach the rim of the board.
pub mod board;
pub mod lobby;
pub mod game;
pub mod session;
pub mod client;
