//! Rule engine of a falling-block puzzle game.
//!
//! A [`game::Game`] owns a board ([`grid::Grid`]) and the piece that is
//! falling on it ([`falling::FallingTetromino`]). Events move the piece,
//! rotate it with wall kicks, settle it on the board and take full rows out
//! ([`lines`]). The shapes of the pieces come from a
//! [`tetromino::Catalog`]; rotations are the four quarter turns of
//! [`math::Rotation`].
//!
//! Every function comes with a contract over a mathematical model of its
//! data: [`grid::GridView`], [`falling::Piece`], [`game::GameView`] and
//! [`math::Matrix2`].

pub mod falling;
pub mod game;
pub mod grid;
pub mod lines;
pub mod math;
pub mod tetromino;
