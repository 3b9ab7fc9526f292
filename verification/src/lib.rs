//! Solver for a tile puzzle played on a three-by-three grid of digits.
//!
//! A puzzle consists of a starting board, a goal board and a list of
//! single-use tools. Every tool is a small pattern that may be placed
//! anywhere inside the frame (and turned, when its notation allows it)
//! before it acts on the board. The crate offers the pattern algebra
//! ([`Figure`]), the five board transitions, and an exhaustive
//! breadth-first search ([`solve`]) over boards and remaining tools.
//!
//! Every function states what it computes over a mathematical model of
//! its arguments: [`FigureView`] for patterns, [`tool::ToolView`] for
//! tools, [`tool::StateView`] for a board with the tools that are left.
//! The modules [`symmetry`], [`grammar`] and [`moves`] hold the laws that
//! relate these functions to each other.

pub mod board;
pub mod cell;
pub mod copy_paste;
pub mod display;
pub mod figure;
pub mod grammar;
pub mod moves;
pub mod notation;
pub mod solver;
pub mod swap;
pub mod symmetry;
pub mod tool;

pub use board::Board;
pub use cell::{Direction, InbentoCell, Mark, AREA, SIZE};
pub use copy_paste::{CopyPaste, CopyPasteCell};
pub use figure::{Figure, FigureView, Piece, Push, Shape};
pub use notation::ParserError;
pub use solver::solve;
pub use swap::Swap;
pub use tool::Tool;
