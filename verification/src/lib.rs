//! A small collection of verified course-sized algorithms: the integer
//! core of a dense neural-network trainer (shape algebra, argmax,
//! one-hot rows, accuracy counting), a wrapping game-of-life board,
//! random walks over a directed graph with a text-file parser, binary
//! trees with exact diameter computations, a recipe-matching query over
//! plain text data, and a column-oriented data frame.

pub mod frame;
pub mod graph;
pub mod life;
pub mod network;
pub mod node;
pub mod numbers;
pub mod parse;
pub mod point;
mod random;
pub mod recipes;
pub mod text;
pub mod tree;
pub mod tree_ops;
