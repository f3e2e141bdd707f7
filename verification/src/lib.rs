//! Core machinery for searching the state space of Rubik's-cube-family
//! puzzles: a group algebra on permutation and orientation vectors, a
//! bijective codec between those vectors and dense integer coordinates,
//! an explicit move algebra on cube states, and transition tables that
//! step between coordinates in constant time.

pub mod codec;
pub mod cube;
pub mod group;
pub mod laws;
pub mod moves;
pub mod table;

pub use group::Orientation;
pub use group::Permutation;
