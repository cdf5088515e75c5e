//! The glob pattern engine: matcher programs, their compiler, and the
//! backtracking evaluator.

pub mod flatset;
pub mod globtype;
pub mod matcher;
pub mod parser;
pub mod splitter;
pub mod stack;

pub use flatset::FlatSet;
pub use globtype::Glob;
pub use matcher::Matcher;
pub use splitter::Splitter;
