//! An EditorConfig parsing library.
//!
//! The core of the crate is a glob pattern engine: a compiler that turns an
//! EditorConfig-flavoured glob string into a program of matcher nodes, and a
//! backtracking evaluator that runs that program against a path. Around it
//! stand the INI-style line parser, the ordered property map, and the common
//! property types.

pub mod chars;
pub mod ecparser;
pub mod ecreader;
pub mod error;
pub mod fallback;
pub mod glob;
pub mod linereader;
pub mod options;
pub mod parser;
pub mod properties;
pub mod property;
pub mod rawvalue;
pub mod readerror;
pub mod section;
pub mod string;
pub mod traits;
pub mod version;

pub use chars::str_chars;
pub use glob::Glob;
pub use error::{Error, ParseError};
pub use readerror::ReadError;
pub use properties::{Properties, PropertiesSource};
pub use ecparser::EcParser;
pub use ecreader::EcReader;
pub use parser::ConfigParser;
pub use section::Section;
pub use traits::{PropertyKey, PropertyValue};
