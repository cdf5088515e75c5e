//! The version of the EditorConfig specification this library follows.

use vstd::prelude::*;

verus! {

/// The specification version, written out.
pub const STRING: &'static str = "0.17.2";

/// The specification's major version.
pub const MAJOR: usize = 0;

/// The specification's minor version.
pub const MINOR: usize = 17;

/// The specification's patch version.
pub const PATCH: usize = 2;

} // verus!
