//! Types for controlling how patterns are read.

use vstd::prelude::*;

verus! {

/// The glob style to be used in section headers.
///
/// One style exists: the permissive dialect that the conformance suite for
/// the latest EditorConfig specification expects, where incorrect
/// constructions of classes or groups are parsed literally and `/` is not
/// permitted in character classes.
#[derive(Clone, Copy, PartialEq, Eq, Structural, Debug)]
pub enum GlobStyle {
    /// The style that follows the conformance suite.
    TestCompliant,
}

impl Default for GlobStyle {
    /// The conformance-suite style.
    fn default() -> (r: GlobStyle)
        ensures
            r == GlobStyle::TestCompliant,
    {
        GlobStyle::TestCompliant
    }
}

} // verus!
