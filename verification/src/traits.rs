//! Traits connecting property types to the property map.

use vstd::prelude::*;

use crate::property::UnknownValueError;
use crate::string::SharedString;

verus! {

/// Trait for types that can be parsed out of a [`SharedString`].
pub trait PropertyValue: Sized {
    /// What parsing yields for each text, if anything.
    spec fn spec_parse_val(s: Seq<char>) -> Option<Self>;

    /// Parses a value from a [`SharedString`].
    fn from_shared_string(value: &SharedString) -> (r: Result<Self, UnknownValueError>)
        ensures
            match Self::spec_parse_val(value@) {
                Some(v) => r == Ok::<Self, UnknownValueError>(v),
                None => r is Err,
            },
    ;
}

/// Trait for types that are associated with property names.
pub trait PropertyKey {
    /// The property's key.
    spec fn spec_key() -> Seq<char>;

    /// The lowercase string key for this property, used to look up the
    /// value in a property map.
    fn key() -> (r: &'static str)
        ensures
            r@ == Self::spec_key(),
    ;
}

} // verus!
