//! A borrowed view of unparsed values in a property map.

use vstd::prelude::*;

use crate::chars::spec_eq_ignore_ascii_case;
use crate::property::UnknownValueError;
use crate::string::SharedString;
use crate::traits::PropertyValue;

verus! {

/// A borrowed unparsed value.
#[derive(Clone, Copy, Debug)]
pub enum RawValue<'a> {
    /// Absence of a value.
    Unset,
    /// The value `unset`, which has special behaviour for all common
    /// properties.
    UnsetExplicit,
    /// An unparsed value.
    Unknown(&'a str),
}

impl<'a> RawValue<'a> {
    /// Returns `UnsetExplicit` in place of a value spelling `unset` in
    /// any ASCII case; otherwise returns `self`.
    pub fn filter_unset(self) -> (r: RawValue<'a>)
        ensures
            match self {
                RawValue::Unknown(v) => if spec_eq_ignore_ascii_case(v@, "unset"@) {
                    r is UnsetExplicit
                } else {
                    r == self
                },
                _ => r == self,
            },
    {
        match self {
            RawValue::Unknown(v) => {
                let sv = SharedString::new(v);
                if sv.eq_ignore_ascii_case("unset") {
                    RawValue::UnsetExplicit
                } else {
                    self
                }
            },
            _ => self,
        }
    }

    /// Returns true if the value is unset, including by the value
    /// `unset`.
    pub fn is_unset(&self) -> (r: bool)
        ensures
            r == !(self is Unknown),
    {
        match self {
            RawValue::Unset => true,
            RawValue::UnsetExplicit => true,
            RawValue::Unknown(_) => false,
        }
    }

    /// The value as a result; the error is `true` exactly when the pair
    /// was unset by the value `unset`.
    pub fn into_result(&self) -> (r: Result<&'a str, bool>)
        ensures
            match self {
                RawValue::Unknown(s) => r is Ok && r->Ok_0@ == s@,
                RawValue::UnsetExplicit => r == Err::<&'a str, bool>(true),
                RawValue::Unset => r == Err::<&'a str, bool>(false),
            },
    {
        match self {
            RawValue::Unknown(s) => Ok(s),
            RawValue::UnsetExplicit => Err(true),
            RawValue::Unset => Err(false),
        }
    }

    /// The unparsed text; an explicitly unset pair reads as `unset`.
    pub fn value(&self) -> (r: Option<&'a str>)
        ensures
            match self {
                RawValue::Unset => r is None,
                RawValue::UnsetExplicit => r is Some && r->0@ == "unset"@,
                RawValue::Unknown(s) => r is Some && r->0@ == s@,
            },
    {
        match self {
            RawValue::Unset => None,
            RawValue::UnsetExplicit => Some("unset"),
            RawValue::Unknown(s) => Some(s),
        }
    }

    /// Attempts to parse the contained value, lowercasing it first when
    /// asked to; an unset value yields `Err(None)`.
    pub fn parse<T: PropertyValue, const LOWERCASE: bool>(&self) -> (r: Result<
        T,
        Option<UnknownValueError>,
    >)
        ensures
            !(self is Unknown) ==> r == Err::<T, Option<UnknownValueError>>(None),
            self is Unknown ==> {
                let s = if LOWERCASE {
                    crate::chars::lower_of(self->Unknown_0@)
                } else {
                    self->Unknown_0@
                };
                match T::spec_parse_val(s) {
                    Some(v) => r == Ok::<T, Option<UnknownValueError>>(v),
                    None => r is Err && (r matches Err(e) ==> e is Some),
                }
            },
    {
        match self {
            RawValue::Unknown(v) => {
                let text = if LOWERCASE {
                    crate::chars::str_to_lowercase(v)
                } else {
                    String::from_str(v)
                };
                let shared = SharedString::new(text.as_str());
                match T::from_shared_string(&shared) {
                    Ok(parsed) => Ok(parsed),
                    Err(e) => Err(Some(e)),
                }
            },
            _ => Err(None),
        }
    }
}

} // verus!
