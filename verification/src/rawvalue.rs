//! Unparsed EditorConfig values.

use vstd::prelude::*;

use crate::chars::{lower_of, spec_eq_ignore_ascii_case, str_to_lowercase};
use crate::property::UnknownValueError;
use crate::string::SharedString;
use crate::traits::PropertyValue;

verus! {

/// Whether a stored text denotes the explicit `unset` value, compared
/// without regard to ASCII case.
pub open spec fn spec_is_unset_word(s: Seq<char>) -> bool {
    spec_eq_ignore_ascii_case(s, "unset"@)
}

/// An unparsed property value: conceptually an optional non-empty string,
/// optionally remembering the file and line it came from.
#[derive(Debug)]
pub struct RawValue {
    value: String,
    source: Option<(String, usize)>,
}

impl RawValue {
    /// The characters of the value; an unset value is empty.
    pub closed spec fn view(&self) -> Seq<char> {
        self.value@
    }

    /// The recorded origin, if any.
    pub closed spec fn spec_source(&self) -> Option<(Seq<char>, int)> {
        match self.source {
            Some((ref p, l)) => Some((p@, l as int)),
            None => None,
        }
    }

    /// An unset value.
    pub fn unset() -> (r: RawValue)
        ensures
            r@ == Seq::<char>::empty(),
            r.spec_source() is None,
    {
        RawValue { value: String::new(), source: None }
    }

    /// A value holding the given text.
    pub fn new(value: &str) -> (r: RawValue)
        ensures
            r@ == value@,
            r.spec_source() is None,
    {
        RawValue { value: String::from_str(value), source: None }
    }

    /// Returns true if the value is unset; a text of `unset` is not
    /// handled here.
    pub fn is_unset(&self) -> (r: bool)
        ensures
            r == (self@.len() == 0),
    {
        self.value.as_str().is_empty()
    }

    /// Whether the value is unset, either empty or by the word `unset` in
    /// any ASCII case.
    fn detect_unset(&self) -> (r: Option<bool>)
        ensures
            self@.len() == 0 ==> r == Some(false),
            self@.len() > 0 && spec_is_unset_word(self@) ==> r == Some(true),
            self@.len() > 0 && !spec_is_unset_word(self@) ==> r is None,
    {
        if self.is_unset() {
            Some(false)
        } else {
            let a = crate::chars::str_chars("unset");
            let b = crate::chars::str_chars(self.value.as_str());
            if crate::chars::chars_eq_ignore_ascii_case(&b, &a) {
                Some(true)
            } else {
                None
            }
        }
    }

    /// An unset value if this one spells `unset`, otherwise an equal copy.
    pub fn filter_unset(&self) -> (r: RawValue)
        ensures
            (self@.len() > 0 && spec_is_unset_word(self@)) ==> r@ == Seq::<char>::empty(),
            !(self@.len() > 0 && spec_is_unset_word(self@)) ==> r@ == self@,
    {
        match self.detect_unset() {
            Some(true) => RawValue::unset(),
            _ => self.duplicate(),
        }
    }

    /// Changes this value to unset if it spells `unset`.
    pub fn filter_unset_mut(&mut self)
        ensures
            (old(self)@.len() > 0 && spec_is_unset_word(old(self)@)) ==> final(self)@ == Seq::<
                char,
            >::empty(),
            !(old(self)@.len() > 0 && spec_is_unset_word(old(self)@)) ==> final(self)@ == old(
                self,
            )@,
    {
        match self.detect_unset() {
            Some(true) => {
                self.value = String::new();
            },
            _ => {},
        }
    }

    /// The value as a result: `Err(false)` when not set at all,
    /// `Err(true)` when set to the word `unset`, the text otherwise.
    pub fn into_result(&self) -> (r: Result<&str, bool>)
        ensures
            self@.len() == 0 ==> r == Err::<&str, bool>(false),
            self@.len() > 0 && spec_is_unset_word(self@) ==> r == Err::<&str, bool>(true),
            self@.len() > 0 && !spec_is_unset_word(self@) ==> r is Ok && r->Ok_0@ == self@,
    {
        match self.detect_unset() {
            Some(v) => Err(v),
            None => Ok(self.value.as_str()),
        }
    }

    /// The value as an option: nothing when unset.
    pub fn into_option(&self) -> (r: Option<&str>)
        ensures
            self@.len() == 0 ==> r is None,
            self@.len() > 0 ==> r is Some && r->0@ == self@,
    {
        if self.is_unset() {
            None
        } else {
            Some(self.value.as_str())
        }
    }

    /// The value as a text, writing an unset value as `unset`.
    pub fn into_str(&self) -> (r: &str)
        ensures
            self@.len() == 0 ==> r@ == "unset"@,
            self@.len() > 0 ==> r@ == self@,
    {
        if self.is_unset() {
            "unset"
        } else {
            self.value.as_str()
        }
    }

    /// Sets the contained value, dropping any recorded origin of the old
    /// one.
    pub fn set(&mut self, val: RawValue)
        ensures
            final(self)@ == val@,
            final(self).spec_source() == val.spec_source(),
    {
        *self = val;
    }

    /// Attempts to parse the contained value; an unset value, or the word
    /// `unset`, yields `Err(None)`.
    pub fn parse<T: PropertyValue>(&self) -> (r: Result<T, Option<UnknownValueError>>)
        ensures
            (self@.len() == 0 || spec_is_unset_word(self@)) ==> r == Err::<
                T,
                Option<UnknownValueError>,
            >(None),
            !(self@.len() == 0 || spec_is_unset_word(self@)) ==> match T::spec_parse_val(self@) {
                Some(v) => r == Ok::<T, Option<UnknownValueError>>(v),
                None => r is Err,
            },
    {
        let shared = SharedString::new(self.value.as_str());
        shared.parse::<T>()
    }

    /// A lowercased version of this value, keeping its origin.
    pub fn to_lowercase(&self) -> (r: RawValue)
        ensures
            r@ == lower_of(self@),
            r.spec_source() == self.spec_source(),
    {
        RawValue { value: str_to_lowercase(self.value.as_str()), source: self.clone_src() }
    }

    /// An equal copy.
    pub fn duplicate(&self) -> (r: RawValue)
        ensures
            r@ == self@,
            r.spec_source() == self.spec_source(),
    {
        RawValue { value: self.value.clone(), source: self.clone_src() }
    }

    /// A copy of the recorded origin.
    fn clone_src(&self) -> (r: Option<(String, usize)>)
        ensures
            match r {
                Some((p, l)) => self.spec_source() == Some((p@, l as int)),
                None => self.spec_source() is None,
            },
    {
        match &self.source {
            Some((p, l)) => Some((p.clone(), *l)),
            None => None,
        }
    }

    /// The path and line number this value came from, if recorded.
    ///
    /// The line number is 1-indexed: the first line is line 1.
    pub fn source(&self) -> (r: Option<(&str, usize)>)
        ensures
            r is Some <==> self.spec_source() is Some,
            r is Some ==> ((r->0).0@, (r->0).1 as int) == self.spec_source()->0,
    {
        match &self.source {
            Some((p, l)) => Some((p.as_str(), *l)),
            None => None,
        }
    }

    /// Records the path and line number this value came from.
    ///
    /// The line number should be 1-indexed: the first line is line 1.
    pub fn set_source(&mut self, path: &str, line: usize)
        ensures
            final(self)@ == old(self)@,
            final(self).spec_source() == Some((path@, line as int)),
    {
        self.source = Some((String::from_str(path), line));
    }

    /// Forgets the path and line number this value came from.
    pub fn clear_source(&mut self)
        ensures
            final(self)@ == old(self)@,
            final(self).spec_source() is None,
    {
        self.source = None;
    }
}

} // verus!
