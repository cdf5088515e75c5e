//! The `SharedString` type and supporting types.

use vstd::prelude::*;

use crate::chars::{
    char_is_lowercase, chars_eq_ignore_ascii_case, is_lowercase_char, lower_of,
    spec_eq_ignore_ascii_case, str_chars, str_eq, str_to_lowercase,
};

verus! {

/// Whether every character of `s` is classified as lowercase.
pub open spec fn all_lowercase(s: Seq<char>) -> bool {
    forall|i: int| 0 <= i < s.len() ==> is_lowercase_char(#[trigger] s[i])
}

/// The value `into_lowercase` returns: the string itself when every
/// character is already lowercase, its Unicode lowercase mapping
/// otherwise.
pub open spec fn spec_into_lowercase(s: Seq<char>) -> Seq<char> {
    if all_lowercase(s) {
        s
    } else {
        lower_of(s)
    }
}

/// Lowercases a string, leaving a string of lowercase characters as it is.
pub fn into_lowercase(string: &str) -> (r: String)
    ensures
        r@ == spec_into_lowercase(string@),
{
    let chars = str_chars(string);
    let n = chars.len();
    let mut i: usize = 0;
    while i < n
        invariant
            i <= n,
            n == chars@.len(),
            chars@ == string@,
            forall|k: int| 0 <= k < i ==> is_lowercase_char(#[trigger] chars@[k]),
        decreases n - i,
    {
        if !char_is_lowercase(chars[i]) {
            return str_to_lowercase(string);
        }
        i += 1;
    }
    String::from_str(string)
}

/// Where a value came from: a file path and a 1-indexed line number.
#[derive(Clone, Debug)]
pub struct Source {
    path: String,
    line: usize,
}

impl Source {
    /// The path and line number of this source.
    pub closed spec fn view(&self) -> (Seq<char>, int) {
        (self.path@, self.line as int)
    }

    /// Records a source location.
    pub fn new(path: &str, line: usize) -> (r: Source)
        ensures
            r@ == (path@, line as int),
    {
        Source { path: String::from_str(path), line }
    }

    /// Returns the path and line number.
    pub fn get(&self) -> (r: (&str, usize))
        ensures
            r.0@ == self@.0,
            r.1 as int == self@.1,
    {
        (self.path.as_str(), self.line)
    }
}

#[derive(Clone, Debug)]
enum SharedStringInner {
    Static(&'static str),
    Owned(String),
}

impl SharedStringInner {
    spec fn view(&self) -> Seq<char> {
        match self {
            SharedStringInner::Static(v) => v@,
            SharedStringInner::Owned(v) => v@,
        }
    }

    fn get(&self) -> (r: &str)
        ensures
            r@ == self@,
    {
        match self {
            SharedStringInner::Static(v) => v,
            SharedStringInner::Owned(v) => v.as_str(),
        }
    }

    fn duplicate(&self) -> (r: SharedStringInner)
        ensures
            r@ == self@,
    {
        match self {
            SharedStringInner::Static(v) => SharedStringInner::Static(v),
            SharedStringInner::Owned(v) => SharedStringInner::Owned(v.clone()),
        }
    }
}

/// A shared immutable string: either borrowed static text or owned text,
/// optionally remembering the file and line it came from.
#[derive(Clone, Debug)]
pub struct SharedString {
    value: SharedStringInner,
    source: Option<Source>,
}

impl SharedString {
    /// The characters of the string.
    pub closed spec fn view(&self) -> Seq<char> {
        self.value@
    }

    /// The recorded origin, if any.
    pub closed spec fn spec_source(&self) -> Option<(Seq<char>, int)> {
        match self.source {
            Some(ref src) => Some(src@),
            None => None,
        }
    }

    /// A `SharedString` equal to `"unset"`.
    pub fn unset() -> (r: SharedString)
        ensures
            r@ == "unset"@,
            r.spec_source() is None,
    {
        SharedString { value: SharedStringInner::Static("unset"), source: None }
    }

    /// A `SharedString` equal to `""`.
    pub fn empty() -> (r: SharedString)
        ensures
            r@ == ""@,
            r.spec_source() is None,
    {
        SharedString { value: SharedStringInner::Static(""), source: None }
    }

    /// Creates a string by copying the given text.
    pub fn new(value: &str) -> (r: SharedString)
        ensures
            r@ == value@,
            r.spec_source() is None,
    {
        SharedString { value: SharedStringInner::Owned(String::from_str(value)), source: None }
    }

    /// Creates a string borrowing static text, without copying.
    pub fn new_static(value: &'static str) -> (r: SharedString)
        ensures
            r@ == value@,
            r.spec_source() is None,
    {
        SharedString { value: SharedStringInner::Static(value), source: None }
    }

    /// A view of the text.
    pub fn as_str(&self) -> (r: &str)
        ensures
            r@ == self@,
    {
        self.value.get()
    }

    /// Whether the string is empty.
    pub fn is_empty(&self) -> (r: bool)
        ensures
            r == (self@.len() == 0),
    {
        self.value.get().is_empty()
    }

    /// An equal copy, sharing nothing with the original.
    pub fn duplicate(&self) -> (r: SharedString)
        ensures
            r@ == self@,
            r.spec_source() == self.spec_source(),
    {
        let src = match &self.source {
            Some(s) => Some(s.clone_source()),
            None => None,
        };
        SharedString { value: self.value.duplicate(), source: src }
    }

    /// The path and line number this value came from, if recorded.
    pub fn source(&self) -> (r: Option<(&str, usize)>)
        ensures
            r is Some <==> self.spec_source() is Some,
            r is Some ==> ((r->0).0@, (r->0).1 as int) == self.spec_source()->0,
    {
        match &self.source {
            Some(src) => Some(src.get()),
            None => None,
        }
    }

    /// Records the path and line number this value came from.
    ///
    /// The line number should be 1-indexed: the first line is line 1.
    pub fn set_source(&mut self, path: &str, line: usize)
        ensures
            final(self)@ == old(self)@,
            final(self).spec_source() == Some((path@, line as int)),
    {
        self.source = Some(Source::new(path, line));
    }

    /// Copies the source from another string.
    pub fn set_source_from(&mut self, other: &SharedString)
        ensures
            final(self)@ == old(self)@,
            final(self).spec_source() == other.spec_source(),
    {
        self.source = match &other.source {
            Some(s) => Some(s.clone_source()),
            None => None,
        };
    }

    /// Forgets the path and line number this value came from.
    pub fn clear_source(&mut self)
        ensures
            final(self)@ == old(self)@,
            final(self).spec_source() is None,
    {
        self.source = None;
    }

    /// Whether the text equals `other` up to ASCII case.
    pub fn eq_ignore_ascii_case(&self, other: &str) -> (r: bool)
        ensures
            r == spec_eq_ignore_ascii_case(self@, other@),
    {
        let a = str_chars(self.value.get());
        let b = str_chars(other);
        chars_eq_ignore_ascii_case(&a, &b)
    }

    /// A lowercased version of `self`; a string already lowercase is
    /// copied unchanged.
    pub fn into_lowercase(&self) -> (r: SharedString)
        ensures
            r@ == spec_into_lowercase(self@),
            r.spec_source() == self.spec_source(),
    {
        let lowered = into_lowercase(self.value.get());
        let src = match &self.source {
            Some(s) => Some(s.clone_source()),
            None => None,
        };
        SharedString { value: SharedStringInner::Owned(lowered), source: src }
    }

    /// Parses the contained value as a property type; an unset value (an
    /// empty string, or `unset` in any ASCII case) yields `Err(None)`.
    pub fn parse<T: crate::traits::PropertyValue>(&self) -> (r: Result<
        T,
        Option<crate::property::UnknownValueError>,
    >)
        ensures
            (self@.len() == 0 || spec_eq_ignore_ascii_case(self@, "unset"@)) ==> r == Err::<
                T,
                Option<crate::property::UnknownValueError>,
            >(None),
            !(self@.len() == 0 || spec_eq_ignore_ascii_case(self@, "unset"@)) ==> match T::spec_parse_val(
                self@,
            ) {
                Some(v) => r == Ok::<T, Option<crate::property::UnknownValueError>>(v),
                None => r is Err && (r matches Err(e) ==> e is Some),
            },
    {
        if self.is_empty() || self.eq_ignore_ascii_case("unset") {
            return Err(None);
        }
        match T::from_shared_string(self) {
            Ok(v) => Ok(v),
            Err(e) => Err(Some(e)),
        }
    }
}

impl Source {
    /// An equal copy of the source location.
    pub fn clone_source(&self) -> (r: Source)
        ensures
            r@ == self@,
    {
        Source { path: self.path.clone(), line: self.line }
    }
}

impl PartialEq for SharedString {
    /// Strings are equal when their text is; the source is not considered.
    fn eq(&self, other: &Self) -> (r: bool) {
        str_eq(self.as_str(), other.as_str())
    }
}

impl Eq for SharedString {

}

impl vstd::std_specs::cmp::PartialEqSpecImpl for SharedString {
    open spec fn obeys_eq_spec() -> bool {
        true
    }

    open spec fn eq_spec(&self, other: &SharedString) -> bool {
        self@ == other@
    }
}

/// Trait for types that can be written out as a [`SharedString`].
pub trait ToSharedString {
    /// The text the value writes out as.
    spec fn spec_text(&self) -> Seq<char>;

    /// Writes the value out.
    fn to_shared_string(self) -> (r: SharedString)
        ensures
            r@ == self.spec_text(),
    ;

    /// The text as a borrowed slice, where one exists without writing.
    fn try_as_str(&self) -> (r: Option<&str>)
        ensures
            r is Some ==> r->0@ == self.spec_text(),
    ;
}

} // verus!
