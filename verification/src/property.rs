//! Common EditorConfig property types.
//!
//! Every current universal property of the standard, plus some common
//! enough to be worth supporting. Each type has an `Unset` variant so the
//! special value `unset` and future additions can be represented.

use vstd::prelude::*;

use crate::chars::{
    parse_usize, spec_ascii_lower, spec_ascii_upper, spec_fmt_usize, spec_parse_usize, str_chars,
    str_eq, usize_string,
};
use crate::string::{spec_into_lowercase, SharedString, ToSharedString};
use crate::traits::{PropertyKey, PropertyValue};

verus! {

/// Error for common property parse failures.
#[derive(Clone, Copy, PartialEq, Eq, Structural, Debug)]
pub struct UnknownValueError;

/// The `indent_style` property.
#[derive(Clone, Copy, PartialEq, Eq, Structural, Debug)]
pub enum IndentStyle {
    /// No style chosen.
    Unset,
    /// Indent with tabs.
    Tabs,
    /// Indent with spaces.
    Spaces,
}

impl PropertyValue for IndentStyle {
    open spec fn spec_parse_val(s: Seq<char>) -> Option<IndentStyle> {
        let low = spec_into_lowercase(s);
        if low == "tab"@ {
            Some(IndentStyle::Tabs)
        } else if low == "space"@ {
            Some(IndentStyle::Spaces)
        } else {
            None
        }
    }

    fn from_shared_string(value: &SharedString) -> (r: Result<IndentStyle, UnknownValueError>) {
        let low = value.into_lowercase();
        if str_eq(low.as_str(), "tab") {
            Ok(IndentStyle::Tabs)
        } else if str_eq(low.as_str(), "space") {
            Ok(IndentStyle::Spaces)
        } else {
            Err(UnknownValueError)
        }
    }
}

impl PropertyKey for IndentStyle {
    open spec fn spec_key() -> Seq<char> {
        "indent_style"@
    }

    fn key() -> (r: &'static str) {
        "indent_style"
    }
}

impl ToSharedString for IndentStyle {
    open spec fn spec_text(&self) -> Seq<char> {
        match self {
            IndentStyle::Unset => "unset"@,
            IndentStyle::Tabs => "tab"@,
            IndentStyle::Spaces => "space"@,
        }
    }

    fn to_shared_string(self) -> (r: SharedString) {
        match self {
            IndentStyle::Unset => SharedString::new_static("unset"),
            IndentStyle::Tabs => SharedString::new_static("tab"),
            IndentStyle::Spaces => SharedString::new_static("space"),
        }
    }

    fn try_as_str(&self) -> (r: Option<&str>) {
        match self {
            IndentStyle::Unset => Some("unset"),
            IndentStyle::Tabs => Some("tab"),
            IndentStyle::Spaces => Some("space"),
        }
    }
}

/// The `indent_size` property.
#[derive(Clone, Copy, PartialEq, Eq, Structural, Debug)]
pub enum IndentSize {
    /// No size chosen.
    Unset,
    /// A column count.
    Value(usize),
    /// Use the value of `tab_width`.
    UseTabWidth,
}

impl PropertyValue for IndentSize {
    open spec fn spec_parse_val(s: Seq<char>) -> Option<IndentSize> {
        let low = spec_into_lowercase(s);
        if low == "unset"@ {
            Some(IndentSize::Unset)
        } else if low == "tab"@ {
            Some(IndentSize::UseTabWidth)
        } else {
            match spec_parse_usize(low) {
                Some(v) => Some(IndentSize::Value(v)),
                None => None,
            }
        }
    }

    fn from_shared_string(value: &SharedString) -> (r: Result<IndentSize, UnknownValueError>) {
        let low = value.into_lowercase();
        if str_eq(low.as_str(), "unset") {
            Ok(IndentSize::Unset)
        } else if str_eq(low.as_str(), "tab") {
            Ok(IndentSize::UseTabWidth)
        } else {
            let chars = str_chars(low.as_str());
            match parse_usize(&chars) {
                Some(v) => Ok(IndentSize::Value(v)),
                None => Err(UnknownValueError),
            }
        }
    }
}

impl PropertyKey for IndentSize {
    open spec fn spec_key() -> Seq<char> {
        "indent_size"@
    }

    fn key() -> (r: &'static str) {
        "indent_size"
    }
}

impl ToSharedString for IndentSize {
    open spec fn spec_text(&self) -> Seq<char> {
        match self {
            IndentSize::Unset => "unset"@,
            IndentSize::Value(v) => spec_fmt_usize(*v as int),
            IndentSize::UseTabWidth => "tab"@,
        }
    }

    fn to_shared_string(self) -> (r: SharedString) {
        match self {
            IndentSize::Unset => SharedString::new_static("unset"),
            IndentSize::Value(v) => {
                let text = usize_string(v);
                SharedString::new(text.as_str())
            },
            IndentSize::UseTabWidth => SharedString::new_static("tab"),
        }
    }

    fn try_as_str(&self) -> (r: Option<&str>) {
        match self {
            IndentSize::Unset => Some("unset"),
            IndentSize::Value(_) => None,
            IndentSize::UseTabWidth => Some("tab"),
        }
    }
}

/// The `tab_width` property.
#[derive(Clone, Copy, PartialEq, Eq, Structural, Debug)]
pub enum TabWidth {
    /// No width chosen.
    Unset,
    /// A column count.
    Value(usize),
}

impl PropertyValue for TabWidth {
    open spec fn spec_parse_val(s: Seq<char>) -> Option<TabWidth> {
        let low = spec_into_lowercase(s);
        if low == "unset"@ {
            Some(TabWidth::Unset)
        } else {
            match spec_parse_usize(low) {
                Some(v) => Some(TabWidth::Value(v)),
                None => None,
            }
        }
    }

    fn from_shared_string(value: &SharedString) -> (r: Result<TabWidth, UnknownValueError>) {
        let low = value.into_lowercase();
        if str_eq(low.as_str(), "unset") {
            Ok(TabWidth::Unset)
        } else {
            let chars = str_chars(low.as_str());
            match parse_usize(&chars) {
                Some(v) => Ok(TabWidth::Value(v)),
                None => Err(UnknownValueError),
            }
        }
    }
}

impl PropertyKey for TabWidth {
    open spec fn spec_key() -> Seq<char> {
        "tab_width"@
    }

    fn key() -> (r: &'static str) {
        "tab_width"
    }
}

impl ToSharedString for TabWidth {
    open spec fn spec_text(&self) -> Seq<char> {
        match self {
            TabWidth::Unset => "unset"@,
            TabWidth::Value(v) => spec_fmt_usize(*v as int),
        }
    }

    fn to_shared_string(self) -> (r: SharedString) {
        match self {
            TabWidth::Unset => SharedString::new_static("unset"),
            TabWidth::Value(v) => {
                let text = usize_string(v);
                SharedString::new(text.as_str())
            },
        }
    }

    fn try_as_str(&self) -> (r: Option<&str>) {
        match self {
            TabWidth::Unset => Some("unset"),
            TabWidth::Value(_) => None,
        }
    }
}

/// The `end_of_line` property.
#[derive(Clone, Copy, PartialEq, Eq, Structural, Debug)]
pub enum EndOfLine {
    /// No line ending chosen.
    Unset,
    /// Line feed.
    Lf,
    /// Carriage return and line feed.
    CrLf,
    /// Carriage return.
    Cr,
}

impl PropertyValue for EndOfLine {
    open spec fn spec_parse_val(s: Seq<char>) -> Option<EndOfLine> {
        let low = spec_into_lowercase(s);
        if low == "lf"@ {
            Some(EndOfLine::Lf)
        } else if low == "crlf"@ {
            Some(EndOfLine::CrLf)
        } else if low == "cr"@ {
            Some(EndOfLine::Cr)
        } else {
            None
        }
    }

    fn from_shared_string(value: &SharedString) -> (r: Result<EndOfLine, UnknownValueError>) {
        let low = value.into_lowercase();
        if str_eq(low.as_str(), "lf") {
            Ok(EndOfLine::Lf)
        } else if str_eq(low.as_str(), "crlf") {
            Ok(EndOfLine::CrLf)
        } else if str_eq(low.as_str(), "cr") {
            Ok(EndOfLine::Cr)
        } else {
            Err(UnknownValueError)
        }
    }
}

impl PropertyKey for EndOfLine {
    open spec fn spec_key() -> Seq<char> {
        "end_of_line"@
    }

    fn key() -> (r: &'static str) {
        "end_of_line"
    }
}

impl ToSharedString for EndOfLine {
    open spec fn spec_text(&self) -> Seq<char> {
        match self {
            EndOfLine::Unset => "unset"@,
            EndOfLine::Lf => "lf"@,
            EndOfLine::CrLf => "crlf"@,
            EndOfLine::Cr => "cr"@,
        }
    }

    fn to_shared_string(self) -> (r: SharedString) {
        match self {
            EndOfLine::Unset => SharedString::new_static("unset"),
            EndOfLine::Lf => SharedString::new_static("lf"),
            EndOfLine::CrLf => SharedString::new_static("crlf"),
            EndOfLine::Cr => SharedString::new_static("cr"),
        }
    }

    fn try_as_str(&self) -> (r: Option<&str>) {
        match self {
            EndOfLine::Unset => Some("unset"),
            EndOfLine::Lf => Some("lf"),
            EndOfLine::CrLf => Some("crlf"),
            EndOfLine::Cr => Some("cr"),
        }
    }
}

/// The `charset` property.
#[derive(Clone, Copy, PartialEq, Eq, Structural, Debug)]
pub enum Charset {
    /// No character set chosen.
    Unset,
    /// UTF-8.
    Utf8,
    /// Latin-1.
    Latin1,
    /// UTF-16, little endian.
    Utf16Le,
    /// UTF-16, big endian.
    Utf16Be,
    /// UTF-8 with a byte-order mark.
    Utf8Bom,
}

impl PropertyValue for Charset {
    open spec fn spec_parse_val(s: Seq<char>) -> Option<Charset> {
        let low = spec_into_lowercase(s);
        if low == "utf-8"@ {
            Some(Charset::Utf8)
        } else if low == "latin1"@ {
            Some(Charset::Latin1)
        } else if low == "utf-16le"@ {
            Some(Charset::Utf16Le)
        } else if low == "utf-16be"@ {
            Some(Charset::Utf16Be)
        } else if low == "utf-8-bom"@ {
            Some(Charset::Utf8Bom)
        } else {
            None
        }
    }

    fn from_shared_string(value: &SharedString) -> (r: Result<Charset, UnknownValueError>) {
        let low = value.into_lowercase();
        if str_eq(low.as_str(), "utf-8") {
            Ok(Charset::Utf8)
        } else if str_eq(low.as_str(), "latin1") {
            Ok(Charset::Latin1)
        } else if str_eq(low.as_str(), "utf-16le") {
            Ok(Charset::Utf16Le)
        } else if str_eq(low.as_str(), "utf-16be") {
            Ok(Charset::Utf16Be)
        } else if str_eq(low.as_str(), "utf-8-bom") {
            Ok(Charset::Utf8Bom)
        } else {
            Err(UnknownValueError)
        }
    }
}

impl PropertyKey for Charset {
    open spec fn spec_key() -> Seq<char> {
        "charset"@
    }

    fn key() -> (r: &'static str) {
        "charset"
    }
}

impl ToSharedString for Charset {
    open spec fn spec_text(&self) -> Seq<char> {
        match self {
            Charset::Unset => "unset"@,
            Charset::Utf8 => "utf-8"@,
            Charset::Latin1 => "latin1"@,
            Charset::Utf16Le => "utf-16le"@,
            Charset::Utf16Be => "utf-16be"@,
            Charset::Utf8Bom => "utf-8-bom"@,
        }
    }

    fn to_shared_string(self) -> (r: SharedString) {
        match self {
            Charset::Unset => SharedString::new_static("unset"),
            Charset::Utf8 => SharedString::new_static("utf-8"),
            Charset::Latin1 => SharedString::new_static("latin1"),
            Charset::Utf16Le => SharedString::new_static("utf-16le"),
            Charset::Utf16Be => SharedString::new_static("utf-16be"),
            Charset::Utf8Bom => SharedString::new_static("utf-8-bom"),
        }
    }

    fn try_as_str(&self) -> (r: Option<&str>) {
        match self {
            Charset::Unset => Some("unset"),
            Charset::Utf8 => Some("utf-8"),
            Charset::Latin1 => Some("latin1"),
            Charset::Utf16Le => Some("utf-16le"),
            Charset::Utf16Be => Some("utf-16be"),
            Charset::Utf8Bom => Some("utf-8-bom"),
        }
    }
}

/// The `trim_trailing_whitespace` property.
#[derive(Clone, Copy, PartialEq, Eq, Structural, Debug)]
pub enum TrimTrailingWs {
    /// No choice made.
    Unset,
    /// Whether to trim trailing whitespace.
    Value(bool),
}

impl PropertyValue for TrimTrailingWs {
    open spec fn spec_parse_val(s: Seq<char>) -> Option<TrimTrailingWs> {
        let low = spec_into_lowercase(s);
        if low == "unset"@ {
            Some(TrimTrailingWs::Unset)
        } else if low == "true"@ {
            Some(TrimTrailingWs::Value(true))
        } else if low == "false"@ {
            Some(TrimTrailingWs::Value(false))
        } else {
            None
        }
    }

    fn from_shared_string(value: &SharedString) -> (r: Result<TrimTrailingWs, UnknownValueError>) {
        let low = value.into_lowercase();
        if str_eq(low.as_str(), "unset") {
            Ok(TrimTrailingWs::Unset)
        } else if str_eq(low.as_str(), "true") {
            Ok(TrimTrailingWs::Value(true))
        } else if str_eq(low.as_str(), "false") {
            Ok(TrimTrailingWs::Value(false))
        } else {
            Err(UnknownValueError)
        }
    }
}

impl PropertyKey for TrimTrailingWs {
    open spec fn spec_key() -> Seq<char> {
        "trim_trailing_whitespace"@
    }

    fn key() -> (r: &'static str) {
        "trim_trailing_whitespace"
    }
}

impl ToSharedString for TrimTrailingWs {
    open spec fn spec_text(&self) -> Seq<char> {
        match self {
            TrimTrailingWs::Unset => "unset"@,
            TrimTrailingWs::Value(true) => "true"@,
            TrimTrailingWs::Value(false) => "false"@,
        }
    }

    fn to_shared_string(self) -> (r: SharedString) {
        match self {
            TrimTrailingWs::Unset => SharedString::new_static("unset"),
            TrimTrailingWs::Value(true) => SharedString::new_static("true"),
            TrimTrailingWs::Value(false) => SharedString::new_static("false"),
        }
    }

    fn try_as_str(&self) -> (r: Option<&str>) {
        match self {
            TrimTrailingWs::Unset => Some("unset"),
            TrimTrailingWs::Value(true) => Some("true"),
            TrimTrailingWs::Value(false) => Some("false"),
        }
    }
}

/// The `insert_final_newline` property.
#[derive(Clone, Copy, PartialEq, Eq, Structural, Debug)]
pub enum FinalNewline {
    /// No choice made.
    Unset,
    /// Whether to end the file with a newline.
    Value(bool),
}

impl PropertyValue for FinalNewline {
    open spec fn spec_parse_val(s: Seq<char>) -> Option<FinalNewline> {
        let low = spec_into_lowercase(s);
        if low == "unset"@ {
            Some(FinalNewline::Unset)
        } else if low == "true"@ {
            Some(FinalNewline::Value(true))
        } else if low == "false"@ {
            Some(FinalNewline::Value(false))
        } else {
            None
        }
    }

    fn from_shared_string(value: &SharedString) -> (r: Result<FinalNewline, UnknownValueError>) {
        let low = value.into_lowercase();
        if str_eq(low.as_str(), "unset") {
            Ok(FinalNewline::Unset)
        } else if str_eq(low.as_str(), "true") {
            Ok(FinalNewline::Value(true))
        } else if str_eq(low.as_str(), "false") {
            Ok(FinalNewline::Value(false))
        } else {
            Err(UnknownValueError)
        }
    }
}

impl PropertyKey for FinalNewline {
    open spec fn spec_key() -> Seq<char> {
        "insert_final_newline"@
    }

    fn key() -> (r: &'static str) {
        "insert_final_newline"
    }
}

impl ToSharedString for FinalNewline {
    open spec fn spec_text(&self) -> Seq<char> {
        match self {
            FinalNewline::Unset => "unset"@,
            FinalNewline::Value(true) => "true"@,
            FinalNewline::Value(false) => "false"@,
        }
    }

    fn to_shared_string(self) -> (r: SharedString) {
        match self {
            FinalNewline::Unset => SharedString::new_static("unset"),
            FinalNewline::Value(true) => SharedString::new_static("true"),
            FinalNewline::Value(false) => SharedString::new_static("false"),
        }
    }

    fn try_as_str(&self) -> (r: Option<&str>) {
        match self {
            FinalNewline::Unset => Some("unset"),
            FinalNewline::Value(true) => Some("true"),
            FinalNewline::Value(false) => Some("false"),
        }
    }
}

/// The `max_line_length` property.
#[derive(Clone, Copy, PartialEq, Eq, Structural, Debug)]
pub enum MaxLineLen {
    /// No limit chosen.
    Unset,
    /// A column count.
    Value(usize),
}

impl PropertyValue for MaxLineLen {
    open spec fn spec_parse_val(s: Seq<char>) -> Option<MaxLineLen> {
        let low = spec_into_lowercase(s);
        if low == "unset"@ {
            Some(MaxLineLen::Unset)
        } else {
            match spec_parse_usize(low) {
                Some(v) => Some(MaxLineLen::Value(v)),
                None => None,
            }
        }
    }

    fn from_shared_string(value: &SharedString) -> (r: Result<MaxLineLen, UnknownValueError>) {
        let low = value.into_lowercase();
        if str_eq(low.as_str(), "unset") {
            Ok(MaxLineLen::Unset)
        } else {
            let chars = str_chars(low.as_str());
            match parse_usize(&chars) {
                Some(v) => Ok(MaxLineLen::Value(v)),
                None => Err(UnknownValueError),
            }
        }
    }
}

impl PropertyKey for MaxLineLen {
    open spec fn spec_key() -> Seq<char> {
        "max_line_length"@
    }

    fn key() -> (r: &'static str) {
        "max_line_length"
    }
}

impl ToSharedString for MaxLineLen {
    open spec fn spec_text(&self) -> Seq<char> {
        match self {
            MaxLineLen::Unset => "unset"@,
            MaxLineLen::Value(v) => spec_fmt_usize(*v as int),
        }
    }

    fn to_shared_string(self) -> (r: SharedString) {
        match self {
            MaxLineLen::Unset => SharedString::new_static("unset"),
            MaxLineLen::Value(v) => {
                let text = usize_string(v);
                SharedString::new(text.as_str())
            },
        }
    }

    fn try_as_str(&self) -> (r: Option<&str>) {
        match self {
            MaxLineLen::Unset => Some("unset"),
            MaxLineLen::Value(_) => None,
        }
    }
}

/// Whether `c` is an ASCII letter.
pub open spec fn spec_ascii_alpha(c: char) -> bool {
    ('a' <= c && c <= 'z') || ('A' <= c && c <= 'Z')
}

/// The subset of BCP 47 language tags permitted by the EditorConfig
/// standard: a two-letter language, optionally with a two-letter region.
#[derive(Clone, Copy, PartialEq, Eq, Structural, Debug)]
pub struct LanguageTag {
    /// The language's first letter, lowercased.
    pub lang0: char,
    /// The language's second letter, lowercased.
    pub lang1: char,
    /// The region's first letter, uppercased; NUL when absent.
    pub region0: char,
    /// The region's second letter, uppercased; NUL when absent.
    pub region1: char,
}

/// What parsing a language tag yields: the language lowercased and the
/// region uppercased; an absent region is held as two NUL characters.
pub open spec fn spec_lang_tag(s: Seq<char>) -> Option<LanguageTag> {
    if s.len() == 2 && spec_ascii_alpha(s[0]) && spec_ascii_alpha(s[1]) {
        Some(
            LanguageTag {
                lang0: spec_ascii_lower(s[0]),
                lang1: spec_ascii_lower(s[1]),
                region0: '\u{0}',
                region1: '\u{0}',
            },
        )
    } else if s.len() == 5 && s[2] == '-' && spec_ascii_alpha(s[0]) && spec_ascii_alpha(s[1])
        && spec_ascii_alpha(s[3]) && spec_ascii_alpha(s[4]) {
        Some(
            LanguageTag {
                lang0: spec_ascii_lower(s[0]),
                lang1: spec_ascii_lower(s[1]),
                region0: spec_ascii_upper(s[3]),
                region1: spec_ascii_upper(s[4]),
            },
        )
    } else {
        None
    }
}

/// The text a tag writes out as.
pub open spec fn spec_tag_text(t: LanguageTag) -> Seq<char> {
    if t.region0 == '\u{0}' && t.region1 == '\u{0}' {
        seq![t.lang0, t.lang1]
    } else {
        seq![t.lang0, t.lang1, '-', t.region0, t.region1]
    }
}

impl LanguageTag {
    /// Attempts to parse a tag from the provided string.
    pub fn try_from(string: &str) -> (r: Result<LanguageTag, UnknownValueError>)
        ensures
            match spec_lang_tag(string@) {
                Some(t) => r == Ok::<LanguageTag, UnknownValueError>(t),
                None => r is Err,
            },
    {
        let cs = str_chars(string);
        let n = cs.len();
        if n == 2 {
            let a = cs[0];
            let b = cs[1];
            if ascii_alpha(a) && ascii_alpha(b) {
                return Ok(
                    LanguageTag {
                        lang0: crate::chars::ascii_lower(a),
                        lang1: crate::chars::ascii_lower(b),
                        region0: '\u{0}',
                        region1: '\u{0}',
                    },
                );
            }
            return Err(UnknownValueError);
        }
        if n == 5 {
            let a = cs[0];
            let b = cs[1];
            let dash = cs[2];
            let c = cs[3];
            let d = cs[4];
            if dash == '-' && ascii_alpha(a) && ascii_alpha(b) && ascii_alpha(c) && ascii_alpha(
                d,
            ) {
                return Ok(
                    LanguageTag {
                        lang0: crate::chars::ascii_lower(a),
                        lang1: crate::chars::ascii_lower(b),
                        region0: crate::chars::ascii_upper(c),
                        region1: crate::chars::ascii_upper(d),
                    },
                );
            }
            return Err(UnknownValueError);
        }
        Err(UnknownValueError)
    }

    /// The language subtag, e.g. the `en` in `en-US`.
    pub fn primary_language(&self) -> (r: String)
        ensures
            r@ == seq![self.lang0, self.lang1],
    {
        let mut s = String::new();
        crate::chars::push_char(&mut s, self.lang0);
        crate::chars::push_char(&mut s, self.lang1);
        proof {
            assert(s@ =~= seq![self.lang0, self.lang1]);
        }
        s
    }

    /// The region subtag, if any, e.g. the `US` in `en-US`.
    pub fn region(&self) -> (r: Option<String>)
        ensures
            (self.region0 == '\u{0}' && self.region1 == '\u{0}') ==> r is None,
            !(self.region0 == '\u{0}' && self.region1 == '\u{0}') ==> r is Some && r->0@ == seq![
                self.region0,
                self.region1,
            ],
    {
        if self.region0 == '\u{0}' && self.region1 == '\u{0}' {
            return None;
        }
        let mut s = String::new();
        crate::chars::push_char(&mut s, self.region0);
        crate::chars::push_char(&mut s, self.region1);
        proof {
            assert(s@ =~= seq![self.region0, self.region1]);
        }
        Some(s)
    }

    /// The whole tag written out, e.g. `en` or `en-US`.
    pub fn text(&self) -> (r: String)
        ensures
            r@ == spec_tag_text(*self),
    {
        let mut s = self.primary_language();
        match self.region() {
            Some(region) => {
                crate::chars::push_char(&mut s, '-');
                crate::chars::push_char(&mut s, self.region0);
                crate::chars::push_char(&mut s, self.region1);
                proof {
                    assert(s@ =~= spec_tag_text(*self));
                }
                s
            },
            None => s,
        }
    }
}

/// Whether `c` is an ASCII letter.
fn ascii_alpha(c: char) -> (r: bool)
    ensures
        r == spec_ascii_alpha(c),
{
    ('a' <= c && c <= 'z') || ('A' <= c && c <= 'Z')
}

/// The `spelling_language` property.
#[derive(Clone, Copy, PartialEq, Eq, Structural, Debug)]
pub enum SpellingLanguage {
    /// No language chosen.
    Unset,
    /// A language tag.
    Value(LanguageTag),
}

impl PropertyValue for SpellingLanguage {
    open spec fn spec_parse_val(s: Seq<char>) -> Option<SpellingLanguage> {
        if crate::chars::spec_eq_ignore_ascii_case(s, "unset"@) {
            Some(SpellingLanguage::Unset)
        } else {
            match spec_lang_tag(s) {
                Some(t) => Some(SpellingLanguage::Value(t)),
                None => None,
            }
        }
    }

    fn from_shared_string(value: &SharedString) -> (r: Result<
        SpellingLanguage,
        UnknownValueError,
    >) {
        if value.eq_ignore_ascii_case("unset") {
            Ok(SpellingLanguage::Unset)
        } else {
            match LanguageTag::try_from(value.as_str()) {
                Ok(t) => Ok(SpellingLanguage::Value(t)),
                Err(e) => Err(e),
            }
        }
    }
}

impl PropertyKey for SpellingLanguage {
    open spec fn spec_key() -> Seq<char> {
        "spelling_language"@
    }

    fn key() -> (r: &'static str) {
        "spelling_language"
    }
}

impl ToSharedString for SpellingLanguage {
    open spec fn spec_text(&self) -> Seq<char> {
        match self {
            SpellingLanguage::Unset => "unset"@,
            SpellingLanguage::Value(t) => spec_tag_text(*t),
        }
    }

    fn to_shared_string(self) -> (r: SharedString) {
        match self {
            SpellingLanguage::Unset => SharedString::new_static("unset"),
            SpellingLanguage::Value(t) => {
                let text = t.text();
                SharedString::new(text.as_str())
            },
        }
    }

    fn try_as_str(&self) -> (r: Option<&str>) {
        match self {
            SpellingLanguage::Unset => Some("unset"),
            SpellingLanguage::Value(_) => None,
        }
    }
}

/// All the keys of the standard properties; `max_line_length` is not among
/// them.
pub fn standard_keys() -> (r: Vec<&'static str>)
    ensures
        r@.len() == 8,
        r@[0]@ == "indent_size"@,
        r@[1]@ == "indent_style"@,
        r@[2]@ == "tab_width"@,
        r@[3]@ == "end_of_line"@,
        r@[4]@ == "charset"@,
        r@[5]@ == "trim_trailing_whitespace"@,
        r@[6]@ == "insert_final_newline"@,
        r@[7]@ == "spelling_language"@,
{
    let mut v: Vec<&'static str> = Vec::new();
    v.push("indent_size");
    v.push("indent_style");
    v.push("tab_width");
    v.push("end_of_line");
    v.push("charset");
    v.push("trim_trailing_whitespace");
    v.push("insert_final_newline");
    v.push("spelling_language");
    v
}

/// Whether a key names a standard property.
pub fn is_standard_key(key: &str) -> (r: bool)
    ensures
        r == (key@ == "indent_size"@ || key@ == "indent_style"@ || key@ == "tab_width"@ || key@
            == "end_of_line"@ || key@ == "charset"@ || key@ == "trim_trailing_whitespace"@ || key@
            == "insert_final_newline"@ || key@ == "spelling_language"@),
{
    str_eq(key, "indent_size") || str_eq(key, "indent_style") || str_eq(key, "tab_width") || str_eq(
        key,
        "end_of_line",
    ) || str_eq(key, "charset") || str_eq(key, "trim_trailing_whitespace") || str_eq(
        key,
        "insert_final_newline",
    ) || str_eq(key, "spelling_language")
}

} // verus!
