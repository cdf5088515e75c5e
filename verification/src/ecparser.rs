//! The older name for the EditorConfig text parser.

use vstd::prelude::*;

use crate::error::ParseError;
use crate::parser::ConfigParser;
use crate::section::Section;

verus! {

/// A parser for the text of an EditorConfig file, under its older name.
pub struct EcParser {
    /// Whether a `root = true` line was found in the prelude.
    pub is_root: bool,
    inner: ConfigParser,
}

impl EcParser {
    /// Whether the prelude declared this file a root.
    pub closed spec fn spec_is_root(&self) -> bool {
        self.is_root
    }

    /// Whether the end of the text was reached.
    pub closed spec fn spec_eof(&self) -> bool {
        self.inner.spec_eof()
    }

    /// The lines not yet consumed.
    pub closed spec fn spec_remaining(&self) -> Seq<Seq<char>> {
        self.inner.spec_remaining()
    }

    /// The line most recently consumed.
    pub closed spec fn spec_line(&self) -> Seq<char> {
        self.inner.spec_line()
    }

    /// How many lines were consumed.
    pub closed spec fn spec_line_no(&self) -> nat {
        self.inner.spec_line_no()
    }

    /// Well-formedness of the underlying parser.
    pub closed spec fn wf(&self) -> bool {
        self.inner.wf() && self.is_root == self.inner.spec_is_root()
    }

    /// Constructs a parser and reads the prelude from the given text.
    pub fn new(text: &str) -> (r: Result<EcParser, ParseError>)
        ensures
            match crate::parser::spec_preamble(crate::linereader::spec_lines(text@), true, false) {
                Some((root, eof, remaining)) => r is Ok && r->Ok_0.spec_is_root() == root
                    && r->Ok_0.wf(),
                None => r is Err && r->Err_0 is InvalidLine,
            },
    {
        match ConfigParser::new(text) {
            Ok(inner) => {
                let root_flag = inner.root_flag();
                Ok(EcParser { is_root: root_flag, inner })
            },
            Err(e) => Err(e),
        }
    }

    /// Returns `true` if there may be another section to read.
    pub fn has_more(&self) -> (r: bool)
        ensures
            r == !self.spec_eof(),
    {
        self.inner.has_more()
    }

    /// Returns the current line number.
    pub fn line_no(&self) -> (r: usize)
        ensures
            r == self.spec_line_no(),
    {
        self.inner.line_no()
    }

    /// Reads a section from the contained text.
    pub fn read_section(&mut self) -> (r: Result<Section, ParseError>)
        requires
            old(self).wf(),
        ensures
            final(self).wf(),
            final(self).spec_is_root() == old(self).spec_is_root(),
            old(self).spec_eof() ==> r is Err && r->Err_0 is Eof,
            !old(self).spec_eof() ==> match crate::linereader::spec_parse_line(
                old(self).spec_line(),
            ) {
                Some(crate::linereader::LineV::Section(header)) => match crate::parser::spec_collect(
                    old(self).spec_remaining(),
                    Seq::empty(),
                ) {
                    Some((props, eof2, rem2)) => r is Ok && r->Ok_0.wf()
                        && r->Ok_0.spec_pattern() == crate::glob::parser::main::spec_parse(header)
                        && r->Ok_0.spec_props() == props && final(self).spec_eof() == eof2
                        && final(self).spec_remaining() == rem2,
                    None => r is Err && !(r->Err_0 is Eof) && final(self).spec_eof(),
                },
                _ => r is Err && r->Err_0 is InvalidLine,
            },
    {
        self.inner.read_section()
    }

    /// Reads the next section, if one is left.
    pub fn next(&mut self) -> (r: Option<Result<Section, ParseError>>)
        requires
            old(self).wf(),
        ensures
            final(self).wf(),
            final(self).spec_is_root() == old(self).spec_is_root(),
    {
        match self.inner.next() {
            Some(v) => Some(v),
            None => None,
        }
    }

    /// Adds the properties of every remaining applicable section to the
    /// map, stopping at the first parse failure.
    pub fn apply_to(&mut self, props: &mut crate::properties::Properties, path: &str) -> (r:
        Result<(), crate::error::Error>)
        requires
            old(self).wf(),
            old(props).wf(),
        ensures
            final(self).wf(),
            final(props).wf(),
            match crate::parser::spec_apply_sections(
                old(self).spec_remaining(),
                old(self).spec_line(),
                old(self).spec_eof(),
                old(props)@,
                path@,
            ) {
                Some(p) => r is Ok && final(props)@ == p,
                None => r is Err,
            },
    {
        self.inner.apply_to(props, path)
    }
}

} // verus!
