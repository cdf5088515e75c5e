//! The parser for the text of an EditorConfig file.

use vstd::prelude::*;

use crate::chars::{spec_ascii_lower, spec_eq_ignore_ascii_case};
use crate::error::ParseError;
use crate::linereader::{spec_parse_line, Line, LineReader, LineV};
use crate::properties::PairsV;
use crate::section::Section;
use crate::string::{spec_into_lowercase, SharedString};

verus! {

/// The root flag a preamble pair leaves behind: a `root` key set to a
/// boolean updates the flag, anything else leaves it.
pub open spec fn spec_root_update(root: bool, k: Seq<char>, v: Seq<char>) -> bool {
    if spec_eq_ignore_ascii_case(k, "root"@) {
        let lv = v.map_values(|c: char| spec_ascii_lower(c));
        if lv == "true"@ {
            true
        } else if lv == "false"@ {
            false
        } else {
            root
        }
    } else {
        root
    }
}

/// What scanning the preamble yields: the root flag, whether the text
/// ended, and the lines left after the first section header; an invalid
/// line stops the scan with nothing.
pub open spec fn spec_preamble(lines: Seq<Seq<char>>, first: bool, root: bool) -> Option<
    (bool, bool, Seq<Seq<char>>),
>
    decreases lines.len(),
{
    if lines.len() == 0 {
        Some((root, true, lines))
    } else {
        let raw = lines[0];
        let l = if first && raw.len() > 0 && raw[0] == '\u{FEFF}' {
            raw.drop_first()
        } else {
            raw
        };
        match spec_parse_line(l) {
            None => None,
            Some(LineV::Nothing) => spec_preamble(lines.drop_first(), false, root),
            Some(LineV::Section(h)) => Some((root, false, lines.drop_first())),
            Some(LineV::Pair(k, v)) => spec_preamble(
                lines.drop_first(),
                false,
                spec_root_update(root, k, v),
            ),
        }
    }
}

/// What collecting one section's pairs yields: the pairs with lowercased
/// keys, whether the text ended, and the lines left after the next
/// section header; an invalid line stops the collection with nothing.
pub open spec fn spec_collect(lines: Seq<Seq<char>>, props: PairsV) -> Option<
    (PairsV, bool, Seq<Seq<char>>),
>
    decreases lines.len(),
{
    if lines.len() == 0 {
        Some((props, true, lines))
    } else {
        match spec_parse_line(lines[0]) {
            None => None,
            Some(LineV::Nothing) => spec_collect(lines.drop_first(), props),
            Some(LineV::Section(h)) => Some((props, false, lines.drop_first())),
            Some(LineV::Pair(k, v)) => spec_collect(
                lines.drop_first(),
                crate::properties::spec_set_pair(props, spec_into_lowercase(k), v),
            ),
        }
    }
}

/// The line just before the remainder `rem2` within `all`: the section
/// header that stopped a collection.
pub open spec fn header_line_of(all: Seq<Seq<char>>, rem2: Seq<Seq<char>>) -> Seq<char> {
    all[all.len() - rem2.len() - 1]
}

/// What applying every remaining section to a property map yields: each
/// section's pairs are added in order when its pattern matches the path;
/// an invalid line stops everything with nothing.
pub open spec fn spec_apply_sections(
    lines: Seq<Seq<char>>,
    line: Seq<char>,
    eof: bool,
    props: PairsV,
    path: Seq<char>,
) -> Option<PairsV>
    decreases lines.len(), (if eof { 0int } else { 1int })
    via spec_apply_sections_dec
{
    if eof {
        Some(props)
    } else {
        match spec_parse_line(line) {
            Some(LineV::Section(h)) => match spec_collect(lines, Seq::empty()) {
                None => None,
                Some((sprops, eof2, rem2)) => {
                    let props2 = if crate::glob::globtype::spec_glob_matches(
                        crate::glob::parser::main::spec_parse(h),
                        path,
                    ) {
                        crate::properties::spec_extend(props, sprops)
                    } else {
                        props
                    };
                    let line2 = if eof2 {
                        line
                    } else {
                        header_line_of(lines, rem2)
                    };
                    spec_apply_sections(rem2, line2, eof2, props2, path)
                },
            },
            _ => None,
        }
    }
}

#[via_fn]
proof fn spec_apply_sections_dec(
    lines: Seq<Seq<char>>,
    line: Seq<char>,
    eof: bool,
    props: PairsV,
    path: Seq<char>,
) {
    if !eof {
        match spec_parse_line(line) {
            Some(LineV::Section(h)) => {
                if spec_collect(lines, Seq::empty()) is Some {
                    lemma_collect_shrinks(lines, Seq::empty());
                }
            },
            _ => {},
        }
    }
}

/// Parser for the text of an EditorConfig file.
///
/// The preamble is read eagerly on construction; sections may then be
/// read one at a time.
pub struct ConfigParser {
    /// Whether a `root = true` line was found in the preamble.
    pub is_root: bool,
    eof: bool,
    reader: LineReader,
}

impl ConfigParser {
    /// The lines not yet consumed.
    pub closed spec fn spec_remaining(&self) -> Seq<Seq<char>> {
        self.reader.spec_remaining()
    }

    /// The line most recently consumed, normally a pending section
    /// header.
    pub closed spec fn spec_line(&self) -> Seq<char> {
        self.reader.spec_line()
    }

    /// Whether the end of the text was reached.
    pub closed spec fn spec_eof(&self) -> bool {
        self.eof
    }

    /// Whether the preamble declared this file a root.
    pub closed spec fn spec_is_root(&self) -> bool {
        self.is_root
    }

    /// How many lines were consumed.
    pub closed spec fn spec_line_no(&self) -> nat {
        self.reader.spec_ticker()
    }

    /// Well-formedness of the underlying reader.
    pub closed spec fn wf(&self) -> bool {
        self.reader.wf() && (!self.eof ==> self.reader.spec_ticker() > 0)
    }

    /// Constructs a parser and reads the preamble from the given text.
    ///
    /// Returns `Err` with the error if an invalid line stops the
    /// preamble.
    pub fn new(text: &str) -> (r: Result<ConfigParser, ParseError>)
        ensures
            match spec_preamble(crate::linereader::spec_lines(text@), true, false) {
                Some((root, eof, remaining)) => r is Ok && r->Ok_0.spec_is_root() == root
                    && r->Ok_0.spec_eof() == eof && r->Ok_0.spec_remaining() == remaining
                    && r->Ok_0.wf(),
                None => r is Err && r->Err_0 is InvalidLine,
            },
    {
        let mut reader = LineReader::new(text);
        let mut is_root = false;
        let mut eof = false;
        let mut failed = false;
        loop
            invariant_except_break
                !failed,
                spec_preamble(crate::linereader::spec_lines(text@), true, false)
                    == spec_preamble(
                    reader.spec_remaining(),
                    reader.spec_ticker() == 0,
                    is_root,
                ),
            invariant
                reader.wf(),
            ensures
                reader.wf(),
                !failed ==> spec_preamble(crate::linereader::spec_lines(text@), true, false)
                    == Some((is_root, eof, reader.spec_remaining())),
                failed ==> spec_preamble(
                    crate::linereader::spec_lines(text@),
                    true,
                    false,
                ) is None,
                !failed && !eof ==> reader.spec_ticker() > 0,
            decreases reader.spec_remaining().len(),
        {
            let ghost pre = reader.spec_remaining();
            let ghost pret = reader.spec_ticker();
            match reader.next_line() {
                Err(e) => {
                    match e {
                        ParseError::Eof => {
                            proof {
                                assert(pre.len() == 0);
                                assert(spec_preamble(pre, pret == 0, is_root) == Some(
                                    (is_root, true, pre),
                                ));
                            }
                            eof = true;
                        },
                        _ => {
                            proof {
                                assert(pre.len() > 0);
                                assert(spec_preamble(pre, pret == 0, is_root) is None);
                            }
                            failed = true;
                        },
                    }
                    break ;
                },
                Ok(Line::Nothing) => {
                    proof {
                        assert(spec_preamble(pre, pret == 0, is_root) == spec_preamble(
                            pre.drop_first(),
                            false,
                            is_root,
                        ));
                    }
                },
                Ok(Line::Section(_)) => {
                    proof {
                        assert(!failed);
                        assert(reader.spec_ticker() == pret + 1);
                        assert(reader.spec_ticker() > 0);
                        assert(spec_preamble(pre, pret == 0, is_root) == Some(
                            (is_root, false, pre.drop_first()),
                        ));
                    }
                    eof = false;
                    break ;
                },
                Ok(Line::Pair(k, v)) => {
                    let ghost proot = is_root;
                    let ks = SharedString::new(k.as_str());
                    proof {
                        assert(ks@ == k@);
                    }
                    if ks.eq_ignore_ascii_case("root") {
                        let mut lowered = String::new();
                        let kv = crate::chars::str_chars(v.as_str());
                        let n = kv.len();
                        let mut i: usize = 0;
                        while i < n
                            invariant
                                i <= n,
                                n == kv@.len(),
                                lowered@ == kv@.subrange(0, i as int).map_values(
                                    |c: char| spec_ascii_lower(c),
                                ),
                            decreases n - i,
                        {
                            let lc = crate::chars::ascii_lower(kv[i]);
                            crate::chars::push_char(&mut lowered, lc);
                            proof {
                                assert(lowered@ =~= kv@.subrange(0, i + 1 as int).map_values(
                                    |c: char| spec_ascii_lower(c),
                                ));
                            }
                            i += 1;
                        }
                        proof {
                            assert(kv@.subrange(0, n as int) =~= kv@);
                            assert(lowered@ == v@.map_values(|c: char| spec_ascii_lower(c)));
                        }
                        if crate::chars::str_eq(lowered.as_str(), "true") {
                            is_root = true;
                        } else if crate::chars::str_eq(lowered.as_str(), "false") {
                            is_root = false;
                        }
                    }
                    proof {
                        assert(is_root == spec_root_update(proot, k@, v@));
                        assert(spec_preamble(pre, pret == 0, proot) == spec_preamble(
                            pre.drop_first(),
                            false,
                            is_root,
                        ));
                    }
                },
            }
        }
        if failed {
            return Err(ParseError::InvalidLine);
        }
        Ok(ConfigParser { is_root, eof, reader })
    }

    /// Whether the preamble declared this file a root.
    pub fn root_flag(&self) -> (r: bool)
        ensures
            r == self.spec_is_root(),
    {
        self.is_root
    }

    /// Returns `true` if there may be another section to read.
    pub fn has_more(&self) -> (r: bool)
        ensures
            r == !self.spec_eof(),
    {
        !self.eof
    }

    /// Returns the current line number.
    pub fn line_no(&self) -> (r: usize)
        ensures
            r == self.spec_line_no(),
    {
        self.reader.line_no()
    }

    /// Parses one section, reading lines until the next section header or
    /// the end of the text.
    pub fn read_section(&mut self) -> (r: Result<Section, ParseError>)
        requires
            old(self).wf(),
        ensures
            final(self).wf(),
            final(self).spec_is_root() == old(self).spec_is_root(),
            old(self).spec_eof() ==> r is Err && r->Err_0 is Eof && final(self).spec_remaining()
                == old(self).spec_remaining(),
            !old(self).spec_eof() ==> match spec_parse_line(old(self).spec_line()) {
                Some(LineV::Section(header)) => match spec_collect(
                    old(self).spec_remaining(),
                    Seq::empty(),
                ) {
                    Some((props, eof2, rem2)) => r is Ok && r->Ok_0.wf()
                        && r->Ok_0.spec_pattern() == crate::glob::parser::main::spec_parse(header)
                        && r->Ok_0.spec_props() == props && final(self).spec_eof() == eof2
                        && final(self).spec_remaining() == rem2 && (!eof2 ==> final(self).spec_line() == header_line_of(
                        old(self).spec_remaining(),
                        rem2,
                    )),
                    None => r is Err && !(r->Err_0 is Eof) && final(self).spec_eof(),
                },
                _ => r is Err && r->Err_0 is InvalidLine
                    && final(self).spec_eof() == old(self).spec_eof(),
            },
    {
        if self.eof {
            return Err(ParseError::Eof);
        }
        let header = match self.reader.reparse() {
            Ok(Line::Section(h)) => h,
            _ => {
                return Err(ParseError::InvalidLine);
            },
        };
        let ghost header0 = spec_parse_line(old(self).spec_line())->Some_0->Section_0;
        let mut section = Section::new(header.as_str());
        let ghost target = spec_collect(old(self).spec_remaining(), Seq::empty());
        proof {
            assert(section.spec_props() =~= Seq::<(Seq<char>, Seq<char>)>::empty());
        }
        loop
            invariant
                self.reader.wf(),
                self.reader.spec_ticker() > 0,
                !self.eof,
                !old(self).spec_eof(),
                section.wf(),
                self.is_root == old(self).is_root,
                spec_parse_line(old(self).spec_line()) == Some(LineV::Section(header0)),
                section.spec_pattern() == crate::glob::parser::main::spec_parse(header0),
                spec_collect(self.reader.spec_remaining(), section.spec_props()) == target,
                target == spec_collect(old(self).spec_remaining(), Seq::empty()),
                self.reader.spec_remaining().len() <= old(self).spec_remaining().len(),
                self.reader.spec_remaining() == old(self).spec_remaining().skip(
                    old(self).spec_remaining().len() - self.reader.spec_remaining().len(),
                ),
            decreases self.reader.spec_remaining().len(),
        {
            let ghost pre = self.reader.spec_remaining();
            let ghost pprops = section.spec_props();
            proof {
                let all = old(self).spec_remaining();
                if pre.len() > 0 {
                    assert(pre.drop_first() =~= all.skip(all.len() - (pre.len() - 1)));
                }
            }
            match self.reader.next_line() {
                Err(e) => {
                    self.eof = true;
                    match e {
                        ParseError::Eof => {
                            proof {
                                assert(pre.len() == 0);
                                assert(spec_collect(pre, pprops) == Some((pprops, true, pre)));
                            }
                            return Ok(section);
                        },
                        _ => {
                            proof {
                                assert(pre.len() > 0);
                                assert(spec_collect(pre, pprops) is None);
                            }
                            return Err(e);
                        },
                    }
                },
                Ok(Line::Section(_)) => {
                    proof {
                        assert(spec_collect(pre, pprops) == Some(
                            (pprops, false, pre.drop_first()),
                        ));
                        let all = old(self).spec_remaining();
                        assert(pre == all.skip(all.len() - pre.len()));
                        assert(self.reader.spec_line() == pre[0]);
                        assert(pre[0] == all[all.len() - pre.len()]);
                        assert(header_line_of(all, pre.drop_first()) == pre[0]);
                    }
                    return Ok(section);
                },
                Ok(Line::Nothing) => {},
                Ok(Line::Pair(k, v)) => {
                    let value = SharedString::new(v.as_str());
                    section.insert(k.as_str(), value);
                },
            }
        }
    }

    /// Reads the next section, if one is left: `Ok` for a parsed section,
    /// `Err` for a failure other than running out of text.
    pub fn next(&mut self) -> (r: Option<Result<Section, ParseError>>)
        requires
            old(self).wf(),
        ensures
            final(self).wf(),
            final(self).spec_is_root() == old(self).spec_is_root(),
    {
        match self.read_section() {
            Ok(section) => Some(Ok(section)),
            Err(ParseError::Eof) => None,
            Err(e) => Some(Err(e)),
        }
    }

    /// Adds the properties of every remaining applicable section to the
    /// map, stopping at the first parse failure.
    pub fn apply_to(&mut self, props: &mut crate::properties::Properties, path: &str) -> (r:
        Result<(), crate::error::Error>)
        requires
            old(self).wf(),
            old(props).wf(),
        ensures
            final(self).wf(),
            final(props).wf(),
            final(self).spec_is_root() == old(self).spec_is_root(),
            match spec_apply_sections(
                old(self).spec_remaining(),
                old(self).spec_line(),
                old(self).spec_eof(),
                old(props)@,
                path@,
            ) {
                Some(p) => r is Ok && final(props)@ == p,
                None => r is Err,
            },
    {
        let ghost target = spec_apply_sections(
            old(self).spec_remaining(),
            old(self).spec_line(),
            old(self).spec_eof(),
            old(props)@,
            path@,
        );
        loop
            invariant
                self.wf(),
                props.wf(),
                self.spec_is_root() == old(self).spec_is_root(),
                spec_apply_sections(
                    self.spec_remaining(),
                    self.spec_line(),
                    self.spec_eof(),
                    props@,
                    path@,
                ) == target,
                target == spec_apply_sections(
                    old(self).spec_remaining(),
                    old(self).spec_line(),
                    old(self).spec_eof(),
                    old(props)@,
                    path@,
                ),
            decreases self.spec_remaining().len() + (if self.spec_eof() {
                0int
            } else {
                1int
            }),
        {
            let ghost pre_rem = self.spec_remaining();
            let ghost pre_line = self.spec_line();
            let ghost pre_eof = self.spec_eof();
            let ghost pre_props = props@;
            match self.read_section() {
                Ok(section) => {
                    let _ = section.apply_to(props, path);
                    proof {
                        lemma_collect_shrinks(pre_rem, Seq::empty());
                        let h = spec_parse_line(pre_line)->Some_0->Section_0;
                        let (sprops, eof2, rem2) = spec_collect(pre_rem, Seq::empty())->0;
                        assert(section.spec_pattern()
                            == crate::glob::parser::main::spec_parse(h));
                        assert(section.spec_props() == sprops);
                        let props2 = if crate::glob::globtype::spec_glob_matches(
                            crate::glob::parser::main::spec_parse(h),
                            path@,
                        ) {
                            crate::properties::spec_extend(pre_props, sprops)
                        } else {
                            pre_props
                        };
                        assert(props@ == props2);
                        assert(spec_apply_sections(pre_rem, pre_line, pre_eof, pre_props, path@)
                            == spec_apply_sections(
                            rem2,
                            if eof2 {
                                pre_line
                            } else {
                                header_line_of(pre_rem, rem2)
                            },
                            eof2,
                            props2,
                            path@,
                        ));
                        if eof2 {
                            assert(spec_apply_sections(rem2, pre_line, true, props2, path@)
                                == Some(props2));
                            assert(spec_apply_sections(
                                self.spec_remaining(),
                                self.spec_line(),
                                true,
                                props2,
                                path@,
                            ) == Some(props2));
                        }
                    }
                },
                Err(ParseError::Eof) => {
                    proof {
                        assert(pre_eof);
                        assert(spec_apply_sections(pre_rem, pre_line, true, pre_props, path@)
                            == Some(pre_props));
                    }
                    return Ok(());
                },
                Err(e) => {
                    proof {
                        assert(!(e is Eof));
                        assert(spec_apply_sections(
                            pre_rem,
                            pre_line,
                            pre_eof,
                            pre_props,
                            path@,
                        ) is None);
                    }
                    return Err(crate::error::Error::Parse(e));
                },
            }
        }
    }
}

/// A successful collection never lengthens the remaining lines, and only
/// keeps them all when the text ended.
proof fn lemma_collect_shrinks(lines: Seq<Seq<char>>, props: PairsV)
    requires
        spec_collect(lines, props) is Some,
    ensures
        (spec_collect(lines, props)->0).2.len() <= lines.len(),
        !(spec_collect(lines, props)->0).1 ==> (spec_collect(lines, props)->0).2.len()
            < lines.len() || lines.len() == 0,
    decreases lines.len(),
{
    if lines.len() > 0 {
        match spec_parse_line(lines[0]) {
            None => {},
            Some(LineV::Nothing) => {
                lemma_collect_shrinks(lines.drop_first(), props);
            },
            Some(LineV::Section(h)) => {},
            Some(LineV::Pair(k, v)) => {
                lemma_collect_shrinks(
                    lines.drop_first(),
                    crate::properties::spec_set_pair(props, spec_into_lowercase(k), v),
                );
            },
        }
    }
}

} // verus!