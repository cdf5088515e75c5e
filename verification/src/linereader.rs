//! Line-oriented reading of EditorConfig text: line classification and the
//! line-by-line reader.

use vstd::prelude::*;

use crate::chars::{char_is_whitespace, chars_string_range, is_whitespace_char, str_chars};
use crate::error::ParseError;

verus! {

/// Whether a character opens a comment.
pub open spec fn is_comment_char(c: char) -> bool {
    c == ';' || c == '#'
}

/// The first position at or after `i` whose character is not whitespace,
/// or the length.
pub open spec fn ws_start(s: Seq<char>, i: int) -> int
    decreases s.len() - i,
{
    if i < 0 || i >= s.len() {
        s.len() as int
    } else if is_whitespace_char(s[i]) {
        ws_start(s, i + 1)
    } else {
        i
    }
}

/// The end of `s.take(j)` once trailing whitespace is dropped.
pub open spec fn ws_end(s: Seq<char>, j: int) -> int
    decreases j,
{
    if j <= 0 {
        0
    } else if is_whitespace_char(s[j - 1]) {
        ws_end(s, j - 1)
    } else {
        j
    }
}

/// The last position before `j` holding a closing bracket.
pub open spec fn last_bracket(s: Seq<char>, j: int) -> Option<int>
    decreases j,
{
    if j <= 0 {
        None
    } else if s[j - 1] == ']' {
        Some(j - 1)
    } else {
        last_bracket(s, j - 1)
    }
}

/// The last position before `j` holding a comment opener.
pub open spec fn last_comment(s: Seq<char>, j: int) -> Option<int>
    decreases j,
{
    if j <= 0 {
        None
    } else if is_comment_char(s[j - 1]) {
        Some(j - 1)
    } else {
        last_comment(s, j - 1)
    }
}

/// The first position at or after `i` holding `=`, or the length.
pub open spec fn first_eq(s: Seq<char>, i: int) -> int
    decreases s.len() - i,
{
    if i < 0 || i >= s.len() {
        s.len() as int
    } else if s[i] == '=' {
        i
    } else {
        first_eq(s, i + 1)
    }
}

/// The shape of a classified line.
pub enum LineV {
    /// Either a comment or an empty line.
    Nothing,
    /// A section header's inner text.
    Section(Seq<char>),
    /// A key and a value.
    Pair(Seq<char>, Seq<char>),
}

/// What classifying a line yields: the line's shape, or nothing for an
/// invalid line.
pub open spec fn spec_parse_line(s: Seq<char>) -> Option<LineV> {
    let a = ws_start(s, 0);
    if a < s.len() && is_comment_char(s[a]) {
        Some(LineV::Nothing)
    } else {
        let l1 = s.subrange(a, s.len() as int);
        let cut = match (last_bracket(l1, l1.len() as int), last_comment(l1, l1.len() as int)) {
            (Some(bracket), Some(comment)) => if comment > bracket {
                l1.take(comment)
            } else {
                l1
            },
            _ => l1,
        };
        let l = cut.take(ws_end(cut, cut.len() as int));
        if l.len() == 0 {
            Some(LineV::Nothing)
        } else if l.len() >= 2 && l[0] == '[' && l.last() == ']' {
            let inner = l.subrange(1, l.len() - 1);
            if inner.len() == 0 {
                None
            } else {
                Some(LineV::Section(inner))
            }
        } else {
            let e = first_eq(l, 0);
            if e < l.len() {
                let key = l.take(ws_end(l, e));
                let val = l.subrange(ws_start(l, e + 1), l.len() as int);
                if key.len() == 0 {
                    None
                } else if val.len() == 0 {
                    None
                } else {
                    Some(LineV::Pair(key, val))
                }
            } else {
                None
            }
        }
    }
}

/// One classified line of EditorConfig text.
#[derive(Debug)]
pub enum Line {
    /// Either a comment or an empty line.
    Nothing,
    /// A section header, e.g. `[something.rs]`.
    Section(String),
    /// A key-value pair, e.g. `indent_size = 2`.
    Pair(String, String),
}

impl View for Line {
    type V = LineV;

    open spec fn view(&self) -> LineV {
        match self {
            Line::Nothing => LineV::Nothing,
            Line::Section(s) => LineV::Section(s@),
            Line::Pair(k, v) => LineV::Pair(k@, v@),
        }
    }
}

impl PartialEq for Line {
    /// Lines are equal when their shapes are.
    fn eq(&self, other: &Self) -> (r: bool) {
        match (self, other) {
            (Line::Nothing, Line::Nothing) => true,
            (Line::Section(a), Line::Section(b)) => crate::chars::str_eq(a.as_str(), b.as_str()),
            (Line::Pair(ak, av), Line::Pair(bk, bv)) => crate::chars::str_eq(
                ak.as_str(),
                bk.as_str(),
            ) && crate::chars::str_eq(av.as_str(), bv.as_str()),
            _ => false,
        }
    }
}

impl Eq for Line {

}

impl vstd::std_specs::cmp::PartialEqSpecImpl for Line {
    open spec fn obeys_eq_spec() -> bool {
        true
    }

    open spec fn eq_spec(&self, other: &Line) -> bool {
        self@ == other@
    }
}

/// Finds the first non-whitespace position at or after `i`.
fn find_ws_start(v: &Vec<char>, i: usize) -> (r: usize)
    requires
        i <= v@.len(),
    ensures
        r == ws_start(v@, i as int),
        i <= r <= v@.len(),
{
    let n = v.len();
    let mut j = i;
    while j < n
        invariant
            i <= j <= n,
            n == v@.len(),
            ws_start(v@, i as int) == ws_start(v@, j as int),
        decreases n - j,
    {
        if !char_is_whitespace(v[j]) {
            return j;
        }
        j += 1;
    }
    n
}

/// Finds the end of `v.take(j)` once trailing whitespace is dropped.
fn find_ws_end(v: &Vec<char>, j: usize) -> (r: usize)
    requires
        j <= v@.len(),
    ensures
        r == ws_end(v@, j as int),
        r <= j,
{
    let mut k = j;
    while k > 0
        invariant
            k <= j <= v@.len(),
            ws_end(v@, j as int) == ws_end(v@, k as int),
        decreases k,
    {
        if !char_is_whitespace(v[k - 1]) {
            return k;
        }
        k -= 1;
    }
    0
}

/// Finds the last closing bracket before `j`.
fn find_last_bracket(v: &Vec<char>, j: usize) -> (r: Option<usize>)
    requires
        j <= v@.len(),
    ensures
        match r {
            Some(p) => last_bracket(v@, j as int) == Some(p as int) && p < j,
            None => last_bracket(v@, j as int) is None,
        },
{
    let mut k = j;
    while k > 0
        invariant
            k <= j <= v@.len(),
            last_bracket(v@, j as int) == last_bracket(v@, k as int),
        decreases k,
    {
        if v[k - 1] == ']' {
            return Some(k - 1);
        }
        k -= 1;
    }
    None
}

/// Finds the last comment opener before `j`.
fn find_last_comment(v: &Vec<char>, j: usize) -> (r: Option<usize>)
    requires
        j <= v@.len(),
    ensures
        match r {
            Some(p) => last_comment(v@, j as int) == Some(p as int) && p < j,
            None => last_comment(v@, j as int) is None,
        },
{
    let mut k = j;
    while k > 0
        invariant
            k <= j <= v@.len(),
            last_comment(v@, j as int) == last_comment(v@, k as int),
        decreases k,
    {
        let c = v[k - 1];
        if c == ';' || c == '#' {
            return Some(k - 1);
        }
        k -= 1;
    }
    None
}

/// Finds the first `=` at or after `i`.
fn find_first_eq(v: &Vec<char>, i: usize) -> (r: usize)
    requires
        i <= v@.len(),
    ensures
        r == first_eq(v@, i as int),
        i <= r <= v@.len(),
{
    let n = v.len();
    let mut j = i;
    while j < n
        invariant
            i <= j <= n,
            n == v@.len(),
            first_eq(v@, i as int) == first_eq(v@, j as int),
        decreases n - j,
    {
        if v[j] == '=' {
            return j;
        }
        j += 1;
    }
    n
}

/// Copies part of a character vector.
fn chars_sub(v: &Vec<char>, from: usize, to: usize) -> (r: Vec<char>)
    requires
        from <= to <= v@.len(),
    ensures
        r@ == v@.subrange(from as int, to as int),
{
    let mut r: Vec<char> = Vec::new();
    let mut i = from;
    while i < to
        invariant
            from <= i <= to <= v@.len(),
            r@ == v@.subrange(from as int, i as int),
        decreases to - i,
    {
        r.push(v[i]);
        proof {
            assert(v@.subrange(from as int, i as int).push(v@[i as int]) =~= v@.subrange(
                from as int,
                i + 1 as int,
            ));
        }
        i += 1;
    }
    r
}

/// Classifies one line: a comment or blank line, a section header, or a
/// key-value pair; anything else is an invalid line.
///
/// No lowercasing or further validation is applied.
pub fn parse_line(line: &str) -> (r: Result<Line, ParseError>)
    ensures
        match spec_parse_line(line@) {
            Some(lv) => r is Ok && r->Ok_0@ == lv,
            None => r is Err && r->Err_0 is InvalidLine,
        },
{
    let chars = str_chars(line);
    let a = find_ws_start(&chars, 0);
    if a < chars.len() {
        let c = chars[a];
        if c == ';' || c == '#' {
            return Ok(Line::Nothing);
        }
    }
    let l1 = chars_sub(&chars, a, chars.len());
    let n1 = l1.len();
    let cut_end = match (find_last_bracket(&l1, n1), find_last_comment(&l1, n1)) {
        (Some(bracket), Some(comment)) => {
            if comment > bracket {
                comment
            } else {
                n1
            }
        },
        _ => n1,
    };
    let lend = find_ws_end(&l1, cut_end);
    let ghost cut = l1@.take(cut_end as int);
    let ghost l = cut.take(ws_end(cut, cut_end as int));
    proof {
        assert(ws_end(cut, cut_end as int) == ws_end(l1@, cut_end as int)) by {
            lemma_ws_end_take(l1@, cut_end as int, cut_end as int);
        }
        assert(l =~= l1@.take(lend as int));
    }
    if lend == 0 {
        return Ok(Line::Nothing);
    }
    if lend >= 2 && l1[0] == '[' && l1[lend - 1] == ']' {
        if lend == 2 {
            proof {
                assert(l.subrange(1, l.len() - 1) =~= Seq::<char>::empty());
            }
            return Err(ParseError::InvalidLine);
        }
        let inner = chars_string_range(&l1, 1, lend - 1);
        proof {
            assert(l1@.subrange(1, lend - 1 as int) =~= l.subrange(1, l.len() - 1));
        }
        return Ok(Line::Section(inner));
    }
    proof {
        if lend >= 2 && l[0] == '[' && l.last() == ']' {
            assert(l1@[0] == l[0]);
            assert(l1@[lend - 1] == l.last());
        }
    }
    let e = find_first_eq(&l1, 0);
    proof {
        assert(first_eq(l, 0) == if first_eq(l1@, 0) < lend {
            first_eq(l1@, 0)
        } else {
            l.len() as int
        }) by {
            lemma_first_eq_take(l1@, lend as int, 0);
        }
    }
    if e < lend {
        let kend = find_ws_end(&l1, e);
        proof {
            assert(ws_end(l, e as int) == ws_end(l1@, e as int)) by {
                lemma_ws_end_take(l1@, lend as int, e as int);
            }
        }
        let vstart = find_ws_start(&l1, e + 1);
        proof {
            assert(ws_start(l, e + 1) == if ws_start(l1@, e + 1) < lend {
                ws_start(l1@, e + 1)
            } else {
                l.len() as int
            }) by {
                lemma_ws_start_take(l1@, lend as int, e + 1);
            }
        }
        if kend == 0 {
            return Err(ParseError::InvalidLine);
        }
        if vstart >= lend {
            proof {
                assert(l.subrange(ws_start(l, e + 1), l.len() as int) =~= Seq::<char>::empty());
            }
            return Err(ParseError::InvalidLine);
        }
        let key = chars_string_range(&l1, 0, kend);
        let val = chars_string_range(&l1, vstart, lend);
        proof {
            assert(l1@.subrange(0, kend as int) =~= l.take(ws_end(l, e as int)));
            assert(l1@.subrange(vstart as int, lend as int) =~= l.subrange(
                ws_start(l, e + 1),
                l.len() as int,
            ));
        }
        return Ok(Line::Pair(key, val));
    }
    Err(ParseError::InvalidLine)
}

/// Trimming and searching commute with taking a prefix, where the prefix
/// boundary lies at or after the position concerned.
proof fn lemma_ws_end_take(s: Seq<char>, m: int, j: int)
    requires
        0 <= j <= m <= s.len(),
    ensures
        ws_end(s.take(m), j) == ws_end(s, j),
    decreases j,
{
    if j > 0 {
        assert(s.take(m)[j - 1] == s[j - 1]);
        if is_whitespace_char(s[j - 1]) {
            lemma_ws_end_take(s, m, j - 1);
        }
    }
}

/// The first `=` in a prefix is the first `=` overall when that lies
/// within the prefix, and the prefix's length otherwise.
proof fn lemma_first_eq_take(s: Seq<char>, m: int, i: int)
    requires
        0 <= i <= m <= s.len(),
    ensures
        first_eq(s.take(m), i) == if first_eq(s, i) < m {
            first_eq(s, i)
        } else {
            m
        },
    decreases m - i,
{
    if i < m {
        assert(s.take(m)[i] == s[i]);
        if s[i] != '=' {
            lemma_first_eq_take(s, m, i + 1);
        }
    } else {
        lemma_first_eq_bounds(s, i);
    }
}

/// `first_eq` stays between its starting point and the length.
proof fn lemma_first_eq_bounds(s: Seq<char>, i: int)
    requires
        0 <= i <= s.len(),
    ensures
        i <= first_eq(s, i) <= s.len(),
    decreases s.len() - i,
{
    if i < s.len() && s[i] != '=' {
        lemma_first_eq_bounds(s, i + 1);
    }
}

/// The first non-whitespace character in a prefix is the first overall
/// when that lies within the prefix, and the prefix's length otherwise.
proof fn lemma_ws_start_take(s: Seq<char>, m: int, i: int)
    requires
        0 <= i <= m <= s.len(),
    ensures
        ws_start(s.take(m), i) == if ws_start(s, i) < m {
            ws_start(s, i)
        } else {
            m
        },
    decreases m - i,
{
    if i < m {
        assert(s.take(m)[i] == s[i]);
        if is_whitespace_char(s[i]) {
            lemma_ws_start_take(s, m, i + 1);
        }
    } else {
        lemma_ws_start_bounds(s, i);
    }
}

/// `ws_start` stays between its starting point and the length.
proof fn lemma_ws_start_bounds(s: Seq<char>, i: int)
    requires
        0 <= i <= s.len(),
    ensures
        i <= ws_start(s, i) <= s.len(),
    decreases s.len() - i,
{
    if i < s.len() && is_whitespace_char(s[i]) {
        lemma_ws_start_bounds(s, i + 1);
    }
}

} // verus!

verus! {

use crate::chars::push_char;

/// One pass of splitting text into lines: each chunk ends with the line
/// feed that closed it.
pub open spec fn lines_fold(s: Seq<char>, done: Seq<Seq<char>>, cur: Seq<char>) -> (
    Seq<Seq<char>>,
    Seq<char>,
)
    decreases s.len(),
{
    if s.len() == 0 {
        (done, cur)
    } else if s[0] == '\n' {
        lines_fold(s.drop_first(), done.push(cur.push('\n')), Seq::empty())
    } else {
        lines_fold(s.drop_first(), done, cur.push(s[0]))
    }
}

/// The lines of a text, as a buffered reader would hand them out: each
/// ends with its line feed, except a final unterminated line.
pub open spec fn spec_lines(s: Seq<char>) -> Seq<Seq<char>> {
    let (done, cur) = lines_fold(s, Seq::empty(), Seq::empty());
    if cur.len() > 0 {
        done.push(cur)
    } else {
        done
    }
}

/// Folding lines distributes over concatenation of the input.
proof fn lemma_lines_fold_concat(a: Seq<char>, b: Seq<char>, done: Seq<Seq<char>>, cur: Seq<char>)
    ensures
        lines_fold(a + b, done, cur) == {
            let (d2, c2) = lines_fold(a, done, cur);
            lines_fold(b, d2, c2)
        },
    decreases a.len(),
{
    if a.len() == 0 {
        assert(a + b =~= b);
    } else {
        assert((a + b).drop_first() =~= a.drop_first() + b);
        if a[0] == '\n' {
            lemma_lines_fold_concat(a.drop_first(), b, done.push(cur.push('\n')), Seq::empty());
        } else {
            lemma_lines_fold_concat(a.drop_first(), b, done, cur.push(a[0]));
        }
    }
}

/// Splits text into lines, each keeping its closing line feed.
fn split_lines(text: &str) -> (r: Vec<String>)
    ensures
        Seq::new(r@.len(), |i: int| r@[i]@) == spec_lines(text@),
{
    let chars = str_chars(text);
    let n = chars.len();
    let mut done: Vec<String> = Vec::new();
    let mut cur = String::new();
    let mut i: usize = 0;
    proof {
        assert(Seq::new(done@.len(), |i: int| done@[i]@) =~= Seq::<Seq<char>>::empty());
    }
    while i < n
        invariant
            i <= n,
            n == chars@.len(),
            chars@ == text@,
            lines_fold(text@.take(i as int), Seq::empty(), Seq::empty()) == (
                Seq::new(done@.len(), |k: int| done@[k]@),
                cur@,
            ),
        decreases n - i,
    {
        let ghost pre = text@.take(i as int);
        let ghost gdone = Seq::new(done@.len(), |k: int| done@[k]@);
        let ghost gcur = cur@;
        let c = chars[i];
        proof {
            assert(pre + seq![c] =~= text@.take(i + 1 as int));
            lemma_lines_fold_concat(pre, seq![c], Seq::empty(), Seq::empty());
            assert(seq![c].drop_first() =~= Seq::<char>::empty());
            if c == '\n' {
                assert(lines_fold(seq![c], gdone, gcur) == lines_fold(
                    seq![c].drop_first(),
                    gdone.push(gcur.push('\n')),
                    Seq::empty(),
                ));
            } else {
                assert(lines_fold(seq![c], gdone, gcur) == lines_fold(
                    seq![c].drop_first(),
                    gdone,
                    gcur.push(c),
                ));
            }
        }
        if c == '\n' {
            push_char(&mut cur, '\n');
            done.push(cur);
            cur = String::new();
            proof {
                assert(Seq::new(done@.len(), |k: int| done@[k]@) =~= gdone.push(gcur.push('\n')));
            }
        } else {
            push_char(&mut cur, c);
        }
        i += 1;
    }
    proof {
        assert(text@.take(n as int) =~= text@);
    }
    if !cur.as_str().is_empty() {
        let ghost gdone = Seq::new(done@.len(), |k: int| done@[k]@);
        let ghost gcur = cur@;
        done.push(cur);
        proof {
            assert(Seq::new(done@.len(), |k: int| done@[k]@) =~= gdone.push(gcur));
        }
    }
    done
}

/// Extracts valid INI-like lines from a text, one line per call.
///
/// Does minimal validation and does not modify the text in any way.
pub struct LineReader {
    lines: Vec<String>,
    pos: usize,
    ticker: usize,
    line: String,
}

impl LineReader {
    /// The lines not yet handed out.
    pub closed spec fn spec_remaining(&self) -> Seq<Seq<char>> {
        self.lines@.subrange(self.pos as int, self.lines@.len() as int).map_values(|l: String| l@)
    }

    /// The line most recently handed out.
    pub closed spec fn spec_line(&self) -> Seq<char> {
        self.line@
    }

    /// How many lines were handed out.
    pub closed spec fn spec_ticker(&self) -> nat {
        self.ticker as nat
    }

    /// Well-formedness: the position lies within the lines.
    pub closed spec fn wf(&self) -> bool {
        self.pos <= self.lines@.len() && self.ticker == self.pos
    }

    /// Constructs a reader over the given text.
    pub fn new(text: &str) -> (r: LineReader)
        ensures
            r.wf(),
            r.spec_remaining() == spec_lines(text@),
            r.spec_ticker() == 0,
            r.spec_line().len() == 0,
    {
        let lines = split_lines(text);
        let r = LineReader { lines, pos: 0, ticker: 0, line: String::new() };
        proof {
            assert(r.spec_remaining() =~= Seq::new(r.lines@.len(), |i: int| r.lines@[i]@));
        }
        r
    }

    /// The line number of the contained line.
    pub fn line_no(&self) -> (r: usize)
        ensures
            r == self.spec_ticker(),
    {
        self.ticker
    }

    /// A reference to the contained line.
    pub fn line(&self) -> (r: &str)
        ensures
            r@ == self.spec_line(),
    {
        self.line.as_str()
    }

    /// Classifies the contained line again.
    pub fn reparse(&self) -> (r: Result<Line, ParseError>)
        ensures
            match spec_parse_line(self.spec_line()) {
                Some(lv) => r is Ok && r->Ok_0@ == lv,
                None => r is Err && r->Err_0 is InvalidLine,
            },
    {
        parse_line(self.line.as_str())
    }

    /// Reads and classifies the next line; the first line ever read loses
    /// a leading byte-order mark.
    pub fn next_line(&mut self) -> (r: Result<Line, ParseError>)
        requires
            old(self).wf(),
        ensures
            final(self).wf(),
            old(self).spec_remaining().len() == 0 ==> r is Err && r->Err_0 is Eof
                && final(self).spec_remaining() == old(self).spec_remaining()
                && final(self).spec_ticker() == old(self).spec_ticker(),
            old(self).spec_remaining().len() > 0 ==> {
                let read = old(self).spec_remaining()[0];
                let parsed_from = if old(self).spec_ticker() == 0 && read.len() > 0 && read[0]
                    == '\u{FEFF}' {
                    read.drop_first()
                } else {
                    read
                };
                &&& final(self).spec_line() == read
                &&& final(self).spec_remaining() == old(self).spec_remaining().drop_first()
                &&& final(self).spec_ticker() == old(self).spec_ticker() + 1
                &&& match spec_parse_line(parsed_from) {
                    Some(lv) => r is Ok && r->Ok_0@ == lv,
                    None => r is Err && r->Err_0 is InvalidLine,
                }
            },
    {
        self.line = String::new();
        if self.pos >= self.lines.len() {
            proof {
                assert(old(self).spec_remaining().len() == 0);
            }
            return Err(ParseError::Eof);
        }
        let l = self.lines[self.pos].clone();
        self.line = l;
        self.pos += 1;
        self.ticker += 1;
        proof {
            assert(self.spec_remaining() =~= old(self).spec_remaining().drop_first());
            assert(old(self).spec_remaining()[0] == self.line@);
        }
        if self.ticker == 1 {
            let cv = str_chars(self.line.as_str());
            if cv.len() > 0 && cv[0] == '\u{FEFF}' {
                let stripped = chars_string_range(&cv, 1, cv.len());
                proof {
                    assert(stripped@ =~= self.line@.drop_first());
                }
                return parse_line(stripped.as_str());
            }
            return parse_line(self.line.as_str());
        }
        parse_line(self.line.as_str())
    }
}

} // verus!
