//! Parsing of `[...]` and `[!...]` character classes.

use vstd::prelude::*;

use crate::glob::flatset::{spec_insert, spec_insert_range, spec_remove, FlatSet};
use crate::glob::globtype::{spec_append_escaped, spec_push, Glob};
use crate::glob::matcher::{Matcher, MatcherS};
use crate::glob::parser::Cursor;

verus! {

/// The growth of a character class from the cursor: the collected set and
/// the position one past the closing bracket, or nothing if the class never
/// closes. `pc` is the previous character (a range's low end), and
/// `not_at_start` says whether a `-` may denote a range.
pub open spec fn spec_grow(
    s: Seq<char>,
    end: int,
    pos: int,
    pc: char,
    not_at_start: bool,
    set: Seq<char>,
) -> Option<(Seq<char>, int)>
    decreases end - pos,
{
    if pos >= end {
        None
    } else {
        let c = s[pos];
        if c == ']' {
            Some((set, pos + 1))
        } else if c == '\\' {
            if pos + 1 < end {
                spec_grow(s, end, pos + 2, s[pos + 1], true, spec_insert(set, s[pos + 1]))
            } else {
                None
            }
        } else if c == '-' && not_at_start {
            if pos + 1 >= end {
                None
            } else {
                let d = s[pos + 1];
                if d == ']' {
                    Some((spec_insert(set, '-'), pos + 2))
                } else if d == '\\' {
                    if pos + 2 < end {
                        let nc = s[pos + 2];
                        spec_grow(
                            s,
                            end,
                            pos + 3,
                            nc,
                            true,
                            spec_insert_range(set, pc as int, nc as int),
                        )
                    } else {
                        None
                    }
                } else {
                    spec_grow(s, end, pos + 2, d, true, spec_insert_range(set, pc as int, d as int))
                }
            }
        } else {
            spec_grow(s, end, pos + 1, c, true, spec_insert(set, c))
        }
    }
}

/// The compiled form of a class attempt at the cursor: the program after
/// appending what the class (or its literal fallback) contributes, and the
/// position the parse resumes at.
pub open spec fn spec_charclass(s: Seq<char>, end: int, pos: int, glob: Seq<MatcherS>) -> (
    Seq<MatcherS>,
    int,
) {
    if pos >= end {
        (spec_append_escaped(glob, '['), pos)
    } else {
        let invert = s[pos] == '!';
        let p1 = if invert {
            pos + 1
        } else {
            pos
        };
        match spec_grow(s, end, p1, '[', false, Seq::empty()) {
            None => (spec_append_escaped(glob, '['), pos),
            Some((set0, p2)) => {
                let set = spec_remove(set0, '/');
                if set.len() == 0 {
                    if invert {
                        (spec_push(glob, MatcherS::AnyChar), p2)
                    } else {
                        (
                            spec_append_escaped(spec_append_escaped(glob, '['), ']'),
                            p2,
                        )
                    }
                } else if set.len() == 1 {
                    (spec_append_escaped(glob, set[0]), p2)
                } else {
                    (spec_push(glob, MatcherS::CharClass(set, !invert)), p2)
                }
            },
        }
    }
}

/// Grows the class set until the closing bracket.
fn grow_char_class(chars: &mut Cursor<'_>, charclass: &mut FlatSet) -> (r: Option<()>)
    requires
        old(chars).wf(),
        old(charclass).wf(),
    ensures
        final(chars).wf(),
        final(chars).s == old(chars).s,
        final(chars).end == old(chars).end,
        final(charclass).wf(),
        r is Some ==> spec_grow(
            old(chars).s@,
            old(chars).end as int,
            old(chars).pos as int,
            '[',
            false,
            old(charclass)@,
        ) == Some((final(charclass)@, final(chars).pos as int)),
        r is None ==> spec_grow(
            old(chars).s@,
            old(chars).end as int,
            old(chars).pos as int,
            '[',
            false,
            old(charclass)@,
        ) is None,
{
    let mut pc = '[';
    let mut not_at_start = false;
    let mut ok = false;
    loop
        invariant_except_break
            spec_grow(
                old(chars).s@,
                old(chars).end as int,
                old(chars).pos as int,
                '[',
                false,
                old(charclass)@,
            ) == spec_grow(
                chars.s@,
                chars.end as int,
                chars.pos as int,
                pc,
                not_at_start,
                charclass@,
            ),
            !ok,
        invariant
            chars.wf(),
            chars.s == old(chars).s,
            chars.end == old(chars).end,
            charclass.wf(),
        ensures
            ok ==> spec_grow(
                old(chars).s@,
                old(chars).end as int,
                old(chars).pos as int,
                '[',
                false,
                old(charclass)@,
            ) == Some((charclass@, chars.pos as int)),
            !ok ==> spec_grow(
                old(chars).s@,
                old(chars).end as int,
                old(chars).pos as int,
                '[',
                false,
                old(charclass)@,
            ) is None,
        decreases chars.end - chars.pos,
    {
        let c = match chars.next() {
            None => {
                break ;
            },
            Some(c) => c,
        };
        if c == ']' {
            ok = true;
            break ;
        } else if c == '\\' {
            match chars.next() {
                None => {
                    break ;
                },
                Some(e) => {
                    pc = e;
                    charclass.insert(e);
                },
            }
        } else if c == '-' && not_at_start {
            let d = match chars.next() {
                None => {
                    break ;
                },
                Some(d) => d,
            };
            if d == ']' {
                charclass.insert('-');
                ok = true;
                break ;
            }
            let nc = if d == '\\' {
                match chars.next() {
                    None => {
                        break ;
                    },
                    Some(nc) => nc,
                }
            } else {
                d
            };
            charclass.insert_range(pc, nc);
            pc = nc;
        } else {
            charclass.insert(c);
            pc = c;
        }
        not_at_start = true;
    }
    if ok {
        Some(())
    } else {
        None
    }
}

/// Attempts to parse a character class at the cursor; malformed classes
/// degrade to literal text and the cursor rewinds.
pub fn parse<'a>(mut glob: Glob, mut chars: Cursor<'a>) -> (r: (Glob, Cursor<'a>))
    requires
        chars.wf(),
    ensures
        r.1.wf(),
        r.1.s == chars.s,
        r.1.end == chars.end,
        spec_charclass(chars.s@, chars.end as int, chars.pos as int, glob@) == (
            r.0@,
            r.1.pos as int,
        ),
{
    let invert = match chars.peek() {
        Some(c) => c == '!',
        None => {
            glob.append_escaped('[');
            return (glob, chars);
        },
    };
    let restore = chars;
    if invert {
        chars.next();
    }
    let mut charclass = FlatSet::new();
    match grow_char_class(&mut chars, &mut charclass) {
        Some(_) => {
            charclass.remove('/');
            let n = charclass.len();
            if n == 0 {
                if invert {
                    glob.push(Matcher::AnyChar);
                } else {
                    glob.append_escaped('[');
                    glob.append_escaped(']');
                }
            } else if n == 1 {
                glob.append_escaped(charclass.index(0));
            } else {
                glob.push(Matcher::CharClass(charclass, !invert));
            }
            (glob, chars)
        },
        None => {
            glob.append_escaped('[');
            (glob, restore)
        },
    }
}

} // verus!
