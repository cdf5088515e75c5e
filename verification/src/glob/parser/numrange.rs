//! Tentative parsing of `{<int>..<int>}` numeric ranges.

use vstd::prelude::*;

use crate::chars::{char_is_numeric, is_numeric_char, parse_isize, spec_parse_isize};
use crate::glob::parser::Cursor;

verus! {

/// The run of an integer scan: the characters it collects and the position
/// one past the closing breaker, or nothing if the scan fails.
pub open spec fn spec_int_tail(
    s: Seq<char>,
    end: int,
    pos: int,
    acc: Seq<char>,
    breaker: char,
) -> Option<(Seq<char>, int)>
    decreases end - pos,
{
    if pos >= end {
        None
    } else {
        let c = s[pos];
        if is_numeric_char(c) {
            spec_int_tail(s, end, pos + 1, acc.push(c), breaker)
        } else if c == breaker {
            Some((acc, pos + 1))
        } else {
            None
        }
    }
}

/// An integer scan: a first numeric or `-` character, then digits up to the
/// breaker character.
pub open spec fn spec_parse_int(s: Seq<char>, end: int, pos: int, breaker: char) -> Option<
    (Seq<char>, int),
> {
    if pos >= end {
        None
    } else {
        let c = s[pos];
        if is_numeric_char(c) || c == '-' {
            spec_int_tail(s, end, pos + 1, seq![c], breaker)
        } else {
            None
        }
    }
}

/// A whole `<int>..<int>}` scan starting after the `{`: both bounds as
/// machine integers and the position one past the closing brace.
pub open spec fn spec_parse_range(s: Seq<char>, end: int, pos: int) -> Option<(isize, isize, int)> {
    match spec_parse_int(s, end, pos, '.') {
        None => None,
        Some((num_a, p1)) => if p1 < end && s[p1] == '.' {
            match spec_parse_int(s, end, p1 + 1, '}') {
                None => None,
                Some((num_b, p2)) => match (spec_parse_isize(num_a), spec_parse_isize(num_b)) {
                    (Some(a), Some(b)) => Some((a, b, p2)),
                    _ => None,
                },
            }
        } else {
            None
        },
    }
}

/// Scans one integer written before `breaker`, collecting its characters.
fn parse_int(chars: &mut Cursor<'_>, breaker: char) -> (r: Option<Vec<char>>)
    requires
        old(chars).wf(),
    ensures
        final(chars).wf(),
        final(chars).s == old(chars).s,
        final(chars).end == old(chars).end,
        r is Some ==> spec_parse_int(
            old(chars).s@,
            old(chars).end as int,
            old(chars).pos as int,
            breaker,
        ) == Some((r->0@, final(chars).pos as int)),
        r is None ==> spec_parse_int(
            old(chars).s@,
            old(chars).end as int,
            old(chars).pos as int,
            breaker,
        ) is None,
{
    let mut num: Vec<char> = Vec::new();
    match chars.next() {
        None => {
            return None;
        },
        Some(c) => {
            let numeric = char_is_numeric(c);
            if !(numeric || c == '-') {
                return None;
            }
            num.push(c);
            proof {
                assert(num@ =~= seq![c]);
            }
        },
    }
    let mut ok = false;
    loop
        invariant_except_break
            spec_parse_int(old(chars).s@, old(chars).end as int, old(chars).pos as int, breaker)
                == spec_int_tail(chars.s@, chars.end as int, chars.pos as int, num@, breaker),
            !ok,
        invariant
            chars.wf(),
            chars.s == old(chars).s,
            chars.end == old(chars).end,
        ensures
            ok ==> spec_parse_int(
                old(chars).s@,
                old(chars).end as int,
                old(chars).pos as int,
                breaker,
            ) == Some((num@, chars.pos as int)),
            !ok ==> spec_parse_int(
                old(chars).s@,
                old(chars).end as int,
                old(chars).pos as int,
                breaker,
            ) is None,
        decreases chars.end - chars.pos,
    {
        match chars.next() {
            None => {
                break ;
            },
            Some(c) => {
                let numeric = char_is_numeric(c);
                if numeric {
                    num.push(c);
                } else if c == breaker {
                    ok = true;
                    break ;
                } else {
                    break ;
                }
            },
        }
    }
    if ok {
        Some(num)
    } else {
        None
    }
}

/// Attempts to read `<int>..<int>}` at the cursor; on success returns the
/// two bounds and the cursor one past the closing brace.
pub fn parse<'a>(mut chars: Cursor<'a>) -> (r: Option<(isize, isize, Cursor<'a>)>)
    requires
        chars.wf(),
    ensures
        r is Some ==> ({
            let (a, b, c2) = r->0;
            &&& c2.wf()
            &&& c2.s == chars.s
            &&& c2.end == chars.end
            &&& spec_parse_range(chars.s@, chars.end as int, chars.pos as int) == Some(
                (a, b, c2.pos as int),
            )
        }),
        r is None ==> spec_parse_range(chars.s@, chars.end as int, chars.pos as int) is None,
{
    let num_a = match parse_int(&mut chars, '.') {
        Some(v) => v,
        None => {
            return None;
        },
    };
    match chars.next() {
        Some(c) => {
            if c != '.' {
                return None;
            }
        },
        None => {
            return None;
        },
    }
    let num_b = match parse_int(&mut chars, '}') {
        Some(v) => v,
        None => {
            return None;
        },
    };
    let a = match parse_isize(&num_a) {
        Some(v) => v,
        None => {
            return None;
        },
    };
    let b = match parse_isize(&num_b) {
        Some(v) => v,
        None => {
            return None;
        },
    };
    Some((a, b, chars))
}

} // verus!
