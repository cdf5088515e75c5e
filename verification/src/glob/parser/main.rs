//! The glob pattern compiler's main loop.

use vstd::prelude::*;

use crate::glob::globtype::{spec_append_escaped, spec_push, Glob};
use crate::glob::matcher::{matcher_view, Matcher, MatcherS};
use crate::glob::parser::alt::{spec_build, spec_join, AltStack, BuilderV};
use crate::glob::parser::charclass;
use crate::glob::parser::charclass::{spec_charclass, spec_grow};
use crate::glob::parser::numrange;
use crate::glob::parser::numrange::{spec_int_tail, spec_parse_int, spec_parse_range};
use crate::glob::parser::Cursor;

verus! {

/// The compiler's running state: the program being built and the stack of
/// open alternation groups.
pub type ParseState = (Seq<MatcherS>, Seq<BuilderV>);

/// The position of the first `/` at or after `i`, or the pattern's length.
pub open spec fn next_slash(s: Seq<char>, i: int) -> int
    decreases s.len() - i,
{
    if i < 0 || i >= s.len() {
        s.len() as int
    } else if s[i] == '/' {
        i
    } else {
        next_slash(s, i + 1)
    }
}

/// `next_slash` stays within the pattern, every character before it is not
/// a slash, and it lands on a slash unless it reaches the end.
pub proof fn lemma_next_slash_props(s: Seq<char>, i: int)
    requires
        0 <= i <= s.len(),
    ensures
        i <= next_slash(s, i) <= s.len(),
        forall|k: int| i <= k < next_slash(s, i) ==> s[k] != '/',
        next_slash(s, i) < s.len() ==> s[next_slash(s, i)] == '/',
    decreases s.len() - i,
{
    if i < s.len() && s[i] != '/' {
        lemma_next_slash_props(s, i + 1);
    }
}

/// Whether the pattern contains a separator anywhere.
pub open spec fn contains_slash(s: Seq<char>) -> bool {
    exists|i: int| 0 <= i < s.len() && s[i] == '/'
}

/// A successful integer scan lands after its starting point, within the
/// segment.
proof fn lemma_int_tail_bounds(s: Seq<char>, end: int, pos: int, acc: Seq<char>, breaker: char)
    requires
        spec_int_tail(s, end, pos, acc, breaker) is Some,
    ensures
        pos < (spec_int_tail(s, end, pos, acc, breaker)->0).1 <= end,
    decreases end - pos,
{
    if pos < end {
        let c = s[pos];
        if crate::chars::is_numeric_char(c) {
            lemma_int_tail_bounds(s, end, pos + 1, acc.push(c), breaker);
        }
    }
}

/// A successful range scan lands after its starting point, within the
/// segment.
proof fn lemma_parse_range_bounds(s: Seq<char>, end: int, pos: int)
    requires
        spec_parse_range(s, end, pos) is Some,
    ensures
        pos < (spec_parse_range(s, end, pos)->0).2 <= end,
{
    let first = spec_parse_int(s, end, pos, '.');
    lemma_int_tail_bounds(s, end, pos + 1, seq![s[pos]], '.');
    let p1 = (first->0).1;
    lemma_int_tail_bounds(s, end, p1 + 2, seq![s[p1 + 1]], '}');
}

/// A successful class growth lands after its starting point, within the
/// segment.
proof fn lemma_grow_bounds(
    s: Seq<char>,
    end: int,
    pos: int,
    pc: char,
    not_at_start: bool,
    set: Seq<char>,
)
    requires
        spec_grow(s, end, pos, pc, not_at_start, set) is Some,
    ensures
        pos < (spec_grow(s, end, pos, pc, not_at_start, set)->0).1 <= end,
    decreases end - pos,
{
    if pos < end {
        let c = s[pos];
        if c == ']' {
        } else if c == '\\' {
            if pos + 1 < end {
                lemma_grow_bounds(
                    s,
                    end,
                    pos + 2,
                    s[pos + 1],
                    true,
                    crate::glob::flatset::spec_insert(set, s[pos + 1]),
                );
            }
        } else if c == '-' && not_at_start {
            if pos + 1 < end {
                let d = s[pos + 1];
                if d == ']' {
                } else if d == '\\' {
                    if pos + 2 < end {
                        let nc = s[pos + 2];
                        lemma_grow_bounds(
                            s,
                            end,
                            pos + 3,
                            nc,
                            true,
                            crate::glob::flatset::spec_insert_range(set, pc as int, nc as int),
                        );
                    }
                } else {
                    lemma_grow_bounds(
                        s,
                        end,
                        pos + 2,
                        d,
                        true,
                        crate::glob::flatset::spec_insert_range(set, pc as int, d as int),
                    );
                }
            }
        } else {
            lemma_grow_bounds(s, end, pos + 1, c, true, crate::glob::flatset::spec_insert(set, c));
        }
    }
}

/// A class attempt resumes at or after its starting point, within the
/// segment.
proof fn lemma_charclass_bounds(s: Seq<char>, end: int, pos: int, glob: Seq<MatcherS>)
    requires
        0 <= pos <= end <= s.len(),
    ensures
        pos <= spec_charclass(s, end, pos, glob).1 <= end,
{
    if pos < end {
        let invert = s[pos] == '!';
        let p1 = if invert {
            pos + 1
        } else {
            pos
        };
        if spec_grow(s, end, p1, '[', false, Seq::empty()) is Some {
            lemma_grow_bounds(s, end, p1, '[', false, Seq::empty());
        }
    }
}

/// One segment's compilation from `pos` to `end`: the dispatch over each
/// special character, exactly as the compiler's inner loop performs it.
pub open spec fn spec_seg_loop(s: Seq<char>, end: int, pos: int, st: ParseState) -> ParseState
    decreases end - pos,
    when 0 <= pos && pos <= end && end <= s.len()
    via spec_seg_loop_dec
{
    if pos >= end {
        st
    } else {
        let (g, stk) = st;
        let c = s[pos];
        if c == '\\' {
            if pos + 1 < end {
                spec_seg_loop(s, end, pos + 2, (spec_append_escaped(g, s[pos + 1]), stk))
            } else {
                st
            }
        } else if c == '?' {
            spec_seg_loop(s, end, pos + 1, (spec_push(g, MatcherS::AnyChar), stk))
        } else if c == '*' {
            let cross = pos + 1 < end && s[pos + 1] == '*';
            spec_seg_loop(s, end, pos + 1, (spec_push(g, MatcherS::AnySeq(cross)), stk))
        } else if c == '[' {
            let (g2, p2) = spec_charclass(s, end, pos + 1, g);
            spec_seg_loop(s, end, p2, (g2, stk))
        } else if c == '{' {
            match spec_parse_range(s, end, pos + 1) {
                Some((a, b, p2)) => {
                    let lo = if a as int <= b as int {
                        a
                    } else {
                        b
                    };
                    let hi = if a as int <= b as int {
                        b
                    } else {
                        a
                    };
                    spec_seg_loop(
                        s,
                        end,
                        p2,
                        (spec_push(g, MatcherS::Range(lo as int, hi as int)), stk),
                    )
                },
                None => spec_seg_loop(s, end, pos + 1, (Seq::empty(), stk.push((g, Seq::empty())))),
            }
        } else if c == ',' {
            if stk.len() > 0 {
                spec_seg_loop(
                    s,
                    end,
                    pos + 1,
                    (Seq::empty(), stk.update(stk.len() - 1, (stk.last().0, stk.last().1.push(g)))),
                )
            } else {
                spec_seg_loop(s, end, pos + 1, (spec_append_escaped(g, ','), stk))
            }
        } else if c == '}' {
            if stk.len() > 0 {
                spec_seg_loop(
                    s,
                    end,
                    pos + 1,
                    (spec_build((stk.last().0, stk.last().1.push(g))), stk.drop_last()),
                )
            } else {
                spec_seg_loop(s, end, pos + 1, (spec_append_escaped(g, '}'), stk))
            }
        } else {
            spec_seg_loop(s, end, pos + 1, (spec_append_escaped(g, c), stk))
        }
    }
}

#[via_fn]
proof fn spec_seg_loop_dec(s: Seq<char>, end: int, pos: int, st: ParseState) {
    if 0 <= pos && pos < end && end <= s.len() {
        let c = s[pos];
        if c == '[' {
            lemma_charclass_bounds(s, end, pos + 1, st.0);
        } else if c == '{' {
            if spec_parse_range(s, end, pos + 1) is Some {
                lemma_parse_range_bounds(s, end, pos + 1);
            }
        }
    }
}

/// The compilation of every segment from `start` on: a separator first,
/// then the segment's characters, then the next segment.
pub open spec fn spec_parse_segs(s: Seq<char>, start: int, st: ParseState) -> ParseState
    decreases s.len() - start + 1,
    when 0 <= start && start <= s.len()
    via spec_parse_segs_dec
{
    let end = next_slash(s, start);
    let st1 = spec_seg_loop(s, end, start, (spec_append_escaped(st.0, '/'), st.1));
    if end >= s.len() {
        st1
    } else {
        spec_parse_segs(s, end + 1, st1)
    }
}

#[via_fn]
proof fn spec_parse_segs_dec(s: Seq<char>, start: int, st: ParseState) {
    if 0 <= start && start <= s.len() {
        lemma_next_slash_props(s, start);
    }
}

/// The closing of every group left open at the end of the pattern, each
/// joined back into literal text.
pub open spec fn spec_finish(g: Seq<MatcherS>, stk: Seq<BuilderV>) -> Seq<MatcherS>
    decreases stk.len(),
{
    if stk.len() == 0 {
        g
    } else {
        spec_finish(spec_join((stk.last().0, stk.last().1.push(g))), stk.drop_last())
    }
}

/// What compiling a pattern yields: every segment compiled and joined by
/// separators, unclosed groups joined back as text, the first node
/// replaced by an end anchor when the pattern contains a separator, and a
/// trailing separator granted an implicit non-crossing wildcard.
pub open spec fn spec_parse(s: Seq<char>) -> Seq<MatcherS> {
    let (g, stk) = spec_parse_segs(s, 0, (Seq::empty(), Seq::empty()));
    let g1 = spec_finish(g, stk);
    let g2 = if contains_slash(s) && g1.len() > 0 {
        g1.update(0, MatcherS::End)
    } else {
        g1
    };
    if g2.len() > 0 && g2.last() is Sep {
        spec_push(g2, MatcherS::AnySeq(false))
    } else {
        g2
    }
}

/// Finds the end of the segment starting at `from`.
fn find_slash(s: &Vec<char>, from: usize) -> (r: usize)
    requires
        from <= s@.len(),
    ensures
        r == next_slash(s@, from as int),
        from <= r <= s@.len(),
{
    let n = s.len();
    let mut i = from;
    while i < n
        invariant
            from <= i <= n,
            n == s@.len(),
            next_slash(s@, from as int) == next_slash(s@, i as int),
        decreases n - i,
    {
        if s[i] == '/' {
            return i;
        }
        i += 1;
    }
    n
}

/// Compiles a pattern into a program.
///
/// Compilation is total: any syntactic misuse, such as an unclosed bracket
/// or brace, degrades to literal treatment of the offending delimiter
/// rather than an error.
pub fn parse(pattern: &Vec<char>) -> (r: Glob)
    ensures
        r@ == spec_parse(pattern@),
{
    let n = pattern.len();
    let mut retval = Glob::empty();
    let mut stack = AltStack::new();
    let mut seg_start: usize = 0;
    let mut slash_seen = false;
    proof {
        assert(retval@ =~= Seq::<MatcherS>::empty());
    }
    loop
        invariant_except_break
            spec_parse_segs(pattern@, seg_start as int, (retval@, stack@)) == spec_parse_segs(
                pattern@,
                0,
                (Seq::empty(), Seq::empty()),
            ),
        invariant
            seg_start <= n,
            n == pattern@.len(),
            slash_seen == exists|i: int| 0 <= i < seg_start && pattern@[i] == '/',
        ensures
            (retval@, stack@) == spec_parse_segs(pattern@, 0, (Seq::empty(), Seq::empty())),
            slash_seen == contains_slash(pattern@),
        decreases n - seg_start,
    {
        let ghost prev = (retval@, stack@);
        let seg_end = find_slash(pattern, seg_start);
        proof {
            lemma_next_slash_props(pattern@, seg_start as int);
        }
        retval.append_escaped('/');
        let ghost st0 = (retval@, stack@);
        let mut chars = Cursor { s: pattern, end: seg_end, pos: seg_start };
        loop
            invariant
                chars.wf(),
                chars.s == pattern,
                chars.end == seg_end,
                seg_end <= n,
                n == pattern@.len(),
                spec_seg_loop(pattern@, seg_end as int, chars.pos as int, (retval@, stack@))
                    == spec_seg_loop(pattern@, seg_end as int, seg_start as int, st0),
            ensures
                (retval@, stack@) == spec_seg_loop(
                    pattern@,
                    seg_end as int,
                    seg_start as int,
                    st0,
                ),
            decreases chars.end - chars.pos,
        {
            let ghost p0 = chars.pos as int;
            let c = match chars.next() {
                None => {
                    break ;
                },
                Some(c) => c,
            };
            if c == '\\' {
                match chars.next() {
                    Some(escaped) => {
                        retval.append_escaped(escaped);
                    },
                    None => {},
                }
            } else if c == '?' {
                retval.push(Matcher::AnyChar);
            } else if c == '*' {
                let cross = match chars.peek() {
                    Some(p) => p == '*',
                    None => false,
                };
                retval.push(Matcher::AnySeq(cross));
            } else if c == '[' {
                proof {
                    lemma_charclass_bounds(pattern@, seg_end as int, p0 + 1, retval@);
                }
                let (retval_n, chars_n) = charclass::parse(retval, chars);
                retval = retval_n;
                chars = chars_n;
            } else if c == '{' {
                match numrange::parse(chars) {
                    Some((a, b, chars_new)) => {
                        proof {
                            lemma_parse_range_bounds(pattern@, seg_end as int, p0 + 1);
                        }
                        chars = chars_new;
                        let lo = if a <= b {
                            a
                        } else {
                            b
                        };
                        let hi = if a <= b {
                            b
                        } else {
                            a
                        };
                        retval.push(Matcher::Range(lo, hi));
                    },
                    None => {
                        stack.push(retval);
                        retval = Glob::empty();
                        proof {
                            assert(retval@ =~= Seq::<MatcherS>::empty());
                        }
                    },
                }
            } else if c == ',' {
                match stack.add_alt(retval) {
                    Some(rejected) => {
                        retval = rejected;
                        retval.append_escaped(',');
                    },
                    None => {
                        retval = Glob::empty();
                        proof {
                            assert(retval@ =~= Seq::<MatcherS>::empty());
                        }
                    },
                }
            } else if c == '}' {
                let (retval_n, add_brace) = stack.add_alt_and_pop(retval);
                retval = retval_n;
                if add_brace {
                    retval.append_escaped('}');
                }
            } else {
                retval.append_escaped(c);
            }
        }
        if seg_end >= n {
            proof {
                assert(spec_parse_segs(pattern@, seg_start as int, prev) == (retval@, stack@));
                assert(slash_seen == contains_slash(pattern@)) by {
                    if contains_slash(pattern@) {
                        let w = choose|i: int|
                            0 <= i < pattern@.len() && pattern@[i] == '/';
                        assert(!(seg_start <= w < seg_end));
                        assert(w < seg_start);
                    }
                }
            }
            break ;
        }
        proof {
            assert(pattern@[seg_end as int] == '/');
        }
        slash_seen = true;
        seg_start = seg_end + 1;
    }
    let ghost target = spec_parse_segs(pattern@, 0, (Seq::empty(), Seq::empty()));
    let mut glob = retval;
    loop
        invariant
            spec_finish(glob@, stack@) == spec_finish(target.0, target.1),
        ensures
            glob@ == spec_finish(target.0, target.1),
        decreases stack@.len(),
    {
        let ghost pres = stack@;
        let ghost gin = glob@;
        let (glob_n, is_empty) = stack.join_and_pop(glob);
        glob = glob_n;
        if is_empty {
            proof {
                if pres.len() > 0 {
                    assert(glob@ == spec_join((pres.last().0, pres.last().1.push(gin))));
                    assert(spec_finish(gin, pres) == spec_finish(glob@, pres.drop_last()));
                    assert(pres.drop_last().len() == 0);
                    assert(spec_finish(glob@, pres.drop_last()) == glob@);
                } else {
                    assert(spec_finish(gin, pres) == gin);
                }
            }
            break ;
        }
    }
    if slash_seen && glob.0.len() > 0 {
        let ghost pre = glob@;
        glob.0[0] = Matcher::End;
        proof {
            assert(glob@ =~= pre.update(0, MatcherS::End));
        }
    }
    let len = glob.0.len();
    let trailing_sep = len > 0 && matches!(&glob.0[len - 1], Matcher::Sep);
    proof {
        if len > 0 {
            assert(glob@.last() == matcher_view(glob.0@[len - 1]));
        }
    }
    if trailing_sep {
        glob.push(Matcher::AnySeq(false));
    }
    glob
}

} // verus!

verus! {

/// A pattern containing a separator compiles to an anchored program: its
/// first node is the end-of-path assertion, which holds only when the
/// pattern's structure reaches the configured root. A pattern without a
/// separator receives no such anchor.
pub proof fn lemma_anchoring(s: Seq<char>)
    ensures
        contains_slash(s) && spec_parse(s).len() > 0 ==> spec_parse(s)[0] is End,
{
    let (g, stk) = spec_parse_segs(s, 0, (Seq::empty(), Seq::empty()));
    let g1 = spec_finish(g, stk);
    if contains_slash(s) && g1.len() > 0 {
        let g2 = g1.update(0, MatcherS::End);
        if g2.len() > 0 && g2.last() is Sep {
            assert(spec_parse(s) == spec_push(g2, MatcherS::AnySeq(false)));
            assert(spec_parse(s)[0] == g2[0]);
        }
    }
}

} // verus!

verus! {

use crate::glob::globtype::spec_append_glob;
use crate::glob::parser::alt::{spec_dedup, spec_join_fold, spec_partition};

/// Whether a program holds no end-of-path anchor.
pub open spec fn no_end(p: Seq<MatcherS>) -> bool {
    forall|i: int| 0 <= i < p.len() ==> !((#[trigger] p[i]) is End)
}

/// Whether a group builder holds no anchor anywhere.
spec fn builder_no_end(b: BuilderV) -> bool {
    no_end(b.0) && (forall|i: int| 0 <= i < b.1.len() ==> no_end(#[trigger] b.1[i]))
}

/// Whether the compiler's whole state holds no anchor.
spec fn state_no_end(st: ParseState) -> bool {
    no_end(st.0) && (forall|i: int| 0 <= i < st.1.len() ==> builder_no_end(#[trigger] st.1[i]))
}

/// Appending a non-anchor node introduces no anchor.
proof fn lemma_push_no_end(p: Seq<MatcherS>, m: MatcherS)
    requires
        no_end(p),
        !(m is End),
    ensures
        no_end(spec_push(p, m)),
{
    let r = spec_push(p, m);
    assert forall|i: int| 0 <= i < r.len() implies !((#[trigger] r[i]) is End) by {
        if i < p.len() {
            assert(!(p[i] is End));
        }
    }
}

/// Appending a character introduces no anchor.
proof fn lemma_appesc_no_end(p: Seq<MatcherS>, c: char)
    requires
        no_end(p),
    ensures
        no_end(spec_append_escaped(p, c)),
{
    if c == '/' {
        lemma_push_no_end(p, MatcherS::Sep);
    } else {
        lemma_push_no_end(p, MatcherS::Suffix(seq![c]));
    }
}

/// Appending a whole anchor-free program introduces no anchor.
proof fn lemma_append_glob_no_end(p: Seq<MatcherS>, q: Seq<MatcherS>)
    requires
        no_end(p),
        no_end(q),
    ensures
        no_end(spec_append_glob(p, q)),
    decreases q.len(),
{
    if q.len() > 0 {
        lemma_push_no_end(p, q[0]);
        assert(no_end(q.drop_first())) by {
            assert(forall|i: int|
                0 <= i < q.drop_first().len() ==> (#[trigger] q.drop_first()[i]) == q[i + 1]);
        }
        lemma_append_glob_no_end(spec_push(p, q[0]), q.drop_first());
    }
}

/// Closing a group of anchor-free branches yields an anchor-free program.
proof fn lemma_build_no_end(b: BuilderV)
    requires
        builder_no_end(b),
    ensures
        no_end(spec_build(b)),
{
    let (g, opts) = b;
    if opts.len() == 0 {
        lemma_appesc_no_end(g, '{');
        lemma_appesc_no_end(spec_append_escaped(g, '{'), '}');
    } else if opts.len() == 1 {
        lemma_appesc_no_end(g, '{');
        lemma_append_glob_no_end(spec_append_escaped(g, '{'), opts[0]);
        lemma_appesc_no_end(spec_append_glob(spec_append_escaped(g, '{'), opts[0]), '}');
    } else {
        let (emp, non) = spec_partition(opts, Seq::empty(), Seq::empty());
        lemma_push_no_end(g, MatcherS::Any(spec_dedup(emp + non, Seq::empty())));
    }
}

/// Joining anchor-free branches back into text yields an anchor-free
/// program.
proof fn lemma_join_fold_no_end(g: Seq<MatcherS>, opts: Seq<Seq<MatcherS>>, first: bool)
    requires
        no_end(g),
        forall|i: int| 0 <= i < opts.len() ==> no_end(#[trigger] opts[i]),
    ensures
        no_end(spec_join_fold(g, opts, first)),
    decreases opts.len(),
{
    if opts.len() > 0 {
        let g2 = if first {
            g
        } else {
            spec_append_escaped(g, ',')
        };
        if !first {
            lemma_appesc_no_end(g, ',');
        }
        lemma_append_glob_no_end(g2, opts[0]);
        assert(forall|i: int|
            0 <= i < opts.drop_first().len() ==> (#[trigger] opts.drop_first()[i]) == opts[i + 1]);
        lemma_join_fold_no_end(spec_append_glob(g2, opts[0]), opts.drop_first(), false);
    }
}

/// An abandoned group joins back without an anchor.
proof fn lemma_join_no_end(b: BuilderV)
    requires
        builder_no_end(b),
    ensures
        no_end(spec_join(b)),
{
    lemma_appesc_no_end(b.0, '{');
    lemma_join_fold_no_end(spec_append_escaped(b.0, '{'), b.1, true);
}

/// A class attempt introduces no anchor.
proof fn lemma_charclass_no_end(s: Seq<char>, end: int, pos: int, g: Seq<MatcherS>)
    requires
        no_end(g),
    ensures
        no_end(spec_charclass(s, end, pos, g).0),
{
    if pos < end {
        let invert = s[pos] == '!';
        let p1 = if invert {
            pos + 1
        } else {
            pos
        };
        match spec_grow(s, end, p1, '[', false, Seq::empty()) {
            None => {
                lemma_appesc_no_end(g, '[');
            },
            Some((set0, p2)) => {
                let set = crate::glob::flatset::spec_remove(set0, '/');
                if set.len() == 0 {
                    if invert {
                        lemma_push_no_end(g, MatcherS::AnyChar);
                    } else {
                        lemma_appesc_no_end(g, '[');
                        lemma_appesc_no_end(spec_append_escaped(g, '['), ']');
                    }
                } else if set.len() == 1 {
                    lemma_appesc_no_end(g, set[0]);
                } else {
                    lemma_push_no_end(g, MatcherS::CharClass(set, !invert));
                }
            },
        }
    } else {
        lemma_appesc_no_end(g, '[');
    }
}

/// A segment's compilation introduces no anchor.
proof fn lemma_seg_loop_no_end(s: Seq<char>, end: int, pos: int, st: ParseState)
    requires
        0 <= pos <= end <= s.len(),
        state_no_end(st),
    ensures
        state_no_end(spec_seg_loop(s, end, pos, st)),
    decreases end - pos,
{
    if pos < end {
        let (g, stk) = st;
        let c = s[pos];
        if c == '\\' {
            if pos + 1 < end {
                lemma_appesc_no_end(g, s[pos + 1]);
                lemma_seg_loop_no_end(s, end, pos + 2, (spec_append_escaped(g, s[pos + 1]), stk));
            }
        } else if c == '?' {
            lemma_push_no_end(g, MatcherS::AnyChar);
            lemma_seg_loop_no_end(s, end, pos + 1, (spec_push(g, MatcherS::AnyChar), stk));
        } else if c == '*' {
            let cross = pos + 1 < end && s[pos + 1] == '*';
            lemma_push_no_end(g, MatcherS::AnySeq(cross));
            lemma_seg_loop_no_end(s, end, pos + 1, (spec_push(g, MatcherS::AnySeq(cross)), stk));
        } else if c == '[' {
            let (g2, p2) = spec_charclass(s, end, pos + 1, g);
            lemma_charclass_no_end(s, end, pos + 1, g);
            lemma_charclass_bounds(s, end, pos + 1, g);
            lemma_seg_loop_no_end(s, end, p2, (g2, stk));
        } else if c == '{' {
            match spec_parse_range(s, end, pos + 1) {
                Some((a, b, p2)) => {
                    let lo = if a as int <= b as int {
                        a
                    } else {
                        b
                    };
                    let hi = if a as int <= b as int {
                        b
                    } else {
                        a
                    };
                    lemma_push_no_end(g, MatcherS::Range(lo as int, hi as int));
                    lemma_parse_range_bounds(s, end, pos + 1);
                    lemma_seg_loop_no_end(
                        s,
                        end,
                        p2,
                        (spec_push(g, MatcherS::Range(lo as int, hi as int)), stk),
                    );
                },
                None => {
                    let stk2 = stk.push((g, Seq::empty()));
                    assert(state_no_end((Seq::empty(), stk2))) by {
                        assert(forall|i: int|
                            0 <= i < stk.len() ==> stk2[i] == (#[trigger] stk[i]));
                        assert(builder_no_end(stk2[stk2.len() - 1]));
                    }
                    lemma_seg_loop_no_end(s, end, pos + 1, (Seq::empty(), stk2));
                },
            }
        } else if c == ',' {
            if stk.len() > 0 {
                let nb = (stk.last().0, stk.last().1.push(g));
                let stk2 = stk.update(stk.len() - 1, nb);
                assert(state_no_end((Seq::empty(), stk2))) by {
                    assert(builder_no_end(stk.last()));
                    assert(builder_no_end(nb)) by {
                        assert(forall|i: int|
                            0 <= i < nb.1.len() - 1 ==> (#[trigger] nb.1[i]) == stk.last().1[i]);
                        assert(nb.1.last() == g);
                    }
                    assert(forall|i: int|
                        0 <= i < stk2.len() - 1 ==> (#[trigger] stk2[i]) == stk[i]);
                }
                lemma_seg_loop_no_end(s, end, pos + 1, (Seq::empty(), stk2));
            } else {
                lemma_appesc_no_end(g, ',');
                lemma_seg_loop_no_end(s, end, pos + 1, (spec_append_escaped(g, ','), stk));
            }
        } else if c == '}' {
            if stk.len() > 0 {
                let nb = (stk.last().0, stk.last().1.push(g));
                assert(builder_no_end(stk.last()));
                assert(builder_no_end(nb)) by {
                    assert(forall|i: int|
                        0 <= i < nb.1.len() - 1 ==> (#[trigger] nb.1[i]) == stk.last().1[i]);
                    assert(nb.1.last() == g);
                }
                lemma_build_no_end(nb);
                assert(forall|i: int|
                    0 <= i < stk.drop_last().len() ==> (#[trigger] stk.drop_last()[i]) == stk[i]);
                lemma_seg_loop_no_end(s, end, pos + 1, (spec_build(nb), stk.drop_last()));
            } else {
                lemma_appesc_no_end(g, '}');
                lemma_seg_loop_no_end(s, end, pos + 1, (spec_append_escaped(g, '}'), stk));
            }
        } else {
            lemma_appesc_no_end(g, c);
            lemma_seg_loop_no_end(s, end, pos + 1, (spec_append_escaped(g, c), stk));
        }
    }
}

/// Compiling the segments introduces no anchor.
proof fn lemma_parse_segs_no_end(s: Seq<char>, start: int, st: ParseState)
    requires
        0 <= start <= s.len(),
        state_no_end(st),
    ensures
        state_no_end(spec_parse_segs(s, start, st)),
    decreases s.len() - start + 1,
{
    lemma_next_slash_props(s, start);
    let end = next_slash(s, start);
    lemma_appesc_no_end(st.0, '/');
    lemma_seg_loop_no_end(s, end, start, (spec_append_escaped(st.0, '/'), st.1));
    let st1 = spec_seg_loop(s, end, start, (spec_append_escaped(st.0, '/'), st.1));
    if end < s.len() {
        lemma_parse_segs_no_end(s, end + 1, st1);
    }
}

/// Closing the leftover groups introduces no anchor.
proof fn lemma_finish_no_end(g: Seq<MatcherS>, stk: Seq<BuilderV>)
    requires
        no_end(g),
        forall|i: int| 0 <= i < stk.len() ==> builder_no_end(#[trigger] stk[i]),
    ensures
        no_end(spec_finish(g, stk)),
    decreases stk.len(),
{
    if stk.len() > 0 {
        let nb = (stk.last().0, stk.last().1.push(g));
        assert(builder_no_end(stk.last()));
        assert(builder_no_end(nb)) by {
            assert(forall|i: int|
                0 <= i < nb.1.len() - 1 ==> (#[trigger] nb.1[i]) == stk.last().1[i]);
            assert(nb.1.last() == g);
        }
        lemma_join_no_end(nb);
        assert(forall|i: int|
            0 <= i < stk.drop_last().len() ==> (#[trigger] stk.drop_last()[i]) == stk[i]);
        lemma_finish_no_end(spec_join(nb), stk.drop_last());
    }
}

/// A pattern without a separator compiles to a program without an anchor:
/// such a pattern may match at any depth.
pub proof fn lemma_unanchored(s: Seq<char>)
    ensures
        !contains_slash(s) ==> no_end(spec_parse(s)),
{
    if !contains_slash(s) {
        let st0 = (Seq::<MatcherS>::empty(), Seq::<BuilderV>::empty());
        assert(state_no_end(st0));
        lemma_parse_segs_no_end(s, 0, st0);
        let (g, stk) = spec_parse_segs(s, 0, st0);
        lemma_finish_no_end(g, stk);
        let g1 = spec_finish(g, stk);
        if g1.len() > 0 && g1.last() is Sep {
            lemma_push_no_end(g1, MatcherS::AnySeq(false));
        }
    }
}

} // verus!
