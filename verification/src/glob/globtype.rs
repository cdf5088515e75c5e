//! The compiled glob program and the node-fusing append operations.

use vstd::prelude::*;

use crate::glob::matcher::{Matcher, MatcherS};

verus! {

/// A compiled glob pattern: an ordered sequence of matcher nodes.
///
/// The program is matched tail-first: the last node is applied to the end of
/// the path first.
#[derive(Debug)]
pub struct Glob(pub Vec<Matcher>);

/// The result of appending `m` to program `p`, fusing adjacent nodes:
/// consecutive separators collapse, consecutive literal suffixes concatenate,
/// and a separator-crossing wildcard is dropped right after a
/// non-crossing one.
pub open spec fn spec_push(p: Seq<MatcherS>, m: MatcherS) -> Seq<MatcherS> {
    match m {
        MatcherS::Sep => if p.len() > 0 && p.last() is Sep {
            p
        } else {
            p.push(m)
        },
        MatcherS::Suffix(sfx) => if p.len() > 0 && p.last() is Suffix {
            p.update(p.len() - 1, MatcherS::Suffix(p.last()->Suffix_0 + sfx))
        } else {
            p.push(m)
        },
        MatcherS::AnySeq(cross) => if cross && p.len() > 0 && p.last() == MatcherS::AnySeq(false) {
            p
        } else {
            p.push(m)
        },
        _ => p.push(m),
    }
}

/// The result of appending one character literally: a slash becomes a
/// separator node, anything else a one-character literal suffix.
pub open spec fn spec_append_escaped(p: Seq<MatcherS>, c: char) -> Seq<MatcherS> {
    if c == '/' {
        spec_push(p, MatcherS::Sep)
    } else {
        spec_push(p, MatcherS::Suffix(seq![c]))
    }
}

/// The result of appending every node of `q` to `p` in order, fusing as
/// `spec_push` does.
pub open spec fn spec_append_glob(p: Seq<MatcherS>, q: Seq<MatcherS>) -> Seq<MatcherS>
    decreases q.len(),
{
    if q.len() == 0 {
        p
    } else {
        spec_append_glob(spec_push(p, q[0]), q.drop_first())
    }
}

impl Glob {
    /// Returns an empty program.
    pub fn empty() -> (r: Glob)
        ensures
            r@ == Seq::<MatcherS>::empty(),
    {
        Glob(Vec::new())
    }

    /// The number of nodes in the program.
    pub fn len(&self) -> (r: usize)
        ensures
            r == self@.len(),
    {
        self.0.len()
    }

    /// Appends one matcher node, fusing it with the last node where safe.
    pub fn push(&mut self, matcher: Matcher)
        ensures
            final(self)@ == spec_push(old(self)@, matcher@),
    {
        let n = self.0.len();
        match matcher {
            Matcher::Sep => {
                if n > 0 && matches!(&self.0[n - 1], Matcher::Sep) {
                    proof {
                        assert(final(self)@ =~= spec_push(old(self)@, matcher@));
                    }
                    return ;
                }
                self.0.push(Matcher::Sep);
                proof {
                    assert(final(self)@ =~= spec_push(old(self)@, matcher@));
                }
            },
            Matcher::Suffix(sfx) => {
                if n > 0 && matches!(&self.0[n - 1], Matcher::Suffix(_)) {
                    let last = self.0.pop();
                    match last {
                        Some(Matcher::Suffix(mut prefix)) => {
                            let mut j: usize = 0;
                            let sn = sfx.len();
                            let ghost pre0 = prefix@;
                            while j < sn
                                invariant
                                    j <= sn,
                                    sn == sfx@.len(),
                                    prefix@ == pre0 + sfx@.subrange(0, j as int),
                                decreases sn - j,
                            {
                                prefix.push(sfx[j]);
                                proof {
                                    assert(pre0 + sfx@.subrange(0, j as int) + seq![sfx@[j as int]]
                                        =~= pre0 + sfx@.subrange(0, j + 1 as int));
                                }
                                j += 1;
                            }
                            proof {
                                assert(prefix@ =~= pre0 + sfx@);
                            }
                            self.0.push(Matcher::Suffix(prefix));
                            proof {
                                assert(final(self)@ =~= spec_push(old(self)@, MatcherS::Suffix(
                                    sfx@,
                                )));
                            }
                        },
                        _ => {
                            proof {
                                assert(false);
                            }
                        },
                    }
                } else {
                    self.0.push(Matcher::Suffix(sfx));
                    proof {
                        assert(final(self)@ =~= spec_push(old(self)@, matcher@));
                    }
                }
            },
            Matcher::AnySeq(cross) => {
                if cross && n > 0 && matches!(&self.0[n - 1], Matcher::AnySeq(false)) {
                    proof {
                        assert(old(self)@.last() == MatcherS::AnySeq(false));
                        assert(final(self)@ =~= spec_push(old(self)@, matcher@));
                    }
                    return ;
                }
                self.0.push(Matcher::AnySeq(cross));
                proof {
                    assert(final(self)@ =~= spec_push(old(self)@, matcher@));
                }
            },
            _ => {
                self.0.push(matcher);
                proof {
                    assert(final(self)@ =~= spec_push(old(self)@, matcher@));
                }
            },
        }
    }

    /// Appends one character as-is, with no special meaning.
    pub fn append_escaped(&mut self, c: char)
        ensures
            final(self)@ == spec_append_escaped(old(self)@, c),
    {
        if c == '/' {
            self.push(Matcher::Sep);
        } else {
            let mut text: Vec<char> = Vec::new();
            text.push(c);
            proof {
                assert(text@ =~= seq![c]);
            }
            self.push(Matcher::Suffix(text));
        }
    }

    /// Appends all of the nodes of another program, fusing at the seam.
    pub fn append_glob(&mut self, glob: Glob)
        ensures
            final(self)@ == spec_append_glob(old(self)@, glob@),
    {
        let ghost q0 = glob@;
        let mut rest = glob.0;
        proof {
            assert(Seq::new(rest@.len(), |i: int| crate::glob::matcher::matcher_view(rest@[i]))
                =~= q0);
        }
        while rest.len() > 0
            invariant
                spec_append_glob(self@, Seq::new(rest@.len(), |i: int|
                    crate::glob::matcher::matcher_view(rest@[i]))) == spec_append_glob(
                    old(self)@,
                    q0,
                ),
            decreases rest.len(),
        {
            let ghost pre = Seq::new(rest@.len(), |i: int| crate::glob::matcher::matcher_view(
                rest@[i],
            ));
            let m = rest.remove(0);
            self.push(m);
            proof {
                assert(Seq::new(rest@.len(), |i: int| crate::glob::matcher::matcher_view(rest@[i]))
                    =~= pre.drop_first());
            }
        }
    }
}

} // verus!

verus! {

use crate::chars::str_chars;
use crate::glob::matcher::{spec_eval, spec_machine_accepts, MatcherS as NodeShape};
use crate::glob::splitter::{spec_components, spec_has_root, SplitState};

/// Whether a pattern's program matches a path written as a string.
pub open spec fn spec_glob_matches(g: Seq<NodeShape>, path: Seq<char>) -> bool {
    match spec_eval(g, spec_components(path), spec_has_root(path)) {
        Some(Some(sp)) => true,
        _ => false,
    }
}

impl Glob {
    /// Parses the provided pattern.
    ///
    /// Maximally permissive: common syntax errors, such as unclosed
    /// brackets, are treated as if they were escaped.
    pub fn new(pattern: &str) -> (r: Glob)
        ensures
            r@ == crate::glob::parser::main::spec_parse(pattern@),
    {
        let chars = str_chars(pattern);
        crate::glob::parser::parse(&chars)
    }

    /// Returns `true` if the provided path matches this pattern.
    pub fn matches(&self, path: &str) -> (r: bool)
        ensures
            r == spec_glob_matches(self@, path@),
    {
        let chars = str_chars(path);
        let (comps, root) = crate::glob::splitter::split_path(&chars);
        let res = crate::glob::matcher::matches(&comps, root, self);
        res.is_some()
    }
}

impl Default for Glob {
    /// Returns an empty pattern.
    fn default() -> (r: Glob)
        ensures
            r@ == Seq::<NodeShape>::empty(),
    {
        Glob::empty()
    }
}

/// Compiling is deterministic and total: every pattern compiles, without
/// error, to the one program that `spec_parse` assigns it, so equal
/// patterns always yield structurally equal programs.
pub proof fn lemma_compile_deterministic(p: Seq<char>, q: Seq<char>)
    requires
        p == q,
    ensures
        crate::glob::parser::main::spec_parse(p) == crate::glob::parser::main::spec_parse(q),
{
}

/// Matching is a pure function of the compiled program and the path:
/// repeated calls with the same program and the same path return the same
/// result.
pub proof fn lemma_matches_pure(g: Seq<NodeShape>, path1: Seq<char>, path2: Seq<char>)
    requires
        path1 == path2,
    ensures
        spec_glob_matches(g, path1) == spec_glob_matches(g, path2),
{
}

} // verus!
