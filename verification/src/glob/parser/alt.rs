//! Alternation groups: the builder for `{a,b,c}` branches and the stack of
//! open groups.

use vstd::prelude::*;

use crate::glob::globtype::{spec_append_escaped, spec_append_glob, spec_push, Glob};
use crate::glob::matcher::{glob_eq, glob_view, MatcherS};

verus! {

/// A builder view: the program before the group and the branches collected
/// so far.
pub type BuilderV = (Seq<MatcherS>, Seq<Seq<MatcherS>>);

/// Splits branches into the empty ones and the rest, keeping each side's
/// order: exactly a stable sort that puts empty branches first.
pub open spec fn spec_partition(
    gs: Seq<Seq<MatcherS>>,
    emp: Seq<Seq<MatcherS>>,
    non: Seq<Seq<MatcherS>>,
) -> (Seq<Seq<MatcherS>>, Seq<Seq<MatcherS>>)
    decreases gs.len(),
{
    if gs.len() == 0 {
        (emp, non)
    } else if gs[0].len() == 0 {
        spec_partition(gs.drop_first(), emp.push(gs[0]), non)
    } else {
        spec_partition(gs.drop_first(), emp, non.push(gs[0]))
    }
}

/// Drops each branch that equals the one kept just before it.
pub open spec fn spec_dedup(gs: Seq<Seq<MatcherS>>, out: Seq<Seq<MatcherS>>) -> Seq<
    Seq<MatcherS>,
>
    decreases gs.len(),
{
    if gs.len() == 0 {
        out
    } else if out.len() > 0 && out.last() == gs[0] {
        spec_dedup(gs.drop_first(), out)
    } else {
        spec_dedup(gs.drop_first(), out.push(gs[0]))
    }
}

/// Joins the branches back into literal text: `{` then the branches
/// separated by literal commas.
pub open spec fn spec_join_fold(g: Seq<MatcherS>, opts: Seq<Seq<MatcherS>>, first: bool) -> Seq<
    MatcherS,
>
    decreases opts.len(),
{
    if opts.len() == 0 {
        g
    } else {
        let g2 = if first {
            g
        } else {
            spec_append_escaped(g, ',')
        };
        spec_join_fold(spec_append_glob(g2, opts[0]), opts.drop_first(), false)
    }
}

/// What a closed group compiles to: literal braces for a degenerate group,
/// an alternation node (branches stably sorted empty-first, then
/// deduplicated) otherwise.
pub open spec fn spec_build(b: BuilderV) -> Seq<MatcherS> {
    let (g, opts) = b;
    if opts.len() == 0 {
        spec_append_escaped(spec_append_escaped(g, '{'), '}')
    } else if opts.len() == 1 {
        spec_append_escaped(spec_append_glob(spec_append_escaped(g, '{'), opts[0]), '}')
    } else {
        let (emp, non) = spec_partition(opts, Seq::empty(), Seq::empty());
        spec_push(g, MatcherS::Any(spec_dedup(emp + non, Seq::empty())))
    }
}

/// What an abandoned group joins back to: its literal text.
pub open spec fn spec_join(b: BuilderV) -> Seq<MatcherS> {
    spec_join_fold(spec_append_escaped(b.0, '{'), b.1, true)
}

/// Collects the branches of one alternation group while it is being
/// parsed.
pub struct AltBuilder {
    glob: Glob,
    options: Vec<Glob>,
}

impl AltBuilder {
    /// The builder's program-so-far and branches.
    pub closed spec fn view(&self) -> BuilderV {
        (self.glob@, Seq::new(self.options@.len(), |i: int| glob_view(self.options@[i])))
    }

    /// Opens a group after the given program.
    pub fn new(glob: Glob) -> (r: AltBuilder)
        ensures
            r@ == (glob@, Seq::<Seq<MatcherS>>::empty()),
    {
        let r = AltBuilder { glob, options: Vec::new() };
        proof {
            assert(r@.1 =~= Seq::<Seq<MatcherS>>::empty());
        }
        r
    }

    /// Adds one finished branch.
    pub fn add(&mut self, glob: Glob)
        ensures
            final(self)@ == (old(self)@.0, old(self)@.1.push(glob@)),
    {
        self.options.push(glob);
        proof {
            assert(self@.1 =~= old(self)@.1.push(glob@));
        }
    }

    /// Closes the group, compiling it to an alternation node or to literal
    /// braces for a degenerate group.
    pub fn build(self) -> (r: Glob)
        ensures
            r@ == spec_build(self@),
    {
        let ghost b = self@;
        let AltBuilder { mut glob, mut options } = self;
        proof {
            assert(b == (glob@, Seq::new(options@.len(), |i: int| glob_view(options@[i]))));
        }
        let n = options.len();
        if n == 0 {
            glob.append_escaped('{');
            glob.append_escaped('}');
            glob
        } else if n == 1 {
            let only = match options.pop() {
                Some(o) => o,
                None => {
                    proof {
                        assert(false);
                    }
                    Glob::empty()
                },
            };
            glob.append_escaped('{');
            glob.append_glob(only);
            glob.append_escaped('}');
            proof {
                assert(only@ == b.1[0]);
            }
            glob
        } else {
            let mut emp: Vec<Glob> = Vec::new();
            let mut non: Vec<Glob> = Vec::new();
            let ghost gemp = Seq::<Seq<MatcherS>>::empty();
            let ghost gnon = Seq::<Seq<MatcherS>>::empty();
            proof {
                assert(Seq::new(emp@.len(), |i: int| glob_view(emp@[i])) =~= gemp);
                assert(Seq::new(non@.len(), |i: int| glob_view(non@[i])) =~= gnon);
            }
            while options.len() > 0
                invariant
                    spec_partition(
                        Seq::new(options@.len(), |i: int| glob_view(options@[i])),
                        Seq::new(emp@.len(), |i: int| glob_view(emp@[i])),
                        Seq::new(non@.len(), |i: int| glob_view(non@[i])),
                    ) == spec_partition(b.1, Seq::empty(), Seq::empty()),
                decreases options.len(),
            {
                let ghost pre = Seq::new(options@.len(), |i: int| glob_view(options@[i]));
                let ghost pe = Seq::new(emp@.len(), |i: int| glob_view(emp@[i]));
                let ghost pn = Seq::new(non@.len(), |i: int| glob_view(non@[i]));
                let g = options.remove(0);
                proof {
                    assert(Seq::new(options@.len(), |i: int| glob_view(options@[i]))
                        =~= pre.drop_first());
                    assert(pre[0] == glob_view(g));
                }
                if g.0.len() == 0 {
                    emp.push(g);
                    proof {
                        assert(Seq::new(emp@.len(), |i: int| glob_view(emp@[i])) =~= pe.push(
                            pre[0],
                        ));
                    }
                } else {
                    non.push(g);
                    proof {
                        assert(Seq::new(non@.len(), |i: int| glob_view(non@[i])) =~= pn.push(
                            pre[0],
                        ));
                    }
                }
            }
            proof {
                assert(Seq::new(options@.len(), |i: int| glob_view(options@[i]))
                    =~= Seq::<Seq<MatcherS>>::empty());
            }
            let mut sorted = emp;
            let ghost gsorted = Seq::new(sorted@.len(), |i: int| glob_view(sorted@[i]));
            let mut tail = non;
            while tail.len() > 0
                invariant
                    Seq::new(sorted@.len(), |i: int| glob_view(sorted@[i])) + Seq::new(
                        tail@.len(),
                        |i: int| glob_view(tail@[i]),
                    ) == spec_partition(b.1, Seq::empty(), Seq::empty()).0 + spec_partition(
                        b.1,
                        Seq::empty(),
                        Seq::empty(),
                    ).1,
                decreases tail.len(),
            {
                let ghost ps = Seq::new(sorted@.len(), |i: int| glob_view(sorted@[i]));
                let ghost pt = Seq::new(tail@.len(), |i: int| glob_view(tail@[i]));
                let g = tail.remove(0);
                sorted.push(g);
                proof {
                    assert(Seq::new(tail@.len(), |i: int| glob_view(tail@[i])) =~= pt.drop_first());
                    assert(Seq::new(sorted@.len(), |i: int| glob_view(sorted@[i])) =~= ps.push(
                        pt[0],
                    ));
                    assert(ps.push(pt[0]) + pt.drop_first() =~= ps + pt);
                }
            }
            proof {
                assert(Seq::new(tail@.len(), |i: int| glob_view(tail@[i])) =~= Seq::<
                    Seq<MatcherS>,
                >::empty());
                assert(Seq::new(sorted@.len(), |i: int| glob_view(sorted@[i])) + Seq::<
                    Seq<MatcherS>,
                >::empty() =~= Seq::new(sorted@.len(), |i: int| glob_view(sorted@[i])));
            }
            // Deduplicate adjacent equal branches, keeping the first.
            let mut dedup: Vec<Glob> = Vec::new();
            let mut rest = sorted;
            proof {
                assert(Seq::new(dedup@.len(), |i: int| glob_view(dedup@[i])) =~= Seq::<
                    Seq<MatcherS>,
                >::empty());
            }
            while rest.len() > 0
                invariant
                    spec_dedup(
                        Seq::new(rest@.len(), |i: int| glob_view(rest@[i])),
                        Seq::new(dedup@.len(), |i: int| glob_view(dedup@[i])),
                    ) == spec_dedup(
                        spec_partition(b.1, Seq::empty(), Seq::empty()).0 + spec_partition(
                            b.1,
                            Seq::empty(),
                            Seq::empty(),
                        ).1,
                        Seq::empty(),
                    ),
                decreases rest.len(),
            {
                let ghost pr = Seq::new(rest@.len(), |i: int| glob_view(rest@[i]));
                let ghost pd = Seq::new(dedup@.len(), |i: int| glob_view(dedup@[i]));
                let g = rest.remove(0);
                proof {
                    assert(Seq::new(rest@.len(), |i: int| glob_view(rest@[i])) =~= pr.drop_first());
                    assert(pr[0] == glob_view(g));
                }
                let mut skip = false;
                if dedup.len() > 0 {
                    if glob_eq(&dedup[dedup.len() - 1], &g) {
                        skip = true;
                    }
                }
                proof {
                    assert(dedup@.len() > 0 ==> pd.last() == glob_view(
                        dedup@[dedup@.len() - 1],
                    ));
                }
                if !skip {
                    dedup.push(g);
                    proof {
                        assert(Seq::new(dedup@.len(), |i: int| glob_view(dedup@[i])) =~= pd.push(
                            pr[0],
                        ));
                    }
                }
            }
            proof {
                assert(Seq::new(rest@.len(), |i: int| glob_view(rest@[i])) =~= Seq::<
                    Seq<MatcherS>,
                >::empty());
            }
            let ghost final_branches = Seq::new(dedup@.len(), |i: int| glob_view(dedup@[i]));
            let node = crate::glob::matcher::Matcher::Any(dedup);
            proof {
                assert(crate::glob::matcher::matcher_view(node)->Any_0 =~= final_branches);
            }
            glob.push(node);
            glob
        }
    }

    /// Joins the collected branches back into literal text for an
    /// abandoned group.
    pub fn join(self) -> (r: Glob)
        ensures
            r@ == spec_join(self@),
    {
        let ghost b = self@;
        let AltBuilder { mut glob, options } = self;
        proof {
            assert(b == (glob@, Seq::new(options@.len(), |i: int| glob_view(options@[i]))));
        }
        glob.append_escaped('{');
        let mut first = true;
        let mut rest = options;
        while rest.len() > 0
            invariant
                spec_join_fold(glob@, Seq::new(rest@.len(), |i: int| glob_view(rest@[i])), first)
                    == spec_join(b),
            decreases rest.len(),
        {
            let ghost pr = Seq::new(rest@.len(), |i: int| glob_view(rest@[i]));
            let g = rest.remove(0);
            proof {
                assert(Seq::new(rest@.len(), |i: int| glob_view(rest@[i])) =~= pr.drop_first());
                assert(pr[0] == glob_view(g));
            }
            if first {
                first = false;
            } else {
                glob.append_escaped(',');
            }
            glob.append_glob(g);
        }
        proof {
            assert(Seq::new(rest@.len(), |i: int| glob_view(rest@[i])) =~= Seq::<
                Seq<MatcherS>,
            >::empty());
        }
        glob
    }
}

/// The stack of alternation groups still open while parsing.
pub struct AltStack(Vec<AltBuilder>);

impl AltStack {
    /// The open groups, outermost first.
    pub closed spec fn view(&self) -> Seq<BuilderV> {
        Seq::new(self.0@.len(), |i: int| self.0@[i]@)
    }

    /// Returns an empty stack.
    pub fn new() -> (r: AltStack)
        ensures
            r@ == Seq::<BuilderV>::empty(),
    {
        let r = AltStack(Vec::new());
        proof {
            assert(r@ =~= Seq::<BuilderV>::empty());
        }
        r
    }

    /// Whether no group is open.
    pub fn is_empty(&self) -> (r: bool)
        ensures
            r == (self@.len() == 0),
    {
        self.0.is_empty()
    }

    /// Opens a new group after the given program.
    pub fn push(&mut self, glob: Glob)
        ensures
            final(self)@ == old(self)@.push((glob@, Seq::<Seq<MatcherS>>::empty())),
    {
        let ghost pre = self@;
        self.0.push(AltBuilder::new(glob));
        proof {
            assert(self@ =~= pre.push((glob@, Seq::<Seq<MatcherS>>::empty())));
        }
    }

    /// Adds a finished branch to the innermost group; hands the program
    /// back if no group is open.
    pub fn add_alt(&mut self, glob: Glob) -> (r: Option<Glob>)
        ensures
            old(self)@.len() > 0 ==> r is None && final(self)@ == old(self)@.update(
                old(self)@.len() - 1,
                (old(self)@.last().0, old(self)@.last().1.push(glob@)),
            ),
            old(self)@.len() == 0 ==> final(self)@ == old(self)@ && r == Some(glob),
    {
        let ghost pre = self@;
        match self.0.pop() {
            Some(mut builder) => {
                proof {
                    assert(builder@ == pre.last());
                }
                builder.add(glob);
                self.0.push(builder);
                proof {
                    assert(self@ =~= pre.update(
                        pre.len() - 1,
                        (pre.last().0, pre.last().1.push(glob@)),
                    ));
                }
                None
            },
            None => Some(glob),
        }
    }

    /// Closes the innermost group as literal text; returns whether the
    /// stack is now empty.
    pub fn join_and_pop(&mut self, glob: Glob) -> (r: (Glob, bool))
        ensures
            old(self)@.len() > 0 ==> final(self)@ == old(self)@.drop_last() && r.0@ == spec_join(
                (old(self)@.last().0, old(self)@.last().1.push(glob@)),
            ) && r.1 == (old(self)@.len() == 1),
            old(self)@.len() == 0 ==> final(self)@ == old(self)@ && r.0 == glob && r.1,
    {
        let ghost pre = self@;
        match self.0.pop() {
            Some(mut builder) => {
                proof {
                    assert(self@ =~= pre.drop_last());
                    assert(builder@ == pre.last());
                }
                builder.add(glob);
                let joined = builder.join();
                let empty_now = self.0.is_empty();
                (joined, empty_now)
            },
            None => (glob, true),
        }
    }

    /// Closes the innermost group as an alternation; returns whether there
    /// was no group to close.
    pub fn add_alt_and_pop(&mut self, glob: Glob) -> (r: (Glob, bool))
        ensures
            old(self)@.len() > 0 ==> final(self)@ == old(self)@.drop_last() && r.0@ == spec_build(
                (old(self)@.last().0, old(self)@.last().1.push(glob@)),
            ) && !r.1,
            old(self)@.len() == 0 ==> final(self)@ == old(self)@ && r.0 == glob && r.1,
    {
        let ghost pre = self@;
        match self.0.pop() {
            Some(mut builder) => {
                proof {
                    assert(self@ =~= pre.drop_last());
                    assert(builder@ == pre.last());
                }
                builder.add(glob);
                (builder.build(), false)
            },
            None => (glob, true),
        }
    }

    /// Closes the innermost group as an alternation, or nothing when no
    /// group is open.
    pub fn pop(&mut self) -> (r: Option<Glob>)
        ensures
            old(self)@.len() > 0 ==> final(self)@ == old(self)@.drop_last() && r is Some
                && r->0@ == spec_build(old(self)@.last()),
            old(self)@.len() == 0 ==> final(self)@ == old(self)@ && r is None,
    {
        let ghost pre = self@;
        match self.0.pop() {
            Some(builder) => {
                proof {
                    assert(self@ =~= pre.drop_last());
                    assert(builder@ == pre.last());
                }
                Some(builder.build())
            },
            None => None,
        }
    }
}

} // verus!
