//! The evaluator's stacks: the stream of pending matcher nodes, and the
//! choice points saved for backtracking.

use vstd::prelude::*;

use crate::glob::globtype::Glob;
use crate::glob::matcher::{glob_view, matcher_view, Matcher, MatcherS};
use crate::glob::splitter::{SplitState, Splitter};

verus! {

/// One run of pending nodes: either the first `k` nodes of a program, a
/// single re-queued node, or a spent single node.
#[derive(Clone, Copy)]
enum GsEntry<'b> {
    /// The first field's leading nodes, as many as the second field says.
    Part(&'b Vec<Matcher>, usize),
    /// A single node, re-queued by a rewind.
    One(&'b Matcher),
    /// A single node already consumed.
    Spent,
}

/// The pending nodes of one entry, in program order.
spec fn entry_view(e: GsEntry<'_>) -> Seq<MatcherS> {
    match e {
        GsEntry::Part(l, k) => Seq::new(k as nat, |i: int| matcher_view(l@[i])),
        GsEntry::One(m) => seq![matcher_view(*m)],
        GsEntry::Spent => Seq::empty(),
    }
}

/// Whether an entry's count lies within its program.
spec fn entry_wf(e: GsEntry<'_>) -> bool {
    match e {
        GsEntry::Part(l, k) => k <= l@.len(),
        _ => true,
    }
}

/// A stack of matcher-node runs; the next node to apply is the last node
/// of the topmost run.
pub struct GlobStack<'b>(Vec<GsEntry<'b>>);

/// What popping the next node from a stack of runs yields: the node and
/// the stack after it, with exhausted runs discarded.
pub open spec fn spec_gs_next(gs: Seq<Seq<MatcherS>>) -> Option<(MatcherS, Seq<Seq<MatcherS>>)>
    decreases gs.len(),
{
    if gs.len() == 0 {
        None
    } else {
        let top = gs.last();
        if top.len() > 0 {
            Some((top.last(), gs.update(gs.len() - 1, top.drop_last())))
        } else {
            spec_gs_next(gs.drop_last())
        }
    }
}

impl<'b> GlobStack<'b> {
    /// The pending runs, bottom first.
    pub closed spec fn view(&self) -> Seq<Seq<MatcherS>> {
        Seq::new(self.0@.len(), |i: int| entry_view(self.0@[i]))
    }

    /// Well-formedness of every entry.
    pub closed spec fn wf(&self) -> bool {
        forall|i: int| 0 <= i < self.0@.len() ==> entry_wf(#[trigger] self.0@[i])
    }

    /// A stack holding one whole program.
    pub fn new(starter: &'b Glob) -> (r: GlobStack<'b>)
        ensures
            r@ == seq![glob_view(*starter)],
            r.wf(),
    {
        let mut v: Vec<GsEntry<'b>> = Vec::new();
        v.push(GsEntry::Part(&starter.0, starter.0.len()));
        let r = GlobStack(v);
        proof {
            assert(entry_view(GsEntry::Part(&starter.0, starter.0.len())) =~= glob_view(*starter));
            assert(r@ =~= seq![glob_view(*starter)]);
        }
        r
    }

    /// Queues a whole program's nodes ahead of the pending ones.
    pub fn add_glob(&mut self, glob: &'b Glob)
        requires
            old(self).wf(),
        ensures
            final(self)@ == old(self)@.push(glob_view(*glob)),
            final(self).wf(),
    {
        let ghost pre = self@;
        self.0.push(GsEntry::Part(&glob.0, glob.0.len()));
        proof {
            assert(entry_view(GsEntry::Part(&glob.0, glob.0.len())) =~= glob_view(*glob));
            assert(self@ =~= pre.push(glob_view(*glob)));
        }
    }

    /// Queues a single node ahead of the pending ones.
    pub fn add_matcher(&mut self, matcher: &'b Matcher)
        requires
            old(self).wf(),
        ensures
            final(self)@ == old(self)@.push(seq![matcher_view(*matcher)]),
            final(self).wf(),
    {
        let ghost pre = self@;
        self.0.push(GsEntry::One(matcher));
        proof {
            assert(self@ =~= pre.push(seq![matcher_view(*matcher)]));
        }
    }

    /// A copy of the stack, entry for entry.
    pub fn duplicate(&self) -> (r: GlobStack<'b>)
        requires
            self.wf(),
        ensures
            r@ == self@,
            r.wf(),
    {
        let mut v: Vec<GsEntry<'b>> = Vec::new();
        let n = self.0.len();
        let mut i: usize = 0;
        while i < n
            invariant
                i <= n,
                n == self.0@.len(),
                v@.len() == i,
                forall|k: int| 0 <= k < i ==> v@[k] == self.0@[k],
            decreases n - i,
        {
            v.push(self.0[i]);
            i += 1;
        }
        let r = GlobStack(v);
        proof {
            assert(v@ =~= self.0@);
            assert(r@ =~= self@);
            assert(r.wf());
        }
        r
    }

    /// Pops the next pending node.
    pub fn next(&mut self) -> (r: Option<&'b Matcher>)
        requires
            old(self).wf(),
        ensures
            final(self).wf(),
            r is None ==> spec_gs_next(old(self)@) is None,
            r is Some ==> spec_gs_next(old(self)@) is Some && matcher_view(*r->0) == (spec_gs_next(
                old(self)@,
            )->0).0 && final(self)@ == (spec_gs_next(old(self)@)->0).1,
    {
        loop
            invariant
                self.wf(),
                spec_gs_next(self@) == spec_gs_next(old(self)@),
            decreases self.0@.len(),
        {
            let n = self.0.len();
            if n == 0 {
                return None;
            }
            let ghost pre = self@;
            let top = self.0[n - 1];
            match top {
                GsEntry::Part(l, k) => {
                    if k > 0 {
                        let m = &l[k - 1];
                        self.0[n - 1] = GsEntry::Part(l, k - 1);
                        proof {
                            assert(entry_view(GsEntry::Part(l, (k - 1) as usize)) =~= entry_view(
                                GsEntry::Part(l, k),
                            ).drop_last());
                            assert(self@ =~= pre.update(
                                pre.len() - 1,
                                pre.last().drop_last(),
                            ));
                        }
                        return Some(m);
                    }
                    self.0.pop();
                    proof {
                        assert(self@ =~= pre.drop_last());
                        assert(pre.last().len() == 0);
                    }
                },
                GsEntry::One(m) => {
                    self.0[n - 1] = GsEntry::Spent;
                    proof {
                        assert(seq![matcher_view(*m)].drop_last() =~= Seq::<MatcherS>::empty());
                        assert(self@ =~= pre.update(pre.len() - 1, pre.last().drop_last()));
                    }
                    return Some(m);
                },
                GsEntry::Spent => {
                    self.0.pop();
                    proof {
                        assert(self@ =~= pre.drop_last());
                        assert(pre.last().len() == 0);
                    }
                },
            }
        }
    }
}

/// A saved alternative continuation: either "this greedy wildcard may
/// consume one more character" or "these branches are still untried".
enum SavePoint<'a, 'b> {
    /// The splitter after one more consumed character, the node stream at
    /// the time, and the wildcard node to retry.
    Rewind(Splitter<'a>, GlobStack<'b>, &'b Matcher),
    /// The splitter before the group, the node stream at the time, and the
    /// branches from the given index on.
    Alts(Splitter<'a>, GlobStack<'b>, &'b Vec<Glob>, usize),
}

/// The shape of a saved continuation.
pub enum SaveS {
    Rewind(SplitState, Seq<Seq<MatcherS>>, MatcherS),
    Alts(SplitState, Seq<Seq<MatcherS>>, Seq<Seq<MatcherS>>),
}

/// The shape of one saved point.
spec fn save_view(p: SavePoint<'_, '_>) -> SaveS {
    match p {
        SavePoint::Rewind(sp, gs, m) => SaveS::Rewind(sp@, gs@, matcher_view(*m)),
        SavePoint::Alts(sp, gs, branches, k) => SaveS::Alts(
            sp@,
            gs@,
            Seq::new(
                if k <= branches@.len() {
                    (branches@.len() - k) as nat
                } else {
                    0
                },
                |i: int| glob_view(branches@[k + i]),
            ),
        ),
    }
}

/// Well-formedness of one saved point.
spec fn save_wf(p: SavePoint<'_, '_>) -> bool {
    match p {
        SavePoint::Rewind(sp, gs, m) => gs.wf() && crate::glob::splitter::state_wf(sp@),
        SavePoint::Alts(sp, gs, branches, k) => gs.wf() && crate::glob::splitter::state_wf(sp@) && k
            <= branches@.len(),
    }
}

/// What restoring from the newest choice point yields: the splitter to
/// resume with, the node stream to resume at, and the remaining saved
/// points. A rewind also discards the point saved just below it; an
/// alternatives point with no branch left is skipped.
pub open spec fn spec_restore(saves: Seq<SaveS>) -> Option<
    (SplitState, Seq<Seq<MatcherS>>, Seq<SaveS>),
>
    decreases saves.len(),
{
    if saves.len() == 0 {
        None
    } else {
        match saves.last() {
            SaveS::Rewind(sp, g, m) => {
                let s1 = saves.drop_last();
                let s2 = if s1.len() > 0 {
                    s1.drop_last()
                } else {
                    s1
                };
                Some((sp, g.push(seq![m]), s2))
            },
            SaveS::Alts(sp, g, rem) => {
                if rem.len() > 0 {
                    let s2 = if rem.len() > 1 {
                        saves.drop_last().push(SaveS::Alts(sp, g, rem.drop_first()))
                    } else {
                        saves.drop_last()
                    };
                    Some((sp, g.push(rem[0]), s2))
                } else {
                    spec_restore(saves.drop_last())
                }
            },
        }
    }
}

/// The evaluator's saved state: the pending node stream and the stack of
/// choice points.
pub struct SaveStack<'a, 'b> {
    globs: GlobStack<'b>,
    stack: Vec<SavePoint<'a, 'b>>,
}

impl<'a, 'b> SaveStack<'a, 'b> {
    /// The pending node runs and the saved points.
    pub closed spec fn view(&self) -> (Seq<Seq<MatcherS>>, Seq<SaveS>) {
        (self.globs@, Seq::new(self.stack@.len(), |i: int| save_view(self.stack@[i])))
    }

    /// Well-formedness of the node stream and of every saved point.
    pub closed spec fn wf(&self) -> bool {
        self.globs.wf() && forall|i: int|
            0 <= i < self.stack@.len() ==> save_wf(#[trigger] self.stack@[i])
    }

    /// A fresh state: the whole program pending, nothing saved.
    pub fn new(_splitter: &Splitter<'a>, glob: &'b Glob) -> (r: SaveStack<'a, 'b>)
        ensures
            r@ == (seq![glob_view(*glob)], Seq::<SaveS>::empty()),
            r.wf(),
    {
        let r = SaveStack { globs: GlobStack::new(glob), stack: Vec::new() };
        proof {
            assert(r@.1 =~= Seq::<SaveS>::empty());
        }
        r
    }

    /// Pops the next pending node.
    pub fn next_matcher(&mut self) -> (r: Option<&'b Matcher>)
        requires
            old(self).wf(),
        ensures
            final(self).wf(),
            final(self)@.1 == old(self)@.1,
            r is None ==> spec_gs_next(old(self)@.0) is None,
            r is Some ==> spec_gs_next(old(self)@.0) is Some && matcher_view(*r->0) == (
            spec_gs_next(old(self)@.0)->0).0 && final(self)@.0 == (spec_gs_next(old(self)@.0)->0).1,
    {
        self.globs.next()
    }

    /// Saves a rewind point: the wildcard node may consume one more
    /// character.
    pub fn add_rewind(&mut self, splitter: Splitter<'a>, matcher: &'b Matcher)
        requires
            old(self).wf(),
            splitter.wf(),
        ensures
            final(self).wf(),
            final(self)@.0 == old(self)@.0,
            final(self)@.1 == old(self)@.1.push(
                SaveS::Rewind(splitter@, old(self)@.0, matcher_view(*matcher)),
            ),
    {
        let ghost pre = self@.1;
        let copy = self.globs.duplicate();
        self.stack.push(SavePoint::Rewind(splitter, copy, matcher));
        proof {
            assert(self@.1 =~= pre.push(
                SaveS::Rewind(splitter@, old(self)@.0, matcher_view(*matcher)),
            ));
        }
    }

    /// Saves the untried branches of an alternation and descends into the
    /// first branch; an empty alternation saves nothing.
    pub fn add_alts(&mut self, splitter: Splitter<'a>, branches: &'b Vec<Glob>)
        requires
            old(self).wf(),
            splitter.wf(),
        ensures
            final(self).wf(),
            branches@.len() == 0 ==> final(self)@ == old(self)@,
            branches@.len() > 0 ==> final(self)@.0 == old(self)@.0.push(glob_view(branches@[0]))
                && final(self)@.1 == old(self)@.1.push(
                SaveS::Alts(
                    splitter@,
                    old(self)@.0,
                    Seq::new((branches@.len() - 1) as nat, |i: int| glob_view(branches@[1 + i])),
                ),
            ),
    {
        if branches.len() > 0 {
            let ghost pre = self@.1;
            let copy = self.globs.duplicate();
            self.stack.push(SavePoint::Alts(splitter, copy, branches, 1));
            proof {
                assert(self@.1 =~= pre.push(
                    SaveS::Alts(
                        splitter@,
                        old(self)@.0,
                        Seq::new(
                            (branches@.len() - 1) as nat,
                            |i: int| glob_view(branches@[1 + i]),
                        ),
                    ),
                ));
            }
            self.globs.add_glob(&branches[0]);
        }
    }

    /// Restores the newest choice point, if any is left.
    pub fn restore(&mut self) -> (r: Option<Splitter<'a>>)
        requires
            old(self).wf(),
        ensures
            final(self).wf(),
            r is None ==> spec_restore(old(self)@.1) is None,
            r is Some ==> spec_restore(old(self)@.1) is Some && ({
                let (sp, g2, s2) = spec_restore(old(self)@.1)->0;
                r->0@ == sp && r->0.wf() && final(self)@.0 == g2 && final(self)@.1 == s2
            }),
    {
        loop
            invariant
                self.wf(),
                spec_restore(self@.1) == spec_restore(old(self)@.1),
            decreases self.stack@.len(),
        {
            let ghost pres = self@.1;
            match self.stack.pop() {
                None => {
                    return None;
                },
                Some(SavePoint::Rewind(sp, globs, m)) => {
                    proof {
                        assert(self@.1 =~= pres.drop_last());
                        assert(save_view(SavePoint::Rewind(sp, globs, m)) == pres.last());
                    }
                    let ghost s1 = self@.1;
                    let _extra = self.stack.pop();
                    proof {
                        if s1.len() > 0 {
                            assert(self@.1 =~= s1.drop_last());
                        } else {
                            assert(self@.1 =~= s1);
                        }
                    }
                    self.globs = globs;
                    self.globs.add_matcher(m);
                    return Some(sp);
                },
                Some(SavePoint::Alts(sp, globs, branches, k)) => {
                    let ghost gg = globs@;
                    proof {
                        assert(self@.1 =~= pres.drop_last());
                        assert(save_view(SavePoint::Alts(sp, globs, branches, k)) == pres.last());
                    }
                    let ghost grem = Seq::new(
                        (branches@.len() - k) as nat,
                        |i: int| glob_view(branches@[k + i]),
                    );
                    self.globs = globs;
                    if k < branches.len() {
                        if k + 1 < branches.len() {
                            let copy = self.globs.duplicate();
                            self.stack.push(SavePoint::Alts(sp, copy, branches, k + 1));
                            proof {
                                assert(save_view(
                                    SavePoint::Alts(sp, copy, branches, (k + 1) as usize),
                                )->Alts_2 =~= grem.drop_first());
                                assert(self@.1 =~= pres.drop_last().push(
                                    SaveS::Alts(sp@, gg, grem.drop_first()),
                                ));
                            }
                        }
                        self.globs.add_glob(&branches[k]);
                        proof {
                            assert(grem[0] == glob_view(branches@[k as int]));
                        }
                        return Some(sp);
                    }
                    proof {
                        assert(grem.len() == 0);
                    }
                },
            }
        }
    }
}

} // verus!
