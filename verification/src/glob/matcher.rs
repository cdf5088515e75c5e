//! Matcher nodes: the instructions of a compiled glob program.

use vstd::prelude::*;

use crate::glob::flatset::FlatSet;
use crate::glob::globtype::Glob;

verus! {

broadcast use vstd::std_specs::vec::axiom_vec_index_decreases;

/// One node of a compiled glob program.
#[derive(Debug)]
pub enum Matcher {
    /// Asserts that no meaningful path components remain upstream.
    End,
    /// Matches exactly one path-component boundary.
    Sep,
    /// Matches exactly one character, never crossing a component boundary.
    AnyChar,
    /// Matches zero or more characters; the flag says whether component
    /// boundaries may be crossed.
    AnySeq(bool),
    /// Matches the given literal text at the current tail position.
    Suffix(Vec<char>),
    /// Matches one character that is (flag `true`) or is not (flag `false`)
    /// a member of the set.
    CharClass(FlatSet, bool),
    /// Matches a maximal run of trailing decimal digits whose value lies in
    /// the inclusive range.
    Range(isize, isize),
    /// Matches if any branch matches, tried in order.
    Any(Vec<Glob>),
}

/// The mathematical shape of a matcher node: text as character sequences,
/// bounds as unbounded integers, branches as sequences of programs.
pub enum MatcherS {
    End,
    Sep,
    AnyChar,
    AnySeq(bool),
    Suffix(Seq<char>),
    CharClass(Seq<char>, bool),
    Range(int, int),
    Any(Seq<Seq<MatcherS>>),
}

/// The shape of a matcher node.
pub open spec fn matcher_view(m: Matcher) -> MatcherS
    decreases m,
{
    match m {
        Matcher::End => MatcherS::End,
        Matcher::Sep => MatcherS::Sep,
        Matcher::AnyChar => MatcherS::AnyChar,
        Matcher::AnySeq(b) => MatcherS::AnySeq(b),
        Matcher::Suffix(s) => MatcherS::Suffix(s@),
        Matcher::CharClass(set, b) => MatcherS::CharClass(set@, b),
        Matcher::Range(lo, hi) => MatcherS::Range(lo as int, hi as int),
        Matcher::Any(gs) => MatcherS::Any(
            Seq::new(
                gs@.len(),
                |i: int|
                    if 0 <= i < gs@.len() {
                        glob_view(gs@[i])
                    } else {
                        Seq::empty()
                    },
            ),
        ),
    }
}

/// The shape of a whole program: its nodes' shapes in order.
pub open spec fn glob_view(g: Glob) -> Seq<MatcherS>
    decreases g,
{
    Seq::new(
        g.0@.len(),
        |i: int|
            if 0 <= i < g.0@.len() {
                matcher_view(g.0@[i])
            } else {
                MatcherS::End
            },
    )
}

/// Whether two programs denote the same node sequence.
pub fn glob_eq(a: &Glob, b: &Glob) -> (r: bool)
    ensures
        r == (glob_view(*a) == glob_view(*b)),
    decreases *a,
{
    let n = a.0.len();
    if n != b.0.len() {
        proof {
            assert(glob_view(*a).len() != glob_view(*b).len());
        }
        return false;
    }
    let mut i: usize = 0;
    while i < n
        invariant
            i <= n,
            n == a.0@.len() == b.0@.len(),
            forall|k: int| 0 <= k < i ==> matcher_view(a.0@[k]) == matcher_view(b.0@[k]),
        decreases n - i,
    {
        if !matcher_eq(&a.0[i], &b.0[i]) {
            proof {
                assert(glob_view(*a)[i as int] != glob_view(*b)[i as int]);
            }
            return false;
        }
        i += 1;
    }
    proof {
        assert(glob_view(*a) =~= glob_view(*b));
    }
    true
}

/// Whether two matcher nodes denote the same shape.
pub fn matcher_eq(a: &Matcher, b: &Matcher) -> (r: bool)
    ensures
        r == (matcher_view(*a) == matcher_view(*b)),
    decreases *a,
{
    match (a, b) {
        (Matcher::End, Matcher::End) => true,
        (Matcher::Sep, Matcher::Sep) => true,
        (Matcher::AnyChar, Matcher::AnyChar) => true,
        (Matcher::AnySeq(x), Matcher::AnySeq(y)) => x == y,
        (Matcher::Suffix(u), Matcher::Suffix(v)) => crate::chars::chars_eq(u, v),
        (Matcher::CharClass(s1, i1), Matcher::CharClass(s2, i2)) => i1 == i2 && s1.same(s2),
        (Matcher::Range(l1, h1), Matcher::Range(l2, h2)) => l1 == l2 && h1 == h2,
        (Matcher::Any(g1), Matcher::Any(g2)) => {
            let n = g1.len();
            if n != g2.len() {
                proof {
                    assert(matcher_view(*a)->Any_0.len() != matcher_view(*b)->Any_0.len());
                }
                return false;
            }
            let mut i: usize = 0;
            while i < n
                invariant
                    i <= n,
                    a is Any && b is Any,
                    g1 == a->Any_0 && g2 == b->Any_0,
                    n == g1@.len() == g2@.len(),
                    forall|k: int| 0 <= k < i ==> glob_view(g1@[k]) == glob_view(g2@[k]),
                decreases n - i,
            {
                if !glob_eq(&g1[i], &g2[i]) {
                    proof {
                        let vi = i as int;
                        assert(matcher_view(*a)->Any_0[vi] != matcher_view(*b)->Any_0[vi]);
                    }
                    return false;
                }
                i += 1;
            }
            proof {
                assert(matcher_view(*a)->Any_0 =~= matcher_view(*b)->Any_0);
            }
            true
        },
        _ => {
            proof {
                assert(matcher_view(*a) != matcher_view(*b));
            }
            false
        },
    }
}

impl View for Matcher {
    type V = MatcherS;

    open spec fn view(&self) -> MatcherS {
        matcher_view(*self)
    }
}

impl View for Glob {
    type V = Seq<MatcherS>;

    open spec fn view(&self) -> Seq<MatcherS> {
        glob_view(*self)
    }
}

} // verus!

verus! {

use crate::glob::splitter::{
    spec_match_any, spec_match_end, spec_match_number, spec_match_sep, spec_match_suffix,
    spec_new_state, spec_next_char, comps_view, SplitState, Splitter,
};
use crate::glob::stack::{spec_gs_next, spec_restore, SaveS, SaveStack};

/// What one node application yields: the advanced splitter (or failure),
/// and the node stream and choice points after any saved state.
pub open spec fn spec_try_match(
    sp: SplitState,
    m: MatcherS,
    globs: Seq<Seq<MatcherS>>,
    saves: Seq<SaveS>,
) -> (Option<SplitState>, Seq<Seq<MatcherS>>, Seq<SaveS>) {
    match m {
        MatcherS::End => (spec_match_end(sp), globs, saves),
        MatcherS::Sep => (spec_match_sep(sp), globs, saves),
        MatcherS::AnyChar => (spec_match_any(sp, false), globs, saves),
        MatcherS::AnySeq(cross) => match spec_match_any(sp, cross) {
            Some(adv) => (Some(sp), globs, saves.push(SaveS::Rewind(adv, globs, m))),
            None => (Some(sp), globs, saves),
        },
        MatcherS::Suffix(text) => (spec_match_suffix(sp, text), globs, saves),
        MatcherS::CharClass(set, want) => match spec_next_char(sp) {
            Some((sp2, c)) => if set.contains(c) == want {
                (Some(sp2), globs, saves)
            } else {
                (None, globs, saves)
            },
            None => (None, globs, saves),
        },
        MatcherS::Range(lo, hi) => (spec_match_number(sp, lo, hi), globs, saves),
        MatcherS::Any(branches) => if branches.len() > 0 {
            (
                Some(sp),
                globs.push(branches[0]),
                saves.push(SaveS::Alts(sp, globs, branches.drop_first())),
            )
        } else {
            (Some(sp), globs, saves)
        },
    }
}

/// The whole state of the backtracking machine.
#[verifier::ext_equal]
pub ghost struct MachineState {
    pub globs: Seq<Seq<MatcherS>>,
    pub saves: Seq<SaveS>,
    pub sp: SplitState,
}

/// What one machine transition yields.
pub enum StepR {
    /// The program is exhausted: overall success with this final splitter.
    Accept(SplitState),
    /// The choice points are exhausted: overall failure.
    Reject,
    /// The machine continues in this state.
    Next(MachineState),
}

/// One transition: apply the next node, or backtrack on failure.
pub open spec fn spec_step(ms: MachineState) -> StepR {
    match spec_gs_next(ms.globs) {
        None => StepR::Accept(ms.sp),
        Some((m, g2)) => {
            let (res, g3, s3) = spec_try_match(ms.sp, m, g2, ms.saves);
            match res {
                Some(sp2) => StepR::Next(MachineState { globs: g3, saves: s3, sp: sp2 }),
                None => match spec_restore(s3) {
                    None => StepR::Reject,
                    Some((sp3, g4, s4)) => StepR::Next(
                        MachineState { globs: g4, saves: s4, sp: sp3 },
                    ),
                },
            }
        },
    }
}

/// Running the machine for at most `fuel` transitions: the overall result,
/// or nothing if the fuel runs out first.
pub open spec fn spec_run(ms: MachineState, fuel: nat) -> Option<Option<SplitState>>
    decreases fuel,
{
    if fuel == 0 {
        None
    } else {
        match spec_step(ms) {
            StepR::Accept(sp) => Some(Some(sp)),
            StepR::Reject => Some(None),
            StepR::Next(m2) => spec_run(m2, (fuel - 1) as nat),
        }
    }
}

/// The machine after exactly `k` continuing transitions, if none of them
/// halted.
pub open spec fn spec_advance(ms: MachineState, k: nat) -> Option<MachineState>
    decreases k,
{
    if k == 0 {
        Some(ms)
    } else {
        match spec_step(ms) {
            StepR::Next(m2) => spec_advance(m2, (k - 1) as nat),
            _ => None,
        }
    }
}

/// The machine's initial state for a program and a split path.
pub open spec fn spec_init(g: Seq<MatcherS>, st: SplitState) -> MachineState {
    MachineState { globs: seq![g], saves: Seq::empty(), sp: st }
}

/// Whether the machine accepts: some number of transitions ends in
/// success.
pub open spec fn spec_machine_accepts(g: Seq<MatcherS>, comps: Seq<Seq<char>>, root: bool) -> bool {
    match spec_new_state(comps, root) {
        None => false,
        Some(st) => exists|fuel: nat, sp: SplitState|
            spec_run(spec_init(g, st), fuel) == Some(Some(sp)),
    }
}

/// The ceiling on the evaluator's transitions, bounding worst-case work
/// on pathological patterns; an evaluation that exceeds it reports no
/// match.
pub const FUEL: u64 = 0x4000000;

/// The machine's verdict within the evaluator's work ceiling: success
/// with a final splitter state, failure, or nothing when the ceiling is
/// hit. A path with nothing to match fails outright.
pub open spec fn spec_eval(g: Seq<MatcherS>, comps: Seq<Seq<char>>, root: bool) -> Option<
    Option<SplitState>,
> {
    match spec_new_state(comps, root) {
        None => Some(None),
        Some(st) => spec_run(spec_init(g, st), FUEL as nat),
    }
}

/// A machine still running after `k` transitions has not halted within
/// `k` transitions of fuel.
proof fn lemma_advance_timeout(ms0: MachineState, k: nat, ms1: MachineState)
    requires
        spec_advance(ms0, k) == Some(ms1),
    ensures
        spec_run(ms0, k) is None,
    decreases k,
{
    if k > 0 {
        match spec_step(ms0) {
            StepR::Next(m2) => {
                lemma_advance_timeout(m2, (k - 1) as nat, ms1);
            },
            _ => {
                assert(false);
            },
        }
    }
}

/// A run that reached a state which accepts makes the whole run accept.
proof fn lemma_advance_accept(ms0: MachineState, k: nat, ms1: MachineState, sp: SplitState)
    requires
        spec_advance(ms0, k) == Some(ms1),
        spec_step(ms1) == StepR::Accept(sp),
    ensures
        spec_run(ms0, (k + 1) as nat) == Some(Some(sp)),
    decreases k,
{
    if k > 0 {
        match spec_step(ms0) {
            StepR::Next(m2) => {
                lemma_advance_accept(m2, (k - 1) as nat, ms1, sp);
            },
            _ => {
                assert(false);
            },
        }
    }
}

/// A run that reached a state which rejects makes the whole run reject.
proof fn lemma_advance_reject(ms0: MachineState, k: nat, ms1: MachineState)
    requires
        spec_advance(ms0, k) == Some(ms1),
        spec_step(ms1) == StepR::Reject,
    ensures
        spec_run(ms0, (k + 1) as nat) == Some(None::<SplitState>),
    decreases k,
{
    if k > 0 {
        match spec_step(ms0) {
            StepR::Next(m2) => {
                lemma_advance_reject(m2, (k - 1) as nat, ms1);
            },
            _ => {
                assert(false);
            },
        }
    }
}

/// A run's verdict does not change when it is given more fuel.
pub proof fn lemma_run_mono(ms: MachineState, f1: nat, f2: nat)
    requires
        spec_run(ms, f1) is Some,
        f1 <= f2,
    ensures
        spec_run(ms, f2) == spec_run(ms, f1),
    decreases f1,
{
    if f1 > 0 && f1 < f2 {
        match spec_step(ms) {
            StepR::Next(m2) => {
                lemma_run_mono(m2, (f1 - 1) as nat, (f2 - 1) as nat);
            },
            _ => {},
        }
    }
}

/// A run that rejects excludes every accepting run of the same machine.
proof fn lemma_reject_excludes(ms: MachineState, f: nat)
    requires
        spec_run(ms, f) == Some(None::<SplitState>),
    ensures
        !(exists|f2: nat, sp: SplitState| spec_run(ms, f2) == Some(Some(sp))),
{
    if exists|f2: nat, sp: SplitState| spec_run(ms, f2) == Some(Some(sp)) {
        let (f2, sp) = choose|f2: nat, sp: SplitState| spec_run(ms, f2) == Some(Some(sp));
        if f <= f2 {
            lemma_run_mono(ms, f, f2);
        } else {
            lemma_run_mono(ms, f2, f);
        }
    }
}

/// The bounded verdict is sound: success within the work ceiling is
/// acceptance of the unbounded machine, and failure within the ceiling
/// excludes every accepting run; only hitting the ceiling leaves the
/// unbounded machine's verdict open.
pub proof fn lemma_verdict_sound(g: Seq<MatcherS>, comps: Seq<Seq<char>>, root: bool)
    ensures
        (spec_eval(g, comps, root) matches Some(Some(sp))) ==> spec_machine_accepts(
            g,
            comps,
            root,
        ),
        spec_eval(g, comps, root) == Some(None::<SplitState>) ==> !spec_machine_accepts(
            g,
            comps,
            root,
        ),
{
    match spec_new_state(comps, root) {
        None => {},
        Some(st) => {
            let init = spec_init(g, st);
            match spec_eval(g, comps, root) {
                Some(Some(sp)) => {
                    assert(spec_run(init, FUEL as nat) == Some(Some(sp)));
                },
                Some(None) => {
                    lemma_reject_excludes(init, FUEL as nat);
                },
                None => {},
            }
        },
    }
}

/// Applies one node to the splitter, saving choice points for greedy
/// wildcards and alternations.
fn try_match<'a, 'b>(
    splitter: Splitter<'a>,
    matcher: &'b Matcher,
    state: &mut SaveStack<'a, 'b>,
) -> (r: Option<Splitter<'a>>)
    requires
        splitter.wf(),
        old(state).wf(),
    ensures
        final(state).wf(),
        ({
            let (res, g3, s3) = spec_try_match(
                splitter@,
                matcher_view(*matcher),
                old(state)@.0,
                old(state)@.1,
            );
            &&& final(state)@.0 == g3
            &&& final(state)@.1 == s3
            &&& (r is Some <==> res is Some)
            &&& (r is Some ==> r->0@ == res->0 && r->0.wf())
        }),
{
    match matcher {
        Matcher::End => splitter.match_end(),
        Matcher::Sep => splitter.match_sep(),
        Matcher::AnyChar => splitter.match_any(false),
        Matcher::AnySeq(cross) => {
            match splitter.match_any(*cross) {
                Some(adv) => {
                    state.add_rewind(adv, matcher);
                },
                None => {},
            }
            Some(splitter)
        },
        Matcher::Suffix(text) => splitter.match_suffix(text),
        Matcher::CharClass(set, want) => {
            match splitter.next_char() {
                Some((sp2, c)) => {
                    if set.member(c) != *want {
                        None
                    } else {
                        Some(sp2)
                    }
                },
                None => None,
            }
        },
        Matcher::Range(lower, upper) => splitter.match_number(*lower, *upper),
        Matcher::Any(branches) => {
            state.add_alts(splitter, branches);
            proof {
                if branches@.len() > 0 {
                    assert(matcher_view(*matcher)->Any_0[0] == glob_view(branches@[0]));
                    assert(matcher_view(*matcher)->Any_0.drop_first() =~= Seq::new(
                        (branches@.len() - 1) as nat,
                        |i: int| glob_view(branches@[1 + i]),
                    ));
                }
            }
            Some(splitter)
        },
    }
}

/// Runs a program against a split path to completion, returning the final
/// splitter on success.
pub fn matches<'a, 'b>(comps: &'a Vec<Vec<char>>, root: bool, glob: &'b Glob) -> (r: Option<
    Splitter<'a>,
>)
    ensures
        ({
            let verdict = spec_eval(glob_view(*glob), comps_view(comps@), root);
            match verdict {
                Some(Some(sp)) => r is Some && r->0@ == sp && r->0.wf(),
                _ => r is None,
            }
        }),
        r is Some ==> spec_machine_accepts(glob_view(*glob), comps_view(comps@), root),
        spec_eval(glob_view(*glob), comps_view(comps@), root) == Some(None::<SplitState>)
            ==> !spec_machine_accepts(glob_view(*glob), comps_view(comps@), root),
{
    let mut splitter = match Splitter::new(comps, root) {
        Some(s) => s,
        None => {
            return None;
        },
    };
    let mut state = SaveStack::new(&splitter, glob);
    let ghost init = spec_init(glob_view(*glob), splitter@);
    let mut steps_used: u64 = 0;
    let ghost mut steps: nat = 0;
    loop
        invariant
            splitter.wf(),
            state.wf(),
            steps == steps_used,
            steps_used <= FUEL,
            spec_advance(init, steps) == Some(
                MachineState { globs: state@.0, saves: state@.1, sp: splitter@ },
            ),
            spec_new_state(comps_view(comps@), root) == Some(init.sp),
            init == spec_init(glob_view(*glob), init.sp),
        decreases FUEL - steps_used,
    {
        if steps_used >= FUEL {
            proof {
                lemma_advance_timeout(
                    init,
                    steps,
                    MachineState { globs: state@.0, saves: state@.1, sp: splitter@ },
                );
            }
            return None;
        }
        let ghost cur = MachineState { globs: state@.0, saves: state@.1, sp: splitter@ };
        match state.next_matcher() {
            Some(matcher) => {
                let ghost mid = state@;
                match try_match(splitter, matcher, &mut state) {
                    Some(splitter_new) => {
                        proof {
                            assert(spec_step(cur) == StepR::Next(
                                MachineState { globs: state@.0, saves: state@.1, sp: splitter_new@ },
                            ));
                            lemma_advance_snoc(init, steps, cur);
                            steps = steps + 1;
                        }
                        steps_used = steps_used + 1;
                        splitter = splitter_new;
                    },
                    None => {
                        match state.restore() {
                            Some(splitter_new) => {
                                proof {
                                    assert(spec_step(cur) == StepR::Next(
                                        MachineState {
                                            globs: state@.0,
                                            saves: state@.1,
                                            sp: splitter_new@,
                                        },
                                    ));
                                    lemma_advance_snoc(init, steps, cur);
                                    steps = steps + 1;
                                }
                                steps_used = steps_used + 1;
                                splitter = splitter_new;
                            },
                            None => {
                                proof {
                                    assert(spec_step(cur) == StepR::Reject);
                                    lemma_advance_reject(init, steps, cur);
                                    lemma_run_mono(init, (steps + 1) as nat, FUEL as nat);
                                    lemma_reject_excludes(init, (steps + 1) as nat);
                                }
                                return None;
                            },
                        }
                    },
                }
            },
            None => {
                proof {
                    assert(spec_step(cur) == StepR::Accept(splitter@));
                    lemma_advance_accept(init, steps, cur, splitter@);
                    lemma_run_mono(init, (steps + 1) as nat, FUEL as nat);
                }
                return Some(splitter);
            },
        }
    }
}

/// Advancing one more step from a reached state reaches the step's
/// successor.
proof fn lemma_advance_snoc(ms0: MachineState, k: nat, ms1: MachineState)
    requires
        spec_advance(ms0, k) == Some(ms1),
        spec_step(ms1) is Next,
    ensures
        spec_advance(ms0, (k + 1) as nat) == Some(spec_step(ms1)->Next_0),
    decreases k,
{
    if k == 0 {
        match spec_step(ms1) {
            StepR::Next(m2) => {
                assert(spec_advance(ms0, 1) == spec_advance(m2, 0));
            },
            _ => {
                assert(false);
            },
        }
    } else {
        match spec_step(ms0) {
            StepR::Next(m2) => {
                lemma_advance_snoc(m2, (k - 1) as nat, ms1);
                assert(spec_advance(ms0, (k + 1) as nat) == spec_advance(m2, k));
            },
            _ => {
                assert(false);
            },
        }
    }
}

} // verus!
