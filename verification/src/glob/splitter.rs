//! Tail-first, lazy decomposition of a path into components and characters.
//!
//! A path is first split on `/` into components (empty and `.` segments
//! vanish, as a platform path library would drop them; a leading `/` or `.`
//! is remembered as the root). The splitter then walks the path from its
//! last component backward toward the root, and within a component from its
//! last character backward.

use vstd::prelude::*;

use crate::chars::{char_is_numeric, is_numeric_char, parse_isize, spec_parse_isize};

verus! {

/// The character sequences of a vector of components.
pub open spec fn comps_view(v: Seq<Vec<char>>) -> Seq<Seq<char>> {
    Seq::new(v.len(), |i: int| v[i]@)
}

/// Whether a component is kept when splitting a path: empty segments and
/// bare `.` segments vanish.
pub open spec fn keep_component(c: Seq<char>) -> bool {
    c.len() > 0 && c != seq!['.']
}

/// Appends the pending segment to the finished components if it is kept.
pub open spec fn spec_flush(done: Seq<Seq<char>>, cur: Seq<char>) -> Seq<Seq<char>> {
    if keep_component(cur) {
        done.push(cur)
    } else {
        done
    }
}

/// One pass of splitting on `/`: folds the characters of `s` into finished
/// components and a pending segment.
pub open spec fn spec_comps_fold(s: Seq<char>, done: Seq<Seq<char>>, cur: Seq<char>) -> (
    Seq<Seq<char>>,
    Seq<char>,
)
    decreases s.len(),
{
    if s.len() == 0 {
        (done, cur)
    } else if s[0] == '/' {
        spec_comps_fold(s.drop_first(), spec_flush(done, cur), Seq::empty())
    } else {
        spec_comps_fold(s.drop_first(), done, cur.push(s[0]))
    }
}

/// The components of a path: its `/`-separated segments, with empty and `.`
/// segments dropped.
pub open spec fn spec_components(s: Seq<char>) -> Seq<Seq<char>> {
    let (done, cur) = spec_comps_fold(s, Seq::empty(), Seq::empty());
    spec_flush(done, cur)
}

/// Whether a path starts at a root: with `/`, or with a leading `.`
/// component.
pub open spec fn spec_has_root(s: Seq<char>) -> bool {
    s.len() > 0 && (s[0] == '/' || (s[0] == '.' && (s.len() == 1 || s[1] == '/')))
}

/// Folding distributes over concatenation of the input.
proof fn lemma_comps_fold_concat(a: Seq<char>, b: Seq<char>, done: Seq<Seq<char>>, cur: Seq<char>)
    ensures
        spec_comps_fold(a + b, done, cur) == {
            let (d2, c2) = spec_comps_fold(a, done, cur);
            spec_comps_fold(b, d2, c2)
        },
    decreases a.len(),
{
    if a.len() == 0 {
        assert(a + b =~= b);
    } else {
        assert((a + b).drop_first() =~= a.drop_first() + b);
        if a[0] == '/' {
            lemma_comps_fold_concat(a.drop_first(), b, spec_flush(done, cur), Seq::empty());
        } else {
            lemma_comps_fold_concat(a.drop_first(), b, done, cur.push(a[0]));
        }
    }
}

/// Splits a path into its kept components and notes whether it has a root.
pub fn split_path(path: &Vec<char>) -> (r: (Vec<Vec<char>>, bool))
    ensures
        comps_view(r.0@) == spec_components(path@),
        r.1 == spec_has_root(path@),
{
    let n = path.len();
    let root = n > 0 && (path[0] == '/' || (path[0] == '.' && (n == 1 || path[1] == '/')));
    let mut done: Vec<Vec<char>> = Vec::new();
    let mut cur: Vec<char> = Vec::new();
    let mut i: usize = 0;
    while i < n
        invariant
            i <= n,
            n == path@.len(),
            spec_comps_fold(path@.take(i as int), Seq::empty(), Seq::empty()) == (
                comps_view(done@),
                cur@,
            ),
        decreases n - i,
    {
        let ghost pre = path@.take(i as int);
        let c = path[i];
        proof {
            assert(pre + seq![c] =~= path@.take(i + 1 as int));
            lemma_comps_fold_concat(pre, seq![c], Seq::empty(), Seq::empty());
            assert(seq![c].drop_first() =~= Seq::<char>::empty());
            let dd = spec_comps_fold(pre, Seq::empty(), Seq::empty()).0;
            let cc = spec_comps_fold(pre, Seq::empty(), Seq::empty()).1;
            if c == '/' {
                assert(spec_comps_fold(seq![c], dd, cc) == spec_comps_fold(
                    seq![c].drop_first(),
                    spec_flush(dd, cc),
                    Seq::empty(),
                ));
                assert(spec_comps_fold(seq![c], dd, cc) == (spec_flush(dd, cc), Seq::<
                    char,
                >::empty()));
            } else {
                assert(spec_comps_fold(seq![c], dd, cc) == spec_comps_fold(
                    seq![c].drop_first(),
                    dd,
                    cc.push(c),
                ));
                assert(spec_comps_fold(seq![c], dd, cc) == (dd, cc.push(c)));
            }
        }
        if c == '/' {
            let keep = cur.len() > 0 && !(cur.len() == 1 && cur[0] == '.');
            proof {
                assert(keep == keep_component(cur@)) by {
                    if cur@.len() == 1 && cur@[0] == '.' {
                        assert(cur@ =~= seq!['.']);
                    }
                    if cur@ == seq!['.'] {
                        assert(cur@.len() == 1 && cur@[0] == '.');
                    }
                }
            }
            let ghost gdone = done@;
            let ghost gcur = cur@;
            if keep {
                done.push(cur);
                proof {
                    assert(comps_view(done@) =~= comps_view(gdone).push(gcur));
                }
            }
            cur = Vec::new();
        } else {
            cur.push(c);
        }
        i += 1;
    }
    proof {
        assert(path@.take(n as int) =~= path@);
    }
    let keep = cur.len() > 0 && !(cur.len() == 1 && cur[0] == '.');
    proof {
        assert(keep == keep_component(cur@)) by {
            if cur@.len() == 1 && cur@[0] == '.' {
                assert(cur@ =~= seq!['.']);
            }
            if cur@ == seq!['.'] {
                assert(cur@.len() == 1 && cur@[0] == '.');
            }
        }
    }
    let ghost gdone = done@;
    let ghost gcur = cur@;
    if keep {
        done.push(cur);
        proof {
            assert(comps_view(done@) =~= comps_view(gdone).push(gcur));
        }
    }
    (done, root)
}

/// The mathematical state of a splitter: the path's components, how many
/// remain upstream of the current part, the current part's remaining
/// length, whether a root is still upstream, whether the synthetic empty
/// root part is current, and whether a separator was just matched.
#[verifier::ext_equal]
pub ghost struct SplitState {
    pub comps: Seq<Seq<char>>,
    pub rem: nat,
    pub part_len: nat,
    pub root_extra: bool,
    pub on_root: bool,
    pub matched_sep: bool,
}

/// Well-formedness of a splitter state.
pub open spec fn state_wf(st: SplitState) -> bool {
    if st.on_root {
        st.rem == 0 && st.part_len == 0 && !st.root_extra
    } else {
        st.rem < st.comps.len() && st.part_len <= st.comps[st.rem as int].len()
    }
}

/// The characters of the current part, in order.
pub open spec fn spec_part(st: SplitState) -> Seq<char> {
    if st.on_root {
        Seq::empty()
    } else {
        st.comps[st.rem as int].take(st.part_len as int)
    }
}

/// Advances into the next (more root-ward) component.
pub open spec fn spec_next(st: SplitState) -> Option<SplitState> {
    if st.rem > 0 {
        Some(
            SplitState {
                rem: (st.rem - 1) as nat,
                part_len: st.comps[st.rem - 1].len(),
                on_root: false,
                ..st
            },
        )
    } else if st.root_extra {
        Some(SplitState { root_extra: false, on_root: true, part_len: 0, ..st })
    } else {
        None
    }
}

/// Succeeds when no meaningful components remain upstream, consuming the
/// root marker if one is left.
pub open spec fn spec_match_end(st: SplitState) -> Option<SplitState> {
    if spec_part(st).len() > 0 {
        None
    } else if st.rem > 0 {
        None
    } else {
        Some(SplitState { root_extra: false, ..st })
    }
}

/// Succeeds only at an exact component boundary.
pub open spec fn spec_match_sep(st: SplitState) -> Option<SplitState> {
    if spec_part(st).len() == 0 {
        Some(SplitState { matched_sep: true, ..st })
    } else {
        None
    }
}

/// Consumes one trailing character; crossing into the previous component
/// only when `cross` is set.
pub open spec fn spec_match_any(st: SplitState, cross: bool) -> Option<SplitState> {
    if spec_part(st).len() > 0 {
        Some(SplitState { part_len: (st.part_len - 1) as nat, ..st })
    } else if cross {
        match spec_match_sep(st) {
            Some(st2) => spec_next(st2),
            None => None,
        }
    } else {
        None
    }
}

/// Pops one trailing character; crossing a component boundary yields a
/// synthetic `/`.
pub open spec fn spec_next_char(st: SplitState) -> Option<(SplitState, char)> {
    if spec_part(st).len() > 0 {
        Some(
            (
                SplitState { part_len: (st.part_len - 1) as nat, ..st },
                st.comps[st.rem as int][st.part_len - 1],
            ),
        )
    } else {
        match spec_next(st) {
            Some(st2) => Some((st2, '/')),
            None => None,
        }
    }
}

/// Strips `text` from the current part's tail, first hopping over a
/// just-matched separator.
pub open spec fn spec_match_suffix(st: SplitState, text: Seq<char>) -> Option<SplitState> {
    let hop = if spec_part(st).len() == 0 && st.matched_sep {
        spec_next(SplitState { matched_sep: false, ..st })
    } else {
        Some(st)
    };
    match hop {
        None => None,
        Some(st1) => {
            let p = spec_part(st1);
            if text.len() <= p.len() && p.skip(p.len() - text.len() as int) == text {
                Some(SplitState { part_len: (p.len() - text.len()) as nat, ..st1 })
            } else {
                None
            }
        },
    }
}

/// The greedy trailing-digit scan of `match_number`: consumes digits (and
/// one leading `-`) from the tail, collecting them in reading order, and
/// remembers the state after the last accepted character.
pub open spec fn spec_number_scan(
    st: SplitState,
    allow_zero: bool,
    q: Seq<char>,
    last_ok: SplitState,
) -> (Seq<char>, SplitState)
    decreases st.rem + (if st.root_extra { 1int } else { 0 }), st.part_len,
{
    match spec_next_char(st) {
        None => (q, last_ok),
        Some((next, c)) => {
            if is_numeric_char(c) && (c != '0' || allow_zero) {
                spec_number_scan(next, c == '0', seq![c] + q, next)
            } else if c == '-' {
                (seq!['-'] + q, next)
            } else {
                (q, last_ok)
            }
        },
    }
}

/// Matches a maximal trailing digit run whose signed value lies within
/// `[lo, hi]`; a `0` is accepted only where no digit follows it to its
/// left in reading order, so no extra leading zero can be consumed.
pub open spec fn spec_match_number(st: SplitState, lo: int, hi: int) -> Option<SplitState> {
    let (q, last_ok) = spec_number_scan(st, true, Seq::empty(), st);
    match spec_parse_isize(q) {
        None => None,
        Some(v) => if lo <= v as int && v as int <= hi {
            Some(last_ok)
        } else {
            None
        },
    }
}

/// The initial splitter state for a path, positioned at the last component;
/// a path with nothing to match yields nothing.
pub open spec fn spec_new_state(comps: Seq<Seq<char>>, root: bool) -> Option<SplitState> {
    if comps.len() > 0 {
        Some(
            SplitState {
                comps,
                rem: (comps.len() - 1) as nat,
                part_len: comps.last().len(),
                root_extra: root,
                on_root: false,
                matched_sep: false,
            },
        )
    } else if root {
        Some(
            SplitState {
                comps,
                rem: 0,
                part_len: 0,
                root_extra: false,
                on_root: true,
                matched_sep: false,
            },
        )
    } else {
        None
    }
}

/// A lazily walking view of a path, from its tail toward its root.
///
/// Cheap to copy: a snapshot taken at a choice point is two words.
#[derive(Clone, Copy)]
pub struct Splitter<'a> {
    comps: &'a Vec<Vec<char>>,
    rem: usize,
    part_len: usize,
    root_extra: bool,
    on_root: bool,
    matched_sep: bool,
}

impl<'a> Splitter<'a> {
    /// The abstract state of this splitter.
    pub closed spec fn view(&self) -> SplitState {
        SplitState {
            comps: comps_view(self.comps@),
            rem: self.rem as nat,
            part_len: self.part_len as nat,
            root_extra: self.root_extra,
            on_root: self.on_root,
            matched_sep: self.matched_sep,
        }
    }

    /// Well-formedness: the position lies within the path.
    pub open spec fn wf(&self) -> bool {
        state_wf(self@)
    }

    /// Positions a new splitter at the path's last component.
    pub fn new(comps: &'a Vec<Vec<char>>, root: bool) -> (r: Option<Splitter<'a>>)
        ensures
            r is Some <==> spec_new_state(comps_view(comps@), root) is Some,
            r is Some ==> r->0@ == spec_new_state(comps_view(comps@), root)->0 && r->0.wf(),
    {
        let n = comps.len();
        if n > 0 {
            let r = Splitter {
                comps,
                rem: n - 1,
                part_len: comps[n - 1].len(),
                root_extra: root,
                on_root: false,
                matched_sep: false,
            };
            proof {
                assert(r@ =~= spec_new_state(comps_view(comps@), root)->0);
            }
            Some(r)
        } else if root {
            let r = Splitter {
                comps,
                rem: 0,
                part_len: 0,
                root_extra: false,
                on_root: true,
                matched_sep: false,
            };
            proof {
                assert(r@ =~= spec_new_state(comps_view(comps@), root)->0);
            }
            Some(r)
        } else {
            None
        }
    }

    /// Whether the current part is exhausted.
    fn part_is_empty(&self) -> (r: bool)
        requires
            self.wf(),
        ensures
            r == (spec_part(self@).len() == 0),
    {
        self.on_root || self.part_len == 0
    }

    /// Advances into the next (more root-ward) component.
    pub fn next(self) -> (r: Option<Splitter<'a>>)
        requires
            self.wf(),
        ensures
            r is Some <==> spec_next(self@) is Some,
            r is Some ==> r->0@ == spec_next(self@)->0 && r->0.wf(),
    {
        if self.rem > 0 {
            let r = Splitter {
                rem: self.rem - 1,
                part_len: self.comps[self.rem - 1].len(),
                on_root: false,
                ..self
            };
            proof {
                assert(r@ =~= spec_next(self@)->0);
            }
            Some(r)
        } else if self.root_extra {
            let r = Splitter { root_extra: false, on_root: true, part_len: 0, ..self };
            proof {
                assert(r@ =~= spec_next(self@)->0);
            }
            Some(r)
        } else {
            None
        }
    }

    /// Succeeds when nothing but the root remains upstream.
    pub fn match_end(self) -> (r: Option<Splitter<'a>>)
        requires
            self.wf(),
        ensures
            r is Some <==> spec_match_end(self@) is Some,
            r is Some ==> r->0@ == spec_match_end(self@)->0 && r->0.wf(),
    {
        if !self.part_is_empty() {
            return None;
        }
        if self.rem > 0 {
            return None;
        }
        let r = Splitter { root_extra: false, ..self };
        proof {
            assert(r@ =~= spec_match_end(self@)->0);
        }
        Some(r)
    }

    /// Succeeds only at an exact component boundary.
    pub fn match_sep(self) -> (r: Option<Splitter<'a>>)
        requires
            self.wf(),
        ensures
            r is Some <==> spec_match_sep(self@) is Some,
            r is Some ==> r->0@ == spec_match_sep(self@)->0 && r->0.wf(),
    {
        if self.part_is_empty() {
            let r = Splitter { matched_sep: true, ..self };
            proof {
                assert(r@ =~= spec_match_sep(self@)->0);
            }
            Some(r)
        } else {
            None
        }
    }

    /// Consumes one trailing character, crossing a component boundary only
    /// when `cross` is set.
    pub fn match_any(self, cross: bool) -> (r: Option<Splitter<'a>>)
        requires
            self.wf(),
        ensures
            r is Some <==> spec_match_any(self@, cross) is Some,
            r is Some ==> r->0@ == spec_match_any(self@, cross)->0 && r->0.wf(),
    {
        if !self.part_is_empty() {
            let r = Splitter { part_len: self.part_len - 1, ..self };
            proof {
                assert(r@ =~= spec_match_any(self@, cross)->0);
            }
            Some(r)
        } else if cross {
            match self.match_sep() {
                Some(s2) => s2.next(),
                None => None,
            }
        } else {
            None
        }
    }

    /// Pops one trailing character; a component boundary yields a
    /// synthetic `/`.
    pub fn next_char(self) -> (r: Option<(Splitter<'a>, char)>)
        requires
            self.wf(),
        ensures
            r is Some <==> spec_next_char(self@) is Some,
            r is Some ==> spec_next_char(self@) == Some(((r->0).0@, (r->0).1)) && (r->0).0.wf(),
    {
        if !self.part_is_empty() {
            let c = self.comps[self.rem][self.part_len - 1];
            let r = Splitter { part_len: self.part_len - 1, ..self };
            proof {
                assert(r@ =~= (spec_next_char(self@)->0).0);
            }
            Some((r, c))
        } else {
            match self.next() {
                Some(s2) => Some((s2, '/')),
                None => None,
            }
        }
    }

    /// Strips `text` from the current part's tail, first hopping over a
    /// just-matched separator.
    pub fn match_suffix(self, text: &Vec<char>) -> (r: Option<Splitter<'a>>)
        requires
            self.wf(),
        ensures
            r is Some <==> spec_match_suffix(self@, text@) is Some,
            r is Some ==> r->0@ == spec_match_suffix(self@, text@)->0 && r->0.wf(),
    {
        let mut cur = self;
        if self.part_is_empty() && self.matched_sep {
            cur = Splitter { matched_sep: false, ..self };
            proof {
                assert(cur@ =~= SplitState { matched_sep: false, ..self@ });
            }
            match cur.next() {
                Some(s2) => {
                    cur = s2;
                },
                None => {
                    return None;
                },
            }
        }
        let tn = text.len();
        if cur.on_root {
            if tn == 0 {
                proof {
                    assert(spec_part(cur@).skip(0) =~= spec_part(cur@));
                    assert(spec_part(cur@) =~= text@);
                    assert(spec_match_suffix(self@, text@)->0 =~= cur@);
                }
                return Some(cur);
            }
            return None;
        }
        if tn > cur.part_len {
            return None;
        }
        let comp = &self.comps[cur.rem];
        let base = cur.part_len - tn;
        let mut k: usize = 0;
        let ghost p = spec_part(cur@);
        while k < tn
            invariant
                k <= tn,
                tn == text@.len(),
                tn <= cur.part_len,
                cur.wf(),
                !cur.on_root,
                (if spec_part(self@).len() == 0 && self@.matched_sep {
                    spec_next(SplitState { matched_sep: false, ..self@ })
                } else {
                    Some(self@)
                }) == Some(cur@),
                base == cur.part_len - tn,
                comp@ == cur@.comps[cur@.rem as int],
                p == spec_part(cur@),
                forall|j: int| 0 <= j < k ==> p[base + j] == text@[j],
            decreases tn - k,
        {
            if comp[base + k] != text[k] {
                proof {
                    assert(p[base + k] == comp@[base + k]);
                    assert(p.skip(p.len() - tn) != text@) by {
                        assert(p.skip(p.len() - tn)[k as int] == p[base + k]);
                    }
                }
                return None;
            }
            proof {
                assert(p[base + k] == comp@[base + k]);
            }
            k += 1;
        }
        let r = Splitter { part_len: base, ..cur };
        proof {
            assert(p.skip(p.len() - tn) =~= text@);
            assert(r@ =~= spec_match_suffix(self@, text@)->0);
        }
        Some(r)
    }

    /// Matches a maximal trailing digit run whose signed value lies within
    /// the inclusive range.
    pub fn match_number(self, lower: isize, upper: isize) -> (r: Option<Splitter<'a>>)
        requires
            self.wf(),
        ensures
            r is Some <==> spec_match_number(self@, lower as int, upper as int) is Some,
            r is Some ==> r->0@ == spec_match_number(self@, lower as int, upper as int)->0
                && r->0.wf(),
    {
        let mut q: Vec<char> = Vec::new();
        let mut allow_zero = true;
        let mut last_ok = self;
        let mut cur = self;
        loop
            invariant_except_break
                spec_number_scan(self@, true, Seq::empty(), self@) == {
                    let (fq, flast) = spec_number_scan(cur@, allow_zero, q@, last_ok@);
                    (fq, flast)
                },
            invariant
                cur.wf(),
                last_ok.wf(),
            ensures
                ({
                    let (fq, flast) = spec_number_scan(self@, true, Seq::empty(), self@);
                    q@ == fq && last_ok@ == flast && last_ok.wf()
                }),
            decreases cur@.rem + (if cur@.root_extra { 1int } else { 0 }), cur@.part_len,
        {
            match cur.next_char() {
                None => {
                    break ;
                },
                Some((next_ok, c)) => {
                    let ghost oldq = q@;
                    let numeric = char_is_numeric(c);
                    if numeric && (c != '0' || allow_zero) {
                        last_ok = next_ok;
                        allow_zero = c == '0';
                        q.insert(0, c);
                        proof {
                            assert(q@ =~= seq![c] + oldq);
                        }
                    } else if c == '-' {
                        last_ok = next_ok;
                        q.insert(0, '-');
                        proof {
                            assert(q@ =~= seq!['-'] + oldq);
                        }
                        break ;
                    } else {
                        break ;
                    }
                    cur = next_ok;
                },
            }
        }
        match parse_isize(&q) {
            None => None,
            Some(v) => {
                if v < lower || v > upper {
                    None
                } else {
                    Some(last_ok)
                }
            },
        }
    }
}

} // verus!

verus! {

/// Fusing consecutive separator nodes is transparent: a separator node
/// applied to a state that a separator node just accepted accepts again
/// and leaves the state unchanged, so one separator node matches exactly
/// where two in a row do.
pub proof fn lemma_sep_fusion_transparent(st: SplitState)
    ensures
        match spec_match_sep(st) {
            Some(st2) => spec_match_sep(st2) == Some(st2),
            None => true,
        },
{
    match spec_match_sep(st) {
        Some(st2) => {
            assert(spec_part(st2) == spec_part(st));
            assert(spec_match_sep(st2) == Some(SplitState { matched_sep: true, ..st2 }));
            assert(SplitState { matched_sep: true, ..st2 } =~= st2);
        },
        None => {},
    }
}

/// Fusing adjacent literal nodes is transparent: stripping the
/// concatenation `a + b` in one node succeeds on exactly the states where
/// stripping `b` and then `a` in two nodes does, and yields the same
/// state. The two agree on every state the matcher can be in except one
/// corner: a state still marked by a just-matched separator whose current
/// part is not empty, where the two-node form may hop into the previous
/// component between the strips.
pub proof fn lemma_suffix_fusion_transparent(st: SplitState, a: Seq<char>, b: Seq<char>)
    requires
        state_wf(st),
        st.matched_sep ==> spec_part(st).len() == 0,
    ensures
        spec_match_suffix(st, a + b) == match spec_match_suffix(st, b) {
            Some(st2) => spec_match_suffix(st2, a),
            None => None,
        },
{
    let hop = if spec_part(st).len() == 0 && st.matched_sep {
        spec_next(SplitState { matched_sep: false, ..st })
    } else {
        Some(st)
    };
    match hop {
        None => {},
        Some(st1) => {
            assert(!st1.matched_sep || spec_part(st1).len() > 0 || !st.matched_sep ==> true);
            let p = spec_part(st1);
            let la = a.len() as int;
            let lb = b.len() as int;
            if lb <= p.len() && p.skip(p.len() - lb) == b {
                let st2 = SplitState { part_len: (p.len() - lb) as nat, ..st1 };
                assert(!st2.matched_sep) by {
                    if spec_part(st).len() == 0 && st.matched_sep {
                        assert(!st1.matched_sep);
                    } else {
                        assert(!st.matched_sep);
                        assert(st1 == st);
                    }
                }
                let q = spec_part(st2);
                assert(q =~= p.take(p.len() - lb));
                if la <= q.len() && q.skip(q.len() - la) == a {
                    // Both strips succeed; the fused strip matches the
                    // concatenation.
                    assert(p.skip(p.len() - la - lb) =~= a + b) by {
                        assert forall|i: int| 0 <= i < la + lb implies p.skip(p.len() - la - lb)[i]
                            == (a + b)[i] by {
                            if i < la {
                                assert(q.skip(q.len() - la)[i] == a[i]);
                                assert(q[q.len() - la + i] == p[p.len() - la - lb + i]);
                            } else {
                                assert(p.skip(p.len() - lb)[i - la] == b[i - la]);
                            }
                        }
                    }
                    let fused = SplitState { part_len: (p.len() - la - lb) as nat, ..st1 };
                    let twice = SplitState { part_len: (q.len() - la) as nat, ..st2 };
                    assert(fused =~= twice);
                } else {
                    // The second strip fails; so must the fused strip.
                    if la + lb <= p.len() && p.skip(p.len() - la - lb) == a + b {
                        assert(la <= q.len());
                        assert(q.skip(q.len() - la) =~= a) by {
                            assert forall|i: int| 0 <= i < la implies q.skip(q.len() - la)[i] == a[
                                i
                            ] by {
                                assert(p.skip(p.len() - la - lb)[i] == (a + b)[i]);
                                assert(q[q.len() - la + i] == p[p.len() - la - lb + i]);
                            }
                        }
                        assert(false);
                    }
                }
            } else {
                // The first strip fails; so must the fused strip.
                if la + lb <= p.len() && p.skip(p.len() - la - lb) == a + b {
                    assert(p.skip(p.len() - lb) =~= b) by {
                        assert forall|i: int| 0 <= i < lb implies p.skip(p.len() - lb)[i] == b[
                            i
                        ] by {
                            assert(p.skip(p.len() - la - lb)[la + i] == (a + b)[la + i]);
                        }
                    }
                    assert(false);
                }
            }
        },
    }
}

} // verus!
