//! The ordered map of property names to property values.

pub mod rawvalue;

use vstd::prelude::*;

use crate::chars::{chars_cmp, lemma_lex_cmp_eq, lex_cmp, str_chars};
use crate::string::SharedString;
use crate::traits::{PropertyKey, PropertyValue};

verus! {

/// The pairs a map holds, in insertion order.
pub type PairsV = Seq<(Seq<char>, Seq<char>)>;

/// The position of the first pair carrying `key`, scanning from `i`.
pub open spec fn spec_find_key(ps: PairsV, key: Seq<char>, i: int) -> Option<int>
    decreases ps.len() - i,
{
    if i < 0 || i >= ps.len() {
        None
    } else if ps[i].0 == key {
        Some(i)
    } else {
        spec_find_key(ps, key, i + 1)
    }
}

/// What setting a key to a value yields: the pair updated in place when
/// the key is present, a pair appended otherwise.
pub open spec fn spec_set_pair(ps: PairsV, key: Seq<char>, val: Seq<char>) -> PairsV {
    match spec_find_key(ps, key, 0) {
        Some(i) => ps.update(i, (ps[i].0, val)),
        None => ps.push((key, val)),
    }
}

/// Map of property names to property values.
///
/// Lookups are logarithmic and insertion order is preserved. The map is
/// case-sensitive: the caller keeps keys and values lowercased.
pub struct Properties {
    /// Key-value pairs, oldest first.
    pairs: Vec<(SharedString, SharedString)>,
    /// Indices of `pairs`, ordered by the keys they refer to.
    idxes: Vec<usize>,
}

impl Properties {
    /// The pairs, in insertion order.
    pub closed spec fn view(&self) -> PairsV {
        Seq::new(self.pairs@.len(), |i: int| (self.pairs@[i].0@, self.pairs@[i].1@))
    }

    /// Whether some index entry refers to pair position `p`.
    pub closed spec fn covered(&self, p: int) -> bool {
        exists|i: int| 0 <= i < self.idxes@.len() && (#[trigger] self.idxes@[i]) == p
    }

    /// Well-formedness: the index vector is a key-ordered permutation of
    /// the pair positions, and no two pairs share a key.
    pub closed spec fn wf(&self) -> bool {
        &&& self.idxes@.len() == self.pairs@.len()
        &&& (forall|i: int|
            0 <= i < self.idxes@.len() ==> (#[trigger] self.idxes@[i]) < self.pairs@.len())
        &&& (forall|i: int, j: int|
            0 <= i < j < self.idxes@.len() ==> lex_cmp(
                #[trigger] self@[self.idxes@[i] as int].0,
                #[trigger] self@[self.idxes@[j] as int].0,
            ) < 0)
        &&& (forall|p: int| 0 <= p < self.pairs@.len() ==> #[trigger] self.covered(p))
        &&& (forall|p: int, q: int| 0 <= p < q < self@.len() ==> self@[p].0 != self@[q].0)
    }

    /// Constructs a new empty map.
    pub fn new() -> (r: Properties)
        ensures
            r.wf(),
            r@ == Seq::<(Seq<char>, Seq<char>)>::empty(),
    {
        let r = Properties { pairs: Vec::new(), idxes: Vec::new() };
        proof {
            assert(r@ =~= Seq::<(Seq<char>, Seq<char>)>::empty());
        }
        r
    }

    /// The number of pairs, including those with empty values.
    pub fn len(&self) -> (r: usize)
        ensures
            r == self@.len(),
    {
        self.pairs.len()
    }

    /// Whether the map holds no pairs.
    pub fn is_empty(&self) -> (r: bool)
        ensures
            r == (self@.len() == 0),
    {
        self.pairs.is_empty()
    }

    /// Locates `key` in the index vector: the pair position on a hit, or
    /// the index-vector position to insert at on a miss.
    fn find_idx(&self, key: &Vec<char>) -> (r: Result<usize, usize>)
        requires
            self.wf(),
        ensures
            match r {
                Ok(p) => p < self@.len() && self@[p as int].0 == key@ && spec_find_key(
                    self@,
                    key@,
                    0,
                ) == Some(p as int),
                Err(pos) => {
                    &&& pos <= self.spec_idx_len()
                    &&& spec_find_key(self@, key@, 0) is None
                    &&& (forall|i: int|
                        0 <= i < pos ==> lex_cmp(self.spec_key_at(i), key@) < 0)
                    &&& (forall|i: int|
                        pos <= i < self.spec_idx_len() ==> lex_cmp(self.spec_key_at(i), key@) > 0)
                    &&& (forall|p: int| 0 <= p < self@.len() ==> self@[p].0 != key@)
                },
            },
    {
        let mut lo: usize = 0;
        let mut hi: usize = self.idxes.len();
        while lo < hi
            invariant
                lo <= hi <= self.idxes@.len(),
                self.wf(),
                forall|i: int| 0 <= i < lo ==> lex_cmp(self.spec_key_at(i), key@) < 0,
                forall|i: int|
                    hi <= i < self.idxes@.len() ==> lex_cmp(self.spec_key_at(i), key@) > 0,
            decreases hi - lo,
        {
            let mid = lo + (hi - lo) / 2;
            let p = self.idxes[mid];
            let pk = str_chars(self.pairs[p].0.as_str());
            proof {
                assert(pk@ == self.spec_key_at(mid as int));
            }
            let c = chars_cmp(&pk, key);
            if c == 0 {
                proof {
                    lemma_lex_cmp_eq(pk@, key@);
                    assert(self@[p as int].0 == key@);
                    self.lemma_unique_find(p as int, key@);
                }
                return Ok(p);
            } else if c < 0 {
                proof {
                    assert forall|i: int| 0 <= i < mid + 1 implies lex_cmp(
                        self.spec_key_at(i),
                        key@,
                    ) < 0 by {
                        if i < mid {
                            assert(lex_cmp(self.spec_key_at(i), self.spec_key_at(mid as int)) < 0);
                            crate::chars::lemma_lex_cmp_trans(
                                self.spec_key_at(i),
                                self.spec_key_at(mid as int),
                                key@,
                            );
                        }
                    }
                }
                lo = mid + 1;
            } else {
                proof {
                    assert forall|i: int| mid <= i < self.idxes@.len() implies lex_cmp(
                        self.spec_key_at(i),
                        key@,
                    ) > 0 by {
                        if i > mid {
                            assert(lex_cmp(self.spec_key_at(mid as int), self.spec_key_at(i)) < 0);
                            crate::chars::lemma_lex_cmp_antisym(self.spec_key_at(mid as int), key@);
                            crate::chars::lemma_lex_cmp_trans(
                                key@,
                                self.spec_key_at(mid as int),
                                self.spec_key_at(i),
                            );
                            crate::chars::lemma_lex_cmp_antisym(self.spec_key_at(i), key@);
                        }
                    }
                }
                hi = mid;
            }
        }
        proof {
            assert forall|p: int| 0 <= p < self@.len() implies self@[p].0 != key@ by {
                assert(self.covered(p));
                let i = choose|i: int|
                    0 <= i < self.idxes@.len() && (#[trigger] self.idxes@[i]) == p;
                assert(lex_cmp(self.spec_key_at(i), key@) != 0);
                lemma_lex_cmp_eq(self@[p].0, key@);
            }
            self.lemma_absent_find(key@, 0);
        }
        Err(lo)
    }

    /// The number of index entries.
    pub closed spec fn spec_idx_len(&self) -> int {
        self.idxes@.len() as int
    }

    /// The key that the index entry at `i` refers to.
    pub closed spec fn spec_key_at(&self, i: int) -> Seq<char> {
        self@[self.idxes@[i] as int].0
    }

    /// A key held by no pair is found at no scan position.
    proof fn lemma_absent_find(&self, key: Seq<char>, i: int)
        requires
            forall|p: int| 0 <= p < self@.len() ==> self@[p].0 != key,
            0 <= i,
        ensures
            spec_find_key(self@, key, i) is None,
        decreases self@.len() - i,
    {
        if i < self@.len() {
            self.lemma_absent_find(key, i + 1);
        }
    }

    /// With unique keys, a scan finds the pair position that holds the key.
    proof fn lemma_unique_find(&self, p: int, key: Seq<char>)
        requires
            self.wf(),
            0 <= p < self@.len(),
            self@[p].0 == key,
        ensures
            spec_find_key(self@, key, 0) == Some(p),
    {
        self.lemma_unique_find_from(p, key, 0);
    }

    /// The scan from any position at or before the hit lands on the hit.
    proof fn lemma_unique_find_from(&self, p: int, key: Seq<char>, i: int)
        requires
            self.wf(),
            0 <= i <= p < self@.len(),
            self@[p].0 == key,
        ensures
            spec_find_key(self@, key, i) == Some(p),
        decreases p - i,
    {
        if i < p {
            assert(self@[i].0 != self@[p].0);
            self.lemma_unique_find_from(p, key, i + 1);
        }
    }

    /// Returns the unparsed value for the specified key.
    pub fn get_raw_for_key(&self, key: &str) -> (r: Option<&SharedString>)
        requires
            self.wf(),
        ensures
            match spec_find_key(self@, key@, 0) {
                Some(i) => r is Some && r->0@ == self@[i].1,
                None => r is None,
            },
    {
        let kv = str_chars(key);
        match self.find_idx(&kv) {
            Ok(p) => Some(&self.pairs[p].1),
            Err(_) => None,
        }
    }

    /// Returns the unparsed value for the specified property.
    pub fn get_raw<T: PropertyKey>(&self) -> (r: Option<&SharedString>)
        requires
            self.wf(),
        ensures
            match spec_find_key(self@, T::spec_key(), 0) {
                Some(i) => r is Some && r->0@ == self@[i].1,
                None => r is None,
            },
    {
        self.get_raw_for_key(T::key())
    }

    /// Returns the parsed value for the specified property; an absent or
    /// unset value yields `Err(None)`, an unparsable one `Err(Some(_))`.
    pub fn get<T: PropertyKey + PropertyValue>(&self) -> (r: Result<
        T,
        Option<crate::property::UnknownValueError>,
    >)
        requires
            self.wf(),
        ensures
            match spec_find_key(self@, T::spec_key(), 0) {
                Some(i) => {
                    let s = self@[i].1;
                    if s.len() == 0 || crate::chars::spec_eq_ignore_ascii_case(s, "unset"@) {
                        r == Err::<T, Option<crate::property::UnknownValueError>>(None)
                    } else {
                        match T::spec_parse_val(s) {
                            Some(v) => r == Ok::<T, Option<crate::property::UnknownValueError>>(v),
                            None => r is Err,
                        }
                    }
                },
                None => r == Err::<T, Option<crate::property::UnknownValueError>>(None),
            },
    {
        match self.get_raw::<T>() {
            Some(value) => value.parse::<T>(),
            None => Err(None),
        }
    }

    /// Appends a brand-new pair, recording its position in the index
    /// vector at `pos`.
    #[verifier::rlimit(50)]
    fn insert_at(&mut self, pos: usize, key: SharedString, val: SharedString)
        requires
            old(self).wf(),
            pos <= old(self).spec_idx_len(),
            forall|i: int| 0 <= i < pos ==> lex_cmp(old(self).spec_key_at(i), key@) < 0,
            forall|i: int|
                pos <= i < old(self).spec_idx_len() ==> lex_cmp(old(self).spec_key_at(i), key@)
                    > 0,
            forall|p: int| 0 <= p < old(self)@.len() ==> old(self)@[p].0 != key@,
        ensures
            final(self).wf(),
            final(self)@ == old(self)@.push((key@, val@)),
    {
        let ghost pre = self@;
        let n = self.pairs.len();
        self.idxes.insert(pos, n);
        self.pairs.push((key, val));
        proof {
            assert(self@ =~= pre.push((key@, val@)));
            let idx0 = old(self).idxes@;
            let idx1 = self.idxes@;
            assert(idx1 == idx0.insert(pos as int, n as usize));
            idx0.insert_ensures(pos as int, n as usize);
            assert(forall|p: int| 0 <= p < pre.len() ==> self@[p] == #[trigger] pre[p]);
            assert forall|i: int| 0 <= i < idx1.len() implies (#[trigger] idx1[i])
                < self.pairs@.len() by {
                if i < pos {
                    assert(idx1[i] == idx0[i]);
                } else if i == pos {
                } else {
                    assert(idx1[i] == idx0[i - 1]);
                }
            }
            assert forall|i: int, j: int| 0 <= i < j < idx1.len() implies lex_cmp(
                #[trigger] self@[idx1[i] as int].0,
                #[trigger] self@[idx1[j] as int].0,
            ) < 0 by {
                let s1 = idx0.insert(pos as int, n as usize);
                assert(idx1[i] == s1[i]);
                assert(idx1[j] == s1[j]);
                let ii = if i < pos {
                    i
                } else {
                    i - 1
                };
                let jj = if j < pos {
                    j
                } else {
                    j - 1
                };
                if i != pos {
                    assert(s1[i] == idx0[ii]);
                    assert(idx0[ii] < n);
                    assert(self@[idx0[ii] as int].0 == pre[idx0[ii] as int].0);
                    assert(pre[idx0[ii] as int].0 == old(self).spec_key_at(ii));
                }
                if j != pos {
                    assert(s1[j] == idx0[jj]);
                    assert(idx0[jj] < n);
                    assert(self@[idx0[jj] as int].0 == pre[idx0[jj] as int].0);
                    assert(pre[idx0[jj] as int].0 == old(self).spec_key_at(jj));
                }
                if i == pos {
                    assert(s1[i] == n);
                    assert(self@[n as int].0 == key@);
                    assert(lex_cmp(old(self).spec_key_at(jj), key@) > 0);
                    crate::chars::lemma_lex_cmp_antisym(old(self).spec_key_at(jj), key@);
                } else if j == pos {
                    assert(s1[j] == n);
                    assert(self@[n as int].0 == key@);
                    assert(lex_cmp(old(self).spec_key_at(ii), key@) < 0);
                } else {
                    assert(ii < jj);
                    assert(lex_cmp(old(self).spec_key_at(ii), old(self).spec_key_at(jj)) < 0);
                }
            }
            assert forall|p: int| 0 <= p < self.pairs@.len() implies #[trigger] self.covered(
                p,
            ) by {
                if p < n {
                    assert(old(self).covered(p));
                    let i0 = choose|i: int|
                        0 <= i < idx0.len() && (#[trigger] idx0[i]) == p;
                    if i0 < pos {
                        assert(idx1[i0] == p);
                    } else {
                        assert(idx1[i0 + 1] == p);
                    }
                } else {
                    assert(idx1[pos as int] == p);
                }
            }
            assert forall|p: int, q: int| 0 <= p < q < self@.len() implies self@[p].0
                != self@[q].0 by {
                if q < pre.len() {
                    assert(pre[p].0 != pre[q].0);
                } else {
                    assert(self@[q].0 == key@);
                    assert(pre[p].0 != key@);
                }
            }
        }
    }

    /// Sets the value for a specified key: an existing pair keeps its
    /// place and takes the new value, a new pair is appended.
    pub fn insert_raw_for_key(&mut self, key: &str, val: SharedString)
        requires
            old(self).wf(),
        ensures
            final(self).wf(),
            final(self)@ == spec_set_pair(old(self)@, key@, val@),
    {
        let kv = str_chars(key);
        let ghost pre = self@;
        match self.find_idx(&kv) {
            Ok(idx) => {
                let slot = &mut self.pairs[idx];
                slot.1 = val;
                proof {
                    assert(self@ =~= pre.update(idx as int, (pre[idx as int].0, val@)));
                    lemma_wf_same_keys(old(self), self);
                }
            },
            Err(pos) => {
                self.insert_at(pos, SharedString::new(key), val);
            },
        }
    }

    /// Sets the value for a specified property's key.
    pub fn insert_raw<K: PropertyKey>(&mut self, val: SharedString)
        requires
            old(self).wf(),
        ensures
            final(self).wf(),
            final(self)@ == spec_set_pair(old(self)@, K::spec_key(), val@),
    {
        self.insert_raw_for_key(K::key(), val);
    }

    /// Inserts a specified property into the map under its own key.
    pub fn insert<T: PropertyKey + crate::string::ToSharedString>(&mut self, prop: T)
        requires
            old(self).wf(),
        ensures
            final(self).wf(),
            final(self)@ == spec_set_pair(old(self)@, T::spec_key(), prop.spec_text()),
    {
        let text = prop.to_shared_string();
        self.insert_raw_for_key(T::key(), text);
    }

    /// Attempts to add a new pair; a key already carrying a non-empty
    /// value is left alone and its value is returned as the error.
    pub fn try_insert_raw_for_key(&mut self, key: &str, value: SharedString) -> (r: Result<
        (),
        SharedString,
    >)
        requires
            old(self).wf(),
        ensures
            final(self).wf(),
            match spec_find_key(old(self)@, key@, 0) {
                Some(i) => {
                    if old(self)@[i].1.len() == 0 {
                        r is Ok && final(self)@ == old(self)@.update(
                            i,
                            (old(self)@[i].0, value@),
                        )
                    } else {
                        r is Err && r->Err_0@ == old(self)@[i].1 && final(self)@ == old(self)@
                    }
                },
                None => r is Ok && final(self)@ == old(self)@.push((key@, value@)),
            },
    {
        let kv = str_chars(key);
        let ghost pre = self@;
        match self.find_idx(&kv) {
            Ok(idx) => {
                if self.pairs[idx].1.is_empty() {
                    let slot = &mut self.pairs[idx];
                    slot.1 = value;
                    proof {
                        assert(self@ =~= pre.update(idx as int, (pre[idx as int].0, value@)));
                        lemma_wf_same_keys(old(self), self);
                    }
                    Ok(())
                } else {
                    Err(self.pairs[idx].1.duplicate())
                }
            },
            Err(pos) => {
                self.insert_at(pos, SharedString::new(key), value);
                Ok(())
            },
        }
    }

    /// Attempts to add a new pair under a specified property's key.
    pub fn try_insert_raw<K: PropertyKey>(&mut self, val: SharedString) -> (r: Result<
        (),
        SharedString,
    >)
        requires
            old(self).wf(),
        ensures
            final(self).wf(),
            match spec_find_key(old(self)@, K::spec_key(), 0) {
                Some(i) => {
                    if old(self)@[i].1.len() == 0 {
                        r is Ok && final(self)@ == old(self)@.update(i, (old(self)@[i].0, val@))
                    } else {
                        r is Err && r->Err_0@ == old(self)@[i].1 && final(self)@ == old(self)@
                    }
                },
                None => r is Ok && final(self)@ == old(self)@.push((K::spec_key(), val@)),
            },
    {
        self.try_insert_raw_for_key(K::key(), val)
    }

    /// Attempts to add a new property under its own key.
    pub fn try_insert<T: PropertyKey + crate::string::ToSharedString>(&mut self, prop: T) -> (r:
        Result<(), SharedString>)
        requires
            old(self).wf(),
        ensures
            final(self).wf(),
            match spec_find_key(old(self)@, T::spec_key(), 0) {
                Some(i) => {
                    if old(self)@[i].1.len() == 0 {
                        r is Ok && final(self)@ == old(self)@.update(
                            i,
                            (old(self)@[i].0, prop.spec_text()),
                        )
                    } else {
                        r is Err && r->Err_0@ == old(self)@[i].1 && final(self)@ == old(self)@
                    }
                },
                None => r is Ok && final(self)@ == old(self)@.push(
                    (T::spec_key(), prop.spec_text()),
                ),
            },
    {
        let text = prop.to_shared_string();
        self.try_insert_raw_for_key(T::key(), text)
    }

    /// The pairs, oldest first, as copies.
    pub fn iter(&self) -> (r: Vec<(SharedString, SharedString)>)
        ensures
            Seq::new(r@.len(), |i: int| (r@[i].0@, r@[i].1@)) == self@,
    {
        let mut out: Vec<(SharedString, SharedString)> = Vec::new();
        let n = self.pairs.len();
        let mut i: usize = 0;
        while i < n
            invariant
                i <= n,
                n == self@.len(),
                n == self.pairs@.len(),
                Seq::new(out@.len(), |k: int| (out@[k].0@, out@[k].1@)) == self@.subrange(
                    0,
                    i as int,
                ),
            decreases n - i,
        {
            let ghost gout = Seq::new(out@.len(), |k: int| (out@[k].0@, out@[k].1@));
            let k = self.pairs[i].0.duplicate();
            let v = self.pairs[i].1.duplicate();
            out.push((k, v));
            proof {
                assert(Seq::new(out@.len(), |k: int| (out@[k].0@, out@[k].1@)) =~= gout.push(
                    self@[i as int],
                ));
                assert(gout.push(self@[i as int]) =~= self@.subrange(0, i + 1 as int));
            }
            i += 1;
        }
        proof {
            assert(self@.subrange(0, n as int) =~= self@);
        }
        out
    }

    /// Adds every given pair in order, as `insert_raw_for_key` would.
    pub fn extend(&mut self, items: Vec<(SharedString, SharedString)>)
        requires
            old(self).wf(),
        ensures
            final(self).wf(),
            final(self)@ == spec_extend(
                old(self)@,
                Seq::new(items@.len(), |i: int| (items@[i].0@, items@[i].1@)),
            ),
    {
        let mut rest = items;
        while rest.len() > 0
            invariant
                self.wf(),
                spec_extend(self@, Seq::new(rest@.len(), |i: int| (rest@[i].0@, rest@[i].1@)))
                    == spec_extend(
                    old(self)@,
                    Seq::new(items@.len(), |i: int| (items@[i].0@, items@[i].1@)),
                ),
            decreases rest@.len(),
        {
            let ghost prest = Seq::new(rest@.len(), |i: int| (rest@[i].0@, rest@[i].1@));
            let (k, v) = rest.remove(0);
            proof {
                assert(Seq::new(rest@.len(), |i: int| (rest@[i].0@, rest@[i].1@))
                    =~= prest.drop_first());
                assert(prest[0] == (k@, v@));
            }
            let ks = str_chars(k.as_str());
            let kstr = crate::chars::chars_string(&ks);
            self.insert_raw_for_key(kstr.as_str(), v);
        }
    }

    /// Adds the spec-compliant fallback values for the indent properties.
    pub fn use_fallbacks(&mut self)
        requires
            old(self).wf(),
        ensures
            final(self).wf(),
            final(self)@ == crate::fallback::spec_add_fallbacks(old(self)@, false),
    {
        crate::fallback::add_fallbacks(self, false)
    }

    /// Adds the fallback values that standards before 0.9.0 used.
    pub fn use_fallbacks_legacy(&mut self)
        requires
            old(self).wf(),
        ensures
            final(self).wf(),
            final(self)@ == crate::fallback::spec_add_fallbacks(old(self)@, true),
    {
        crate::fallback::add_fallbacks(self, true)
    }
}

/// A map stays well-formed when only its values change: well-formedness
/// speaks of the keys and the index vector alone.
proof fn lemma_wf_same_keys(a: &Properties, b: &Properties)
    requires
        a.wf(),
        b.idxes@ == a.idxes@,
        b.pairs@.len() == a.pairs@.len(),
        forall|p: int| 0 <= p < a@.len() ==> (#[trigger] b@[p].0) == a@[p].0,
    ensures
        b.wf(),
{
    assert forall|i: int, j: int| 0 <= i < j < b.idxes@.len() implies lex_cmp(
        #[trigger] b@[b.idxes@[i] as int].0,
        #[trigger] b@[b.idxes@[j] as int].0,
    ) < 0 by {
        assert(b@[b.idxes@[i] as int].0 == a@[a.idxes@[i] as int].0);
        assert(b@[b.idxes@[j] as int].0 == a@[a.idxes@[j] as int].0);
        assert(lex_cmp(a@[a.idxes@[i] as int].0, a@[a.idxes@[j] as int].0) < 0);
    }
    assert forall|p: int| 0 <= p < b.pairs@.len() implies #[trigger] b.covered(p) by {
        assert(a.covered(p));
        let i = choose|i: int| 0 <= i < a.idxes@.len() && (#[trigger] a.idxes@[i]) == p;
        assert(b.idxes@[i] == p);
    }
    assert forall|p: int, q: int| 0 <= p < q < b@.len() implies b@[p].0 != b@[q].0 by {
        assert(a@[p].0 != a@[q].0);
    }
}

/// Trait for types that can add properties to a [`Properties`] map.
pub trait PropertiesSource {
    /// Adds properties that apply to a file at the specified path to the
    /// provided map.
    fn apply_to(&self, props: &mut Properties, path: &str) -> (r: Result<
        (),
        crate::error::Error,
    >)
        requires
            old(props).wf(),
        ensures
            final(props).wf(),
    ;
}

impl PropertiesSource for Properties {
    /// Adds every pair with a non-empty value, in order; the path plays
    /// no part and the call never fails.
    fn apply_to(&self, props: &mut Properties, _path: &str) -> (r: Result<
        (),
        crate::error::Error,
    >) {
        let items = self.iter();
        props.extend(items);
        Ok(())
    }
}

/// What adding a run of pairs in order yields.
pub open spec fn spec_extend(ps: PairsV, items: PairsV) -> PairsV
    decreases items.len(),
{
    if items.len() == 0 {
        ps
    } else {
        spec_extend(spec_set_pair(ps, items[0].0, items[0].1), items.drop_first())
    }
}

} // verus!
