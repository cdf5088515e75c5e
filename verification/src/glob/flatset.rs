//! A minimal sorted-vector set with binary-search membership testing.

use vstd::prelude::*;

verus! {

/// Whether `s` is strictly sorted by Unicode scalar value (hence duplicate-free).
pub open spec fn strictly_sorted(s: Seq<char>) -> bool {
    forall|i: int, j: int| 0 <= i < j < s.len() ==> (s[i] as u32) < (s[j] as u32)
}

/// `s` with `c` inserted at its sorted position, unless already present.
pub open spec fn spec_insert(s: Seq<char>, c: char) -> Seq<char>
    decreases s.len(),
{
    if s.len() == 0 {
        seq![c]
    } else if (s[0] as u32) < (c as u32) {
        seq![s[0]] + spec_insert(s.drop_first(), c)
    } else if s[0] == c {
        s
    } else {
        seq![c] + s
    }
}

/// Whether `code` is a Unicode scalar value: not a surrogate, not above
/// the maximum.
pub open spec fn valid_scalar(code: int) -> bool {
    (0 <= code && code < 0xD800) || (0xE000 <= code && code <= 0x10FFFF)
}

/// `s` with every character of the inclusive scalar range inserted;
/// surrogate code points are passed over.
pub open spec fn spec_insert_range(s: Seq<char>, lo: int, hi: int) -> Seq<char>
    decreases hi + 1 - lo,
{
    if lo > hi {
        s
    } else if valid_scalar(lo) {
        spec_insert_range(spec_insert(s, ((lo as u32) as char)), lo + 1, hi)
    } else {
        spec_insert_range(s, lo + 1, hi)
    }
}

/// `s` with the first occurrence of `c` removed.
pub open spec fn spec_remove(s: Seq<char>, c: char) -> Seq<char>
    decreases s.len(),
{
    if s.len() == 0 {
        s
    } else if s[0] == c {
        s.drop_first()
    } else {
        seq![s[0]] + spec_remove(s.drop_first(), c)
    }
}

/// Two distinct characters have distinct scalar values.
proof fn lemma_char_scalar_injective(a: char, b: char)
    ensures
        (a as u32) == (b as u32) ==> a == b,
{
}

/// Locates `spec_insert`'s result: inserting at the first position whose
/// character is not below `c`.
proof fn lemma_insert_at(s: Seq<char>, c: char, i: int)
    requires
        strictly_sorted(s),
        0 <= i <= s.len(),
        forall|k: int| 0 <= k < i ==> (s[k] as u32) < (c as u32),
        i < s.len() ==> (s[i] as u32) >= (c as u32),
    ensures
        i < s.len() && s[i] == c ==> spec_insert(s, c) == s,
        !(i < s.len() && s[i] == c) ==> spec_insert(s, c) == s.insert(i, c),
    decreases i,
{
    if i == 0 {
        if s.len() == 0 {
            assert(spec_insert(s, c) =~= s.insert(0, c));
        } else if s[0] == c {
        } else {
            lemma_char_scalar_injective(s[0], c);
            assert(!((s[0] as u32) < (c as u32)));
            assert(spec_insert(s, c) =~= s.insert(0, c));
        }
    } else {
        assert((s[0] as u32) < (c as u32));
        let t = s.drop_first();
        assert(strictly_sorted(t)) by {
            assert forall|x: int, y: int| 0 <= x < y < t.len() implies (t[x] as u32) < (t[y] as u32) by {
                assert(t[x] == s[x + 1]);
                assert(t[y] == s[y + 1]);
            }
        }
        lemma_insert_at(t, c, i - 1);
        if i < s.len() && s[i] == c {
            assert(t[i - 1] == c);
            assert(spec_insert(s, c) =~= seq![s[0]] + t);
            assert(seq![s[0]] + t =~= s);
        } else {
            assert(spec_insert(s, c) =~= seq![s[0]] + t.insert(i - 1, c));
            assert(seq![s[0]] + t.insert(i - 1, c) =~= s.insert(i, c));
        }
    }
}

/// Locates `spec_remove`'s result: removing at the position holding `c`,
/// or leaving the sequence unchanged when `c` is absent.
proof fn lemma_remove_at(s: Seq<char>, c: char, i: int)
    requires
        strictly_sorted(s),
        0 <= i <= s.len(),
        forall|k: int| 0 <= k < i ==> s[k] != c,
    ensures
        i < s.len() && s[i] == c ==> spec_remove(s, c) == s.remove(i),
        (forall|k: int| 0 <= k < s.len() ==> s[k] != c) ==> spec_remove(s, c) == s,
    decreases s.len(),
{
    if s.len() == 0 {
    } else if s[0] == c {
        assert(i == 0);
        assert(spec_remove(s, c) =~= s.remove(0));
    } else {
        let t = s.drop_first();
        assert(strictly_sorted(t)) by {
            assert forall|x: int, y: int| 0 <= x < y < t.len() implies (t[x] as u32) < (t[y] as u32) by {
                assert(t[x] == s[x + 1]);
                assert(t[y] == s[y + 1]);
            }
        }
        if i < s.len() && s[i] == c {
            lemma_remove_at(t, c, i - 1);
            assert(t[i - 1] == c);
            assert(spec_remove(s, c) =~= seq![s[0]] + t.remove(i - 1));
            assert(seq![s[0]] + t.remove(i - 1) =~= s.remove(i));
        } else {
            if forall|k: int| 0 <= k < s.len() ==> s[k] != c {
                assert(forall|k: int| 0 <= k < t.len() ==> t[k] != s[k + 1] || s[k + 1] != c);
                assert(forall|k: int| 0 <= k < t.len() ==> t[k] != c);
                lemma_remove_at(t, c, t.len() as int);
                assert(spec_remove(s, c) =~= seq![s[0]] + t);
                assert(seq![s[0]] + t =~= s);
            }
        }
    }
}

/// A compact character set: a sorted, deduplicated vector with
/// binary-search membership testing.
#[derive(Clone, Debug)]
pub struct FlatSet(Vec<char>);

impl FlatSet {
    /// The set's contents in sorted order.
    pub closed spec fn view(&self) -> Seq<char> {
        self.0@
    }

    /// Well-formedness: the backing vector is strictly sorted.
    pub closed spec fn wf(&self) -> bool {
        strictly_sorted(self.0@)
    }

    /// Returns an empty set.
    pub fn new() -> (r: FlatSet)
        ensures
            r.wf(),
            r@ == Seq::<char>::empty(),
    {
        FlatSet(Vec::new())
    }

    /// The number of characters in the set.
    pub fn len(&self) -> (r: usize)
        ensures
            r == self@.len(),
    {
        self.0.len()
    }

    /// A view of the sorted backing vector.
    pub fn as_slice(&self) -> (r: &[char])
        ensures
            r@ == self@,
    {
        self.0.as_slice()
    }

    /// The character at the given position in sorted order.
    pub fn index(&self, i: usize) -> (r: char)
        requires
            i < self@.len(),
        ensures
            r == self@[i as int],
    {
        self.0[i]
    }

    /// Inserts a character, keeping the vector sorted; a character already
    /// present is not duplicated.
    pub fn insert(&mut self, c: char)
        requires
            old(self).wf(),
        ensures
            final(self).wf(),
            final(self)@ == spec_insert(old(self)@, c),
    {
        let ghost s = self.0@;
        let mut i: usize = 0;
        let n = self.0.len();
        while i < n
            invariant
                i <= n,
                n == self.0@.len(),
                self.0@ == s,
                s == old(self)@,
                strictly_sorted(s),
                forall|k: int| 0 <= k < i ==> (s[k] as u32) < (c as u32),
            decreases n - i,
        {
            let x = self.0[i];
            if x == c {
                proof {
                    lemma_insert_at(s, c, i as int);
                }
                return ;
            }
            if (x as u32) > (c as u32) {
                self.0.insert(i, c);
                proof {
                    lemma_insert_at(s, c, i as int);
                    lemma_char_scalar_injective(x, c);
                    assert(strictly_sorted(s.insert(i as int, c))) by {
                        assert(forall|k: int|
                            0 <= k < s.len() && k >= i ==> (s[k] as u32) >= (s[i as int] as u32));
                    }
                }
                return ;
            }
            proof {
                lemma_char_scalar_injective(x, c);
            }
            i += 1;
        }
        self.0.push(c);
        proof {
            lemma_insert_at(s, c, s.len() as int);
            assert(s.insert(s.len() as int, c) =~= s.push(c));
            assert(strictly_sorted(s.push(c)));
        }
    }

    /// Inserts every character of the inclusive range, as iterating the
    /// characters from `lo` to `hi` would yield them.
    pub fn insert_range(&mut self, lo: char, hi: char)
        requires
            old(self).wf(),
        ensures
            final(self).wf(),
            final(self)@ == spec_insert_range(old(self)@, lo as int, hi as int),
    {
        let mut code: u32 = lo as u32;
        let hi32: u32 = hi as u32;
        if code > hi32 {
            return ;
        }
        loop
            invariant
                self.wf(),
                code <= hi32 + 1,
                hi32 == hi as u32,
                hi32 <= 0x10FFFF,
                spec_insert_range(old(self)@, lo as int, hi as int) == spec_insert_range(
                    self@,
                    code as int,
                    hi32 as int,
                ),
            ensures
                spec_insert_range(old(self)@, lo as int, hi as int) == self@,
            decreases hi32 + 1 - code,
        {
            if code > hi32 {
                break ;
            }
            match crate::chars::char_from_u32(code) {
                Some(c) => {
                    proof {
                        assert(valid_scalar(code as int));
                    }
                    self.insert(c);
                },
                None => {
                    proof {
                        assert(!valid_scalar(code as int));
                    }
                },
            }
            code += 1;
        }
    }

    /// Removes a character if present, keeping the vector sorted.
    pub fn remove(&mut self, c: char)
        requires
            old(self).wf(),
        ensures
            final(self).wf(),
            final(self)@ == spec_remove(old(self)@, c),
    {
        let ghost s = self.0@;
        let mut i: usize = 0;
        let n = self.0.len();
        while i < n
            invariant
                i <= n,
                n == self.0@.len(),
                self.0@ == s,
                s == old(self)@,
                strictly_sorted(s),
                forall|k: int| 0 <= k < i ==> s[k] != c,
            decreases n - i,
        {
            let x = self.0[i];
            if x == c {
                self.0.remove(i);
                proof {
                    lemma_remove_at(s, c, i as int);
                    assert(strictly_sorted(s.remove(i as int)));
                }
                return ;
            }
            if (x as u32) > (c as u32) {
                proof {
                    assert(forall|k: int|
                        i < k < s.len() ==> (s[k] as u32) > (s[i as int] as u32));
                    assert(forall|k: int| 0 <= k < s.len() ==> s[k] != c) by {
                        lemma_char_scalar_injective(x, c);
                        assert(forall|k: int| i <= k < s.len() ==> (s[k] as u32) > (c as u32)
                            || k == i);
                    }
                    lemma_remove_at(s, c, 0);
                }
                return ;
            }
            i += 1;
        }
        proof {
            lemma_remove_at(s, c, 0);
        }
    }

    /// Whether two sets hold the same characters in the same order.
    pub fn same(&self, other: &FlatSet) -> (r: bool)
        ensures
            r == (self@ == other@),
    {
        if self.0.len() != other.0.len() {
            return false;
        }
        let n = self.0.len();
        let mut i: usize = 0;
        while i < n
            invariant
                i <= n,
                n == self.0@.len() == other.0@.len(),
                forall|k: int| 0 <= k < i ==> self.0@[k] == other.0@[k],
            decreases n - i,
        {
            if self.0[i] != other.0[i] {
                return false;
            }
            i += 1;
        }
        proof {
            assert(self.0@ =~= other.0@);
        }
        true
    }

    /// Returns `true` if the set contains `c`, by linear scan; unlike
    /// `contains` this asks nothing of the vector's order, so the
    /// evaluator can apply any program value handed to it.
    pub fn member(&self, c: char) -> (r: bool)
        ensures
            r == self@.contains(c),
    {
        let n = self.0.len();
        let mut i: usize = 0;
        while i < n
            invariant
                i <= n,
                n == self.0@.len(),
                forall|k: int| 0 <= k < i ==> self.0@[k] != c,
            decreases n - i,
        {
            if self.0[i] == c {
                return true;
            }
            i += 1;
        }
        false
    }

    /// Returns `true` if the set contains `c`, by binary search.
    pub fn contains(&self, c: char) -> (r: bool)
        requires
            self.wf(),
        ensures
            r == self@.contains(c),
    {
        let ghost s = self.0@;
        let mut lo: usize = 0;
        let mut hi: usize = self.0.len();
        while lo < hi
            invariant
                lo <= hi <= s.len(),
                self.0@ == s,
                strictly_sorted(s),
                forall|k: int| 0 <= k < lo ==> (s[k] as u32) < (c as u32),
                forall|k: int| hi <= k < s.len() ==> (s[k] as u32) > (c as u32),
            decreases hi - lo,
        {
            let mid = lo + (hi - lo) / 2;
            let x = self.0[mid];
            if x == c {
                return true;
            } else if (x as u32) < (c as u32) {
                lo = mid + 1;
            } else {
                proof {
                    lemma_char_scalar_injective(x, c);
                }
                hi = mid;
            }
        }
        proof {
            assert(forall|k: int| 0 <= k < s.len() ==> s[k] != c) by {
                assert(forall|k: int|
                    0 <= k < s.len() ==> (s[k] as u32) < (c as u32) || (s[k] as u32) > (c
                        as u32));
            }
        }
        false
    }
}

} // verus!
