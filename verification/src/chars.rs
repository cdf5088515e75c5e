//! Character-sequence helpers shared by the parsers and the glob engine.
//!
//! All of the logic in this crate works on `Vec<char>` values; these helpers
//! bridge between `&str` inputs and those character vectors, and give names
//! to the few character classifications that only the standard library can
//! compute.

use vstd::prelude::*;

verus! {

use vstd::std_specs::iter::IteratorSpec;

/// Whether the standard library classifies `c` as numeric (Unicode `Nd`,
/// `Nl` or `No`).
pub uninterp spec fn is_numeric_char(c: char) -> bool;

/// Whether the standard library classifies `c` as lowercase (Unicode `Ll`).
pub uninterp spec fn is_lowercase_char(c: char) -> bool;

/// Whether the standard library classifies `c` as whitespace (the Unicode
/// `White_Space` property).
pub uninterp spec fn is_whitespace_char(c: char) -> bool;

/// The Unicode lowercase mapping of a character sequence, as
/// `str::to_lowercase` computes it.
pub uninterp spec fn lower_of(s: Seq<char>) -> Seq<char>;

/// Collects the characters of a string slice into a vector.
pub fn str_chars(s: &str) -> (r: Vec<char>)
    ensures
        r@ == s@,
{
    broadcast use vstd::string::group_string_axioms;

    let mut r: Vec<char> = Vec::new();
    let mut it = s.chars();
    let ghost all = s@;
    loop
        invariant
            it.obeys_prophetic_iter_laws(),
            it.decrease() is Some,
            r@ + it.remaining() == all,
        ensures
            r@ == all,
        decreases it.decrease()->0,
    {
        match it.next() {
            Some(c) => {
                r.push(c);
            },
            None => {
                proof {
                    assert(r@ =~= all);
                }
                break ;
            },
        }
    }
    r
}

/// Appends one character to a string.
///
/// Relies on `String::push`: the character is appended in place.
#[verifier::external_body]
pub fn push_char(s: &mut String, c: char)
    ensures
        final(s)@ == old(s)@.push(c),
{
    s.push(c);
}

/// Builds a string from a sequence of characters.
pub fn chars_string(v: &Vec<char>) -> (r: String)
    ensures
        r@ == v@,
{
    let mut r = String::new();
    let mut i: usize = 0;
    let n = v.len();
    while i < n
        invariant
            i <= n,
            n == v@.len(),
            r@ == v@.subrange(0, i as int),
        decreases n - i,
    {
        push_char(&mut r, v[i]);
        proof {
            assert(v@.subrange(0, i as int).push(v@[i as int]) =~= v@.subrange(0, i + 1 as int));
        }
        i += 1;
    }
    proof {
        assert(v@.subrange(0, n as int) =~= v@);
    }
    r
}

/// Converts a Unicode scalar value to a character.
///
/// Relies on `char::from_u32`: `Some` exactly for values that are not
/// surrogates and not above the Unicode maximum, and the returned character
/// has the given scalar value.
#[verifier::external_body]
pub fn char_from_u32(code: u32) -> (r: Option<char>)
    ensures
        (code < 0xD800 || (0xE000 <= code && code <= 0x10FFFF)) <==> r is Some,
        r is Some ==> (r->0 as u32) == code,
        r is Some ==> r->0 == (code as char),
{
    char::from_u32(code)
}

/// Whether the standard library classifies `c` as numeric.
///
/// Relies on `char::is_numeric`: the result depends on the character alone.
/// The ASCII digits are numeric; `-` and `/` are not.
#[verifier::external_body]
pub fn char_is_numeric(c: char) -> (r: bool)
    ensures
        r == is_numeric_char(c),
        ('0' <= c && c <= '9') ==> r,
        c == '-' ==> !r,
        c == '/' ==> !r,
{
    c.is_numeric()
}

/// Whether the standard library classifies `c` as lowercase.
///
/// Relies on `char::is_lowercase`: the result depends on the character alone.
#[verifier::external_body]
pub fn char_is_lowercase(c: char) -> (r: bool)
    ensures
        r == is_lowercase_char(c),
{
    c.is_lowercase()
}

/// Whether the standard library classifies `c` as whitespace.
///
/// Relies on `char::is_whitespace`: the result depends on the character
/// alone. The blank, tab, line feed and carriage return are whitespace;
/// the ASCII graphic characters are not.
#[verifier::external_body]
pub fn char_is_whitespace(c: char) -> (r: bool)
    ensures
        r == is_whitespace_char(c),
        (c == ' ' || c == '\t' || c == '\n' || c == '\r') ==> r,
        ('!' <= c && c <= '~') ==> !r,
{
    c.is_whitespace()
}

/// Builds a string from part of a character vector.
pub fn chars_string_range(v: &Vec<char>, from: usize, to: usize) -> (r: String)
    requires
        from <= to <= v@.len(),
    ensures
        r@ == v@.subrange(from as int, to as int),
{
    let mut r = String::new();
    let mut i: usize = from;
    while i < to
        invariant
            from <= i <= to <= v@.len(),
            r@ == v@.subrange(from as int, i as int),
        decreases to - i,
    {
        push_char(&mut r, v[i]);
        proof {
            assert(v@.subrange(from as int, i as int).push(v@[i as int]) =~= v@.subrange(
                from as int,
                i + 1 as int,
            ));
        }
        i += 1;
    }
    r
}

/// Lowercases a string.
///
/// Relies on `str::to_lowercase`: the result depends on the characters
/// alone, and an empty string stays empty.
#[verifier::external_body]
pub fn str_to_lowercase(s: &str) -> (r: String)
    ensures
        r@ == lower_of(s@),
        s@.len() == 0 ==> r@.len() == 0,
{
    s.to_lowercase()
}

/// Whether two strings hold the same characters.
pub fn str_eq(a: &str, b: &str) -> (r: bool)
    ensures
        r == (a@ == b@),
{
    let av = str_chars(a);
    let bv = str_chars(b);
    let r = chars_eq(&av, &bv);
    proof {
        if av@ =~= bv@ {
            assert(a@ == b@);
        }
    }
    r
}

/// Whether two character vectors are equal.
pub fn chars_eq(a: &Vec<char>, b: &Vec<char>) -> (r: bool)
    ensures
        r == (a@ == b@),
{
    if a.len() != b.len() {
        return false;
    }
    let n = a.len();
    let mut i: usize = 0;
    while i < n
        invariant
            i <= n,
            n == a@.len() == b@.len(),
            forall|k: int| 0 <= k < i ==> a@[k] == b@[k],
        decreases n - i,
    {
        if a[i] != b[i] {
            return false;
        }
        i += 1;
    }
    proof {
        assert(a@ =~= b@);
    }
    true
}

/// The lowercase form of an ASCII character; other characters unchanged.
pub open spec fn spec_ascii_lower(c: char) -> char {
    if 'A' <= c && c <= 'Z' {
        ((c as u32) + 32) as char
    } else {
        c
    }
}

/// Lowercases one ASCII letter; other characters are returned unchanged.
pub fn ascii_lower(c: char) -> (r: char)
    ensures
        r == spec_ascii_lower(c),
{
    if 'A' <= c && c <= 'Z' {
        let code = (c as u32) + 32;
        match char_from_u32(code) {
            Some(l) => l,
            None => {
                proof {
                    assert(false);
                }
                c
            },
        }
    } else {
        c
    }
}

/// Whether the character vectors are equal up to ASCII case.
pub open spec fn spec_eq_ignore_ascii_case(a: Seq<char>, b: Seq<char>) -> bool {
    a.map_values(|c: char| spec_ascii_lower(c)) == b.map_values(|c: char| spec_ascii_lower(c))
}

/// Compares two character vectors case-insensitively over ASCII.
pub fn chars_eq_ignore_ascii_case(a: &Vec<char>, b: &Vec<char>) -> (r: bool)
    ensures
        r == spec_eq_ignore_ascii_case(a@, b@),
{
    let ghost la = a@.map_values(|c: char| spec_ascii_lower(c));
    let ghost lb = b@.map_values(|c: char| spec_ascii_lower(c));
    if a.len() != b.len() {
        proof {
            assert(la.len() != lb.len());
        }
        return false;
    }
    let n = a.len();
    let mut i: usize = 0;
    while i < n
        invariant
            i <= n,
            n == a@.len() == b@.len(),
            la == a@.map_values(|c: char| spec_ascii_lower(c)),
            lb == b@.map_values(|c: char| spec_ascii_lower(c)),
            forall|k: int| 0 <= k < i ==> la[k] == lb[k],
        decreases n - i,
    {
        if ascii_lower(a[i]) != ascii_lower(b[i]) {
            proof {
                assert(la[i as int] != lb[i as int]);
            }
            return false;
        }
        i += 1;
    }
    proof {
        assert(la =~= lb);
    }
    true
}

/// The integer value of a sequence of ASCII digits read most significant
/// first; not defined to fit any machine range.
pub open spec fn digits_value(s: Seq<char>) -> int
    decreases s.len(),
{
    if s.len() == 0 {
        0
    } else {
        digits_value(s.drop_last()) * 10 + (s.last() as u32 - '0' as u32)
    }
}

/// Whether every character is an ASCII digit.
pub open spec fn all_digits(s: Seq<char>) -> bool {
    forall|k: int| 0 <= k < s.len() ==> '0' <= #[trigger] s[k] && s[k] <= '9'
}

/// The signed-integer reading of a character sequence, exactly as
/// `isize::from_str` accepts it: an optional sign followed by one or more
/// ASCII digits, rejecting anything else and any value outside the range.
pub open spec fn spec_parse_isize(s: Seq<char>) -> Option<isize> {
    let (neg, digits) = if s.len() > 0 && (s[0] == '-' || s[0] == '+') {
        (s[0] == '-', s.drop_first())
    } else {
        (false, s)
    };
    if digits.len() == 0 || !all_digits(digits) {
        None
    } else {
        let v = if neg {
            -digits_value(digits)
        } else {
            digits_value(digits)
        };
        if isize::MIN <= v <= isize::MAX {
            Some(v as isize)
        } else {
            None
        }
    }
}

/// Parses a signed integer from characters, exactly as `isize::from_str`
/// would parse the same text.
pub fn parse_isize(s: &Vec<char>) -> (r: Option<isize>)
    ensures
        r == spec_parse_isize(s@),
{
    let n = s.len();
    let mut start: usize = 0;
    let mut neg = false;
    if n > 0 && (s[0] == '-' || s[0] == '+') {
        neg = s[0] == '-';
        start = 1;
    }
    let ghost digits = if start == 1 {
        s@.drop_first()
    } else {
        s@
    };
    if start >= n {
        return None;
    }
    // Accumulate the magnitude negated, since `isize::MIN` has no positive
    // counterpart.
    let mut acc: isize = 0;
    let mut i: usize = start;
    while i < n
        invariant
            start <= i <= n,
            n == s@.len(),
            start == 0 || start == 1,
            (start == 1) == (n > 0 && (s@[0] == '-' || s@[0] == '+')),
            neg == (start == 1 && s@[0] == '-'),
            digits == if start == 1 {
                s@.drop_first()
            } else {
                s@
            },
            all_digits(digits.subrange(0, i - start)),
            acc == -digits_value(digits.subrange(0, i - start)),
            isize::MIN <= acc <= 0,
        decreases n - i,
    {
        let c = s[i];
        if !('0' <= c && c <= '9') {
            proof {
                assert(digits[i - start] == c);
                assert(!all_digits(digits));
            }
            return None;
        }
        let d = (c as u32 - '0' as u32) as isize;
        let stepped = match acc.checked_mul(10) {
            Some(t) => t.checked_sub(d),
            None => None,
        };
        proof {
            assert(digits.subrange(0, i - start + 1).drop_last() =~= digits.subrange(0, i - start));
            assert(digits.subrange(0, i - start + 1).last() == c);
        }
        match stepped {
            None => {
                proof {
                    let ext = digits.subrange(0, i - start + 1);
                    let pre = digits.subrange(0, i - start);
                    assert(digits_value(ext) == digits_value(pre) * 10 + (c as u32 - '0' as u32));
                    assert(acc * 10 - d < isize::MIN);
                    assert(digits_value(pre) == -acc);
                    assert(digits_value(ext) == -(acc * 10) + d);
                    assert(digits_value(ext) > isize::MAX);
                    if spec_parse_isize(s@) is Some {
                        assert(all_digits(digits));
                        assert(all_digits(ext)) by {
                            assert(forall|k: int| 0 <= k < ext.len() ==> ext[k] == digits[k]);
                        }
                        lemma_digits_prefix_bound(digits, i - start + 1);
                        assert(digits_value(digits) >= digits_value(ext));
                        assert(false);
                    }
                }
                return None;
            },
            Some(t) => {
                acc = t;
            },
        }
        i += 1;
    }
    proof {
        assert(digits.subrange(0, n - start) =~= digits);
        assert(all_digits(digits));
    }
    if neg {
        proof {
            assert(-digits_value(digits) == acc);
        }
        Some(acc)
    } else {
        if acc == isize::MIN {
            proof {
                assert(digits_value(digits) == -(isize::MIN as int));
                assert(digits_value(digits) > isize::MAX);
            }
            return None;
        }
        Some(-acc)
    }
}

/// A run of ASCII digits has a non-negative value.
proof fn lemma_digits_nonneg(s: Seq<char>)
    requires
        all_digits(s),
    ensures
        digits_value(s) >= 0,
    decreases s.len(),
{
    if s.len() > 0 {
        assert(all_digits(s.drop_last())) by {
            assert(forall|k: int| 0 <= k < s.len() - 1 ==> s.drop_last()[k] == s[k]);
        }
        lemma_digits_nonneg(s.drop_last());
    }
}

/// Extending a digit run multiplies its value by at least ten.
proof fn lemma_digits_prefix_bound(s: Seq<char>, i: int)
    requires
        all_digits(s),
        0 < i <= s.len(),
    ensures
        digits_value(s) >= digits_value(s.subrange(0, i)),
    decreases s.len() - i,
{
    if i == s.len() {
        assert(s.subrange(0, i) =~= s);
    } else {
        lemma_digits_prefix_bound(s, i + 1);
        assert(s.subrange(0, i + 1).drop_last() =~= s.subrange(0, i));
        assert(all_digits(s.subrange(0, i))) by {
            assert(forall|k: int| 0 <= k < i ==> s.subrange(0, i)[k] == s[k]);
        }
        lemma_digits_nonneg(s.subrange(0, i));
        assert(digits_value(s.subrange(0, i + 1)) == digits_value(s.subrange(0, i)) * 10 + (
        s.subrange(0, i + 1).last() as u32 - '0' as u32));
        assert(digits_value(s.subrange(0, i)) * 10 >= digits_value(s.subrange(0, i))) by (
        nonlinear_arith)
            requires
                digits_value(s.subrange(0, i)) >= 0,
        ;
    }
}

} // verus!

verus! {

/// Lexicographic three-way comparison of character sequences by scalar
/// value, as the standard library orders strings: negative for less, zero
/// for equal, positive for greater.
pub open spec fn lex_cmp(a: Seq<char>, b: Seq<char>) -> int
    decreases a.len(),
{
    if a.len() == 0 && b.len() == 0 {
        0
    } else if a.len() == 0 {
        -1
    } else if b.len() == 0 {
        1
    } else if (a[0] as u32) < (b[0] as u32) {
        -1
    } else if (a[0] as u32) > (b[0] as u32) {
        1
    } else {
        lex_cmp(a.drop_first(), b.drop_first())
    }
}

/// Two distinct characters have distinct scalar values.
pub proof fn lemma_char_injective(a: char, b: char)
    ensures
        (a as u32) == (b as u32) ==> a == b,
{
}

/// Sequences compare as equal exactly when they are equal.
pub proof fn lemma_lex_cmp_eq(a: Seq<char>, b: Seq<char>)
    ensures
        (lex_cmp(a, b) == 0) <==> (a == b),
    decreases a.len(),
{
    if a.len() == 0 && b.len() == 0 {
        assert(a =~= b);
    } else if a.len() > 0 && b.len() > 0 {
        if (a[0] as u32) == (b[0] as u32) {
            lemma_char_injective(a[0], b[0]);
            assert(a[0] == b[0]);
            lemma_lex_cmp_eq(a.drop_first(), b.drop_first());
            if a.drop_first() == b.drop_first() && a[0] == b[0] {
                assert(a =~= b) by {
                    assert forall|i: int| 0 <= i < a.len() implies a[i] == b[i] by {
                        if i > 0 {
                            assert(a[i] == a.drop_first()[i - 1]);
                            assert(b[i] == b.drop_first()[i - 1]);
                        }
                    }
                }
            }
            if a == b {
                assert(a.drop_first() =~= b.drop_first());
            }
        } else {
            if a == b {
                assert(a[0] == b[0]);
            }
        }
    }
}

/// Comparison is antisymmetric: swapping the arguments flips the sign.
pub proof fn lemma_lex_cmp_antisym(a: Seq<char>, b: Seq<char>)
    ensures
        lex_cmp(a, b) == -lex_cmp(b, a),
    decreases a.len(),
{
    if a.len() > 0 && b.len() > 0 {
        if (a[0] as u32) == (b[0] as u32) {
            lemma_lex_cmp_antisym(a.drop_first(), b.drop_first());
        }
    }
}

/// Comparison is transitive across strict less-than.
pub proof fn lemma_lex_cmp_trans(a: Seq<char>, b: Seq<char>, c: Seq<char>)
    requires
        lex_cmp(a, b) < 0,
        lex_cmp(b, c) < 0,
    ensures
        lex_cmp(a, c) < 0,
    decreases a.len(),
{
    if a.len() == 0 {
        assert(b.len() > 0);
        assert(c.len() > 0);
    } else {
        assert(b.len() > 0);
        assert(c.len() > 0);
        if (a[0] as u32) == (b[0] as u32) && (b[0] as u32) == (c[0] as u32) {
            lemma_char_injective(a[0], b[0]);
            lemma_lex_cmp_trans(a.drop_first(), b.drop_first(), c.drop_first());
        }
    }
}

/// Three-way comparison of character vectors in lexicographic order.
pub fn chars_cmp(a: &Vec<char>, b: &Vec<char>) -> (r: i8)
    ensures
        r as int == lex_cmp(a@, b@),
{
    let an = a.len();
    let bn = b.len();
    let mut i: usize = 0;
    proof {
        assert(a@.skip(0) =~= a@);
        assert(b@.skip(0) =~= b@);
    }
    loop
        invariant
            i <= an,
            i <= bn,
            an == a@.len(),
            bn == b@.len(),
            lex_cmp(a@, b@) == lex_cmp(a@.skip(i as int), b@.skip(i as int)),
        decreases an - i,
    {
        proof {
            if i < an && i < bn {
                assert(a@.skip(i as int)[0] == a@[i as int]);
                assert(b@.skip(i as int)[0] == b@[i as int]);
                assert(a@.skip(i as int).drop_first() =~= a@.skip(i + 1 as int));
                assert(b@.skip(i as int).drop_first() =~= b@.skip(i + 1 as int));
            }
        }
        if i >= an && i >= bn {
            return 0;
        }
        if i >= an {
            return -1;
        }
        if i >= bn {
            return 1;
        }
        let x = a[i];
        let y = b[i];
        if (x as u32) < (y as u32) {
            return -1;
        }
        if (x as u32) > (y as u32) {
            return 1;
        }
        i += 1;
    }
}

} // verus!

verus! {

/// The unsigned reading of a character sequence, exactly as
/// `usize::from_str` accepts it: an optional plus sign followed by one or
/// more ASCII digits, rejecting anything else and any value out of range.
pub open spec fn spec_parse_usize(s: Seq<char>) -> Option<usize> {
    let digits = if s.len() > 0 && s[0] == '+' {
        s.drop_first()
    } else {
        s
    };
    if digits.len() == 0 || !all_digits(digits) {
        None
    } else {
        let v = digits_value(digits);
        if v <= usize::MAX {
            Some(v as usize)
        } else {
            None
        }
    }
}

/// Parses an unsigned integer from characters, exactly as
/// `usize::from_str` would parse the same text.
pub fn parse_usize(s: &Vec<char>) -> (r: Option<usize>)
    ensures
        r == spec_parse_usize(s@),
{
    let n = s.len();
    let mut start: usize = 0;
    if n > 0 && s[0] == '+' {
        start = 1;
    }
    let ghost digits = if start == 1 {
        s@.drop_first()
    } else {
        s@
    };
    if start >= n {
        return None;
    }
    let mut acc: usize = 0;
    let mut i: usize = start;
    while i < n
        invariant
            start <= i <= n,
            n == s@.len(),
            start == 0 || start == 1,
            (start == 1) == (n > 0 && s@[0] == '+'),
            digits == if start == 1 {
                s@.drop_first()
            } else {
                s@
            },
            all_digits(digits.subrange(0, i - start)),
            acc == digits_value(digits.subrange(0, i - start)),
        decreases n - i,
    {
        let c = s[i];
        if !('0' <= c && c <= '9') {
            proof {
                assert(digits[i - start] == c);
                assert(!all_digits(digits));
            }
            return None;
        }
        let d = (c as u32 - '0' as u32) as usize;
        let stepped = match acc.checked_mul(10) {
            Some(t) => t.checked_add(d),
            None => None,
        };
        proof {
            assert(digits.subrange(0, i - start + 1).drop_last() =~= digits.subrange(0, i - start));
            assert(digits.subrange(0, i - start + 1).last() == c);
        }
        match stepped {
            None => {
                proof {
                    let ext = digits.subrange(0, i - start + 1);
                    assert(digits_value(ext) == acc * 10 + (c as u32 - '0' as u32));
                    assert(digits_value(ext) > usize::MAX);
                    if spec_parse_usize(s@) is Some {
                        assert(all_digits(digits));
                        assert(all_digits(ext)) by {
                            assert(forall|k: int| 0 <= k < ext.len() ==> ext[k] == digits[k]);
                        }
                        lemma_digits_prefix_bound(digits, i - start + 1);
                        assert(digits_value(digits) >= digits_value(ext));
                        assert(false);
                    }
                }
                return None;
            },
            Some(t) => {
                acc = t;
            },
        }
        i += 1;
    }
    proof {
        assert(digits.subrange(0, n - start) =~= digits);
        assert(all_digits(digits));
    }
    Some(acc)
}

/// The decimal writing of a non-negative integer: most significant digit
/// first, no leading zero unless the number is zero.
pub open spec fn spec_fmt_usize(v: int) -> Seq<char>
    decreases v,
{
    if v < 10 {
        seq![(('0' as u32) + v as u32) as char]
    } else {
        spec_fmt_usize(v / 10).push((('0' as u32) + (v % 10) as u32) as char)
    }
}

/// Writes an unsigned integer in decimal.
pub fn usize_string(v: usize) -> (r: String)
    ensures
        r@ == spec_fmt_usize(v as int),
    decreases v,
{
    if v < 10 {
        let code = ('0' as u32) + (v as u32);
        match char_from_u32(code) {
            Some(c) => {
                let mut s = String::new();
                push_char(&mut s, c);
                proof {
                    assert(s@ =~= seq![(('0' as u32) + v as u32) as char]);
                }
                s
            },
            None => {
                proof {
                    assert(false);
                }
                String::new()
            },
        }
    } else {
        let mut s = usize_string(v / 10);
        let code = ('0' as u32) + ((v % 10) as u32);
        match char_from_u32(code) {
            Some(c) => {
                push_char(&mut s, c);
                s
            },
            None => {
                proof {
                    assert(false);
                }
                s
            },
        }
    }
}

/// The uppercase form of an ASCII character; other characters unchanged.
pub open spec fn spec_ascii_upper(c: char) -> char {
    if 'a' <= c && c <= 'z' {
        ((c as u32) - 32) as char
    } else {
        c
    }
}

/// Uppercases one ASCII letter; other characters are returned unchanged.
pub fn ascii_upper(c: char) -> (r: char)
    ensures
        r == spec_ascii_upper(c),
{
    if 'a' <= c && c <= 'z' {
        let code = (c as u32) - 32;
        match char_from_u32(code) {
            Some(u) => u,
            None => {
                proof {
                    assert(false);
                }
                c
            },
        }
    } else {
        c
    }
}

} // verus!
