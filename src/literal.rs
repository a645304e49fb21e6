use vstd::prelude::*;

verus! {

pub open spec fn is_digit(c: char) -> bool {
    '0' <= c && c <= '9'
}

pub open spec fn is_sign(c: char) -> bool {
    c == '+' || c == '-'
}

pub open spec fn is_exp_mark(c: char) -> bool {
    c == 'e' || c == 'E'
}

/// Every character is a decimal digit (the empty sequence included).
pub open spec fn all_digits(s: Seq<char>) -> bool {
    forall|i: int| 0 <= i < s.len() ==> is_digit(#[trigger] s[i])
}

/// One or more decimal digits.
pub open spec fn is_digits(s: Seq<char>) -> bool {
    s.len() > 0 && all_digits(s)
}

/// The sequence without one leading sign, if it has one.
pub open spec fn unsigned(s: Seq<char>) -> Seq<char> {
    if s.len() > 0 && is_sign(s[0]) {
        s.drop_first()
    } else {
        s
    }
}

/// `Digit+ | Digit+ '.' Digit* | Digit* '.' Digit+`
pub open spec fn is_mantissa(s: Seq<char>) -> bool {
    is_digits(s) || exists|i: int|
        0 <= i < s.len() && s[i] == '.' && all_digits(s.take(i)) && all_digits(s.skip(i + 1))
            && s.len() >= 2
}

/// `('e' | 'E') Sign? Digit+`
pub open spec fn is_exponent(s: Seq<char>) -> bool {
    s.len() >= 2 && is_exp_mark(s[0]) && is_digits(unsigned(s.drop_first()))
}

/// A mantissa with an optional exponent.
pub open spec fn is_number(s: Seq<char>) -> bool {
    is_mantissa(s) || exists|k: int|
        0 <= k < s.len() && is_mantissa(s.take(k)) && is_exponent(s.skip(k))
}

/// `c` is `w`, or the upper-case form of the ASCII letter `w`.
pub open spec fn same_ignoring_case(c: char, w: char) -> bool {
    c == w || ('A' <= c && c <= 'Z' && c as u32 + 32 == w as u32)
}

/// `s` spells the lower-case `w` in any mix of letter cases.
pub open spec fn spells(s: Seq<char>, w: Seq<char>) -> bool {
    s.len() == w.len() && forall|i: int| 0 <= i < s.len() ==> same_ignoring_case(#[trigger] s[i], w[i])
}

/// `inf`, `infinity` or `nan`, in any mix of letter cases.
pub open spec fn is_special(s: Seq<char>) -> bool {
    spells(s, seq!['i', 'n', 'f']) || spells(s, seq!['i', 'n', 'f', 'i', 'n', 'i', 't', 'y'])
        || spells(s, seq!['n', 'a', 'n'])
}

/// The text of a 64-bit floating-point literal, in the grammar that std documents for
/// reading an `f64` from a string: an optional sign, then a special value or a number.
pub open spec fn is_float_literal(s: Seq<char>) -> bool {
    is_special(unsigned(s)) || is_number(unsigned(s))
}

proof fn lemma_mantissa_has_no_exp_mark(s: Seq<char>)
    requires
        is_mantissa(s),
    ensures
        forall|j: int| 0 <= j < s.len() ==> !is_exp_mark(#[trigger] s[j]),
{
    if !is_digits(s) {
        let i = choose|i: int|
            0 <= i < s.len() && s[i] == '.' && all_digits(s.take(i)) && all_digits(s.skip(i + 1))
                && s.len() >= 2;
        assert forall|j: int| 0 <= j < s.len() implies !is_exp_mark(#[trigger] s[j]) by {
            if j < i {
                assert(s.take(i)[j] == s[j]);
            } else if j > i {
                assert(s.skip(i + 1)[j - i - 1] == s[j]);
            }
        }
    }
}

/// Whether `s[lo..hi]` is all decimal digits.
fn all_digits_in(s: &str, lo: usize, hi: usize) -> (r: bool)
    requires
        lo <= hi <= s@.len(),
    ensures
        r == all_digits(s@.subrange(lo as int, hi as int)),
{
    let mut i = lo;
    while i < hi
        invariant
            lo <= i <= hi <= s@.len(),
            forall|j: int| lo <= j < i ==> is_digit(#[trigger] s@[j]),
        decreases hi - i,
    {
        let c = s.get_char(i);
        if !('0' <= c && c <= '9') {
            assert(s@.subrange(lo as int, hi as int)[i - lo] == c);
            return false;
        }
        i = i + 1;
    }
    assert forall|j: int| 0 <= j < (hi - lo) implies is_digit(
        #[trigger] s@.subrange(lo as int, hi as int)[j],
    ) by {
        assert(s@.subrange(lo as int, hi as int)[j] == s@[lo + j]);
    }
    true
}

/// The first index in `lo..hi` that holds `a` or `b`, or `hi` if none does.
fn find_either(s: &str, lo: usize, hi: usize, a: char, b: char) -> (k: usize)
    requires
        lo <= hi <= s@.len(),
    ensures
        lo <= k <= hi,
        forall|j: int| lo <= j < k ==> #[trigger] s@[j] != a && s@[j] != b,
        k < hi ==> s@[k as int] == a || s@[k as int] == b,
{
    let mut i = lo;
    while i < hi
        invariant
            lo <= i <= hi <= s@.len(),
            forall|j: int| lo <= j < i ==> #[trigger] s@[j] != a && s@[j] != b,
        decreases hi - i,
    {
        let c = s.get_char(i);
        if c == a || c == b {
            return i;
        }
        i = i + 1;
    }
    i
}


/// Whether `s[lo..hi]` is a mantissa.
fn mantissa_in(s: &str, lo: usize, hi: usize) -> (r: bool)
    requires
        lo <= hi <= s@.len(),
    ensures
        r == is_mantissa(s@.subrange(lo as int, hi as int)),
{
    let ghost t = s@.subrange(lo as int, hi as int);
    let d = find_either(s, lo, hi, '.', '.');
    if d == hi {
        let r = hi > lo && all_digits_in(s, lo, hi);
        proof {
            if !r {
                assert forall|i: int| 0 <= i < t.len() implies t[i] != '.' by {
                    assert(t[i] == s@[lo + i]);
                }
            }
        }
        r
    } else {
        let r = hi - lo >= 2 && all_digits_in(s, lo, d) && all_digits_in(s, d + 1, hi);
        let ghost i = d - lo;
        assert(t[i] == '.');
        assert(t.take(i) =~= s@.subrange(lo as int, d as int));
        assert(t.skip(i + 1) =~= s@.subrange(d + 1, hi as int));
        proof {
            if !r {
                assert(!is_digits(t)) by {
                    assert(t[i] == '.');
                }
                assert forall|i2: int|
                    0 <= i2 < t.len() && t[i2] == '.' && all_digits(t.take(i2)) implies !(all_digits(
                        t.skip(i2 + 1),
                    ) && t.len() >= 2) by {
                    if i2 < i {
                        assert(t[i2] == s@[lo + i2]);
                    } else if i2 > i {
                        assert(t.take(i2)[i] == '.');
                    }
                }
            }
        }
        r
    }
}

/// Whether `s[lo..hi]` is an exponent.
fn exponent_in(s: &str, lo: usize, hi: usize) -> (r: bool)
    requires
        lo <= hi <= s@.len(),
    ensures
        r == is_exponent(s@.subrange(lo as int, hi as int)),
{
    let ghost t = s@.subrange(lo as int, hi as int);
    if hi - lo < 2 {
        return false;
    }
    let c = s.get_char(lo);
    assert(t[0] == c);
    if !(c == 'e' || c == 'E') {
        return false;
    }
    let sc = s.get_char(lo + 1);
    assert(t.drop_first()[0] == sc);
    let start = if sc == '+' || sc == '-' { lo + 2 } else { lo + 1 };
    assert(unsigned(t.drop_first()) =~= s@.subrange(start as int, hi as int));
    start < hi && all_digits_in(s, start, hi)
}

/// Whether `s[lo..hi]` is a number: a mantissa with an optional exponent.
fn number_in(s: &str, lo: usize, hi: usize) -> (r: bool)
    requires
        lo <= hi <= s@.len(),
    ensures
        r == is_number(s@.subrange(lo as int, hi as int)),
{
    let ghost t = s@.subrange(lo as int, hi as int);
    let k = find_either(s, lo, hi, 'e', 'E');
    let ghost kk = k - lo;
    assert(t.take(kk) =~= s@.subrange(lo as int, k as int));
    assert(t.skip(kk) =~= s@.subrange(k as int, hi as int));
    let m = mantissa_in(s, lo, k);
    if k == hi {
        assert(t.take(kk) =~= t);
        proof {
            if !m {
                assert forall|k2: int| 0 <= k2 < t.len() && is_mantissa(t.take(k2)) implies !is_exponent(
                    t.skip(k2),
                ) by {
                    assert(t.skip(k2)[0] == s@[lo + k2]);
                }
            }
        }
        m
    } else {
        let e = exponent_in(s, k, hi);
        let r = m && e;
        proof {
            assert(t[kk] == s@[k as int]);
            if is_mantissa(t) {
                lemma_mantissa_has_no_exp_mark(t);
            }
            if !r {
                assert forall|k2: int| 0 <= k2 < t.len() && is_mantissa(t.take(k2)) implies !is_exponent(
                    t.skip(k2),
                ) by {
                    lemma_mantissa_has_no_exp_mark(t.take(k2));
                    if k2 > kk {
                        assert(t.take(k2)[kk] == t[kk]);
                    } else if k2 < kk {
                        assert(t.skip(k2)[0] == s@[lo + k2]);
                    }
                }
            }
        }
        r
    }
}

/// Whether `s[lo..hi]` spells the lower-case `word`.
fn spells_in(s: &str, lo: usize, hi: usize, word: &str) -> (r: bool)
    requires
        lo <= hi <= s@.len(),
    ensures
        r == spells(s@.subrange(lo as int, hi as int), word@),
{
    let ghost t = s@.subrange(lo as int, hi as int);
    let n = word.unicode_len();
    if hi - lo != n {
        return false;
    }
    let mut i: usize = 0;
    while i < n
        invariant
            0 <= i <= n == hi - lo,
            lo <= hi <= s@.len(),
            n == word@.len(),
            t == s@.subrange(lo as int, hi as int),
            forall|j: int| 0 <= j < i ==> same_ignoring_case(#[trigger] t[j], word@[j]),
        decreases n - i,
    {
        let c = s.get_char(lo + i);
        let w = word.get_char(i);
        assert(t[i as int] == c);
        if !(c == w || ('A' <= c && c <= 'Z' && (c as u32) + 32 == (w as u32))) {
            return false;
        }
        i = i + 1;
    }
    true
}

/// Whether a token is the text of a 64-bit floating-point literal.
pub fn is_float_literal_str(s: &str) -> (r: bool)
    ensures
        r == is_float_literal(s@),
{
    let n = s.unicode_len();
    let mut start: usize = 0;
    if n > 0 {
        let c = s.get_char(0);
        if c == '+' || c == '-' {
            start = 1;
        }
    }
    assert(unsigned(s@) =~= s@.subrange(start as int, n as int));
    let special = spells_in(s, start, n, "inf") || spells_in(
        s,
        start,
        n,
        "infinity",
    ) || spells_in(s, start, n, "nan");
    proof {
        reveal_strlit("inf");
        reveal_strlit("infinity");
        reveal_strlit("nan");
        assert("inf"@ =~= seq!['i', 'n', 'f']);
        assert("infinity"@ =~= seq!['i', 'n', 'f', 'i', 'n', 'i', 't', 'y']);
        assert("nan"@ =~= seq!['n', 'a', 'n']);
    }
    special || number_in(s, start, n)
}

} // verus!
