//! Numeric literal syntax and decimal rendering of counters.
//!
//! A literal is accepted exactly when it follows the grammar of Rust's
//! `f64::from_str` (case-insensitive where letters occur):
//!
//! ```text
//! Literal  ::= Sign? ( 'inf' | 'infinity' | 'nan' | Number )
//! Number   ::= ( Digit+ | Digit+ '.' Digit* | Digit* '.' Digit+ ) Exp?
//! Exp      ::= 'e' Sign? Digit+
//! Sign     ::= [+-]
//! Digit    ::= [0-9]
//! ```
use vstd::prelude::*;

verus! {

pub open spec fn is_digit(c: char) -> bool {
    '0' <= c && c <= '9'
}

pub open spec fn is_sign(c: char) -> bool {
    c == '+' || c == '-'
}

pub open spec fn all_digits(s: Seq<char>) -> bool {
    forall|i: int| 0 <= i < s.len() ==> is_digit(#[trigger] s[i])
}

/// `Digit+ | Digit+ '.' Digit* | Digit* '.' Digit+`
pub open spec fn is_mantissa(s: Seq<char>) -> bool {
    ||| s.len() > 0 && all_digits(s)
    ||| exists|i: int|
        0 <= i < s.len() && #[trigger] s[i] == '.' && s.len() > 1 && all_digits(s.take(i))
            && all_digits(s.skip(i + 1))
}

/// `Sign? Digit+`
pub open spec fn is_signed_digits(s: Seq<char>) -> bool {
    let d = if s.len() > 0 && is_sign(s[0]) {
        s.skip(1)
    } else {
        s
    };
    d.len() > 0 && all_digits(d)
}

/// `'e' Sign? Digit+`, the `e` in either case.
pub open spec fn is_exponent(s: Seq<char>) -> bool {
    s.len() > 0 && (s[0] == 'e' || s[0] == 'E') && is_signed_digits(s.skip(1))
}

/// `Number`: a mantissa, optionally followed by an exponent.
pub open spec fn is_decimal(s: Seq<char>) -> bool {
    exists|k: int|
        0 <= k <= s.len() && #[trigger] is_mantissa(s.take(k)) && (k == s.len() || is_exponent(
            s.skip(k),
        ))
}

/// `s` spells the lower-case ASCII word `w`, each letter in either case.
pub open spec fn spells(s: Seq<char>, w: Seq<char>) -> bool {
    s.len() == w.len() && forall|i: int|
        0 <= i < s.len() ==> #[trigger] s[i] == w[i] || (s[i] as u32) + 32 == (w[i] as u32)
}

pub open spec fn is_special(s: Seq<char>) -> bool {
    ||| spells(s, seq!['i', 'n', 'f'])
    ||| spells(s, seq!['i', 'n', 'f', 'i', 'n', 'i', 't', 'y'])
    ||| spells(s, seq!['n', 'a', 'n'])
}

/// The text of a floating-point literal, as described in the module documentation.
pub open spec fn is_number_text(s: Seq<char>) -> bool {
    let u = if s.len() > 0 && is_sign(s[0]) {
        s.skip(1)
    } else {
        s
    };
    is_special(u) || is_decimal(u)
}

fn digits_only(s: &Vec<char>, lo: usize, hi: usize) -> (r: bool)
    requires
        lo <= hi <= s@.len(),
    ensures
        r == all_digits(s@.subrange(lo as int, hi as int)),
{
    let mut i = lo;
    while i < hi
        invariant
            lo <= i <= hi <= s@.len(),
            all_digits(s@.subrange(lo as int, i as int)),
        decreases hi - i,
    {
        let c = s[i];
        if !('0' <= c && c <= '9') {
            assert(s@.subrange(lo as int, hi as int)[i - lo] == c);
            return false;
        }
        assert(forall|j: int|
            0 <= j < i + 1 - lo ==> #[trigger] s@.subrange(lo as int, i + 1)[j] == s@[lo + j]);
        i = i + 1;
    }
    assert(forall|j: int|
        0 <= j < hi - lo ==> #[trigger] s@.subrange(lo as int, hi as int)[j] == s@[lo + j]);
    true
}

/// The first index in `lo..hi` that holds `a` or `b`, or `hi` where none does.
fn find_either(s: &Vec<char>, lo: usize, hi: usize, a: char, b: char) -> (k: usize)
    requires
        lo <= hi <= s@.len(),
    ensures
        lo <= k <= hi,
        forall|j: int| lo <= j < k ==> #[trigger] s@[j] != a && s@[j] != b,
        k < hi ==> s@[k as int] == a || s@[k as int] == b,
{
    let mut i = lo;
    while i < hi
        invariant
            lo <= i <= hi <= s@.len(),
            forall|j: int| lo <= j < i ==> #[trigger] s@[j] != a && s@[j] != b,
        decreases hi - i,
    {
        if s[i] == a || s[i] == b {
            return i;
        }
        i = i + 1;
    }
    i
}


fn mantissa_ok(s: &Vec<char>, lo: usize, hi: usize) -> (r: bool)
    requires
        lo <= hi <= s@.len(),
    ensures
        r == is_mantissa(s@.subrange(lo as int, hi as int)),
{
    let ghost t = s@.subrange(lo as int, hi as int);
    let d = find_either(s, lo, hi, '.', '.');
    if d == hi {
        assert(forall|i: int| 0 <= i < t.len() ==> #[trigger] t[i] == s@[lo + i]);
        hi > lo && digits_only(s, lo, hi)
    } else {
        let ghost i0 = d - lo;
        assert(t[i0] == '.');
        assert(t.take(i0) =~= s@.subrange(lo as int, d as int));
        assert(t.skip(i0 + 1) =~= s@.subrange(d + 1, hi as int));
        assert(!all_digits(t)) by {
            assert(!is_digit(t[i0]));
        }
        assert forall|i: int|
            0 <= i < t.len() && #[trigger] t[i] == '.' && all_digits(t.take(i)) implies i == i0 by {
            assert(t[i] == s@[lo + i]);
            if i > i0 {
                assert(t.take(i)[i0] == '.');
            }
            if i < i0 {
                assert(s@[lo + i] != '.');
            }
        }
        let r = hi - lo > 1 && digits_only(s, lo, d) && digits_only(s, d + 1, hi);
        r
    }
}

fn exponent_ok(s: &Vec<char>, lo: usize, hi: usize) -> (r: bool)
    requires
        lo <= hi <= s@.len(),
    ensures
        r == is_exponent(s@.subrange(lo as int, hi as int)),
{
    let ghost t = s@.subrange(lo as int, hi as int);
    if lo == hi || !(s[lo] == 'e' || s[lo] == 'E') {
        return false;
    }
    let ghost u = t.skip(1);
    assert(u =~= s@.subrange(lo + 1, hi as int));
    let mut start = lo + 1;
    if start < hi && (s[start] == '+' || s[start] == '-') {
        assert(u.skip(1) =~= s@.subrange(lo + 2, hi as int));
        start = start + 1;
    }
    start < hi && digits_only(s, start, hi)
}

fn decimal_ok(s: &Vec<char>, lo: usize, hi: usize) -> (r: bool)
    requires
        lo <= hi <= s@.len(),
    ensures
        r == is_decimal(s@.subrange(lo as int, hi as int)),
{
    let ghost t = s@.subrange(lo as int, hi as int);
    let k = find_either(s, lo, hi, 'e', 'E');
    let ghost k0 = k - lo;
    assert(t.take(k0) =~= s@.subrange(lo as int, k as int));
    assert(t.skip(k0) =~= s@.subrange(k as int, hi as int));
    assert forall|k1: int|
        0 <= k1 <= t.len() && #[trigger] is_mantissa(t.take(k1)) && (k1 == t.len() || is_exponent(
            t.skip(k1),
        )) implies k1 == k0 by {
        let m = t.take(k1);
        assert(forall|j: int| 0 <= j < m.len() ==> #[trigger] m[j] != 'e' && m[j] != 'E') by {
            assert forall|j: int| 0 <= j < m.len() implies #[trigger] m[j] != 'e' && m[j]
                != 'E' by {
                if m.len() > 0 && all_digits(m) {
                    assert(is_digit(m[j]));
                } else {
                    let i = choose|i: int|
                        0 <= i < m.len() && #[trigger] m[i] == '.' && m.len() > 1 && all_digits(
                            m.take(i),
                        ) && all_digits(m.skip(i + 1));
                    if j < i {
                        assert(m.take(i)[j] == m[j]);
                    } else if j > i {
                        assert(m.skip(i + 1)[j - i - 1] == m[j]);
                    }
                }
            }
        }
        if k1 < k0 {
            assert(t.skip(k1)[0] == t[k1]);
            assert(t[k1] == s@[lo + k1]);
        }
        if k1 > k0 {
            assert(m[k0] == s@[k as int]);
        }
    }
    let r = mantissa_ok(s, lo, k) && (k == hi || exponent_ok(s, k, hi));
    r
}

/// Whether `s[lo..hi]` spells the lower-case ASCII word `w`, each letter in either case.
fn spells_exec(s: &Vec<char>, lo: usize, hi: usize, w: &Vec<char>) -> (r: bool)
    requires
        lo <= hi <= s@.len(),
        forall|i: int| 0 <= i < w@.len() ==> 'a' <= #[trigger] w@[i] <= 'z',
    ensures
        r == spells(s@.subrange(lo as int, hi as int), w@),
{
    let ghost t = s@.subrange(lo as int, hi as int);
    if hi - lo != w.len() {
        return false;
    }
    let mut i: usize = 0;
    while i < w.len()
        invariant
            hi - lo == w@.len(),
            lo <= hi <= s@.len(),
            i <= w@.len(),
            t == s@.subrange(lo as int, hi as int),
            forall|j: int|
                0 <= j < i ==> #[trigger] t[j] == w@[j] || (t[j] as u32) + 32 == (w@[j] as u32),
        decreases w@.len() - i,
    {
        let c = s[lo + i];
        let l = w[i];
        assert(t[i as int] == c);
        if !(c == l || (c as u32) as u64 + 32 == (l as u32) as u64) {
            return false;
        }
        i = i + 1;
    }
    true
}

/// Whether `s` is the text of a floating-point literal (see the module documentation).
pub fn is_number_literal(s: &Vec<char>) -> (r: bool)
    ensures
        r == is_number_text(s@),
{
    let n = s.len();
    let mut lo: usize = 0;
    if n > 0 && (s[0] == '+' || s[0] == '-') {
        lo = 1;
    }
    assert(s@.subrange(lo as int, n as int) =~= if s@.len() > 0 && is_sign(s@[0]) {
        s@.skip(1)
    } else {
        s@
    });
    let inf = vec!['i', 'n', 'f'];
    let infinity = vec!['i', 'n', 'f', 'i', 'n', 'i', 't', 'y'];
    let nan = vec!['n', 'a', 'n'];
    assert(inf@ == seq!['i', 'n', 'f']);
    assert(infinity@ == seq!['i', 'n', 'f', 'i', 'n', 'i', 't', 'y']);
    assert(nan@ == seq!['n', 'a', 'n']);
    spells_exec(s, lo, n, &inf) || spells_exec(s, lo, n, &infinity) || spells_exec(
        s,
        lo,
        n,
        &nan,
    ) || decimal_ok(s, lo, n)
}


/// The character of the decimal digit `d`.
pub open spec fn digit_char(d: nat) -> char {
    ((48 + d) as u8) as char
}

/// The decimal numeral of `n`, most significant digit first, without leading zeros.
pub open spec fn decimal(n: nat) -> Seq<char>
    decreases n,
{
    if n < 10 {
        seq![digit_char(n)]
    } else {
        decimal(n / 10).push(digit_char(n % 10))
    }
}

fn digit(d: u8) -> (c: char)
    requires
        d < 10,
    ensures
        c == digit_char(d as nat),
{
    (48 + d) as char
}

/// Relies on `String::push`: the character is appended at the end of the string.
#[verifier::external_body]
pub(crate) fn push_char(s: &mut String, c: char)
    ensures
        final(s)@ == old(s)@.push(c),
{
    s.push(c)
}

/// The decimal numeral of `n`.
pub fn decimal_string(n: usize) -> (r: String)
    ensures
        r@ == decimal(n as nat),
    decreases n,
{
    if n < 10 {
        let mut s = String::new();
        push_char(&mut s, digit(n as u8));
        s
    } else {
        let mut s = decimal_string(n / 10);
        push_char(&mut s, digit((n % 10) as u8));
        s
    }
}

/// A string holding the characters of `cs` in order.
pub fn string_from_chars(cs: &Vec<char>) -> (r: String)
    ensures
        r@ == cs@,
{
    let mut s = String::new();
    let mut i: usize = 0;
    while i < cs.len()
        invariant
            i <= cs@.len(),
            s@ == cs@.take(i as int),
        decreases cs@.len() - i,
    {
        push_char(&mut s, cs[i]);
        assert(cs@.take(i + 1) =~= cs@.take(i as int).push(cs@[i as int]));
        i = i + 1;
    }
    assert(cs@.take(cs@.len() as int) =~= cs@);
    s
}

}
