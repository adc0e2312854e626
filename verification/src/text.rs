//! Reading numbers and blanks out of the text the cabinet data is written in.

use vstd::prelude::*;

verus! {

pub open spec fn is_digit(c: char) -> bool {
    '0' <= c <= '9'
}

pub open spec fn digit_value(c: char) -> int {
    (c as int) - ('0' as int)
}

/// The number a run of decimal digits spells.
pub open spec fn digits_value(s: Seq<char>) -> int
    decreases s.len(),
{
    if s.len() == 0 {
        0
    } else {
        digits_value(s.drop_last()) * 10 + digit_value(s.last())
    }
}

pub open spec fn all_digits(s: Seq<char>) -> bool {
    s.len() > 0 && forall|i: int| 0 <= i < s.len() ==> is_digit(#[trigger] s[i])
}

/// How `usize` parses from text: an optional `+`, then one or more decimal
/// digits, and a value that fits.
pub open spec fn parse_usize(s: Seq<char>) -> Option<usize> {
    let digits = if s.len() > 0 && s[0] == '+' {
        s.drop_first()
    } else {
        s
    };
    if all_digits(digits) && digits_value(digits) <= usize::MAX {
        Some(digits_value(digits) as usize)
    } else {
        None
    }
}

pub open spec fn digit_char(d: int) -> char {
    (('0' as int) + d) as char
}

/// The canonical decimal spelling of `n`: what `to_string` writes.
pub open spec fn decimal(n: nat) -> Seq<char>
    decreases n,
{
    if n < 10 {
        seq![digit_char(n as int)]
    } else {
        decimal(n / 10).push(digit_char((n % 10) as int))
    }
}

/// Unicode `White_Space`: what `str::trim` removes.
pub open spec fn is_white(c: char) -> bool {
    ||| '\u{9}' <= c <= '\u{d}'
    ||| c == ' '
    ||| c == '\u{85}'
    ||| c == '\u{a0}'
    ||| c == '\u{1680}'
    ||| '\u{2000}' <= c <= '\u{200a}'
    ||| c == '\u{2028}'
    ||| c == '\u{2029}'
    ||| c == '\u{202f}'
    ||| c == '\u{205f}'
    ||| c == '\u{3000}'
}

/// Text with nothing in it once trimmed.
pub open spec fn is_blank(s: Seq<char>) -> bool {
    forall|i: int| 0 <= i < s.len() ==> is_white(#[trigger] s[i])
}

/// The characters of a string, as a vector.
pub fn chars_of(s: &str) -> (v: Vec<char>)
    ensures
        v@ == s@,
{
    let n = s.unicode_len();
    let mut v: Vec<char> = Vec::new();
    let mut i: usize = 0;
    while i < n
        invariant
            n == s@.len(),
            0 <= i <= n,
            v@ == s@.subrange(0, i as int),
        decreases n - i,
    {
        v.push(s.get_char(i));
        i = i + 1;
        assert(v@ == s@.subrange(0, i as int));
    }
    assert(v@ == s@);
    v
}

proof fn lemma_digits_value_bounded(s: Seq<char>)
    requires
        forall|i: int| 0 <= i < s.len() ==> is_digit(#[trigger] s[i]),
    ensures
        digits_value(s) >= 0,
    decreases s.len(),
{
    if s.len() > 0 {
        lemma_digits_value_bounded(s.drop_last());
    }
}

proof fn lemma_digits_value_grows(s: Seq<char>, k: int)
    requires
        forall|i: int| 0 <= i < s.len() ==> is_digit(#[trigger] s[i]),
        0 <= k <= s.len(),
    ensures
        digits_value(s.subrange(0, k)) <= digits_value(s),
    decreases s.len() - k,
{
    if k < s.len() {
        lemma_digits_value_grows(s, k + 1);
        let t = s.subrange(0, k + 1);
        assert(t.drop_last() == s.subrange(0, k));
        lemma_digits_value_bounded(s.subrange(0, k));
    } else {
        assert(s.subrange(0, k) == s);
    }
}

/// Parse a count the way `usize::from_str` does.
pub fn parse_count(s: &str) -> (r: Option<usize>)
    ensures
        r == parse_usize(s@),
{
    let chars = chars_of(s);
    let n = chars.len();
    let start: usize = if n > 0 && chars[0] == '+' {
        1
    } else {
        0
    };
    let ghost digits = if s@.len() > 0 && s@[0] == '+' {
        s@.drop_first()
    } else {
        s@
    };
    assert(digits == s@.subrange(start as int, n as int));
    if start == n {
        return None;
    }
    let mut value: usize = 0;
    let mut i: usize = start;
    while i < n
        invariant
            chars@ == s@,
            n == chars@.len(),
            start <= i <= n,
            start < n,
            digits == s@.subrange(start as int, n as int),
            digits == (if s@.len() > 0 && s@[0] == '+' { s@.drop_first() } else { s@ }),
            forall|j: int| start <= j < i ==> is_digit(#[trigger] chars@[j]),
            value == digits_value(s@.subrange(start as int, i as int)),
        decreases n - i,
    {
        let c = chars[i];
        let ghost sofar = s@.subrange(start as int, i as int);
        let ghost next = s@.subrange(start as int, i + 1);
        assert(next.drop_last() == sofar);
        if !('0' <= c && c <= '9') {
            assert(digits[i - start] == c);
            assert(!all_digits(digits));
            assert(parse_usize(s@).is_none());
            return None;
        }
        let d = (c as u32 - '0' as u32) as usize;
        let grown = value.checked_mul(10);
        match grown {
            None => {
                proof {
                    if all_digits(digits) {
                        lemma_digits_value_grows(digits, (i + 1 - start) as int);
                        assert(digits.subrange(0, (i + 1 - start) as int) == next);
                        lemma_digits_value_bounded(sofar);
                        assert(next.last() == c);
                        assert(digits_value(next) == value * 10 + digit_value(c));
                        assert(value * 10 > usize::MAX);
                        assert(digits_value(digits) > usize::MAX);
                    }
                    assert(parse_usize(s@).is_none());
                }
                return None;
            },
            Some(grown) => {
                match grown.checked_add(d) {
                    None => {
                        proof {
                            if all_digits(digits) {
                                lemma_digits_value_grows(digits, (i + 1 - start) as int);
                                assert(digits.subrange(0, (i + 1 - start) as int) == next);
                                assert(next.last() == c);
                            }
                        }
                        return None;
                    },
                    Some(v) => {
                        assert(next.last() == c);
                        value = v;
                    },
                }
            },
        }
        i = i + 1;
    }
    assert(s@.subrange(start as int, n as int) == digits);
    Some(value)
}

proof fn lemma_decimal_len(n: nat)
    ensures
        decimal(n).len() >= 1,
    decreases n,
{
    if n >= 10 {
        lemma_decimal_len(n / 10);
    }
}

/// Whether `s` is exactly how `n` is written out in decimal.
pub fn is_decimal_of(s: &str, n: usize) -> (r: bool)
    ensures
        r == (s@ == decimal(n as nat)),
{
    let chars = chars_of(s);
    let mut end: usize = chars.len();
    let mut m: usize = n;
    assert(s@.subrange(0, end as int) =~= s@);
    // `s == decimal(n)` exactly when `s[..end] == decimal(m)` and the tail
    // already read matches the digits peeled off `n`.
    while m >= 10
        invariant
            chars@ == s@,
            end <= chars@.len(),
            (s@ == decimal(n as nat)) == (s@.subrange(0, end as int) == decimal(m as nat)),
        decreases m,
    {
        if end == 0 {
            proof {
                lemma_decimal_len(m as nat);
                assert(s@.subrange(0, 0).len() == 0);
            }
            return false;
        }
        let c = chars[end - 1];
        let want = (('0' as u32) + ((m % 10) as u32)) as u8 as char;
        proof {
            assert(want == digit_char((m % 10) as int));
            let pre = s@.subrange(0, end as int);
            assert(pre.drop_last() == s@.subrange(0, end - 1));
            if pre == decimal(m as nat) {
                assert(pre.last() == digit_char((m % 10) as int));
                assert(pre.drop_last() == decimal((m / 10) as nat));
            }
            if c == want && s@.subrange(0, end - 1) == decimal((m / 10) as nat) {
                assert(pre =~= s@.subrange(0, end - 1).push(c));
            }
        }
        if c != want {
            return false;
        }
        end = end - 1;
        m = m / 10;
    }
    let want = (('0' as u32) + (m as u32)) as u8 as char;
    assert(want == digit_char(m as int));
    let r = end == 1 && chars[0] == want;
    proof {
        assert(decimal(m as nat) == seq![want]);
        if r {
            assert(s@.subrange(0, 1) =~= seq![want]);
        }
        if s@.subrange(0, end as int) == seq![want] {
            assert(s@.subrange(0, end as int).len() == 1);
            assert(s@.subrange(0, end as int)[0] == chars@[0]);
        }
    }
    r
}

/// Whether two strings hold the same characters.
pub fn same_text(a: &str, b: &str) -> (r: bool)
    ensures
        r == (a@ == b@),
{
    let x = chars_of(a);
    let y = chars_of(b);
    if x.len() != y.len() {
        return false;
    }
    let mut i: usize = 0;
    while i < x.len()
        invariant
            x@ == a@,
            y@ == b@,
            x@.len() == y@.len(),
            0 <= i <= x@.len(),
            forall|j: int| 0 <= j < i ==> x@[j] == y@[j],
        decreases x@.len() - i,
    {
        if x[i] != y[i] {
            return false;
        }
        i = i + 1;
    }
    assert(x@ =~= y@);
    true
}

/// Whether every character of `s` is white space.
pub fn blank(s: &str) -> (r: bool)
    ensures
        r == is_blank(s@),
{
    let chars = chars_of(s);
    let mut i: usize = 0;
    while i < chars.len()
        invariant
            chars@ == s@,
            0 <= i <= chars@.len(),
            forall|j: int| 0 <= j < i ==> is_white(#[trigger] chars@[j]),
        decreases chars@.len() - i,
    {
        let c = chars[i];
        let white = ('\u{9}' <= c && c <= '\u{d}') || c == ' ' || c == '\u{85}' || c == '\u{a0}'
            || c == '\u{1680}' || ('\u{2000}' <= c && c <= '\u{200a}') || c == '\u{2028}' || c
            == '\u{2029}' || c == '\u{202f}' || c == '\u{205f}' || c == '\u{3000}';
        if !white {
            return false;
        }
        i = i + 1;
    }
    true
}

} // verus!
