//! Byte-level text helpers: ASCII case folding, whitespace splitting and
//! decimal numbers, each stated over `Seq<u8>`.

use vstd::prelude::*;
use vstd::string::StringSliceAdditionalSpecFns;

verus! {

/// ASCII lowercase of a byte; other bytes are left as they are.
pub open spec fn lower(b: u8) -> u8 {
    if 65 <= b && b <= 90 {
        (b + 32) as u8
    } else {
        b
    }
}

/// Equal up to ASCII case, byte for byte.
pub open spec fn eq_ignore_case(a: Seq<u8>, b: Seq<u8>) -> bool {
    &&& a.len() == b.len()
    &&& forall|i: int| 0 <= i < a.len() ==> #[trigger] lower(a[i]) == lower(b[i])
}

/// `word` is `keyword` up to ASCII case.
pub open spec fn is_keyword(word: Seq<u8>, keyword: &str) -> bool {
    eq_ignore_case(word, keyword.spec_bytes())
}

/// ASCII whitespace: space, tab, line feed, form feed, carriage return.
pub open spec fn is_whitespace(b: u8) -> bool {
    b == 32 || b == 9 || b == 10 || b == 12 || b == 13
}

/// An ASCII decimal digit.
pub open spec fn is_digit(b: u8) -> bool {
    48 <= b && b <= 57
}

/// The first index at or after `i` that holds whitespace, or the end.
pub open spec fn word_end(s: Seq<u8>, i: int) -> int
    decreases s.len() - i,
{
    if i < 0 || i >= s.len() || is_whitespace(s[i]) {
        i
    } else {
        word_end(s, i + 1)
    }
}

/// The whitespace-separated words of `s` from index `i` on, empty ones left out.
pub open spec fn words_from(s: Seq<u8>, i: int) -> Seq<Seq<u8>>
    decreases s.len() - i,
{
    if i < 0 || i >= s.len() {
        seq![]
    } else if is_whitespace(s[i]) {
        words_from(s, i + 1)
    } else {
        let e = word_end(s, i);
        proof {
            lemma_word_end_bounds(s, i);
        }
        seq![s.subrange(i, e)] + words_from(s, e)
    }
}

/// The whitespace-separated words of `s`, as `split_ascii_whitespace` yields them.
pub open spec fn words(s: Seq<u8>) -> Seq<Seq<u8>> {
    words_from(s, 0)
}

/// The first index at or after `i` that does not hold a digit, or the end.
pub open spec fn digit_run_end(s: Seq<u8>, i: int) -> int
    decreases s.len() - i,
{
    if i < 0 || i >= s.len() || !is_digit(s[i]) {
        i
    } else {
        digit_run_end(s, i + 1)
    }
}

/// Every byte is a decimal digit.
pub open spec fn all_digits(s: Seq<u8>) -> bool {
    forall|i: int| 0 <= i < s.len() ==> #[trigger] is_digit(s[i])
}

/// The value of a string of decimal digits.
pub open spec fn digits_value(s: Seq<u8>) -> nat
    decreases s.len(),
{
    if s.len() == 0 {
        0
    } else {
        digits_value(s.drop_last()) * 10 + (s.last() - 48) as nat
    }
}

/// What `usize::from_str` accepts: an optional `+`, then one or more decimal
/// digits whose value fits in a `usize`.
pub open spec fn parse_decimal(s: Seq<u8>) -> Option<usize> {
    let digits = if s.len() > 0 && s[0] == 43 {
        s.drop_first()
    } else {
        s
    };
    if digits.len() > 0 && all_digits(digits) && digits_value(digits) <= usize::MAX {
        Some(digits_value(digits) as usize)
    } else {
        None
    }
}

pub proof fn lemma_word_end_bounds(s: Seq<u8>, i: int)
    requires
        0 <= i <= s.len(),
    ensures
        i <= word_end(s, i) <= s.len(),
        i < s.len() && !is_whitespace(s[i]) ==> word_end(s, i) > i,
        forall|j: int| i <= j < word_end(s, i) ==> !is_whitespace(#[trigger] s[j]),
        word_end(s, i) < s.len() ==> is_whitespace(s[word_end(s, i)]),
    decreases s.len() - i,
{
    if i < s.len() && !is_whitespace(s[i]) {
        lemma_word_end_bounds(s, i + 1);
    }
}

pub proof fn lemma_digit_run_end_bounds(s: Seq<u8>, i: int)
    requires
        0 <= i <= s.len(),
    ensures
        i <= digit_run_end(s, i) <= s.len(),
        forall|j: int| i <= j < digit_run_end(s, i) ==> is_digit(#[trigger] s[j]),
        digit_run_end(s, i) < s.len() ==> !is_digit(s[digit_run_end(s, i)]),
    decreases s.len() - i,
{
    if i < s.len() && is_digit(s[i]) {
        lemma_digit_run_end_bounds(s, i + 1);
    }
}

/// A longer string of digits is worth at least as much as any of its prefixes.
pub proof fn lemma_digits_value_prefix(s: Seq<u8>, j: int)
    requires
        0 <= j <= s.len(),
        all_digits(s),
    ensures
        digits_value(s.take(j)) <= digits_value(s),
    decreases s.len(),
{
    if j < s.len() {
        let d = s.drop_last();
        assert(d.take(j) =~= s.take(j));
        assert(all_digits(d)) by {
            assert forall|i: int| 0 <= i < d.len() implies #[trigger] is_digit(d[i]) by {
                assert(is_digit(s[i]));
            }
        }
        lemma_digits_value_prefix(d, j);
    } else {
        assert(s.take(j) =~= s);
    }
}

/// ASCII lowercase of a byte.
pub fn to_lower(b: u8) -> (r: u8)
    ensures
        r == lower(b),
{
    if 65 <= b && b <= 90 {
        b + 32
    } else {
        b
    }
}

/// Whether two byte strings are equal up to ASCII case.
pub fn eq_ignore_ascii_case(a: &[u8], b: &[u8]) -> (r: bool)
    ensures
        r == eq_ignore_case(a@, b@),
{
    if a.len() != b.len() {
        return false;
    }
    let mut i: usize = 0;
    while i < a.len()
        invariant
            a@.len() == b@.len(),
            i <= a@.len(),
            forall|k: int| 0 <= k < i ==> #[trigger] lower(a@[k]) == lower(b@[k]),
        decreases a@.len() - i,
    {
        if to_lower(a[i]) != to_lower(b[i]) {
            return false;
        }
        i = i + 1;
    }
    true
}

/// Whether `word` is `keyword` up to ASCII case.
pub fn matches_keyword(word: &[u8], keyword: &str) -> (r: bool)
    ensures
        r == is_keyword(word@, keyword),
{
    eq_ignore_ascii_case(word, keyword.as_bytes())
}

/// Whether a byte is ASCII whitespace.
pub fn is_ascii_whitespace(b: u8) -> (r: bool)
    ensures
        r == is_whitespace(b),
{
    b == 32 || b == 9 || b == 10 || b == 12 || b == 13
}

/// Whether a byte is an ASCII decimal digit.
pub fn is_ascii_digit(b: u8) -> (r: bool)
    ensures
        r == is_digit(b),
{
    48 <= b && b <= 57
}

/// The whitespace-separated words of `line`, in order.
pub fn split_ascii_whitespace(line: &[u8]) -> (r: Vec<&[u8]>)
    ensures
        r@.len() == words(line@).len(),
        forall|k: int| 0 <= k < r@.len() ==> (#[trigger] r@[k])@ == words(line@)[k],
{
    let mut out: Vec<&[u8]> = Vec::new();
    let mut i: usize = 0;
    let ghost s = line@;
    while i < line.len()
        invariant
            s == line@,
            i <= s.len(),
            out@.len() + words_from(s, i as int).len() == words(s).len(),
            forall|k: int| 0 <= k < out@.len() ==> (#[trigger] out@[k])@ == words(s)[k],
            forall|k: int|
                0 <= k < words_from(s, i as int).len() ==> words(s)[out@.len() + k]
                    == #[trigger] words_from(s, i as int)[k],
        decreases s.len() - i,
    {
        if is_ascii_whitespace(line[i]) {
            i = i + 1;
        } else {
            let mut j: usize = i + 1;
            proof {
                lemma_word_end_bounds(s, i as int);
            }
            while j < line.len() && !is_ascii_whitespace(line[j])
                invariant
                    s == line@,
                    i < j <= s.len(),
                    word_end(s, i as int) == word_end(s, j as int),
                decreases s.len() - j,
            {
                j = j + 1;
            }
            let ghost rest = words_from(s, j as int);
            assert(words_from(s, i as int) == seq![s.subrange(i as int, j as int)] + rest);
            let word = &line[i..j];
            let ghost old_len = out@.len();
            assert(words(s)[old_len as int] == words_from(s, i as int)[0]);
            out.push(word);
            assert forall|k: int| 0 <= k < rest.len() implies words(s)[out@.len() + k]
                == #[trigger] rest[k] by {
                assert(words_from(s, i as int)[k + 1] == rest[k]);
            }
            i = j;
        }
    }
    out
}

/// Parses a decimal `usize` as `usize::from_str` does.
pub fn parse_usize(s: &[u8]) -> (r: Option<usize>)
    ensures
        r == parse_decimal(s@),
{
    let ghost digits = if s@.len() > 0 && s@[0] == 43 {
        s@.drop_first()
    } else {
        s@
    };
    let mut i: usize = 0;
    if s.len() > 0 && s[0] == 43 {
        i = 1;
    }
    let start = i;
    if i == s.len() {
        return None;
    }
    assert(digits =~= s@.subrange(start as int, s@.len() as int));
    let mut v: usize = 0;
    while i < s.len()
        invariant
            start <= i <= s@.len(),
            start == 0 || start == 1,
            digits == (if s@.len() > 0 && s@[0] == 43 {
                s@.drop_first()
            } else {
                s@
            }),
            digits =~= s@.subrange(start as int, s@.len() as int),
            all_digits(s@.subrange(start as int, i as int)),
            v as nat == digits_value(s@.subrange(start as int, i as int)),
        decreases s@.len() - i,
    {
        let b = s[i];
        if !is_ascii_digit(b) {
            assert(!is_digit(digits[i - start]));
            return None;
        }
        let ghost next = s@.subrange(start as int, i + 1);
        assert(next.drop_last() =~= s@.subrange(start as int, i as int));
        assert(all_digits(next)) by {
            assert forall|k: int| 0 <= k < next.len() implies #[trigger] is_digit(next[k]) by {
                if k < next.len() - 1 {
                    assert(is_digit(s@.subrange(start as int, i as int)[k]));
                }
            }
        }
        let d = (b - 48) as usize;
        let m = v.checked_mul(10);
        if m.is_none() {
            proof {
                assert(v * 10 > usize::MAX);
                assert(digits_value(next) >= v * 10);
                digit_overflow(digits, next, (i + 1 - start) as int);
            }
            return None;
        }
        let m = m.unwrap();
        let n = m.checked_add(d);
        if n.is_none() {
            proof {
                digit_overflow(digits, next, (i + 1 - start) as int);
            }
            return None;
        }
        v = n.unwrap();
        i = i + 1;
    }
    assert(s@.subrange(start as int, i as int) =~= digits);
    Some(v)
}

/// Once a prefix of the digits overflows, the whole string does or is not all digits.
proof fn digit_overflow(digits: Seq<u8>, prefix: Seq<u8>, j: int)
    requires
        0 <= j <= digits.len(),
        prefix =~= digits.take(j),
        digits_value(prefix) > usize::MAX,
    ensures
        !(all_digits(digits) && digits_value(digits) <= usize::MAX),
{
    if all_digits(digits) {
        lemma_digits_value_prefix(digits, j);
    }
}

} // verus!
