//! Commands mean the same in any ASCII letter case.

use vstd::prelude::*;
use vstd::string::StringSliceAdditionalSpecFns;

use crate::ascii::{
    all_digits, digit_run_end, eq_ignore_case, is_digit, is_keyword, is_whitespace, lower,
    parse_decimal, word_end, words, words_from,
};
use crate::command::{
    command_from_words, expander_pin, expander_scoped_slot, prefixed_0_based, prefixed_1_based,
    slot_of, slot_result, state_of, state_result, strip_prefix,
};

verus! {

/// Bytes that agree up to case agree on being whitespace, a digit or `+`;
/// a digit is matched only by itself.
proof fn lemma_lower_classes(x: u8, y: u8)
    requires
        lower(x) == lower(y),
    ensures
        is_whitespace(x) == is_whitespace(y),
        is_digit(x) == is_digit(y),
        (x == 43) == (y == 43),
        is_digit(x) ==> x == y,
{
}

/// Words that agree up to case agree on being any keyword.
proof fn lemma_keyword(a: Seq<u8>, b: Seq<u8>, k: &str)
    requires
        eq_ignore_case(a, b),
    ensures
        is_keyword(a, k) == is_keyword(b, k),
{
    let kb = k.spec_bytes();
    if is_keyword(a, k) {
        assert forall|i: int| 0 <= i < b.len() implies #[trigger] lower(b[i]) == lower(kb[i]) by {
            assert(lower(a[i]) == lower(b[i]));
            assert(lower(a[i]) == lower(kb[i]));
        }
    }
    if is_keyword(b, k) {
        assert forall|i: int| 0 <= i < a.len() implies #[trigger] lower(a[i]) == lower(kb[i]) by {
            assert(lower(a[i]) == lower(b[i]));
            assert(lower(b[i]) == lower(kb[i]));
        }
    }
}

proof fn lemma_subrange(a: Seq<u8>, b: Seq<u8>, i: int, j: int)
    requires
        eq_ignore_case(a, b),
        0 <= i <= j <= a.len(),
    ensures
        eq_ignore_case(a.subrange(i, j), b.subrange(i, j)),
{
    assert forall|k: int| 0 <= k < j - i implies #[trigger] lower(a.subrange(i, j)[k]) == lower(
        b.subrange(i, j)[k],
    ) by {
        assert(lower(a[i + k]) == lower(b[i + k]));
    }
}

proof fn lemma_word_end(a: Seq<u8>, b: Seq<u8>, i: int)
    requires
        eq_ignore_case(a, b),
        0 <= i <= a.len(),
    ensures
        word_end(a, i) == word_end(b, i),
    decreases a.len() - i,
{
    if i < a.len() {
        assert(lower(a[i]) == lower(b[i]));
        lemma_lower_classes(a[i], b[i]);
        lemma_word_end(a, b, i + 1);
    }
}

proof fn lemma_words_from(a: Seq<u8>, b: Seq<u8>, i: int)
    requires
        eq_ignore_case(a, b),
        0 <= i <= a.len(),
    ensures
        words_from(a, i).len() == words_from(b, i).len(),
        forall|k: int|
            0 <= k < words_from(a, i).len() ==> eq_ignore_case(
                #[trigger] words_from(a, i)[k],
                words_from(b, i)[k],
            ),
    decreases a.len() - i,
{
    if i < a.len() {
        assert(lower(a[i]) == lower(b[i]));
        lemma_lower_classes(a[i], b[i]);
        if is_whitespace(a[i]) {
            lemma_words_from(a, b, i + 1);
        } else {
            let e = word_end(a, i);
            lemma_word_end(a, b, i);
            crate::ascii::lemma_word_end_bounds(a, i);
            lemma_words_from(a, b, e);
            lemma_subrange(a, b, i, e);
            let wa = words_from(a, i);
            let wb = words_from(b, i);
            assert forall|k: int| 0 <= k < wa.len() implies eq_ignore_case(
                #[trigger] wa[k],
                wb[k],
            ) by {
                if k > 0 {
                    assert(wa[k] == words_from(a, e)[k - 1]);
                    assert(wb[k] == words_from(b, e)[k - 1]);
                }
            }
        }
    }
}

proof fn lemma_strip(a: Seq<u8>, b: Seq<u8>, p: Seq<u8>)
    requires
        eq_ignore_case(a, b),
    ensures
        strip_prefix(a, p) is Some == strip_prefix(b, p) is Some,
        strip_prefix(a, p) is Some ==> eq_ignore_case(
            strip_prefix(a, p)->0,
            strip_prefix(b, p)->0,
        ),
{
    if p.len() <= a.len() {
        let n = p.len() as int;
        lemma_subrange(a, b, 0, n);
        lemma_subrange(a, b, n, a.len() as int);
        assert(a.take(n) =~= a.subrange(0, n));
        assert(b.take(n) =~= b.subrange(0, n));
        assert(a.skip(n) =~= a.subrange(n, a.len() as int));
        assert(b.skip(n) =~= b.subrange(n, b.len() as int));
        if eq_ignore_case(a.take(n), p) {
            assert forall|i: int| 0 <= i < n implies #[trigger] lower(b.take(n)[i]) == lower(
                p[i],
            ) by {
                assert(lower(a.take(n)[i]) == lower(b.take(n)[i]));
            }
        }
        if eq_ignore_case(b.take(n), p) {
            assert forall|i: int| 0 <= i < n implies #[trigger] lower(a.take(n)[i]) == lower(
                p[i],
            ) by {
                assert(lower(a.take(n)[i]) == lower(b.take(n)[i]));
            }
        }
    }
}

proof fn lemma_decimal(a: Seq<u8>, b: Seq<u8>)
    requires
        eq_ignore_case(a, b),
    ensures
        parse_decimal(a) == parse_decimal(b),
{
    if a.len() > 0 {
        assert(lower(a[0]) == lower(b[0]));
        lemma_lower_classes(a[0], b[0]);
    }
    let da = if a.len() > 0 && a[0] == 43 {
        a.drop_first()
    } else {
        a
    };
    let db = if b.len() > 0 && b[0] == 43 {
        b.drop_first()
    } else {
        b
    };
    assert(da.len() == db.len());
    assert forall|i: int| 0 <= i < da.len() implies lower(#[trigger] da[i]) == lower(db[i]) by {
        if a.len() > 0 && a[0] == 43 {
            assert(lower(a[i + 1]) == lower(b[i + 1]));
        } else {
            assert(lower(a[i]) == lower(b[i]));
        }
    }
    if all_digits(da) {
        assert forall|i: int| 0 <= i < db.len() implies #[trigger] is_digit(db[i]) by {
            assert(lower(da[i]) == lower(db[i]));
            assert(is_digit(da[i]));
            lemma_lower_classes(da[i], db[i]);
        }
        assert forall|i: int| 0 <= i < da.len() implies da[i] == db[i] by {
            assert(lower(da[i]) == lower(db[i]));
            assert(is_digit(da[i]));
            lemma_lower_classes(da[i], db[i]);
        }
        assert(da =~= db);
    }
    if all_digits(db) {
        assert forall|i: int| 0 <= i < da.len() implies #[trigger] is_digit(da[i]) by {
            assert(lower(da[i]) == lower(db[i]));
            assert(is_digit(db[i]));
            lemma_lower_classes(da[i], db[i]);
        }
    }
}

proof fn lemma_prefixed(a: Seq<u8>, b: Seq<u8>, p: Seq<u8>, max: usize)
    requires
        eq_ignore_case(a, b),
    ensures
        prefixed_1_based(a, p, max) == prefixed_1_based(b, p, max),
        prefixed_0_based(a, p, max) == prefixed_0_based(b, p, max),
{
    lemma_strip(a, b, p);
    if strip_prefix(a, p) is Some {
        lemma_decimal(strip_prefix(a, p)->0, strip_prefix(b, p)->0);
    }
}

proof fn lemma_expander_pin(a: Seq<u8>, b: Seq<u8>, base: usize)
    requires
        eq_ignore_case(a, b),
    ensures
        expander_pin(a, base) == expander_pin(b, base),
{
    lemma_prefixed(a, b, "X".spec_bytes(), 16);
    lemma_prefixed(a, b, "M".spec_bytes(), 16);
    lemma_prefixed(a, b, "GPA".spec_bytes(), 8);
    lemma_prefixed(a, b, "GPB".spec_bytes(), 8);
}

proof fn lemma_digit_run(a: Seq<u8>, b: Seq<u8>, i: int)
    requires
        eq_ignore_case(a, b),
        0 <= i <= a.len(),
    ensures
        digit_run_end(a, i) == digit_run_end(b, i),
    decreases a.len() - i,
{
    if i < a.len() {
        assert(lower(a[i]) == lower(b[i]));
        lemma_lower_classes(a[i], b[i]);
        lemma_digit_run(a, b, i + 1);
    }
}

proof fn lemma_scoped(a: Seq<u8>, b: Seq<u8>)
    requires
        eq_ignore_case(a, b),
    ensures
        expander_scoped_slot(a) == expander_scoped_slot(b),
{
    let e = "E".spec_bytes();
    lemma_strip(a, b, e);
    if strip_prefix(a, e) is Some {
        let sa = strip_prefix(a, e)->0;
        let sb = strip_prefix(b, e)->0;
        lemma_digit_run(sa, sb, 0);
        let n = digit_run_end(sa, 0);
        crate::ascii::lemma_digit_run_end_bounds(sa, 0);
        lemma_subrange(sa, sb, 0, n);
        lemma_subrange(sa, sb, n, sa.len() as int);
        assert(sa.take(n) =~= sa.subrange(0, n));
        assert(sb.take(n) =~= sb.subrange(0, n));
        assert(sa.skip(n) =~= sa.subrange(n, sa.len() as int));
        assert(sb.skip(n) =~= sb.subrange(n, sb.len() as int));
        lemma_decimal(sa.take(n), sb.take(n));
        if parse_decimal(sa.take(n)) is Some {
            let index = parse_decimal(sa.take(n))->0;
            if 1 <= index && index <= 8 {
                lemma_expander_pin(sa.skip(n), sb.skip(n), (8 + (index - 1) * 16) as usize);
            }
        }
    }
}

proof fn lemma_slot(a: Seq<u8>, b: Seq<u8>)
    requires
        eq_ignore_case(a, b),
    ensures
        slot_result(a) == slot_result(b),
{
    reveal(slot_of);
    lemma_prefixed(a, b, "P".spec_bytes(), 136);
    lemma_decimal(a, b);
    lemma_prefixed(a, b, "GP".spec_bytes(), 9);
    lemma_scoped(a, b);
    lemma_expander_pin(a, b, 8);
}

proof fn lemma_state(a: Seq<u8>, b: Seq<u8>)
    requires
        eq_ignore_case(a, b),
    ensures
        state_result(a) == state_result(b),
{
    reveal(state_of);
    lemma_keyword(a, b, "HIGH");
    lemma_keyword(a, b, "H");
    lemma_keyword(a, b, "ON");
    lemma_keyword(a, b, "1");
    lemma_keyword(a, b, "LOW");
    lemma_keyword(a, b, "L");
    lemma_keyword(a, b, "OFF");
    lemma_keyword(a, b, "0");
    lemma_keyword(a, b, "HI-Z");
    lemma_keyword(a, b, "Z");
    lemma_keyword(a, b, "NEUTRAL");
    lemma_keyword(a, b, "FLOAT");
}

/// Two command lines that agree up to ASCII letter case parse to the same
/// command, or fail with the same message.
pub proof fn law_commands_ignore_case(a: Seq<u8>, b: Seq<u8>)
    requires
        eq_ignore_case(a, b),
    ensures
        command_from_words(words(a)) == command_from_words(words(b)),
{
    lemma_words_from(a, b, 0);
    let wa = words(a);
    let wb = words(b);
    if wa.len() > 0 {
        assert(eq_ignore_case(wa[0], wb[0]));
        lemma_keyword(wa[0], wb[0], "HELP");
        lemma_keyword(wa[0], wb[0], "STATUS");
        lemma_keyword(wa[0], wb[0], "ALL");
        lemma_keyword(wa[0], wb[0], "SET");
        lemma_slot(wa[0], wb[0]);
    }
    if wa.len() > 1 {
        assert(eq_ignore_case(wa[1], wb[1]));
        lemma_state(wa[1], wb[1]);
        lemma_slot(wa[1], wb[1]);
    }
    if wa.len() > 2 {
        assert(eq_ignore_case(wa[2], wb[2]));
        lemma_state(wa[2], wb[2]);
    }
}

} // verus!
