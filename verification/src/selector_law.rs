//! Laws tying the names the firmware prints to the names it reads: every
//! selector that a reply prints, read back, names the slot the reply is about.

use vstd::prelude::*;

use crate::ascii::{is_digit, lower, parse_decimal};
use crate::command::{
    state_of, expander_pin, expander_scoped_slot, prefixed_0_based, prefixed_1_based, slot_of, strip_prefix,
};
use crate::laws::{
    law_decimal_round_trip, law_expander_alias_matches_global_number, lemma_decimal_digits,
    lemma_digit_run_of_decimal, lemma_letters,
};
use crate::drive::{state_label, DriveState};
use crate::mcp23017::Mcp23017;
use crate::report::{device_status, first_slot_number, pin_label};
use crate::text::{decimal, hex2, text};
use crate::{CONTROL_PINS, EXPANDER_SLOT_COUNT, LOCAL_SLOT_COUNT, MAX_EXPANDERS, TOTAL_SLOT_CAPACITY};

verus! {

/// `<prefix><n>` reads back as `n`, for `n` in `1..=max`.
proof fn lemma_prefixed_1(prefix: Seq<u8>, n: nat, max: usize)
    requires
        1 <= n <= max,
    ensures
        prefixed_1_based(prefix + decimal(n), prefix, max) == Some(n as usize),
{
    let t = prefix + decimal(n);
    assert(t.take(prefix.len() as int) =~= prefix);
    assert(t.skip(prefix.len() as int) =~= decimal(n));
    law_decimal_round_trip(n);
}

/// `<prefix><n>` reads back as `n`, for `n` below `max`.
proof fn lemma_prefixed_0(prefix: Seq<u8>, n: nat, max: usize)
    requires
        n < max,
    ensures
        prefixed_0_based(prefix + decimal(n), prefix, max) == Some(n as usize),
{
    let t = prefix + decimal(n);
    assert(t.take(prefix.len() as int) =~= prefix);
    assert(t.skip(prefix.len() as int) =~= decimal(n));
    law_decimal_round_trip(n);
}

/// Slot numbers read back: `P<k>` and a bare `<k>` both name slot `k - 1`,
/// for every `k` in `1..=136`.
pub proof fn law_slot_numbers_read_back(k: nat)
    requires
        1 <= k <= TOTAL_SLOT_CAPACITY,
    ensures
        slot_of(text("P") + decimal(k)) == Some((k - 1) as usize),
        slot_of(decimal(k)) == Some((k - 1) as usize),
{
    reveal(slot_of);
    lemma_letters();
    lemma_prefixed_1(text("P"), k, TOTAL_SLOT_CAPACITY);
    lemma_decimal_digits(k);
    law_decimal_round_trip(k);
    let d = decimal(k);
    assert(strip_prefix(d, text("P")) is None) by {
        assert(is_digit(d[0]));
        assert(lower(d.take(1)[0]) != lower(text("P")[0]));
    }
}

/// The local channels are the board's lines `GP2`..`GP9` in order: `GP<n>`
/// names channel `n - 2`, the one wired to that line.
pub proof fn law_gpio_names_read_back(i: nat)
    requires
        i < LOCAL_SLOT_COUNT,
    ensures
        CONTROL_PINS@[i as int] == i + 2,
        slot_of(text("GP") + decimal(i + 2)) == Some(i as usize),
{
    reveal(slot_of);
    lemma_letters();
    let t = text("GP") + decimal(i + 2);
    lemma_prefixed_1(text("GP"), i + 2, 9);
    assert(strip_prefix(t, text("P")) is None) by {
        assert(t[0] == 71u8);
        assert(lower(t.take(1)[0]) != lower(text("P")[0]));
    }
    assert(parse_decimal(t) is None) by {
        assert(t[0] == 71u8);
        assert(!is_digit(t[0]));
    }
}

proof fn lemma_label_letters()
    ensures
        text("(") == seq![40u8],
        text(")") == seq![41u8],
        text("/") == seq![47u8],
        text(".") == seq![46u8],
        text("(P") == seq![40u8, 80u8],
        text("/E") == seq![47u8, 69u8],
        text(".GP") == seq![46u8, 71u8, 80u8],
        text("A") == seq![65u8],
        text("B") == seq![66u8],
        text("GPA") == seq![71u8, 80u8, 65u8],
        text("GPB") == seq![71u8, 80u8, 66u8],
        text("M") == seq![77u8],
{
    broadcast use vstd::string::is_ascii_spec_bytes;

    reveal_strlit("(");
    reveal_strlit(")");
    reveal_strlit("/");
    reveal_strlit(".");
    reveal_strlit("(P");
    reveal_strlit("/E");
    reveal_strlit(".GP");
    reveal_strlit("A");
    reveal_strlit("B");
    reveal_strlit("GPA");
    reveal_strlit("GPB");
    reveal_strlit("M");
    assert(vstd::string::is_ascii("("));
    assert(vstd::string::is_ascii(")"));
    assert(vstd::string::is_ascii("/"));
    assert(vstd::string::is_ascii("."));
    assert(vstd::string::is_ascii("(P"));
    assert(vstd::string::is_ascii("/E"));
    assert(vstd::string::is_ascii(".GP"));
    assert(vstd::string::is_ascii("A"));
    assert(vstd::string::is_ascii("B"));
    assert(vstd::string::is_ascii("GPA"));
    assert(vstd::string::is_ascii("GPB"));
    assert(vstd::string::is_ascii("M"));
    assert(text("(") =~= seq![40u8]);
    assert(text(")") =~= seq![41u8]);
    assert(text("/") =~= seq![47u8]);
    assert(text(".") =~= seq![46u8]);
    assert(text("(P") =~= seq![40u8, 80u8]);
    assert(text("/E") =~= seq![47u8, 69u8]);
    assert(text(".GP") =~= seq![46u8, 71u8, 80u8]);
    assert(text("A") =~= seq![65u8]);
    assert(text("B") =~= seq![66u8]);
    assert(text("GPA") =~= seq![71u8, 80u8, 65u8]);
    assert(text("GPB") =~= seq![71u8, 80u8, 66u8]);
    assert(text("M") =~= seq![77u8]);
}

/// `GPA<b>` and `GPB<b>` of the expander whose first line is slot `base`.
proof fn lemma_port_pin(base: usize, b: nat)
    requires
        b < 8,
        base + EXPANDER_SLOT_COUNT <= TOTAL_SLOT_CAPACITY,
    ensures
        expander_pin(text("GPA") + decimal(b), base) == Some((base + b) as usize),
        expander_pin(text("GPB") + decimal(b), base) == Some((base + 8 + b) as usize),
{
    lemma_letters();
    lemma_label_letters();
    let ta = text("GPA") + decimal(b);
    let tb = text("GPB") + decimal(b);
    lemma_prefixed_0(text("GPA"), b, 8);
    lemma_prefixed_0(text("GPB"), b, 8);
    assert(strip_prefix(ta, text("X")) is None) by {
        assert(lower(ta.take(1)[0]) != lower(text("X")[0]));
    }
    assert(strip_prefix(ta, text("M")) is None) by {
        assert(lower(ta.take(1)[0]) != lower(text("M")[0]));
    }
    assert(strip_prefix(tb, text("X")) is None) by {
        assert(lower(tb.take(1)[0]) != lower(text("X")[0]));
    }
    assert(strip_prefix(tb, text("M")) is None) by {
        assert(lower(tb.take(1)[0]) != lower(text("M")[0]));
    }
    assert(strip_prefix(tb, text("GPA")) is None) by {
        assert(lower(tb.take(3)[2]) != lower(text("GPA")[2]));
    }
}

/// `E<n><pin>`, where `<pin>` starts with a non-digit, is read as pin
/// `<pin>` of expander `n`.
proof fn lemma_scoped_part(n: nat, pin_text: Seq<u8>)
    requires
        1 <= n <= MAX_EXPANDERS,
        pin_text.len() > 0,
        !is_digit(pin_text[0]),
    ensures
        expander_scoped_slot(text("E") + decimal(n) + pin_text) == expander_pin(
            pin_text,
            (LOCAL_SLOT_COUNT + (n - 1) * EXPANDER_SLOT_COUNT) as usize,
        ),
{
    lemma_letters();
    let dn = decimal(n);
    let t = text("E") + dn + pin_text;
    lemma_decimal_digits(n);
    law_decimal_round_trip(n);
    let suffix = dn + pin_text;
    assert(t.take(1) =~= text("E"));
    assert(t.skip(1) =~= suffix);
    assert(strip_prefix(t, text("E")) == Some(suffix));
    lemma_digit_run_of_decimal(dn, pin_text, 0);
    assert(suffix.take(dn.len() as int) =~= dn);
    assert(suffix.skip(dn.len() as int) =~= pin_text);
}

/// `E<n><pin>`, where `<pin>` starts with a non-digit, names what `<pin>`
/// names on expander `n`.
proof fn lemma_scoped_selector(n: nat, pin_text: Seq<u8>)
    requires
        1 <= n <= MAX_EXPANDERS,
        pin_text.len() > 0,
        !is_digit(pin_text[0]),
        expander_pin(pin_text, (LOCAL_SLOT_COUNT + (n - 1) * EXPANDER_SLOT_COUNT) as usize) is Some,
    ensures
        slot_of(text("E") + decimal(n) + pin_text) == expander_pin(
            pin_text,
            (LOCAL_SLOT_COUNT + (n - 1) * EXPANDER_SLOT_COUNT) as usize,
        ),
{
    lemma_letters();
    let t = text("E") + decimal(n) + pin_text;
    lemma_scoped_part(n, pin_text);
    assert(t[0] == 69u8);
    assert(strip_prefix(t, text("P")) is None) by {
        assert(lower(t.take(1)[0]) != lower(text("P")[0]));
    }
    assert(parse_decimal(t) is None) by {
        assert(!is_digit(t[0]));
    }
    assert(strip_prefix(t, text("GP")) is None) by {
        if 2 <= t.len() {
            assert(lower(t.take(2)[0]) != lower(text("GP")[0]));
        }
    }
    assert(prefixed_1_based(t, text("P"), TOTAL_SLOT_CAPACITY) is None);
    assert(prefixed_1_based(t, text("GP"), 9) is None);
    reveal(slot_of);
}

proof fn lemma_local_label(slot: nat)
    requires
        slot < LOCAL_SLOT_COUNT,
    ensures
        pin_label(slot) == (text("GP") + decimal(slot + 2)) + text("(") + (text("P") + decimal(
            slot + 1,
        )) + text(")"),
        slot_of(text("GP") + decimal(slot + 2)) == Some(slot as usize),
        slot_of(text("P") + decimal(slot + 1)) == Some(slot as usize),
{
    lemma_letters();
    lemma_label_letters();
    law_slot_numbers_read_back(slot + 1);
    law_gpio_names_read_back(slot);
    let g = text("GP") + decimal(slot + 2);
    let p = text("P") + decimal(slot + 1);
    assert(text("(P") + decimal(slot + 1) =~= text("(") + p);
    assert(pin_label(slot) =~= g + text("(") + p + text(")"));
}

/// The port pin of expander line `dp`: `GPA<dp>` or `GPB<dp - 8>`.
pub open spec fn port_pin_text(dp: nat) -> Seq<u8> {
    if dp < 8 {
        text("GPA") + decimal(dp)
    } else {
        text("GPB") + decimal((dp - 8) as nat)
    }
}

#[verifier::rlimit(40)]
proof fn lemma_expander_label_text(slot: nat, n: nat, dp: nat)
    requires
        LOCAL_SLOT_COUNT <= slot < TOTAL_SLOT_CAPACITY,
        1 <= n <= MAX_EXPANDERS,
        dp < 16,
        slot == LOCAL_SLOT_COUNT + (n - 1) * EXPANDER_SLOT_COUNT + dp,
    ensures
        pin_label(slot) == (text("E") + decimal(n)) + text(".") + port_pin_text(dp) + text("(") + (
        text("P") + decimal(slot + 1)) + text("/") + (text("E") + decimal(n) + text("X")
            + decimal(dp + 1)) + text(")"),
{
    lemma_letters();
    lemma_label_letters();
    let es = (slot - LOCAL_SLOT_COUNT) as nat;
    assert(es / 16 == n - 1 && es % 16 == dp) by (nonlinear_arith)
        requires
            es == (n - 1) * 16 + dp,
            dp < 16,
            n >= 1,
    ;
    let bank = if dp < 8 {
        text("A")
    } else {
        text("B")
    };
    let bit = dp % 8;
    let e = text("E") + decimal(n);
    let p = text("P") + decimal(slot + 1);
    let x = text("E") + decimal(n) + text("X") + decimal(dp + 1);
    let g = port_pin_text(dp);
    let long = e + text(".GP") + bank + decimal(bit) + text("(P") + decimal(slot + 1) + text("/E")
        + decimal(n) + text("X") + decimal(dp + 1) + text(")");
    assert(pin_label(slot) == long);
    let dot_g = text(".GP") + bank + decimal(bit);
    assert(dot_g =~= text(".") + g);
    let paren_p = text("(P") + decimal(slot + 1);
    assert(paren_p =~= text("(") + p);
    let slash_x = text("/E") + decimal(n) + text("X") + decimal(dp + 1);
    assert(slash_x =~= text("/") + x);
    assert(long =~= e + dot_g + paren_p + slash_x + text(")"));
    assert(e + dot_g + paren_p + slash_x + text(")") =~= e + text(".") + g + text("(") + p + text(
        "/",
    ) + x + text(")"));
}

proof fn lemma_expander_label(slot: nat, n: nat, dp: nat)
    requires
        LOCAL_SLOT_COUNT <= slot < TOTAL_SLOT_CAPACITY,
        1 <= n <= MAX_EXPANDERS,
        dp < 16,
        slot == LOCAL_SLOT_COUNT + (n - 1) * EXPANDER_SLOT_COUNT + dp,
    ensures
        slot_of(text("E") + decimal(n) + port_pin_text(dp)) == Some(slot as usize),
        slot_of(text("P") + decimal(slot + 1)) == Some(slot as usize),
        slot_of(text("E") + decimal(n) + text("X") + decimal(dp + 1)) == Some(slot as usize),
{
    lemma_letters();
    lemma_label_letters();
    law_slot_numbers_read_back(slot + 1);
    let base = (LOCAL_SLOT_COUNT + (n - 1) * EXPANDER_SLOT_COUNT) as usize;
    law_expander_alias_matches_global_number(n, dp + 1);
    let g = port_pin_text(dp);
    if dp < 8 {
        lemma_port_pin(base, dp);
    } else {
        lemma_port_pin(base, (dp - 8) as nat);
    }
    assert(g[0] == 71u8);
    lemma_scoped_selector(n, g);
}

/// Every selector that a channel's label prints names that channel.
///
/// A local channel's label is `<line>(<number>)`, as `GP5(P4)`; an expander
/// line's label is `<expander>.<port pin>(<number>/<expander line>)`, as
/// `E1.GPA7(P16/E1X8)`. Read back as pin selectors, `<line>`, `<number>`,
/// `<expander><port pin>` (as `E1GPA7`) and `<expander line>` each name the
/// slot that was labelled.
pub proof fn law_pin_label_reads_back(slot: nat)
    requires
        slot < TOTAL_SLOT_CAPACITY,
    ensures
        slot < LOCAL_SLOT_COUNT ==> exists|g: Seq<u8>, p: Seq<u8>|
            #![trigger slot_of(g), slot_of(p)]
            {
                &&& pin_label(slot) == g + text("(") + p + text(")")
                &&& slot_of(g) == Some(slot as usize)
                &&& slot_of(p) == Some(slot as usize)
            },
        slot >= LOCAL_SLOT_COUNT ==> exists|e: Seq<u8>, g: Seq<u8>, p: Seq<u8>, x: Seq<u8>|
            #![trigger slot_of(e + g), slot_of(p), slot_of(x)]
            {
                &&& pin_label(slot) == e + text(".") + g + text("(") + p + text("/") + x + text(
                    ")",
                )
                &&& slot_of(e + g) == Some(slot as usize)
                &&& slot_of(p) == Some(slot as usize)
                &&& slot_of(x) == Some(slot as usize)
            },
{
    if slot < LOCAL_SLOT_COUNT {
        lemma_local_label(slot);
        let g = text("GP") + decimal(slot + 2);
        let p = text("P") + decimal(slot + 1);
        assert(slot_of(g) == Some(slot as usize) && slot_of(p) == Some(slot as usize));
    } else {
        let es = (slot - LOCAL_SLOT_COUNT) as nat;
        let n = es / 16 + 1;
        let dp = es % 16;
        assert(es == (n - 1) * 16 + dp && n <= 8) by (nonlinear_arith)
            requires
                es < 128,
                n == es / 16 + 1,
                dp == es % 16,
        ;
        lemma_expander_label(slot, n, dp);
        lemma_expander_label_text(slot, n, dp);
        let e = text("E") + decimal(n);
        let g = port_pin_text(dp);
        assert(e + g =~= text("E") + decimal(n) + g);
        let p = text("P") + decimal(slot + 1);
        let x = text("E") + decimal(n) + text("X") + decimal(dp + 1);
        assert(slot_of(e + g) == Some(slot as usize) && slot_of(p) == Some(slot as usize)
            && slot_of(x) == Some(slot as usize));
    }
}

proof fn lemma_status_letters()
    ensures
        text(" slots=P") == text(" slots=") + text("P"),
        text("..P") == text("..") + text("P"),
{
    broadcast use vstd::string::is_ascii_spec_bytes;

    reveal_strlit(" slots=P");
    reveal_strlit(" slots=");
    reveal_strlit("..P");
    reveal_strlit("..");
    reveal_strlit("P");
    assert(vstd::string::is_ascii(" slots=P"));
    assert(vstd::string::is_ascii(" slots="));
    assert(vstd::string::is_ascii("..P"));
    assert(vstd::string::is_ascii(".."));
    assert(vstd::string::is_ascii("P"));
    assert(text(" slots=P") =~= text(" slots=") + text("P"));
    assert(text("..P") =~= text("..") + text("P"));
}

/// The `STATUS` line about expander `i` gives its number, its address, and
/// the range of slot numbers that reach it: the first number names the slot
/// of the expander's line `E<i+1>X1`, slot `8 + 16 i`, and the last names the
/// slot of its line `E<i+1>X16`, slot `8 + 16 i + 15`.
pub proof fn law_device_status_gives_its_slots(i: nat, d: Mcp23017)
    requires
        i < MAX_EXPANDERS,
    ensures
        exists|first: Seq<u8>, last: Seq<u8>|
            #![trigger slot_of(first), slot_of(last)]
            {
                &&& (text("STATUS E") + decimal(i + 1) + text(" addr=0x") + hex2(d.addr()) + text(
                    " slots=",
                ) + first + text("..") + last + text("\r\n")).is_prefix_of(device_status(i, d))
                &&& slot_of(first) == Some((LOCAL_SLOT_COUNT + i * EXPANDER_SLOT_COUNT) as usize)
                &&& slot_of(first) == slot_of(
                    text("E") + decimal(i + 1) + text("X") + decimal(1),
                )
                &&& slot_of(last) == Some(
                    (LOCAL_SLOT_COUNT + i * EXPANDER_SLOT_COUNT + EXPANDER_SLOT_COUNT - 1) as usize,
                )
                &&& slot_of(last) == slot_of(
                    text("E") + decimal(i + 1) + text("X") + decimal(EXPANDER_SLOT_COUNT as nat),
                )
            },
{
    lemma_status_letters();
    let lo = first_slot_number(i);
    let hi = (first_slot_number(i) + EXPANDER_SLOT_COUNT - 1) as nat;
    assert(lo == 8 + 16 * i + 1 && hi == 8 + 16 * i + 16);
    law_slot_numbers_read_back(lo);
    law_slot_numbers_read_back(hi);
    law_expander_alias_matches_global_number(i + 1, 1);
    law_expander_alias_matches_global_number(i + 1, 16);
    let first = text("P") + decimal(lo);
    let last = text("P") + decimal(hi);
    let head = text("STATUS E") + decimal(i + 1) + text(" addr=0x") + hex2(d.addr());
    let ds = device_status(i, d);
    let line = head + text(" slots=") + first + text("..") + last + text("\r\n");
    assert(line =~= head + text(" slots=P") + decimal(lo) + text("..P") + decimal(hi) + text(
        "\r\n",
    ));
    assert(ds.take(line.len() as int) =~= line);
    assert(slot_of(first) == Some((LOCAL_SLOT_COUNT + i * EXPANDER_SLOT_COUNT) as usize));
    assert(slot_of(last) == Some(
        (LOCAL_SLOT_COUNT + i * EXPANDER_SLOT_COUNT + EXPANDER_SLOT_COUNT - 1) as usize,
    ));
}

/// `X<m>` and `M<m>` of the expander whose first line is slot `base`.
proof fn lemma_line_pin(base: usize, m: nat)
    requires
        1 <= m <= EXPANDER_SLOT_COUNT,
        base + EXPANDER_SLOT_COUNT <= TOTAL_SLOT_CAPACITY,
    ensures
        expander_pin(text("X") + decimal(m), base) == Some((base + m - 1) as usize),
        expander_pin(text("M") + decimal(m), base) == Some((base + m - 1) as usize),
{
    lemma_letters();
    lemma_label_letters();
    let tm = text("M") + decimal(m);
    lemma_prefixed_1(text("X"), m, EXPANDER_SLOT_COUNT);
    lemma_prefixed_1(text("M"), m, EXPANDER_SLOT_COUNT);
    assert(strip_prefix(tm, text("X")) is None) by {
        assert(lower(tm.take(1)[0]) != lower(text("X")[0]));
    }
}

/// A selector that starts with `X`, `M` or `GP` and a letter names a line of
/// the first expander.
proof fn lemma_unscoped_selector(t: Seq<u8>)
    requires
        t.len() > 2,
        t[0] == 88u8 || t[0] == 77u8 || (t[0] == 71u8 && t[1] == 80u8 && !is_digit(t[2]) && t[2]
            != 43u8),
        expander_pin(t, LOCAL_SLOT_COUNT) is Some,
    ensures
        slot_of(t) == expander_pin(t, LOCAL_SLOT_COUNT),
{
    lemma_letters();
    assert(strip_prefix(t, text("P")) is None) by {
        assert(lower(t.take(1)[0]) != lower(text("P")[0]));
    }
    assert(parse_decimal(t) is None) by {
        assert(!is_digit(t[0]));
    }
    assert(prefixed_1_based(t, text("GP"), 9) is None) by {
        if t[0] == 71u8 {
            let rest = t.skip(2);
            assert(rest[0] == t[2]);
            assert(parse_decimal(rest) is None) by {
                if rest.len() > 0 && rest[0] == 43 {
                } else {
                    assert(!is_digit(rest[0]));
                }
            }
        } else {
            assert(lower(t.take(2)[0]) != lower(text("GP")[0]));
        }
    }
    assert(expander_scoped_slot(t) is None) by {
        assert(lower(t.take(1)[0]) != lower(text("E")[0]));
    }
    assert(prefixed_1_based(t, text("P"), TOTAL_SLOT_CAPACITY) is None);
    reveal(slot_of);
}

/// A selector that starts with `X` or `M` names a line of the first expander.
proof fn lemma_unscoped_short(t: Seq<u8>)
    requires
        t.len() > 0,
        t[0] == 88u8 || t[0] == 77u8,
        expander_pin(t, LOCAL_SLOT_COUNT) is Some,
    ensures
        slot_of(t) == expander_pin(t, LOCAL_SLOT_COUNT),
{
    lemma_letters();
    assert(strip_prefix(t, text("P")) is None) by {
        assert(lower(t.take(1)[0]) != lower(text("P")[0]));
    }
    assert(parse_decimal(t) is None) by {
        assert(!is_digit(t[0]));
    }
    assert(strip_prefix(t, text("GP")) is None) by {
        if t.len() >= 2 {
            assert(lower(t.take(2)[0]) != lower(text("GP")[0]));
        }
    }
    assert(expander_scoped_slot(t) is None) by {
        assert(lower(t.take(1)[0]) != lower(text("E")[0]));
    }
    assert(prefixed_1_based(t, text("P"), TOTAL_SLOT_CAPACITY) is None);
    assert(prefixed_1_based(t, text("GP"), 9) is None);
    reveal(slot_of);
}

/// Every name of an expander line reads back as that line: on the first
/// expander `X<m>` and `M<m>` name its line `m` (slot `8 + m - 1`), `GPA<b>`
/// and `GPB<b>` its port A and port B bit `b` (lines `b + 1` and `b + 9`);
/// on expander `n`, `E<n>X<m>`, `E<n>M<m>`, `E<n>GPA<b>` and `E<n>GPB<b>`
/// name the same lines of that expander, `16 (n - 1)` slots further on.
pub proof fn law_expander_names_read_back(n: nat, m: nat, b: nat)
    requires
        1 <= n <= MAX_EXPANDERS,
        1 <= m <= EXPANDER_SLOT_COUNT,
        b < 8,
    ensures
        slot_of(text("X") + decimal(m)) == Some((LOCAL_SLOT_COUNT + m - 1) as usize),
        slot_of(text("M") + decimal(m)) == Some((LOCAL_SLOT_COUNT + m - 1) as usize),
        slot_of(text("GPA") + decimal(b)) == Some((LOCAL_SLOT_COUNT + b) as usize),
        slot_of(text("GPB") + decimal(b)) == Some((LOCAL_SLOT_COUNT + 8 + b) as usize),
        slot_of(text("E") + decimal(n) + (text("X") + decimal(m))) == Some(
            (LOCAL_SLOT_COUNT + (n - 1) * EXPANDER_SLOT_COUNT + m - 1) as usize,
        ),
        slot_of(text("E") + decimal(n) + (text("M") + decimal(m))) == Some(
            (LOCAL_SLOT_COUNT + (n - 1) * EXPANDER_SLOT_COUNT + m - 1) as usize,
        ),
        slot_of(text("E") + decimal(n) + (text("GPA") + decimal(b))) == Some(
            (LOCAL_SLOT_COUNT + (n - 1) * EXPANDER_SLOT_COUNT + b) as usize,
        ),
        slot_of(text("E") + decimal(n) + (text("GPB") + decimal(b))) == Some(
            (LOCAL_SLOT_COUNT + (n - 1) * EXPANDER_SLOT_COUNT + 8 + b) as usize,
        ),
{
    let base = (LOCAL_SLOT_COUNT + (n - 1) * EXPANDER_SLOT_COUNT) as usize;
    assert(base + 16 <= 136);
    let x = text("X") + decimal(m);
    let mm = text("M") + decimal(m);
    let a = text("GPA") + decimal(b);
    let bb = text("GPB") + decimal(b);
    assert(slot_of(x) == Some((LOCAL_SLOT_COUNT + m - 1) as usize)
        && slot_of(mm) == Some((LOCAL_SLOT_COUNT + m - 1) as usize)) by {
        lemma_letters();
        lemma_label_letters();
        lemma_line_pin(LOCAL_SLOT_COUNT, m);
        lemma_unscoped_short(x);
        lemma_unscoped_short(mm);
    }
    assert(slot_of(a) == Some((LOCAL_SLOT_COUNT + b) as usize) && slot_of(bb) == Some(
        (LOCAL_SLOT_COUNT + 8 + b) as usize,
    )) by {
        lemma_letters();
        lemma_label_letters();
        lemma_port_pin(LOCAL_SLOT_COUNT, b);
        lemma_decimal_digits(b);
        assert(a[0] == 71u8 && a[1] == 80u8 && a[2] == 65u8);
        assert(bb[0] == 71u8 && bb[1] == 80u8 && bb[2] == 66u8);
        lemma_unscoped_selector(a);
        lemma_unscoped_selector(bb);
    }
    assert(slot_of(text("E") + decimal(n) + x) == Some((base + m - 1) as usize) && slot_of(
        text("E") + decimal(n) + mm,
    ) == Some((base + m - 1) as usize)) by {
        lemma_letters();
        lemma_label_letters();
        lemma_line_pin(base, m);
        lemma_scoped_selector(n, x);
        lemma_scoped_selector(n, mm);
    }
    assert(slot_of(text("E") + decimal(n) + a) == Some((base + b) as usize) && slot_of(
        text("E") + decimal(n) + bb,
    ) == Some((base + 8 + b) as usize)) by {
        lemma_letters();
        lemma_label_letters();
        lemma_port_pin(base, b);
        lemma_scoped_selector(n, a);
        lemma_scoped_selector(n, bb);
    }
}

/// The name a reply gives a state reads back as that state: `HIGH`, `LOW`
/// and `HI-Z`, sent back as a state word, set what the reply reported.
pub proof fn law_state_labels_read_back(state: DriveState)
    ensures
        state_of(text(state_label(state))) == Some(state),
{
    broadcast use vstd::string::is_ascii_spec_bytes;

    reveal(state_of);
    reveal_strlit("HIGH");
    reveal_strlit("H");
    reveal_strlit("ON");
    reveal_strlit("1");
    reveal_strlit("LOW");
    reveal_strlit("L");
    reveal_strlit("OFF");
    reveal_strlit("0");
    reveal_strlit("HI-Z");
    assert(vstd::string::is_ascii("HIGH"));
    assert(vstd::string::is_ascii("H"));
    assert(vstd::string::is_ascii("ON"));
    assert(vstd::string::is_ascii("1"));
    assert(vstd::string::is_ascii("LOW"));
    assert(vstd::string::is_ascii("L"));
    assert(vstd::string::is_ascii("OFF"));
    assert(vstd::string::is_ascii("0"));
    assert(vstd::string::is_ascii("HI-Z"));
    let t = text(state_label(state));
    match state {
        DriveState::High => {},
        DriveState::Low => {},
        DriveState::HiZ => {
            assert(lower(t[2]) != lower(text("HIGH")[2]));
        },
    }
}

/// A selector that starts with `P`, `G` or a digit and is none of the
/// forms above names no expander line.
proof fn lemma_not_expander_form(t: Seq<u8>)
    requires
        t.len() > 0,
        t[0] == 80u8 || is_digit(t[0]) || (t.len() > 2 && t[0] == 71u8 && is_digit(t[2])),
    ensures
        expander_scoped_slot(t) is None,
        expander_pin(t, LOCAL_SLOT_COUNT) is None,
{
    lemma_letters();
    lemma_label_letters();
    assert(strip_prefix(t, text("E")) is None) by {
        assert(lower(t.take(1)[0]) != lower(text("E")[0]));
    }
    assert(strip_prefix(t, text("X")) is None) by {
        assert(lower(t.take(1)[0]) != lower(text("X")[0]));
    }
    assert(strip_prefix(t, text("M")) is None) by {
        assert(lower(t.take(1)[0]) != lower(text("M")[0]));
    }
    assert(strip_prefix(t, text("GPA")) is None) by {
        if t.len() >= 3 {
            if t[0] == 71u8 {
                assert(lower(t.take(3)[2]) != lower(text("GPA")[2]));
            } else {
                assert(lower(t.take(3)[0]) != lower(text("GPA")[0]));
            }
        }
    }
    assert(strip_prefix(t, text("GPB")) is None) by {
        if t.len() >= 3 {
            if t[0] == 71u8 {
                assert(lower(t.take(3)[2]) != lower(text("GPB")[2]));
            } else {
                assert(lower(t.take(3)[0]) != lower(text("GPB")[0]));
            }
        }
    }
}

/// Numbers out of range are refused, not wrapped or clamped: `P<k>` and a
/// bare `<k>` name no slot unless `k` is in `1..=136`, and `GP<n>` names no
/// slot unless `n` is one of the board's lines `2..=9`.
pub proof fn law_out_of_range_numbers_are_refused(k: nat)
    requires
        k <= usize::MAX,
    ensures
        !(1 <= k <= TOTAL_SLOT_CAPACITY) ==> slot_of(text("P") + decimal(k)) is None && slot_of(
            decimal(k),
        ) is None,
        !(2 <= k <= 9) ==> slot_of(text("GP") + decimal(k)) is None,
{
    lemma_letters();
    lemma_decimal_digits(k);
    law_decimal_round_trip(k);
    let p = text("P") + decimal(k);
    let d = decimal(k);
    let g = text("GP") + decimal(k);
    assert(p.take(1) =~= text("P") && p.skip(1) =~= d);
    assert(g.take(2) =~= text("GP") && g.skip(2) =~= d);
    assert(p[0] == 80u8 && g[0] == 71u8 && g[1] == 80u8 && is_digit(g[2]) && is_digit(d[0]));
    lemma_not_expander_form(p);
    lemma_not_expander_form(d);
    lemma_not_expander_form(g);
    assert(parse_decimal(p) is None) by {
        assert(!is_digit(p[0]));
    }
    assert(parse_decimal(g) is None) by {
        assert(!is_digit(g[0]));
    }
    assert(strip_prefix(p, text("GP")) is None) by {
        if p.len() >= 2 {
            assert(lower(p.take(2)[0]) != lower(text("GP")[0]));
        }
    }
    assert(strip_prefix(d, text("GP")) is None) by {
        if d.len() >= 2 {
            assert(lower(d.take(2)[0]) != lower(text("GP")[0]));
        }
    }
    assert(strip_prefix(d, text("P")) is None) by {
        assert(lower(d.take(1)[0]) != lower(text("P")[0]));
    }
    assert(strip_prefix(g, text("P")) is None) by {
        assert(lower(g.take(1)[0]) != lower(text("P")[0]));
    }
    reveal(slot_of);
}

} // verus!
