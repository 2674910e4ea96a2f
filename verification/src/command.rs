//! The ASCII command language: `HELP`, `STATUS`, `ALL <state>`,
//! `[SET] <pin> <state>`, with the pin and state aliases the firmware accepts.

use vstd::prelude::*;
use vstd::string::StringSliceAdditionalSpecFns;

use crate::ascii::{
    digit_run_end, eq_ignore_ascii_case, eq_ignore_case, is_ascii_digit, is_keyword, lower, matches_keyword,
    parse_decimal, parse_usize, split_ascii_whitespace, words,
};
use crate::drive::DriveState;
use crate::{EXPANDER_SLOT_COUNT, LOCAL_SLOT_COUNT, MAX_EXPANDERS, TOTAL_SLOT_CAPACITY};

verus! {

pub const EMPTY_COMMAND: &'static str = "empty command";

pub const MISSING_ALL_STATE: &'static str = "missing state for ALL";

pub const TOO_MANY_ARGUMENTS: &'static str = "too many arguments";

pub const MISSING_SET_PIN: &'static str = "missing pin after SET";

pub const MISSING_SET_STATE: &'static str = "missing state after pin";

pub const MISSING_STATE: &'static str = "missing state";

pub const UNKNOWN_PIN: &'static str =
    "unknown pin, use P1..P136, GP2..GP9, X1..X16, GPA0..GPB7, or E1X1..E8GPB7";

pub const UNKNOWN_STATE: &'static str = "unknown state, use HIGH, LOW, or HI-Z";

/// A command line, once parsed.
#[derive(Clone, Copy, PartialEq, Eq, Structural, Debug)]
pub enum ParsedCommand {
    Help,
    Status,
    SetOne { slot: usize, state: DriveState },
    SetAll(DriveState),
}

/// `token` with `prefix` taken off its front, where the two agree up to ASCII case.
pub open spec fn strip_prefix(token: Seq<u8>, prefix: Seq<u8>) -> Option<Seq<u8>> {
    if prefix.len() <= token.len() && eq_ignore_case(token.take(prefix.len() as int), prefix) {
        Some(token.skip(prefix.len() as int))
    } else {
        None
    }
}

/// `token` is `prefix` then a number in `1..=max`; that number.
pub open spec fn prefixed_1_based(token: Seq<u8>, prefix: Seq<u8>, max: usize) -> Option<usize> {
    match strip_prefix(token, prefix) {
        Some(rest) => match parse_decimal(rest) {
            Some(v) => if 1 <= v && v <= max {
                Some(v)
            } else {
                None
            },
            None => None,
        },
        None => None,
    }
}

/// `token` is `prefix` then a number below `max`; that number.
pub open spec fn prefixed_0_based(token: Seq<u8>, prefix: Seq<u8>, max: usize) -> Option<usize> {
    match strip_prefix(token, prefix) {
        Some(rest) => match parse_decimal(rest) {
            Some(v) => if v < max {
                Some(v)
            } else {
                None
            },
            None => None,
        },
        None => None,
    }
}

/// A pin of one expander, named relative to the slot `base` of its first line:
/// `X1`..`X16`, `M1`..`M16`, `GPA0`..`GPA7`, `GPB0`..`GPB7`.
pub open spec fn expander_pin(pin: Seq<u8>, base: usize) -> Option<usize> {
    let x = prefixed_1_based(pin, "X".spec_bytes(), EXPANDER_SLOT_COUNT);
    let m = prefixed_1_based(pin, "M".spec_bytes(), EXPANDER_SLOT_COUNT);
    let a = prefixed_0_based(pin, "GPA".spec_bytes(), 8);
    let b = prefixed_0_based(pin, "GPB".spec_bytes(), 8);
    if x is Some {
        Some((base + x->0 - 1) as usize)
    } else if m is Some {
        Some((base + m->0 - 1) as usize)
    } else if a is Some {
        Some((base + a->0) as usize)
    } else if b is Some {
        Some((base + 8 + b->0) as usize)
    } else {
        None
    }
}

/// The slot named by `E<n><pin>`, with `n` in `1..=8`.
pub open spec fn expander_scoped_slot(token: Seq<u8>) -> Option<usize> {
    match strip_prefix(token, "E".spec_bytes()) {
        Some(suffix) => {
            let n = digit_run_end(suffix, 0);
            if n == 0 {
                None
            } else {
                match parse_decimal(suffix.take(n)) {
                    Some(index) => if 1 <= index && index <= MAX_EXPANDERS {
                        expander_pin(
                            suffix.skip(n),
                            (LOCAL_SLOT_COUNT + (index - 1) * EXPANDER_SLOT_COUNT) as usize,
                        )
                    } else {
                        None
                    },
                    None => None,
                }
            }
        },
        None => None,
    }
}

/// The zero-based slot that a pin selector names, trying the alias forms in order.
#[verifier::opaque]
pub open spec fn slot_of(token: Seq<u8>) -> Option<usize> {
    let p = prefixed_1_based(token, "P".spec_bytes(), TOTAL_SLOT_CAPACITY);
    let n = parse_decimal(token);
    let gp = prefixed_1_based(token, "GP".spec_bytes(), 9);
    let e = expander_scoped_slot(token);
    if p is Some {
        Some((p->0 - 1) as usize)
    } else if n is Some && 1 <= n->0 <= TOTAL_SLOT_CAPACITY {
        Some((n->0 - 1) as usize)
    } else if gp is Some && 2 <= gp->0 <= 9 {
        Some((gp->0 - 2) as usize)
    } else if e is Some {
        e
    } else {
        expander_pin(token, LOCAL_SLOT_COUNT)
    }
}

/// `parse_slot` as a value.
pub open spec fn slot_result(token: Seq<u8>) -> Result<usize, &'static str> {
    match slot_of(token) {
        Some(slot) => Ok(slot),
        None => Err(UNKNOWN_PIN),
    }
}

/// The state a state word names.
#[verifier::opaque]
pub open spec fn state_of(token: Seq<u8>) -> Option<DriveState> {
    if is_keyword(token, "HIGH") || is_keyword(token, "H") || is_keyword(token, "ON")
        || is_keyword(token, "1") {
        Some(DriveState::High)
    } else if is_keyword(token, "LOW") || is_keyword(token, "L") || is_keyword(token, "OFF")
        || is_keyword(token, "0") {
        Some(DriveState::Low)
    } else if is_keyword(token, "HI-Z") || is_keyword(token, "Z") || is_keyword(token, "NEUTRAL")
        || is_keyword(token, "FLOAT") {
        Some(DriveState::HiZ)
    } else {
        None
    }
}

/// `parse_state` as a value.
pub open spec fn state_result(token: Seq<u8>) -> Result<DriveState, &'static str> {
    match state_of(token) {
        Some(state) => Ok(state),
        None => Err(UNKNOWN_STATE),
    }
}

/// A pin word and a state word, read as one `SetOne` command.
pub open spec fn set_one(pin: Seq<u8>, state: Seq<u8>) -> Result<ParsedCommand, &'static str> {
    match slot_result(pin) {
        Err(e) => Err(e),
        Ok(slot) => match state_result(state) {
            Err(e) => Err(e),
            Ok(state) => Ok(ParsedCommand::SetOne { slot, state }),
        },
    }
}

/// The command that a line's words make.
///
/// `HELP` and `STATUS` stand alone; with more words after them, the word after
/// them is taken and dropped, and the line is read as `<pin> <state>` with the
/// next word as its state (so `HELP X` lacks a state).
pub open spec fn command_from_words(w: Seq<Seq<u8>>) -> Result<ParsedCommand, &'static str> {
    if w.len() == 0 {
        Err(EMPTY_COMMAND)
    } else if is_keyword(w[0], "HELP") && w.len() == 1 {
        Ok(ParsedCommand::Help)
    } else if is_keyword(w[0], "STATUS") && w.len() == 1 {
        Ok(ParsedCommand::Status)
    } else if is_keyword(w[0], "ALL") {
        if w.len() < 2 {
            Err(MISSING_ALL_STATE)
        } else if w.len() > 2 {
            Err(TOO_MANY_ARGUMENTS)
        } else {
            match state_result(w[1]) {
                Ok(state) => Ok(ParsedCommand::SetAll(state)),
                Err(e) => Err(e),
            }
        }
    } else if is_keyword(w[0], "SET") {
        if w.len() < 2 {
            Err(MISSING_SET_PIN)
        } else if w.len() < 3 {
            Err(MISSING_SET_STATE)
        } else if w.len() > 3 {
            Err(TOO_MANY_ARGUMENTS)
        } else {
            set_one(w[1], w[2])
        }
    } else {
        let i: int = if is_keyword(w[0], "HELP") || is_keyword(w[0], "STATUS") {
            2
        } else {
            1
        };
        if w.len() <= i {
            Err(MISSING_STATE)
        } else if w.len() > i + 1 {
            Err(TOO_MANY_ARGUMENTS)
        } else {
            set_one(w[0], w[i])
        }
    }
}

/// The four command words differ from one another, in any case.
pub proof fn lemma_command_words_distinct(w: Seq<u8>)
    ensures
        !(is_keyword(w, "HELP") && is_keyword(w, "STATUS")),
        !(is_keyword(w, "HELP") && is_keyword(w, "ALL")),
        !(is_keyword(w, "HELP") && is_keyword(w, "SET")),
        !(is_keyword(w, "STATUS") && is_keyword(w, "ALL")),
        !(is_keyword(w, "STATUS") && is_keyword(w, "SET")),
        !(is_keyword(w, "ALL") && is_keyword(w, "SET")),
{
    broadcast use vstd::string::is_ascii_spec_bytes;

    reveal_strlit("HELP");
    reveal_strlit("STATUS");
    reveal_strlit("ALL");
    reveal_strlit("SET");
    assert(vstd::string::is_ascii("HELP"));
    assert(vstd::string::is_ascii("STATUS"));
    assert(vstd::string::is_ascii("ALL"));
    assert(vstd::string::is_ascii("SET"));
    if is_keyword(w, "ALL") && is_keyword(w, "SET") {
        assert(lower(w[0]) == lower("ALL".spec_bytes()[0]));
        assert(lower(w[0]) == lower("SET".spec_bytes()[0]));
    }
}

/// Parses one command line.
pub fn parse_command(line: &str) -> (r: Result<ParsedCommand, &'static str>)
    ensures
        r == command_from_words(words(line.spec_bytes())),
        r matches Ok(ParsedCommand::SetOne { slot, state }) ==> slot < TOTAL_SLOT_CAPACITY,
{
    let parts = split_ascii_whitespace(line.as_bytes());
    let ghost w = words(line.spec_bytes());
    assert(parts@.len() == w.len());
    if parts.len() == 0 {
        return Err(EMPTY_COMMAND);
    }
    let first = parts[0];
    let mut next: usize = 1;
    proof {
        lemma_command_words_distinct(first@);
    }

    if matches_keyword(first, "HELP") {
        if next == parts.len() {
            return Ok(ParsedCommand::Help);
        }
        next = next + 1;
    }
    if matches_keyword(first, "STATUS") {
        if next == parts.len() {
            return Ok(ParsedCommand::Status);
        }
        next = next + 1;
    }
    if matches_keyword(first, "ALL") {
        if next == parts.len() {
            return Err(MISSING_ALL_STATE);
        }
        let state = parts[next];
        if next + 1 < parts.len() {
            return Err(TOO_MANY_ARGUMENTS);
        }
        return match parse_state(state) {
            Ok(s) => Ok(ParsedCommand::SetAll(s)),
            Err(e) => Err(e),
        };
    }
    if matches_keyword(first, "SET") {
        if next == parts.len() {
            return Err(MISSING_SET_PIN);
        }
        let target = parts[next];
        if next + 1 == parts.len() {
            return Err(MISSING_SET_STATE);
        }
        let state = parts[next + 1];
        if next + 2 < parts.len() {
            return Err(TOO_MANY_ARGUMENTS);
        }
        return set_one_exec(target, state);
    }
    if next >= parts.len() {
        return Err(MISSING_STATE);
    }
    let state = parts[next];
    if next + 1 < parts.len() {
        return Err(TOO_MANY_ARGUMENTS);
    }
    set_one_exec(first, state)
}

fn set_one_exec(pin: &[u8], state: &[u8]) -> (r: Result<ParsedCommand, &'static str>)
    ensures
        r == set_one(pin@, state@),
        r matches Ok(ParsedCommand::SetOne { slot, state }) ==> slot < TOTAL_SLOT_CAPACITY,
{
    let slot = match parse_slot(pin) {
        Ok(slot) => slot,
        Err(e) => return Err(e),
    };
    let state = match parse_state(state) {
        Ok(state) => state,
        Err(e) => return Err(e),
    };
    Ok(ParsedCommand::SetOne { slot, state })
}

/// Reads a pin selector as a zero-based slot.
pub fn parse_slot(token: &[u8]) -> (r: Result<usize, &'static str>)
    ensures
        r == slot_result(token@),
        r matches Ok(slot) ==> slot < TOTAL_SLOT_CAPACITY,
{
    reveal(slot_of);
    if let Some(slot) = parse_prefixed_1_based(token, "P", TOTAL_SLOT_CAPACITY) {
        return Ok(slot - 1);
    }
    if let Some(slot) = parse_usize(token) {
        if 1 <= slot && slot <= TOTAL_SLOT_CAPACITY {
            return Ok(slot - 1);
        }
    }
    if let Some(pin) = parse_prefixed_1_based(token, "GP", 9) {
        if 2 <= pin && pin <= 9 {
            return Ok(pin - 2);
        }
    }
    if let Some(slot) = parse_expander_scoped_slot(token) {
        return Ok(slot);
    }
    if let Some(slot) = parse_expander_pin(token, LOCAL_SLOT_COUNT) {
        return Ok(slot);
    }
    Err(UNKNOWN_PIN)
}

/// Reads `X<n>`, `M<n>`, `GPA<n>` or `GPB<n>` as a slot counted from `base`.
fn parse_expander_pin(pin_text: &[u8], base: usize) -> (r: Option<usize>)
    requires
        base + EXPANDER_SLOT_COUNT <= TOTAL_SLOT_CAPACITY,
    ensures
        r == expander_pin(pin_text@, base),
        r matches Some(slot) ==> base <= slot < base + EXPANDER_SLOT_COUNT,
{
    if let Some(slot) = parse_prefixed_1_based(pin_text, "X", EXPANDER_SLOT_COUNT) {
        return Some(base + slot - 1);
    }
    if let Some(slot) = parse_prefixed_1_based(pin_text, "M", EXPANDER_SLOT_COUNT) {
        return Some(base + slot - 1);
    }
    if let Some(bit) = parse_prefixed_0_based(pin_text, "GPA", 8) {
        return Some(base + bit);
    }
    if let Some(bit) = parse_prefixed_0_based(pin_text, "GPB", 8) {
        return Some(base + 8 + bit);
    }
    None
}

/// Reads `E<n><pin>`: pin `<pin>` of expander `n`, as a zero-based slot.
pub fn parse_expander_scoped_slot(token: &[u8]) -> (r: Option<usize>)
    ensures
        r == expander_scoped_slot(token@),
        r matches Some(slot) ==> LOCAL_SLOT_COUNT <= slot < TOTAL_SLOT_CAPACITY,
{
    let suffix = match strip_ascii_prefix(token, "E") {
        Some(s) => s,
        None => return None,
    };
    let mut digits_len: usize = 0;
    while digits_len < suffix.len() && is_ascii_digit(suffix[digits_len])
        invariant
            digits_len <= suffix@.len(),
            digit_run_end(suffix@, 0) == digit_run_end(suffix@, digits_len as int),
        decreases suffix@.len() - digits_len,
    {
        digits_len = digits_len + 1;
    }
    if digits_len == 0 {
        return None;
    }
    let (expander_text, pin_text) = suffix.split_at(digits_len);
    assert(expander_text@ =~= suffix@.take(digits_len as int));
    assert(pin_text@ =~= suffix@.skip(digits_len as int));
    let expander_index = match parse_usize(expander_text) {
        Some(v) => v,
        None => return None,
    };
    if !(1 <= expander_index && expander_index <= MAX_EXPANDERS) {
        return None;
    }
    let base = LOCAL_SLOT_COUNT + (expander_index - 1) * EXPANDER_SLOT_COUNT;
    parse_expander_pin(pin_text, base)
}

/// Reads `<prefix><n>` with `n` in `1..=max`.
pub fn parse_prefixed_1_based(token: &[u8], prefix: &str, max: usize) -> (r: Option<usize>)
    ensures
        r == prefixed_1_based(token@, prefix.spec_bytes(), max),
{
    let suffix = match strip_ascii_prefix(token, prefix) {
        Some(s) => s,
        None => return None,
    };
    let value = match parse_usize(suffix) {
        Some(v) => v,
        None => return None,
    };
    if 1 <= value && value <= max {
        Some(value)
    } else {
        None
    }
}

/// Reads `<prefix><n>` with `n` below `max`.
pub fn parse_prefixed_0_based(token: &[u8], prefix: &str, max: usize) -> (r: Option<usize>)
    ensures
        r == prefixed_0_based(token@, prefix.spec_bytes(), max),
{
    let suffix = match strip_ascii_prefix(token, prefix) {
        Some(s) => s,
        None => return None,
    };
    let value = match parse_usize(suffix) {
        Some(v) => v,
        None => return None,
    };
    if value < max {
        Some(value)
    } else {
        None
    }
}

/// `token` without `prefix`, where its front is `prefix` up to ASCII case.
pub fn strip_ascii_prefix<'a>(token: &'a [u8], prefix: &str) -> (r: Option<&'a [u8]>)
    ensures
        match r {
            Some(rest) => strip_prefix(token@, prefix.spec_bytes()) == Some(rest@),
            None => strip_prefix(token@, prefix.spec_bytes()) is None,
        },
{
    let p = prefix.as_bytes();
    if p.len() > token.len() {
        return None;
    }
    let head = &token[0..p.len()];
    assert(head@ =~= token@.take(p@.len() as int));
    if eq_ignore_ascii_case(head, p) {
        let rest = &token[p.len()..token.len()];
        assert(rest@ =~= token@.skip(p@.len() as int));
        Some(rest)
    } else {
        None
    }
}

/// Reads a state word: `HIGH`/`H`/`ON`/`1`, `LOW`/`L`/`OFF`/`0`,
/// `HI-Z`/`Z`/`NEUTRAL`/`FLOAT`, in any ASCII case.
pub fn parse_state(token: &[u8]) -> (r: Result<DriveState, &'static str>)
    ensures
        r == state_result(token@),
{
    reveal(state_of);
    if matches_keyword(token, "HIGH") || matches_keyword(token, "H") || matches_keyword(
        token,
        "ON",
    ) || matches_keyword(token, "1") {
        return Ok(DriveState::High);
    }
    if matches_keyword(token, "LOW") || matches_keyword(token, "L") || matches_keyword(
        token,
        "OFF",
    ) || matches_keyword(token, "0") {
        return Ok(DriveState::Low);
    }
    if matches_keyword(token, "HI-Z") || matches_keyword(token, "Z") || matches_keyword(
        token,
        "NEUTRAL",
    ) || matches_keyword(token, "FLOAT") {
        return Ok(DriveState::HiZ);
    }
    Err(UNKNOWN_STATE)
}

} // verus!
