//! Properties that span several functions of the library.

use vstd::prelude::*;

use crate::ascii::{all_digits, digit_run_end, digits_value, is_digit, lower, parse_decimal};
use crate::command::{prefixed_1_based, slot_of, strip_prefix};
use crate::drive::DriveState;
use crate::line::{all_printable, is_printable};
use vstd::utf8::valid_utf8;
use crate::expander::ExpanderState;
use crate::local::{bit_set, drives, law_mask_writes_drive_pin, sio_run, SioWrite};
use crate::mcp23017::{bit16, encodes, is_register_write, I2cWrite, Mcp23017, REG_GPIOA, REG_IODIRA};
use crate::pins::{pins_set_outcome, CommandPins, PinWrites};
use crate::report::{
    bank_entries, bank_entry, device_status, devices_status, local_entries, local_entry,
    status_text,
};
use crate::text::{decimal, digit, text};
use crate::{EXPANDER_SLOT_COUNT, LOCAL_SLOT_COUNT, MAX_EXPANDERS, TOTAL_SLOT_CAPACITY};

verus! {

/// `piece` surrounded by `p` and `q`.
pub open spec fn around(p: Seq<u8>, piece: Seq<u8>, q: Seq<u8>) -> Seq<u8> {
    p + piece + q
}

/// `piece` occurs in `s`.
pub open spec fn contains_text(s: Seq<u8>, piece: Seq<u8>) -> bool {
    exists|p: Seq<u8>, q: Seq<u8>| s == #[trigger] around(p, piece, q)
}

pub(crate) proof fn lemma_contains_extend(s: Seq<u8>, piece: Seq<u8>, a: Seq<u8>, b: Seq<u8>)
    requires
        contains_text(s, piece),
    ensures
        contains_text(a + s + b, piece),
{
    let (p, q) = choose|p: Seq<u8>, q: Seq<u8>| s == #[trigger] around(p, piece, q);
    assert(a + s + b =~= around(a + p, piece, q + b));
}

proof fn lemma_local_entries_split(states: Seq<DriveState>, n: nat, k: nat)
    requires
        k < n,
    ensures
        contains_text(local_entries(states, n), local_entry(k, states[k as int])),
    decreases n,
{
    let e = local_entry(k, states[k as int]);
    let last = local_entry((n - 1) as nat, states[n - 1]);
    if k == n - 1 {
        let p = local_entries(states, (n - 1) as nat);
        assert(local_entries(states, n) =~= around(p, e, Seq::empty()));
    } else {
        lemma_local_entries_split(states, (n - 1) as nat, k);
        lemma_contains_extend(local_entries(states, (n - 1) as nat), e, Seq::empty(), last);
        assert(local_entries(states, n) =~= Seq::empty() + local_entries(states, (n - 1) as nat)
            + last);
    }
}

proof fn lemma_bank_entries_split(device: nat, states: Seq<DriveState>, offset: nat, n: nat, k: nat)
    requires
        k < n,
    ensures
        contains_text(
            bank_entries(device, states, offset, n),
            bank_entry(device, offset + k + 1, states[(offset + k) as int], k + 1 == 8),
        ),
    decreases n,
{
    let e = bank_entry(device, offset + k + 1, states[(offset + k) as int], k + 1 == 8);
    if k == n - 1 {
        let p = bank_entries(device, states, offset, (n - 1) as nat);
        assert(bank_entries(device, states, offset, n) =~= around(p, e, Seq::empty()));
    } else {
        lemma_bank_entries_split(device, states, offset, (n - 1) as nat, k);
        let last = bank_entry(device, offset + n, states[offset + n - 1], n == 8);
        lemma_contains_extend(bank_entries(device, states, offset, (n - 1) as nat), e, Seq::empty(), last);
        assert(bank_entries(device, states, offset, n) =~= Seq::empty() + bank_entries(
            device,
            states,
            offset,
            (n - 1) as nat,
        ) + last);
    }
}

pub(crate) proof fn lemma_devices_status_split(devices: Seq<Mcp23017>, n: nat, d: nat, piece: Seq<u8>)
    requires
        d < n,
        contains_text(device_status(d, devices[d as int]), piece),
    ensures
        contains_text(devices_status(devices, n), piece),
    decreases n,
{
    let last = device_status((n - 1) as nat, devices[n - 1]);
    if d == n - 1 {
        lemma_contains_extend(last, piece, devices_status(devices, (n - 1) as nat), Seq::empty());
        assert(devices_status(devices, n) =~= devices_status(devices, (n - 1) as nat) + last
            + Seq::empty());
    } else {
        lemma_devices_status_split(devices, (n - 1) as nat, d, piece);
        lemma_contains_extend(devices_status(devices, (n - 1) as nat), piece, Seq::empty(), last);
        assert(devices_status(devices, n) =~= Seq::empty() + devices_status(devices, (n - 1) as nat)
            + last);
    }
}

/// Once a local channel is set, the `STATUS` reply lists it in that state:
/// `P<k>=<state>`.
pub proof fn law_status_reports_local_state(
    before: CommandPins,
    after: CommandPins,
    slot: usize,
    state: DriveState,
    writes: PinWrites,
)
    requires
        slot < LOCAL_SLOT_COUNT,
        pins_set_outcome(before, after, slot, state, Ok(writes)),
    ensures
        contains_text(status_text(after), local_entry(slot as nat, state)),
{
    let states = after.local_of().state_seq();
    before.local_of().lemma_lengths();
    assert(states[slot as int] == state);
    lemma_local_entries_split(states, LOCAL_SLOT_COUNT as nat, slot as nat);
    let head = text("STATUS LOCAL ");
    let entries = local_entries(states, LOCAL_SLOT_COUNT as nat);
    let st = status_text(after);
    let tail = st.skip((head.len() + entries.len()) as int);
    assert(st =~= head + entries + tail);
    lemma_contains_extend(entries, local_entry(slot as nat, state), head, tail);
}

/// Once an expander line is set, the `STATUS` reply lists it in that state:
/// `E<e>X<n>=<state>` for line `n` of expander `e`.
#[verifier::spinoff_prover]
pub proof fn law_status_reports_expander_state(
    before: CommandPins,
    after: CommandPins,
    slot: usize,
    state: DriveState,
    writes: PinWrites,
)
    requires
        LOCAL_SLOT_COUNT <= slot,
        pins_set_outcome(before, after, slot, state, Ok(writes)),
    ensures
        ({
            let device = ((slot - LOCAL_SLOT_COUNT) / EXPANDER_SLOT_COUNT as int) as nat;
            let pin = ((slot - LOCAL_SLOT_COUNT) % EXPANDER_SLOT_COUNT as int) as nat;
            contains_text(status_text(after), bank_entry(device, pin + 1, state, pin % 8 == 7))
        }),
{
    let device = ((slot - LOCAL_SLOT_COUNT) / EXPANDER_SLOT_COUNT as int) as nat;
    let pin = ((slot - LOCAL_SLOT_COUNT) % EXPANDER_SLOT_COUNT as int) as nat;
    let before_bank = match before.expander_of() {
        ExpanderState::Ready(b) => b,
        _ => arbitrary(),
    };
    let bank = match after.expander_of() {
        ExpanderState::Ready(b) => b,
        _ => arbitrary(),
    };
    let devices = bank.devices_seq();
    let dev = devices[device as int];
    before_bank.devices_seq()[device as int].lemma_lengths();
    assert(dev.state_seq()[pin as int] == state);
    let e = bank_entry(device, pin + 1, state, pin % 8 == 7);
    lemma_device_status_contains(device, dev, pin);
    lemma_devices_status_split(devices, devices.len(), device, e);
    let st = status_text(after);
    let all = devices_status(devices, devices.len());
    let head = st.take(st.len() - all.len());
    assert(st =~= head + all + Seq::empty());
    lemma_contains_extend(all, e, head, Seq::empty());
}

proof fn lemma_device_status_contains(device: nat, dev: Mcp23017, pin: nat)
    requires
        pin < EXPANDER_SLOT_COUNT,
    ensures
        contains_text(
            device_status(device, dev),
            bank_entry(device, pin + 1, dev.state_seq()[pin as int], pin % 8 == 7),
        ),
{
    let states = dev.state_seq();
    let offset: nat = if pin < 8 {
        0
    } else {
        8
    };
    let k = (pin - offset) as nat;
    let e = bank_entry(device, pin + 1, states[pin as int], pin % 8 == 7);
    lemma_bank_entries_split(device, states, offset, 8, k);
    assert(offset + k == pin);
    assert(k + 1 == 8 <==> pin % 8 == 7);
    let entries = bank_entries(device, states, offset, 8);
    let ds = device_status(device, dev);
    let tail_b = bank_entries(device, states, 8, 8);
    if pin < 8 {
        let rest = text("STATUS E") + decimal(device + 1) + text("B ") + tail_b;
        let head = ds.take(ds.len() - (entries.len() + rest.len()));
        assert(ds =~= head + entries + rest);
        lemma_contains_extend(entries, e, head, rest);
    } else {
        let head = ds.take(ds.len() - entries.len());
        assert(ds =~= head + entries + Seq::empty());
        lemma_contains_extend(entries, e, head, Seq::empty());
    }
}

/// Reading back a printed number gives the number.
pub proof fn law_decimal_round_trip(n: nat)
    requires
        n <= usize::MAX,
    ensures
        parse_decimal(decimal(n)) == Some(n as usize),
{
    lemma_decimal_digits(n);
}

pub(crate) proof fn lemma_decimal_digits(n: nat)
    ensures
        decimal(n).len() > 0,
        all_digits(decimal(n)),
        digits_value(decimal(n)) == n,
        decimal(n)[0] != 43,
    decreases n,
{
    let s = decimal(n);
    if n < 10 {
        assert(s.drop_last() =~= Seq::<u8>::empty());
        assert(s.last() == digit(n));
        assert(digits_value(s) == digits_value(s.drop_last()) * 10 + (s.last() - 48) as nat);
    } else {
        lemma_decimal_digits(n / 10);
        assert(s.drop_last() =~= decimal(n / 10));
        assert((n / 10) * 10 + n % 10 == n) by (nonlinear_arith);
        assert(s.last() == digit(n % 10));
        assert(digits_value(s) == digits_value(s.drop_last()) * 10 + (s.last() - 48) as nat);
        assert forall|i: int| 0 <= i < s.len() implies #[trigger] is_digit(s[i]) by {
            if i < s.len() - 1 {
                assert(is_digit(decimal(n / 10)[i]));
            }
        }
    }
}

pub(crate) proof fn lemma_letters()
    ensures
        text("P") == seq![80u8],
        text("E") == seq![69u8],
        text("X") == seq![88u8],
        text("GP") == seq![71u8, 80u8],
{
    broadcast use vstd::string::is_ascii_spec_bytes;

    reveal_strlit("P");
    reveal_strlit("E");
    reveal_strlit("X");
    reveal_strlit("GP");
    assert(vstd::string::is_ascii("P"));
    assert(vstd::string::is_ascii("E"));
    assert(vstd::string::is_ascii("X"));
    assert(vstd::string::is_ascii("GP"));
    assert(text("P") =~= seq![80u8]);
    assert(text("E") =~= seq![69u8]);
    assert(text("X") =~= seq![88u8]);
    assert(text("GP") =~= seq![71u8, 80u8]);
}

/// A number's digits followed by a non-digit: the digit run ends after them.
pub(crate) proof fn lemma_digit_run_of_decimal(digits: Seq<u8>, rest: Seq<u8>, i: int)
    requires
        0 <= i <= digits.len(),
        all_digits(digits),
        rest.len() > 0,
        !is_digit(rest[0]),
    ensures
        digit_run_end(digits + rest, i) == digits.len(),
    decreases digits.len() - i,
{
    let s = digits + rest;
    if i < digits.len() {
        assert(is_digit(s[i]));
        lemma_digit_run_of_decimal(digits, rest, i + 1);
    } else {
        assert(s[i] == rest[0]);
    }
}

/// `<prefix><n>` with a one-letter prefix reads back as `n`, for `n` in `1..=max`.
proof fn lemma_prefixed_decimal(letter: Seq<u8>, n: nat, max: usize)
    requires
        letter.len() == 1,
        1 <= n <= max,
    ensures
        prefixed_1_based(letter + decimal(n), letter, max) == Some(n as usize),
{
    let t = letter + decimal(n);
    assert(t.take(1) =~= letter);
    assert(t.skip(1) =~= decimal(n));
    law_decimal_round_trip(n);
}

/// Line `m` of expander `n` is also slot number `8 + 16 (n - 1) + m`:
/// `E<n>X<m>` and `P<8 + 16 (n - 1) + m>` name the same slot.
pub proof fn law_expander_alias_matches_global_number(n: nat, m: nat)
    requires
        1 <= n <= MAX_EXPANDERS,
        1 <= m <= EXPANDER_SLOT_COUNT,
    ensures
        slot_of(text("E") + decimal(n) + text("X") + decimal(m)) == Some(
            (LOCAL_SLOT_COUNT + (n - 1) * EXPANDER_SLOT_COUNT + m - 1) as usize,
        ),
        slot_of(text("P") + decimal((LOCAL_SLOT_COUNT + (n - 1) * EXPANDER_SLOT_COUNT + m) as nat))
            == Some((LOCAL_SLOT_COUNT + (n - 1) * EXPANDER_SLOT_COUNT + m - 1) as usize),
{
    reveal(slot_of);
    lemma_letters();
    let k = (LOCAL_SLOT_COUNT + (n - 1) * EXPANDER_SLOT_COUNT + m) as nat;
    assert(k <= TOTAL_SLOT_CAPACITY) by (nonlinear_arith)
        requires
            1 <= n <= 8,
            1 <= m <= 16,
            k == 8 + (n - 1) * 16 + m,
    ;
    lemma_prefixed_decimal(text("P"), k, TOTAL_SLOT_CAPACITY);

    let dn = decimal(n);
    let pin_text = text("X") + decimal(m);
    let t = text("E") + dn + text("X") + decimal(m);
    assert(t =~= text("E") + (dn + pin_text));
    lemma_decimal_digits(n);
    law_decimal_round_trip(n);
    // Not a `P` number, not a plain number, not a `GP` line.
    assert(strip_prefix(t, text("P")) is None) by {
        assert(lower(t.take(1)[0]) != lower(text("P")[0]));
    }
    assert(parse_decimal(t) is None) by {
        assert(!is_digit(t[0]));
    }
    assert(strip_prefix(t, text("GP")) is None) by {
        if 2 <= t.len() {
            assert(lower(t.take(2)[0]) != lower(text("GP")[0]));
        }
    }
    // The expander-scoped form.
    let suffix = dn + pin_text;
    assert(t.take(1) =~= text("E"));
    assert(t.skip(1) =~= suffix);
    assert(strip_prefix(t, text("E")) == Some(suffix));
    assert(!is_digit(pin_text[0]));
    lemma_digit_run_of_decimal(dn, pin_text, 0);
    assert(suffix.take(dn.len() as int) =~= dn);
    assert(suffix.skip(dn.len() as int) =~= pin_text);
    lemma_prefixed_decimal(text("X"), m, EXPANDER_SLOT_COUNT);
}

/// `P<k> <state>` on a local channel drives its line as asked — high,
/// low, or released — and leaves every other line as it was.
pub proof fn law_local_set_drives_line(
    before: CommandPins,
    after: CommandPins,
    slot: usize,
    state: DriveState,
    writes: Vec<SioWrite>,
    out: u32,
    oe: u32,
)
    requires
        slot < LOCAL_SLOT_COUNT,
        pins_set_outcome(before, after, slot, state, Ok(PinWrites::Local(writes))),
    ensures
        ({
            let line = before.local_of().pins()[slot as int];
            let (o, e) = sio_run(out, oe, writes@);
            &&& drives(o, e, line, state)
            &&& forall|q: u8|
                q < 32 && q != line ==> bit_set(o, q) == bit_set(out, q) && bit_set(e, q)
                    == bit_set(oe, q)
        }),
{
    law_mask_writes_drive_pin(out, oe, before.local_of().pins()[slot as int], state);
}

/// Setting an expander line writes register words in which that line is an
/// input when released, and an output at the asked level otherwise.
pub proof fn law_expander_set_drives_line(
    before: CommandPins,
    after: CommandPins,
    slot: usize,
    state: DriveState,
    writes: Vec<I2cWrite>,
)
    requires
        LOCAL_SLOT_COUNT <= slot,
        pins_set_outcome(before, after, slot, state, Ok(PinWrites::Expander(writes))),
    ensures
        ({
            let device = ((slot - LOCAL_SLOT_COUNT) / EXPANDER_SLOT_COUNT as int) as int;
            let pin = ((slot - LOCAL_SLOT_COUNT) % EXPANDER_SLOT_COUNT as int) as int;
            let address = match before.expander_of() {
                ExpanderState::Ready(bank) => bank.devices_seq()[device].addr(),
                _ => 0,
            };
            exists|direction: u16, output: u16|
                #![trigger bit16(direction, pin), bit16(output, pin)]
                {
                    &&& is_register_write(writes@[0], address, REG_GPIOA, output)
                    &&& is_register_write(writes@[1], address, REG_IODIRA, direction)
                    &&& bit16(direction, pin) == (state == DriveState::HiZ)
                    &&& bit16(output, pin) == (state == DriveState::High)
                }
        }),
{
    let device = ((slot - LOCAL_SLOT_COUNT) / EXPANDER_SLOT_COUNT as int) as int;
    let pin = ((slot - LOCAL_SLOT_COUNT) % EXPANDER_SLOT_COUNT as int) as int;
    let b = match before.expander_of() {
        ExpanderState::Ready(bank) => bank,
        _ => arbitrary(),
    };
    let a = match after.expander_of() {
        ExpanderState::Ready(bank) => bank,
        _ => arbitrary(),
    };
    b.devices_seq()[device].lemma_lengths();
    let states = a.devices_seq()[device].state_seq();
    assert(states[pin] == state);
    let (direction, output) = choose|direction: u16, output: u16|
        #![trigger encodes(states, direction, output)]
        {
            &&& encodes(states, direction, output)
            &&& is_register_write(writes@[0], a.devices_seq()[device].addr(), REG_GPIOA, output)
            &&& is_register_write(writes@[1], a.devices_seq()[device].addr(), REG_IODIRA, direction)
        };
    assert(bit16(direction, pin) == (states[pin] == DriveState::HiZ));
    assert(bit16(output, pin) == (states[pin] == DriveState::High));
}

/// Lines assembled from the socket hold printable ASCII only, so they are
/// valid UTF-8 and never meet the "ASCII commands only" reply.
pub proof fn law_printable_lines_are_utf8(line: Seq<u8>)
    requires
        all_printable(line),
    ensures
        valid_utf8(line),
{
    let chars = Seq::new(line.len(), |i: int| line[i] as char);
    assert forall|i: int| 0 <= i < chars.len() implies '\0' <= #[trigger] chars[i] <= '\u{7f}' by {
        assert(is_printable(line[i]));
        vstd::utf8::char_u32_cast(chars[i], line[i] as u32);
    }
    assert(vstd::utf8::is_ascii_chars(chars));
    vstd::utf8::is_ascii_chars_encode_utf8(chars);
    assert forall|i: int| 0 <= i < line.len() implies vstd::utf8::encode_utf8(chars)[i] == line[i] by {
        assert(chars[i] as u8 == vstd::utf8::encode_utf8(chars)[i]);
    }
    assert(vstd::utf8::encode_utf8(chars) =~= line);
    vstd::utf8::encode_utf8_valid_utf8(chars);
}

} // verus!
