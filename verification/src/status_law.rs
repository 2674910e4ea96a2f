//! The `STATUS` reply read back: every channel that was set appears in it as
//! `<selector>=<state>`, where the selector names that channel and the state
//! word names the state it was set to.

use vstd::prelude::*;

use crate::command::{slot_of, state_of};
use crate::drive::DriveState;
use crate::expander::ExpanderState;
use crate::laws::{contains_text, around, lemma_contains_extend, lemma_devices_status_split, law_expander_alias_matches_global_number};
use crate::mcp23017::Mcp23017;
use crate::pins::{pins_set_outcome, CommandPins, PinWrites};
use crate::report::{
    bank_entries, bank_entry, device_status, devices_status, label_text, local_entries,
    local_entry, separator, status_text,
};
use crate::selector_law::{law_slot_numbers_read_back, law_state_labels_read_back};
use crate::text::{decimal, hex2, text};
use crate::{EXPANDER_SLOT_COUNT, LOCAL_SLOT_COUNT, TOTAL_SLOT_CAPACITY};

verus! {

proof fn lemma_spaces()
    ensures
        text(" ") == seq![32u8],
        text("A ").len() == 2 && text("A ")[1] == 32u8,
        text("B ").len() == 2 && text("B ")[1] == 32u8,
        text("STATUS LOCAL ").len() == 13 && text("STATUS LOCAL ")[12] == 32u8,
        text("\r\n") == seq![13u8, 10u8],
{
    broadcast use vstd::string::is_ascii_spec_bytes;

    reveal_strlit(" ");
    reveal_strlit("A ");
    reveal_strlit("B ");
    reveal_strlit("STATUS LOCAL ");
    reveal_strlit("\r\n");
    assert(vstd::string::is_ascii(" "));
    assert(vstd::string::is_ascii("A "));
    assert(vstd::string::is_ascii("B "));
    assert(vstd::string::is_ascii("STATUS LOCAL "));
    assert(vstd::string::is_ascii("\r\n"));
    assert(text(" ") =~= seq![32u8]);
    assert(text("\r\n") =~= seq![13u8, 10u8]);
}

/// `pre` followed by the first `n` local entries ends with a space, while
/// `n` is below the number of local channels.
proof fn lemma_local_ends_in_space(pre: Seq<u8>, states: Seq<DriveState>, n: nat)
    requires
        pre.len() > 0,
        pre.last() == 32u8,
        n < LOCAL_SLOT_COUNT,
    ensures
        (pre + local_entries(states, n)).len() > 0,
        (pre + local_entries(states, n)).last() == 32u8,
{
    lemma_spaces();
    if n > 0 {
        assert(local_entries(states, n) == local_entries(states, (n - 1) as nat) + local_entry(
            (n - 1) as nat,
            states[n - 1],
        ));
        assert(separator(false) == text(" "));
    }
}

proof fn lemma_local_spaced(pre: Seq<u8>, states: Seq<DriveState>, n: nat, k: nat)
    requires
        pre.len() > 0,
        pre.last() == 32u8,
        k < n <= LOCAL_SLOT_COUNT,
    ensures
        contains_text(pre + local_entries(states, n), text(" ") + local_entry(k, states[k as int])),
    decreases n,
{
    lemma_spaces();
    let e = text(" ") + local_entry(k, states[k as int]);
    let x = pre + local_entries(states, (n - 1) as nat);
    let last = local_entry((n - 1) as nat, states[n - 1]);
    assert(pre + local_entries(states, n) =~= x + last);
    if k == n - 1 {
        lemma_local_ends_in_space(pre, states, (n - 1) as nat);
        assert(x + last =~= around(x.drop_last(), e, Seq::empty()));
    } else {
        lemma_local_spaced(pre, states, (n - 1) as nat, k);
        lemma_contains_extend(x, e, Seq::empty(), last);
        assert(x + last =~= Seq::empty() + x + last);
    }
}

proof fn lemma_bank_ends_in_space(
    pre: Seq<u8>,
    device: nat,
    states: Seq<DriveState>,
    offset: nat,
    n: nat,
)
    requires
        pre.len() > 0,
        pre.last() == 32u8,
        n < 8,
    ensures
        (pre + bank_entries(device, states, offset, n)).len() > 0,
        (pre + bank_entries(device, states, offset, n)).last() == 32u8,
{
    lemma_spaces();
    if n > 0 {
        assert(separator(false) == text(" "));
    }
}

proof fn lemma_bank_spaced(
    pre: Seq<u8>,
    device: nat,
    states: Seq<DriveState>,
    offset: nat,
    n: nat,
    k: nat,
)
    requires
        pre.len() > 0,
        pre.last() == 32u8,
        k < n <= 8,
    ensures
        contains_text(
            pre + bank_entries(device, states, offset, n),
            text(" ") + bank_entry(device, offset + k + 1, states[(offset + k) as int], k + 1 == 8),
        ),
    decreases n,
{
    lemma_spaces();
    let e = text(" ") + bank_entry(device, offset + k + 1, states[(offset + k) as int], k + 1 == 8);
    let x = pre + bank_entries(device, states, offset, (n - 1) as nat);
    let last = bank_entry(device, offset + n, states[offset + n - 1], n == 8);
    assert(pre + bank_entries(device, states, offset, n) =~= x + last);
    if k == n - 1 {
        lemma_bank_ends_in_space(pre, device, states, offset, (n - 1) as nat);
        assert(x + last =~= around(x.drop_last(), e, Seq::empty()));
    } else {
        lemma_bank_spaced(pre, device, states, offset, (n - 1) as nat, k);
        lemma_contains_extend(x, e, Seq::empty(), last);
        assert(x + last =~= Seq::empty() + x + last);
    }
}

proof fn lemma_device_status_spaced(device: nat, dev: Mcp23017, pin: nat)
    requires
        pin < EXPANDER_SLOT_COUNT,
    ensures
        contains_text(
            device_status(device, dev),
            text(" ") + bank_entry(device, pin + 1, dev.state_seq()[pin as int], pin % 8 == 7),
        ),
{
    lemma_spaces();
    let states = dev.state_seq();
    let e = text(" ") + bank_entry(device, pin + 1, states[pin as int], pin % 8 == 7);
    let ds = device_status(device, dev);
    let pre_a = text("STATUS E") + decimal(device + 1) + text("A ");
    let pre_b = text("STATUS E") + decimal(device + 1) + text("B ");
    let bank_a = bank_entries(device, states, 0, 8);
    let bank_b = bank_entries(device, states, 8, 8);
    if pin < 8 {
        lemma_bank_spaced(pre_a, device, states, 0, 8, pin);
        assert(pin + 1 == 8 <==> pin % 8 == 7);
        let tail = pre_b + bank_b;
        let head = ds.take(ds.len() - (pre_a + bank_a + tail).len());
        assert(ds =~= head + (pre_a + bank_a) + tail);
        lemma_contains_extend(pre_a + bank_a, e, head, tail);
    } else {
        let k = (pin - 8) as nat;
        lemma_bank_spaced(pre_b, device, states, 8, 8, k);
        assert(8 + k + 1 == pin + 1);
        assert(k + 1 == 8 <==> pin % 8 == 7);
        let head = ds.take(ds.len() - (pre_b + bank_b).len());
        assert(ds =~= head + (pre_b + bank_b) + Seq::empty());
        lemma_contains_extend(pre_b + bank_b, e, head, Seq::empty());
    }
}

proof fn lemma_local_status_entry(after: CommandPins, slot: usize, state: DriveState)
    requires
        slot < LOCAL_SLOT_COUNT,
        after.local_of().state_seq().len() == LOCAL_SLOT_COUNT,
        after.local_of().state_seq()[slot as int] == state,
    ensures
        contains_text(
            status_text(after),
            text(" ") + (text("P") + decimal((slot + 1) as nat)) + text("=") + label_text(state)
                + separator(slot + 1 == LOCAL_SLOT_COUNT),
        ),
{
    let states = after.local_of().state_seq();
    let st = status_text(after);
    lemma_spaces();
    let pre = text("STATUS LOCAL ");
    lemma_local_spaced(pre, states, LOCAL_SLOT_COUNT as nat, slot as nat);
    let entries = local_entries(states, LOCAL_SLOT_COUNT as nat);
    let tail = st.skip((pre.len() + entries.len()) as int);
    assert(st =~= Seq::empty() + (pre + entries) + tail);
    let e = text(" ") + local_entry(slot as nat, state);
    lemma_contains_extend(pre + entries, e, Seq::empty(), tail);
    assert(e =~= text(" ") + (text("P") + decimal((slot + 1) as nat)) + text("=") + label_text(
        state,
    ) + separator(slot + 1 == LOCAL_SLOT_COUNT));
}

proof fn lemma_expander_status_entry(
    before: CommandPins,
    after: CommandPins,
    slot: usize,
    state: DriveState,
    writes: PinWrites,
    device: nat,
    pin: nat,
)
    requires
        LOCAL_SLOT_COUNT <= slot < TOTAL_SLOT_CAPACITY,
        pins_set_outcome(before, after, slot, state, Ok(writes)),
        device == ((slot - LOCAL_SLOT_COUNT) / EXPANDER_SLOT_COUNT as int) as nat,
        pin == ((slot - LOCAL_SLOT_COUNT) % EXPANDER_SLOT_COUNT as int) as nat,
    ensures
        contains_text(
            status_text(after),
            text(" ") + bank_entry(device, pin + 1, state, pin % 8 == 7),
        ),
{
    let st = status_text(after);
    let before_bank = match before.expander_of() {
        ExpanderState::Ready(b) => b,
        _ => arbitrary(),
    };
    let bank = match after.expander_of() {
        ExpanderState::Ready(b) => b,
        _ => arbitrary(),
    };
    let devices = bank.devices_seq();
    let dev = devices[device as int];
    before_bank.devices_seq()[device as int].lemma_lengths();
    assert(dev.state_seq()[pin as int] == state);
    let e = text(" ") + bank_entry(device, pin + 1, state, pin % 8 == 7);
    lemma_device_status_spaced(device, dev, pin);
    lemma_devices_status_split(devices, devices.len(), device, e);
    let all = devices_status(devices, devices.len());
    let head = st.take(st.len() - all.len());
    assert(st =~= head + all + Seq::empty());
    lemma_contains_extend(all, e, head, Seq::empty());
}

/// Once a channel is set, the `STATUS` reply holds an entry
/// ` <selector>=<state word>` followed by a space or the line end, in which
/// the selector, read as a pin selector, names that channel, and the state
/// word, read as a state, is the state it was set to.
pub proof fn law_status_entry_reads_back(
    before: CommandPins,
    after: CommandPins,
    slot: usize,
    state: DriveState,
    writes: PinWrites,
)
    requires
        slot < TOTAL_SLOT_CAPACITY,
        pins_set_outcome(before, after, slot, state, Ok(writes)),
    ensures
        exists|sel: Seq<u8>, word: Seq<u8>, sep: Seq<u8>|
            #![trigger slot_of(sel), state_of(word), contains_text(status_text(after), text(" ") + sel + text("=") + word + sep)]
            {
                &&& contains_text(status_text(after), text(" ") + sel + text("=") + word + sep)
                &&& slot_of(sel) == Some(slot)
                &&& state_of(word) == Some(state)
                &&& (sep == text(" ") || sep == text("\r\n"))
            },
{
    law_state_labels_read_back(state);
    let word = label_text(state);
    if slot < LOCAL_SLOT_COUNT {
        before.local_of().lemma_lengths();
        lemma_local_status_entry(after, slot, state);
        let sel = text("P") + decimal((slot + 1) as nat);
        law_slot_numbers_read_back((slot + 1) as nat);
        let sep = separator(slot + 1 == LOCAL_SLOT_COUNT);
        assert(contains_text(status_text(after), text(" ") + sel + text("=") + word + sep));
        assert(slot_of(sel) == Some(slot));
    } else {
        let device = ((slot - LOCAL_SLOT_COUNT) / EXPANDER_SLOT_COUNT as int) as nat;
        let pin = ((slot - LOCAL_SLOT_COUNT) % EXPANDER_SLOT_COUNT as int) as nat;
        lemma_expander_status_entry(before, after, slot, state, writes, device, pin);
        let sel = text("E") + decimal(device + 1) + text("X") + decimal(pin + 1);
        let sep = separator(pin % 8 == 7);
        assert(device < 8 && slot == LOCAL_SLOT_COUNT + device * EXPANDER_SLOT_COUNT + pin)
            by (nonlinear_arith)
            requires
                8 <= slot < 136,
                device == (slot - 8) / 16,
                pin == (slot - 8) % 16,
        ;
        law_expander_alias_matches_global_number(device + 1, pin + 1);
        assert(text(" ") + bank_entry(device, pin + 1, state, pin % 8 == 7) =~= text(" ") + sel
            + text("=") + word + sep);
        assert(contains_text(status_text(after), text(" ") + sel + text("=") + word + sep));
        assert(slot_of(sel) == Some(slot));
    }
}

/// The value of an uppercase hexadecimal digit.
pub open spec fn hex_value(c: u8) -> int {
    if 48 <= c <= 57 {
        c - 48
    } else {
        c - 55
    }
}

/// An uppercase hexadecimal digit: `0`..`9` or `A`..`F`.
pub open spec fn is_upper_hex_digit(c: u8) -> bool {
    (48 <= c <= 57) || (65 <= c <= 70)
}

/// An address printed in `STATUS` as two uppercase hexadecimal digits reads
/// back as that address.
pub proof fn law_hex_reads_back(b: u8)
    ensures
        hex2(b).len() == 2,
        is_upper_hex_digit(hex2(b)[0]),
        is_upper_hex_digit(hex2(b)[1]),
        16 * hex_value(hex2(b)[0]) + hex_value(hex2(b)[1]) == b,
{
    let h = (b / 16) as nat;
    let l = (b % 16) as nat;
    assert(h < 16 && l < 16 && 16 * h + l == b) by (nonlinear_arith)
        requires
            h == b / 16,
            l == b % 16,
            b < 256,
    ;
}

} // verus!
