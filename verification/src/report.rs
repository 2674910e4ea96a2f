//! The text the firmware sends back: pin labels, replies, `HELP`, `STATUS`
//! and the start-up banner.

use vstd::prelude::*;

use crate::ch9120::NetworkConfig;
use crate::drive::{state_label, DriveState};
use crate::expander::ExpanderState;
use crate::mcp23017::Mcp23017;
use crate::pins::CommandPins;
use crate::text::{decimal, hex2, push_decimal, push_hex2, push_str, text};
use crate::{
    CONTROL_PINS, EXPANDER_SLOT_COUNT, LOCAL_SLOT_COUNT, MAX_EXPANDERS, MCP23017_SCL_PIN,
    MCP23017_SDA_PIN,
};

verus! {

pub const ASCII_ONLY: &'static str = "ASCII commands only";

pub const COMMAND_TOO_LONG: &'static str = "command too long";

pub const UART_READ_FAILURE: &'static str = "uart read failure";

/// The name of a state, as bytes.
pub open spec fn label_text(state: DriveState) -> Seq<u8> {
    text(state_label(state))
}

/// What follows a list entry: a line end after the last, a space otherwise.
pub open spec fn separator(last: bool) -> Seq<u8> {
    if last {
        text("\r\n")
    } else {
        text(" ")
    }
}

/// How a reply names slot `slot`: `GP<n>(P<k>)` for a local channel,
/// `E<e>.GP<A|B><bit>(P<k>/E<e>X<pin>)` for an expander line.
pub open spec fn pin_label(slot: nat) -> Seq<u8> {
    if slot < LOCAL_SLOT_COUNT {
        text("GP") + decimal(CONTROL_PINS@[slot as int] as nat) + text("(P") + decimal(slot + 1)
            + text(")")
    } else {
        let expander_slot = (slot - LOCAL_SLOT_COUNT) as nat;
        let expander_index = expander_slot / EXPANDER_SLOT_COUNT as nat;
        let device_pin = expander_slot % EXPANDER_SLOT_COUNT as nat;
        let bank = if device_pin < 8 {
            text("A")
        } else {
            text("B")
        };
        text("E") + decimal(expander_index + 1) + text(".GP") + bank + decimal(device_pin % 8)
            + text("(P") + decimal(slot + 1) + text("/E") + decimal(expander_index + 1) + text("X")
            + decimal(device_pin + 1) + text(")")
    }
}

/// An error reply.
pub open spec fn error_text(message: &str) -> Seq<u8> {
    text("ERR ") + text(message) + text("\r\n")
}

/// The reply to a channel that was set.
pub open spec fn set_one_text(slot: nat, state: DriveState) -> Seq<u8> {
    text("OK ") + pin_label(slot) + text(" ") + label_text(state) + text("\r\n")
}

/// The reply to `ALL <state>` once every channel is set.
pub open spec fn set_all_text(state: DriveState) -> Seq<u8> {
    text("OK ALL ") + label_text(state) + text("\r\n")
}

/// The `HELP` reply.
pub open spec fn help_text(pins: CommandPins) -> Seq<u8> {
    match pins.expander_of() {
        ExpanderState::Ready(bank) => text("OK commands: HELP, STATUS, P1..P") + decimal(
            (LOCAL_SLOT_COUNT + bank.devices_seq().len() * EXPANDER_SLOT_COUNT) as nat,
        ) + text(" HIGH|LOW|HI-Z, X1..X16/GPA0..GPB7=E1 aliases, E1X1..E") + decimal(
            bank.devices_seq().len(),
        ) + text("X16, E1GPA0..E") + decimal(bank.devices_seq().len()) + text(
            "GPB7, ALL HIGH|LOW|HI-Z; short H|L|Z\r\n",
        ),
        _ => text(
            "OK commands: HELP, STATUS, P1..P8 HIGH|LOW|HI-Z, ALL HIGH|LOW|HI-Z; add up to 8 MCP23017 on GP26/GP27 for more pins\r\n",
        ),
    }
}

/// Appends `piece` to `out`.
fn append(out: &mut Vec<u8>, piece: Vec<u8>)
    ensures
        final(out)@ == old(out)@ + piece@,
{
    let mut piece = piece;
    out.append(&mut piece);
}

/// Appends the label of slot `slot`.
pub fn write_pin_label(slot: usize, out: &mut Vec<u8>)
    requires
        slot < usize::MAX,
    ensures
        final(out)@ == old(out)@ + pin_label(slot as nat),
{
    let mut label: Vec<u8> = Vec::new();
    if slot < LOCAL_SLOT_COUNT {
        push_str(&mut label, "GP");
        assert(Seq::<u8>::empty() + text("GP") =~= text("GP"));
        push_decimal(&mut label, CONTROL_PINS[slot] as usize);
        push_str(&mut label, "(P");
        push_decimal(&mut label, slot + 1);
        push_str(&mut label, ")");
        append(out, label);
        return ;
    }
    let expander_slot = slot - LOCAL_SLOT_COUNT;
    let expander_index = expander_slot / EXPANDER_SLOT_COUNT;
    let device_pin = expander_slot % EXPANDER_SLOT_COUNT;
    let bank = if device_pin < 8 {
        "A"
    } else {
        "B"
    };
    let bit = device_pin % 8;
    push_str(&mut label, "E");
    assert(Seq::<u8>::empty() + text("E") =~= text("E"));
    push_decimal(&mut label, expander_index + 1);
    push_str(&mut label, ".GP");
    push_str(&mut label, bank);
    push_decimal(&mut label, bit);
    push_str(&mut label, "(P");
    push_decimal(&mut label, slot + 1);
    push_str(&mut label, "/E");
    push_decimal(&mut label, expander_index + 1);
    push_str(&mut label, "X");
    push_decimal(&mut label, device_pin + 1);
    push_str(&mut label, ")");
    append(out, label);
}

/// Appends an error reply.
pub fn write_error(message: &str, out: &mut Vec<u8>)
    ensures
        final(out)@ == old(out)@ + error_text(message),
{
    push_str(out, "ERR ");
    push_str(out, message);
    push_str(out, "\r\n");
    assert(out@ =~= old(out)@ + error_text(message));
}

/// Appends the reply to a channel that was set.
pub fn write_set_one(slot: usize, state: DriveState, out: &mut Vec<u8>)
    requires
        slot < usize::MAX,
    ensures
        final(out)@ == old(out)@ + set_one_text(slot as nat, state),
{
    push_str(out, "OK ");
    write_pin_label(slot, out);
    push_str(out, " ");
    push_str(out, state.label());
    push_str(out, "\r\n");
    assert(out@ =~= old(out)@ + set_one_text(slot as nat, state));
}

/// Appends the reply to `ALL <state>`.
pub fn write_set_all(state: DriveState, out: &mut Vec<u8>)
    ensures
        final(out)@ == old(out)@ + set_all_text(state),
{
    push_str(out, "OK ALL ");
    push_str(out, state.label());
    push_str(out, "\r\n");
    assert(out@ =~= old(out)@ + set_all_text(state));
}

/// Appends the `HELP` reply.
pub fn write_help(controlled_pins: &CommandPins, out: &mut Vec<u8>)
    ensures
        final(out)@ == old(out)@ + help_text(*controlled_pins),
{
    match controlled_pins.expander() {
        ExpanderState::Ready(expander) => {
            let count = expander.count();
            push_str(out, "OK commands: HELP, STATUS, P1..P");
            push_decimal(out, controlled_pins.total_slots_available());
            push_str(out, " HIGH|LOW|HI-Z, X1..X16/GPA0..GPB7=E1 aliases, E1X1..E");
            push_decimal(out, count);
            push_str(out, "X16, E1GPA0..E");
            push_decimal(out, count);
            push_str(out, "GPB7, ALL HIGH|LOW|HI-Z; short H|L|Z\r\n");
        },
        _ => {
            push_str(
                out,
                "OK commands: HELP, STATUS, P1..P8 HIGH|LOW|HI-Z, ALL HIGH|LOW|HI-Z; add up to 8 MCP23017 on GP26/GP27 for more pins\r\n",
            );
        },
    }
    assert(out@ =~= old(out)@ + help_text(*controlled_pins));
}

/// One local channel in the `STATUS` reply: `P<k>=<state>`.
pub open spec fn local_entry(slot: nat, state: DriveState) -> Seq<u8> {
    text("P") + decimal(slot + 1) + text("=") + label_text(state) + separator(
        slot + 1 == LOCAL_SLOT_COUNT,
    )
}

/// The first `n` local channels in the `STATUS` reply.
pub open spec fn local_entries(states: Seq<DriveState>, n: nat) -> Seq<u8>
    decreases n,
{
    if n == 0 {
        Seq::empty()
    } else {
        local_entries(states, (n - 1) as nat) + local_entry((n - 1) as nat, states[n - 1])
    }
}

/// One expander line in the `STATUS` reply: `E<e>X<number>=<state>`.
pub open spec fn bank_entry(device: nat, number: nat, state: DriveState, last: bool) -> Seq<u8> {
    text("E") + decimal(device + 1) + text("X") + decimal(number) + text("=") + label_text(state)
        + separator(last)
}

/// The first `n` lines of one port (from line `offset` on) of expander `device`.
pub open spec fn bank_entries(device: nat, states: Seq<DriveState>, offset: nat, n: nat) -> Seq<u8>
    decreases n,
{
    if n == 0 {
        Seq::empty()
    } else {
        bank_entries(device, states, offset, (n - 1) as nat) + bank_entry(
            device,
            offset + n,
            states[offset + n - 1],
            n == 8,
        )
    }
}

/// The first slot number of expander `index`, counting from 1.
pub open spec fn first_slot_number(index: nat) -> nat {
    (LOCAL_SLOT_COUNT + index * EXPANDER_SLOT_COUNT + 1) as nat
}

/// The `STATUS` lines of expander `index`: its address and slots, then its
/// two ports.
pub open spec fn device_status(index: nat, d: Mcp23017) -> Seq<u8> {
    text("STATUS E") + decimal(index + 1) + text(" addr=0x") + hex2(d.addr()) + text(" slots=P")
        + decimal(first_slot_number(index)) + text("..P") + decimal(
        (first_slot_number(index) + EXPANDER_SLOT_COUNT - 1) as nat,
    ) + text("\r\n") + text("STATUS E") + decimal(index + 1) + text("A ") + bank_entries(
        index,
        d.state_seq(),
        0,
        8,
    ) + text("STATUS E") + decimal(index + 1) + text("B ") + bank_entries(
        index,
        d.state_seq(),
        8,
        8,
    )
}

/// The `STATUS` lines of the first `n` expanders.
pub open spec fn devices_status(devices: Seq<Mcp23017>, n: nat) -> Seq<u8>
    decreases n,
{
    if n == 0 {
        Seq::empty()
    } else {
        devices_status(devices, (n - 1) as nat) + device_status((n - 1) as nat, devices[n - 1])
    }
}

/// The `STATUS` lines about the expanders.
pub open spec fn expander_status_text(expander: ExpanderState) -> Seq<u8> {
    match expander {
        ExpanderState::Ready(bank) => text("STATUS MCP23017 count=") + decimal(
            bank.devices_seq().len(),
        ) + text(" SDA=GP") + decimal(MCP23017_SDA_PIN as nat) + text(" SCL=GP") + decimal(
            MCP23017_SCL_PIN as nat,
        ) + text("\r\n") + devices_status(bank.devices_seq(), bank.devices_seq().len()),
        ExpanderState::NotFound => text("STATUS MCP23017=not-detected SDA=GP") + decimal(
            MCP23017_SDA_PIN as nat,
        ) + text(" SCL=GP") + decimal(MCP23017_SCL_PIN as nat) + text("\r\n"),
        ExpanderState::Fault => text("STATUS MCP23017=probe-failed\r\n"),
    }
}

/// The `STATUS` reply: every local channel, then the expanders.
pub open spec fn status_text(pins: CommandPins) -> Seq<u8> {
    text("STATUS LOCAL ") + local_entries(pins.local_of().state_seq(), LOCAL_SLOT_COUNT as nat)
        + expander_status_text(pins.expander_of())
}

fn write_local_entry(slot: usize, state: DriveState, out: &mut Vec<u8>)
    requires
        slot < LOCAL_SLOT_COUNT,
    ensures
        final(out)@ == old(out)@ + local_entry(slot as nat, state),
{
    let mut piece: Vec<u8> = Vec::new();
    push_str(&mut piece, "P");
    assert(Seq::<u8>::empty() + text("P") =~= text("P"));
    push_decimal(&mut piece, slot + 1);
    push_str(&mut piece, "=");
    push_str(&mut piece, state.label());
    push_str(
        &mut piece,
        if slot + 1 == LOCAL_SLOT_COUNT {
            "\r\n"
        } else {
            " "
        },
    );
    append(out, piece);
}

fn write_bank_entry(device: usize, number: usize, state: DriveState, last: bool, out: &mut Vec<u8>)
    requires
        device < MAX_EXPANDERS,
    ensures
        final(out)@ == old(out)@ + bank_entry(device as nat, number as nat, state, last),
{
    let mut piece: Vec<u8> = Vec::new();
    push_str(&mut piece, "E");
    assert(Seq::<u8>::empty() + text("E") =~= text("E"));
    push_decimal(&mut piece, device + 1);
    push_str(&mut piece, "X");
    push_decimal(&mut piece, number);
    push_str(&mut piece, "=");
    push_str(&mut piece, state.label());
    push_str(
        &mut piece,
        if last {
            "\r\n"
        } else {
            " "
        },
    );
    append(out, piece);
}

fn write_bank_entries(device: usize, states: &[DriveState; EXPANDER_SLOT_COUNT], offset: usize, out: &mut Vec<u8>)
    requires
        device < MAX_EXPANDERS,
        offset == 0 || offset == 8,
    ensures
        final(out)@ == old(out)@ + bank_entries(device as nat, states@, offset as nat, 8),
{
    let mut pin: usize = 0;
    while pin < 8
        invariant
            pin <= 8,
            device < MAX_EXPANDERS,
            offset == 0 || offset == 8,
            out@ == old(out)@ + bank_entries(device as nat, states@, offset as nat, pin as nat),
        decreases 8 - pin,
    {
        let ghost before = bank_entries(device as nat, states@, offset as nat, pin as nat);
        write_bank_entry(device, offset + pin + 1, states[offset + pin], pin == 7, out);
        let ghost entry = bank_entry(
            device as nat,
            (offset + pin + 1) as nat,
            states@[offset + pin],
            pin == 7,
        );
        assert(bank_entries(device as nat, states@, offset as nat, (pin + 1) as nat) == before
            + entry);
        assert(out@ =~= old(out)@ + (before + entry));
        pin = pin + 1;
    }
}

fn write_device_status(index: usize, device: &Mcp23017, out: &mut Vec<u8>)
    requires
        index < MAX_EXPANDERS,
    ensures
        final(out)@ == old(out)@ + device_status(index as nat, *device),
{
    let start = LOCAL_SLOT_COUNT + index * EXPANDER_SLOT_COUNT + 1;
    let end = start + EXPANDER_SLOT_COUNT - 1;
    let mut piece: Vec<u8> = Vec::new();
    push_str(&mut piece, "STATUS E");
    assert(Seq::<u8>::empty() + text("STATUS E") =~= text("STATUS E"));
    push_decimal(&mut piece, index + 1);
    push_str(&mut piece, " addr=0x");
    push_hex2(&mut piece, device.address());
    push_str(&mut piece, " slots=P");
    push_decimal(&mut piece, start);
    push_str(&mut piece, "..P");
    push_decimal(&mut piece, end);
    push_str(&mut piece, "\r\n");
    push_str(&mut piece, "STATUS E");
    push_decimal(&mut piece, index + 1);
    push_str(&mut piece, "A ");
    write_bank_entries(index, device.states(), 0, &mut piece);
    push_str(&mut piece, "STATUS E");
    push_decimal(&mut piece, index + 1);
    push_str(&mut piece, "B ");
    write_bank_entries(index, device.states(), 8, &mut piece);
    append(out, piece);
}

fn write_local_entries(states: &[DriveState; LOCAL_SLOT_COUNT], out: &mut Vec<u8>)
    ensures
        final(out)@ == old(out)@ + local_entries(states@, LOCAL_SLOT_COUNT as nat),
{
    let mut slot: usize = 0;
    while slot < LOCAL_SLOT_COUNT
        invariant
            slot <= LOCAL_SLOT_COUNT,
            out@ == old(out)@ + local_entries(states@, slot as nat),
        decreases LOCAL_SLOT_COUNT - slot,
    {
        let ghost before = local_entries(states@, slot as nat);
        write_local_entry(slot, states[slot], out);
        let ghost entry = local_entry(slot as nat, states@[slot as int]);
        assert(local_entries(states@, (slot + 1) as nat) == before + entry);
        assert(out@ =~= old(out)@ + (before + entry));
        slot = slot + 1;
    }
}

fn write_expander_status(expander: &ExpanderState, out: &mut Vec<u8>)
    ensures
        final(out)@ == old(out)@ + expander_status_text(*expander),
{
    let mut piece: Vec<u8> = Vec::new();
    match expander {
        ExpanderState::Ready(bank) => {
            let count = bank.count();
            push_str(&mut piece, "STATUS MCP23017 count=");
            assert(Seq::<u8>::empty() + text("STATUS MCP23017 count=") =~= text(
                "STATUS MCP23017 count=",
            ));
            push_decimal(&mut piece, count);
            push_str(&mut piece, " SDA=GP");
            push_decimal(&mut piece, MCP23017_SDA_PIN as usize);
            push_str(&mut piece, " SCL=GP");
            push_decimal(&mut piece, MCP23017_SCL_PIN as usize);
            push_str(&mut piece, "\r\n");
            let ghost header = piece@;
            let mut device_index: usize = 0;
            while device_index < count
                invariant
                    device_index <= count,
                    count == bank.devices_seq().len(),
                    count <= MAX_EXPANDERS,
                    piece@ == header + devices_status(bank.devices_seq(), device_index as nat),
                decreases count - device_index,
            {
                let ghost before = devices_status(bank.devices_seq(), device_index as nat);
                match bank.device(device_index) {
                    Some(device) => {
                        write_device_status(device_index, device, &mut piece);
                    },
                    None => {},
                }
                let ghost entry = device_status(
                    device_index as nat,
                    bank.devices_seq()[device_index as int],
                );
                assert(devices_status(bank.devices_seq(), (device_index + 1) as nat) == before
                    + entry);
                assert(piece@ =~= header + (before + entry));
                device_index = device_index + 1;
            }
        },
        ExpanderState::NotFound => {
            push_str(&mut piece, "STATUS MCP23017=not-detected SDA=GP");
            assert(Seq::<u8>::empty() + text("STATUS MCP23017=not-detected SDA=GP") =~= text(
                "STATUS MCP23017=not-detected SDA=GP",
            ));
            push_decimal(&mut piece, MCP23017_SDA_PIN as usize);
            push_str(&mut piece, " SCL=GP");
            push_decimal(&mut piece, MCP23017_SCL_PIN as usize);
            push_str(&mut piece, "\r\n");
        },
        ExpanderState::Fault => {
            push_str(&mut piece, "STATUS MCP23017=probe-failed\r\n");
            assert(Seq::<u8>::empty() + text("STATUS MCP23017=probe-failed\r\n") =~= text(
                "STATUS MCP23017=probe-failed\r\n",
            ));
        },
    }
    append(out, piece);
}

/// Appends the `STATUS` reply.
pub fn write_status(controlled_pins: &CommandPins, out: &mut Vec<u8>)
    ensures
        final(out)@ == old(out)@ + status_text(*controlled_pins),
{
    let mut reply: Vec<u8> = Vec::new();
    push_str(&mut reply, "STATUS LOCAL ");
    assert(Seq::<u8>::empty() + text("STATUS LOCAL ") =~= text("STATUS LOCAL "));
    write_local_entries(controlled_pins.local().states(), &mut reply);
    write_expander_status(controlled_pins.expander(), &mut reply);
    append(out, reply);
}

/// One expander in the banner: `E<e>=0x<address>[P<first>..P<last>]`.
pub open spec fn banner_entry(index: nat, d: Mcp23017, count: nat) -> Seq<u8> {
    text("E") + decimal(index + 1) + text("=0x") + hex2(d.addr()) + text("[P") + decimal(
        first_slot_number(index),
    ) + text("..P") + decimal((first_slot_number(index) + EXPANDER_SLOT_COUNT - 1) as nat)
        + text("]") + separator(index + 1 == count)
}

/// The first `n` expanders in the banner.
pub open spec fn banner_entries(devices: Seq<Mcp23017>, n: nat) -> Seq<u8>
    decreases n,
{
    if n == 0 {
        Seq::empty()
    } else {
        banner_entries(devices, (n - 1) as nat) + banner_entry(
            (n - 1) as nat,
            devices[n - 1],
            devices.len(),
        )
    }
}

/// The first banner lines: the address and port, then the local channels.
pub open spec fn banner_head(config: NetworkConfig) -> Seq<u8> {
    text("\r\nRP2040-ETH ready at ") + decimal(config.local_ip@[0] as nat) + text(".") + decimal(
        config.local_ip@[1] as nat,
    ) + text(".") + decimal(config.local_ip@[2] as nat) + text(".") + decimal(
        config.local_ip@[3] as nat,
    ) + text(":") + decimal(config.local_port as nat) + text(
        "\r\nLOCAL P1=GP2 P2=GP3 P3=GP4 P4=GP5 P5=GP6 P6=GP7 P7=GP8 P8=GP9\r\n",
    )
}

/// The banner lines about the expanders.
pub open spec fn banner_expanders(expander: ExpanderState) -> Seq<u8> {
    match expander {
        ExpanderState::Ready(bank) => text("MCP23017 count=") + decimal(bank.devices_seq().len())
            + text(" on GP") + decimal(MCP23017_SDA_PIN as nat) + text("(SDA)/GP") + decimal(
            MCP23017_SCL_PIN as nat,
        ) + text("(SCL): P9..P") + decimal(
            (LOCAL_SLOT_COUNT + bank.devices_seq().len() * EXPANDER_SLOT_COUNT) as nat,
        ) + text(" available\r\n") + text("EXPANDERS ") + banner_entries(
            bank.devices_seq(),
            bank.devices_seq().len(),
        ),
        ExpanderState::NotFound => text("No MCP23017 detected on GP") + decimal(
            MCP23017_SDA_PIN as nat,
        ) + text("(SDA)/GP") + decimal(MCP23017_SCL_PIN as nat) + text(
            "(SCL); only P1..P8 available\r\n",
        ),
        ExpanderState::Fault => text("MCP23017 probe failed on GP") + decimal(
            MCP23017_SDA_PIN as nat,
        ) + text("(SDA)/GP") + decimal(MCP23017_SCL_PIN as nat) + text(
            "(SCL); recheck wiring and supply voltage\r\n",
        ),
    }
}

/// The greeting sent once the link is up: address and port, the local
/// channels, what the expander scan found, and a hint.
pub open spec fn banner_text(pins: CommandPins, config: NetworkConfig) -> Seq<u8> {
    banner_head(config) + banner_expanders(pins.expander_of()) + text(
        "Try HELP, STATUS, P1 HIGH, E2X3 LOW, or ALL HI-Z\r\n",
    )
}

fn write_banner_entry(index: usize, device: &Mcp23017, count: usize, out: &mut Vec<u8>)
    requires
        index < MAX_EXPANDERS,
    ensures
        final(out)@ == old(out)@ + banner_entry(index as nat, *device, count as nat),
{
    let start = LOCAL_SLOT_COUNT + index * EXPANDER_SLOT_COUNT + 1;
    let end = start + EXPANDER_SLOT_COUNT - 1;
    let mut piece: Vec<u8> = Vec::new();
    push_str(&mut piece, "E");
    assert(Seq::<u8>::empty() + text("E") =~= text("E"));
    push_decimal(&mut piece, index + 1);
    push_str(&mut piece, "=0x");
    push_hex2(&mut piece, device.address());
    push_str(&mut piece, "[P");
    push_decimal(&mut piece, start);
    push_str(&mut piece, "..P");
    push_decimal(&mut piece, end);
    push_str(&mut piece, "]");
    push_str(
        &mut piece,
        if index + 1 == count {
            "\r\n"
        } else {
            " "
        },
    );
    append(out, piece);
}

fn write_banner_head(config: &NetworkConfig, out: &mut Vec<u8>)
    ensures
        final(out)@ == old(out)@ + banner_head(*config),
{
    let mut piece: Vec<u8> = Vec::new();
    push_str(&mut piece, "\r\nRP2040-ETH ready at ");
    assert(Seq::<u8>::empty() + text("\r\nRP2040-ETH ready at ") =~= text(
        "\r\nRP2040-ETH ready at ",
    ));
    push_decimal(&mut piece, config.local_ip[0] as usize);
    push_str(&mut piece, ".");
    push_decimal(&mut piece, config.local_ip[1] as usize);
    push_str(&mut piece, ".");
    push_decimal(&mut piece, config.local_ip[2] as usize);
    push_str(&mut piece, ".");
    push_decimal(&mut piece, config.local_ip[3] as usize);
    push_str(&mut piece, ":");
    push_decimal(&mut piece, config.local_port as usize);
    push_str(&mut piece, "\r\nLOCAL P1=GP2 P2=GP3 P3=GP4 P4=GP5 P5=GP6 P6=GP7 P7=GP8 P8=GP9\r\n");
    append(out, piece);
}

fn write_banner_expanders(expander: &ExpanderState, out: &mut Vec<u8>)
    ensures
        final(out)@ == old(out)@ + banner_expanders(*expander),
{
    let mut piece: Vec<u8> = Vec::new();
    match expander {
        ExpanderState::Ready(bank) => {
            let count = bank.count();
            push_str(&mut piece, "MCP23017 count=");
            assert(Seq::<u8>::empty() + text("MCP23017 count=") =~= text("MCP23017 count="));
            push_decimal(&mut piece, count);
            push_str(&mut piece, " on GP");
            push_decimal(&mut piece, MCP23017_SDA_PIN as usize);
            push_str(&mut piece, "(SDA)/GP");
            push_decimal(&mut piece, MCP23017_SCL_PIN as usize);
            push_str(&mut piece, "(SCL): P9..P");
            push_decimal(&mut piece, LOCAL_SLOT_COUNT + bank.total_slots());
            push_str(&mut piece, " available\r\n");
            push_str(&mut piece, "EXPANDERS ");
            let ghost header = piece@;
            let mut index: usize = 0;
            while index < count
                invariant
                    index <= count,
                    count == bank.devices_seq().len(),
                    count <= MAX_EXPANDERS,
                    piece@ == header + banner_entries(bank.devices_seq(), index as nat),
                decreases count - index,
            {
                let ghost before = banner_entries(bank.devices_seq(), index as nat);
                match bank.device(index) {
                    Some(device) => {
                        write_banner_entry(index, device, count, &mut piece);
                    },
                    None => {},
                }
                let ghost entry = banner_entry(
                    index as nat,
                    bank.devices_seq()[index as int],
                    count as nat,
                );
                assert(banner_entries(bank.devices_seq(), (index + 1) as nat) == before + entry);
                assert(piece@ =~= header + (before + entry));
                index = index + 1;
            }
        },
        ExpanderState::NotFound => {
            push_str(&mut piece, "No MCP23017 detected on GP");
            assert(Seq::<u8>::empty() + text("No MCP23017 detected on GP") =~= text(
                "No MCP23017 detected on GP",
            ));
            push_decimal(&mut piece, MCP23017_SDA_PIN as usize);
            push_str(&mut piece, "(SDA)/GP");
            push_decimal(&mut piece, MCP23017_SCL_PIN as usize);
            push_str(&mut piece, "(SCL); only P1..P8 available\r\n");
        },
        ExpanderState::Fault => {
            push_str(&mut piece, "MCP23017 probe failed on GP");
            assert(Seq::<u8>::empty() + text("MCP23017 probe failed on GP") =~= text(
                "MCP23017 probe failed on GP",
            ));
            push_decimal(&mut piece, MCP23017_SDA_PIN as usize);
            push_str(&mut piece, "(SDA)/GP");
            push_decimal(&mut piece, MCP23017_SCL_PIN as usize);
            push_str(&mut piece, "(SCL); recheck wiring and supply voltage\r\n");
        },
    }
    append(out, piece);
}

/// Appends the start-up banner for the given network settings.
pub fn write_startup_banner(controlled_pins: &CommandPins, config: &NetworkConfig, out: &mut Vec<u8>)
    ensures
        final(out)@ == old(out)@ + banner_text(*controlled_pins, *config),
{
    let mut reply: Vec<u8> = Vec::new();
    write_banner_head(config, &mut reply);
    assert(Seq::<u8>::empty() + banner_head(*config) =~= banner_head(*config));
    write_banner_expanders(controlled_pins.expander(), &mut reply);
    push_str(&mut reply, "Try HELP, STATUS, P1 HIGH, E2X3 LOW, or ALL HI-Z\r\n");
    append(out, reply);
}

} // verus!
