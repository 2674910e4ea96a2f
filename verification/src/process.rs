//! Acting on one received command line.

use vstd::prelude::*;
use vstd::string::StringSliceAdditionalSpecFns;
use vstd::utf8::valid_utf8;

use crate::ascii::words;
use crate::command::{command_from_words, parse_command, ParsedCommand};
use crate::drive::DriveState;
use crate::expander::{set_all_outcome, ExpanderState, I2C_WRITE_FAILED};
use crate::mcp23017::I2cWrite;
use crate::local::{writes_for_pins, SioWrite};
use crate::pins::{pins_set_outcome, CommandPins, PinWrites};
use crate::report::{
    error_text, help_text, set_all_text, set_one_text, status_text, write_error, write_help,
    write_set_all, write_set_one, write_status, ASCII_ONLY,
};
use crate::LOCAL_SLOT_COUNT;

verus! {

/// `core::str::from_utf8`: the bytes as a string slice when they are valid
/// UTF-8, `None` otherwise. Trusted to agree with vstd's definition of valid
/// UTF-8, and to hand back a slice of exactly these bytes.
#[verifier::external_body]
fn str_from_utf8(bytes: &[u8]) -> (r: Option<&str>)
    ensures
        match r {
            Some(s) => valid_utf8(bytes@) && s.spec_bytes() == bytes@,
            None => !valid_utf8(bytes@),
        },
{
    core::str::from_utf8(bytes).ok()
}

/// What to do about a command line.
#[derive(Debug)]
pub enum LineAction {
    /// Send this reply.
    Reply(Vec<u8>),
    /// Carry out these writes, stopping at the first failed one, then send
    /// what `after_drive` gives for `reply` and whether all went through.
    Drive { writes: PinWrites, reply: Vec<u8> },
    /// Carry out these writes to the local channels, then work through the
    /// expanders with `after_writes`, starting at device 0 with `ok` true.
    /// `reply` is what is sent if every expander write goes through.
    DriveAll { local_writes: Vec<SioWrite>, state: DriveState, reply: Vec<u8> },
}

/// What to do next while `ALL <state>` works through the expanders.
#[derive(Debug)]
pub enum AllStep {
    /// Perform these I2C writes, in order, stopping at the first failure;
    /// then call `after_writes` for the next device with whether they all
    /// went through.
    Write(Vec<I2cWrite>),
    /// Send this reply; the command is done.
    Reply(Vec<u8>),
}

/// The reply to a single-channel command once its writes were carried out:
/// `reply` if they all went through, the I2C failure reply otherwise. The
/// channel's recorded state stays as set, as it does when a write fails.
pub fn after_drive(ok: bool, reply: Vec<u8>) -> (r: Vec<u8>)
    ensures
        r@ == if ok {
            reply@
        } else {
            error_text(I2C_WRITE_FAILED)
        },
{
    if ok {
        reply
    } else {
        let mut failure: Vec<u8> = Vec::new();
        write_error(I2C_WRITE_FAILED, &mut failure);
        failure
    }
}

/// One step of `ALL <state>` over the expanders. `ok` tells whether the
/// writes of the previous step (none, for device 0) all went through. After
/// a failure the command stops with the I2C failure reply and no later
/// device is touched; otherwise device `device_index` is set to `state` and
/// its writes are handed out, or, past the last device (or with no ready
/// expanders), the command ends with `OK ALL <state>`.
pub fn after_writes(
    controlled_pins: &mut CommandPins,
    state: DriveState,
    device_index: usize,
    ok: bool,
) -> (r: AllStep)
    ensures
        !ok ==> (r matches AllStep::Reply(t) && t@ == error_text(I2C_WRITE_FAILED) && *final(
            controlled_pins) == *old(controlled_pins)),
        ok ==> final(controlled_pins).local_of() == old(controlled_pins).local_of(),
        ok ==> match old(controlled_pins).expander_of() {
            ExpanderState::Ready(before) => {
                &&& final(controlled_pins).expander_of() matches ExpanderState::Ready(after)
                &&& match r {
                    AllStep::Write(w) => set_all_outcome(
                        before.devices_seq(),
                        after.devices_seq(),
                        device_index,
                        state,
                        Some(w@),
                    ),
                    AllStep::Reply(t) => t@ == set_all_text(state) && set_all_outcome(
                        before.devices_seq(),
                        after.devices_seq(),
                        device_index,
                        state,
                        None,
                    ),
                }
            },
            _ => r matches AllStep::Reply(t) && t@ == set_all_text(state) && final(
                controlled_pins).expander_of() == old(controlled_pins).expander_of(),
        },
{
    let mut reply: Vec<u8> = Vec::new();
    if !ok {
        write_error(I2C_WRITE_FAILED, &mut reply);
        return AllStep::Reply(reply);
    }
    match controlled_pins.set_all_expander(state, device_index) {
        Some(writes) => AllStep::Write(writes),
        None => {
            write_set_all(state, &mut reply);
            AllStep::Reply(reply)
        },
    }
}

/// Reads a command line and applies it to the channels: the reply to send,
/// or the hardware writes to carry out first.
pub fn process_line(raw_line: &[u8], controlled_pins: &mut CommandPins) -> (r: LineAction)
    ensures
        !valid_utf8(raw_line@) ==> (r matches LineAction::Reply(t) && t@ == error_text(ASCII_ONLY)
            && *final(controlled_pins) == *old(controlled_pins)),
        valid_utf8(raw_line@) ==> match command_from_words(words(raw_line@)) {
            Err(message) => r matches LineAction::Reply(t) && t@ == error_text(message) && *final(
                controlled_pins) == *old(controlled_pins),
            Ok(ParsedCommand::Help) => r matches LineAction::Reply(t) && t@ == help_text(
                *old(controlled_pins)) && *final(controlled_pins) == *old(controlled_pins),
            Ok(ParsedCommand::Status) => r matches LineAction::Reply(t) && t@ == status_text(
                *old(controlled_pins)) && *final(controlled_pins) == *old(controlled_pins),
            Ok(ParsedCommand::SetOne { slot, state }) => match r {
                LineAction::Drive { writes, reply } => pins_set_outcome(
                    *old(controlled_pins),
                    *final(controlled_pins),
                    slot,
                    state,
                    Ok(writes),
                ) && reply@ == set_one_text(slot as nat, state),
                LineAction::Reply(t) => exists|e: &'static str|
                    #[trigger] pins_set_outcome(
                        *old(controlled_pins),
                        *final(controlled_pins),
                        slot,
                        state,
                        Err(e),
                    ) && t@ == error_text(e),
                LineAction::DriveAll { .. } => false,
            },
            Ok(ParsedCommand::SetAll(state)) => match r {
                LineAction::DriveAll { local_writes, state: s, reply } => {
                    &&& s == state
                    &&& local_writes@ == writes_for_pins(old(controlled_pins).local_of().pins(), state)
                    &&& final(controlled_pins).local_of().pins() == old(
                        controlled_pins).local_of().pins()
                    &&& final(controlled_pins).local_of().state_seq() == Seq::new(
                        LOCAL_SLOT_COUNT as nat,
                        |i: int| state,
                    )
                    &&& final(controlled_pins).expander_of() == old(controlled_pins).expander_of()
                    &&& reply@ == set_all_text(state)
                },
                _ => false,
            },
        },
{
    let line = match str_from_utf8(raw_line) {
        Some(line) => line,
        None => {
            let mut reply: Vec<u8> = Vec::new();
            write_error(ASCII_ONLY, &mut reply);
            return LineAction::Reply(reply);
        },
    };
    let mut reply: Vec<u8> = Vec::new();
    match parse_command(line) {
        Ok(ParsedCommand::Help) => {
            write_help(controlled_pins, &mut reply);
            LineAction::Reply(reply)
        },
        Ok(ParsedCommand::Status) => {
            write_status(controlled_pins, &mut reply);
            LineAction::Reply(reply)
        },
        Ok(ParsedCommand::SetOne { slot, state }) => match controlled_pins.set(slot, state) {
            Ok(writes) => {
                write_set_one(slot, state, &mut reply);
                LineAction::Drive { writes, reply }
            },
            Err(message) => {
                write_error(message, &mut reply);
                LineAction::Reply(reply)
            },
        },
        Ok(ParsedCommand::SetAll(state)) => {
            let local_writes = controlled_pins.set_all(state);
            write_set_all(state, &mut reply);
            LineAction::DriveAll { local_writes, state, reply }
        },
        Err(message) => {
            write_error(message, &mut reply);
            LineAction::Reply(reply)
        },
    }
}

} // verus!
