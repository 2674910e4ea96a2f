//! Every channel a command can name: the local ones first, then the lines of
//! the detected expanders.

use vstd::prelude::*;

use crate::drive::DriveState;
use crate::expander::{set_all_outcome, set_outcome, ExpanderState};
use crate::local::{mask_writes, pin_bit, pins_mask, writes_for_pins, LocalPins, SioWrite};
use crate::mcp23017::I2cWrite;
use crate::{EXPANDER_SLOT_COUNT, LOCAL_SLOT_COUNT};

verus! {

pub const NOT_DETECTED: &'static str = "mcp23017 not detected on GP26/GP27";

pub const INIT_FAILED: &'static str = "mcp23017 init failed; recheck wiring and power";

/// The hardware writes that carry out a change of one channel.
#[derive(Debug)]
pub enum PinWrites {
    /// Writes to the SIO block, for a local channel.
    Local(Vec<SioWrite>),
    /// I2C writes, for an expander line.
    Expander(Vec<I2cWrite>),
}

/// Setting slot `slot` to `state` took the channels from `before` to
/// `after` with result `r`: a local channel below 8, else line `slot - 8` of
/// the expanders, which fails when no expander was found or the scan failed.
pub open spec fn pins_set_outcome(
    before: CommandPins,
    after: CommandPins,
    slot: usize,
    state: DriveState,
    r: Result<PinWrites, &'static str>,
) -> bool {
    if slot < LOCAL_SLOT_COUNT {
        &&& r matches Ok(PinWrites::Local(w)) && w@ == mask_writes(
            pin_bit(before.local_of().pins()[slot as int]),
            state,
        )
        &&& before.local_of().pins()[slot as int] < 32
        &&& after.local_of().pins() == before.local_of().pins()
        &&& after.local_of().state_seq() == before.local_of().state_seq().update(slot as int, state)
        &&& after.expander_of() == before.expander_of()
    } else {
        &&& after.local_of() == before.local_of()
        &&& match before.expander_of() {
            ExpanderState::Ready(b) => {
                &&& after.expander_of() matches ExpanderState::Ready(a)
                &&& match r {
                    Ok(PinWrites::Expander(w)) => set_outcome(
                        b.devices_seq(),
                        a.devices_seq(),
                        (slot - LOCAL_SLOT_COUNT) as usize,
                        state,
                        Ok(w@),
                    ),
                    Ok(PinWrites::Local(_)) => false,
                    Err(e) => set_outcome(
                        b.devices_seq(),
                        a.devices_seq(),
                        (slot - LOCAL_SLOT_COUNT) as usize,
                        state,
                        Err(e),
                    ),
                }
            },
            ExpanderState::NotFound => r == Err::<PinWrites, &'static str>(NOT_DETECTED)
                && after.expander_of() == before.expander_of(),
            ExpanderState::Fault => r == Err::<PinWrites, &'static str>(INIT_FAILED)
                && after.expander_of() == before.expander_of(),
        }
    }
}

/// Local channels and expanders together.
pub struct CommandPins {
    local: LocalPins,
    expander: ExpanderState,
}

impl CommandPins {
    /// The local channels.
    pub closed spec fn local_of(self) -> LocalPins {
        self.local
    }

    /// What the expander scan found.
    pub closed spec fn expander_of(self) -> ExpanderState {
        self.expander
    }

    /// Local channels on the given lines, all released, beside the scan's
    /// outcome; with the writes that release the local lines.
    pub fn new(pin_numbers: [u8; LOCAL_SLOT_COUNT], expander: ExpanderState) -> (r: (
        Self,
        Vec<SioWrite>,
    ))
        requires
            forall|i: int| 0 <= i < LOCAL_SLOT_COUNT ==> #[trigger] pin_numbers@[i] < 32,
        ensures
            r.0.local_of().pins() == pin_numbers@,
            r.0.local_of().state_seq() == Seq::new(
                LOCAL_SLOT_COUNT as nat,
                |i: int| DriveState::HiZ,
            ),
            r.0.expander_of() == expander,
            r.1@ == mask_writes(pins_mask(pin_numbers@), DriveState::HiZ),
    {
        let (local, writes) = LocalPins::new(pin_numbers);
        (CommandPins { local, expander }, writes)
    }

    /// Sets slot `slot`: a local channel below 8, else line `slot - 8` of the
    /// expanders; the writes that carry it out.
    pub fn set(&mut self, slot: usize, state: DriveState) -> (r: Result<PinWrites, &'static str>)
        ensures
            pins_set_outcome(*old(self), *final(self), slot, state, r),
    {
        if slot < LOCAL_SLOT_COUNT {
            let writes = self.local.set(slot, state);
            return Ok(PinWrites::Local(writes));
        }
        let expander_slot = slot - LOCAL_SLOT_COUNT;
        match &mut self.expander {
            ExpanderState::Ready(expander) => match expander.set(expander_slot, state) {
                Ok(writes) => Ok(PinWrites::Expander(writes)),
                Err(e) => Err(e),
            },
            ExpanderState::NotFound => Err(NOT_DETECTED),
            ExpanderState::Fault => Err(INIT_FAILED),
        }
    }

    /// Sets every local channel; the writes that carry it out. The expander
    /// lines follow, one device at a time, through `set_all_expander`.
    pub fn set_all(&mut self, state: DriveState) -> (r: Vec<SioWrite>)
        ensures
            final(self).local_of().pins() == old(self).local_of().pins(),
            final(self).local_of().state_seq() == Seq::new(LOCAL_SLOT_COUNT as nat, |i: int| state),
            final(self).expander_of() == old(self).expander_of(),
            r@ == writes_for_pins(old(self).local_of().pins(), state),
    {
        self.local.set_all(state)
    }

    /// Sets every line of expander `device_index`; the writes that carry it
    /// out, or `None` past the last expander or when none is ready.
    pub fn set_all_expander(&mut self, state: DriveState, device_index: usize) -> (r: Option<
        Vec<I2cWrite>,
    >)
        ensures
            final(self).local_of() == old(self).local_of(),
            match old(self).expander_of() {
                ExpanderState::Ready(before) => {
                    &&& final(self).expander_of() matches ExpanderState::Ready(after)
                    &&& set_all_outcome(
                        before.devices_seq(),
                        after.devices_seq(),
                        device_index,
                        state,
                        match r {
                            Some(w) => Some(w@),
                            None => None,
                        },
                    )
                },
                _ => r is None && final(self).expander_of() == old(self).expander_of(),
            },
    {
        match &mut self.expander {
            ExpanderState::Ready(expander) => expander.set_all(state, device_index),
            _ => None,
        }
    }

    /// How many slots commands can reach: the local ones and those of the
    /// detected expanders.
    pub fn total_slots_available(&self) -> (r: usize)
        ensures
            r == LOCAL_SLOT_COUNT + match self.expander_of() {
                ExpanderState::Ready(bank) => bank.devices_seq().len() * EXPANDER_SLOT_COUNT,
                _ => 0,
            },
    {
        LOCAL_SLOT_COUNT + match &self.expander {
            ExpanderState::Ready(expander) => expander.total_slots(),
            ExpanderState::NotFound | ExpanderState::Fault => 0,
        }
    }

    /// The local channels.
    pub fn local(&self) -> (r: &LocalPins)
        ensures
            *r == self.local_of(),
    {
        &self.local
    }

    /// What the expander scan found.
    pub fn expander(&self) -> (r: &ExpanderState)
        ensures
            *r == self.expander_of(),
    {
        &self.expander
    }
}

} // verus!
