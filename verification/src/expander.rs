//! The expanders found on the bus, and the scan that finds them.

use vstd::prelude::*;

use crate::drive::DriveState;
use crate::mcp23017::{
    is_register_write, is_sync, I2cErrorKind, I2cWrite, Mcp23017, REG_GPPUA, REG_IODIRA,
};
use crate::{EXPANDER_SLOT_COUNT, MAX_EXPANDERS};

verus! {

pub const UNDETECTED_EXPANDER: &'static str = "target pin belongs to an undetected mcp23017";

pub const I2C_WRITE_FAILED: &'static str = "mcp23017 i2c write failed";

/// First address the scan probes.
pub const FIRST_EXPANDER_ADDRESS: u8 = 0x20;

/// Last address the scan probes.
pub const LAST_EXPANDER_ADDRESS: u8 = 0x27;

/// Setting expander slot `slot` took the devices from `before` to `after`
/// with result `r`: line `slot % 16` of device `slot / 16` changed and the
/// writes bring that device in line; or that device does not exist.
pub open spec fn set_outcome(
    before: Seq<Mcp23017>,
    after: Seq<Mcp23017>,
    slot: usize,
    state: DriveState,
    r: Result<Seq<I2cWrite>, &'static str>,
) -> bool {
    let d = (slot / EXPANDER_SLOT_COUNT) as int;
    let pin = (slot % EXPANDER_SLOT_COUNT) as int;
    match r {
        Ok(writes) => {
            &&& d < before.len()
            &&& after.len() == before.len()
            &&& forall|k: int| 0 <= k < before.len() && k != d ==> #[trigger] after[k] == before[k]
            &&& after[d].addr() == before[d].addr()
            &&& after[d].state_seq() == before[d].state_seq().update(pin, state)
            &&& is_sync(after[d].addr(), after[d].state_seq(), writes)
        },
        Err(e) => {
            &&& e == UNDETECTED_EXPANDER
            &&& d >= before.len()
            &&& after == before
        },
    }
}

/// Device `d` went from `before` to `after` with every line set to
/// `state`, keeping its address; no other device changed.
pub open spec fn device_set_to(
    before: Seq<Mcp23017>,
    after: Seq<Mcp23017>,
    d: int,
    state: DriveState,
) -> bool {
    &&& 0 <= d < before.len()
    &&& after.len() == before.len()
    &&& forall|k: int| 0 <= k < before.len() && k != d ==> #[trigger] after[k] == before[k]
    &&& after[d].addr() == before[d].addr()
    &&& after[d].state_seq() == Seq::new(EXPANDER_SLOT_COUNT as nat, |i: int| state)
}

/// Setting every line of device `index` took the devices from `before` to
/// `after` with result `r`; `None` once `index` is past the last device.
pub open spec fn set_all_outcome(
    before: Seq<Mcp23017>,
    after: Seq<Mcp23017>,
    index: usize,
    state: DriveState,
    r: Option<Seq<I2cWrite>>,
) -> bool {
    let d = index as int;
    match r {
        Some(writes) => {
            &&& device_set_to(before, after, d, state)
            &&& is_sync(after[d].addr(), after[d].state_seq(), writes)
        },
        None => {
            &&& d >= before.len()
            &&& after == before
        },
    }
}

/// `chain[k + 1]` is `chain[k]` with device `k` set to `state`, for every
/// `k < n`: the devices after the first `n` steps of `ALL <state>`.
pub open spec fn all_steps(chain: Seq<Seq<Mcp23017>>, state: DriveState, n: nat) -> bool {
    &&& chain.len() == n + 1
    &&& forall|k: int| 0 <= k < n ==> #[trigger] device_set_to(chain[k], chain[k + 1], k, state)
}

/// After `n` steps of `ALL <state>` (the last of them the step whose writes
/// failed, if one did), exactly the first `n` devices have every line in
/// `state`, with their addresses kept, and every later device is as it was.
pub proof fn law_all_steps_set_a_prefix(chain: Seq<Seq<Mcp23017>>, state: DriveState, n: nat)
    requires
        all_steps(chain, state, n),
    ensures
        chain[n as int].len() == chain[0].len(),
        forall|k: int|
            0 <= k < n ==> (#[trigger] chain[n as int][k]).addr() == chain[0][k].addr()
                && chain[n as int][k].state_seq() == Seq::new(
                EXPANDER_SLOT_COUNT as nat,
                |i: int| state,
            ),
        forall|k: int| n <= k < chain[0].len() ==> #[trigger] chain[n as int][k] == chain[0][k],
    decreases n,
{
    if n > 0 {
        let m = (n - 1) as nat;
        let prefix = chain.take(n as int);
        assert forall|k: int| 0 <= k < m implies #[trigger] device_set_to(
            prefix[k],
            prefix[k + 1],
            k,
            state,
        ) by {
            assert(device_set_to(chain[k], chain[k + 1], k, state));
        }
        law_all_steps_set_a_prefix(prefix, state, m);
        assert(device_set_to(chain[m as int], chain[n as int], m as int, state));
        assert(prefix[m as int] == chain[m as int]);
        assert(prefix[0] == chain[0]);
        assert forall|k: int| 0 <= k < n implies (#[trigger] chain[n as int][k]).addr()
            == chain[0][k].addr() && chain[n as int][k].state_seq() == Seq::new(
            EXPANDER_SLOT_COUNT as nat,
            |i: int| state,
        ) by {
            if k < m {
                assert(chain[n as int][k] == chain[m as int][k]);
                assert(prefix[m as int][k] == chain[m as int][k]);
            }
        }
        assert forall|k: int| n <= k < chain[0].len() implies #[trigger] chain[n as int][k]
            == chain[0][k] by {
            assert(chain[n as int][k] == chain[m as int][k]);
            assert(prefix[m as int][k] == chain[m as int][k]);
        }
    }
}

/// The detected expanders, in the order they were found.
pub struct ExpanderBank {
    devices: [Mcp23017; MAX_EXPANDERS],
    count: usize,
}

impl ExpanderBank {
    #[verifier::type_invariant]
    closed spec fn count_fits(self) -> bool {
        self.count <= MAX_EXPANDERS
    }

    /// The detected devices.
    pub closed spec fn devices_seq(self) -> Seq<Mcp23017> {
        self.devices@.take(self.count as int)
    }

    /// No devices yet.
    pub fn new() -> (r: Self)
        ensures
            r.devices_seq() == Seq::<Mcp23017>::empty(),
    {
        let r = ExpanderBank { devices: [Mcp23017::placeholder(); MAX_EXPANDERS], count: 0 };
        assert(r.devices_seq() =~= Seq::<Mcp23017>::empty());
        r
    }

    /// Adds a device after the others.
    pub fn push(&mut self, device: Mcp23017)
        requires
            old(self).devices_seq().len() < MAX_EXPANDERS,
        ensures
            final(self).devices_seq() == old(self).devices_seq().push(device),
    {
        proof {
            use_type_invariant(&*self);
        }
        let ghost before = self.devices_seq();
        self.devices[self.count] = device;
        self.count = self.count + 1;
        assert(self.devices_seq() =~= before.push(device));
    }

    /// How many devices there are.
    pub fn count(&self) -> (r: usize)
        ensures
            r == self.devices_seq().len(),
            r <= MAX_EXPANDERS,
    {
        proof {
            use_type_invariant(self);
        }
        self.count
    }

    /// How many slots the devices provide.
    pub fn total_slots(&self) -> (r: usize)
        ensures
            r == self.devices_seq().len() * EXPANDER_SLOT_COUNT,
    {
        proof {
            use_type_invariant(self);
        }
        self.count * EXPANDER_SLOT_COUNT
    }

    /// The device at `index`, if there is one.
    pub fn device(&self, index: usize) -> (r: Option<&Mcp23017>)
        ensures
            match r {
                Some(d) => index < self.devices_seq().len() && *d == self.devices_seq()[index as int],
                None => index >= self.devices_seq().len(),
            },
    {
        proof {
            use_type_invariant(self);
        }
        if index < self.count {
            Some(&self.devices[index])
        } else {
            None
        }
    }

    /// Sets expander slot `slot` (line `slot % 16` of device `slot / 16`);
    /// the writes that bring that device in line.
    pub fn set(&mut self, slot: usize, state: DriveState) -> (r: Result<Vec<I2cWrite>, &'static str>)
        ensures
            set_outcome(
                old(self).devices_seq(),
                final(self).devices_seq(),
                slot,
                state,
                match r {
                    Ok(w) => Ok(w@),
                    Err(e) => Err(e),
                },
            ),
    {
        proof {
            use_type_invariant(&*self);
        }
        let device_index = slot / EXPANDER_SLOT_COUNT;
        let pin_index = slot % EXPANDER_SLOT_COUNT;
        if device_index >= self.count {
            return Err(UNDETECTED_EXPANDER);
        }
        let ghost before = self.devices_seq();
        let mut device = self.devices[device_index];
        let writes = device.set_pin_state(pin_index, state);
        self.devices[device_index] = device;
        assert forall|k: int| 0 <= k < before.len() && k != device_index implies #[trigger] self.devices_seq()[k]
            == before[k] by {}
        Ok(writes)
    }

    /// One step of setting every line of every device: sets device
    /// `device_index` and returns the writes that bring it in line, or `None`
    /// once every device has been done.
    pub fn set_all(&mut self, state: DriveState, device_index: usize) -> (r: Option<Vec<I2cWrite>>)
        ensures
            set_all_outcome(
                old(self).devices_seq(),
                final(self).devices_seq(),
                device_index,
                state,
                match r {
                    Some(w) => Some(w@),
                    None => None,
                },
            ),
    {
        proof {
            use_type_invariant(&*self);
        }
        if device_index >= self.count {
            return None;
        }
        let ghost before = self.devices_seq();
        let mut device = self.devices[device_index];
        let writes = device.set_all_state(state);
        self.devices[device_index] = device;
        assert forall|k: int| 0 <= k < before.len() && k != device_index implies #[trigger] self.devices_seq()[k]
            == before[k] by {}
        Some(writes)
    }
}

/// What the scan found on the bus.
pub enum ExpanderState {
    /// At least one expander answered and was set up.
    Ready(ExpanderBank),
    /// No expander answered.
    NotFound,
    /// The bus failed, or an expander could not be set up.
    Fault,
}

/// What the scan wants done next.
#[derive(Debug)]
pub enum ScanStep {
    /// Write the register number `register` to the device at `address`,
    /// read `read_len` bytes back, and report the outcome.
    Probe { address: u8, register: u8, read_len: usize },
    /// Perform these writes, in order, stopping at the first failure, and
    /// report whether all of them went through.
    Initialize(Vec<I2cWrite>),
    /// The scan is over.
    Finished,
}

/// Where the scan stands.
#[derive(Clone, Copy, PartialEq, Eq, Structural, Debug)]
pub enum ScanPhase {
    /// About to probe the current address.
    Probing,
    /// A device answered at the current address and is being set up.
    Initializing,
    /// Done; `true` if the bus failed or a device could not be set up.
    Done(bool),
}

/// The addresses of `devices` rise strictly and lie in `FIRST_EXPANDER_ADDRESS..end`.
pub open spec fn ascending_below(devices: Seq<Mcp23017>, end: int) -> bool {
    &&& forall|k: int|
        0 <= k < devices.len() ==> FIRST_EXPANDER_ADDRESS <= #[trigger] devices[k].addr() < end
    &&& forall|j: int, k: int|
        0 <= j < k < devices.len() ==> #[trigger] devices[j].addr() < #[trigger] devices[k].addr()
}

/// The scan of addresses `0x20`..=`0x27` for expanders, one bus operation at a time.
pub struct ExpanderScan {
    bank: ExpanderBank,
    address: u8,
    phase: ScanPhase,
}

impl ExpanderScan {
    #[verifier::type_invariant]
    closed spec fn scan_invariant(self) -> bool {
        &&& FIRST_EXPANDER_ADDRESS <= self.address <= LAST_EXPANDER_ADDRESS
        &&& !(self.phase is Done) ==> self.bank.devices_seq().len() <= self.address
            - FIRST_EXPANDER_ADDRESS
        &&& !(self.phase is Done) ==> ascending_below(self.bank.devices_seq(), self.address as int)
        &&& ascending_below(self.bank.devices_seq(), LAST_EXPANDER_ADDRESS + 1)
    }

    /// The devices set up so far.
    pub closed spec fn found(self) -> Seq<Mcp23017> {
        self.bank.devices_seq()
    }

    /// The address being probed or set up.
    pub closed spec fn current(self) -> u8 {
        self.address
    }

    /// Where the scan stands.
    pub closed spec fn phase_of(self) -> ScanPhase {
        self.phase
    }

    /// A scan that starts at the first address.
    pub fn new() -> (r: Self)
        ensures
            r.found() == Seq::<Mcp23017>::empty(),
            r.current() == FIRST_EXPANDER_ADDRESS,
            r.phase_of() == ScanPhase::Probing,
    {
        ExpanderScan {
            bank: ExpanderBank::new(),
            address: FIRST_EXPANDER_ADDRESS,
            phase: ScanPhase::Probing,
        }
    }

    /// The next bus operation.
    pub fn step(&self) -> (r: ScanStep)
        ensures
            match self.phase_of() {
                ScanPhase::Probing => r matches ScanStep::Probe { address, register, read_len }
                    && address == self.current() && register == REG_IODIRA && read_len == 2,
                ScanPhase::Initializing => r matches ScanStep::Initialize(writes) && writes@.len()
                    == 3 && is_register_write(writes@[0], self.current(), REG_GPPUA, 0) && is_sync(
                    self.current(),
                    Seq::new(EXPANDER_SLOT_COUNT as nat, |i: int| DriveState::HiZ),
                    writes@.skip(1),
                ),
                ScanPhase::Done(_) => r matches ScanStep::Finished,
            },
    {
        match self.phase {
            ScanPhase::Probing => ScanStep::Probe {
                address: self.address,
                register: REG_IODIRA,
                read_len: 2,
            },
            ScanPhase::Initializing => {
                let (_, writes) = Mcp23017::new(self.address);
                ScanStep::Initialize(writes)
            },
            ScanPhase::Done(_) => ScanStep::Finished,
        }
    }

    /// Takes in the outcome of probing the current address: a device that
    /// answered is set up next, a silent address is passed over, a bus
    /// failure ends the scan. Outside the probing phase nothing changes.
    pub fn probed(&mut self, outcome: Result<(), I2cErrorKind>)
        ensures
            final(self).found() == old(self).found(),
            old(self).phase_of() != ScanPhase::Probing ==> *final(self) == *old(self),
            old(self).phase_of() == ScanPhase::Probing ==> match Mcp23017::probe_outcome(outcome) {
                Ok(true) => final(self).phase_of() == ScanPhase::Initializing && final(self).current()
                    == old(self).current(),
                Ok(false) => final(self).next_address_of(old(self).current()),
                Err(_) => final(self).phase_of() == ScanPhase::Done(true),
            },
    {
        proof {
            use_type_invariant(&*self);
        }
        if self.phase != ScanPhase::Probing {
            return;
        }
        match Mcp23017::probe(outcome) {
            Ok(true) => {
                self.phase = ScanPhase::Initializing;
            },
            Ok(false) => {
                self.advance();
            },
            Err(_) => {
                self.phase = ScanPhase::Done(true);
            },
        }
    }

    /// Takes in whether setting up the device at the current address went
    /// through: if so it joins the others and the scan moves on; if not the
    /// scan ends. Outside the set-up phase nothing changes.
    pub fn initialized(&mut self, ok: bool)
        ensures
            old(self).phase_of() != ScanPhase::Initializing ==> *final(self) == *old(self),
            old(self).phase_of() == ScanPhase::Initializing && !ok ==> final(self).phase_of()
                == ScanPhase::Done(true) && final(self).found() == old(self).found(),
            old(self).phase_of() == ScanPhase::Initializing && ok ==> {
                &&& final(self).next_address_of(old(self).current())
                &&& final(self).found().len() == old(self).found().len() + 1
                &&& final(self).found().drop_last() == old(self).found()
                &&& final(self).found().last().addr() == old(self).current()
                &&& final(self).found().last().state_seq() == Seq::new(
                    EXPANDER_SLOT_COUNT as nat,
                    |i: int| DriveState::HiZ,
                )
            },
    {
        proof {
            use_type_invariant(&*self);
        }
        if self.phase != ScanPhase::Initializing {
            return;
        }
        if !ok {
            self.phase = ScanPhase::Done(true);
            return;
        }
        let ghost before = self.bank.devices_seq();
        self.phase = ScanPhase::Done(false);
        let (device, _) = Mcp23017::new(self.address);
        let mut bank = ExpanderBank::new();
        std::mem::swap(&mut bank, &mut self.bank);
        bank.push(device);
        self.bank = bank;
        assert(self.bank.devices_seq().drop_last() =~= before);
        if self.address < LAST_EXPANDER_ADDRESS {
            self.address = self.address + 1;
            self.phase = ScanPhase::Probing;
        }
    }

    /// The scan moved past `address`: it probes the next one, or is done after the last.
    pub open spec fn next_address_of(self, address: u8) -> bool {
        if address < LAST_EXPANDER_ADDRESS {
            self.current() == address + 1 && self.phase_of() == ScanPhase::Probing
        } else {
            self.phase_of() == ScanPhase::Done(false)
        }
    }

    /// Moves past the current address: to the next one, or done after the last.
    fn advance(&mut self)
        requires
            old(self).phase != ScanPhase::Done(true),
            !(old(self).phase is Done),
        ensures
            final(self).bank.devices_seq() == old(self).bank.devices_seq(),
            final(self).next_address_of(old(self).address),
    {
        proof {
            use_type_invariant(&*self);
        }
        if self.address < LAST_EXPANDER_ADDRESS {
            self.address = self.address + 1;
            self.phase = ScanPhase::Probing;
        } else {
            self.phase = ScanPhase::Done(false);
        }
    }

    /// What the scan found, once it is over: `Fault` if the bus failed or a
    /// device could not be set up, `NotFound` if nothing answered, else the
    /// devices; `None` while it is still going.
    pub fn finish(self) -> (r: Option<ExpanderState>)
        ensures
            match self.phase_of() {
                ScanPhase::Done(true) => r matches Some(ExpanderState::Fault),
                ScanPhase::Done(false) => if self.found().len() == 0 {
                    r matches Some(ExpanderState::NotFound)
                } else {
                    r matches Some(ExpanderState::Ready(bank)) && bank.devices_seq() == self.found()
                },
                _ => r is None,
            },
            ascending_below(self.found(), LAST_EXPANDER_ADDRESS + 1),
    {
        proof {
            use_type_invariant(&self);
        }
        match self.phase {
            ScanPhase::Done(true) => Some(ExpanderState::Fault),
            ScanPhase::Done(false) => {
                if self.bank.count() == 0 {
                    Some(ExpanderState::NotFound)
                } else {
                    Some(ExpanderState::Ready(self.bank))
                }
            },
            _ => None,
        }
    }
}

} // verus!
