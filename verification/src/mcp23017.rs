//! One MCP23017 port expander: sixteen channels whose states are written to
//! its direction (`IODIR`) and output (`GPIO`) register pairs over I2C.

use vstd::prelude::*;

use crate::drive::DriveState;
use crate::EXPANDER_SLOT_COUNT;

verus! {

/// `IODIRA`: direction of port A, followed by `IODIRB`. A set bit is an input.
pub const REG_IODIRA: u8 = 0x00;

/// `GPPUA`: pull-ups of port A, followed by `GPPUB`.
pub const REG_GPPUA: u8 = 0x0C;

/// `GPIOA`: levels of port A, followed by `GPIOB`.
pub const REG_GPIOA: u8 = 0x12;

/// Why an I2C transfer failed, as the bus reports it.
#[derive(Clone, Copy, PartialEq, Eq, Structural, Debug)]
pub enum I2cErrorKind {
    /// A bus error: a misplaced start or stop condition.
    Bus,
    /// Arbitration was lost to another controller.
    ArbitrationLoss,
    /// The device did not acknowledge.
    NoAcknowledge(NoAcknowledgeSource),
    /// The receive buffer overflowed.
    Overrun,
    /// Anything else.
    Other,
}

/// Which part of a transfer went unacknowledged.
#[derive(Clone, Copy, PartialEq, Eq, Structural, Debug)]
pub enum NoAcknowledgeSource {
    Address,
    Data,
    Unknown,
}

/// One I2C write: `bytes` sent to the device at `address`.
#[derive(Clone, Copy, Debug)]
pub struct I2cWrite {
    pub address: u8,
    pub bytes: [u8; 3],
}

/// `w` writes the 16-bit `value` to the register pair at `register` of the
/// device at `address`, low byte first.
pub open spec fn is_register_write(w: I2cWrite, address: u8, register: u8, value: u16) -> bool {
    &&& w.address == address
    &&& w.bytes@ == seq![register, (value & 0xff) as u8, (value >> 8) as u8]
}

/// Bit `i` of a 16-bit word is set.
pub open spec fn bit16(word: u16, i: int) -> bool {
    (word >> (i as u16)) & 1u16 == 1u16
}

/// `direction` and `output` are the register words for `states`: a released
/// channel is an input, a driven one an output at its level.
pub open spec fn encodes(states: Seq<DriveState>, direction: u16, output: u16) -> bool {
    forall|i: int|
        0 <= i < EXPANDER_SLOT_COUNT ==> (#[trigger] bit16(direction, i) <==> states[i]
            == DriveState::HiZ) && (bit16(output, i) <==> states[i] == DriveState::High)
}

/// The two writes that bring the device at `address` in line with `states`:
/// output levels first, then directions.
pub open spec fn is_sync(address: u8, states: Seq<DriveState>, writes: Seq<I2cWrite>) -> bool {
    &&& writes.len() == 2
    &&& exists|direction: u16, output: u16|
        #![trigger encodes(states, direction, output)]
        {
            &&& encodes(states, direction, output)
            &&& is_register_write(writes[0], address, REG_GPIOA, output)
            &&& is_register_write(writes[1], address, REG_IODIRA, direction)
        }
}

proof fn lemma_set_bit16(word: u16, p: u16, j: u16)
    requires
        p < 16,
        j < 16,
    ensures
        ((word | (1u16 << p)) >> j) & 1u16 == 1u16 <==> (((word >> j) & 1u16 == 1u16) || j == p),
{
    assert(((word | (1u16 << p)) >> j) & 1u16 == 1u16 <==> (((word >> j) & 1u16 == 1u16) || j
        == p)) by (bit_vector)
        requires
            p < 16,
            j < 16,
    ;
}

proof fn lemma_zero_bits16(j: u16)
    requires
        j < 16,
    ensures
        !((0u16 >> j) & 1u16 == 1u16),
{
    assert(!((0u16 >> j) & 1u16 == 1u16)) by (bit_vector);
}

/// One MCP23017: its bus address and the state last set on each of its lines.
#[derive(Clone, Copy)]
pub struct Mcp23017 {
    address: u8,
    states: [DriveState; EXPANDER_SLOT_COUNT],
}

impl Mcp23017 {
    /// The bus address.
    pub closed spec fn addr(self) -> u8 {
        self.address
    }

    /// The state last set on each line.
    pub closed spec fn state_seq(self) -> Seq<DriveState> {
        self.states@
    }

    /// There is a state for each line.
    pub proof fn lemma_lengths(self)
        ensures
            self.state_seq().len() == EXPANDER_SLOT_COUNT,
    {
    }

    /// A stand-in for an absent device: address 0, every line released.
    pub fn placeholder() -> (r: Self)
        ensures
            r.addr() == 0,
            r.state_seq() == Seq::new(EXPANDER_SLOT_COUNT as nat, |i: int| DriveState::HiZ),
    {
        let r = Mcp23017 { address: 0, states: [DriveState::HiZ; EXPANDER_SLOT_COUNT] };
        assert(r.states@ =~= Seq::new(EXPANDER_SLOT_COUNT as nat, |i: int| DriveState::HiZ));
        r
    }

    /// The bus address.
    pub fn address(&self) -> (r: u8)
        ensures
            r == self.addr(),
    {
        self.address
    }

    /// The state last set on each line.
    pub fn states(&self) -> (r: &[DriveState; EXPANDER_SLOT_COUNT])
        ensures
            r@ == self.state_seq(),
    {
        &self.states
    }

    /// `probe` as a value.
    pub open spec fn probe_outcome(outcome: Result<(), I2cErrorKind>) -> Result<bool, I2cErrorKind> {
        match outcome {
            Ok(()) => Ok(true),
            Err(I2cErrorKind::NoAcknowledge(_)) => Ok(false),
            Err(kind) => Err(kind),
        }
    }

    /// Reads the outcome of a probe (a read of `IODIRA`): a device answered,
    /// nobody acknowledged, or the bus failed.
    pub fn probe(outcome: Result<(), I2cErrorKind>) -> (r: Result<bool, I2cErrorKind>)
        ensures
            r == Self::probe_outcome(outcome),
    {
        match outcome {
            Ok(()) => Ok(true),
            Err(kind) => match kind {
                I2cErrorKind::NoAcknowledge(_) => Ok(false),
                _ => Err(kind),
            },
        }
    }

    /// The device at `address`, every line released; with the writes that
    /// set it up: pull-ups off, then the register state of its lines.
    pub fn new(address: u8) -> (r: (Self, Vec<I2cWrite>))
        ensures
            r.0.addr() == address,
            r.0.state_seq() == Seq::new(EXPANDER_SLOT_COUNT as nat, |i: int| DriveState::HiZ),
            r.1@.len() == 3,
            is_register_write(r.1@[0], address, REG_GPPUA, 0),
            is_sync(address, r.0.state_seq(), r.1@.skip(1)),
    {
        let controller = Mcp23017 { address, states: [DriveState::HiZ; EXPANDER_SLOT_COUNT] };
        assert(controller.states@ =~= Seq::new(
            EXPANDER_SLOT_COUNT as nat,
            |i: int| DriveState::HiZ,
        ));
        let mut writes: Vec<I2cWrite> = Vec::new();
        writes.push(controller.write_register16(REG_GPPUA, 0));
        let mut sync = controller.sync();
        let ghost sync_writes = sync@;
        writes.append(&mut sync);
        assert(writes@.skip(1) =~= sync_writes);
        (controller, writes)
    }

    /// Sets one line; the writes that bring the device in line.
    pub fn set_pin_state(&mut self, pin: usize, state: DriveState) -> (r: Vec<I2cWrite>)
        requires
            pin < EXPANDER_SLOT_COUNT,
        ensures
            final(self).addr() == old(self).addr(),
            final(self).state_seq() == old(self).state_seq().update(pin as int, state),
            is_sync(final(self).addr(), final(self).state_seq(), r@),
    {
        self.states[pin] = state;
        self.sync()
    }

    /// Sets every line; the writes that bring the device in line.
    pub fn set_all_state(&mut self, state: DriveState) -> (r: Vec<I2cWrite>)
        ensures
            final(self).addr() == old(self).addr(),
            final(self).state_seq() == Seq::new(EXPANDER_SLOT_COUNT as nat, |i: int| state),
            is_sync(final(self).addr(), final(self).state_seq(), r@),
    {
        self.states = [state; EXPANDER_SLOT_COUNT];
        assert(self.states@ =~= Seq::new(EXPANDER_SLOT_COUNT as nat, |i: int| state));
        self.sync()
    }

    /// The writes that bring the device's registers in line with the states.
    pub fn sync(&self) -> (r: Vec<I2cWrite>)
        ensures
            is_sync(self.addr(), self.state_seq(), r@),
    {
        let (direction, output) = self.encode();
        let mut writes: Vec<I2cWrite> = Vec::new();
        writes.push(self.write_register16(REG_GPIOA, output));
        writes.push(self.write_register16(REG_IODIRA, direction));
        assert(encodes(self.state_seq(), direction, output));
        writes
    }

    /// The direction and output register words for the current states.
    pub fn encode(&self) -> (r: (u16, u16))
        ensures
            encodes(self.state_seq(), r.0, r.1),
    {
        let mut direction: u16 = 0;
        let mut output: u16 = 0;
        let mut pin: usize = 0;
        assert forall|j: int| 0 <= j < EXPANDER_SLOT_COUNT implies !#[trigger] bit16(direction, j)
            && !bit16(output, j) by {
            lemma_zero_bits16(j as u16);
        }
        while pin < EXPANDER_SLOT_COUNT
            invariant
                pin <= EXPANDER_SLOT_COUNT,
                self.states@.len() == EXPANDER_SLOT_COUNT,
                forall|j: int|
                    0 <= j < pin ==> (#[trigger] bit16(direction, j) <==> self.states@[j]
                        == DriveState::HiZ) && (bit16(output, j) <==> self.states@[j]
                        == DriveState::High),
                forall|j: int|
                    pin <= j < EXPANDER_SLOT_COUNT ==> !#[trigger] bit16(direction, j) && !bit16(
                        output,
                        j,
                    ),
            decreases EXPANDER_SLOT_COUNT - pin,
        {
            let mask: u16 = 1u16 << (pin as u16);
            let ghost d0 = direction;
            let ghost o0 = output;
            match self.states[pin] {
                DriveState::High => {
                    output = output | mask;
                },
                DriveState::Low => {},
                DriveState::HiZ => {
                    direction = direction | mask;
                },
            }
            assert forall|j: int| 0 <= j < EXPANDER_SLOT_COUNT implies (bit16(direction, j) <==> (
            bit16(d0, j) || (j == pin && self.states@[pin as int] == DriveState::HiZ))) && (bit16(
                output,
                j,
            ) <==> (bit16(o0, j) || (j == pin && self.states@[pin as int] == DriveState::High)))
                by {
                lemma_set_bit16(d0, pin as u16, j as u16);
                lemma_set_bit16(o0, pin as u16, j as u16);
            }
            pin = pin + 1;
        }
        (direction, output)
    }

    /// The write of a 16-bit value to a register pair, low byte first.
    pub fn write_register16(&self, register: u8, value: u16) -> (r: I2cWrite)
        ensures
            is_register_write(r, self.addr(), register, value),
    {
        let low = (value & 0xff) as u8;
        let high = (value >> 8) as u8;
        let w = I2cWrite { address: self.address, bytes: [register, low, high] };
        assert(w.bytes@ =~= seq![register, (value & 0xff) as u8, (value >> 8) as u8]);
        w
    }
}

} // verus!
