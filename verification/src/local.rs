//! The eight local channels: GPIO lines driven through the RP2040's SIO
//! block, whose set/clear registers are modelled here as a pair of words.

use vstd::prelude::*;

use crate::drive::DriveState;
use crate::LOCAL_SLOT_COUNT;

verus! {

/// The SIO registers that a channel change writes.
#[derive(Clone, Copy, PartialEq, Eq, Structural, Debug)]
pub enum SioRegister {
    /// `GPIO_OUT_SET`: sets output bits.
    OutSet,
    /// `GPIO_OUT_CLR`: clears output bits.
    OutClr,
    /// `GPIO_OE_SET`: enables output drivers.
    OeSet,
    /// `GPIO_OE_CLR`: disables output drivers.
    OeClr,
}

/// One write of `mask` to one SIO register.
#[derive(Clone, Copy, PartialEq, Eq, Structural, Debug)]
pub struct SioWrite {
    pub register: SioRegister,
    pub mask: u32,
}

/// The writes that put the lines in `mask` into `state`.
pub open spec fn mask_writes(mask: u32, state: DriveState) -> Seq<SioWrite> {
    match state {
        DriveState::High => seq![
            SioWrite { register: SioRegister::OutSet, mask },
            SioWrite { register: SioRegister::OeSet, mask },
        ],
        DriveState::Low => seq![
            SioWrite { register: SioRegister::OutClr, mask },
            SioWrite { register: SioRegister::OeSet, mask },
        ],
        DriveState::HiZ => seq![SioWrite { register: SioRegister::OeClr, mask }],
    }
}

/// The bit of line `pin`.
pub open spec fn pin_bit(pin: u8) -> u32 {
    (1u32 << pin) as u32
}

/// The union of the bits of `pins`.
pub open spec fn pins_mask(pins: Seq<u8>) -> u32
    decreases pins.len(),
{
    if pins.len() == 0 {
        0
    } else {
        pins_mask(pins.drop_last()) | pin_bit(pins.last())
    }
}

/// The writes that put every line of `pins`, one after another, into `state`.
pub open spec fn writes_for_pins(pins: Seq<u8>, state: DriveState) -> Seq<SioWrite>
    decreases pins.len(),
{
    if pins.len() == 0 {
        Seq::empty()
    } else {
        writes_for_pins(pins.drop_last(), state) + mask_writes(pin_bit(pins.last()), state)
    }
}

/// The output and output-enable words after one write.
pub open spec fn sio_step(out: u32, oe: u32, w: SioWrite) -> (u32, u32) {
    match w.register {
        SioRegister::OutSet => (out | w.mask, oe),
        SioRegister::OutClr => (out & !w.mask, oe),
        SioRegister::OeSet => (out, oe | w.mask),
        SioRegister::OeClr => (out, oe & !w.mask),
    }
}

/// The output and output-enable words after a sequence of writes.
pub open spec fn sio_run(out: u32, oe: u32, ws: Seq<SioWrite>) -> (u32, u32)
    decreases ws.len(),
{
    if ws.len() == 0 {
        (out, oe)
    } else {
        let (o, e) = sio_run(out, oe, ws.drop_last());
        sio_step(o, e, ws.last())
    }
}

/// Bit `pin` of `word` is set.
pub open spec fn bit_set(word: u32, pin: u8) -> bool {
    (word >> pin) & 1u32 == 1u32
}

/// With these output and output-enable words, line `pin` is in `state`.
pub open spec fn drives(out: u32, oe: u32, pin: u8, state: DriveState) -> bool {
    match state {
        DriveState::High => bit_set(oe, pin) && bit_set(out, pin),
        DriveState::Low => bit_set(oe, pin) && !bit_set(out, pin),
        DriveState::HiZ => !bit_set(oe, pin),
    }
}

proof fn lemma_bits_one_pin(word: u32, pin: u8, q: u8)
    requires
        pin < 32,
        q < 32,
    ensures
        bit_set(word | pin_bit(pin), q) == (bit_set(word, q) || q == pin),
        bit_set(word & !pin_bit(pin), q) == (bit_set(word, q) && q != pin),
{
    assert(((word | ((1u32 << pin) as u32)) >> q) & 1u32 == 1u32 <==> (((word >> q) & 1u32
        == 1u32) || q == pin)) by (bit_vector)
        requires
            pin < 32,
            q < 32,
    ;
    assert(((word & !((1u32 << pin) as u32)) >> q) & 1u32 == 1u32 <==> (((word >> q) & 1u32
        == 1u32) && q != pin)) by (bit_vector)
        requires
            pin < 32,
            q < 32,
    ;
}

/// Putting line `pin` into a state drives it so and leaves every other line as it was.
pub proof fn law_mask_writes_drive_pin(out: u32, oe: u32, pin: u8, state: DriveState)
    requires
        pin < 32,
    ensures
        ({
            let (o, e) = sio_run(out, oe, mask_writes(pin_bit(pin), state));
            &&& drives(o, e, pin, state)
            &&& forall|q: u8|
                q < 32 && q != pin ==> bit_set(o, q) == bit_set(out, q) && bit_set(e, q)
                    == bit_set(oe, q)
        }),
{
    let ws = mask_writes(pin_bit(pin), state);
    reveal_with_fuel(sio_run, 3);
    assert(ws.drop_last().drop_last() =~= Seq::<SioWrite>::empty() || ws.len() == 1);
    if ws.len() == 2 {
        assert(ws.drop_last().drop_last() =~= Seq::<SioWrite>::empty());
    } else {
        assert(ws.drop_last() =~= Seq::<SioWrite>::empty());
    }
    let (o, e) = sio_run(out, oe, ws);
    lemma_bits_one_pin(out, pin, pin);
    lemma_bits_one_pin(oe, pin, pin);
    assert forall|q: u8| q < 32 && q != pin implies bit_set(o, q) == bit_set(out, q) && bit_set(
        e,
        q,
    ) == bit_set(oe, q) by {
        lemma_bits_one_pin(out, pin, q);
        lemma_bits_one_pin(oe, pin, q);
    }
}

/// Once line `p` is in `state`, putting any line into the same state keeps it so.
proof fn lemma_same_state_keeps(out: u32, oe: u32, p: u8, q: u8, state: DriveState)
    requires
        p < 32,
        q < 32,
        drives(out, oe, p, state),
    ensures
        ({
            let (o, e) = sio_run(out, oe, mask_writes(pin_bit(q), state));
            drives(o, e, p, state)
        }),
{
    law_mask_writes_drive_pin(out, oe, q, state);
}

proof fn lemma_sio_run_append(out: u32, oe: u32, a: Seq<SioWrite>, b: Seq<SioWrite>)
    ensures
        sio_run(out, oe, a + b) == ({
            let (o, e) = sio_run(out, oe, a);
            sio_run(o, e, b)
        }),
    decreases b.len(),
{
    if b.len() == 0 {
        assert(a + b =~= a);
    } else {
        assert((a + b).drop_last() =~= a + b.drop_last());
        lemma_sio_run_append(out, oe, a, b.drop_last());
    }
}

/// Putting a list of lines into one state leaves every one of them in it.
pub proof fn law_writes_for_pins_drive_all(
    out: u32,
    oe: u32,
    pins: Seq<u8>,
    state: DriveState,
)
    requires
        forall|i: int| 0 <= i < pins.len() ==> #[trigger] pins[i] < 32,
    ensures
        ({
            let (o, e) = sio_run(out, oe, writes_for_pins(pins, state));
            forall|i: int| 0 <= i < pins.len() ==> drives(o, e, #[trigger] pins[i], state)
        }),
    decreases pins.len(),
{
    if pins.len() > 0 {
        let init = pins.drop_last();
        assert forall|i: int| 0 <= i < init.len() implies #[trigger] init[i] < 32 by {
            assert(pins[i] < 32);
        }
        law_writes_for_pins_drive_all(out, oe, init, state);
        let (o1, e1) = sio_run(out, oe, writes_for_pins(init, state));
        lemma_sio_run_append(out, oe, writes_for_pins(init, state), mask_writes(pin_bit(pins.last()), state));
        let (o, e) = sio_run(out, oe, writes_for_pins(pins, state));
        assert(pins.last() < 32);
        law_mask_writes_drive_pin(o1, e1, pins.last(), state);
        assert forall|i: int| 0 <= i < pins.len() implies drives(o, e, #[trigger] pins[i], state) by {
            if i < pins.len() - 1 {
                assert(pins[i] == init[i]);
                lemma_same_state_keeps(o1, e1, pins[i], pins.last(), state);
            }
        }
    }
}

/// The local channels: which GPIO line each one is, and the state last set on it.
pub struct LocalPins {
    pin_numbers: [u8; LOCAL_SLOT_COUNT],
    states: [DriveState; LOCAL_SLOT_COUNT],
}

impl LocalPins {
    #[verifier::type_invariant]
    closed spec fn lines_exist(self) -> bool {
        forall|i: int| 0 <= i < LOCAL_SLOT_COUNT ==> #[trigger] self.pin_numbers@[i] < 32
    }

    /// The GPIO line of each channel.
    pub closed spec fn pins(self) -> Seq<u8> {
        self.pin_numbers@
    }

    /// The state last set on each channel.
    pub closed spec fn state_seq(self) -> Seq<DriveState> {
        self.states@
    }

    /// There is a line and a state for each channel.
    pub proof fn lemma_lengths(self)
        ensures
            self.pins().len() == LOCAL_SLOT_COUNT,
            self.state_seq().len() == LOCAL_SLOT_COUNT,
    {
    }

    /// Channels on the given lines, all released; with the writes that release them.
    pub fn new(pin_numbers: [u8; LOCAL_SLOT_COUNT]) -> (r: (Self, Vec<SioWrite>))
        requires
            forall|i: int| 0 <= i < LOCAL_SLOT_COUNT ==> #[trigger] pin_numbers@[i] < 32,
        ensures
            r.0.pins() == pin_numbers@,
            r.0.state_seq() == Seq::new(LOCAL_SLOT_COUNT as nat, |i: int| DriveState::HiZ),
            r.1@ == mask_writes(pins_mask(pin_numbers@), DriveState::HiZ),
    {
        let controller = LocalPins { pin_numbers, states: [DriveState::HiZ; LOCAL_SLOT_COUNT] };
        assert(controller.states@ =~= Seq::new(LOCAL_SLOT_COUNT as nat, |i: int| DriveState::HiZ));
        let writes = controller.apply_mask_state(controller.mask(), DriveState::HiZ);
        (controller, writes)
    }

    /// Sets one channel; the writes that put its line in that state.
    pub fn set(&mut self, slot: usize, state: DriveState) -> (r: Vec<SioWrite>)
        requires
            slot < LOCAL_SLOT_COUNT,
        ensures
            final(self).pins() == old(self).pins(),
            final(self).state_seq() == old(self).state_seq().update(slot as int, state),
            r@ == mask_writes(pin_bit(old(self).pins()[slot as int]), state),
            old(self).pins()[slot as int] < 32,
    {
        proof {
            use_type_invariant(&*self);
        }
        let writes = self.apply_state(self.pin_numbers[slot], state);
        self.states[slot] = state;
        writes
    }

    /// Sets every channel, one after another.
    pub fn set_all(&mut self, state: DriveState) -> (r: Vec<SioWrite>)
        ensures
            final(self).pins() == old(self).pins(),
            final(self).state_seq() == Seq::new(LOCAL_SLOT_COUNT as nat, |i: int| state),
            r@ == writes_for_pins(old(self).pins(), state),
    {
        let mut writes: Vec<SioWrite> = Vec::new();
        let ghost pins = self.pins();
        let ghost old_states = self.state_seq();
        let mut slot: usize = 0;
        while slot < LOCAL_SLOT_COUNT
            invariant
                slot <= LOCAL_SLOT_COUNT,
                self.pins() == pins,
                pins.len() == LOCAL_SLOT_COUNT,
                self.state_seq().len() == LOCAL_SLOT_COUNT,
                forall|i: int| 0 <= i < slot ==> #[trigger] self.state_seq()[i] == state,
                writes@ == writes_for_pins(pins.take(slot as int), state),
            decreases LOCAL_SLOT_COUNT - slot,
        {
            proof {
                use_type_invariant(&*self);
            }
            let step = self.set(slot, state);
            let mut step = step;
            proof {
                assert(pins.take(slot + 1).drop_last() =~= pins.take(slot as int));
            }
            writes.append(&mut step);
            slot = slot + 1;
        }
        assert(pins.take(LOCAL_SLOT_COUNT as int) =~= pins);
        assert(self.state_seq() =~= Seq::new(LOCAL_SLOT_COUNT as nat, |i: int| state));
        writes
    }

    /// The bits of every channel's line.
    pub fn mask(&self) -> (r: u32)
        ensures
            r == pins_mask(self.pins()),
    {
        proof {
            use_type_invariant(self);
        }
        let mut mask: u32 = 0;
        let mut i: usize = 0;
        while i < LOCAL_SLOT_COUNT
            invariant
                i <= LOCAL_SLOT_COUNT,
                self.pin_numbers@.len() == LOCAL_SLOT_COUNT,
                forall|k: int| 0 <= k < LOCAL_SLOT_COUNT ==> #[trigger] self.pin_numbers@[k] < 32,
                mask == pins_mask(self.pin_numbers@.take(i as int)),
            decreases LOCAL_SLOT_COUNT - i,
        {
            let pin = self.pin_numbers[i];
            assert(self.pin_numbers@.take(i + 1).drop_last() =~= self.pin_numbers@.take(i as int));
            mask = mask | (1u32 << pin);
            i = i + 1;
        }
        assert(self.pin_numbers@.take(LOCAL_SLOT_COUNT as int) =~= self.pin_numbers@);
        mask
    }

    /// The writes that put the lines in `mask` into `state`.
    pub fn apply_mask_state(&self, mask: u32, state: DriveState) -> (r: Vec<SioWrite>)
        ensures
            r@ == mask_writes(mask, state),
    {
        let mut writes: Vec<SioWrite> = Vec::new();
        match state {
            DriveState::High => {
                writes.push(SioWrite { register: SioRegister::OutSet, mask });
                writes.push(SioWrite { register: SioRegister::OeSet, mask });
            },
            DriveState::Low => {
                writes.push(SioWrite { register: SioRegister::OutClr, mask });
                writes.push(SioWrite { register: SioRegister::OeSet, mask });
            },
            DriveState::HiZ => {
                writes.push(SioWrite { register: SioRegister::OeClr, mask });
            },
        }
        assert(writes@ =~= mask_writes(mask, state));
        writes
    }

    /// The writes that put line `pin` into `state`.
    pub fn apply_state(&self, pin: u8, state: DriveState) -> (r: Vec<SioWrite>)
        requires
            pin < 32,
        ensures
            r@ == mask_writes(pin_bit(pin), state),
    {
        self.apply_mask_state(1u32 << pin, state)
    }

    /// The state last set on each channel.
    pub fn states(&self) -> (r: &[DriveState; LOCAL_SLOT_COUNT])
        ensures
            r@ == self.state_seq(),
    {
        &self.states
    }
}

} // verus!
