//! The waveform generator for WS2812B strips: the clock divisor of the timing
//! coprocessor, the bit-encoding program it runs, and feeding it color words.

use vstd::prelude::*;
use pio::InstructionOperands as Ops;
use pio::MovDestination as Dest;
use pio::MovSource as Src;

verus! {

/// The WS2812B bit rate in Hz.
pub const WS2812B_FREQUENCY: u32 = 800_000;

/// Coprocessor clock cycles per transmitted bit.
pub const CYCLES_PER_CONTROL_BIT: u32 = 10;

/// The integer part of the clock divisor as the divider register holds it:
/// 65536 does not fit in 16 bits and is written as 0. The register has no
/// room for larger values, which keep their low 16 bits.
pub open spec fn divisor_int(clock: u32, target: u32) -> int {
    (clock as int / target as int) % 0x1_0000
}

/// The fractional part of the clock divisor in 1/256 steps, rounded down.
pub open spec fn divisor_frac(clock: u32, target: u32) -> int {
    ((clock as int % target as int) * 256) / target as int
}

/// Computes the clock divisor that runs the coprocessor at `target_frequency`
/// from `clock_frequency`: an integer part and an 8-bit fraction.
pub fn frequency(clock_frequency: u32, target_frequency: u32) -> (r: (u16, u8))
    requires
        target_frequency > 0,
    ensures
        r.0 == divisor_int(clock_frequency, target_frequency),
        r.1 == divisor_frac(clock_frequency, target_frequency),
{
    let whole = clock_frequency / target_frequency;
    let rem = clock_frequency % target_frequency;
    assert((rem as int) * 256 / (target_frequency as int) < 256) by (nonlinear_arith)
        requires
            rem < target_frequency,
    ;
    let frac = (rem as u64 * 256) / target_frequency as u64;
    // 65536 is written as 0 in the divider register
    let int_field: u16 = if whole == 0x1_0000 {
        0
    } else {
        (whole % 0x1_0000) as u16
    };
    (int_field, frac as u8)
}

/// The divisor for the WS2812B sample rate: the bit rate times the cycles
/// per bit.
pub fn clock_divisor(clock_frequency: u32) -> (r: (u16, u8))
    ensures
        r.0 == divisor_int(clock_frequency, (WS2812B_FREQUENCY * CYCLES_PER_CONTROL_BIT) as u32),
        r.1 == divisor_frac(clock_frequency, (WS2812B_FREQUENCY * CYCLES_PER_CONTROL_BIT) as u32),
{
    let target_frequency = WS2812B_FREQUENCY * CYCLES_PER_CONTROL_BIT;
    frequency(clock_frequency, target_frequency)
}

/// A clock of exactly 65536 times the target gives the integer part 65536,
/// which the divider register takes as its wraparound sentinel 0.
pub proof fn lemma_divisor_sentinel(target: u32)
    requires
        0 < target,
        0x1_0000 * target <= u32::MAX,
    ensures
        divisor_int((0x1_0000 * target) as u32, target) == 0,
        divisor_frac((0x1_0000 * target) as u32, target) == 0,
{
    let clock = (0x1_0000 * target) as u32;
    assert(clock / target == 0x1_0000 && clock % target == 0) by (nonlinear_arith)
        requires
            0 < target,
            clock == 0x1_0000 * target,
    ;
}

/// A timing-coprocessor operation of the bit-encoding program.
#[derive(Debug, Clone, Copy, PartialEq, Eq, Structural)]
pub enum PioOp {
    /// Shift `bits` bits out of the output shift register into scratch X.
    OutX { bits: u8 },
    /// Jump to `target` when scratch X is zero.
    JmpXZero { target: u8 },
    /// Jump to `target`.
    Jmp { target: u8 },
    /// Do nothing.
    Nop,
}

/// One instruction: an operation, the extra cycles it waits, and the level
/// it drives on the side-set pin while it runs.
#[derive(Debug, Clone, Copy, PartialEq, Eq, Structural)]
pub struct PioStep {
    pub op: PioOp,
    pub delay: u8,
    pub side: u8,
}

/// Whether a step can be encoded with one side-set bit: the delay fits in
/// the remaining four bits, the level in one, and jump targets in five.
pub open spec fn encodable(step: PioStep) -> bool {
    &&& step.delay <= 15
    &&& step.side <= 1
    &&& match step.op {
        PioOp::JmpXZero { target } => target < 32,
        PioOp::Jmp { target } => target < 32,
        _ => true,
    }
}

/// The opcode and operand bits of an operation.
pub open spec fn operand_bits(op: PioOp) -> int {
    match op {
        PioOp::OutX { bits } => 0x6000 + 0x20 + bits % 32,
        PioOp::JmpXZero { target } => 0x20 + target,
        PioOp::Jmp { target } => target as int,
        PioOp::Nop => 0xA042,
    }
}

/// The machine word of a step with one side-set bit: the operation in bits
/// 15..13 and 7..0, the delay in bits 11..8 and the side-set level in bit 12.
pub open spec fn instruction_word(step: PioStep) -> u16 {
    (operand_bits(step.op) + (step.delay + 16 * step.side) * 256) as u16
}

/// Relies on `pio::Instruction::encode` with a single mandatory side-set bit
/// (`pio::SideSet::new(false, 1, false)`) to assemble one step.
#[verifier::external_body]
fn encode_step(step: PioStep) -> (w: u16)
    requires
        encodable(step),
    ensures
        w == instruction_word(step),
{
    let operands = match step.op {
        PioOp::OutX { bits } => Ops::OUT { destination: pio::OutDestination::X, bit_count: bits },
        PioOp::JmpXZero { target } => Ops::JMP { condition: pio::JmpCondition::XIsZero, address: target },
        PioOp::Jmp { target } => Ops::JMP { condition: pio::JmpCondition::Always, address: target },
        PioOp::Nop => Ops::MOV { destination: Dest::Y, op: pio::MovOperation::None, source: Src::Y },
    };
    let instruction = pio::Instruction { operands, delay: step.delay, side_set: Some(step.side) };
    instruction.encode(pio::SideSet::new(false, 1, false))
}

/// The bit-encoding program: shift one bit into X with the pin low for 3
/// cycles, raise the pin for 2 cycles, then keep it high for 5 more cycles on
/// a 1 bit or drop it for 5 cycles on a 0 bit.
pub open spec fn ws2812b_steps() -> Seq<PioStep> {
    seq![
        PioStep { op: PioOp::OutX { bits: 1 }, delay: 2, side: 0 },
        PioStep { op: PioOp::JmpXZero { target: 3 }, delay: 1, side: 1 },
        PioStep { op: PioOp::Jmp { target: 0 }, delay: 4, side: 1 },
        PioStep { op: PioOp::Nop, delay: 4, side: 0 },
    ]
}

/// The last step before the program wraps.
pub const WRAP_SOURCE: u8 = 3;

/// The step the program wraps to.
pub const WRAP_TARGET: u8 = 0;

/// The step that runs after step `pc`, with `x` in scratch X.
pub open spec fn next_pc(steps: Seq<PioStep>, pc: int, x: bool) -> int {
    let fall = if pc == WRAP_SOURCE {
        WRAP_TARGET as int
    } else {
        pc + 1
    };
    match steps[pc].op {
        PioOp::Jmp { target } => target as int,
        PioOp::JmpXZero { target } => if !x {
            target as int
        } else {
            fall
        },
        _ => fall,
    }
}

/// The pin level in each cycle of a step: its side-set level for one cycle
/// plus its delay.
pub open spec fn step_levels(step: PioStep) -> Seq<bool> {
    Seq::new((1 + step.delay) as nat, |i: int| step.side == 1)
}

/// The pin levels from step `pc` until the program is back at its first
/// step, with `x` in scratch X, running at most `fuel` steps.
pub open spec fn levels_from(steps: Seq<PioStep>, x: bool, pc: int, fuel: nat) -> Seq<bool>
    decreases fuel,
{
    if fuel == 0 {
        Seq::empty()
    } else {
        let next = next_pc(steps, pc, x);
        step_levels(steps[pc]) + if next == 0 {
            Seq::<bool>::empty()
        } else {
            levels_from(steps, x, next, (fuel - 1) as nat)
        }
    }
}

/// The waveform of one bit: the pin level in each coprocessor cycle from the
/// moment the bit is shifted out until the next bit is.
pub open spec fn bit_waveform(bit: bool) -> Seq<bool> {
    levels_from(ws2812b_steps(), bit, 0, 4)
}

/// Every bit takes 10 cycles; a 1 bit is high for 7 of them, a 0 bit for 2,
/// and in both the high pulse is one contiguous run.
pub proof fn lemma_bit_timing()
    ensures
        bit_waveform(true) == seq![false, false, false, true, true, true, true, true, true, true],
        bit_waveform(false) == seq![false, false, false, true, true, false, false, false, false, false],
        bit_waveform(true).len() == CYCLES_PER_CONTROL_BIT,
        bit_waveform(false).len() == CYCLES_PER_CONTROL_BIT,
{
    reveal_with_fuel(levels_from, 4);
    let steps = ws2812b_steps();
    assert(next_pc(steps, 0, true) == 1);
    assert(next_pc(steps, 1, true) == 2);
    assert(next_pc(steps, 2, true) == 0);
    assert(next_pc(steps, 0, false) == 1);
    assert(next_pc(steps, 1, false) == 3);
    assert(next_pc(steps, 3, false) == 0);
    assert(bit_waveform(true) =~= seq![false, false, false, true, true, true, true, true, true, true]);
    assert(bit_waveform(false) =~= seq![false, false, false, true, true, false, false, false, false, false]);
}

/// An assembled program: its machine words and where it wraps.
pub struct Microprogram {
    pub code: Vec<u16>,
    pub wrap_source: u8,
    pub wrap_target: u8,
}

/// Assembles the bit-encoding program with one side-set bit.
pub fn program() -> (r: Microprogram)
    ensures
        r.code@ == ws2812b_steps().map_values(|s: PioStep| instruction_word(s)),
        r.wrap_source == WRAP_SOURCE,
        r.wrap_target == WRAP_TARGET,
{
    let steps = [
        PioStep { op: PioOp::OutX { bits: 1 }, delay: 2, side: 0 },
        PioStep { op: PioOp::JmpXZero { target: 3 }, delay: 1, side: 1 },
        PioStep { op: PioOp::Jmp { target: 0 }, delay: 4, side: 1 },
        PioStep { op: PioOp::Nop, delay: 4, side: 0 },
    ];
    assert(steps@ =~= ws2812b_steps());
    let mut code: Vec<u16> = Vec::new();
    let mut i: usize = 0;
    while i < 4
        invariant
            i <= 4,
            steps@ == ws2812b_steps(),
            code@ == ws2812b_steps().take(i as int).map_values(|s: PioStep| instruction_word(s)),
        decreases 4 - i,
    {
        code.push(encode_step(steps[i]));
        i += 1;
        assert(code@ =~= ws2812b_steps().take(i as int).map_values(|s: PioStep| instruction_word(s)));
    }
    assert(ws2812b_steps().take(4) =~= ws2812b_steps());
    Microprogram { code, wrap_source: WRAP_SOURCE, wrap_target: WRAP_TARGET }
}

/// The transmit buffer of one coprocessor instance.
pub trait PioTx {
    /// Offers a word to the transmit buffer; returns whether it was taken.
    fn write(&mut self, value: u32) -> bool;
}

/// A transmit buffer with a record of every word offered to it and of every
/// word it took, in order.
pub struct Transmitter<T: PioTx> {
    tx: T,
    offered: Ghost<Seq<u32>>,
    taken: Ghost<Seq<u32>>,
}

impl<T: PioTx> Transmitter<T> {
    /// The words offered so far, oldest first.
    pub closed spec fn offered(&self) -> Seq<u32> {
        self.offered@
    }

    /// The words the buffer took so far, oldest first.
    pub closed spec fn taken(&self) -> Seq<u32> {
        self.taken@
    }

    /// The wrapped buffer.
    pub closed spec fn sink(&self) -> T {
        self.tx
    }

    /// Wraps a buffer; nothing has been offered yet.
    pub fn new(tx: T) -> (r: Transmitter<T>)
        ensures
            r.offered() == Seq::<u32>::empty(),
            r.taken() == Seq::<u32>::empty(),
            r.sink() == tx,
    {
        Transmitter { tx, offered: Ghost(Seq::empty()), taken: Ghost(Seq::empty()) }
    }

    /// Offers one word; the buffer decides whether it takes it.
    pub fn write(&mut self, value: u32) -> (r: bool)
        ensures
            final(self).offered() == old(self).offered().push(value),
            final(self).taken() == if r {
                old(self).taken().push(value)
            } else {
                old(self).taken()
            },
    {
        let r = self.tx.write(value);
        self.offered = Ghost(self.offered@.push(value));
        if r {
            self.taken = Ghost(self.taken@.push(value));
        }
        r
    }

    /// The wrapped buffer.
    pub fn inner(&self) -> (r: &T)
        ensures
            *r == self.sink(),
    {
        &self.tx
    }
}

/// Offers `words[from..]` to `tx` in order until it refuses one, and returns
/// the index of the first word not taken. Exactly `words[from..next]` are
/// taken, in order; when `next` is short of the end, `words[next]` was
/// offered once and refused, so offering again from `next` resends it.
pub fn feed<T: PioTx>(tx: &mut Transmitter<T>, words: &[u32], from: usize) -> (next: usize)
    requires
        from <= words@.len(),
    ensures
        from <= next <= words@.len(),
        final(tx).taken() == old(tx).taken() + words@.subrange(from as int, next as int),
        final(tx).offered() == old(tx).offered() + words@.subrange(
            from as int,
            if next < words@.len() {
                next + 1
            } else {
                next as int
            },
        ),
{
    let mut i: usize = from;
    while i < words.len()
        invariant
            from <= i <= words@.len(),
            tx.taken() == old(tx).taken() + words@.subrange(from as int, i as int),
            tx.offered() == old(tx).offered() + words@.subrange(from as int, i as int),
        decreases words@.len() - i,
    {
        let ghost before = words@.subrange(from as int, i as int);
        assert(words@.subrange(from as int, i + 1) =~= before.push(words@[i as int]));
        if !tx.write(words[i]) {
            assert(tx.offered() =~= old(tx).offered() + words@.subrange(from as int, i + 1));
            return i;
        }
        i += 1;
        assert(tx.taken() =~= old(tx).taken() + words@.subrange(from as int, i as int));
        assert(tx.offered() =~= old(tx).offered() + words@.subrange(from as int, i as int));
    }
    i
}

} // verus!
