//! Programming of the programmable interval timer (channel 0).
use vstd::prelude::*;

verus! {

/// Command port of the interval timer.
pub const TIMER_MODE: u16 = 0x43;

/// Command word: channel 0, low byte then high byte, square-wave generator.
pub const SQUARE_WAVE: u8 = 0x36;

/// Data port of timer channel 0.
pub const TIMER0: u16 = 0x40;

/// Input clock of the timer in Hz (PC and AT).
pub const TIMER_FREQUENCY: u32 = 1193182;

/// Tick rate of the system clock in Hz.
pub const HZ: u32 = 60;

/// One byte written to one I/O port.
#[derive(Clone, Copy, Debug, PartialEq, Eq, Structural)]
pub struct PortWrite {
    pub port: u16,
    pub value: u8,
}

/// The divisor that makes the timer fire `frequency_hz` times per second.
pub open spec fn timer_divisor(frequency_hz: u32) -> int
    recommends
        frequency_hz > 0,
{
    TIMER_FREQUENCY as int / frequency_hz as int
}

/// Bits 0..7 of `d`.
pub open spec fn low_byte(d: int) -> int {
    d % 256
}

/// Bits 8..15 of `d`.
pub open spec fn high_byte(d: int) -> int {
    (d / 256) % 256
}

/// The port writes that arm the timer at `frequency_hz`, in the order in
/// which they must be issued.
pub open spec fn timer_program(frequency_hz: u32) -> Seq<PortWrite> {
    seq![
        PortWrite { port: TIMER_MODE, value: SQUARE_WAVE },
        PortWrite { port: TIMER0, value: low_byte(timer_divisor(frequency_hz)) as u8 },
        PortWrite { port: TIMER0, value: high_byte(timer_divisor(frequency_hz)) as u8 },
    ]
}

/// The divisor that `configure_timer` computes.
pub fn divisor_for(frequency_hz: u32) -> (r: u32)
    requires
        frequency_hz > 0,
    ensures
        r as int == timer_divisor(frequency_hz),
{
    TIMER_FREQUENCY / frequency_hz
}

/// The three port writes that program channel 0 as a square-wave generator
/// firing `frequency_hz` times per second: the command word, then the low
/// byte and the high byte of `TIMER_FREQUENCY / frequency_hz`. A divisor
/// that does not fit in 16 bits (below 19 Hz) keeps its low 16 bits, as
/// the hardware counter does.
pub fn configure_timer(frequency_hz: u32) -> (r: Vec<PortWrite>)
    requires
        frequency_hz > 0,
    ensures
        r@ == timer_program(frequency_hz),
{
    let d = divisor_for(frequency_hz);
    let lo = (d & 0xff) as u8;
    let hi = ((d >> 8u32) & 0xff) as u8;
    assert(d & 0xff == d % 256) by (bit_vector);
    assert((d >> 8u32) & 0xff == (d / 256) % 256) by (bit_vector);
    let mut r: Vec<PortWrite> = Vec::new();
    r.push(PortWrite { port: TIMER_MODE, value: SQUARE_WAVE });
    r.push(PortWrite { port: TIMER0, value: lo });
    r.push(PortWrite { port: TIMER0, value: hi });
    assert(r@ =~= timer_program(frequency_hz));
    r
}

} // verus!
