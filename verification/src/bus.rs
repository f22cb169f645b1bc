//! The physical-layer capability contracts the engine requires from its host:
//! a digital I/O pin on the open-drain line and a blocking delay source.
//!
//! Both traits carry a specification-level transcript: the pin records every
//! drive/release/sample action, the delay source records every wait. The
//! contracts of the whole engine are stated over these transcripts, so that
//! each bus transaction is pinned down to the exact sequence of line actions
//! and slot timings it performs.

use vstd::prelude::*;

use crate::configuration::Configuration;

verus! {

/// One observable action on the 1-Wire line.
#[derive(Clone, Copy, Debug, PartialEq, Eq, Structural)]
pub enum PinEvent {
    /// The master drove the line low.
    SetLow,
    /// The master released the line to the pull-up resistor.
    SetHigh,
    /// The master sampled the line and saw this level.
    Sample(bool),
}

/// The transcript of actions performed on the line.
pub type PinHistory = Seq<PinEvent>;

/// The transcript of waits performed, in nanoseconds.
pub type WaitHistory = Seq<u32>;

/// Digital I/O capability: drive the shared line low, release it to the
/// pull-up, and sample its level. Implemented by the host platform; the
/// engine owns the pin exclusively for its lifetime.
///
/// Failures are reported through the host-specific `Fault` channel and are
/// treated by the engine as fatal for the in-progress transaction.
pub trait Pin {
    type Fault;

    /// The sequence of actions performed on the line so far.
    spec fn history(&self) -> PinHistory;

    /// Drive the line low.
    fn set_low(&mut self) -> (r: Result<(), Self::Fault>)
        ensures
            r is Ok ==> final(self).history() == old(self).history().push(PinEvent::SetLow),
    ;

    /// Release the line, letting the pull-up resistor (or a device) raise it.
    fn set_high(&mut self) -> (r: Result<(), Self::Fault>)
        ensures
            r is Ok ==> final(self).history() == old(self).history().push(PinEvent::SetHigh),
    ;

    /// Sample the line; true means the line is high.
    fn is_high(&mut self) -> (r: Result<bool, Self::Fault>)
        ensures
            r matches Ok(level) ==> final(self).history() == old(self).history().push(
                PinEvent::Sample(level),
            ),
    ;

    /// Sample the line; true means the line is low.
    fn is_low(&mut self) -> (r: Result<bool, Self::Fault>)
        ensures
            r matches Ok(low) ==> final(self).history() == old(self).history().push(
                PinEvent::Sample(!low),
            ),
    ;
}

/// Blocking delay capability: block the calling context for the given count
/// of nanoseconds. Assumed infallible.
pub trait Delay {
    /// The durations, in nanoseconds, of every wait performed so far.
    spec fn waits(&self) -> WaitHistory;

    /// Block for `ns` nanoseconds.
    fn delay_ns(&mut self, ns: u32)
        ensures
            final(self).waits() == old(self).waits().push(ns),
    ;
}

/// The pin actions of one read slot that sampled `bit`.
pub open spec fn read_slot_events(bit: bool) -> Seq<PinEvent> {
    seq![PinEvent::SetLow, PinEvent::SetHigh, PinEvent::Sample(bit)]
}

/// The waits of one read slot: low for A, sample after E, complete after F.
pub open spec fn read_slot_waits(c: Configuration) -> Seq<u32> {
    seq![c.a, c.e, c.f]
}

/// The pin actions of one write slot. The bit value is carried by the slot's
/// timing alone, so the actions are the same for both bit values.
pub open spec fn write_slot_events() -> Seq<PinEvent> {
    seq![PinEvent::SetLow, PinEvent::SetHigh]
}

/// The waits of one write slot: low for A then high for B when writing a 1,
/// low for C then high for D when writing a 0.
pub open spec fn write_slot_waits(c: Configuration, bit: bool) -> Seq<u32> {
    if bit {
        seq![c.a, c.b]
    } else {
        seq![c.c, c.d]
    }
}

/// Bit `i` of a byte, LSB first.
pub open spec fn u8_bit(b: u8, i: int) -> bool {
    (b >> (i as u8)) & 1 == 1
}

/// The pin actions of the first `n` read slots of a byte read that produced
/// `b`: the sampled bits are the bits of `b`, LSB first.
pub open spec fn read_byte_events_n(b: u8, n: int) -> Seq<PinEvent>
    decreases n,
{
    if n <= 0 {
        Seq::empty()
    } else {
        read_byte_events_n(b, n - 1) + read_slot_events(u8_bit(b, n - 1))
    }
}

/// The pin actions of reading one byte that produced `b`.
pub open spec fn read_byte_events(b: u8) -> Seq<PinEvent> {
    read_byte_events_n(b, 8)
}

/// `n` consecutive write slots on the pin.
pub open spec fn write_slots_events(n: int) -> Seq<PinEvent>
    decreases n,
{
    if n <= 0 {
        Seq::empty()
    } else {
        write_slots_events(n - 1) + write_slot_events()
    }
}

/// The waits of the first `n` write slots of writing byte `b`, LSB first.
pub open spec fn write_byte_waits_n(c: Configuration, b: u8, n: int) -> Seq<u32>
    decreases n,
{
    if n <= 0 {
        Seq::empty()
    } else {
        write_byte_waits_n(c, b, n - 1) + write_slot_waits(c, u8_bit(b, n - 1))
    }
}

/// The waits of writing byte `b`, LSB first.
pub open spec fn write_byte_waits(c: Configuration, b: u8) -> Seq<u32> {
    write_byte_waits_n(c, b, 8)
}

/// The waits of `n` read slots.
pub open spec fn read_slots_waits(c: Configuration, n: int) -> Seq<u32>
    decreases n,
{
    if n <= 0 {
        Seq::empty()
    } else {
        read_slots_waits(c, n - 1) + read_slot_waits(c)
    }
}

/// The waits of reading one byte: eight read slots.
pub open spec fn read_byte_waits(c: Configuration) -> Seq<u32> {
    read_slots_waits(c, 8)
}

/// The pin actions of reading the byte sequence `bytes`, in order.
pub open spec fn read_bytes_events(bytes: Seq<u8>) -> Seq<PinEvent>
    decreases bytes.len(),
{
    if bytes.len() == 0 {
        Seq::empty()
    } else {
        read_bytes_events(bytes.drop_last()) + read_byte_events(bytes.last())
    }
}

/// The waits of reading `n` bytes.
pub open spec fn read_bytes_waits(c: Configuration, n: int) -> Seq<u32>
    decreases n,
{
    if n <= 0 {
        Seq::empty()
    } else {
        read_bytes_waits(c, n - 1) + read_byte_waits(c)
    }
}

/// The waits of writing the byte sequence `bytes`, in order.
pub open spec fn write_bytes_waits(c: Configuration, bytes: Seq<u8>) -> Seq<u32>
    decreases bytes.len(),
{
    if bytes.len() == 0 {
        Seq::empty()
    } else {
        write_bytes_waits(c, bytes.drop_last()) + write_byte_waits(c, bytes.last())
    }
}

/// `k` consecutive read slots that all sampled a 0 bit, as while polling a
/// busy device.
pub open spec fn false_read_slots(k: int) -> Seq<PinEvent>
    decreases k,
{
    if k <= 0 {
        Seq::empty()
    } else {
        false_read_slots(k - 1) + read_slot_events(false)
    }
}

/// `k` samples that all saw the line low, as during a wait for the pull-up.
pub open spec fn low_samples(k: int) -> Seq<PinEvent>
    decreases k,
{
    if k <= 0 {
        Seq::empty()
    } else {
        low_samples(k - 1).push(PinEvent::Sample(false))
    }
}

/// `k` equal waits of `ns` nanoseconds.
pub open spec fn repeat_wait(ns: u32, k: int) -> Seq<u32>
    decreases k,
{
    if k <= 0 {
        Seq::empty()
    } else {
        repeat_wait(ns, k - 1).push(ns)
    }
}

/// Write slots concatenate.
pub proof fn lemma_write_slots_events_add(m: int, n: int)
    requires
        0 <= m,
        0 <= n,
    ensures
        write_slots_events(m + n) == write_slots_events(m) + write_slots_events(n),
    decreases n,
{
    if n == 0 {
        assert(write_slots_events(m + 0) =~= write_slots_events(m) + write_slots_events(0));
    } else {
        lemma_write_slots_events_add(m, n - 1);
        assert(write_slots_events(m + n) =~= write_slots_events(m) + write_slots_events(n));
    }
}

/// The pin actions of waiting for the line to go high: `k` low samples, then
/// one high sample.
pub open spec fn wait_for_high_events(k: int) -> Seq<PinEvent> {
    low_samples(k).push(PinEvent::Sample(true))
}

/// The pin actions of the reset tail: drive low, release, sample presence
/// (a low line means a device answered with a presence pulse).
pub open spec fn reset_tail_events(presence: bool) -> Seq<PinEvent> {
    seq![PinEvent::SetLow, PinEvent::SetHigh, PinEvent::Sample(!presence)]
}

/// The waits of the reset tail: low for H, sample after I, complete after J.
pub open spec fn reset_tail_waits(c: Configuration) -> Seq<u32> {
    seq![c.h, c.i, c.j]
}

} // verus!
