//! Timing profiles: the named intervals (in nanoseconds) that drive every
//! slot on the bus, at standard or overdrive speed.

use vstd::prelude::*;

verus! {

/// Timing configuration. Every interval is in nanoseconds.
#[derive(Clone, Copy, Debug)]
pub struct Configuration {
    /// A; write-1 low time, also the read-slot low time.
    pub a: u32,
    /// B; write-1 high (recovery) time.
    pub b: u32,
    /// C; write-0 low time.
    pub c: u32,
    /// D; write-0 high (recovery) time.
    pub d: u32,
    /// E; delay from release to the read sample point.
    pub e: u32,
    /// F; remainder of the read slot after the sample.
    pub f: u32,
    /// G; pause before a reset, unused at standard speed.
    pub g: u32,
    /// H; reset low time. min: 480 us, max: 960 us.
    pub h: u32,
    /// I; delay from release to the presence sample point. min: 15 us, max: 300 us.
    pub i: u32,
    /// J; remainder of the reset slot after the presence sample. min: 480 - I us.
    pub j: u32,
}

/// The standard-speed profile.
pub open spec fn standard_spec() -> Configuration {
    Configuration {
        a: 6_000,
        b: 64_000,
        c: 60_000,
        d: 10_000,
        e: 9_000,
        f: 55_000,
        g: 0,
        h: 480_000,
        i: 70_000,
        j: 410_000,
    }
}

/// The overdrive-speed profile.
pub open spec fn overdrive_spec() -> Configuration {
    Configuration {
        a: 1_000,
        b: 7_500,
        c: 7_500,
        d: 2_500,
        e: 1_000,
        f: 7_000,
        g: 2_500,
        h: 70_000,
        i: 8_500,
        j: 40_000,
    }
}

/// Total duration of a write slot (low phase plus high phase) for the given
/// bit value.
pub open spec fn write_slot_duration(c: Configuration, bit: bool) -> int {
    if bit {
        c.a + c.b
    } else {
        c.c + c.d
    }
}

/// Total duration of a read slot: low phase, then the delay to the sample
/// point, then the remainder of the slot.
pub open spec fn read_slot_duration(c: Configuration) -> int {
    c.a + c.e + c.f
}

impl Configuration {
    pub fn overdrive() -> (r: Self)
        ensures
            r == overdrive_spec(),
    {
        Self {
            a: 1_000,
            b: 7_500,
            c: 7_500,
            d: 2_500,
            e: 1_000,
            f: 7_000,
            g: 2_500,
            h: 70_000,
            i: 8_500,
            j: 40_000,
        }
    }

    pub fn standard() -> (r: Self)
        ensures
            r == standard_spec(),
    {
        Self {
            a: 6_000,
            b: 64_000,
            c: 60_000,
            d: 10_000,
            e: 9_000,
            f: 55_000,
            g: 0,
            h: 480_000,
            i: 70_000,
            j: 410_000,
        }
    }
}

impl Default for Configuration {
    fn default() -> (r: Self)
        ensures
            r == standard_spec(),
    {
        Self::standard()
    }
}

/// Law: at standard speed every slot takes the same fixed time whatever the
/// bit value: a write slot lasts 70 us for a 0 bit and for a 1 bit, and a
/// read slot lasts the same 70 us.
pub proof fn lemma_standard_slot_symmetry()
    ensures
        forall|bit: bool| write_slot_duration(standard_spec(), bit) == 70_000,
        read_slot_duration(standard_spec()) == 70_000,
{
}

/// Speed
#[derive(Clone, Copy, Debug, Eq, PartialEq, Structural)]
pub enum Speed {
    Standard,
    Overdrive,
}

impl Speed {
    /// The timing profile for this speed.
    pub fn configuration(&self) -> (r: Configuration)
        ensures
            *self == Speed::Standard ==> r == standard_spec(),
            *self == Speed::Overdrive ==> r == overdrive_spec(),
    {
        match self {
            Speed::Standard => Configuration::standard(),
            Speed::Overdrive => Configuration::overdrive(),
        }
    }
}

impl Default for Speed {
    fn default() -> (r: Self)
        ensures
            r == Speed::Standard,
    {
        Speed::Standard
    }
}

} // verus!
