use crate::text::{decimal, push_decimal, push_signed_decimal, signed_decimal};
use vstd::prelude::*;
use vstd::string::StringExecFns;

verus! {

/// One symbol of a sampled bit.
#[derive(Copy, Clone, Debug, PartialEq, Eq, Structural)]
pub enum Logic {
    /// Logic 0.
    Zero,
    /// Logic 1.
    One,
    /// Unknown.
    X,
    /// High impedance.
    Z,
}

impl Logic {
    /// The symbol that a character of a bit string stands for.
    pub open spec fn of_char(c: char) -> Option<Logic> {
        if c == '0' {
            Some(Logic::Zero)
        } else if c == '1' {
            Some(Logic::One)
        } else if c == 'x' {
            Some(Logic::X)
        } else if c == 'z' {
            Some(Logic::Z)
        } else {
            None
        }
    }

    /// Reads one character of a bit string: `0`, `1`, `x` or `z`. Any other character is
    /// outside the alphabet and yields `None`.
    pub fn from_char(c: char) -> (symbol: Option<Logic>)
        ensures
            symbol == Logic::of_char(c),
    {
        if c == '0' {
            Some(Logic::Zero)
        } else if c == '1' {
            Some(Logic::One)
        } else if c == 'x' {
            Some(Logic::X)
        } else if c == 'z' {
            Some(Logic::Z)
        } else {
            None
        }
    }
}

/// The value of a signal from `time` on, one symbol per bit.
pub struct Sample {
    pub time: u64,
    pub bits: Vec<Logic>,
}

/// The recorded history of one signal.
pub enum Signal {
    /// A bit vector: its samples, in time order.
    BitVector(Vec<Sample>),
    /// A real-valued signal; it has no bit-level activity.
    Real,
}

/// Whether a sample stream is one that a trace can hold: time stamps strictly increase and
/// every sample has the width of the first.
pub open spec fn samples_wf(s: Seq<Sample>) -> bool {
    &&& forall|i: int, j: int|
        0 <= i < j < s.len() ==> (#[trigger] s[i]).time < (#[trigger] s[j]).time
    &&& forall|i: int| 0 <= i < s.len() ==> (#[trigger] s[i]).bits.len() == s[0].bits.len()
}

/// Tests `samples_wf`.
pub fn samples_are_well_formed(samples: &Vec<Sample>) -> (ok: bool)
    ensures
        ok == samples_wf(samples@),
{
    let n = samples.len();
    if n == 0 {
        return true;
    }
    let width = samples[0].bits.len();
    let mut i: usize = 1;
    while i < n
        invariant
            1 <= i <= n,
            n == samples.len(),
            width == samples[0].bits.len(),
            forall|a: int, b: int|
                0 <= a < b < i ==> (#[trigger] samples@[a]).time < (#[trigger] samples@[b]).time,
            forall|a: int| 0 <= a < i ==> (#[trigger] samples@[a]).bits.len() == width,
        decreases n - i,
    {
        if samples[i].bits.len() != width {
            assert(samples@[i as int].bits.len() != samples@[0].bits.len());
            return false;
        }
        if samples[i - 1].time >= samples[i].time {
            assert(!(samples@[i - 1].time < samples@[i as int].time));
            return false;
        }
        i += 1;
    }
    true
}

impl Signal {
    /// Whether the signal's samples are well formed. A real-valued signal always is.
    pub open spec fn wf(&self) -> bool {
        match self {
            Signal::BitVector(samples) => samples_wf(samples@),
            Signal::Real => true,
        }
    }

    /// Tests `wf`.
    pub fn is_well_formed(&self) -> (ok: bool)
        ensures
            ok == self.wf(),
    {
        match self {
            Signal::Real => true,
            Signal::BitVector(samples) => samples_are_well_formed(samples),
        }
    }
}


/// The bit range that a net was declared with.
#[derive(Copy, Clone, Debug, PartialEq, Eq, Structural)]
pub struct NetIndex {
    pub msb: i64,
    pub lsb: i64,
}

/// A named signal of the hierarchy.
pub struct Net {
    pub name: String,
    /// The declared bit index or range, if the net has one.
    pub index: Option<NetIndex>,
    /// The net's own number: it keys the statistics table.
    pub var: usize,
    /// The number of the signal that holds the net's samples.
    pub signal: usize,
}

/// A node of the hierarchy: its nets and its child scopes, in the order of the trace.
pub struct Scope {
    pub name: String,
    pub nets: Vec<Net>,
    pub scopes: Vec<Scope>,
}

/// The signal-name hierarchy of a trace.
pub struct Hierarchy {
    /// Nets declared outside any scope.
    pub nets: Vec<Net>,
    /// The top-level scopes.
    pub scopes: Vec<Scope>,
}

/// The unit of the trace's time stamps.
#[derive(Copy, Clone, Debug, PartialEq, Eq, Structural)]
pub enum TimescaleUnit {
    FemtoSeconds,
    PicoSeconds,
    NanoSeconds,
    MicroSeconds,
    MilliSeconds,
    Seconds,
    Unknown,
}

/// What one step of the trace's time stamps stands for: `factor` times `unit`.
#[derive(Copy, Clone, Debug, PartialEq, Eq, Structural)]
pub struct Timescale {
    pub factor: u32,
    pub unit: TimescaleUnit,
}

/// A fully loaded trace.
pub struct Waveform {
    pub hierarchy: Hierarchy,
    /// The sample stream of each signal, by signal number.
    pub signals: Vec<Signal>,
    pub timescale: Option<Timescale>,
    /// The last time stamp of the trace: its total duration.
    pub end_time: u64,
}


/// The name of a net of width 1 as it is reported: `name`, followed in square brackets by
/// the lower end of the bit range that the net was declared with, if it was with one.
pub open spec fn indexed_name_text(name: Seq<char>, index: Option<NetIndex>) -> Seq<char> {
    match index {
        Some(range) => name + seq!['['] + signed_decimal(range.lsb as int) + seq![']'],
        None => name,
    }
}

/// The name of bit number `bit` of a net: `name`, followed by the number in square brackets.
pub open spec fn bit_name_text(name: Seq<char>, bit: nat) -> Seq<char> {
    name + seq!['['] + decimal(bit) + seq![']']
}

/// Appends to `name` the declared bit index of `variable`, if it has one.
pub fn indexed_name(name: String, variable: &Net) -> (full: String)
    ensures
        full@ == indexed_name_text(name@, variable.index),
{
    let mut name = name;
    match variable.index {
        Some(range) => {
            name.push('[');
            push_signed_decimal(&mut name, range.lsb);
            name.push(']');
        },
        None => {},
    }
    name
}

/// The name of bit number `bit` of a net called `name`.
pub fn bit_name(name: &str, bit: usize) -> (full: String)
    ensures
        full@ == bit_name_text(name@, bit as nat),
{
    let mut full = String::from_str(name);
    full.push('[');
    push_decimal(&mut full, bit as u64);
    full.push(']');
    full
}


/// The power of ten that a unit of time is of a second; an unknown unit has none.
pub open spec fn exponent_of(unit: TimescaleUnit) -> Option<i8> {
    match unit {
        TimescaleUnit::FemtoSeconds => Some(-15i8),
        TimescaleUnit::PicoSeconds => Some(-12i8),
        TimescaleUnit::NanoSeconds => Some(-9i8),
        TimescaleUnit::MicroSeconds => Some(-6i8),
        TimescaleUnit::MilliSeconds => Some(-3i8),
        TimescaleUnit::Seconds => Some(0i8),
        TimescaleUnit::Unknown => None,
    }
}

impl TimescaleUnit {
    /// The power of ten that the unit is of a second; an unknown unit has none.
    pub fn to_exponent(&self) -> (exponent: Option<i8>)
        ensures
            exponent == exponent_of(*self),
    {
        match self {
            TimescaleUnit::FemtoSeconds => Some(-15),
            TimescaleUnit::PicoSeconds => Some(-12),
            TimescaleUnit::NanoSeconds => Some(-9),
            TimescaleUnit::MicroSeconds => Some(-6),
            TimescaleUnit::MilliSeconds => Some(-3),
            TimescaleUnit::Seconds => Some(0),
            TimescaleUnit::Unknown => None,
        }
    }
}

} // verus!
