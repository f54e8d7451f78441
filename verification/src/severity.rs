use vstd::prelude::*;

verus! {

/// The closed set of twenty-four graded severity levels, four grades in
/// each of six bands.
#[derive(Debug, Clone, Copy, PartialEq, Eq, Structural)]
pub enum Severity {
    Trace,
    Trace2,
    Trace3,
    Trace4,
    Debug,
    Debug2,
    Debug3,
    Debug4,
    Info,
    Info2,
    Info3,
    Info4,
    Warn,
    Warn2,
    Warn3,
    Warn4,
    Error,
    Error2,
    Error3,
    Error4,
    Fatal,
    Fatal2,
    Fatal3,
    Fatal4,
}

/// The standard number of a severity level, `1` through `24`.
pub open spec fn severity_number_spec(s: Severity) -> int {
    match s {
        Severity::Trace => 1,
        Severity::Trace2 => 2,
        Severity::Trace3 => 3,
        Severity::Trace4 => 4,
        Severity::Debug => 5,
        Severity::Debug2 => 6,
        Severity::Debug3 => 7,
        Severity::Debug4 => 8,
        Severity::Info => 9,
        Severity::Info2 => 10,
        Severity::Info3 => 11,
        Severity::Info4 => 12,
        Severity::Warn => 13,
        Severity::Warn2 => 14,
        Severity::Warn3 => 15,
        Severity::Warn4 => 16,
        Severity::Error => 17,
        Severity::Error2 => 18,
        Severity::Error3 => 19,
        Severity::Error4 => 20,
        Severity::Fatal => 21,
        Severity::Fatal2 => 22,
        Severity::Fatal3 => 23,
        Severity::Fatal4 => 24,
    }
}

/// The level a standard severity number names, when it names one.
pub open spec fn severity_from_number_spec(n: int) -> Option<Severity> {
    if n == 1 {
        Some(Severity::Trace)
    } else if n == 2 {
        Some(Severity::Trace2)
    } else if n == 3 {
        Some(Severity::Trace3)
    } else if n == 4 {
        Some(Severity::Trace4)
    } else if n == 5 {
        Some(Severity::Debug)
    } else if n == 6 {
        Some(Severity::Debug2)
    } else if n == 7 {
        Some(Severity::Debug3)
    } else if n == 8 {
        Some(Severity::Debug4)
    } else if n == 9 {
        Some(Severity::Info)
    } else if n == 10 {
        Some(Severity::Info2)
    } else if n == 11 {
        Some(Severity::Info3)
    } else if n == 12 {
        Some(Severity::Info4)
    } else if n == 13 {
        Some(Severity::Warn)
    } else if n == 14 {
        Some(Severity::Warn2)
    } else if n == 15 {
        Some(Severity::Warn3)
    } else if n == 16 {
        Some(Severity::Warn4)
    } else if n == 17 {
        Some(Severity::Error)
    } else if n == 18 {
        Some(Severity::Error2)
    } else if n == 19 {
        Some(Severity::Error3)
    } else if n == 20 {
        Some(Severity::Error4)
    } else if n == 21 {
        Some(Severity::Fatal)
    } else if n == 22 {
        Some(Severity::Fatal2)
    } else if n == 23 {
        Some(Severity::Fatal3)
    } else if n == 24 {
        Some(Severity::Fatal4)
    } else {
        None
    }
}

impl Severity {
    /// The standard number of this level.
    pub fn number(&self) -> (r: u8)
        ensures
            r as int == severity_number_spec(*self),
            1 <= r <= 24,
    {
        match self {
            Severity::Trace => 1,
            Severity::Trace2 => 2,
            Severity::Trace3 => 3,
            Severity::Trace4 => 4,
            Severity::Debug => 5,
            Severity::Debug2 => 6,
            Severity::Debug3 => 7,
            Severity::Debug4 => 8,
            Severity::Info => 9,
            Severity::Info2 => 10,
            Severity::Info3 => 11,
            Severity::Info4 => 12,
            Severity::Warn => 13,
            Severity::Warn2 => 14,
            Severity::Warn3 => 15,
            Severity::Warn4 => 16,
            Severity::Error => 17,
            Severity::Error2 => 18,
            Severity::Error3 => 19,
            Severity::Error4 => 20,
            Severity::Fatal => 21,
            Severity::Fatal2 => 22,
            Severity::Fatal3 => 23,
            Severity::Fatal4 => 24,
        }
    }

    /// Reads a standard severity number back: total on `1..=24`, `None`
    /// outside.
    pub fn from_number(n: u8) -> (r: Option<Severity>)
        ensures
            r == severity_from_number_spec(n as int),
            r is Some <==> 1 <= n <= 24,
    {
        match n {
            1 => Some(Severity::Trace),
            2 => Some(Severity::Trace2),
            3 => Some(Severity::Trace3),
            4 => Some(Severity::Trace4),
            5 => Some(Severity::Debug),
            6 => Some(Severity::Debug2),
            7 => Some(Severity::Debug3),
            8 => Some(Severity::Debug4),
            9 => Some(Severity::Info),
            10 => Some(Severity::Info2),
            11 => Some(Severity::Info3),
            12 => Some(Severity::Info4),
            13 => Some(Severity::Warn),
            14 => Some(Severity::Warn2),
            15 => Some(Severity::Warn3),
            16 => Some(Severity::Warn4),
            17 => Some(Severity::Error),
            18 => Some(Severity::Error2),
            19 => Some(Severity::Error3),
            20 => Some(Severity::Error4),
            21 => Some(Severity::Fatal),
            22 => Some(Severity::Fatal2),
            23 => Some(Severity::Fatal3),
            24 => Some(Severity::Fatal4),
            _ => None,
        }
    }
}

/// The severity mapping is total on all twenty-four levels and reads back
/// to the level it came from.
pub proof fn lemma_severity_round_trip(s: Severity)
    ensures
        1 <= severity_number_spec(s) <= 24,
        severity_from_number_spec(severity_number_spec(s)) == Some(s),
{
}

/// No two distinct levels share a number: the mapping is injective.
pub proof fn lemma_severity_injective(a: Severity, b: Severity)
    requires
        severity_number_spec(a) == severity_number_spec(b),
    ensures
        a == b,
{
    lemma_severity_round_trip(a);
    lemma_severity_round_trip(b);
}

} // verus!
