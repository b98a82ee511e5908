use vstd::prelude::*;

verus! {

/// I/O scheduling class of a process, as understood by the kernel's I/O
/// schedulers and by the `ionice` helper utility.
///
/// The helper's argument contract depends on a stable ordinal for each
/// class: `Idle` is 0, `BestEffort` is 1, `RealTime` is 2 (see `ordinal`).
#[derive(Clone, Copy, Debug, PartialEq, Eq, Structural)]
pub enum IoClass {
    Idle,
    BestEffort,
    RealTime,
}

impl IoClass {
    /// The stable numeric ordinal handed to the `ionice` helper.
    pub open spec fn spec_ordinal(self) -> u8 {
        match self {
            IoClass::Idle => 0,
            IoClass::BestEffort => 1,
            IoClass::RealTime => 2,
        }
    }

    /// Numeric class ordinal: `Idle` = 0, `BestEffort` = 1, `RealTime` = 2.
    pub fn ordinal(&self) -> (r: u8)
        ensures
            r == self.spec_ordinal(),
    {
        match self {
            IoClass::Idle => 0,
            IoClass::BestEffort => 1,
            IoClass::RealTime => 2,
        }
    }

    /// Human-readable name of the class, for diagnostics.
    pub fn label(&self) -> (r: &'static str)
        ensures
            *self == IoClass::Idle ==> r@ == "idle"@,
            *self == IoClass::BestEffort ==> r@ == "best effort"@,
            *self == IoClass::RealTime ==> r@ == "real time"@,
    {
        match self {
            IoClass::Idle => "idle",
            IoClass::BestEffort => "best effort",
            IoClass::RealTime => "real time",
        }
    }
}

/// The class denoted by a configuration value, if it is one of the
/// accepted spellings.
pub open spec fn spec_class_of_name(s: Seq<char>) -> Option<IoClass> {
    if s == "idle"@ || s == "Idle"@ {
        Some(IoClass::Idle)
    } else if s == "best-effort"@ || s == "BestEffort"@ {
        Some(IoClass::BestEffort)
    } else if s == "realtime"@ || s == "RealTime"@ {
        Some(IoClass::RealTime)
    } else {
        None
    }
}

/// Parses an I/O class from its configuration spelling.
pub fn class_of_name(s: &str) -> (r: Option<IoClass>)
    ensures
        r == spec_class_of_name(s@),
{
    if crate::parse::str_eq(s, "idle") || crate::parse::str_eq(s, "Idle") {
        Some(IoClass::Idle)
    } else if crate::parse::str_eq(s, "best-effort") || crate::parse::str_eq(s, "BestEffort") {
        Some(IoClass::BestEffort)
    } else if crate::parse::str_eq(s, "realtime") || crate::parse::str_eq(s, "RealTime") {
        Some(IoClass::RealTime)
    } else {
        None
    }
}

} // verus!
