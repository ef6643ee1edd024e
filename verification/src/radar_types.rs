//! Shared radar domain types: UTC timestamps, their civil breakdown, and the
//! enumerations of the polar radar model.

use vstd::prelude::*;
use crate::calendar::{civil_from_days, epoch_day_of, is_valid_civil_date, lemma_epoch_day_injective};
use crate::text::{push_signed_zero_padded, push_zero_padded, signed_zero_padded, str_eq, zero_padded};

verus! {

/// Milliseconds in one day.
pub const MILLIS_PER_DAY: i64 = 86_400_000;

/// A UTC point in time, stored as whole milliseconds since the Unix epoch.
#[derive(Debug, Clone, Copy, PartialEq, Eq, PartialOrd, Ord, Hash)]
pub struct Timestamp {
    millis_since_epoch: i64,
}

impl View for Timestamp {
    type V = int;

    /// The number of milliseconds since 1970-01-01T00:00:00Z.
    closed spec fn view(&self) -> int {
        self.millis_since_epoch as int
    }
}

/// A UTC calendar date/time broken into civil components.
#[derive(Debug, Clone, Copy, PartialEq, Eq)]
pub struct CivilDateTime {
    pub year: i64,
    pub month: u32,
    pub day: u32,
    pub hour: u32,
    pub minute: u32,
    pub second: u32,
    pub millisecond: u32,
}

/// `c` is the civil breakdown of the instant `millis` milliseconds after the epoch.
pub open spec fn is_civil_breakdown(millis: int, c: CivilDateTime) -> bool {
    let days = millis / (MILLIS_PER_DAY as int);
    let ms = millis % (MILLIS_PER_DAY as int);
    &&& is_valid_civil_date(c.year as int, c.month as int, c.day as int)
    &&& epoch_day_of(c.year as int, c.month as int, c.day as int) == days
    &&& c.hour == ms / 3_600_000
    &&& c.minute == (ms / 60_000) % 60
    &&& c.second == (ms / 1_000) % 60
    &&& c.millisecond == ms % 1_000
}

impl Timestamp {
    pub fn from_epoch_millis(millis_since_epoch: i64) -> (ts: Self)
        ensures
            ts@ == millis_since_epoch,
    {
        Timestamp { millis_since_epoch }
    }

    /// NEXRAD's "modified Julian date" (1970-01-01 is day 1) plus
    /// milliseconds past midnight. Every pair of `u32` inputs fits.
    pub fn from_nexrad_date_time(modified_julian_date: u32, millis_of_day: u32) -> (r: Option<Self>)
        ensures
            r is Some,
            r.unwrap()@ == (modified_julian_date - 1) * MILLIS_PER_DAY + millis_of_day,
    {
        let days_since_epoch = modified_julian_date as i64 - 1;
        let millis_since_epoch = days_since_epoch * MILLIS_PER_DAY + millis_of_day as i64;
        Some(Timestamp { millis_since_epoch })
    }

    pub fn epoch_millis(&self) -> (m: i64)
        ensures
            m == self@,
    {
        self.millis_since_epoch
    }

    /// Break this timestamp down into UTC civil date/time components.
    pub fn to_civil_utc(&self) -> (c: CivilDateTime)
        ensures
            is_civil_breakdown(self@, c),
    {
        let millis = self.millis_since_epoch;
        let q = millis / MILLIS_PER_DAY;
        let r = millis % MILLIS_PER_DAY;
        let days = if r < 0 { q - 1 } else { q };
        proof {
            let d = MILLIS_PER_DAY as int;
            if r < 0 {
                assert(millis == (q - 1) * d + (r + d));
                vstd::arithmetic::div_mod::lemma_fundamental_div_mod_converse(millis as int, d, q - 1, r + d);
            } else {
                assert(millis == q * d + r);
                vstd::arithmetic::div_mod::lemma_fundamental_div_mod_converse(millis as int, d, q as int, r as int);
            }
        }
        let millis_of_day = if r < 0 { r + MILLIS_PER_DAY } else { r };
        let (year, month, day) = civil_from_days(days);
        let hour = millis_of_day / 3_600_000;
        let minute = (millis_of_day / 60_000) % 60;
        let second = (millis_of_day / 1_000) % 60;
        let millisecond = millis_of_day % 1_000;
        CivilDateTime {
            year,
            month,
            day,
            hour: hour as u32,
            minute: minute as u32,
            second: second as u32,
            millisecond: millisecond as u32,
        }
    }
}

/// Azimuth spacing between adjacent radials.
#[derive(Debug, Clone, Copy, PartialEq, Eq)]
pub enum AzimuthResolution {
    /// 0.5 degrees between radials.
    Half,
    /// 1.0 degree between radials.
    One,
}

/// A radial's position within the elevation/volume scan.
#[derive(Debug, Clone, Copy, PartialEq, Eq)]
pub enum RadialStatusKind {
    StartOfElevation,
    Intermediate,
    EndOfElevation,
    StartOfVolume,
    EndOfVolume,
    StartOfElevationLastInVcp,
}

/// A radial's status: its kind plus the "bad data" flag.
#[derive(Debug, Clone, Copy, PartialEq, Eq)]
pub struct RadialStatus {
    pub kind: RadialStatusKind,
    pub bad_data: bool,
}

/// The weather moments of the polar model, in their canonical order.
#[derive(Debug, Clone, Copy, PartialEq, Eq, PartialOrd, Ord, Hash)]
pub enum MomentKind {
    Reflectivity,
    Velocity,
    SpectrumWidth,
    DifferentialReflectivity,
    CorrelationCoefficient,
    DifferentialPhase,
    StormRelativeVelocity,
}

/// The short wire-style code of each moment kind.
pub open spec fn moment_wire_code(k: MomentKind) -> Seq<char> {
    match k {
        MomentKind::Reflectivity => seq!['R', 'E', 'F'],
        MomentKind::Velocity => seq!['V', 'E', 'L'],
        MomentKind::SpectrumWidth => seq!['S', 'W'],
        MomentKind::DifferentialReflectivity => seq!['Z', 'D', 'R'],
        MomentKind::CorrelationCoefficient => seq!['C', 'C'],
        MomentKind::DifferentialPhase => seq!['P', 'H', 'I'],
        MomentKind::StormRelativeVelocity => seq!['S', 'R', 'V'],
    }
}

/// The moment kind whose wire code is exactly `code`, if any.
pub open spec fn moment_from_wire_code(code: Seq<char>) -> Option<MomentKind> {
    if code == seq!['R', 'E', 'F'] {
        Some(MomentKind::Reflectivity)
    } else if code == seq!['V', 'E', 'L'] {
        Some(MomentKind::Velocity)
    } else if code == seq!['S', 'W'] {
        Some(MomentKind::SpectrumWidth)
    } else if code == seq!['Z', 'D', 'R'] {
        Some(MomentKind::DifferentialReflectivity)
    } else if code == seq!['C', 'C'] {
        Some(MomentKind::CorrelationCoefficient)
    } else if code == seq!['P', 'H', 'I'] {
        Some(MomentKind::DifferentialPhase)
    } else if code == seq!['S', 'R', 'V'] {
        Some(MomentKind::StormRelativeVelocity)
    } else {
        None
    }
}

impl MomentKind {
    pub fn wire_code(self) -> (code: &'static str)
        ensures
            code@ == moment_wire_code(self),
    {
        proof {
            reveal_strlit("REF");
            reveal_strlit("VEL");
            reveal_strlit("SW");
            reveal_strlit("ZDR");
            reveal_strlit("CC");
            reveal_strlit("PHI");
            reveal_strlit("SRV");
        }
        match self {
            MomentKind::Reflectivity => "REF",
            MomentKind::Velocity => "VEL",
            MomentKind::SpectrumWidth => "SW",
            MomentKind::DifferentialReflectivity => "ZDR",
            MomentKind::CorrelationCoefficient => "CC",
            MomentKind::DifferentialPhase => "PHI",
            MomentKind::StormRelativeVelocity => "SRV",
        }
    }

    /// Case-sensitive inverse of [`MomentKind::wire_code`].
    pub fn from_wire_code(code: &str) -> (r: Option<Self>)
        ensures
            r == moment_from_wire_code(code@),
    {
        proof {
            reveal_strlit("REF");
            reveal_strlit("VEL");
            reveal_strlit("SW");
            reveal_strlit("ZDR");
            reveal_strlit("CC");
            reveal_strlit("PHI");
            reveal_strlit("SRV");
            assert("REF"@ =~= seq!['R', 'E', 'F']);
            assert("VEL"@ =~= seq!['V', 'E', 'L']);
            assert("SW"@ =~= seq!['S', 'W']);
            assert("ZDR"@ =~= seq!['Z', 'D', 'R']);
            assert("CC"@ =~= seq!['C', 'C']);
            assert("PHI"@ =~= seq!['P', 'H', 'I']);
            assert("SRV"@ =~= seq!['S', 'R', 'V']);
        }
        if str_eq(code, "REF") {
            Some(MomentKind::Reflectivity)
        } else if str_eq(code, "VEL") {
            Some(MomentKind::Velocity)
        } else if str_eq(code, "SW") {
            Some(MomentKind::SpectrumWidth)
        } else if str_eq(code, "ZDR") {
            Some(MomentKind::DifferentialReflectivity)
        } else if str_eq(code, "CC") {
            Some(MomentKind::CorrelationCoefficient)
        } else if str_eq(code, "PHI") {
            Some(MomentKind::DifferentialPhase)
        } else if str_eq(code, "SRV") {
            Some(MomentKind::StormRelativeVelocity)
        } else {
            None
        }
    }

    /// The wire code as an owned string (the text this kind displays as).
    pub fn to_string(&self) -> (s: String)
        ensures
            s@ == moment_wire_code(*self),
    {
        String::from_str(self.wire_code())
    }
}

/// Every moment kind is recovered from its own wire code.
pub proof fn lemma_wire_code_round_trip(k: MomentKind)
    ensures
        moment_from_wire_code(moment_wire_code(k)) == Some(k),
{
    let c = moment_wire_code(k);
    assert(c[0] == moment_wire_code(k)[0]);
}


/// `YYYY-MM-DD HH:MM:SS.mmm UTC` for a civil breakdown.
pub open spec fn civil_text(c: CivilDateTime) -> Seq<char> {
    signed_zero_padded(c.year as int, 4) + "-"@ + zero_padded(c.month as nat, 2) + "-"@ + zero_padded(c.day as nat, 2)
        + " "@ + zero_padded(c.hour as nat, 2) + ":"@ + zero_padded(c.minute as nat, 2) + ":"@ + zero_padded(
        c.second as nat,
        2,
    ) + "."@ + zero_padded(c.millisecond as nat, 3) + " UTC"@
}

impl CivilDateTime {
    /// `YYYY-MM-DD HH:MM:SS.mmm UTC`.
    pub fn to_string(&self) -> (s: String)
        ensures
            s@ == civil_text(*self),
    {
        let mut s = String::new();
        push_signed_zero_padded(&mut s, self.year, 4);
        s.append("-");
        push_zero_padded(&mut s, self.month as u64, 2);
        s.append("-");
        push_zero_padded(&mut s, self.day as u64, 2);
        s.append(" ");
        push_zero_padded(&mut s, self.hour as u64, 2);
        s.append(":");
        push_zero_padded(&mut s, self.minute as u64, 2);
        s.append(":");
        push_zero_padded(&mut s, self.second as u64, 2);
        s.append(".");
        push_zero_padded(&mut s, self.millisecond as u64, 3);
        s.append(" UTC");
        assert(s@ =~= civil_text(*self));
        s
    }
}

impl Timestamp {
    /// The instant as `YYYY-MM-DD HH:MM:SS.mmm UTC`.
    pub fn to_string(&self) -> (s: String)
        ensures
            exists|c: CivilDateTime| is_civil_breakdown(self@, c) && s@ == civil_text(c),
            forall|c: CivilDateTime| is_civil_breakdown(self@, c) ==> s@ == civil_text(c),
    {
        let c = self.to_civil_utc();
        let s = c.to_string();
        assert forall|b: CivilDateTime| is_civil_breakdown(self@, b) implies s@ == civil_text(b) by {
            lemma_civil_breakdown_unique(self@, c, b);
        }
        s
    }
}

/// An instant has exactly one civil breakdown.
pub proof fn lemma_civil_breakdown_unique(millis: int, a: CivilDateTime, b: CivilDateTime)
    requires
        is_civil_breakdown(millis, a),
        is_civil_breakdown(millis, b),
    ensures
        a == b,
{
    lemma_epoch_day_injective(
        a.year as int,
        a.month as int,
        a.day as int,
        b.year as int,
        b.month as int,
        b.day as int,
    );
}

} // verus!
