//! The values that decoding produces.
//!
//! Everything here is plain data. Coordinates and speeds are exact
//! fixed-point numbers in billionths, so that no precision is lost between
//! the wire and the caller.

use vstd::prelude::*;

verus! {

/// Billionths in one.
pub const NANOS_PER_UNIT: u64 = 1_000_000_000;

/// Minutes of arc in one degree.
pub const MINUTES_PER_DEGREE: u64 = 60;

/// The two letters after the start marker, which name the data source.
#[derive(Debug, Clone, Copy, PartialEq, Eq)]
pub struct TalkerId {
    pub first: u8,
    pub second: u8,
}

/// The sentence types that are decoded, and `Unknown` for all others.
#[derive(Debug, Clone, Copy, PartialEq, Eq)]
pub enum SentenceKind {
    /// `GGA`: position fix.
    Gga,
    /// `RMC`: recommended minimum position, speed and time.
    Rmc,
    /// `GLL`: geographic position.
    Gll,
    /// `VTG`: course and speed over ground.
    Vtg,
    /// `GSV`: satellites in view.
    Gsv,
    /// Any other type. Such sentences decode to a record without fields.
    Unknown,
}

/// The hemisphere letter that follows a coordinate.
#[derive(Debug, Clone, Copy, PartialEq, Eq)]
pub enum Hemisphere {
    North,
    South,
    East,
    West,
}

/// A latitude or longitude as it stood on the wire: whole degrees, minutes in
/// billionths of a minute, and the hemisphere that gives the sign.
#[derive(Debug, Clone, Copy, PartialEq, Eq)]
pub struct Coordinate {
    pub hemisphere: Hemisphere,
    pub degrees: u16,
    pub nano_minutes: u64,
}

/// A time of day in UTC.
#[derive(Debug, Clone, Copy, PartialEq, Eq)]
pub struct TimeOfDay {
    pub hours: u8,
    pub minutes: u8,
    pub seconds: u8,
    pub nanos: u32,
}

/// How a position fix was obtained.
#[derive(Debug, Clone, Copy, PartialEq, Eq)]
pub enum FixQuality {
    Invalid,
    Gps,
    Dgps,
    Pps,
    Rtk,
    FloatRtk,
    Estimated,
    Manual,
    Simulation,
}

/// A decoded sentence. A field is `None` where the sentence's type does not
/// carry it, where it was empty on the wire, and where it was malformed.
#[derive(Debug, Clone, Copy, PartialEq, Eq)]
pub struct DecodedRecord {
    /// The talker, where the first field is long enough to hold one.
    pub talker: Option<TalkerId>,
    pub kind: SentenceKind,
    pub time: Option<TimeOfDay>,
    pub latitude: Option<Coordinate>,
    pub longitude: Option<Coordinate>,
    pub fix_quality: Option<FixQuality>,
    /// Satellites in use (`GGA`) or in view (`GSV`).
    pub satellites: Option<u32>,
    /// Speed over ground in billionths of a knot.
    pub speed_nano_knots: Option<u64>,
}

/// Why a sentence could not be decoded.
#[derive(Debug, Clone, Copy, PartialEq, Eq)]
pub enum DecodeError {
    /// The sentence is of a known type but has fewer fields than that type
    /// requires. Counts include the first field, which holds talker and type.
    Truncated { kind: SentenceKind, required: usize, found: usize },
}

impl Hemisphere {
    /// South and west make a coordinate negative.
    pub open spec fn is_negative(self) -> bool {
        self == Hemisphere::South || self == Hemisphere::West
    }

    /// Whether this hemisphere makes a coordinate negative.
    pub fn negative(self) -> (out: bool)
        ensures
            out == self.is_negative(),
    {
        match self {
            Hemisphere::South | Hemisphere::West => true,
            Hemisphere::North | Hemisphere::East => false,
        }
    }
}

impl TimeOfDay {
    /// Hours below 24, minutes and seconds below 60, less than a second of
    /// billionths.
    pub open spec fn in_range(self) -> bool {
        self.hours < 24 && self.minutes < 60 && self.seconds < 60 && self.nanos < NANOS_PER_UNIT
    }
}

impl Coordinate {
    /// What two digits of degrees, two digits of minutes and a north-south
    /// letter can spell.
    pub open spec fn is_latitude(self) -> bool {
        &&& self.hemisphere == Hemisphere::North || self.hemisphere == Hemisphere::South
        &&& self.degrees < 100
        &&& self.nano_minutes < 100 * NANOS_PER_UNIT
    }

    /// What three digits of degrees, two digits of minutes and an east-west
    /// letter can spell.
    pub open spec fn is_longitude(self) -> bool {
        &&& self.hemisphere == Hemisphere::East || self.hemisphere == Hemisphere::West
        &&& self.degrees < 1000
        &&& self.nano_minutes < 100 * NANOS_PER_UNIT
    }

    /// The size of the angle in billionths of a degree: degrees plus minutes
    /// over sixty, rounded toward zero.
    pub open spec fn magnitude(self) -> int {
        self.degrees as int * NANOS_PER_UNIT as int + self.nano_minutes as int
            / MINUTES_PER_DEGREE as int
    }

    /// The angle in billionths of a degree, negative in the southern and
    /// western hemispheres.
    pub open spec fn signed_nanodegrees(self) -> int {
        if self.hemisphere.is_negative() {
            -self.magnitude()
        } else {
            self.magnitude()
        }
    }

    /// Decimal degrees in billionths of a degree: degrees plus minutes over
    /// sixty, negated for south and west.
    pub fn nanodegrees(&self) -> (out: i64)
        ensures
            out == self.signed_nanodegrees(),
    {
        let whole: u64 = self.degrees as u64 * NANOS_PER_UNIT;
        let part: u64 = self.nano_minutes / MINUTES_PER_DEGREE;
        let size: i64 = (whole + part) as i64;
        if self.hemisphere.negative() {
            -size
        } else {
            size
        }
    }
}

impl DecodedRecord {
    /// No field is present.
    pub open spec fn is_blank(self) -> bool {
        &&& self.time is None
        &&& self.latitude is None
        &&& self.longitude is None
        &&& self.fix_quality is None
        &&& self.satellites is None
        &&& self.speed_nano_knots is None
    }

    /// Every field that is present holds a value that its wire format can
    /// spell.
    pub open spec fn well_formed(self) -> bool {
        &&& self.time matches Some(time) ==> time.in_range()
        &&& self.latitude matches Some(latitude) ==> latitude.is_latitude()
        &&& self.longitude matches Some(longitude) ==> longitude.is_longitude()
        &&& self.satellites matches Some(count) ==> count < NANOS_PER_UNIT
        &&& self.speed_nano_knots matches Some(speed) ==> speed < NANOS_PER_UNIT * NANOS_PER_UNIT
    }

    /// Whether the record carries no field at all.
    pub fn blank(&self) -> (out: bool)
        ensures
            out == self.is_blank(),
    {
        self.time.is_none() && self.latitude.is_none() && self.longitude.is_none()
            && self.fix_quality.is_none() && self.satellites.is_none()
            && self.speed_nano_knots.is_none()
    }
}

/// Swapping a coordinate's hemisphere for the opposite one negates it.
pub proof fn lemma_opposite_hemisphere_negates(here: Coordinate, there: Coordinate)
    requires
        here.degrees == there.degrees,
        here.nano_minutes == there.nano_minutes,
        here.hemisphere.is_negative() != there.hemisphere.is_negative(),
    ensures
        here.signed_nanodegrees() == -there.signed_nanodegrees(),
{
}

} // verus!
