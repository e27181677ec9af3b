//! The field decoder: from an accepted sentence to a `DecodedRecord`.
//!
//! `decoded` says what every sentence decodes to; `decode` is proved to
//! compute it. The first field holds the start marker, two talker letters
//! and the type. For a known type the fields at the positions given by
//! `layout_of` are read; a sentence of an unknown type decodes to a record
//! without fields. The only failure is a sentence of a known type with too
//! few fields.

use crate::fields::{
    fields, find_byte, lemma_fields_shape, payload, split_fields, CHECKSUM_MARKER,
};
use crate::numbers::{
    decimal_of, digit_value, is_digit, is_digit_byte, lemma_decimal_of_bounds,
    lemma_decimal_value_fits, lemma_pow10_values, parse_decimal, parse_unsigned, unsigned_of,
    DIGIT_ZERO,
};
use crate::record::{
    Coordinate, DecodeError, DecodedRecord, FixQuality, Hemisphere, SentenceKind, TalkerId,
    TimeOfDay, NANOS_PER_UNIT,
};
use crate::validator::ValidSentence;
use vstd::prelude::*;
use vstd::slice::slice_subrange;

verus! {

/// Bytes before the type in the first field: the start marker and the talker.
pub const TYPE_OFFSET: usize = 3;

/// Digits that spell whole minutes in a coordinate.
pub const MINUTE_DIGITS: usize = 2;

/// Digits that spell whole degrees in a latitude.
pub const LATITUDE_DEGREE_DIGITS: usize = 2;

/// Digits that spell whole degrees in a longitude.
pub const LONGITUDE_DEGREE_DIGITS: usize = 3;

/// Digits before the decimal point of a time: `hhmmss`.
pub const TIME_DIGITS: usize = 6;

/// The capital letters that type codes and hemispheres are written in.
pub const LETTER_A: u8 = 0x41;

pub const LETTER_C: u8 = 0x43;

pub const LETTER_E: u8 = 0x45;

pub const LETTER_G: u8 = 0x47;

pub const LETTER_L: u8 = 0x4C;

pub const LETTER_M: u8 = 0x4D;

pub const LETTER_N: u8 = 0x4E;

pub const LETTER_R: u8 = 0x52;

pub const LETTER_S: u8 = 0x53;

pub const LETTER_T: u8 = 0x54;

pub const LETTER_V: u8 = 0x56;

pub const LETTER_W: u8 = 0x57;

/// Where a sentence type keeps its fields. Positions count from the first
/// field, which is number 0; a hemisphere letter follows its coordinate.
#[derive(Debug, Clone, Copy, PartialEq, Eq)]
pub struct Layout {
    /// The number of fields the type requires, the first one included.
    pub required: usize,
    pub time: Option<usize>,
    pub latitude: Option<usize>,
    pub longitude: Option<usize>,
    pub fix_quality: Option<usize>,
    pub satellites: Option<usize>,
    pub speed: Option<usize>,
}

impl Layout {
    /// Every position that the layout names lies within the required
    /// fields, hemisphere letters included.
    pub open spec fn in_range(self) -> bool {
        &&& self.required >= 1
        &&& self.time matches Some(at) ==> at < self.required
        &&& self.latitude matches Some(at) ==> at + 1 < self.required
        &&& self.longitude matches Some(at) ==> at + 1 < self.required
        &&& self.fix_quality matches Some(at) ==> at < self.required
        &&& self.satellites matches Some(at) ==> at < self.required
        &&& self.speed matches Some(at) ==> at < self.required
    }
}

/// `code` is the three letters `a`, `b`, `c`.
pub open spec fn is_code(code: Seq<u8>, a: u8, b: u8, c: u8) -> bool {
    code.len() == 3 && code[0] == a && code[1] == b && code[2] == c
}

/// The type letters of a first field: what follows the start marker and the
/// talker.
pub open spec fn type_code(header: Seq<u8>) -> Seq<u8> {
    if header.len() >= TYPE_OFFSET {
        header.skip(TYPE_OFFSET as int)
    } else {
        Seq::empty()
    }
}

/// The type that a first field names.
pub open spec fn kind_of(header: Seq<u8>) -> SentenceKind {
    let code = type_code(header);
    if is_code(code, LETTER_G, LETTER_G, LETTER_A) {
        SentenceKind::Gga
    } else if is_code(code, LETTER_R, LETTER_M, LETTER_C) {
        SentenceKind::Rmc
    } else if is_code(code, LETTER_G, LETTER_L, LETTER_L) {
        SentenceKind::Gll
    } else if is_code(code, LETTER_V, LETTER_T, LETTER_G) {
        SentenceKind::Vtg
    } else if is_code(code, LETTER_G, LETTER_S, LETTER_V) {
        SentenceKind::Gsv
    } else {
        SentenceKind::Unknown
    }
}

/// The talker that a first field names, if it is long enough to name one.
pub open spec fn talker_of(header: Seq<u8>) -> Option<TalkerId> {
    if header.len() >= TYPE_OFFSET {
        Some(TalkerId { first: header[1], second: header[2] })
    } else {
        None
    }
}

/// The table of field positions.
pub open spec fn layout_of(kind: SentenceKind) -> Layout {
    match kind {
        SentenceKind::Gga => Layout {
            required: 15,
            time: Some(1),
            latitude: Some(2),
            longitude: Some(4),
            fix_quality: Some(6),
            satellites: Some(7),
            speed: None,
        },
        SentenceKind::Rmc => Layout {
            required: 12,
            time: Some(1),
            latitude: Some(3),
            longitude: Some(5),
            fix_quality: None,
            satellites: None,
            speed: Some(7),
        },
        SentenceKind::Gll => Layout {
            required: 7,
            time: Some(5),
            latitude: Some(1),
            longitude: Some(3),
            fix_quality: None,
            satellites: None,
            speed: None,
        },
        SentenceKind::Vtg => Layout {
            required: 9,
            time: None,
            latitude: None,
            longitude: None,
            fix_quality: None,
            satellites: None,
            speed: Some(5),
        },
        SentenceKind::Gsv => Layout {
            required: 4,
            time: None,
            latitude: None,
            longitude: None,
            fix_quality: None,
            satellites: Some(3),
            speed: None,
        },
        SentenceKind::Unknown => Layout {
            required: 1,
            time: None,
            latitude: None,
            longitude: None,
            fix_quality: None,
            satellites: None,
            speed: None,
        },
    }
}

/// The hemisphere that a one-letter field names.
pub open spec fn hemisphere_of(field: Seq<u8>) -> Option<Hemisphere> {
    if field.len() != 1 {
        None
    } else if field[0] == LETTER_N {
        Some(Hemisphere::North)
    } else if field[0] == LETTER_S {
        Some(Hemisphere::South)
    } else if field[0] == LETTER_E {
        Some(Hemisphere::East)
    } else if field[0] == LETTER_W {
        Some(Hemisphere::West)
    } else {
        None
    }
}

/// The coordinate that a pair of fields spells. `value` must be
/// `degree_digits` digits of degrees, two digits of minutes and an optional
/// fraction of a minute; `letter` must name a hemisphere, and that
/// hemisphere must lie on a north-south axis exactly when `northing` holds.
pub open spec fn coordinate_of(
    value: Seq<u8>,
    letter: Seq<u8>,
    degree_digits: usize,
    northing: bool,
) -> Option<Coordinate> {
    match (decimal_of(value), hemisphere_of(letter)) {
        (Some(number), Some(hemisphere)) => {
            if number.whole_digits == degree_digits + MINUTE_DIGITS && northing == (hemisphere
                == Hemisphere::North || hemisphere == Hemisphere::South) {
                Some(
                    Coordinate {
                        hemisphere,
                        degrees: (number.whole / 100) as u16,
                        nano_minutes: ((number.whole % 100) * NANOS_PER_UNIT + number.nanos) as u64,
                    },
                )
            } else {
                None
            }
        },
        _ => None,
    }
}

/// The latitude that a pair of fields spells: `ddmm.mmmm` and `N` or `S`.
pub open spec fn latitude_of(value: Seq<u8>, letter: Seq<u8>) -> Option<Coordinate> {
    coordinate_of(value, letter, LATITUDE_DEGREE_DIGITS, true)
}

/// The longitude that a pair of fields spells: `dddmm.mmmm` and `E` or `W`.
pub open spec fn longitude_of(value: Seq<u8>, letter: Seq<u8>) -> Option<Coordinate> {
    coordinate_of(value, letter, LONGITUDE_DEGREE_DIGITS, false)
}

/// The time of day that a field spells: `hhmmss` with an optional fraction
/// of a second, hours below 24, minutes and seconds below 60.
pub open spec fn time_of(field: Seq<u8>) -> Option<TimeOfDay> {
    match decimal_of(field) {
        Some(number) => {
            if number.whole_digits == TIME_DIGITS && number.whole / 10_000 < 24 && (number.whole
                / 100) % 100 < 60 && number.whole % 100 < 60 {
                Some(
                    TimeOfDay {
                        hours: (number.whole / 10_000) as u8,
                        minutes: ((number.whole / 100) % 100) as u8,
                        seconds: (number.whole % 100) as u8,
                        nanos: number.nanos,
                    },
                )
            } else {
                None
            }
        },
        None => None,
    }
}

/// The fix quality that a number stands for.
pub open spec fn fix_quality_of_code(code: nat) -> Option<FixQuality> {
    if code == 0 {
        Some(FixQuality::Invalid)
    } else if code == 1 {
        Some(FixQuality::Gps)
    } else if code == 2 {
        Some(FixQuality::Dgps)
    } else if code == 3 {
        Some(FixQuality::Pps)
    } else if code == 4 {
        Some(FixQuality::Rtk)
    } else if code == 5 {
        Some(FixQuality::FloatRtk)
    } else if code == 6 {
        Some(FixQuality::Estimated)
    } else if code == 7 {
        Some(FixQuality::Manual)
    } else if code == 8 {
        Some(FixQuality::Simulation)
    } else {
        None
    }
}

/// The fix quality that a field names: a single digit from 0 to 8.
pub open spec fn fix_quality_of(field: Seq<u8>) -> Option<FixQuality> {
    if field.len() == 1 && is_digit(field[0]) {
        fix_quality_of_code(digit_value(field[0]))
    } else {
        None
    }
}

/// The speed in billionths of a knot that a field spells.
pub open spec fn speed_of(field: Seq<u8>) -> Option<u64> {
    match decimal_of(field) {
        Some(number) => Some((number.whole * NANOS_PER_UNIT + number.nanos) as u64),
        None => None,
    }
}

/// The record that the fields `parts` of a sentence of type `kind` spell,
/// given that there are as many as the type requires.
pub open spec fn record_of(parts: Seq<Seq<u8>>, kind: SentenceKind) -> DecodedRecord {
    let layout = layout_of(kind);
    DecodedRecord {
        talker: talker_of(parts[0]),
        kind,
        time: match layout.time {
            Some(at) => time_of(parts[at as int]),
            None => None,
        },
        latitude: match layout.latitude {
            Some(at) => latitude_of(parts[at as int], parts[at + 1]),
            None => None,
        },
        longitude: match layout.longitude {
            Some(at) => longitude_of(parts[at as int], parts[at + 1]),
            None => None,
        },
        fix_quality: match layout.fix_quality {
            Some(at) => fix_quality_of(parts[at as int]),
            None => None,
        },
        satellites: match layout.satellites {
            Some(at) => unsigned_of(parts[at as int]),
            None => None,
        },
        speed_nano_knots: match layout.speed {
            Some(at) => speed_of(parts[at as int]),
            None => None,
        },
    }
}

/// What the fields `parts` decode to.
pub open spec fn decoded_fields(parts: Seq<Seq<u8>>) -> Result<DecodedRecord, DecodeError> {
    let kind = kind_of(parts[0]);
    let required = layout_of(kind).required;
    if parts.len() < required {
        Err(DecodeError::Truncated { kind, required, found: parts.len() as usize })
    } else {
        Ok(record_of(parts, kind))
    }
}

/// What a sentence decodes to.
pub open spec fn decoded(sentence: Seq<u8>) -> Result<DecodedRecord, DecodeError> {
    decoded_fields(fields(payload(sentence)))
}

/// The table is consistent: no type names a position beyond the fields it
/// requires.
pub proof fn lemma_layouts_in_range(kind: SentenceKind)
    ensures
        layout_of(kind).in_range(),
{
}

/// Decoding fails on truncated sentences of known types and on nothing
/// else.
pub proof fn lemma_failure_is_truncation(sentence: Seq<u8>)
    ensures
        decoded(sentence) is Err <==> kind_of(fields(payload(sentence))[0]) != SentenceKind::Unknown
            && fields(payload(sentence)).len() < layout_of(
            kind_of(fields(payload(sentence))[0]),
        ).required,
{
    lemma_fields_shape(payload(sentence));
}

/// A sentence of an unknown type decodes, and its record carries no field.
pub proof fn lemma_unknown_type_is_tolerated(sentence: Seq<u8>)
    requires
        kind_of(fields(payload(sentence))[0]) == SentenceKind::Unknown,
    ensures
        decoded(sentence) matches Ok(record) && record.kind == SentenceKind::Unknown
            && record.is_blank(),
{
    lemma_fields_shape(payload(sentence));
}

/// An empty coordinate field is an absent coordinate, never zero, whatever
/// the hemisphere field beside it holds.
pub proof fn lemma_empty_coordinate_is_absent(value: Seq<u8>, letter: Seq<u8>)
    requires
        value.len() == 0,
    ensures
        latitude_of(value, letter) is None,
        longitude_of(value, letter) is None,
{
}

/// In a record, the latitude is absent wherever the sentence's latitude
/// field is empty, and likewise the longitude.
pub proof fn lemma_empty_field_decodes_to_absent(sentence: Seq<u8>)
    ensures
        decoded(sentence) matches Ok(record) ==> {
            let parts = fields(payload(sentence));
            let layout = layout_of(record.kind);
            &&& layout.latitude matches Some(at) ==> parts[at as int].len() == 0
                ==> record.latitude is None
            &&& layout.longitude matches Some(at) ==> parts[at as int].len() == 0
                ==> record.longitude is None
        },
{
}

/// The hemisphere letter decides the sign and nothing else: the same digits
/// spell a coordinate with `N` exactly when they spell one with `S`, the two
/// are each other's negation, and the northern one is not negative. Likewise
/// for `E` and `W`.
pub proof fn lemma_hemisphere_sets_the_sign(value: Seq<u8>)
    ensures
        latitude_of(value, seq![LETTER_N]) is Some <==> latitude_of(value, seq![LETTER_S]) is Some,
        latitude_of(value, seq![LETTER_N]) matches Some(north) ==> {
            &&& north.signed_nanodegrees() >= 0
            &&& latitude_of(value, seq![LETTER_S]).unwrap().signed_nanodegrees()
                == -north.signed_nanodegrees()
        },
        longitude_of(value, seq![LETTER_E]) is Some <==> longitude_of(value, seq![LETTER_W]) is Some,
        longitude_of(value, seq![LETTER_E]) matches Some(east) ==> {
            &&& east.signed_nanodegrees() >= 0
            &&& longitude_of(value, seq![LETTER_W]).unwrap().signed_nanodegrees()
                == -east.signed_nanodegrees()
        },
{
}

/// What the coordinate fields spell is a latitude, respectively a longitude.
pub proof fn lemma_coordinates_in_range(value: Seq<u8>, letter: Seq<u8>)
    ensures
        latitude_of(value, letter) matches Some(latitude) ==> latitude.is_latitude(),
        longitude_of(value, letter) matches Some(longitude) ==> longitude.is_longitude(),
{
    lemma_decimal_of_bounds(value);
    lemma_pow10_values();
}

/// A record never holds a value that its wire format cannot spell: times of
/// day are in range, a latitude lies north or south, a longitude east or
/// west.
pub proof fn lemma_records_well_formed(sentence: Seq<u8>)
    ensures
        decoded(sentence) matches Ok(record) ==> record.well_formed(),
{
    let parts = fields(payload(sentence));
    let layout = layout_of(kind_of(parts[0]));
    if let Some(at) = layout.time {
        lemma_decimal_of_bounds(parts[at as int]);
    }
    if let Some(at) = layout.latitude {
        lemma_coordinates_in_range(parts[at as int], parts[at + 1]);
    }
    if let Some(at) = layout.longitude {
        lemma_coordinates_in_range(parts[at as int], parts[at + 1]);
    }
    if let Some(at) = layout.satellites {
        let field = parts[at as int];
        if unsigned_of(field) is Some {
            lemma_decimal_value_fits(field);
        }
    }
    if let Some(at) = layout.speed {
        lemma_decimal_of_bounds(parts[at as int]);
    }
}

/// Decoding depends on the sentence's bytes and on nothing else: equal
/// sentences decode to equal results.
pub proof fn lemma_decoding_is_repeatable(first: Seq<u8>, second: Seq<u8>)
    requires
        first == second,
    ensures
        decoded(first) == decoded(second),
{
}

/// Looks up where a sentence type keeps its fields.
pub fn layout(kind: SentenceKind) -> (out: Layout)
    ensures
        out == layout_of(kind),
        out.in_range(),
{
    match kind {
        SentenceKind::Gga => Layout {
            required: 15,
            time: Some(1),
            latitude: Some(2),
            longitude: Some(4),
            fix_quality: Some(6),
            satellites: Some(7),
            speed: None,
        },
        SentenceKind::Rmc => Layout {
            required: 12,
            time: Some(1),
            latitude: Some(3),
            longitude: Some(5),
            fix_quality: None,
            satellites: None,
            speed: Some(7),
        },
        SentenceKind::Gll => Layout {
            required: 7,
            time: Some(5),
            latitude: Some(1),
            longitude: Some(3),
            fix_quality: None,
            satellites: None,
            speed: None,
        },
        SentenceKind::Vtg => Layout {
            required: 9,
            time: None,
            latitude: None,
            longitude: None,
            fix_quality: None,
            satellites: None,
            speed: Some(5),
        },
        SentenceKind::Gsv => Layout {
            required: 4,
            time: None,
            latitude: None,
            longitude: None,
            fix_quality: None,
            satellites: Some(3),
            speed: None,
        },
        SentenceKind::Unknown => Layout {
            required: 1,
            time: None,
            latitude: None,
            longitude: None,
            fix_quality: None,
            satellites: None,
            speed: None,
        },
    }
}

fn code_matches(code: &[u8], a: u8, b: u8, c: u8) -> (out: bool)
    ensures
        out == is_code(code@, a, b, c),
{
    code.len() == 3 && code[0] == a && code[1] == b && code[2] == c
}

/// Reads the sentence type out of a first field.
pub fn classify(header: &[u8]) -> (out: SentenceKind)
    ensures
        out == kind_of(header@),
{
    let code = if header.len() >= TYPE_OFFSET {
        slice_subrange(header, TYPE_OFFSET, header.len())
    } else {
        slice_subrange(header, 0, 0)
    };
    assert(code@ == type_code(header@));
    if code_matches(code, LETTER_G, LETTER_G, LETTER_A) {
        SentenceKind::Gga
    } else if code_matches(code, LETTER_R, LETTER_M, LETTER_C) {
        SentenceKind::Rmc
    } else if code_matches(code, LETTER_G, LETTER_L, LETTER_L) {
        SentenceKind::Gll
    } else if code_matches(code, LETTER_V, LETTER_T, LETTER_G) {
        SentenceKind::Vtg
    } else if code_matches(code, LETTER_G, LETTER_S, LETTER_V) {
        SentenceKind::Gsv
    } else {
        SentenceKind::Unknown
    }
}

/// Reads the talker out of a first field.
pub fn parse_talker(header: &[u8]) -> (out: Option<TalkerId>)
    ensures
        out == talker_of(header@),
{
    if header.len() >= TYPE_OFFSET {
        Some(TalkerId { first: header[1], second: header[2] })
    } else {
        None
    }
}

/// Reads a hemisphere letter.
pub fn parse_hemisphere(field: &[u8]) -> (out: Option<Hemisphere>)
    ensures
        out == hemisphere_of(field@),
{
    if field.len() != 1 {
        None
    } else if field[0] == LETTER_N {
        Some(Hemisphere::North)
    } else if field[0] == LETTER_S {
        Some(Hemisphere::South)
    } else if field[0] == LETTER_E {
        Some(Hemisphere::East)
    } else if field[0] == LETTER_W {
        Some(Hemisphere::West)
    } else {
        None
    }
}

fn parse_coordinate(value: &[u8], letter: &[u8], degree_digits: usize, northing: bool) -> (out:
    Option<Coordinate>)
    requires
        degree_digits <= 3,
    ensures
        out == coordinate_of(value@, letter@, degree_digits, northing),
{
    let number = match parse_decimal(value) {
        Some(number) => number,
        None => {
            return None;
        },
    };
    let hemisphere = match parse_hemisphere(letter) {
        Some(hemisphere) => hemisphere,
        None => {
            return None;
        },
    };
    let on_north_south = match hemisphere {
        Hemisphere::North | Hemisphere::South => true,
        Hemisphere::East | Hemisphere::West => false,
    };
    if number.whole_digits != degree_digits + MINUTE_DIGITS || northing != on_north_south {
        return None;
    }
    proof {
        lemma_decimal_of_bounds(value@);
    }
    Some(
        Coordinate {
            hemisphere,
            degrees: (number.whole / 100) as u16,
            nano_minutes: (number.whole % 100) as u64 * NANOS_PER_UNIT + number.nanos as u64,
        },
    )
}

/// Reads a latitude out of its value field and its hemisphere field.
pub fn parse_latitude(value: &[u8], letter: &[u8]) -> (out: Option<Coordinate>)
    ensures
        out == latitude_of(value@, letter@),
        value@.len() == 0 ==> out is None,
{
    parse_coordinate(value, letter, LATITUDE_DEGREE_DIGITS, true)
}

/// Reads a longitude out of its value field and its hemisphere field.
pub fn parse_longitude(value: &[u8], letter: &[u8]) -> (out: Option<Coordinate>)
    ensures
        out == longitude_of(value@, letter@),
        value@.len() == 0 ==> out is None,
{
    parse_coordinate(value, letter, LONGITUDE_DEGREE_DIGITS, false)
}

/// Reads a time of day.
pub fn parse_time(field: &[u8]) -> (out: Option<TimeOfDay>)
    ensures
        out == time_of(field@),
{
    let number = match parse_decimal(field) {
        Some(number) => number,
        None => {
            return None;
        },
    };
    let hours: u32 = number.whole / 10_000;
    let minutes: u32 = (number.whole / 100) % 100;
    let seconds: u32 = number.whole % 100;
    if number.whole_digits != TIME_DIGITS || hours >= 24 || minutes >= 60 || seconds >= 60 {
        return None;
    }
    Some(
        TimeOfDay {
            hours: hours as u8,
            minutes: minutes as u8,
            seconds: seconds as u8,
            nanos: number.nanos,
        },
    )
}

/// Reads a fix quality.
pub fn parse_fix_quality(field: &[u8]) -> (out: Option<FixQuality>)
    ensures
        out == fix_quality_of(field@),
{
    if field.len() != 1 || !is_digit_byte(field[0]) {
        return None;
    }
    let code: u8 = field[0] - DIGIT_ZERO;
    match code {
        0 => Some(FixQuality::Invalid),
        1 => Some(FixQuality::Gps),
        2 => Some(FixQuality::Dgps),
        3 => Some(FixQuality::Pps),
        4 => Some(FixQuality::Rtk),
        5 => Some(FixQuality::FloatRtk),
        6 => Some(FixQuality::Estimated),
        7 => Some(FixQuality::Manual),
        8 => Some(FixQuality::Simulation),
        _ => None,
    }
}

/// Reads a speed in knots.
pub fn parse_speed(field: &[u8]) -> (out: Option<u64>)
    ensures
        out == speed_of(field@),
{
    match parse_decimal(field) {
        Some(number) => {
            proof {
                lemma_decimal_of_bounds(field@);
            }
            Some(number.whole as u64 * NANOS_PER_UNIT + number.nanos as u64)
        },
        None => None,
    }
}

/// Decodes a sentence. Fails exactly on a sentence of a known type that has
/// fewer fields than its type requires; every other sentence decodes, one of
/// an unknown type to a record without fields.
pub fn decode(sentence: &ValidSentence) -> (out: Result<DecodedRecord, DecodeError>)
    ensures
        out == decoded(sentence@),
        out is Err <==> kind_of(fields(payload(sentence@))[0]) != SentenceKind::Unknown && fields(
            payload(sentence@),
        ).len() < layout_of(kind_of(fields(payload(sentence@))[0])).required,
        kind_of(fields(payload(sentence@))[0]) == SentenceKind::Unknown ==> (out matches Ok(
            record,
        ) && record.is_blank()),
        out matches Ok(record) ==> record.well_formed(),
{
    let bytes = sentence.as_bytes();
    let end: usize = find_byte(bytes, CHECKSUM_MARKER);
    let body = slice_subrange(bytes, 0, end);
    assert(body@ == payload(sentence@));
    let parts = split_fields(body);
    proof {
        lemma_failure_is_truncation(sentence@);
        lemma_records_well_formed(sentence@);
    }
    let kind = classify(parts[0]);
    let table = layout(kind);
    if parts.len() < table.required {
        return Err(DecodeError::Truncated { kind, required: table.required, found: parts.len() });
    }
    let time = match table.time {
        Some(at) => parse_time(parts[at]),
        None => None,
    };
    let latitude = match table.latitude {
        Some(at) => parse_latitude(parts[at], parts[at + 1]),
        None => None,
    };
    let longitude = match table.longitude {
        Some(at) => parse_longitude(parts[at], parts[at + 1]),
        None => None,
    };
    let fix_quality = match table.fix_quality {
        Some(at) => parse_fix_quality(parts[at]),
        None => None,
    };
    let satellites = match table.satellites {
        Some(at) => parse_unsigned(parts[at]),
        None => None,
    };
    let speed_nano_knots = match table.speed {
        Some(at) => parse_speed(parts[at]),
        None => None,
    };
    Ok(
        DecodedRecord {
            talker: parse_talker(parts[0]),
            kind,
            time,
            latitude,
            longitude,
            fix_quality,
            satellites,
            speed_nano_knots,
        },
    )
}

} // verus!
