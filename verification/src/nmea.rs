//! Position reports as `$GNRMC` sentences.
//!
//! A report reads
//! `{mmsi}$GNRMC,{HHMMSS},A,{DDMM.mmmmm},{N|S},{DDDMM.mmmmm},{E|W},{speed},{course},{DDMMYY},,,A`
//! and ends with a carriage return and a line feed. The MMSI in front tells
//! the receiver whose position it is.

use vstd::prelude::*;
use crate::message::{ParsedMessage, UtcTime, UNITS_PER_DEGREE, UNITS_PER_MINUTE};
use crate::text::{decimal, digit, padded, push_decimal, push_padded};

verus! {

/// How far `v` is from zero.
pub open spec fn magnitude(v: i64) -> nat {
    if v >= 0 {
        v as nat
    } else {
        (-v) as nat
    }
}

/// How far `v` is from zero.
pub fn magnitude_of(v: i64) -> (m: u64)
    ensures
        m == magnitude(v),
{
    if v >= 0 {
        v as u64
    } else {
        (-(v + 1)) as u64 + 1
    }
}

/// The letter of the hemisphere: north or south for a latitude, east or
/// west for a longitude. Zero counts as north and as east.
pub open spec fn hemisphere(value: i64, is_lat: bool) -> u8 {
    if is_lat {
        if value >= 0 {
            'N' as u8
        } else {
            'S' as u8
        }
    } else {
        if value >= 0 {
            'E' as u8
        } else {
            'W' as u8
        }
    }
}

/// An angle as two fields of a sentence: degrees times one hundred plus
/// the minutes, with five decimals, and the letter of the hemisphere. An
/// angle that is not known gives two empty fields.
pub open spec fn lat_long(latlon: Option<i64>, is_lat: bool) -> Seq<u8> {
    match latlon {
        None => seq![',' as u8],
        Some(value) => {
            let units = magnitude(value);
            let degrees = units / 6_000_000;
            let rest = units % 6_000_000;
            decimal(degrees * 100 + rest / 100_000) + seq!['.' as u8] + padded(rest % 100_000, 5)
                + seq![',' as u8, hemisphere(value, is_lat)]
        },
    }
}

/// A speed or a course, given in tenths, with one decimal. One that is not
/// known gives an empty field.
pub open spec fn option_field(tenths: Option<i64>) -> Seq<u8> {
    match tenths {
        None => Seq::empty(),
        Some(value) => {
            let sign = if value < 0 {
                seq!['-' as u8]
            } else {
                Seq::empty()
            };
            sign + decimal(magnitude(value) / 10) + seq!['.' as u8, digit((magnitude(value) % 10) as int)]
        },
    }
}

/// The time of day as `HHMMSS`. A leap second shows as second 60.
pub open spec fn time_field(at: UtcTime) -> Seq<u8> {
    padded(at.hour as nat, 2) + padded(at.minute as nat, 2) + padded(
        (at.second + at.nanosecond / 1_000_000_000) as nat,
        2,
    )
}

/// The date as `DDMMYY`.
pub open spec fn date_field(at: UtcTime) -> Seq<u8> {
    padded(at.day as nat, 2) + padded(at.month as nat, 2) + padded((at.year % 100) as nat, 2)
}

/// The words that follow the MMSI and open the sentence.
pub open spec fn gnrmc_head() -> Seq<u8> {
    seq!['$' as u8, 'G' as u8, 'N' as u8, 'R' as u8, 'M' as u8, 'C' as u8, ',' as u8]
}

/// The field that says that the position is valid.
pub open spec fn gnrmc_valid() -> Seq<u8> {
    seq![',' as u8, 'A' as u8, ',' as u8]
}

/// The empty fields, the mode and the line ending that close the sentence.
pub open spec fn gnrmc_tail() -> Seq<u8> {
    seq![',' as u8, ',' as u8, ',' as u8, 'A' as u8, '\r' as u8, '\n' as u8]
}

/// The position report of the vessel `mmsi` at the time `at`.
pub open spec fn gnrmc(
    mmsi: u32,
    at: UtcTime,
    latitude: Option<i64>,
    longitude: Option<i64>,
    sog: Option<i64>,
    cog: Option<i64>,
) -> Seq<u8> {
    decimal(mmsi as nat) + gnrmc_head() + time_field(at) + gnrmc_valid() + lat_long(latitude, true)
        + seq![',' as u8] + lat_long(longitude, false) + seq![',' as u8] + option_field(sog)
        + seq![',' as u8] + option_field(cog) + seq![',' as u8] + date_field(at) + gnrmc_tail()
}

/// The position report that a decoded sentence gives rise to, if it holds a
/// position.
///
/// A report of the vessel's transponder is passed on under the MMSI that
/// the sentence names and with the time `now`. A position of the GNSS
/// receiver is passed on under `own_mmsi`, with its own time if it has one,
/// and with its speed and course.
pub open spec fn location_sentence(own_mmsi: u32, message: ParsedMessage, now: UtcTime) -> Option<
    Seq<u8>,
> {
    match message {
        ParsedMessage::VesselDynamicData { mmsi, own_vessel, latitude, longitude } => Some(
            gnrmc(mmsi, now, latitude, longitude, None, None),
        ),
        ParsedMessage::Rmc { timestamp, latitude, longitude, sog_knots, bearing } => Some(
            gnrmc(
                own_mmsi,
                match timestamp {
                    Some(at) => at,
                    None => now,
                },
                latitude,
                longitude,
                sog_knots,
                bearing,
            ),
        ),
        _ => None,
    }
}

/// Appends an angle as two fields of a sentence.
pub fn push_lat_long(out: &mut Vec<u8>, latlon: Option<i64>, is_lat: bool)
    ensures
        final(out)@ == old(out)@ + lat_long(latlon, is_lat),
{
    match latlon {
        None => {
            out.push(',' as u8);
        },
        Some(value) => {
            let units = magnitude_of(value);
            let degrees = units / UNITS_PER_DEGREE;
            let rest = units % UNITS_PER_DEGREE;
            push_decimal(out, degrees * 100 + rest / UNITS_PER_MINUTE);
            out.push('.' as u8);
            push_padded(out, rest % UNITS_PER_MINUTE, 5);
            out.push(',' as u8);
            let letter = if is_lat {
                if value >= 0 {
                    'N' as u8
                } else {
                    'S' as u8
                }
            } else {
                if value >= 0 {
                    'E' as u8
                } else {
                    'W' as u8
                }
            };
            out.push(letter);
        },
    }
    assert(final(out)@ =~= old(out)@ + lat_long(latlon, is_lat));
}

/// An angle as two fields of a sentence.
pub fn format_lat_long(latlon: Option<i64>, is_lat: bool) -> (r: Vec<u8>)
    ensures
        r@ == lat_long(latlon, is_lat),
{
    let mut out: Vec<u8> = Vec::new();
    push_lat_long(&mut out, latlon, is_lat);
    assert(out@ =~= lat_long(latlon, is_lat));
    out
}

/// Appends a speed or a course, given in tenths.
pub fn push_option(out: &mut Vec<u8>, tenths: Option<i64>)
    ensures
        final(out)@ == old(out)@ + option_field(tenths),
{
    match tenths {
        None => {},
        Some(value) => {
            if value < 0 {
                out.push('-' as u8);
            }
            let m = magnitude_of(value);
            push_decimal(out, m / 10);
            out.push('.' as u8);
            out.push('0' as u8 + (m % 10) as u8);
        },
    }
    assert(final(out)@ =~= old(out)@ + option_field(tenths));
}

/// A speed or a course, given in tenths, with one decimal.
pub fn format_option(tenths: Option<i64>) -> (r: Vec<u8>)
    ensures
        r@ == option_field(tenths),
{
    let mut out: Vec<u8> = Vec::new();
    push_option(&mut out, tenths);
    assert(out@ =~= option_field(tenths));
    out
}

/// Appends the time of day as `HHMMSS`.
pub fn push_time(out: &mut Vec<u8>, at: &UtcTime)
    ensures
        final(out)@ == old(out)@ + time_field(*at),
{
    push_padded(out, at.hour as u64, 2);
    push_padded(out, at.minute as u64, 2);
    push_padded(out, at.second as u64 + (at.nanosecond / 1_000_000_000) as u64, 2);
    assert(final(out)@ =~= old(out)@ + time_field(*at));
}

/// Appends the date as `DDMMYY`.
pub fn push_date(out: &mut Vec<u8>, at: &UtcTime)
    ensures
        final(out)@ == old(out)@ + date_field(*at),
{
    push_padded(out, at.day as u64, 2);
    push_padded(out, at.month as u64, 2);
    let year: i64 = at.year as i64;
    let mut short: i64 = year % 100;
    if short < 0 {
        short = short + 100;
    }
    assert(short == at.year % 100);
    push_padded(out, short as u64, 2);
    assert(final(out)@ =~= old(out)@ + date_field(*at));
}

/// The position report of the vessel `mmsi` at the time `at`.
pub fn format_gnrmc(
    mmsi: u32,
    at: &UtcTime,
    latitude: Option<i64>,
    longitude: Option<i64>,
    sog: Option<i64>,
    cog: Option<i64>,
) -> (r: Vec<u8>)
    ensures
        r@ == gnrmc(mmsi, *at, latitude, longitude, sog, cog),
{
    let mut out: Vec<u8> = Vec::new();
    push_decimal(&mut out, mmsi as u64);
    let ghost s0 = out@;
    assert(s0 =~= decimal(mmsi as nat));
    out.push('$' as u8);
    out.push('G' as u8);
    out.push('N' as u8);
    out.push('R' as u8);
    out.push('M' as u8);
    out.push('C' as u8);
    out.push(',' as u8);
    let ghost s1 = out@;
    assert(s1 =~= s0 + gnrmc_head());
    push_time(&mut out, at);
    out.push(',' as u8);
    out.push('A' as u8);
    out.push(',' as u8);
    let ghost s2 = out@;
    assert(s2 =~= s1 + time_field(*at) + gnrmc_valid());
    push_lat_long(&mut out, latitude, true);
    out.push(',' as u8);
    push_lat_long(&mut out, longitude, false);
    out.push(',' as u8);
    let ghost s3 = out@;
    assert(s3 =~= s2 + lat_long(latitude, true) + seq![',' as u8] + lat_long(longitude, false)
        + seq![',' as u8]);
    push_option(&mut out, sog);
    out.push(',' as u8);
    push_option(&mut out, cog);
    out.push(',' as u8);
    let ghost s4 = out@;
    assert(s4 =~= s3 + option_field(sog) + seq![',' as u8] + option_field(cog) + seq![',' as u8]);
    push_date(&mut out, at);
    let ghost s5 = out@;
    out.push(',' as u8);
    out.push(',' as u8);
    out.push(',' as u8);
    out.push('A' as u8);
    out.push('\r' as u8);
    out.push('\n' as u8);
    assert(out@ =~= s5 + gnrmc_tail());
    assert(out@ =~= gnrmc(mmsi, *at, latitude, longitude, sog, cog));
    out
}

/// Words the position report that a decoded sentence gives rise to. A
/// sentence without a position gives none.
pub fn format_location(own_mmsi: u32, message: &ParsedMessage, now: &UtcTime) -> (r: Option<
    Vec<u8>,
>)
    ensures
        match location_sentence(own_mmsi, *message, *now) {
            Some(sentence) => r matches Some(bytes) && bytes@ == sentence,
            None => r is None,
        },
{
    match message {
        ParsedMessage::VesselDynamicData { mmsi, own_vessel, latitude, longitude } => Some(
            format_gnrmc(*mmsi, now, *latitude, *longitude, None, None),
        ),
        ParsedMessage::Rmc { timestamp, latitude, longitude, sog_knots, bearing } => {
            let at = match timestamp {
                Some(at) => *at,
                None => *now,
            };
            Some(format_gnrmc(own_mmsi, &at, *latitude, *longitude, *sog_knots, *bearing))
        },
        _ => None,
    }
}

} // verus!
