//! What the configuration says, and what holds where it says nothing.

use vstd::prelude::*;
use crate::dispatcher::{
    DEFAULT_INTERVAL,
    DEFAULT_LOCATION_ANCHOR_INTERVAL,
    DEFAULT_LOCATION_INTERVAL,
};

verus! {

/// The directories in which a configuration file is looked for when its
/// path is relative, in this order.
#[derive(Clone, Copy, Debug, PartialEq, Eq, Structural)]
pub enum ConfigDir {
    /// `/etc/ais-forwarder`
    Etc,
    /// `/usr/local/etc/ais-forwarder`
    UsrLocalEtc,
}

/// The settings of the section `general`.
#[derive(Clone, Copy, Debug, PartialEq, Eq, Structural)]
pub struct Settings {
    /// The MMSI of the own vessel.
    pub mmsi: u32,
    /// Seconds between two sentences of one kind from one vessel.
    pub interval: u64,
    /// Seconds between two reports of the own position while it moves.
    pub location_interval: u64,
    /// Seconds after which the own position is reported in any case.
    pub location_anchor_interval: u64,
}

/// Why the section `general` was not accepted.
#[derive(Clone, Copy, Debug, PartialEq, Eq, Structural)]
pub enum SettingsError {
    /// The section names no MMSI.
    MissingMmsi,
    /// The MMSI is no number that 32 bits hold.
    InvalidMmsi,
    /// `interval` is no number that 64 bits hold.
    InvalidInterval,
    /// `location_interval` is no number that 64 bits hold.
    InvalidLocationInterval,
    /// `location_anchor_interval` is no number that 64 bits hold.
    InvalidLocationAnchorInterval,
}

/// Whether every byte is an ASCII digit.
pub open spec fn all_digits(text: Seq<u8>) -> bool {
    forall|i: int| 0 <= i < text.len() ==> '0' as u8 <= #[trigger] text[i] <= '9' as u8
}

/// The number that the digits write.
pub open spec fn digits_value(text: Seq<u8>) -> nat
    decreases text.len(),
{
    if text.len() == 0 {
        0
    } else {
        digits_value(text.drop_last()) * 10 + (text.last() - '0' as u8) as nat
    }
}

/// The text without the plus sign that may stand in front of a number.
pub open spec fn unsigned_part(text: Seq<u8>) -> Seq<u8> {
    if text.len() > 0 && text[0] == '+' as u8 {
        text.skip(1)
    } else {
        text
    }
}

/// The number that the text writes: digits, at least one, with or without
/// a plus sign in front.
pub open spec fn number_of(text: Seq<u8>) -> Option<nat> {
    let digits = unsigned_part(text);
    if digits.len() > 0 && all_digits(digits) {
        Some(digits_value(digits))
    } else {
        None
    }
}

/// The settings that the texts of the section `general` stand for.
pub open spec fn settings_of(
    mmsi: Option<Seq<u8>>,
    interval: Option<Seq<u8>>,
    location_interval: Option<Seq<u8>>,
    location_anchor_interval: Option<Seq<u8>>,
) -> Result<Settings, SettingsError> {
    match mmsi {
        None => Err(SettingsError::MissingMmsi),
        Some(m) => match number_of(m) {
            Some(mmsi) if mmsi <= u32::MAX => match setting_of(interval, DEFAULT_INTERVAL) {
                None => Err(SettingsError::InvalidInterval),
                Some(interval) => match setting_of(location_interval, DEFAULT_LOCATION_INTERVAL) {
                    None => Err(SettingsError::InvalidLocationInterval),
                    Some(location_interval) => match setting_of(
                        location_anchor_interval,
                        DEFAULT_LOCATION_ANCHOR_INTERVAL,
                    ) {
                        None => Err(SettingsError::InvalidLocationAnchorInterval),
                        Some(location_anchor_interval) => Ok(
                            Settings {
                                mmsi: mmsi as u32,
                                interval,
                                location_interval,
                                location_anchor_interval,
                            },
                        ),
                    },
                },
            },
            _ => Err(SettingsError::InvalidMmsi),
        },
    }
}

/// What a setting is worth: the number it writes, the default if it is not
/// given, and nothing if it writes no number that 64 bits hold.
pub open spec fn setting_of(text: Option<Seq<u8>>, default: u64) -> Option<u64> {
    match text {
        None => Some(default),
        Some(t) => match number_of(t) {
            Some(n) if n <= u64::MAX => Some(n as u64),
            _ => None,
        },
    }
}

/// A number does not get smaller when digits are written behind it.
proof fn lemma_digits_value_grows(text: Seq<u8>, k: int)
    requires
        0 <= k <= text.len(),
        all_digits(text),
    ensures
        digits_value(text.subrange(0, k)) <= digits_value(text),
    decreases text.len() - k,
{
    if k < text.len() {
        let longer = text.subrange(0, k + 1);
        assert(longer.drop_last() =~= text.subrange(0, k));
        assert(longer.last() == text[k]);
        lemma_digits_value_grows(text, k + 1);
    } else {
        assert(text.subrange(0, k) =~= text);
    }
}

/// Reads a number: digits, at least one, with or without a plus sign in
/// front. A number that 64 bits do not hold is not read.
pub fn parse_number(text: &[u8]) -> (r: Option<u64>)
    ensures
        r == match number_of(text@) {
            Some(n) if n <= u64::MAX => Some(n as u64),
            _ => None,
        },
{
    let n = text.len();
    let start: usize = if n > 0 && text[0] == '+' as u8 {
        1
    } else {
        0
    };
    let ghost digits = unsigned_part(text@);
    assert(digits =~= text@.subrange(start as int, n as int));
    if start == n {
        return None;
    }
    let mut value: u64 = 0;
    let mut i: usize = start;
    assert(digits.subrange(0, 0) =~= Seq::<u8>::empty());
    while i < n
        invariant
            start <= i <= n,
            n == text@.len(),
            digits == text@.subrange(start as int, n as int),
            digits == unsigned_part(text@),
            all_digits(digits.subrange(0, i - start)),
            value == digits_value(digits.subrange(0, i - start)),
        decreases n - i,
    {
        let c = text[i];
        let ghost shorter = digits.subrange(0, i - start);
        let ghost longer = digits.subrange(0, i - start + 1);
        proof {
            assert(longer.drop_last() =~= shorter);
            assert(longer.last() == c);
        }
        if c < '0' as u8 || c > '9' as u8 {
            proof {
                assert(digits[i - start] == c);
                assert(!all_digits(digits));
            }
            return None;
        }
        let d: u64 = (c - '0' as u8) as u64;
        proof {
            assert forall|j: int| 0 <= j < longer.len() implies '0' as u8 <= #[trigger] longer[j]
                <= '9' as u8 by {
                if j < longer.len() - 1 {
                    assert(longer[j] == shorter[j]);
                }
            }
        }
        if value > (u64::MAX - d) / 10 {
            proof {
                assert(digits_value(longer) > u64::MAX);
                if all_digits(digits) {
                    lemma_digits_value_grows(digits, i - start + 1);
                }
            }
            return None;
        }
        value = value * 10 + d;
        i = i + 1;
    }
    assert(digits.subrange(0, n - start) =~= digits);
    Some(value)
}

/// What a setting is worth.
fn parse_setting(text: Option<&[u8]>, default: u64) -> (r: Option<u64>)
    ensures
        r == setting_of(
            match text {
                Some(t) => Some(t@),
                None => None,
            },
            default,
        ),
{
    match text {
        None => Some(default),
        Some(t) => parse_number(t),
    }
}

impl Settings {
    /// Reads the section `general` from the texts of its entries. The MMSI
    /// must be given. An interval that is not given has its default: 60
    /// seconds, 600 seconds for the own position, and a day for the own
    /// position at anchor.
    pub fn resolve(
        mmsi: Option<&[u8]>,
        interval: Option<&[u8]>,
        location_interval: Option<&[u8]>,
        location_anchor_interval: Option<&[u8]>,
    ) -> (r: Result<Settings, SettingsError>)
        ensures
            r == settings_of(
                match mmsi {
                    Some(t) => Some(t@),
                    None => None,
                },
                match interval {
                    Some(t) => Some(t@),
                    None => None,
                },
                match location_interval {
                    Some(t) => Some(t@),
                    None => None,
                },
                match location_anchor_interval {
                    Some(t) => Some(t@),
                    None => None,
                },
            ),
    {
        let mmsi = match mmsi {
            None => {
                return Err(SettingsError::MissingMmsi);
            },
            Some(t) => match parse_number(t) {
                Some(m) => if m <= u32::MAX as u64 {
                    m as u32
                } else {
                    return Err(SettingsError::InvalidMmsi);
                },
                None => {
                    return Err(SettingsError::InvalidMmsi);
                },
            },
        };
        let interval = match parse_setting(interval, DEFAULT_INTERVAL) {
            Some(v) => v,
            None => {
                return Err(SettingsError::InvalidInterval);
            },
        };
        let location_interval = match parse_setting(location_interval, DEFAULT_LOCATION_INTERVAL) {
            Some(v) => v,
            None => {
                return Err(SettingsError::InvalidLocationInterval);
            },
        };
        let location_anchor_interval = match parse_setting(
            location_anchor_interval,
            DEFAULT_LOCATION_ANCHOR_INTERVAL,
        ) {
            Some(v) => v,
            None => {
                return Err(SettingsError::InvalidLocationAnchorInterval);
            },
        };
        Ok(Settings { mmsi, interval, location_interval, location_anchor_interval })
    }
}

/// The directory in which a configuration file with a relative path is
/// looked for: the first of the two that exists.
pub fn config_dir(etc_exists: bool, usr_local_etc_exists: bool) -> (r: Option<ConfigDir>)
    ensures
        r == if etc_exists {
            Some(ConfigDir::Etc)
        } else if usr_local_etc_exists {
            Some(ConfigDir::UsrLocalEtc)
        } else {
            None
        },
{
    if etc_exists {
        Some(ConfigDir::Etc)
    } else if usr_local_etc_exists {
        Some(ConfigDir::UsrLocalEtc)
    } else {
        None
    }
}

impl ConfigDir {
    /// The path of the directory.
    pub fn path(self) -> (r: &'static str)
        ensures
            r@ == match self {
                ConfigDir::Etc => "/etc/ais-forwarder"@,
                ConfigDir::UsrLocalEtc => "/usr/local/etc/ais-forwarder"@,
            },
    {
        match self {
            ConfigDir::Etc => "/etc/ais-forwarder",
            ConfigDir::UsrLocalEtc => "/usr/local/etc/ais-forwarder",
        }
    }
}

} // verus!
