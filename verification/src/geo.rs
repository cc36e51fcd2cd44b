//! The classification that a lookup returns.

use vstd::prelude::*;
use vstd::string::*;
use vstd::utf8::valid_utf8;
use crate::text::utf8_text;

verus! {

/// High-level region classification derived from the country code.
///
/// This is not a geolocation signal; it is a coarse grouping intended for
/// policy-style decisions (e.g. "EU vs non-EU").
#[derive(Debug, Clone, Copy, PartialEq, Eq, Structural)]
pub enum Region {
    EuropeanUnion,
    EuropeNonEu,
    EasternEurope,
    Turkey,
    MiddleEast,
    NorthAfrica,
    CentralAsia,
    GulfStates,
    Other,
}

impl Region {
    /// The label of each region, as text.
    pub open spec fn label(self) -> Seq<char> {
        match self {
            Region::EuropeanUnion => "European Union"@,
            Region::EuropeNonEu => "Europe (non-EU)"@,
            Region::EasternEurope => "Eastern Europe"@,
            Region::Turkey => "Turkey"@,
            Region::MiddleEast => "Middle East"@,
            Region::NorthAfrica => "North Africa"@,
            Region::CentralAsia => "Central Asia"@,
            Region::GulfStates => "Gulf States"@,
            Region::Other => "Other"@,
        }
    }

    /// The small number under which a region is stored: 1 to 8 for the named
    /// regions, 255 for `Other`.
    pub open spec fn code(self) -> u8 {
        match self {
            Region::EuropeanUnion => 1,
            Region::EuropeNonEu => 2,
            Region::EasternEurope => 3,
            Region::Turkey => 4,
            Region::MiddleEast => 5,
            Region::NorthAfrica => 6,
            Region::CentralAsia => 7,
            Region::GulfStates => 8,
            Region::Other => 255,
        }
    }

    /// The region stored under a number. A number that no region is stored
    /// under reads as `Other`.
    pub open spec fn of_code(code: u8) -> Region {
        if code == 1 {
            Region::EuropeanUnion
        } else if code == 2 {
            Region::EuropeNonEu
        } else if code == 3 {
            Region::EasternEurope
        } else if code == 4 {
            Region::Turkey
        } else if code == 5 {
            Region::MiddleEast
        } else if code == 6 {
            Region::NorthAfrica
        } else if code == 7 {
            Region::CentralAsia
        } else if code == 8 {
            Region::GulfStates
        } else {
            Region::Other
        }
    }

    /// Every region is read back from the number it is stored under.
    pub proof fn lemma_code_round_trip(self)
        ensures
            Region::of_code(self.code()) == self,
    {
    }

    /// Return a human-readable label for this region.
    pub fn as_str(self) -> (label: &'static str)
        ensures
            label@ == self.label(),
    {
        match self {
            Region::EuropeanUnion => "European Union",
            Region::EuropeNonEu => "Europe (non-EU)",
            Region::EasternEurope => "Eastern Europe",
            Region::Turkey => "Turkey",
            Region::MiddleEast => "Middle East",
            Region::NorthAfrica => "North Africa",
            Region::CentralAsia => "Central Asia",
            Region::GulfStates => "Gulf States",
            Region::Other => "Other",
        }
    }

    /// The number under which this region is stored.
    pub fn to_code(self) -> (code: u8)
        ensures
            code == self.code(),
    {
        match self {
            Region::EuropeanUnion => 1,
            Region::EuropeNonEu => 2,
            Region::EasternEurope => 3,
            Region::Turkey => 4,
            Region::MiddleEast => 5,
            Region::NorthAfrica => 6,
            Region::CentralAsia => 7,
            Region::GulfStates => 8,
            Region::Other => 255,
        }
    }

    /// The region stored under `code`.
    pub fn from_code(code: u8) -> (region: Region)
        ensures
            region == Region::of_code(code),
    {
        match code {
            1 => Region::EuropeanUnion,
            2 => Region::EuropeNonEu,
            3 => Region::EasternEurope,
            4 => Region::Turkey,
            5 => Region::MiddleEast,
            6 => Region::NorthAfrica,
            7 => Region::CentralAsia,
            8 => Region::GulfStates,
            _ => Region::Other,
        }
    }
}

/// Compact classification result for a single IP range.
///
/// The country code is stored as two ASCII bytes (e.g. `D`, `E`), and `is_eu`
/// is a convenience flag derived from a built-in EU membership list.
///
/// `region` is stored as a small numeric code; use [`GeoInfo::region_enum`]
/// for a typed view.
#[derive(Debug, Clone, Copy)]
pub struct GeoInfo {
    pub country_code: [u8; 2],
    pub is_eu: bool,
    pub region: u8,
}

impl GeoInfo {
    /// Return the ISO-3166 alpha-2 country code as a string slice.
    ///
    /// This is intended for display/logging and should always be valid ASCII.
    /// If the stored bytes are not valid UTF-8 (unexpected), this falls back
    /// to `"??"`.
    pub fn country_code_str(&self) -> (code: &str)
        ensures
            valid_utf8(self.country_code@) ==> code.spec_bytes() == self.country_code@,
            !valid_utf8(self.country_code@) ==> code@ == "??"@,
    {
        match utf8_text(self.country_code.as_slice()) {
            Some(text) => text,
            None => "??",
        }
    }

    /// Interpret the stored numeric `region` code as a [`Region`] enum.
    ///
    /// Unknown or unsupported codes map to [`Region::Other`].
    pub fn region_enum(&self) -> (region: Region)
        ensures
            region == Region::of_code(self.region),
    {
        Region::from_code(self.region)
    }
}

} // verus!
