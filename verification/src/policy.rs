//! The classification policy: from a country code to EU membership and a
//! coarse region.
//!
//! The policy is a set of fixed lists. A country code is compared as the
//! exact bytes of its text: a code is on a list only if it equals an entry.

use vstd::prelude::*;
use vstd::string::*;
use crate::geo::{GeoInfo, Region};
use crate::text::same_bytes;

verus! {

/// EU member states (27 countries as of 2025).
pub const EU_COUNTRIES: [&'static str; 27] = [
    "AT", "BE", "BG", "HR", "CY", "CZ", "DK", "EE", "FI", "FR",
    "DE", "GR", "HU", "IE", "IT", "LV", "LT", "LU", "MT", "NL",
    "PL", "PT", "RO", "SK", "SI", "ES", "SE",
];

/// European countries outside the EU.
pub const EUROPE_NON_EU: [&'static str; 5] = ["GB", "NO", "CH", "IS", "LI"];

/// Eastern European countries outside the EU.
pub const EASTERN_EUROPE: [&'static str; 4] = ["RU", "UA", "BY", "MD"];

/// Turkey, a region of its own.
pub const TURKEY: [&'static str; 1] = ["TR"];

/// The Middle East.
pub const MIDDLE_EAST: [&'static str; 2] = ["IL", "PS"];

/// North Africa.
pub const NORTH_AFRICA: [&'static str; 4] = ["EG", "TN", "MA", "DZ"];

/// Central Asia.
pub const CENTRAL_ASIA: [&'static str; 5] = ["KZ", "UZ", "TM", "KG", "TJ"];

/// The Gulf states.
pub const GULF_STATES: [&'static str; 6] = ["AE", "SA", "QA", "KW", "BH", "OM"];

/// Whether `code` is the text of one of the entries of `list`.
pub open spec fn listed(list: Seq<&'static str>, code: Seq<u8>) -> bool {
    exists|i: int| 0 <= i < list.len() && (#[trigger] list[i]).spec_bytes() == code
}

/// Whether `code` is the code of an EU member state.
pub open spec fn is_eu_country(code: Seq<u8>) -> bool {
    listed(EU_COUNTRIES@, code)
}

/// The region of the country with the given code. A code on none of the
/// lists is in `Other`.
pub open spec fn region_of(code: Seq<u8>) -> Region {
    if listed(EU_COUNTRIES@, code) {
        Region::EuropeanUnion
    } else if listed(EUROPE_NON_EU@, code) {
        Region::EuropeNonEu
    } else if listed(EASTERN_EUROPE@, code) {
        Region::EasternEurope
    } else if listed(TURKEY@, code) {
        Region::Turkey
    } else if listed(MIDDLE_EAST@, code) {
        Region::MiddleEast
    } else if listed(NORTH_AFRICA@, code) {
        Region::NorthAfrica
    } else if listed(CENTRAL_ASIA@, code) {
        Region::CentralAsia
    } else if listed(GULF_STATES@, code) {
        Region::GulfStates
    } else {
        Region::Other
    }
}

/// The two bytes kept of a country code: its first two, or `??` where it has
/// fewer.
pub open spec fn short_code(code: Seq<u8>) -> [u8; 2] {
    if code.len() >= 2 {
        [code[0], code[1]]
    } else {
        [0x3fu8, 0x3fu8]
    }
}

/// The classification of the country with the given code.
pub open spec fn classification(code: Seq<u8>) -> GeoInfo {
    GeoInfo {
        country_code: short_code(code),
        is_eu: is_eu_country(code),
        region: region_of(code).code(),
    }
}

/// Whether `code` is on `list`.
fn is_listed(list: &[&'static str], code: &[u8]) -> (found: bool)
    ensures
        found == listed(list@, code@),
{
    let mut i: usize = 0;
    while i < list.len()
        invariant
            i <= list.len(),
            forall|j: int| 0 <= j < i ==> (#[trigger] list@[j]).spec_bytes() != code@,
        decreases list.len() - i,
    {
        if same_bytes(list[i].as_bytes(), code) {
            return true;
        }
        i += 1;
    }
    false
}

/// Whether `country` is the code of an EU member state.
pub fn is_eu_member(country: &str) -> (member: bool)
    ensures
        member == is_eu_country(country.spec_bytes()),
{
    is_listed(EU_COUNTRIES.as_slice(), country.as_bytes())
}

/// Convert a 2-letter country code like "DE" into its two bytes.
pub fn cc2(country: &str) -> (code: [u8; 2])
    ensures
        code == short_code(country.spec_bytes()),
{
    let b = country.as_bytes();
    if b.len() >= 2 {
        [b[0], b[1]]
    } else {
        [0x3f, 0x3f]
    }
}

/// Map a country code to a coarse [`Region`] bucket.
///
/// This mapping is a policy-oriented heuristic and may be adjusted over time.
pub fn determine_region(country_code: &str) -> (region: Region)
    ensures
        region == region_of(country_code.spec_bytes()),
{
    let code = country_code.as_bytes();
    if is_listed(EU_COUNTRIES.as_slice(), code) {
        Region::EuropeanUnion
    } else if is_listed(EUROPE_NON_EU.as_slice(), code) {
        Region::EuropeNonEu
    } else if is_listed(EASTERN_EUROPE.as_slice(), code) {
        Region::EasternEurope
    } else if is_listed(TURKEY.as_slice(), code) {
        Region::Turkey
    } else if is_listed(MIDDLE_EAST.as_slice(), code) {
        Region::MiddleEast
    } else if is_listed(NORTH_AFRICA.as_slice(), code) {
        Region::NorthAfrica
    } else if is_listed(CENTRAL_ASIA.as_slice(), code) {
        Region::CentralAsia
    } else if is_listed(GULF_STATES.as_slice(), code) {
        Region::GulfStates
    } else {
        Region::Other
    }
}

/// Classify a country: its short code, EU membership and region.
pub fn classify(country: &str) -> (info: GeoInfo)
    ensures
        info == classification(country.spec_bytes()),
{
    GeoInfo {
        country_code: cc2(country),
        is_eu: is_eu_member(country),
        region: determine_region(country).to_code(),
    }
}

} // verus!
