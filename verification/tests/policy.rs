use ip_alloc_lookup::policy::{cc2, classify, determine_region, is_eu_member};
use ip_alloc_lookup::{GeoInfo, Region};

#[test]
fn all_member_states_are_eu() {
    let members = [
        "AT", "BE", "BG", "HR", "CY", "CZ", "DK", "EE", "FI", "FR", "DE", "GR", "HU", "IE", "IT",
        "LV", "LT", "LU", "MT", "NL", "PL", "PT", "RO", "SK", "SI", "ES", "SE",
    ];
    assert_eq!(members.len(), 27);
    for code in members {
        assert!(is_eu_member(code), "{code}");
        assert_eq!(determine_region(code), Region::EuropeanUnion, "{code}");
        let info = classify(code);
        assert!(info.is_eu);
        assert_eq!(info.region, 1);
        assert_eq!(info.country_code_str(), code);
    }
}

#[test]
fn regions_outside_the_eu() {
    let cases: [(&str, Region, u8); 27] = [
        ("GB", Region::EuropeNonEu, 2),
        ("NO", Region::EuropeNonEu, 2),
        ("CH", Region::EuropeNonEu, 2),
        ("IS", Region::EuropeNonEu, 2),
        ("LI", Region::EuropeNonEu, 2),
        ("RU", Region::EasternEurope, 3),
        ("UA", Region::EasternEurope, 3),
        ("BY", Region::EasternEurope, 3),
        ("MD", Region::EasternEurope, 3),
        ("TR", Region::Turkey, 4),
        ("IL", Region::MiddleEast, 5),
        ("PS", Region::MiddleEast, 5),
        ("EG", Region::NorthAfrica, 6),
        ("TN", Region::NorthAfrica, 6),
        ("MA", Region::NorthAfrica, 6),
        ("DZ", Region::NorthAfrica, 6),
        ("KZ", Region::CentralAsia, 7),
        ("UZ", Region::CentralAsia, 7),
        ("TM", Region::CentralAsia, 7),
        ("KG", Region::CentralAsia, 7),
        ("TJ", Region::CentralAsia, 7),
        ("AE", Region::GulfStates, 8),
        ("SA", Region::GulfStates, 8),
        ("QA", Region::GulfStates, 8),
        ("KW", Region::GulfStates, 8),
        ("BH", Region::GulfStates, 8),
        ("OM", Region::GulfStates, 8),
    ];
    for (code, region, number) in cases {
        assert!(!is_eu_member(code), "{code}");
        assert_eq!(determine_region(code), region, "{code}");
        let info = classify(code);
        assert!(!info.is_eu);
        assert_eq!(info.region, number);
        assert_eq!(info.region_enum(), region);
        assert_eq!(info.country_code, [code.as_bytes()[0], code.as_bytes()[1]]);
    }
}

#[test]
fn unlisted_codes_are_other() {
    for code in ["US", "CN", "IR", "JP", "ZZ", "EU", "", "D", "de", "De", "DEU", "DE ", " DE", "??"] {
        assert!(!is_eu_member(code), "{code:?}");
        assert_eq!(determine_region(code), Region::Other, "{code:?}");
        let info = classify(code);
        assert!(!info.is_eu);
        assert_eq!(info.region, 255);
        assert_eq!(info.region_enum(), Region::Other);
    }
}

#[test]
fn short_code_is_first_two_bytes() {
    assert_eq!(cc2("DE"), [b'D', b'E']);
    assert_eq!(cc2("DEU"), [b'D', b'E']);
    assert_eq!(cc2("fr"), [b'f', b'r']);
    assert_eq!(cc2("D"), [b'?', b'?']);
    assert_eq!(cc2(""), [b'?', b'?']);
    assert_eq!(cc2("é"), [0xc3, 0xa9]);
}

#[test]
fn a_longer_code_keeps_its_first_two_bytes_but_is_on_no_list() {
    let info = classify("DEX");
    assert_eq!(info.country_code, [b'D', b'E']);
    assert!(!info.is_eu);
    assert_eq!(info.region_enum(), Region::Other);
}

#[test]
fn region_labels() {
    assert_eq!(Region::EuropeanUnion.as_str(), "European Union");
    assert_eq!(Region::EuropeNonEu.as_str(), "Europe (non-EU)");
    assert_eq!(Region::EasternEurope.as_str(), "Eastern Europe");
    assert_eq!(Region::Turkey.as_str(), "Turkey");
    assert_eq!(Region::MiddleEast.as_str(), "Middle East");
    assert_eq!(Region::NorthAfrica.as_str(), "North Africa");
    assert_eq!(Region::CentralAsia.as_str(), "Central Asia");
    assert_eq!(Region::GulfStates.as_str(), "Gulf States");
    assert_eq!(Region::Other.as_str(), "Other");
}

#[test]
fn region_codes_round_trip() {
    let all = [
        (Region::EuropeanUnion, 1u8),
        (Region::EuropeNonEu, 2),
        (Region::EasternEurope, 3),
        (Region::Turkey, 4),
        (Region::MiddleEast, 5),
        (Region::NorthAfrica, 6),
        (Region::CentralAsia, 7),
        (Region::GulfStates, 8),
        (Region::Other, 255),
    ];
    for (region, code) in all {
        assert_eq!(region.to_code(), code);
        assert_eq!(Region::from_code(code), region);
    }
}

#[test]
fn unknown_region_codes_read_as_other() {
    for code in [0u8, 9, 10, 100, 254] {
        assert_eq!(Region::from_code(code), Region::Other);
        let info = GeoInfo { country_code: *b"DE", is_eu: true, region: code };
        assert_eq!(info.region_enum(), Region::Other);
    }
}

#[test]
fn country_code_text() {
    let info = GeoInfo { country_code: *b"DE", is_eu: true, region: 1 };
    assert_eq!(info.country_code_str(), "DE");
    let info = GeoInfo { country_code: [0xc3, 0xa9], is_eu: false, region: 255 };
    assert_eq!(info.country_code_str(), "é");
}

#[test]
fn country_code_that_is_no_text_falls_back() {
    let info = GeoInfo { country_code: [0xff, 0xfe], is_eu: false, region: 255 };
    assert_eq!(info.country_code_str(), "??");
    let info = GeoInfo { country_code: [b'D', 0xc3], is_eu: false, region: 255 };
    assert_eq!(info.country_code_str(), "??");
    let info = GeoInfo { country_code: [0x80, b'E'], is_eu: false, region: 255 };
    assert_eq!(info.country_code_str(), "??");
}
