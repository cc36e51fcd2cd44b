use ip_alloc_lookup::{GeoIpDb, IpAddress};

#[test]
fn test_basic_usage() {
    // This is what users will actually do
    let db = GeoIpDb::new();

    println!("\n Testing basic library usage:");

    // Test a German IPv4
    let ipv4: IpAddress = IpAddress::parse("46.4.0.1").unwrap();
    if let Some(info) = db.lookup(ipv4) {
        println!("  46.4.0.1 -> {} (EU: {})", info.country_code_str(), info.is_eu);
        assert!(info.is_eu);
    }

    // Test convenience method
    let is_eu = db.is_eu(IpAddress::parse("46.4.0.1").unwrap());
    println!("  is_eu(46.4.0.1) = {}", is_eu);

    // Show stats
    let stats = db.stats();
    println!(
        "  Database: {} IPv4 ranges ({} EU, {} non-EU)",
        stats.total_v4_ranges, stats.eu_v4_ranges, stats.non_eu_v4_ranges
    );
    println!(
        "            {} IPv6 ranges ({} EU, {} non-EU)",
        stats.total_v6_ranges, stats.eu_v6_ranges, stats.non_eu_v6_ranges
    );
}

#[test]
fn test_ipv6_lookup() {
    let db = GeoIpDb::new();

    // Try to look up a common European IPv6 address
    let ipv6: IpAddress = IpAddress::parse("2a01:4f8::1").unwrap();

    if let Some(info) = db.lookup(ipv6) {
        println!("  2a01:4f8::1 -> {} (EU: {})", info.country_code_str(), info.is_eu);
    } else {
        println!("  2a01:4f8::1 not found in database");
    }
}
