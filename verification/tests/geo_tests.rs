use request_analytics::geo::ClientAddress;
use request_analytics::geo::country_after_lookup;
use request_analytics::geo::local_country;

#[test]
fn ipv4_loopback_is_dev_without_lookup() {
    let addr = ClientAddress::V4 { a: 127, b: 0, c: 0, d: 1 };
    assert!(addr.is_loopback());
    assert_eq!(local_country(&addr), Some(String::from("DEV")));
}

#[test]
fn whole_loopback_block_is_dev() {
    let addr = ClientAddress::V4 { a: 127, b: 1, c: 2, d: 3 };
    assert_eq!(local_country(&addr), Some(String::from("DEV")));
}

#[test]
fn ipv6_loopback_is_dev() {
    let addr = ClientAddress::V6 { s0: 0, s1: 0, s2: 0, s3: 0, s4: 0, s5: 0, s6: 0, s7: 1 };
    assert!(addr.is_loopback());
    assert_eq!(local_country(&addr), Some(String::from("DEV")));
}

#[test]
fn routable_address_needs_lookup() {
    let addr = ClientAddress::V4 { a: 203, b: 0, c: 113, d: 5 };
    assert!(!addr.is_loopback());
    assert_eq!(local_country(&addr), None);
}

#[test]
fn successful_lookup_is_taken_as_is() {
    let r = country_after_lookup(Ok(String::from("FR")));
    assert_eq!(r, "FR");
}

#[test]
fn failed_lookup_falls_back_to_na() {
    let r = country_after_lookup(Err(String::from("database unreachable")));
    assert_eq!(r, "N/A");
}
