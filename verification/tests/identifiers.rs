use flights::flight_id::parse_flight_id;
use flights::flight_id::FlightId;

#[test]
fn parse_accepts_lower_case_hex() {
    let id = parse_flight_id("0123456789abcdef01234567").expect("well-formed identifier");
    assert_eq!(id.value, 0x0123456789abcdef01234567u128);
}

#[test]
fn parse_accepts_upper_case_hex() {
    let id = parse_flight_id("ABCDEF000000000000000000").expect("well-formed identifier");
    assert_eq!(id.value, 0xabcdef000000000000000000u128);
}

#[test]
fn parse_rejects_malformed_identifiers() {
    assert!(parse_flight_id("not-an-id").is_none());
    assert!(parse_flight_id("").is_none());
    // one character short
    assert!(parse_flight_id("0123456789abcdef0123456").is_none());
    // one character long
    assert!(parse_flight_id("0123456789abcdef012345678").is_none());
    // right length, one non-hex character
    assert!(parse_flight_id("0123456789abcdef0123456g").is_none());
    // right length, non-ASCII character
    assert!(parse_flight_id("0123456789abcdef0123456\u{e9}").is_none());
}

#[test]
fn to_hex_renders_24_lower_case_digits() {
    let id = FlightId { value: 1 };
    assert_eq!(id.to_hex(), "000000000000000000000001");
    let id = FlightId { value: 0xdeadbeef };
    assert_eq!(id.to_hex(), "0000000000000000deadbeef");
}

#[test]
fn to_hex_then_parse_is_identity() {
    for v in [0u128, 1, 15, 16, 0xabc_def, 0xffffffffffffffffffffffff] {
        let id = FlightId { value: v };
        let back = parse_flight_id(&id.to_hex()).expect("rendered identifier parses");
        assert_eq!(back.value, v);
    }
}
