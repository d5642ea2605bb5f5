use sound_packs::config::PackConfig;
use sound_packs::ser::serialize_defines;
use sound_packs::text::{format_ms, key_hex, u64_to_dec};

fn b(s: &str) -> Vec<u8> {
    s.as_bytes().to_vec()
}

#[test]
fn key_hex_is_two_zero_padded_lowercase_digits_below_256() {
    assert_eq!(key_hex(0), b("00"));
    assert_eq!(key_hex(5), b("05"));
    assert_eq!(key_hex(10), b("0a"));
    assert_eq!(key_hex(16), b("10"));
    assert_eq!(key_hex(255), b("ff"));
}

#[test]
fn key_hex_grows_without_truncation_above_255() {
    assert_eq!(key_hex(256), b("100"));
    assert_eq!(key_hex(0xabc), b("abc"));
    assert_eq!(key_hex(0x1_0000), b("10000"));
}

#[test]
fn milliseconds_render_as_three_decimal_seconds() {
    assert_eq!(format_ms(1500), b("1.500"));
    assert_eq!(format_ms(2000), b("2.000"));
    assert_eq!(format_ms(0), b("0.000"));
    assert_eq!(format_ms(7), b("0.007"));
    assert_eq!(format_ms(42), b("0.042"));
    assert_eq!(format_ms(999), b("0.999"));
    assert_eq!(format_ms(12345), b("12.345"));
}

#[test]
fn decimal_rendering_has_no_leading_zeros() {
    assert_eq!(u64_to_dec(0), b("0"));
    assert_eq!(u64_to_dec(907), b("907"));
    assert_eq!(u64_to_dec(u64::MAX), b("18446744073709551615"));
}

#[test]
fn defines_serialize_to_their_json_object() {
    assert_eq!(serialize_defines(&vec![]), b("{}"));
    assert_eq!(
        serialize_defines(&vec![(5, (1500, 2000))]),
        b("{\"5\":[1500,2000]}")
    );
    assert_eq!(
        serialize_defines(&vec![(5, (1500, 2000)), (10, (0, 250))]),
        b("{\"5\":[1500,2000],\"10\":[0,250]}")
    );
}

#[test]
fn defines_round_trip_through_serialization() {
    let defines = vec![(5, (1500, 2000)), (10, (0, 250)), (255, (1, 1)), (0, (0, 0))];
    let body = format!(
        "{{\"default\": false, \"defines\": {}, \"id\": \"x\", \"includes_numpad\": false, \"key_define_type\": \"k\", \"name\": \"n\", \"sound\": \"s\", \"tags\": []}}",
        String::from_utf8(serialize_defines(&defines)).expect("utf8")
    );
    let cfg = PackConfig::parse(&b(&body)).expect("serialized defines parse back");
    assert_eq!(cfg.defines, defines);
}
