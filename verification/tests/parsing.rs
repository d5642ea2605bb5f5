use sound_packs::config::{ConfigError, PackConfig};

fn b(s: &str) -> Vec<u8> {
    s.as_bytes().to_vec()
}

fn full_body() -> String {
    String::from(
        "{\n  \"default\": false,\n  \"defines\": {\"5\": [1500, 2000], \"10\": [0, 250]},\n  \"id\": \"custom-foo\",\n  \"includes_numpad\": true,\n  \"key_define_type\": \"single\",\n  \"name\": \"Foo Pack\",\n  \"sound\": \"sound.ogg\",\n  \"tags\": [\"mechanical\", \"crisp\"]\n}",
    )
}

#[test]
fn parses_a_full_configuration() {
    let cfg = PackConfig::parse(&b(&full_body())).expect("valid body");
    assert_eq!(cfg.default, false);
    assert_eq!(cfg.defines, vec![(5, (1500, 2000)), (10, (0, 250))]);
    assert_eq!(cfg.id, b("custom-foo"));
    assert_eq!(cfg.includes_numpad, true);
    assert_eq!(cfg.key_define_type, b("single"));
    assert_eq!(cfg.name, b("Foo Pack"));
    assert_eq!(cfg.sound, b("sound.ogg"));
    assert_eq!(cfg.tags, vec![b("mechanical"), b("crisp")]);
}

#[test]
fn missing_sound_is_reported_as_such() {
    let body = b(
        "{\"default\": false, \"defines\": {}, \"id\": \"x\", \"includes_numpad\": false, \"key_define_type\": \"single\", \"name\": \"X\", \"tags\": []}",
    );
    assert_eq!(PackConfig::parse(&body).unwrap_err(), ConfigError::MissingSound);
}

#[test]
fn each_missing_field_is_reported_in_schema_order() {
    assert_eq!(PackConfig::parse(&b("{}")).unwrap_err(), ConfigError::MissingDefault);
    assert_eq!(
        PackConfig::parse(&b("{\"default\": true}")).unwrap_err(),
        ConfigError::MissingDefines
    );
    assert_eq!(
        PackConfig::parse(&b("{\"default\": true, \"defines\": {}}")).unwrap_err(),
        ConfigError::MissingId
    );
    assert_eq!(
        PackConfig::parse(&b("{\"default\": true, \"defines\": {}, \"id\": \"i\"}")).unwrap_err(),
        ConfigError::MissingIncludesNumpad
    );
    assert_eq!(
        PackConfig::parse(
            &b("{\"default\": true, \"defines\": {}, \"id\": \"i\", \"includes_numpad\": false}")
        )
        .unwrap_err(),
        ConfigError::MissingKeyDefineType
    );
    assert_eq!(
        PackConfig::parse(
            &b(
                "{\"default\": true, \"defines\": {}, \"id\": \"i\", \"includes_numpad\": false, \"key_define_type\": \"k\"}"
            )
        )
        .unwrap_err(),
        ConfigError::MissingName
    );
    assert_eq!(
        PackConfig::parse(
            &b(
                "{\"default\": true, \"defines\": {}, \"id\": \"i\", \"includes_numpad\": false, \"key_define_type\": \"k\", \"name\": \"n\", \"sound\": \"s\"}"
            )
        )
        .unwrap_err(),
        ConfigError::MissingTags
    );
}

#[test]
fn empty_sound_file_name_is_rejected() {
    let body = b(
        "{\"default\": false, \"defines\": {}, \"id\": \"x\", \"includes_numpad\": false, \"key_define_type\": \"k\", \"name\": \"n\", \"sound\": \"\", \"tags\": []}",
    );
    assert_eq!(PackConfig::parse(&body).unwrap_err(), ConfigError::EmptySound);
}

#[test]
fn unknown_fields_are_skipped() {
    let body = b(
        "{\"default\": false, \"extra\": {\"nested\": [1, \"two\", {\"x\": 3}]}, \"defines\": {\"1\": [2, 3]}, \"id\": \"x\", \"includes_numpad\": false, \"key_define_type\": \"single\", \"name\": \"X\", \"sound\": \"s.ogg\", \"tags\": [], \"version\": 4}",
    );
    let cfg = PackConfig::parse(&body).expect("unknown fields are tolerated");
    assert_eq!(cfg.defines, vec![(1, (2, 3))]);
}

#[test]
fn duplicate_defines_key_keeps_the_last_pair() {
    let body = b(
        "{\"default\": false, \"defines\": {\"7\": [1, 2], \"8\": [3, 4], \"7\": [5, 6]}, \"id\": \"x\", \"includes_numpad\": false, \"key_define_type\": \"single\", \"name\": \"X\", \"sound\": \"s\", \"tags\": []}",
    );
    let cfg = PackConfig::parse(&body).expect("valid body");
    assert_eq!(cfg.defines, vec![(7, (5, 6)), (8, (3, 4))]);
}

#[test]
fn duplicate_known_field_is_malformed() {
    let body = b(
        "{\"default\": false, \"default\": true, \"defines\": {}, \"id\": \"x\", \"includes_numpad\": false, \"key_define_type\": \"k\", \"name\": \"n\", \"sound\": \"s\", \"tags\": []}",
    );
    assert_eq!(PackConfig::parse(&body).unwrap_err(), ConfigError::Malformed);
}

#[test]
fn non_integer_timing_is_malformed() {
    for bad in ["[1.5, 2]", "[-1, 2]", "[1e3, 2]", "[1]", "[1, 2, 3]"] {
        let body = format!(
            "{{\"default\": false, \"defines\": {{\"5\": {bad}}}, \"id\": \"x\", \"includes_numpad\": false, \"key_define_type\": \"k\", \"name\": \"n\", \"sound\": \"s\", \"tags\": []}}"
        );
        assert_eq!(
            PackConfig::parse(&b(&body)).unwrap_err(),
            ConfigError::Malformed,
            "body with {bad} should be malformed"
        );
    }
}

#[test]
fn trailing_garbage_is_malformed() {
    let body = format!("{} x", full_body());
    assert_eq!(PackConfig::parse(&b(&body)).unwrap_err(), ConfigError::Malformed);
}

#[test]
fn string_escapes_are_decoded() {
    let body = b(
        "{\"default\": false, \"defines\": {}, \"id\": \"a\\\"b\", \"includes_numpad\": false, \"key_define_type\": \"k\", \"name\": \"line\\nbreak\", \"sound\": \"s\\\\t\", \"tags\": []}",
    );
    let cfg = PackConfig::parse(&body).expect("valid body");
    assert_eq!(cfg.id, b("a\"b"));
    assert_eq!(cfg.name, b("line\nbreak"));
    assert_eq!(cfg.sound, b("s\\t"));
}

#[test]
fn renders_the_configuration_with_defines_elided() {
    let cfg = PackConfig::parse(&b(&full_body())).expect("valid body");
    let text = String::from_utf8(cfg.debug_text()).expect("utf8");
    assert_eq!(
        text,
        "SoundPackConfig { default: false, id: \"custom-foo\", includes_numpad: true, key_define_type: \"single\", name: \"Foo Pack\", sound: \"sound.ogg\", tags: [\"mechanical\", \"crisp\"], .. }"
    );
}
