use wasi_otel::anyvalue::{any_value_to_json, AnyValue};
use wasi_otel::parse::{any_value_from_json, any_value_round_trip};
use wasi_otel::types::{value_to_json, Value};

#[test]
fn seserialize_otel_value_to_string() {
    // Test bool
    let boolean = Value::Bool(false);
    assert_eq!("false", value_to_json(&boolean));
    let bool_arr = Value::BoolArray(vec![false, true, true]);
    assert_eq!("[false,true,true]", value_to_json(&bool_arr));

    // Test i64
    let int = Value::S64(6);
    assert_eq!("6", value_to_json(&int));
    let int_arr = Value::S64Array(vec![1, 2, 3, 4]);
    assert_eq!("[1,2,3,4]", value_to_json(&int_arr));

    // Test f64
    let float = Value::F64(123.456f64.to_bits());
    assert_eq!("123.456", value_to_json(&float));
    let float_arr = Value::F64Array(vec![
        1.0f64.to_bits(),
        2.1f64.to_bits(),
        3.2f64.to_bits(),
        4.3f64.to_bits(),
    ]);
    assert_eq!("[1.0,2.1,3.2,4.3]", value_to_json(&float_arr));

    // Test String
    let text = Value::String(String::from("Test"));
    assert_eq!("\"Test\"", value_to_json(&text));
    let str_arr = Value::StringArray(vec![
        String::from("Hello, world!"),
        String::from("Goodnight, moon."),
    ]);
    assert_eq!(
        "[\"Hello, world!\",\"Goodnight, moon.\"]",
        value_to_json(&str_arr)
    );
}

#[test]
fn serialize_otel_log_any_value_to_string() {
    let mut entries: Vec<(String, AnyValue)> = Vec::new();
    entries.push((String::from("key1"), AnyValue::Boolean(false)));
    entries.push((String::from("key2"), AnyValue::Double(123.456f64.to_bits())));
    entries.push((String::from("key3"), AnyValue::Int(41)));
    entries.push((
        String::from("key4"),
        AnyValue::Bytes(b"Hello, world!".to_vec()),
    ));
    entries.push((
        String::from("key5"),
        AnyValue::Text(String::from("This is a string")),
    ));
    entries.push((
        String::from("key6"),
        AnyValue::List(vec![AnyValue::Int(1), AnyValue::Int(2), AnyValue::Int(3)]),
    ));
    let nested = vec![(
        String::from("nestedkey1"),
        AnyValue::Text(String::from("Hello, from within!")),
    )];
    entries.push((String::from("key7"), AnyValue::Mapping(nested)));

    let json_str = any_value_to_json(&AnyValue::Mapping(entries));

    let actual: serde_json::Value = serde_json::from_str(&json_str).unwrap();
    let expected: serde_json::Value = serde_json::from_str(
        "{\
         \"key1\": false,\
         \"key2\": 123.456,\
         \"key3\": 41,\
         \"key4\": \"data:application/octet-stream;base64,SGVsbG8sIHdvcmxkIQ==\",\
         \"key5\": \"This is a string\",\
         \"key6\": [1, 2, 3],\
         \"key7\": {\"nestedkey1\": \"Hello, from within!\"}\
         }",
    )
    .unwrap();

    assert_eq!(actual, expected);
}

#[test]
fn nested_any_value_round_trips_through_json() {
    // One value holding every leaf shape: a bool, a double, an int, a
    // byte blob, a string, a list of ints and a map with a nested string.
    let mut entries: Vec<(String, AnyValue)> = Vec::new();
    entries.push((String::from("flag"), AnyValue::Boolean(true)));
    entries.push((String::from("ratio"), AnyValue::Double(0.5f64.to_bits())));
    entries.push((String::from("count"), AnyValue::Int(-42)));
    entries.push((String::from("blob"), AnyValue::Bytes(b"Hello, world!".to_vec())));
    entries.push((String::from("note"), AnyValue::Text(String::from("plain \"text\"\n"))));
    entries.push((
        String::from("steps"),
        AnyValue::List(vec![AnyValue::Int(1), AnyValue::Int(2), AnyValue::Int(3)]),
    ));
    let nested = vec![(String::from("inner"), AnyValue::Text(String::from("deep")))];
    entries.push((String::from("child"), AnyValue::Mapping(nested)));
    let value = AnyValue::Mapping(entries);

    let rendered = any_value_to_json(&value);
    let back = any_value_from_json(&rendered).expect("a rendered value reads back");
    // Structural fidelity: the re-rendering of what was read back is
    // exactly the original rendering.
    assert_eq!(rendered, any_value_to_json(&back));

    // The byte blob crosses in the documented tagged base64 form.
    assert!(rendered.contains("data:application/octet-stream;base64,SGVsbG8sIHdvcmxkIQ=="));
}

#[test]
fn byte_payload_reads_back_as_bytes() {
    let value = AnyValue::Bytes(vec![0u8, 255, 7, 128]);
    let rendered = any_value_to_json(&value);
    match any_value_from_json(&rendered) {
        Some(AnyValue::Bytes(b)) => assert_eq!(b, vec![0u8, 255, 7, 128]),
        other => panic!("expected bytes back, got {:?}", other),
    }
}

#[test]
fn double_value_reads_back_bit_for_bit() {
    let bits = 2.718281828459045f64.to_bits();
    let rendered = any_value_to_json(&AnyValue::Double(bits));
    match any_value_from_json(&rendered) {
        Some(AnyValue::Double(back)) => assert_eq!(back, bits),
        other => panic!("expected a double back, got {:?}", other),
    }
}

#[test]
fn escaped_string_reads_back_exactly() {
    let text = String::from("a\"b\\c\u{1}\tz\u{e9}");
    let rendered = any_value_to_json(&AnyValue::Text(text.clone()));
    match any_value_from_json(&rendered) {
        Some(AnyValue::Text(back)) => assert_eq!(back, text),
        other => panic!("expected text back, got {:?}", other),
    }
    // The rendering is itself valid JSON holding the same string.
    let parsed: serde_json::Value = serde_json::from_str(&rendered).unwrap();
    assert_eq!(parsed.as_str().unwrap(), text);
}

#[test]
fn scalars_render_as_json_scalars() {
    assert_eq!("true", any_value_to_json(&AnyValue::Boolean(true)));
    assert_eq!("-7", any_value_to_json(&AnyValue::Int(-7)));
    assert_eq!(
        "-9223372036854775808",
        any_value_to_json(&AnyValue::Int(i64::MIN))
    );
    assert_eq!("[]", any_value_to_json(&AnyValue::List(vec![])));
    assert_eq!("{}", any_value_to_json(&AnyValue::Mapping(vec![])));
}

#[test]
fn empty_and_large_byte_payloads_round_trip() {
    let empty = AnyValue::Bytes(Vec::new());
    let rendered = any_value_to_json(&empty);
    assert_eq!("\"data:application/octet-stream;base64,\"", rendered);
    match any_value_from_json(&rendered) {
        Some(AnyValue::Bytes(b)) => assert!(b.is_empty()),
        other => panic!("expected bytes back, got {:?}", other),
    }

    let payload: Vec<u8> = (0u16..600).map(|x| (x % 251) as u8).collect();
    let rendered = any_value_to_json(&AnyValue::Bytes(payload.clone()));
    match any_value_from_json(&rendered) {
        Some(AnyValue::Bytes(b)) => assert_eq!(b, payload),
        other => panic!("expected bytes back, got {:?}", other),
    }
}

#[test]
fn base64_encoding_matches_the_standard_alphabet() {
    // The engine and the spec agree on the reference vector.
    let rendered = any_value_to_json(&AnyValue::Bytes(b"Man".to_vec()));
    assert_eq!("\"data:application/octet-stream;base64,TWFu\"", rendered);
    let rendered = any_value_to_json(&AnyValue::Bytes(b"Ma".to_vec()));
    assert_eq!("\"data:application/octet-stream;base64,TWE=\"", rendered);
    let rendered = any_value_to_json(&AnyValue::Bytes(b"M".to_vec()));
    assert_eq!("\"data:application/octet-stream;base64,TQ==\"", rendered);
}

#[test]
fn malformed_json_is_rejected() {
    assert!(any_value_from_json("").is_none());
    assert!(any_value_from_json("tru").is_none());
    assert!(any_value_from_json("[1,").is_none());
    assert!(any_value_from_json("{\"a\" 1}").is_none());
    assert!(any_value_from_json("\"unterminated").is_none());
    assert!(any_value_from_json("12x").is_none());
}

#[test]
fn round_trip_helper_returns_the_same_shape() {
    let v = AnyValue::List(vec![
        AnyValue::Boolean(false),
        AnyValue::Text(String::from("x")),
        AnyValue::Bytes(vec![1, 2, 3]),
    ]);
    let back = any_value_round_trip(&v).unwrap();
    assert_eq!(any_value_to_json(&v), any_value_to_json(&back));
}
