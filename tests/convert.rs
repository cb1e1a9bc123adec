use flvpipe::convert::{field_to_json, row_to_json, ConvertError, MAX_DEPTH};
use flvpipe::json::Json;
use flvpipe::render::json_to_text;
use flvpipe::value::{Decimal, Unscaled, Value};

fn conv(v: &Value) -> Json {
    field_to_json(v).expect("value converts")
}

fn text(v: &Value) -> String {
    match conv(v) {
        Json::Str(s) => s,
        other => panic!("expected a string, got {:?}", other),
    }
}

fn dec(unscaled: Unscaled) -> Value {
    Value::Decimal(Decimal { scale: 2, unscaled })
}

#[test]
fn every_variant_converts() {
    let values = vec![
        Value::Null,
        Value::Bool(true),
        Value::Int8(-8),
        Value::Int16(-16),
        Value::Int32(-32),
        Value::Int64(-64),
        Value::UInt8(8),
        Value::UInt16(16),
        Value::UInt32(32),
        Value::UInt64(u64::MAX),
        Value::Float32(1.25f32.to_bits()),
        Value::Float64(2.5f64.to_bits()),
        Value::Str("s".to_string()),
        Value::Bytes(vec![1, 2]),
        dec(Unscaled::Four([0, 0, 0, 1])),
        Value::Date(0),
        Value::TimestampMillis(0),
        Value::TimestampMicros(0),
        Value::List(vec![Value::Null]),
        Value::KeyValue(vec![(Value::Int32(1), Value::Null)]),
        Value::Record(vec![("a".to_string(), Value::Null)]),
    ];
    for v in values.iter() {
        assert!(field_to_json(v).is_ok());
    }
}

#[test]
fn scalars_convert_exactly() {
    assert_eq!(conv(&Value::Null), Json::Null);
    assert_eq!(conv(&Value::Bool(false)), Json::Bool(false));
    assert_eq!(conv(&Value::Int8(-128)), Json::Int(-128));
    assert_eq!(conv(&Value::Int64(i64::MIN)), Json::Int(i64::MIN));
    assert_eq!(conv(&Value::UInt16(65535)), Json::UInt(65535));
    assert_eq!(conv(&Value::UInt64(u64::MAX)), Json::UInt(u64::MAX));
    assert_eq!(conv(&Value::Str("a\"b".to_string())), Json::Str("a\"b".to_string()));
}

#[test]
fn bytes_become_lowercase_hex() {
    assert_eq!(text(&Value::Bytes(vec![0x00, 0xff, 0x10, 0xab])), "00ff10ab");
    assert_eq!(text(&Value::Bytes(vec![])), "");
}

#[test]
fn decimal_four_byte_positive() {
    let b = 12345i32.to_be_bytes();
    assert_eq!(text(&dec(Unscaled::Four(b))), "12345");
}

#[test]
fn decimal_minus_one() {
    assert_eq!(text(&dec(Unscaled::Four([0xff; 4]))), "-1");
    assert_eq!(text(&dec(Unscaled::Eight([0xff; 8]))), "-1");
    assert_eq!(text(&dec(Unscaled::Bytes(vec![0xff]))), "-1");
}

#[test]
fn decimal_eight_and_long_forms() {
    assert_eq!(text(&dec(Unscaled::Eight(i64::MIN.to_be_bytes()))), "-9223372036854775808");
    let big = i128::MAX.to_be_bytes().to_vec();
    assert_eq!(text(&dec(Unscaled::Bytes(big))), "170141183460469231731687303715884105727");
    assert_eq!(text(&dec(Unscaled::Bytes(vec![]))), "0");
    assert_eq!(text(&dec(Unscaled::Bytes(vec![1, 0]))), "256");
    let mut two_pow_128 = vec![1u8];
    two_pow_128.extend(vec![0u8; 16]);
    assert_eq!(text(&dec(Unscaled::Bytes(two_pow_128))), "340282366920938463463374607431768211456");
    let mut minus_two_pow_128 = vec![0xffu8];
    minus_two_pow_128.extend(vec![0u8; 16]);
    assert_eq!(text(&dec(Unscaled::Bytes(minus_two_pow_128))), "-340282366920938463463374607431768211456");
    assert_eq!(text(&dec(Unscaled::Bytes(vec![0xff; 20]))), "-1");
    assert_eq!(text(&dec(Unscaled::Bytes(vec![0; 20]))), "0");
    let mut padded = vec![0u8; 4];
    padded.extend(i128::MAX.to_be_bytes());
    assert_eq!(text(&dec(Unscaled::Bytes(padded))), "170141183460469231731687303715884105727");
    let mut ten_pow_40 = vec![0u8; 24];
    let mut n: Vec<u32> = vec![1];
    for _ in 0..40 {
        let mut carry = 0u32;
        for d in n.iter_mut() {
            let v = *d * 10 + carry;
            *d = v % 256;
            carry = v / 256;
        }
        while carry > 0 {
            n.push(carry % 256);
            carry /= 256;
        }
    }
    for (i, d) in n.iter().enumerate() {
        ten_pow_40[23 - i] = *d as u8;
    }
    assert_eq!(text(&dec(Unscaled::Bytes(ten_pow_40))), format!("1{}", "0".repeat(40)));
}

#[test]
fn date_epoch_and_day_before() {
    assert_eq!(text(&Value::Date(0)), "1970-01-01");
    assert_eq!(text(&Value::Date(-1)), "1969-12-31");
    assert_eq!(text(&Value::Date(19_000)), "2022-01-08");
}

#[test]
fn wide_dates_still_convert() {
    assert!(matches!(conv(&Value::Date(80_000_000)), Json::Str(_)));
    assert!(matches!(conv(&Value::Date(-80_000_000)), Json::Str(_)));
    assert!(matches!(conv(&Value::TimestampMicros(7_000_000_000_000_000_000)), Json::Str(_)));
}

#[test]
fn date_out_of_range_is_null() {
    assert_eq!(conv(&Value::Date(i32::MAX)), Json::Null);
    assert_eq!(conv(&Value::Date(i32::MIN)), Json::Null);
    assert_eq!(conv(&Value::Date(-101_000_000)), Json::Null);
    assert_eq!(conv(&Value::Date(101_000_000)), Json::Null);
    assert_eq!(conv(&Value::TimestampMillis(-9_000_000_000_000_000)), Json::Null);
    assert_eq!(conv(&Value::TimestampMicros(i64::MAX)), Json::Null);
}

#[test]
fn timestamp_millis_one_second() {
    assert_eq!(text(&Value::TimestampMillis(1_000)), "1970-01-01 00:00:01 UTC");
}

#[test]
fn timestamp_subseconds_and_negatives() {
    assert_eq!(text(&Value::TimestampMicros(1_500_000)), "1970-01-01 00:00:01.500 UTC");
    assert_eq!(text(&Value::TimestampMillis(1_250)), "1970-01-01 00:00:01.250 UTC");
    assert_eq!(text(&Value::TimestampMillis(-1_000)), "1969-12-31 23:59:59 UTC");
    assert_eq!(conv(&Value::TimestampMillis(-1)), Json::Null);
    assert_eq!(conv(&Value::TimestampMillis(i64::MAX)), Json::Null);
}

#[test]
fn non_finite_floats_become_null() {
    assert_eq!(conv(&Value::Float64(f64::NAN.to_bits())), Json::Null);
    assert_eq!(conv(&Value::Float64(f64::INFINITY.to_bits())), Json::Null);
    assert_eq!(conv(&Value::Float64(f64::NEG_INFINITY.to_bits())), Json::Null);
    assert_eq!(conv(&Value::Float32(f32::NAN.to_bits())), Json::Null);
    assert_eq!(conv(&Value::Float64(1.5f64.to_bits())), Json::Float64(1.5f64.to_bits()));
    assert_eq!(conv(&Value::Float32(f32::MAX.to_bits())), Json::Float32(f32::MAX.to_bits()));
}

#[test]
fn nesting_is_mirrored() {
    let inner = |n: i32| {
        Value::Record(vec![(
            "m".to_string(),
            Value::KeyValue(vec![(Value::Str("k".to_string()), Value::Int32(n))]),
        )])
    };
    let v = Value::Record(vec![("xs".to_string(), Value::List(vec![inner(1), inner(2)]))]);
    let expected_inner = |n: i64| {
        Json::Object(vec![(
            "m".to_string(),
            Json::Object(vec![("\"k\"".to_string(), Json::Int(n))]),
        )])
    };
    assert_eq!(
        conv(&v),
        Json::Object(vec![("xs".to_string(), Json::Array(vec![expected_inner(1), expected_inner(2)]))])
    );
}

#[test]
fn record_keeps_last_duplicate_in_first_place() {
    let row = vec![
        ("a".to_string(), Value::Int32(1)),
        ("b".to_string(), Value::Int32(2)),
        ("a".to_string(), Value::Int32(3)),
    ];
    assert_eq!(
        row_to_json(&row),
        Ok(Json::Object(vec![("a".to_string(), Json::Int(3)), ("b".to_string(), Json::Int(2))]))
    );
}

#[test]
fn empty_containers() {
    assert_eq!(conv(&Value::List(vec![])), Json::Array(vec![]));
    assert_eq!(conv(&Value::KeyValue(vec![])), Json::Object(vec![]));
    assert_eq!(row_to_json(&vec![]), Ok(Json::Object(vec![])));
}

#[test]
fn too_deep_is_refused() {
    let mut v = Value::Null;
    for _ in 0..MAX_DEPTH {
        v = Value::List(vec![v]);
    }
    assert!(field_to_json(&v).is_ok());
    let v = Value::List(vec![v]);
    assert_eq!(field_to_json(&v), Err(ConvertError::StructureTooDeep));
}

#[test]
fn repeated_map_key_keeps_last_value() {
    let m = Value::KeyValue(vec![
        (Value::Int32(1), Value::Str("a".to_string())),
        (Value::Int32(2), Value::Str("c".to_string())),
        (Value::Int32(1), Value::Str("b".to_string())),
    ]);
    assert_eq!(
        conv(&m),
        Json::Object(vec![("1".to_string(), Json::Str("b".to_string())), ("2".to_string(), Json::Str("c".to_string()))])
    );
}

#[test]
fn map_keys_of_different_types_clash_by_text() {
    let m = Value::KeyValue(vec![(Value::Int64(7), Value::Bool(true)), (Value::UInt8(7), Value::Bool(false))]);
    assert_eq!(conv(&m), Json::Object(vec![("7".to_string(), Json::Bool(false))]));
    let s = Value::KeyValue(vec![(Value::Null, Value::Null), (Value::Bool(true), Value::Int8(-1))]);
    assert_eq!(
        conv(&s),
        Json::Object(vec![("null".to_string(), Json::Null), ("true".to_string(), Json::Int(-1))])
    );
}

#[test]
fn float_map_key_is_its_bit_pattern() {
    let m = Value::KeyValue(vec![(Value::Float64(1.5f64.to_bits()), Value::Null)]);
    assert_eq!(conv(&m), Json::Object(vec![(1.5f64.to_bits().to_string(), Json::Null)]));
}

#[test]
fn json_text_is_compact_and_escaped() {
    let j = Json::Object(vec![
        ("a\"b".to_string(), Json::Array(vec![Json::Int(-12), Json::UInt(3), Json::Null])),
        ("t".to_string(), Json::Str("x\n\u{1}\\y".to_string())),
        ("e".to_string(), Json::Object(vec![])),
    ]);
    assert_eq!(json_to_text(&j), r#"{"a\"b":[-12,3,null],"t":"x\n\u0001\\y","e":{}}"#);
    assert_eq!(json_to_text(&Json::Int(i64::MIN)), "-9223372036854775808");
    assert_eq!(json_to_text(&Json::Bool(false)), "false");
    assert_eq!(json_to_text(&Json::Str("\u{e9}\t".to_string())), "\"\u{e9}\\t\"");
}
