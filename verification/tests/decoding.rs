use jsonval::deserialize;
use jsonval::DynValue;
use jsonval::Raw;

#[test]
fn null_round_trip() {
    assert_eq!(deserialize("null").unwrap(), DynValue::Null);
}

#[test]
fn true_round_trip() {
    assert_eq!(deserialize("true").unwrap(), DynValue::Bool(true));
}

#[test]
fn false_round_trip() {
    assert_eq!(deserialize("false").unwrap(), DynValue::Bool(false));
}

#[test]
fn max_signed_is_signed() {
    assert_eq!(
        deserialize("9223372036854775807").unwrap(),
        DynValue::Int(i64::MAX)
    );
}

#[test]
fn above_signed_range_is_unsigned() {
    assert_eq!(
        deserialize("9223372036854775808").unwrap(),
        DynValue::Uint(9223372036854775808)
    );
    assert_eq!(
        deserialize("18446744073709551615").unwrap(),
        DynValue::Uint(u64::MAX)
    );
}

#[test]
fn small_numbers_are_signed() {
    assert_eq!(deserialize("0").unwrap(), DynValue::Int(0));
    assert_eq!(deserialize("42").unwrap(), DynValue::Int(42));
    assert_eq!(deserialize("-5").unwrap(), DynValue::Int(-5));
    assert_eq!(
        deserialize("-9223372036854775808").unwrap(),
        DynValue::Int(i64::MIN)
    );
}

#[test]
fn fractional_is_float() {
    assert_eq!(
        deserialize("1.5").unwrap(),
        DynValue::Float((1.5f64).to_bits())
    );
}

#[test]
fn exponent_is_float() {
    assert_eq!(
        deserialize("1e10").unwrap(),
        DynValue::Float((1e10f64).to_bits())
    );
}

#[test]
fn integer_outside_u64_is_float() {
    assert_eq!(
        deserialize("18446744073709551616").unwrap(),
        DynValue::Float((18446744073709551616.0f64).to_bits())
    );
}

#[test]
fn map_keeps_insertion_order() {
    assert_eq!(
        deserialize("{\"b\":1,\"a\":2}").unwrap(),
        DynValue::Object(vec![
            ("b".to_string(), DynValue::Int(1)),
            ("a".to_string(), DynValue::Int(2)),
        ])
    );
}

#[test]
fn duplicate_key_last_write_wins() {
    assert_eq!(
        deserialize("{\"a\":1,\"a\":2}").unwrap(),
        DynValue::Object(vec![("a".to_string(), DynValue::Int(2))])
    );
}

#[test]
fn duplicate_key_keeps_first_position() {
    assert_eq!(
        deserialize("{\"a\":1,\"b\":2,\"a\":3}").unwrap(),
        DynValue::Object(vec![
            ("a".to_string(), DynValue::Int(3)),
            ("b".to_string(), DynValue::Int(2)),
        ])
    );
}

#[test]
fn builder_applies_last_write_wins_itself() {
    let report = Raw::Obj(vec![
        ("a".to_string(), Raw::Uint(1)),
        ("a".to_string(), Raw::Uint(2)),
    ]);
    assert_eq!(
        jsonval::build_value(&report),
        DynValue::Object(vec![("a".to_string(), DynValue::Int(2))])
    );
}

#[test]
fn builder_keeps_document_order() {
    let report = Raw::Obj(vec![
        ("b".to_string(), Raw::Uint(1)),
        ("a".to_string(), Raw::Uint(2)),
    ]);
    assert_eq!(
        jsonval::build_value(&report),
        DynValue::Object(vec![
            ("b".to_string(), DynValue::Int(1)),
            ("a".to_string(), DynValue::Int(2)),
        ])
    );
}

#[test]
fn builder_classifies_numbers() {
    assert_eq!(jsonval::build_value(&Raw::Uint(7)), DynValue::Int(7));
    assert_eq!(
        jsonval::build_value(&Raw::Uint(u64::MAX)),
        DynValue::Uint(u64::MAX)
    );
    assert_eq!(jsonval::build_value(&Raw::Int(-1)), DynValue::Int(-1));
}

#[test]
fn nesting_depth_is_preserved() {
    assert_eq!(
        deserialize("[1,[2,[3,[4]]]]").unwrap(),
        DynValue::List(vec![
            DynValue::Int(1),
            DynValue::List(vec![
                DynValue::Int(2),
                DynValue::List(vec![DynValue::Int(3), DynValue::List(vec![DynValue::Int(4)])]),
            ]),
        ])
    );
}

#[test]
fn trailing_garbage_rejected() {
    assert!(deserialize("{} extra").is_err());
    assert!(deserialize("123 456").is_err());
}

#[test]
fn trailing_whitespace_accepted() {
    assert_eq!(deserialize("{}").unwrap(), DynValue::Object(vec![]));
    assert_eq!(deserialize("{}  \n\t ").unwrap(), DynValue::Object(vec![]));
}

#[test]
fn malformed_input_rejected() {
    assert!(deserialize("{\"a\":}").is_err());
    assert!(deserialize("[1,]").is_err());
    assert!(deserialize("tru").is_err());
    assert!(deserialize("").is_err());
}

#[test]
fn error_carries_a_message() {
    let e = deserialize("tru").unwrap_err();
    assert!(!e.message().is_empty());
}

#[test]
fn empty_containers() {
    assert_eq!(deserialize("[]").unwrap(), DynValue::List(vec![]));
    assert_eq!(deserialize("{}").unwrap(), DynValue::Object(vec![]));
}

#[test]
fn strings_decode() {
    assert_eq!(
        deserialize("\"hi\"").unwrap(),
        DynValue::Text("hi".to_string())
    );
    assert_eq!(
        deserialize("\"a\\nb\"").unwrap(),
        DynValue::Text("a\nb".to_string())
    );
    assert_eq!(
        deserialize("\"caf\\u00e9\"").unwrap(),
        DynValue::Text("caf\u{e9}".to_string())
    );
}

#[test]
fn mixed_document() {
    assert_eq!(
        deserialize("{\"xs\":[null,true,2,-3.5],\"s\":\"ok\"}").unwrap(),
        DynValue::Object(vec![
            (
                "xs".to_string(),
                DynValue::List(vec![
                    DynValue::Null,
                    DynValue::Bool(true),
                    DynValue::Int(2),
                    DynValue::Float((-3.5f64).to_bits()),
                ])
            ),
            ("s".to_string(), DynValue::Text("ok".to_string())),
        ])
    );
}

#[test]
fn decoding_is_deterministic() {
    let text = "{\"a\":[1,2.5,\"x\"],\"b\":{\"c\":null}}";
    assert_eq!(deserialize(text).unwrap(), deserialize(text).unwrap());
    assert_eq!(deserialize("1e10").unwrap(), deserialize("1e10").unwrap());
}

#[test]
fn deep_nesting_within_tokenizer_limit() {
    let depth = 100;
    let text = format!("{}0{}", "[".repeat(depth), "]".repeat(depth));
    let mut v = deserialize(&text).unwrap();
    let mut seen = 0;
    while let DynValue::List(mut xs) = v {
        assert_eq!(xs.len(), 1);
        v = xs.pop().unwrap();
        seen += 1;
    }
    assert_eq!(seen, depth);
    assert_eq!(v, DynValue::Int(0));
}

#[test]
fn no_partial_value_on_inner_error() {
    assert!(deserialize("[1,[2,[3,tru]]]").is_err());
    assert!(deserialize("{\"a\":{\"b\":[1,}}").is_err());
}
