use rend::bigint::BigInt;
use rend::json::{byte_size, deserialize, parse, serialize, write_canonical_value, Part};
use rend::value::{Json, Value};

fn ji(n: i64) -> Value {
    Value::of_int(n)
}

fn st(s: &str) -> Value {
    Value::Str(s.to_string())
}

#[test]
fn parse_primitives_materialize_as_native_values() {
    assert!(parse("null").unwrap().same(&Value::Json(Json::Null)));
    assert!(parse("true").unwrap().same(&Value::Bool(true)));
    assert!(parse("false").unwrap().same(&Value::Bool(false)));
    assert!(parse("42").unwrap().same(&ji(42)));
    assert!(parse("-7").unwrap().same(&ji(-7)));
    assert!(parse("1.5").unwrap().same(&Value::Float(1.5f64.to_bits())));
    assert!(parse("\"hi\"").unwrap().same(&st("hi")));
}

#[test]
fn parse_arbitrary_precision_ints() {
    let huge = "1606938044258990275541962092341162602522202993782792835301375";
    match parse(huge).unwrap() {
        Value::Int(n) => assert_eq!(n.to_string(), huge),
        other => panic!("expected Int, got {other:?}"),
    }
}

#[test]
fn parse_array_and_object() {
    let v = parse("[1, 2, 3]").unwrap();
    match v {
        Value::Json(Json::Array(items)) => {
            assert_eq!(items.len(), 3);
            assert!(items[0].same(&ji(1)));
            assert!(items[1].same(&ji(2)));
            assert!(items[2].same(&ji(3)));
        }
        other => panic!("expected Array, got {other:?}"),
    }
    let v = parse(r#"{"name": "alice", "age": 30}"#).unwrap();
    match v {
        Value::Json(pairs @ Json::Object(_)) => {
            let (key, value) = pairs.entry_at(0).unwrap();
            assert_eq!(key, "name");
            assert!(value.same(&st("alice")));
            let (key, value) = pairs.entry_at(1).unwrap();
            assert_eq!(key, "age");
            assert!(value.same(&ji(30)));
        }
        other => panic!("expected Object, got {other:?}"),
    }
}

#[test]
fn parse_nested() {
    let v = parse(r#"{"users": [{"id": 1, "name": "a"}]}"#).unwrap();
    let Value::Json(j) = v else { panic!() };
    let users = j.get_field("users").unwrap();
    let Value::Json(u) = users else { panic!() };
    let alice = u.get_index(0).unwrap();
    let Value::Json(alice) = alice else { panic!() };
    assert!(alice.get_field("name").unwrap().same(&st("a")));
}

#[test]
fn canonical_distinguishes_int_and_float() {
    let i = parse("1").unwrap();
    let f = parse("1.0").unwrap();
    assert!(!i.same(&f));
    match (&i, &f) {
        (Value::Int(_), Value::Float(_)) => {}
        _ => panic!("wrong variants"),
    }
}

#[test]
fn missing_key_returns_none() {
    let v = parse(r#"{"a": 1}"#).unwrap();
    let Value::Json(j) = v else { panic!() };
    assert!(j.get_field("nope").is_none());
    assert!(j.get_index(5).is_none());
}

fn canonical(s: &str) -> String {
    let mut out = String::new();
    write_canonical_value(&parse(s).unwrap(), &mut out);
    out
}

#[test]
fn canonical_text_drops_spaces_and_keeps_order() {
    assert_eq!(canonical(r#" { "b" : [ 1 , null ] , "a" : "x\ny" } "#), r#"{"b":[1,null],"a":"x\ny"}"#);
    assert_eq!(canonical("\"\\u0041\\u00e9\""), "\"Aé\"");
    assert_eq!(canonical("-12"), "-12");
}

#[test]
fn a_later_key_replaces_the_value_in_place() {
    assert_eq!(canonical(r#"{"a":1,"b":2,"a":3}"#), r#"{"a":3,"b":2}"#);
}

#[test]
fn floats_are_read_to_the_nearest() {
    let samples: [&str; 8] = ["0.1", "1e22", "2.2250738585072014e-308", "1.7976931348623157e308", "5e-324", "123456.789", "1e400", "-0.0"];
    for s in samples {
        let want: f64 = s.parse().unwrap();
        match parse(s) {
            Ok(Value::Float(bits)) => assert_eq!(bits, want.to_bits(), "{s}"),
            Ok(other) => panic!("{s}: {other:?}"),
            Err(e) => panic!("{s}: {}", e.to_string()),
        }
    }
}

#[test]
fn broken_texts_are_refused() {
    for s in ["", "[1,", "{\"a\" 1}", "tru", "\"\\q\"", "1 2", "\"\\ud800\"", "\"abc"] {
        assert!(parse(s).is_err(), "{s}");
    }
}

#[test]
fn binary_form_of_an_array_has_its_size() {
    let j = Json::Array(vec![ji(1), ji(2)]);
    let enc = vec![vec![7u8, 8, 9], vec![1u8]];
    let bytes = serialize(&j, &enc);
    let sizes: Vec<usize> = vec![3, 1];
    assert_eq!(byte_size(&bytes, &sizes), Some(bytes.len()));
    assert_eq!(byte_size(&bytes[..3], &sizes), None);
    assert_eq!(byte_size(&[], &sizes), None);
    let mut longer = bytes.clone();
    longer.extend([1, 2, 3, 4, 5, 6]);
    assert_eq!(byte_size(&longer, &sizes), Some(bytes.len()));
    assert_eq!(byte_size(&[3, 0, 0, 0, 0], &vec![]), None);
    assert_eq!(byte_size(&bytes, &vec![usize::MAX, 1]), None);
}

#[test]
fn canonical_texts_are_read_back() {
    for s in [
        "null", "true", "-0.0", "0.1", "5e-324", "1.7976931348623157e308", "123456.789", "1e22",
        "123456789012345678901234567890", r#"{"a\"\\\n\u0001é":[1,2.5,[],{}],"b":{"c":null,"d":"x"}}"#,
    ] {
        let v = parse(s).unwrap();
        let mut out = String::new();
        write_canonical_value(&v, &mut out);
        assert!(parse(&out).unwrap().same(&v), "{out}");
        let mut again = String::new();
        write_canonical_value(&parse(&out).unwrap(), &mut again);
        assert_eq!(out, again);
    }
}

#[test]
fn binary_forms_are_read_back() {
    let part = |size: usize, n: i64| Part { size, value: ji(n) };
    let Value::Json(j) = parse(r#"{"a": 1, "é": 2}"#).unwrap() else { panic!() };
    let enc = vec![vec![7u8, 8, 9], vec![1u8]];
    let bytes = serialize(&j, &enc);
    let back = deserialize(&bytes, &vec![part(3, 1), part(1, 2)]).unwrap();
    assert!(Value::Json(back).same(&Value::Json(j)));
    assert!(deserialize(&bytes[..bytes.len() - 1], &vec![part(3, 1), part(1, 2)]).is_none());
    assert!(deserialize(&bytes, &vec![part(3, 1)]).is_none());
    assert!(matches!(deserialize(&[0], &vec![]), Some(Json::Null)));
    assert!(deserialize(&[0, 0], &vec![]).is_none());
    assert!(deserialize(&[3, 0, 0, 0, 0], &vec![]).is_none());
}

#[test]
fn objects_keep_the_order_of_their_keys() {
    let pairs = vec![("b".to_string(), ji(1)), ("a".to_string(), ji(2)), ("b".to_string(), ji(3))];
    let j = Json::object(&pairs);
    let (k, v) = j.entry_at(0).unwrap();
    assert_eq!(k, "b");
    assert!(v.same(&ji(3)));
    assert!(j.get_field("a").unwrap().same(&ji(2)));
    assert!(j.get_field("c").is_none());
    assert!(j.entry_at(2).is_none());
    assert!(Value::Json(j.copy()).same(&Value::Json(j)));
    let other = Json::object(&vec![("a".to_string(), ji(2)), ("b".to_string(), ji(3))]);
    assert!(Value::Json(other).same(&Value::Json(Json::object(&pairs))));
}

#[test]
fn big_integers_print_and_parse() {
    let n = BigInt::parse(b"-340282366920938463463374607431768211457").unwrap();
    assert_eq!(n.to_string(), "-340282366920938463463374607431768211457");
    assert_eq!(n.to_i64(), None);
    assert_eq!(n.to_u128(), None);
    assert!(BigInt::from_i64(-3).same(&BigInt::from_signed_bytes_be(&[0xfd])));
    assert_eq!(BigInt::from_i64(-3).to_signed_bytes_be(), vec![0xfd]);
    assert_eq!(BigInt::from_u128(u128::MAX).to_u128(), Some(u128::MAX));
    assert_eq!(BigInt::from_u128(u64::MAX as u128).to_u64(), Some(u64::MAX));
    assert!(BigInt::from_i64(-4).less(&BigInt::from_i64(3)));
}

#[test]
fn big_integer_arithmetic() {
    let a = BigInt::from_i64(-7);
    let b = BigInt::from_i64(2);
    assert_eq!(a.plus(&b).to_string(), "-5");
    assert_eq!(a.minus(&b).to_string(), "-9");
    assert_eq!(a.times(&b).to_string(), "-14");
    assert_eq!(a.quotient(&b).to_string(), "-3");
    assert_eq!(a.remainder(&b).to_string(), "-1");
    assert_eq!(a.bit_and(&BigInt::from_i64(12)).to_string(), "8");
    assert_eq!(a.bit_or(&BigInt::from_i64(4)).to_string(), "-3");
    assert_eq!(a.bit_xor(&BigInt::from_i64(1)).to_string(), "-8");
    assert_eq!(b.shifted_left(70).to_string(), "2361183241434822606848");
    assert_eq!(a.shifted_right(1).to_string(), "-4");
}
