use bayesite_core::error::ErrorKind;
use bayesite_core::fingerprint::{model_data_fingerprint, sha256_bytes};
use bayesite_core::json::Value;
use bayesite_core::lines::lines;
use bayesite_core::model::show_names;
use bayesite_core::number::{equals, less_than, whole_number, Number};
use bayesite_core::order::{precedes, sort_texts};
use bayesite_core::render::render;
use bayesite_core::text::{cat3, decimal, hex, integer, is_blank, numbers};

#[test]
fn digests_of_known_messages() {
    assert_eq!(
        sha256_bytes(b""),
        "sha256:e3b0c44298fc1c149afbf4c8996fb92427ae41e4649b934ca495991b7852b855"
    );
    assert_eq!(
        sha256_bytes(b"abc"),
        "sha256:ba7816bf8f01cfea414140de5dae2223b00361a396177a9cb410ff61f20015ad"
    );
}

#[test]
fn a_fingerprint_hashes_the_tagged_pair() {
    assert_eq!(
        model_data_fingerprint("{}", "[]"),
        sha256_bytes(b"bayescycle-model-data-v1\n{}\n[]")
    );
    assert_ne!(model_data_fingerprint("{}", "[]"), model_data_fingerprint("{}", "[1]"));
}

#[test]
fn names_are_shown_quoted_and_escaped() {
    assert_eq!(
        show_names(&vec!["a".to_string(), "b\"\n".to_string()]),
        "[\"a\", \"b\\\"\\n\"]"
    );
}

#[test]
fn blank_texts_hold_white_space_only() {
    assert!(is_blank(""));
    assert!(is_blank(" \t\n\u{2003}"));
    assert!(!is_blank(" x "));
    for code in 0..0x11_0000u32 {
        if let Some(c) = char::from_u32(code) {
            assert_eq!(is_blank(&c.to_string()), c.is_whitespace(), "{code:x}");
        }
    }
}

#[test]
fn numerals() {
    assert_eq!(decimal(0), "0");
    assert_eq!(decimal(18446744073709551615), "18446744073709551615");
    assert_eq!(integer(-9223372036854775808), "-9223372036854775808");
    assert_eq!(hex(&[0, 171, 255]), "00abff");
    assert_eq!(numbers(&[2, 3]), "[2, 3]");
    assert_eq!(numbers(&[]), "[]");
    assert_eq!(cat3("a", "", "c"), "ac");
}

#[test]
fn texts_are_ordered_by_their_scalars() {
    assert!(precedes("a", "b"));
    assert!(precedes("a", "aa"));
    assert!(precedes("b", "b"));
    assert!(!precedes("b", "a"));
    assert_eq!(
        sort_texts(&vec!["b".to_string(), "a".to_string(), "ab".to_string()]),
        vec!["a".to_string(), "ab".to_string(), "b".to_string()]
    );
}

#[test]
fn lines_end_at_line_feeds() {
    assert_eq!(lines("a\nb\r\n\nc"), vec!["a", "b", "", "c"]);
    assert!(lines("").is_empty());
}

#[test]
fn integers_become_the_nearest_doubles() {
    for n in [0i64, 1, -1, 7, 1 << 53, (1 << 53) + 1, i64::MAX, i64::MIN] {
        assert_eq!(Number::from_integer(n).bits, (n as f64).to_bits(), "{n}");
    }
    assert_eq!(Number::from_integer(3).text, "3.0");
}

#[test]
fn doubles_are_compared_by_their_bit_patterns() {
    let cases = [0.0f64, -0.0, 1.0, -1.0, 0.5, f64::INFINITY, f64::NEG_INFINITY, f64::NAN, 1e-310];
    for a in cases {
        for b in cases {
            assert_eq!(less_than(a.to_bits(), b.to_bits()), a < b, "{a} < {b}");
            assert_eq!(equals(a.to_bits(), b.to_bits()), a == b, "{a} == {b}");
        }
    }
}

#[test]
fn whole_numbers_are_read_off_the_bits() {
    assert_eq!(whole_number(2.0f64.to_bits()).map(|w| w.nearest), Some(2));
    assert_eq!(whole_number((-3.0f64).to_bits()).map(|w| w.nearest), Some(-3));
    assert_eq!(whole_number(0.5f64.to_bits()), None);
    assert_eq!(whole_number(f64::NAN.to_bits()), None);
    assert!(whole_number(1e300f64.to_bits()).unwrap().beyond);
}

#[test]
fn documents_are_written_compactly() {
    let value = Value::Object(vec![
        ("a\"".to_string(), Value::Array(vec![Value::Int(1), Value::Null, Value::Bool(true)])),
        ("b".to_string(), Value::Str("x\u{1}\n".to_string())),
        (
            "c".to_string(),
            Value::Float(Number { bits: 0.5f64.to_bits(), text: "0.5".to_string() }),
        ),
    ]);
    assert_eq!(bayesite_core::json::write(&value), "{\"a\\\"\":[1,null,true],\"b\":\"x\\u0001\\n\",\"c\":0.5}");
}

#[test]
fn numbers_that_are_not_finite_are_not_rendered() {
    let value = Value::Array(vec![Value::Float(Number {
        bits: f64::NAN.to_bits(),
        text: "NaN".to_string(),
    })]);
    assert!(render(&value).is_err());
    assert_eq!(ErrorKind::NonFiniteDensity.name(), "NonFiniteDensity");
}
