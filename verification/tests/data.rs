use bayesite_core::data::{data_from_json, data_to_json, data_value_from_json};
use bayesite_core::error::Error;
use bayesite_core::identity::posterior_identity_hash;
use bayesite_core::json::Value;
use bayesite_core::number::Number;
use bayesite_core::render::same_value;

fn number(value: f64) -> Number {
    Number { bits: value.to_bits(), text: format!("{value:?}") }
}

fn float(value: f64) -> Value {
    Value::Float(number(value))
}

fn object(entries: Vec<(&str, Value)>) -> Value {
    Value::Object(entries.into_iter().map(|(name, value)| (name.to_string(), value)).collect())
}

fn message<T>(result: Result<T, Error>) -> String {
    match result {
        Ok(_) => panic!("accepted"),
        Err(error) => error.message,
    }
}

#[test]
fn arrays_are_read_row_by_row() {
    let rows = Value::Array(vec![
        Value::Array(vec![Value::Int(1), Value::Int(2)]),
        Value::Array(vec![Value::Int(3), float(4.5)]),
    ]);
    let found = data_value_from_json("x", &rows).unwrap();
    assert_eq!(found.shape, vec![2, 2]);
    assert!(!found.integer);
    let values: Vec<f64> = found.values.iter().map(|n| f64::from_bits(n.bits)).collect();
    assert_eq!(values, vec![1.0, 2.0, 3.0, 4.5]);
}

#[test]
fn ragged_arrays_and_texts_are_refused() {
    let ragged = Value::Array(vec![Value::Array(vec![Value::Int(1)]), Value::Array(vec![])]);
    assert!(message(data_value_from_json("x", &ragged)).ends_with(" must be a rectangular array"));
    let texts = Value::Array(vec![Value::Str("a".to_string())]);
    assert!(message(data_value_from_json("x", &texts)).ends_with(" must contain numbers only"));
    assert!(data_value_from_json("x", &Value::Null).is_err());
    assert_eq!(
        message(data_from_json(&Value::Int(3))),
        "the data document must be a JSON object keyed by data name"
    );
}

#[test]
fn described_values_give_their_shape() {
    let described = object(vec![
        ("dtype", Value::Str("float64".to_string())),
        ("shape", Value::Array(vec![Value::Int(1), Value::Int(2)])),
        ("values", Value::Array(vec![float(1.5), float(2.5)])),
    ]);
    let found = data_value_from_json("x", &described).unwrap();
    assert_eq!(found.shape, vec![1, 2]);
    let short = object(vec![
        ("dtype", Value::Str("float64".to_string())),
        ("shape", Value::Array(vec![Value::Int(3)])),
        ("values", Value::Array(vec![float(1.5)])),
    ]);
    assert!(data_value_from_json("x", &short).is_err());
}

#[test]
fn data_that_was_written_is_read_back() {
    let document = object(vec![
        ("n", Value::Int(3)),
        ("x", Value::Array(vec![float(0.5), float(1.5)])),
    ]);
    let data = data_from_json(&document).unwrap();
    let written = data_to_json(&data, "test").unwrap();
    let again = data_from_json(&written).unwrap();
    assert!(same_value(&data_to_json(&again, "test").unwrap(), &written));
    assert_eq!(again.len(), 2);
    assert_eq!(again[1].1.shape, vec![2]);
}

#[test]
fn the_identity_of_a_posterior_follows_model_and_data() {
    let data = data_from_json(&object(vec![("n", Value::Int(3))])).unwrap();
    let other = data_from_json(&object(vec![("n", Value::Int(4))])).unwrap();
    let hash = posterior_identity_hash("model", &data);
    assert_eq!(hash, posterior_identity_hash("model", &data));
    assert_ne!(hash, posterior_identity_hash("model", &other));
    assert_ne!(hash, posterior_identity_hash("other", &data));
}

#[test]
fn the_identity_of_a_posterior_ignores_the_order_of_its_data() {
    let data = data_from_json(&object(vec![("a", Value::Int(3)), ("b", float(0.5))])).unwrap();
    let turned = data_from_json(&object(vec![("b", float(0.5)), ("a", Value::Int(3))])).unwrap();
    assert_eq!(posterior_identity_hash("model", &data), "fnv1a64:0e1e759ad53d0f6f");
    assert_eq!(posterior_identity_hash("model", &turned), "fnv1a64:0e1e759ad53d0f6f");
}

#[test]
fn a_bare_number_or_array_is_shorthand_for_floats() {
    let document = object(vec![
        ("n", Value::Int(5)),
        ("v", Value::Array(vec![Value::Int(1), Value::Int(2)])),
        (
            "k",
            object(vec![
                ("dtype", Value::Str("int64".to_string())),
                ("shape", Value::Array(vec![])),
                ("values", Value::Array(vec![Value::Int(5)])),
            ]),
        ),
    ]);
    let data = data_from_json(&document).unwrap();
    assert_eq!(data[0].0, "n");
    assert!(data[0].1.shape.is_empty());
    assert_eq!(data[0].1.values[0].bits, 5.0f64.to_bits());
    assert!(!data[0].1.integer);
    assert_eq!(data[1].1.shape, vec![2]);
    assert!(!data[1].1.integer);
    assert!(data[2].1.integer);
    let written = data_to_json(&data, "test").unwrap();
    let again = data_from_json(&written).unwrap();
    assert_eq!(again.iter().map(|entry| entry.1.integer).collect::<Vec<_>>(), vec![false, false, true]);
    assert_eq!(again[2].1.values[0].bits, 5.0f64.to_bits());
}

#[test]
fn messages_spell_numbers_without_a_zero_fraction() {
    assert_eq!(number(-1.0).shown(), "-1");
    assert_eq!(number(2.5).shown(), "2.5");
    assert_eq!(number(10.0).shown(), "10");
    assert_eq!(number(f64::INFINITY).shown(), "inf");
    let described = object(vec![
        ("dtype", Value::Str("int64".to_string())),
        ("shape", Value::Array(vec![])),
        ("values", Value::Array(vec![float(0.5)])),
    ]);
    let data = data_from_json(&object(vec![("k", described)])).unwrap();
    assert_eq!(
        message(data_to_json(&data, "test")),
        "test data value \"k\" integer value must be finite and integral, got 0.5"
    );
}
