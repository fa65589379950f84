//! Decoding lines into records.
use csvrates::record::{decode_record, rates_for_average, DecodeError};

fn rate_values(rates: &[serde_json::Number]) -> Vec<f64> {
    rates.iter().map(|n| n.as_f64().expect("a plain number")).collect()
}

#[test]
fn decodes_required_fields() {
    let line = br#"{"billing_code":"B1","name":"X","negotiated_rates":[{"negotiated_prices":[{"negotiated_rate":10.0},{"negotiated_rate":20.0}]}]}"#.to_vec();
    let rec = decode_record(&line).ok().expect("valid record");
    assert_eq!(rec.name, b"X".to_vec());
    assert_eq!(rec.billing_code, b"B1".to_vec());
    assert_eq!(rec.groups.len(), 1);
    assert_eq!(rec.groups[0].prices.len(), 2);
    let rates = rates_for_average(&rec).expect("has prices");
    assert_eq!(rate_values(&rates), vec![10.0, 20.0]);
}

#[test]
fn extra_fields_are_ignored() {
    let line = br#"{"billing_code":"C","name":"N","extra":[1,{"a":null}],"negotiated_rates":[{"other":true,"negotiated_prices":[{"negotiated_rate":5,"note":"x"}]}],"more":"y"}"#.to_vec();
    let rec = decode_record(&line).ok().expect("valid record");
    assert_eq!(rec.name, b"N".to_vec());
    assert_eq!(rec.billing_code, b"C".to_vec());
    let rates = rates_for_average(&rec).expect("has prices");
    assert_eq!(rate_values(&rates), vec![5.0]);
}

#[test]
fn integer_rates_are_numbers_too() {
    let line = br#"{"billing_code":"I","name":"Ints","negotiated_rates":[{"negotiated_prices":[{"negotiated_rate":10},{"negotiated_rate":-4}]}]}"#.to_vec();
    let rec = decode_record(&line).ok().expect("valid record");
    let rates = rates_for_average(&rec).expect("has prices");
    assert_eq!(rate_values(&rates), vec![10.0, -4.0]);
}

#[test]
fn groups_flatten_in_order() {
    let line = br#"{"billing_code":"O","name":"Order","negotiated_rates":[{"negotiated_prices":[{"negotiated_rate":1.5}]},{"negotiated_prices":[]},{"negotiated_prices":[{"negotiated_rate":2.5},{"negotiated_rate":3.5}]}]}"#.to_vec();
    let rec = decode_record(&line).ok().expect("valid record");
    assert_eq!(rec.groups.len(), 3);
    let rates = rates_for_average(&rec).expect("has prices");
    assert_eq!(rate_values(&rates), vec![1.5, 2.5, 3.5]);
}

#[test]
fn empty_rates_mean_nothing_to_average() {
    let line = br#"{"billing_code":"B","name":"Empty","negotiated_rates":[]}"#.to_vec();
    let rec = decode_record(&line).ok().expect("valid record");
    assert!(rates_for_average(&rec).is_none());
}

#[test]
fn empty_price_lists_mean_nothing_to_average() {
    let line = br#"{"billing_code":"B","name":"Empty","negotiated_rates":[{"negotiated_prices":[]},{"negotiated_prices":[]}]}"#.to_vec();
    let rec = decode_record(&line).ok().expect("valid record");
    assert!(rates_for_average(&rec).is_none());
}

#[test]
fn malformed_json_is_a_syntax_error() {
    let line = b"{not json".to_vec();
    assert!(matches!(decode_record(&line), Err(DecodeError::Syntax)));
}

#[test]
fn trailing_garbage_is_a_syntax_error() {
    let line = br#"{"billing_code":"B","name":"N","negotiated_rates":[]} trailing"#.to_vec();
    assert!(matches!(decode_record(&line), Err(DecodeError::Syntax)));
}

#[test]
fn missing_billing_code_is_a_shape_error() {
    let line = br#"{"name":"X","negotiated_rates":[]}"#.to_vec();
    assert!(matches!(decode_record(&line), Err(DecodeError::Shape)));
}

#[test]
fn missing_name_is_a_shape_error() {
    let line = br#"{"billing_code":"B1","negotiated_rates":[]}"#.to_vec();
    assert!(matches!(decode_record(&line), Err(DecodeError::Shape)));
}

#[test]
fn missing_rates_is_a_shape_error() {
    let line = br#"{"billing_code":"B1","name":"X"}"#.to_vec();
    assert!(matches!(decode_record(&line), Err(DecodeError::Shape)));
}

#[test]
fn wrong_field_types_are_shape_errors() {
    let cases: Vec<&[u8]> = vec![
        br#"{"billing_code":7,"name":"X","negotiated_rates":[]}"#,
        br#"{"billing_code":"B","name":null,"negotiated_rates":[]}"#,
        br#"{"billing_code":"B","name":"X","negotiated_rates":{}}"#,
        br#"{"billing_code":"B","name":"X","negotiated_rates":[5]}"#,
        br#"{"billing_code":"B","name":"X","negotiated_rates":[{"negotiated_prices":3}]}"#,
        br#"{"billing_code":"B","name":"X","negotiated_rates":[{"negotiated_prices":[7]}]}"#,
        br#"{"billing_code":"B","name":"X","negotiated_rates":[{"negotiated_prices":[{"negotiated_rate":"7"}]}]}"#,
        br#"{"billing_code":"B","name":"X","negotiated_rates":[{"negotiated_prices":[{}]}]}"#,
        br#"[1,2,3]"#,
    ];
    for line in cases {
        assert!(matches!(decode_record(&line.to_vec()), Err(DecodeError::Shape)));
    }
}
