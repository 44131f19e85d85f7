use exprlang::literal::extract_char;
use exprlang::types::DataValue;

#[test]
fn value_addition() {
    assert!(matches!(DataValue::Int32(2).add(DataValue::Int32(3)), DataValue::Int32(5)));
    assert!(matches!(DataValue::Int64(2).add(DataValue::Int64(-3)), DataValue::Int64(-1)));
    assert!(matches!(DataValue::Int8(100).add(DataValue::Int8(27)), DataValue::Int8(127)));
    match DataValue::String("ab".to_string()).add(DataValue::String("cd".to_string())) {
        DataValue::String(s) => assert_eq!(s, "abcd"),
        _ => panic!("expected a string"),
    }
}

#[test]
fn value_subtraction_and_multiplication() {
    assert!(matches!(DataValue::Int16(7).sub(DataValue::Int16(9)), DataValue::Int16(-2)));
    assert!(matches!(DataValue::Int16(7).mul(DataValue::Int16(-9)), DataValue::Int16(-63)));
}

#[test]
fn value_division_rounds_toward_zero() {
    assert!(matches!(DataValue::Int32(-7).div(DataValue::Int32(2)), DataValue::Int32(-3)));
    assert!(matches!(DataValue::Int64(7).div(DataValue::Int64(-2)), DataValue::Int64(-3)));
}

#[test]
fn char_extraction() {
    assert_eq!(extract_char("'x'"), Some('x'));
    assert_eq!(extract_char("'é'"), Some('é'));
    assert_eq!(extract_char("''"), None);
    assert_eq!(extract_char("'ab'"), None);
    assert_eq!(extract_char("\"x\""), None);
}
