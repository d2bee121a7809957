use myshenyatko::parse::parse_value;
use myshenyatko::settings::{SettingValue, ValueType};

#[test]
fn parse_float() {
    assert_eq!(
        parse_value("2.5", ValueType::Float).unwrap(),
        SettingValue::Float(250)
    );
}

#[test]
fn parse_bool_variants() {
    assert_eq!(
        parse_value("1", ValueType::Bool).unwrap(),
        SettingValue::Bool(true)
    );
    assert_eq!(
        parse_value("0", ValueType::Bool).unwrap(),
        SettingValue::Bool(false)
    );
    assert_eq!(
        parse_value("true", ValueType::Bool).unwrap(),
        SettingValue::Bool(true)
    );
}

#[test]
fn parse_int() {
    assert_eq!(
        parse_value("42", ValueType::Int).unwrap(),
        SettingValue::Int(42)
    );
}

#[test]
fn parse_string() {
    assert_eq!(
        parse_value("WhenScrolling", ValueType::Str).unwrap(),
        SettingValue::Str("WhenScrolling".to_string())
    );
}

#[test]
fn parse_more_bool_words() {
    assert_eq!(
        parse_value("yes", ValueType::Bool).unwrap(),
        SettingValue::Bool(true)
    );
    assert_eq!(
        parse_value("no", ValueType::Bool).unwrap(),
        SettingValue::Bool(false)
    );
    assert_eq!(
        parse_value("false", ValueType::Bool).unwrap(),
        SettingValue::Bool(false)
    );
}

#[test]
fn parse_negative_numbers() {
    assert_eq!(
        parse_value("-7", ValueType::Int).unwrap(),
        SettingValue::Int(-7)
    );
    assert_eq!(
        parse_value("-0.25", ValueType::Float).unwrap(),
        SettingValue::Float(-25)
    );
}

#[test]
fn parse_float_shapes() {
    assert_eq!(
        parse_value("3", ValueType::Float).unwrap(),
        SettingValue::Float(300)
    );
    assert_eq!(
        parse_value("0.1", ValueType::Float).unwrap(),
        SettingValue::Float(10)
    );
    assert_eq!(
        parse_value("1.75", ValueType::Float).unwrap(),
        SettingValue::Float(175)
    );
}

#[test]
fn parse_trailing_dot_reads_as_whole() {
    assert_eq!(
        parse_value("2.", ValueType::Float).unwrap(),
        SettingValue::Float(200)
    );
}

#[test]
fn parse_int_boundaries() {
    assert_eq!(
        parse_value("9223372036854775807", ValueType::Int).unwrap(),
        SettingValue::Int(i64::MAX)
    );
    assert_eq!(
        parse_value("-9223372036854775808", ValueType::Int).unwrap(),
        SettingValue::Int(i64::MIN)
    );
    assert!(parse_value("9223372036854775808", ValueType::Int).is_err());
}

#[test]
fn parse_rejects_bad_bool() {
    assert!(parse_value("maybe", ValueType::Bool).is_err());
}

#[test]
fn parse_rejects_bad_int() {
    assert!(parse_value("12a", ValueType::Int).is_err());
    assert!(parse_value("", ValueType::Int).is_err());
    assert!(parse_value("-", ValueType::Int).is_err());
}

#[test]
fn parse_rejects_bad_float() {
    assert!(parse_value(".5", ValueType::Float).is_err());
    assert!(parse_value("1..2", ValueType::Float).is_err());
    assert!(parse_value("x", ValueType::Float).is_err());
}
