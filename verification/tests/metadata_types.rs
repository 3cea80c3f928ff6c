use edgevec::metadata::MetadataValue;

fn float_value(x: f64) -> MetadataValue {
    MetadataValue::Float(x.to_bits())
}

#[test]
fn test_is_string() {
    assert!(MetadataValue::String("test".into()).is_string());
    assert!(!MetadataValue::Integer(42).is_string());
    assert!(!float_value(2.5).is_string());
    assert!(!MetadataValue::Boolean(true).is_string());
    assert!(!MetadataValue::StringArray(vec![]).is_string());
}

#[test]
fn test_is_integer() {
    assert!(!MetadataValue::String("test".into()).is_integer());
    assert!(MetadataValue::Integer(42).is_integer());
    assert!(!float_value(2.5).is_integer());
    assert!(!MetadataValue::Boolean(true).is_integer());
    assert!(!MetadataValue::StringArray(vec![]).is_integer());
}

#[test]
fn test_is_float() {
    assert!(!MetadataValue::String("test".into()).is_float());
    assert!(!MetadataValue::Integer(42).is_float());
    assert!(float_value(2.5).is_float());
    assert!(!MetadataValue::Boolean(true).is_float());
    assert!(!MetadataValue::StringArray(vec![]).is_float());
}

#[test]
fn test_is_boolean() {
    assert!(!MetadataValue::String("test".into()).is_boolean());
    assert!(!MetadataValue::Integer(42).is_boolean());
    assert!(!float_value(2.5).is_boolean());
    assert!(MetadataValue::Boolean(true).is_boolean());
    assert!(!MetadataValue::StringArray(vec![]).is_boolean());
}

#[test]
fn test_is_string_array() {
    assert!(!MetadataValue::String("test".into()).is_string_array());
    assert!(!MetadataValue::Integer(42).is_string_array());
    assert!(!float_value(2.5).is_string_array());
    assert!(!MetadataValue::Boolean(true).is_string_array());
    assert!(MetadataValue::StringArray(vec![]).is_string_array());
}

#[test]
fn test_as_string() {
    assert_eq!(
        MetadataValue::String("hello".into()).as_string(),
        Some("hello")
    );
    assert_eq!(MetadataValue::Integer(42).as_string(), None);
}

#[test]
fn test_as_integer() {
    assert_eq!(MetadataValue::Integer(42).as_integer(), Some(42));
    assert_eq!(MetadataValue::String("42".into()).as_integer(), None);
}

#[test]
fn test_as_float() {
    assert_eq!(float_value(2.5).as_float(), Some(2.5f64.to_bits()));
    assert_eq!(MetadataValue::Integer(3).as_float(), None);
}

#[test]
fn test_as_boolean() {
    assert_eq!(MetadataValue::Boolean(true).as_boolean(), Some(true));
    assert_eq!(MetadataValue::Integer(1).as_boolean(), None);
}

#[test]
fn test_as_string_array() {
    let arr = vec!["a".to_string(), "b".to_string()];
    let value = MetadataValue::StringArray(arr.clone());
    assert_eq!(value.as_string_array(), Some(&arr[..]));
    assert_eq!(MetadataValue::String("[]".into()).as_string_array(), None);
}

#[test]
fn test_type_name() {
    assert_eq!(MetadataValue::String(String::new()).type_label(), "string");
    assert_eq!(MetadataValue::Integer(0).type_label(), "integer");
    assert_eq!(float_value(0.0).type_label(), "float");
    assert_eq!(MetadataValue::Boolean(false).type_label(), "boolean");
    assert_eq!(
        MetadataValue::StringArray(vec![]).type_label(),
        "string_array"
    );
}

#[test]
fn test_from_string() {
    let value: MetadataValue = String::from("test").into();
    assert_eq!(value, MetadataValue::String("test".into()));
}

#[test]
fn test_from_i64() {
    let value: MetadataValue = 42i64.into();
    assert_eq!(value, MetadataValue::Integer(42));
}

#[test]
fn test_from_i32() {
    let value: MetadataValue = 42i32.into();
    assert_eq!(value, MetadataValue::Integer(42));
}

#[test]
fn test_from_bool() {
    let value: MetadataValue = true.into();
    assert_eq!(value, MetadataValue::Boolean(true));
}

#[test]
fn test_from_vec_string() {
    let value: MetadataValue = vec!["a".to_string(), "b".to_string()].into();
    assert_eq!(
        value,
        MetadataValue::StringArray(vec!["a".into(), "b".into()])
    );
}

#[test]
fn types_test_clone() {
    let original = MetadataValue::StringArray(vec!["a".into(), "b".into()]);
    let cloned = original.clone();
    assert_eq!(original, cloned);
}

#[test]
fn test_float_equality_follows_floating_point() {
    assert_eq!(float_value(0.0), float_value(-0.0));
    assert_ne!(float_value(f64::NAN), float_value(f64::NAN));
    assert_eq!(float_value(1.5), float_value(1.5));
    assert_ne!(float_value(1.5), MetadataValue::Integer(1));
}

#[test]
fn test_string_array_equality() {
    let a = MetadataValue::StringArray(vec!["x".to_string(), "y".to_string()]);
    let b = MetadataValue::StringArray(vec!["x".to_string(), "y".to_string()]);
    let c = MetadataValue::StringArray(vec!["x".to_string()]);
    assert_eq!(a, b);
    assert_ne!(a, c);
}

#[test]
fn test_empty_string_value() {
    let value = MetadataValue::String(String::new());
    assert_eq!(value.as_string(), Some(""));
    let arr = MetadataValue::StringArray(vec![]);
    assert!(arr.as_string_array().unwrap().is_empty());
}
