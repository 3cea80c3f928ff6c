use edgevec::metadata::validation::{
    validate_key, validate_key_value, validate_value, MAX_KEYS_PER_VECTOR, MAX_KEY_LENGTH,
    MAX_STRING_ARRAY_LENGTH, MAX_STRING_VALUE_LENGTH,
};
use edgevec::metadata::{MetadataError, MetadataValue};

fn float_value(x: f64) -> MetadataValue {
    MetadataValue::Float(x.to_bits())
}

#[test]
fn test_validate_key_empty() {
    assert!(validate_key("").is_err());
    assert!(matches!(validate_key(""), Err(MetadataError::EmptyKey)));
}

#[test]
fn test_validate_key_too_long() {
    let long_key = "a".repeat(MAX_KEY_LENGTH + 1);
    assert!(validate_key(&long_key).is_err());
    assert!(matches!(
        validate_key(&long_key),
        Err(MetadataError::KeyTooLong { .. })
    ));
}

#[test]
fn test_validate_key_valid() {
    assert!(validate_key("my_key_123").is_ok());
    assert!(validate_key("a").is_ok());
    assert!(validate_key("_").is_ok());
    assert!(validate_key("CamelCase").is_ok());
    assert!(validate_key("snake_case").is_ok());
    assert!(validate_key("UPPER_CASE").is_ok());
}

#[test]
fn test_validate_key_max_length() {
    let max_key = "a".repeat(MAX_KEY_LENGTH);
    assert!(validate_key(&max_key).is_ok());
}

#[test]
fn test_validate_key_invalid_chars() {
    assert!(validate_key("bad-key").is_err());
    assert!(validate_key("with spaces").is_err());
    assert!(validate_key("with.dot").is_err());
    assert!(validate_key("key@symbol").is_err());
    assert!(validate_key("key/slash").is_err());
}

#[test]
fn test_validate_key_unicode_rejected() {
    // SECURITY: Unicode letters are rejected to prevent homoglyph attacks
    // Only ASCII alphanumeric + underscore allowed
    assert!(validate_key("日本語").is_err()); // Japanese - REJECTED
    assert!(validate_key("émoji").is_err()); // Accented chars - REJECTED
    assert!(validate_key("café").is_err()); // Latin with accent - REJECTED
    assert!(validate_key("usеr").is_err()); // Cyrillic 'е' homoglyph - REJECTED
}

#[test]
fn test_validate_key_null_byte_rejected() {
    // SECURITY: NULL bytes rejected to prevent C-string/IndexedDB issues
    assert!(validate_key("valid\0key").is_err());
    assert!(validate_key("\0").is_err());
    assert!(validate_key("key\0").is_err());
}

#[test]
fn test_validate_key_ascii_only() {
    // Only ASCII alphanumeric + underscore allowed
    assert!(validate_key("valid_key_123").is_ok());
    assert!(validate_key("UPPERCASE").is_ok());
    assert!(validate_key("lowercase").is_ok());
    assert!(validate_key("_leading_underscore").is_ok());
    assert!(validate_key("trailing_underscore_").is_ok());
    assert!(validate_key("__double__underscore__").is_ok());
}

#[test]
fn test_validate_value_nan() {
    let value = float_value(f64::NAN);
    assert!(validate_value(&value).is_err());
    assert!(matches!(
        validate_value(&value),
        Err(MetadataError::InvalidFloat {
            reason: "NaN not allowed"
        })
    ));
}

#[test]
fn test_validate_value_infinity() {
    let value = float_value(f64::INFINITY);
    assert!(validate_value(&value).is_err());
    assert!(matches!(
        validate_value(&value),
        Err(MetadataError::InvalidFloat {
            reason: "Infinity not allowed"
        })
    ));
}

#[test]
fn test_validate_value_neg_infinity() {
    let value = float_value(f64::NEG_INFINITY);
    assert!(validate_value(&value).is_err());
}

#[test]
fn test_validate_value_valid_float() {
    assert!(validate_value(&float_value(0.0)).is_ok());
    assert!(validate_value(&float_value(-1.5)).is_ok());
    assert!(validate_value(&float_value(f64::MAX)).is_ok());
    assert!(validate_value(&float_value(f64::MIN)).is_ok());
    assert!(validate_value(&float_value(f64::MIN_POSITIVE)).is_ok());
}

#[test]
fn test_validate_value_string_too_long() {
    let long_string = "a".repeat(MAX_STRING_VALUE_LENGTH + 1);
    let value = MetadataValue::String(long_string);
    assert!(validate_value(&value).is_err());
}

#[test]
fn test_validate_value_string_max_length() {
    let max_string = "a".repeat(MAX_STRING_VALUE_LENGTH);
    let value = MetadataValue::String(max_string);
    assert!(validate_value(&value).is_ok());
}

#[test]
fn test_validate_value_array_too_long() {
    let long_array = vec!["a".to_string(); MAX_STRING_ARRAY_LENGTH + 1];
    let value = MetadataValue::StringArray(long_array);
    assert!(validate_value(&value).is_err());
}

#[test]
fn test_validate_value_array_max_length() {
    let max_array = vec!["a".to_string(); MAX_STRING_ARRAY_LENGTH];
    let value = MetadataValue::StringArray(max_array);
    assert!(validate_value(&value).is_ok());
}

#[test]
fn test_validate_value_array_element_too_long() {
    let long_element = "a".repeat(MAX_STRING_VALUE_LENGTH + 1);
    let value = MetadataValue::StringArray(vec![long_element]);
    assert!(validate_value(&value).is_err());
}

#[test]
fn test_validate_value_integer_always_valid() {
    assert!(validate_value(&MetadataValue::Integer(0)).is_ok());
    assert!(validate_value(&MetadataValue::Integer(i64::MAX)).is_ok());
    assert!(validate_value(&MetadataValue::Integer(i64::MIN)).is_ok());
    assert!(validate_value(&MetadataValue::Integer(-1)).is_ok());
}

#[test]
fn test_validate_value_boolean_always_valid() {
    assert!(validate_value(&MetadataValue::Boolean(true)).is_ok());
    assert!(validate_value(&MetadataValue::Boolean(false)).is_ok());
}

#[test]
fn test_validate_key_value_both_valid() {
    assert!(validate_key_value("title", &MetadataValue::String("Hello".into())).is_ok());
    assert!(validate_key_value("count", &MetadataValue::Integer(42)).is_ok());
}

#[test]
fn test_validate_key_value_invalid_key() {
    assert!(validate_key_value("", &MetadataValue::String("Hello".into())).is_err());
}

#[test]
fn test_validate_key_value_invalid_value() {
    assert!(validate_key_value("score", &float_value(f64::NAN)).is_err());
}

#[test]
fn test_constants_have_reasonable_values() {
    // These tests document expected values
    assert_eq!(MAX_KEYS_PER_VECTOR, 64);
    assert_eq!(MAX_KEY_LENGTH, 256);
    assert_eq!(MAX_STRING_VALUE_LENGTH, 65_536);
    assert_eq!(MAX_STRING_ARRAY_LENGTH, 1_024);
}
#[test]
fn test_error_equality() {
    let e1 = MetadataError::EmptyKey;
    let e2 = MetadataError::EmptyKey;
    assert_eq!(e1, e2);

    let e3 = MetadataError::KeyTooLong {
        length: 100,
        max: 50,
    };
    let e4 = MetadataError::KeyTooLong {
        length: 100,
        max: 50,
    };
    assert_eq!(e3, e4);
}

#[test]
fn test_error_clone() {
    let error = MetadataError::InvalidKeyFormat {
        key: "test".to_string(),
    };
    let cloned = error.clone();
    assert_eq!(error, cloned);
}

#[test]
fn test_validate_key_error_details() {
    assert_eq!(
        validate_key(&"a".repeat(300)),
        Err(MetadataError::KeyTooLong { length: 300, max: 256 })
    );
    assert_eq!(
        validate_key("a\0b"),
        Err(MetadataError::InvalidKeyFormat { key: "a\\0b".to_string() })
    );
    assert_eq!(
        validate_key("bad-key"),
        Err(MetadataError::InvalidKeyFormat { key: "bad-key".to_string() })
    );
    assert_eq!(
        validate_key("caf\u{e9}"),
        Err(MetadataError::InvalidKeyFormat { key: "caf\u{e9}".to_string() })
    );
}

#[test]
fn test_validate_value_error_details() {
    assert_eq!(
        validate_value(&MetadataValue::String("a".repeat(MAX_STRING_VALUE_LENGTH + 1))),
        Err(MetadataError::StringValueTooLong { length: 65537, max: 65536 })
    );
    assert_eq!(
        validate_value(&MetadataValue::StringArray(vec!["x".to_string(); 1025])),
        Err(MetadataError::ArrayTooLong { length: 1025, max: 1024 })
    );
    assert_eq!(
        validate_value(&MetadataValue::StringArray(vec![
            "ok".to_string(),
            "b".repeat(70000)
        ])),
        Err(MetadataError::StringValueTooLong { length: 70000, max: 65536 })
    );
    assert_eq!(
        validate_value(&float_value(f64::NEG_INFINITY)),
        Err(MetadataError::InvalidFloat { reason: "Infinity not allowed" })
    );
}
