//! Validation rules for metadata keys and values.
//!
//! A key is 1 to 256 bytes of ASCII letters, digits and underscores. A string
//! value holds at most 64 KiB; a string array at most 1024 strings of at most
//! 64 KiB each; a float is neither NaN nor infinite.

use super::error::MetadataError;
use super::types::{f64_is_infinite, f64_is_nan, is_infinite64, is_nan64, MetadataValue};
use vstd::prelude::*;
use vstd::utf8::encode_utf8;

verus! {

/// Maximum number of keys per vector.
pub const MAX_KEYS_PER_VECTOR: usize = 64;

/// Maximum key length in bytes.
pub const MAX_KEY_LENGTH: usize = 256;

/// Maximum string value length in bytes.
pub const MAX_STRING_VALUE_LENGTH: usize = 65536;

/// Maximum number of elements of a string array.
pub const MAX_STRING_ARRAY_LENGTH: usize = 1024;

/// The UTF-8 length of a string in bytes.
pub open spec fn byte_len(s: Seq<char>) -> nat {
    encode_utf8(s).len()
}

/// Whether a byte is an ASCII letter, an ASCII digit or `_`.
pub open spec fn is_key_byte(b: u8) -> bool {
    (0x30 <= b <= 0x39) || (0x41 <= b <= 0x5A) || (0x61 <= b <= 0x7A) || b == 0x5F
}

/// The key with each NUL character written as the two characters `\0`.
pub open spec fn escape_nul(s: Seq<char>) -> Seq<char>
    decreases s.len(),
{
    if s.len() == 0 {
        Seq::empty()
    } else {
        escape_nul(s.drop_last()) + if s.last() == '\0' {
            seq!['\\', '0']
        } else {
            seq![s.last()]
        }
    }
}

/// The outcome of validating the key `k` (its characters).
pub open spec fn spec_validate_key(k: Seq<char>) -> Result<(), MetadataError> {
    let bytes = encode_utf8(k);
    if k.len() == 0 {
        Err(MetadataError::EmptyKey)
    } else if bytes.len() > MAX_KEY_LENGTH {
        Err(MetadataError::KeyTooLong { length: bytes.len() as usize, max: MAX_KEY_LENGTH })
    } else if k.contains('\0') || !vstd::utf8::is_ascii_chars(k) || !(forall|i: int|
        0 <= i < bytes.len() ==> #[trigger] is_key_byte(bytes[i])) {
        Err(MetadataError::InvalidKeyFormat { key: arbitrary() })
    } else {
        Ok(())
    }
}

/// The key text reported when a key is refused for its characters.
pub open spec fn refused_key_text(k: Seq<char>) -> Seq<char> {
    if k.contains('\0') {
        escape_nul(k)
    } else {
        k
    }
}

/// Whether `r` is what validating the key `k` gives.
pub open spec fn key_result(k: Seq<char>, r: Result<(), MetadataError>) -> bool {
    match spec_validate_key(k) {
        Ok(()) => r is Ok,
        Err(MetadataError::InvalidKeyFormat { .. }) => r matches Err(
            MetadataError::InvalidKeyFormat { key: text },
        ) && text@ == refused_key_text(k),
        Err(e) => r == Err::<(), MetadataError>(e),
    }
}

/// Whether a key is valid.
pub open spec fn valid_key(k: Seq<char>) -> bool {
    spec_validate_key(k) is Ok
}

/// Validates a key: not empty, at most 256 bytes, only ASCII letters, digits
/// and underscores (a NUL character is reported as `\0`).
pub fn validate_key(key: &str) -> (r: Result<(), MetadataError>)
    ensures
        key_result(key@, r),
{
    if key.is_empty() {
        return Err(MetadataError::EmptyKey);
    }
    let bytes = key.as_bytes();
    let len = bytes.len();
    if len > MAX_KEY_LENGTH {
        return Err(MetadataError::KeyTooLong { length: len, max: MAX_KEY_LENGTH });
    }
    if str_contains_nul(key) {
        return Err(MetadataError::InvalidKeyFormat { key: str_escape_nul(key) });
    }
    if !key.is_ascii() {
        return Err(MetadataError::InvalidKeyFormat { key: key.to_owned() });
    }
    let n = len;
    let mut i: usize = 0;
    while i < n
        invariant
            i <= n,
            n == bytes@.len(),
            bytes@ == encode_utf8(key@),
            key@.len() != 0,
            n <= MAX_KEY_LENGTH,
            !key@.contains('\0'),
            vstd::utf8::is_ascii_chars(key@),
            forall|j: int| 0 <= j < i ==> #[trigger] is_key_byte(bytes@[j]),
        decreases n - i,
    {
        let b = bytes[i];
        if !((0x30 <= b && b <= 0x39) || (0x41 <= b && b <= 0x5A) || (0x61 <= b && b <= 0x7A) || b
            == 0x5F) {
            assert(!is_key_byte(bytes@[i as int]));
            return Err(MetadataError::InvalidKeyFormat { key: key.to_owned() });
        }
        i = i + 1;
    }
    Ok(())
}

/// Whether the string holds a NUL character (`str::contains` with a `char`
/// pattern).
#[verifier::external_body]
fn str_contains_nul(s: &str) -> (r: bool)
    ensures
        r == s@.contains('\0'),
{
    s.contains('\0')
}

/// The string with each NUL character replaced by `\0` (`str::replace`).
#[verifier::external_body]
fn str_escape_nul(s: &str) -> (r: String)
    ensures
        r@ == escape_nul(s@),
{
    s.replace('\0', "\\0")
}

/// The first string of the array that is too long, or the array's length.
pub open spec fn first_long_string(a: Seq<String>, start: int) -> int
    decreases a.len() - start,
{
    if start >= a.len() {
        a.len() as int
    } else if byte_len(a[start]@) > MAX_STRING_VALUE_LENGTH {
        start
    } else {
        first_long_string(a, start + 1)
    }
}

/// The outcome of validating a value.
pub open spec fn spec_validate_value(v: MetadataValue) -> Result<(), MetadataError> {
    match v {
        MetadataValue::String(s) => if byte_len(s@) > MAX_STRING_VALUE_LENGTH {
            Err(
                MetadataError::StringValueTooLong {
                    length: byte_len(s@) as usize,
                    max: MAX_STRING_VALUE_LENGTH,
                },
            )
        } else {
            Ok(())
        },
        MetadataValue::StringArray(a) => if a@.len() > MAX_STRING_ARRAY_LENGTH {
            Err(
                MetadataError::ArrayTooLong {
                    length: a@.len() as usize,
                    max: MAX_STRING_ARRAY_LENGTH,
                },
            )
        } else {
            let i = first_long_string(a@, 0);
            if i < a@.len() {
                Err(
                    MetadataError::StringValueTooLong {
                        length: byte_len(a@[i]@) as usize,
                        max: MAX_STRING_VALUE_LENGTH,
                    },
                )
            } else {
                Ok(())
            }
        },
        MetadataValue::Float(f) => if is_nan64(f) {
            Err(MetadataError::InvalidFloat { reason: "NaN not allowed" })
        } else if is_infinite64(f) {
            Err(MetadataError::InvalidFloat { reason: "Infinity not allowed" })
        } else {
            Ok(())
        },
        _ => Ok(()),
    }
}

/// Whether `r` is what validating the value `v` gives.
pub open spec fn value_result(v: MetadataValue, r: Result<(), MetadataError>) -> bool {
    match spec_validate_value(v) {
        Err(MetadataError::InvalidFloat { reason }) => r matches Err(
            MetadataError::InvalidFloat { reason: q },
        ) && q@ == reason@,
        other => r == other,
    }
}

/// Whether a value is valid.
pub open spec fn valid_value(v: MetadataValue) -> bool {
    spec_validate_value(v) is Ok
}

/// Validates a value: strings of at most 64 KiB, arrays of at most 1024 such
/// strings, floats that are neither NaN nor infinite.
pub fn validate_value(value: &MetadataValue) -> (r: Result<(), MetadataError>)
    ensures
        value_result(*value, r),
{
    match value {
        MetadataValue::String(s) => {
            let len = s.as_str().as_bytes().len();
            if len > MAX_STRING_VALUE_LENGTH {
                return Err(
                    MetadataError::StringValueTooLong { length: len, max: MAX_STRING_VALUE_LENGTH },
                );
            }
            Ok(())
        },
        MetadataValue::StringArray(a) => {
            let n = a.len();
            if n > MAX_STRING_ARRAY_LENGTH {
                return Err(MetadataError::ArrayTooLong { length: n, max: MAX_STRING_ARRAY_LENGTH });
            }
            let mut i: usize = 0;
            while i < n
                invariant
                    i <= n,
                    n == a@.len(),
                    n <= MAX_STRING_ARRAY_LENGTH,
                    *value == MetadataValue::StringArray(*a),
                    first_long_string(a@, 0) == first_long_string(a@, i as int),
                decreases n - i,
            {
                let len = a[i].as_str().as_bytes().len();
                if len > MAX_STRING_VALUE_LENGTH {
                    assert(byte_len(a@[i as int]@) == len);
                    assert(first_long_string(a@, i as int) == i as int);
                    let r = Err(
                        MetadataError::StringValueTooLong {
                            length: len,
                            max: MAX_STRING_VALUE_LENGTH,
                        },
                    );
                    return r;
                }
                i = i + 1;
            }
            Ok(())
        },
        MetadataValue::Float(f) => {
            if f64_is_nan(*f) {
                return Err(MetadataError::InvalidFloat { reason: "NaN not allowed" });
            }
            if f64_is_infinite(*f) {
                return Err(MetadataError::InvalidFloat { reason: "Infinity not allowed" });
            }
            Ok(())
        },
        _ => Ok(()),
    }
}

/// Validates a key, then a value.
pub fn validate_key_value(key: &str, value: &MetadataValue) -> (r: Result<(), MetadataError>)
    ensures
        !valid_key(key@) ==> key_result(key@, r),
        valid_key(key@) ==> value_result(*value, r),
{
    match validate_key(key) {
        Err(e) => Err(e),
        Ok(()) => validate_value(value),
    }
}

proof fn lemma_ascii_char_byte(c: char)
    requires
        '\0' <= c <= '\u{7f}',
    ensures
        (c as u8) as int == c as int,
{
    let v = c as u32;
    assert(v <= 0x7f ==> (v as u8) as u32 == v) by (bit_vector);
    assert((c as u8) == (v as u8));
}

/// A key is accepted exactly when it has 1 to 256 characters, each an ASCII
/// digit, an ASCII letter or an underscore.
pub proof fn lemma_valid_key_chars(k: Seq<char>)
    ensures
        valid_key(k) <==> (0 < k.len() <= 256 && forall|i: int|
            0 <= i < k.len() ==> ('0' <= #[trigger] k[i] <= '9' || 'A' <= k[i] <= 'Z' || 'a' <= k[i]
                <= 'z' || k[i] == '_')),
{
    let bytes = encode_utf8(k);
    if valid_key(k) {
        vstd::utf8::is_ascii_chars_encode_utf8(k);
        assert forall|i: int| 0 <= i < k.len() implies ('0' <= #[trigger] k[i] <= '9' || 'A' <= k[i]
            <= 'Z' || 'a' <= k[i] <= 'z' || k[i] == '_') by {
            assert('\0' <= k[i] <= '\u{7f}');
            lemma_ascii_char_byte(k[i]);
            assert(is_key_byte(bytes[i]));
            assert(k[i] as u8 == bytes[i]);
        }
    }
    if 0 < k.len() <= 256 && forall|i: int|
        0 <= i < k.len() ==> ('0' <= #[trigger] k[i] <= '9' || 'A' <= k[i] <= 'Z' || 'a' <= k[i]
            <= 'z' || k[i] == '_') {
        assert(vstd::utf8::is_ascii_chars(k)) by {
            assert forall|i: int| 0 <= i < k.len() implies '\0' <= #[trigger] k[i] <= '\u{7f}' by {
                assert('0' <= k[i] <= '9' || 'A' <= k[i] <= 'Z' || 'a' <= k[i] <= 'z' || k[i] == '_');
            }
        }
        vstd::utf8::is_ascii_chars_encode_utf8(k);
        assert(!k.contains('\0')) by {
            if k.contains('\0') {
                let i = choose|i: int| 0 <= i < k.len() && k[i] == '\0';
                assert('0' <= k[i] <= '9' || 'A' <= k[i] <= 'Z' || 'a' <= k[i] <= 'z' || k[i] == '_');
            }
        }
        assert forall|i: int| 0 <= i < bytes.len() implies #[trigger] is_key_byte(bytes[i]) by {
            assert('0' <= k[i] <= '9' || 'A' <= k[i] <= 'Z' || 'a' <= k[i] <= 'z' || k[i] == '_');
            lemma_ascii_char_byte(k[i]);
            assert(k[i] as u8 == bytes[i]);
        }
    }
}

} // verus!
