//! Metadata values.
//!
//! Floating-point values are held as IEEE-754 double-precision bit patterns;
//! equality on them follows floating-point comparison (NaN equals nothing,
//! `0.0` equals `-0.0`).

use vstd::prelude::*;
use vstd::std_specs::cmp::PartialEqSpecImpl;
use vstd::std_specs::convert::FromSpecImpl;

verus! {

/// Whether the double with bit pattern `b` is NaN.
pub open spec fn is_nan64(b: u64) -> bool {
    b & 0x7FF0_0000_0000_0000u64 == 0x7FF0_0000_0000_0000u64 && b & 0x000F_FFFF_FFFF_FFFFu64 != 0
}

/// Whether the double with bit pattern `b` is an infinity.
pub open spec fn is_infinite64(b: u64) -> bool {
    b & 0x7FFF_FFFF_FFFF_FFFFu64 == 0x7FF0_0000_0000_0000u64
}

/// Floating-point equality of two doubles given by their bit patterns.
pub open spec fn f64_bits_eq(a: u64, b: u64) -> bool {
    !is_nan64(a) && !is_nan64(b) && (a == b || (a & 0x7FFF_FFFF_FFFF_FFFFu64 == 0
        && b & 0x7FFF_FFFF_FFFF_FFFFu64 == 0))
}

/// Whether the double with bit pattern `b` is NaN.
pub fn f64_is_nan(b: u64) -> (r: bool)
    ensures
        r == is_nan64(b),
{
    b & 0x7FF0_0000_0000_0000u64 == 0x7FF0_0000_0000_0000u64 && b & 0x000F_FFFF_FFFF_FFFFu64 != 0
}

/// Whether the double with bit pattern `b` is an infinity.
pub fn f64_is_infinite(b: u64) -> (r: bool)
    ensures
        r == is_infinite64(b),
{
    b & 0x7FFF_FFFF_FFFF_FFFFu64 == 0x7FF0_0000_0000_0000u64
}

/// A metadata value.
#[derive(Debug)]
pub enum MetadataValue {
    /// A UTF-8 string.
    String(String),
    /// A signed 64-bit integer.
    Integer(i64),
    /// A double, as its IEEE-754 bit pattern.
    Float(u64),
    /// A boolean.
    Boolean(bool),
    /// An array of strings.
    StringArray(Vec<String>),
}

/// The mathematical content of a metadata value.
pub enum ValueView {
    /// A string's characters.
    Str(Seq<char>),
    /// An integer.
    Integer(i64),
    /// A double's bit pattern.
    Float(u64),
    /// A boolean.
    Boolean(bool),
    /// The characters of each string of an array.
    StrArray(Seq<Seq<char>>),
}

/// The characters of each string.
pub open spec fn string_views(a: Seq<String>) -> Seq<Seq<char>> {
    a.map_values(|s: String| s@)
}

impl View for MetadataValue {
    type V = ValueView;

    open spec fn view(&self) -> ValueView {
        match *self {
            MetadataValue::String(s) => ValueView::Str(s@),
            MetadataValue::Integer(i) => ValueView::Integer(i),
            MetadataValue::Float(f) => ValueView::Float(f),
            MetadataValue::Boolean(b) => ValueView::Boolean(b),
            MetadataValue::StringArray(a) => ValueView::StrArray(string_views(a@)),
        }
    }
}

/// Equality of metadata values (floats compare as floating-point numbers).
pub open spec fn view_eq(a: ValueView, b: ValueView) -> bool {
    match (a, b) {
        (ValueView::Str(x), ValueView::Str(y)) => x == y,
        (ValueView::Integer(x), ValueView::Integer(y)) => x == y,
        (ValueView::Float(x), ValueView::Float(y)) => f64_bits_eq(x, y),
        (ValueView::Boolean(x), ValueView::Boolean(y)) => x == y,
        (ValueView::StrArray(x), ValueView::StrArray(y)) => x == y,
        _ => false,
    }
}

/// Equality of metadata values.
pub open spec fn value_eq(a: MetadataValue, b: MetadataValue) -> bool {
    view_eq(a@, b@)
}

fn f64_equal(a: u64, b: u64) -> (r: bool)
    ensures
        r == f64_bits_eq(a, b),
{
    !f64_is_nan(a) && !f64_is_nan(b) && (a == b || (a & 0x7FFF_FFFF_FFFF_FFFFu64 == 0 && b
        & 0x7FFF_FFFF_FFFF_FFFFu64 == 0))
}

fn string_arrays_equal(a: &Vec<String>, b: &Vec<String>) -> (r: bool)
    ensures
        r == (string_views(a@) == string_views(b@)),
{
    if a.len() != b.len() {
        return false;
    }
    let n = a.len();
    let mut i: usize = 0;
    while i < n
        invariant
            i <= n,
            n == a@.len(),
            n == b@.len(),
            forall|k: int| 0 <= k < i ==> #[trigger] a@[k]@ == b@[k]@,
        decreases n - i,
    {
        if a[i] != b[i] {
            assert(string_views(a@)[i as int] != string_views(b@)[i as int]);
            return false;
        }
        i = i + 1;
    }
    assert(string_views(a@) =~= string_views(b@));
    true
}

/// A copy of a string array.
fn copy_strings(a: &Vec<String>) -> (r: Vec<String>)
    ensures
        string_views(r@) == string_views(a@),
{
    let n = a.len();
    let mut r: Vec<String> = Vec::new();
    let mut i: usize = 0;
    while i < n
        invariant
            i <= n,
            n == a@.len(),
            r@.len() == i,
            forall|k: int| 0 <= k < i ==> #[trigger] r@[k]@ == a@[k]@,
        decreases n - i,
    {
        r.push(a[i].clone());
        i = i + 1;
    }
    assert(string_views(r@) =~= string_views(a@));
    r
}

impl Clone for MetadataValue {
    fn clone(&self) -> (r: Self)
        ensures
            r@ == self@,
    {
        match self {
            MetadataValue::String(s) => MetadataValue::String(s.clone()),
            MetadataValue::Integer(i) => MetadataValue::Integer(*i),
            MetadataValue::Float(f) => MetadataValue::Float(*f),
            MetadataValue::Boolean(b) => MetadataValue::Boolean(*b),
            MetadataValue::StringArray(a) => MetadataValue::StringArray(copy_strings(a)),
        }
    }
}

impl PartialEq for MetadataValue {
    fn eq(&self, other: &Self) -> (r: bool) {
        match (self, other) {
            (MetadataValue::String(x), MetadataValue::String(y)) => *x == *y,
            (MetadataValue::Integer(x), MetadataValue::Integer(y)) => *x == *y,
            (MetadataValue::Float(x), MetadataValue::Float(y)) => f64_equal(*x, *y),
            (MetadataValue::Boolean(x), MetadataValue::Boolean(y)) => *x == *y,
            (MetadataValue::StringArray(x), MetadataValue::StringArray(y)) => string_arrays_equal(
                x,
                y,
            ),
            _ => false,
        }
    }
}

impl PartialEqSpecImpl for MetadataValue {
    open spec fn obeys_eq_spec() -> bool {
        true
    }

    open spec fn eq_spec(&self, other: &Self) -> bool {
        value_eq(*self, *other)
    }
}

impl MetadataValue {
    /// The name of the value's type.
    pub fn type_label(&self) -> (s: &'static str)
        ensures
            s@ == (match *self {
                MetadataValue::String(_) => "string"@,
                MetadataValue::Integer(_) => "integer"@,
                MetadataValue::Float(_) => "float"@,
                MetadataValue::Boolean(_) => "boolean"@,
                MetadataValue::StringArray(_) => "string_array"@,
            }),
    {
        match self {
            MetadataValue::String(_) => "string",
            MetadataValue::Integer(_) => "integer",
            MetadataValue::Float(_) => "float",
            MetadataValue::Boolean(_) => "boolean",
            MetadataValue::StringArray(_) => "string_array",
        }
    }

    /// Whether the value is a string.
    pub fn is_string(&self) -> (r: bool)
        ensures
            r == (*self is String),
    {
        matches!(self, MetadataValue::String(_))
    }

    /// Whether the value is an integer.
    pub fn is_integer(&self) -> (r: bool)
        ensures
            r == (*self is Integer),
    {
        matches!(self, MetadataValue::Integer(_))
    }

    /// Whether the value is a float.
    pub fn is_float(&self) -> (r: bool)
        ensures
            r == (*self is Float),
    {
        matches!(self, MetadataValue::Float(_))
    }

    /// Whether the value is a boolean.
    pub fn is_boolean(&self) -> (r: bool)
        ensures
            r == (*self is Boolean),
    {
        matches!(self, MetadataValue::Boolean(_))
    }

    /// Whether the value is a string array.
    pub fn is_string_array(&self) -> (r: bool)
        ensures
            r == (*self is StringArray),
    {
        matches!(self, MetadataValue::StringArray(_))
    }

    /// The string, if the value is one.
    pub fn as_string(&self) -> (r: Option<&str>)
        ensures
            match *self {
                MetadataValue::String(s) => r matches Some(t) && t@ == s@,
                _ => r is None,
            },
    {
        match self {
            MetadataValue::String(s) => Some(s.as_str()),
            _ => None,
        }
    }

    /// The integer, if the value is one.
    pub fn as_integer(&self) -> (r: Option<i64>)
        ensures
            match *self {
                MetadataValue::Integer(i) => r == Some(i),
                _ => r is None,
            },
    {
        match self {
            MetadataValue::Integer(i) => Some(*i),
            _ => None,
        }
    }

    /// The bit pattern of the float, if the value is one.
    pub fn as_float(&self) -> (r: Option<u64>)
        ensures
            match *self {
                MetadataValue::Float(f) => r == Some(f),
                _ => r is None,
            },
    {
        match self {
            MetadataValue::Float(f) => Some(*f),
            _ => None,
        }
    }

    /// The boolean, if the value is one.
    pub fn as_boolean(&self) -> (r: Option<bool>)
        ensures
            match *self {
                MetadataValue::Boolean(b) => r == Some(b),
                _ => r is None,
            },
    {
        match self {
            MetadataValue::Boolean(b) => Some(*b),
            _ => None,
        }
    }

    /// The strings, if the value is a string array.
    pub fn as_string_array(&self) -> (r: Option<&[String]>)
        ensures
            match *self {
                MetadataValue::StringArray(a) => r matches Some(t) && t@ == a@,
                _ => r is None,
            },
    {
        match self {
            MetadataValue::StringArray(a) => Some(a.as_slice()),
            _ => None,
        }
    }
}

impl From<String> for MetadataValue {
    fn from(s: String) -> (v: Self) {
        MetadataValue::String(s)
    }
}

impl FromSpecImpl<String> for MetadataValue {
    open spec fn obeys_from_spec() -> bool {
        true
    }

    open spec fn from_spec(s: String) -> Self {
        MetadataValue::String(s)
    }
}

/// Whether `v` is a string value with the characters `s`.
pub open spec fn is_string_of(v: MetadataValue, s: Seq<char>) -> bool {
    v matches MetadataValue::String(t) && t@ == s
}

impl From<&str> for MetadataValue {
    fn from(s: &str) -> (v: Self)
        ensures
            is_string_of(v, s@),
    {
        MetadataValue::String(s.to_string())
    }
}

impl FromSpecImpl<&str> for MetadataValue {
    open spec fn obeys_from_spec() -> bool {
        false
    }

    open spec fn from_spec(s: &str) -> Self {
        choose|v: MetadataValue| #[trigger] is_string_of(v, s@)
    }
}

impl From<i64> for MetadataValue {
    fn from(i: i64) -> (v: Self) {
        MetadataValue::Integer(i)
    }
}

impl FromSpecImpl<i64> for MetadataValue {
    open spec fn obeys_from_spec() -> bool {
        true
    }

    open spec fn from_spec(i: i64) -> Self {
        MetadataValue::Integer(i)
    }
}

impl From<i32> for MetadataValue {
    fn from(i: i32) -> (v: Self) {
        MetadataValue::Integer(i as i64)
    }
}

impl FromSpecImpl<i32> for MetadataValue {
    open spec fn obeys_from_spec() -> bool {
        true
    }

    open spec fn from_spec(i: i32) -> Self {
        MetadataValue::Integer(i as i64)
    }
}

impl From<bool> for MetadataValue {
    fn from(b: bool) -> (v: Self) {
        MetadataValue::Boolean(b)
    }
}

impl FromSpecImpl<bool> for MetadataValue {
    open spec fn obeys_from_spec() -> bool {
        true
    }

    open spec fn from_spec(b: bool) -> Self {
        MetadataValue::Boolean(b)
    }
}

impl From<Vec<String>> for MetadataValue {
    fn from(a: Vec<String>) -> (v: Self) {
        MetadataValue::StringArray(a)
    }
}

impl FromSpecImpl<Vec<String>> for MetadataValue {
    open spec fn obeys_from_spec() -> bool {
        true
    }

    open spec fn from_spec(a: Vec<String>) -> Self {
        MetadataValue::StringArray(a)
    }
}

} // verus!
