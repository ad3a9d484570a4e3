//! Cell-level comparison behaviour.

use datadiff::cell_diff::CellComparator;
use datadiff::value::CellValue;
use datadiff::value::FloatVal;

fn float_cell(x: f64) -> CellValue {
    CellValue::Float(FloatVal::new(x.to_bits(), x.to_string()))
}

#[test]
fn test_exact_equality() {
    let comparator = CellComparator::default();

    assert!(comparator.equal(&CellValue::Int(42), &CellValue::Int(42)));
    assert!(!comparator.equal(&CellValue::Int(42), &CellValue::Int(43)));

    assert!(comparator.equal(
        &CellValue::Text("hello".to_string()),
        &CellValue::Text("hello".to_string())
    ));
}

#[test]
fn test_case_insensitive() {
    let comparator = CellComparator::new(true, false, None);

    assert!(comparator.equal(
        &CellValue::Text("Hello".to_string()),
        &CellValue::Text("hello".to_string())
    ));
}

#[test]
fn test_numeric_tolerance() {
    let comparator = CellComparator::new(false, false, Some(0.01f64.to_bits()));

    assert!(comparator.equal(&float_cell(1.0), &float_cell(1.005)));
    assert!(!comparator.equal(&float_cell(1.0), &float_cell(1.02)));
}

#[test]
fn case_sensitive_by_default() {
    let comparator = CellComparator::default();
    assert!(!comparator.equal(
        &CellValue::Text("Hello".to_string()),
        &CellValue::Text("hello".to_string())
    ));
}

#[test]
fn whitespace_insensitive() {
    let strict = CellComparator::default();
    let relaxed = CellComparator::new(false, true, None);
    let a = CellValue::Text("  hello ".to_string());
    let b = CellValue::Text("hello".to_string());
    assert!(!strict.equal(&a, &b));
    assert!(relaxed.equal(&a, &b));
}

#[test]
fn tolerance_covers_integers() {
    let comparator = CellComparator::new(false, false, Some(2.5f64.to_bits()));
    assert!(comparator.equal(&CellValue::Int(100), &CellValue::Int(102)));
    assert!(!comparator.equal(&CellValue::Int(100), &CellValue::Int(103)));
    assert!(comparator.equal(&CellValue::Int(1), &float_cell(3.5)));
    assert!(!comparator.equal(&CellValue::Int(1), &float_cell(3.51)));
}

#[test]
fn nan_equals_nan_exactly() {
    let comparator = CellComparator::default();
    assert!(comparator.equal(&float_cell(f64::NAN), &float_cell(f64::NAN)));
    assert!(!comparator.equal(&float_cell(f64::NAN), &float_cell(0.0)));
}

#[test]
fn int_equals_equal_float() {
    let comparator = CellComparator::default();
    assert!(comparator.equal(&CellValue::Int(7), &float_cell(7.0)));
    assert!(!comparator.equal(&CellValue::Int(7), &float_cell(7.5)));
    assert!(comparator.equal(&float_cell(-3.0), &CellValue::Int(-3)));
}

#[test]
fn large_integer_equals_its_converted_double() {
    // 2^53 + 1 casts to exactly 2^53 (a tie, rounded to the even mantissa),
    // so the pair compares equal, as comparing i as f64 with the float would
    let comparator = CellComparator::default();
    assert_eq!((9007199254740993i64 as f64).to_bits(), 9007199254740992.0f64.to_bits());
    assert!(comparator.equal(&CellValue::Int(9007199254740993), &float_cell(9007199254740992.0)));
    assert!(CellValue::Int(9007199254740993) == float_cell(9007199254740992.0));
    // 2^53 + 3 ties upward to 2^53 + 4, whose mantissa is even
    assert_eq!((9007199254740995i64 as f64).to_bits(), 9007199254740996.0f64.to_bits());
    assert!(comparator.equal(&CellValue::Int(9007199254740995), &float_cell(9007199254740996.0)));
    // a representable large integer still equals only its own double
    assert!(comparator.equal(&CellValue::Int(9007199254740994), &float_cell(9007199254740994.0)));
    assert!(!comparator.equal(&CellValue::Int(9007199254740994), &float_cell(9007199254740992.0)));
}

#[test]
fn tolerance_reads_converted_doubles() {
    // with a zero tolerance, 2^53 + 1 and 2^53 convert to the same double,
    // so their distance is zero
    let comparator = CellComparator::new(false, false, Some(0.0f64.to_bits()));
    assert!(comparator.equal(&CellValue::Int(9007199254740993), &CellValue::Int(9007199254740992)));
    // 2^53 + 2 is representable, so its distance from 2^53 stays two
    assert!(!comparator.equal(
        &CellValue::Int(9007199254740994),
        &CellValue::Int(9007199254740992)
    ));
}

#[test]
fn zero_signs_are_equal() {
    let comparator = CellComparator::default();
    assert!(comparator.equal(&float_cell(0.0), &float_cell(-0.0)));
    assert!(comparator.equal(&CellValue::Int(0), &float_cell(-0.0)));
}

#[test]
fn exact_pairs_stay_equal_under_relaxations() {
    // enabling every relaxation never rejects a pair that exact equality
    // accepts
    let relaxed = CellComparator::new(true, true, Some(0.5f64.to_bits()));
    assert!(relaxed.equal(&CellValue::Int(42), &CellValue::Int(42)));
    assert!(relaxed.equal(
        &CellValue::Text("abc".to_string()),
        &CellValue::Text("abc".to_string())
    ));
    assert!(relaxed.equal(&CellValue::Null, &CellValue::Null));
    assert!(relaxed.equal(&CellValue::Bool(true), &CellValue::Bool(true)));
}

#[test]
fn cross_variant_pairs_are_unequal() {
    let comparator = CellComparator::default();
    assert!(!comparator.equal(&CellValue::Null, &CellValue::Int(0)));
    assert!(!comparator.equal(&CellValue::Bool(true), &CellValue::Int(1)));
    assert!(!comparator.equal(
        &CellValue::Text("1".to_string()),
        &CellValue::Int(1)
    ));
}
