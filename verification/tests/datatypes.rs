use docstore::datatypes::{from_external, to_external, DataType, ExternalValue};

#[test]
fn round_trip_null() {
    assert_eq!(ExternalValue::Null, to_external(&from_external(&ExternalValue::Null)));
}

#[test]
fn round_trip_bool() {
    assert_eq!(
        ExternalValue::Bool(true),
        to_external(&from_external(&ExternalValue::Bool(true)))
    );
    assert_eq!(
        ExternalValue::Bool(false),
        to_external(&from_external(&ExternalValue::Bool(false)))
    );
}

#[test]
fn round_trip_integers() {
    assert_eq!(
        ExternalValue::PosInt(75),
        to_external(&from_external(&ExternalValue::PosInt(75)))
    );
    assert_eq!(
        ExternalValue::PosInt(u64::MAX),
        to_external(&from_external(&ExternalValue::PosInt(u64::MAX)))
    );
    assert_eq!(
        ExternalValue::NegInt(-42),
        to_external(&from_external(&ExternalValue::NegInt(-42)))
    );
    assert_eq!(
        ExternalValue::NegInt(i64::MIN),
        to_external(&from_external(&ExternalValue::NegInt(i64::MIN)))
    );
}

#[test]
fn round_trip_decimal_preserves_text() {
    let v = ExternalValue::Decimal(String::from("3.140000000000000124"));
    assert_eq!(v, to_external(&from_external(&v)));
}

#[test]
fn round_trip_string() {
    let v = ExternalValue::Text(String::from("johnperry"));
    assert_eq!(v, to_external(&from_external(&v)));
}

#[test]
fn unmodeled_shape_collapses_to_null() {
    assert_eq!(DataType::Null, from_external(&ExternalValue::Composite));
}

#[test]
fn number_classification() {
    assert_eq!(DataType::U64(75), from_external(&ExternalValue::PosInt(75)));
    assert_eq!(DataType::I64(-7), from_external(&ExternalValue::NegInt(-7)));
    assert_eq!(
        DataType::F64(String::from("2.5")),
        from_external(&ExternalValue::Decimal(String::from("2.5")))
    );
}

#[test]
fn variant_exact_equality() {
    assert_ne!(DataType::U64(5), DataType::I64(5));
    assert_ne!(DataType::Null, DataType::Bool(false));
    assert_ne!(
        DataType::F64(String::from("5")),
        DataType::String(String::from("5"))
    );
    assert_eq!(DataType::U64(5), DataType::U64(5));
}
