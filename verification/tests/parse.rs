use typed_nodes::parse::{
    decimal_string, invalid_length_message, invalid_type_message, invalid_variant_message, Error,
    TableId, TableIdSource,
};

#[test]
fn table_id_source_counts_from_zero() {
    let mut source = TableIdSource::new();
    let a = source.next_table_id();
    let b = source.next_table_id();
    let c = source.next_table_id();
    assert_eq!(a.value(), 0);
    assert_eq!(b.value(), 1);
    assert_eq!(c.value(), 2);
    assert_ne!(a, b);
    assert_eq!(a, a);
}

#[test]
fn get_or_assign_keeps_an_existing_id() {
    let mut source = TableIdSource::new();
    let (id, write_back) = TableId::get_or_assign(Some(7), &mut source);
    assert_eq!(id.value(), 7);
    assert_eq!(write_back, None);
    // the source was not advanced
    assert_eq!(source.next_table_id().value(), 0);
}

#[test]
fn get_or_assign_assigns_a_fresh_id() {
    let mut source = TableIdSource::new();
    let _ = source.next_table_id();
    let (id, write_back) = TableId::get_or_assign(None, &mut source);
    assert_eq!(id.value(), 1);
    assert_eq!(write_back, Some(1));
    assert_eq!(source.next_table_id().value(), 2);
}

#[test]
fn decimal_strings() {
    assert_eq!(decimal_string(0), "0");
    assert_eq!(decimal_string(7), "7");
    assert_eq!(decimal_string(10), "10");
    assert_eq!(decimal_string(90713), "90713");
    assert_eq!(decimal_string(usize::MAX), "18446744073709551615");
}

#[test]
fn length_message() {
    assert_eq!(invalid_length_message(3, 5), "invalid length 3, expected 5");
}

#[test]
fn type_message() {
    assert_eq!(invalid_type_message("nil", "a table"), "unexpected nil, expected a table");
}

#[test]
fn variant_message_without_expectations() {
    assert_eq!(
        invalid_variant_message("Circle", &[]),
        "unexpected enumeration variant \"Circle\", none where expected"
    );
}

#[test]
fn variant_message_with_expectations() {
    assert_eq!(
        invalid_variant_message("Circle", &["Square"]),
        "unexpected enumeration variant \"Circle\", expected one of \"Square\""
    );
    assert_eq!(
        invalid_variant_message("Circle", &["Square", "Triangle"]),
        "unexpected enumeration variant \"Circle\", expected one of \"Square\", \"Triangle\""
    );
}

#[test]
fn string_as_error_builds_messages() {
    let e = <String as Error>::invalid_length(2, 4);
    assert_eq!(e, "invalid length 2, expected 4");
    let e = <String as Error>::custom("boom".to_string());
    assert_eq!(e, "boom");
    let e = <String as Error>::invalid_variant("X", &["Y"]);
    assert_eq!(e, "unexpected enumeration variant \"X\", expected one of \"Y\"");
}
