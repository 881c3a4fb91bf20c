use leonbasic::value::{int_text, Literal, Value};

#[test]
fn decimal_text_of_integers() {
    assert_eq!(int_text(0), "0");
    assert_eq!(int_text(1200), "1200");
    assert_eq!(int_text(-7), "-7");
    assert_eq!(int_text(i64::MIN), "-9223372036854775808");
    assert_eq!(int_text(i64::MAX), "9223372036854775807");
}

#[test]
fn display_text_of_values() {
    assert_eq!(Value::String("s".to_string()).display_text(), "s");
    assert_eq!(Value::Int(-3).display_text(), "-3");
    assert_eq!(Value::Null.display_text(), "null");
    assert_eq!(Value::Handle(1).display_text(), "[handle]");
}

#[test]
fn copyable_values_copy() {
    assert_eq!(Value::Int(4).copy(), Value::Int(4));
    assert_eq!(Value::String("s".to_string()).copy(), Value::String("s".to_string()));
}

#[test]
fn literal_values() {
    assert_eq!(Literal::Text("t".to_string()).to_value(), Value::String("t".to_string()));
    assert_eq!(Literal::Int(2).to_value(), Value::Int(2));
}
