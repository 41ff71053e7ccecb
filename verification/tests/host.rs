use node_rs::host::{HostClass, HostRef, HostValue};

fn reference(id: i32, class: HostClass) -> HostValue {
    HostValue::Reference(HostRef { id, class })
}

#[test]
fn as_i32_reads_whole_numbers_in_range() {
    assert_eq!(HostValue::Integer(0).as_i32(), Some(0));
    assert_eq!(HostValue::Integer(4242).as_i32(), Some(4242));
    assert_eq!(HostValue::Integer(-17).as_i32(), Some(-17));
    assert_eq!(HostValue::Integer(2147483647).as_i32(), Some(i32::MAX));
    assert_eq!(HostValue::Integer(-2147483648).as_i32(), Some(i32::MIN));
}

#[test]
fn as_i32_refuses_numbers_out_of_range() {
    assert_eq!(HostValue::Integer(2147483648).as_i32(), None);
    assert_eq!(HostValue::Integer(-2147483649).as_i32(), None);
    assert_eq!(HostValue::Integer(9007199254740991).as_i32(), None);
    assert_eq!(HostValue::Integer(i64::MIN).as_i32(), None);
}

#[test]
fn as_i32_refuses_what_is_no_whole_number() {
    assert_eq!(HostValue::Fraction(1.5f64.to_bits()).as_i32(), None);
    assert_eq!(HostValue::Undefined.as_i32(), None);
    assert_eq!(HostValue::Null.as_i32(), None);
    assert_eq!(HostValue::Bool(true).as_i32(), None);
    assert_eq!(HostValue::Symbol.as_i32(), None);
    assert_eq!(HostValue::Text("12".to_string()).as_i32(), None);
    assert_eq!(reference(1, HostClass::Object).as_i32(), None);
}

#[test]
fn as_bool_reads_only_booleans() {
    assert_eq!(HostValue::Bool(true).as_bool(), Some(true));
    assert_eq!(HostValue::Bool(false).as_bool(), Some(false));
    assert_eq!(HostValue::Integer(1).as_bool(), None);
    assert_eq!(HostValue::Integer(0).as_bool(), None);
    assert_eq!(HostValue::Undefined.as_bool(), None);
    assert_eq!(HostValue::Null.as_bool(), None);
    assert_eq!(HostValue::Text("true".to_string()).as_bool(), None);
}

#[test]
fn as_text_reads_only_strings() {
    assert_eq!(HostValue::Text("/srv/app".to_string()).as_text(), Some("/srv/app"));
    assert_eq!(HostValue::Text(String::new()).as_text(), Some(""));
    assert_eq!(HostValue::Integer(7).as_text(), None);
    assert_eq!(HostValue::Null.as_text(), None);
    assert_eq!(reference(3, HostClass::Function).as_text(), None);
}

#[test]
fn as_reference_reads_only_references() {
    let object = HostRef { id: 9, class: HostClass::Bare };
    assert_eq!(HostValue::Reference(object).as_reference(), Some(object));
    assert_eq!(HostValue::Undefined.as_reference(), None);
    assert_eq!(HostValue::Text("9".to_string()).as_reference(), None);
    assert_eq!(HostValue::Integer(9).as_reference(), None);
}

#[test]
fn every_class_but_bare_is_an_object() {
    let classes = [
        HostClass::Object,
        HostClass::Function,
        HostClass::Promise,
        HostClass::Worker,
        HostClass::ChildProcess,
    ];
    for class in classes {
        assert!(class.is_instance_of(HostClass::Object));
        assert!(class.is_instance_of(class));
    }
    assert!(!HostClass::Bare.is_instance_of(HostClass::Object));
    assert!(HostClass::Bare.is_instance_of(HostClass::Bare));
}

#[test]
fn classes_other_than_object_do_not_mix() {
    assert!(!HostClass::Object.is_instance_of(HostClass::Worker));
    assert!(!HostClass::Worker.is_instance_of(HostClass::ChildProcess));
    assert!(!HostClass::ChildProcess.is_instance_of(HostClass::Worker));
    assert!(!HostClass::Function.is_instance_of(HostClass::Promise));
    assert!(!HostClass::Promise.is_instance_of(HostClass::Function));
    assert!(!HostClass::Object.is_instance_of(HostClass::Bare));
}

#[test]
fn as_instance_checks_the_class() {
    let worker = HostRef { id: 5, class: HostClass::Worker };
    let value = HostValue::Reference(worker);
    assert_eq!(value.as_instance(HostClass::Worker), Some(worker));
    assert_eq!(value.as_instance(HostClass::Object), Some(worker));
    assert_eq!(value.as_instance(HostClass::Promise), None);
    assert_eq!(HostValue::Integer(5).as_instance(HostClass::Object), None);
    assert_eq!(HostValue::Null.as_instance(HostClass::Object), None);
    assert_eq!(reference(6, HostClass::Bare).as_instance(HostClass::Object), None);
}

#[test]
fn clone_keeps_the_value() {
    let values = vec![
        HostValue::Undefined,
        HostValue::Null,
        HostValue::Bool(false),
        HostValue::Integer(-3),
        HostValue::Fraction(1.5f64.to_bits()),
        HostValue::Symbol,
        HostValue::Text("exit".to_string()),
        reference(11, HostClass::Promise),
    ];
    for value in &values {
        assert_eq!(&value.clone(), value);
    }
}
