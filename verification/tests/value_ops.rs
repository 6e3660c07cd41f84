use pausible::heap::{Gc, Heap, ListObj, StringObj};
use pausible::value::Value;

fn heap_with_str(s: &str) -> (Heap, Gc<StringObj>) {
    let mut heap = Heap::new();
    let gc = heap.alloc_string(s.into());
    (heap, gc)
}

fn heap_with_list(vals: Vec<Value>) -> (Heap, Gc<ListObj>) {
    let mut heap = Heap::new();
    let gc = heap.alloc_list(vals);
    (heap, gc)
}

fn f(x: f64) -> Value {
    Value::Float(x.to_bits())
}

#[test]
fn string_is_string() {
    let (_heap, gc) = heap_with_str("hello");
    assert!(Value::String(gc).is_string());
    assert!(!Value::String(gc).is_int());
}

#[test]
fn list_is_list() {
    let (_heap, gc) = heap_with_list(vec![]);
    assert!(Value::List(gc).is_list());
    assert!(!Value::List(gc).is_float());
}

#[test]
fn as_string_conversion() {
    let (_heap, gc) = heap_with_str("hi");
    let val = Value::String(gc);
    assert_eq!(val.as_string(), Some(gc));
    assert_eq!(Value::Int(1).as_string(), None);
}

#[test]
fn as_list_conversion() {
    let (_heap, gc) = heap_with_list(vec![]);
    let val = Value::List(gc);
    assert_eq!(val.as_list(), Some(gc));
    assert_eq!(Value::Null.as_list(), None);
}

#[test]
fn string_eq_by_identity() {
    let mut heap = Heap::new();
    let a = heap.alloc_string("abc".into());
    let b = heap.alloc_string("abc".into());
    assert_eq!(Value::String(a).eq(&Value::String(a)), Ok(Value::Bool(true)));
    assert_eq!(Value::String(a).eq(&Value::String(b)), Ok(Value::Bool(false)));
}

#[test]
fn list_eq_by_identity() {
    let mut heap = Heap::new();
    let a = heap.alloc_list(vec![Value::Int(1)]);
    let b = heap.alloc_list(vec![Value::Int(1)]);
    assert_eq!(Value::List(a).eq(&Value::List(a)), Ok(Value::Bool(true)));
    assert_eq!(Value::List(a).eq(&Value::List(b)), Ok(Value::Bool(false)));
}

#[test]
fn heap_types_always_truthy() {
    let (_heap, str_gc) = heap_with_str("");
    let (_heap, list_gc) = heap_with_list(vec![]);
    assert!(Value::String(str_gc).is_truthy());
    assert!(Value::List(list_gc).is_truthy());
}

#[test]
fn display_heap_types() {
    let mut heap = Heap::new();
    let str_gc = heap.alloc_string("hello".into());
    let list_gc = heap.alloc_list(vec![]);
    assert_eq!(Value::String(str_gc).display_string(), "<string@0>");
    assert_eq!(Value::List(list_gc).display_string(), "<list@1>");
}

#[test]
fn int_is_int() {
    assert!(Value::Int(42).is_int());
    assert!(!Value::Int(42).is_float());
    assert!(!Value::Int(42).is_bool());
    assert!(!Value::Int(42).is_null());
}

#[test]
fn float_is_float() {
    assert!(f(1.5).is_float());
    assert!(!f(1.5).is_int());
}

#[test]
fn bool_is_bool() {
    assert!(Value::Bool(true).is_bool());
    assert!(!Value::Bool(true).is_null());
}

#[test]
fn null_is_null() {
    assert!(Value::Null.is_null());
    assert!(!Value::Null.is_int());
}

#[test]
fn as_int_conversion() {
    assert_eq!(Value::Int(7).as_int(), Some(7));
    assert_eq!(f(1.0).as_int(), None);
    assert_eq!(Value::Null.as_int(), None);
}

#[test]
fn as_float_conversion() {
    assert_eq!(f(2.5).as_float().map(f64::from_bits), Some(2.5));
    assert_eq!(Value::Int(3).as_float(), None);
}

#[test]
fn as_bool_conversion() {
    assert_eq!(Value::Bool(true).as_bool(), Some(true));
    assert_eq!(Value::Int(1).as_bool(), None);
}

#[test]
fn int_add() {
    assert_eq!(Value::Int(2).add(&Value::Int(3)), Ok(Value::Int(5)));
}

#[test]
fn add_type_mismatch_fails() {
    assert!(Value::Int(1).add(&f(1.0)).is_err());
    assert!(Value::Bool(true).add(&Value::Bool(false)).is_err());
}

#[test]
fn int_sub_mul_div() {
    assert_eq!(Value::Int(10).sub(&Value::Int(3)), Ok(Value::Int(7)));
    assert_eq!(Value::Int(4).mul(&Value::Int(5)), Ok(Value::Int(20)));
    assert_eq!(Value::Int(20).div(&Value::Int(4)), Ok(Value::Int(5)));
}

#[test]
fn modulo() {
    assert_eq!(Value::Int(10).modulo(&Value::Int(3)), Ok(Value::Int(1)));
}

#[test]
fn value_negate() {
    assert_eq!(Value::Int(5).neg(), Ok(Value::Int(-5)));
    assert!(Value::Bool(true).neg().is_err());
}

#[test]
fn eq_comparison() {
    assert_eq!(Value::Int(1).eq(&Value::Int(1)), Ok(Value::Bool(true)));
    assert_eq!(Value::Int(1).eq(&Value::Int(2)), Ok(Value::Bool(false)));
    assert_eq!(Value::Null.eq(&Value::Null), Ok(Value::Bool(true)));
    assert!(Value::Int(1).eq(&Value::Null).is_err());
}

#[test]
fn comparison_lt_lte_gt_gte() {
    assert_eq!(Value::Int(1).lt(&Value::Int(2)), Ok(Value::Bool(true)));
    assert_eq!(Value::Int(2).lt(&Value::Int(1)), Ok(Value::Bool(false)));
    assert_eq!(Value::Int(2).lte(&Value::Int(2)), Ok(Value::Bool(true)));
    assert_eq!(Value::Int(3).gt(&Value::Int(2)), Ok(Value::Bool(true)));
    assert_eq!(Value::Int(3).gte(&Value::Int(3)), Ok(Value::Bool(true)));
}

#[test]
fn comparison_type_mismatch_fails() {
    assert!(Value::Int(1).lt(&f(1.0)).is_err());
    assert!(Value::Bool(true).gt(&Value::Bool(false)).is_err());
}

#[test]
fn value_logical_and_or_not() {
    assert_eq!(Value::Bool(true).and(&Value::Bool(true)), Ok(Value::Bool(true)));
    assert_eq!(Value::Bool(true).and(&Value::Bool(false)), Ok(Value::Bool(false)));
    assert_eq!(Value::Bool(false).or(&Value::Bool(true)), Ok(Value::Bool(true)));
    assert_eq!(Value::Bool(false).or(&Value::Bool(false)), Ok(Value::Bool(false)));
    assert_eq!(Value::Bool(true).not(), Ok(Value::Bool(false)));
    assert_eq!(Value::Bool(false).not(), Ok(Value::Bool(true)));
}

#[test]
fn truthy_basic() {
    assert!(Value::Int(1).is_truthy());
    assert!(!Value::Int(0).is_truthy());
    assert!(f(0.1).is_truthy());
    assert!(!f(0.0).is_truthy());
    assert!(!f(-0.0).is_truthy());
    assert!(Value::Bool(true).is_truthy());
    assert!(!Value::Bool(false).is_truthy());
    assert!(!Value::Null.is_truthy());
}

#[test]
fn display_basic() {
    assert_eq!(Value::Int(42).display_string(), "42");
    assert_eq!(Value::Bool(true).display_string(), "true");
    assert_eq!(Value::Bool(false).display_string(), "false");
    assert_eq!(Value::Null.display_string(), "null");
}

#[test]
fn neq_and_type_error_text() {
    assert_eq!(Value::Int(1).neq(&Value::Int(2)), Ok(Value::Bool(true)));
    let e = Value::Int(1).add(&Value::Bool(true)).unwrap_err();
    assert_eq!(e.display_string(), "type error: cannot add 1 and true");
    assert_eq!(Value::Int(-7).div(&Value::Int(2)), Ok(Value::Int(-3)));
    assert_eq!(Value::Int(-7).modulo(&Value::Int(2)), Ok(Value::Int(-1)));
    assert_eq!(Value::Int(i64::MIN).display_string(), "-9223372036854775808");
}
