use pausible::heap::Heap;
use pausible::serialize::{DeCtx, SerCtx, SerError, Serializable, TAG_INT, TAG_STRING};
use pausible::value::Value;

fn roundtrip(val: &Value, heap: &Heap) -> Value {
    let mut ser_ctx = SerCtx::new(heap);
    val.serialize(&mut ser_ctx);
    let mut de_ctx = DeCtx::new(&ser_ctx.buf);
    Value::deserialize(&mut de_ctx).unwrap()
}

#[test]
fn roundtrip_int() {
    let heap = Heap::new();
    assert_eq!(roundtrip(&Value::Int(42), &heap), Value::Int(42));
}

#[test]
fn roundtrip_int_negative() {
    let heap = Heap::new();
    assert_eq!(roundtrip(&Value::Int(-999), &heap), Value::Int(-999));
}

#[test]
fn roundtrip_float() {
    let heap = Heap::new();
    let v = Value::Float(1.5f64.to_bits());
    match roundtrip(&v, &heap) {
        Value::Float(bits) => assert!((f64::from_bits(bits) - 1.5).abs() < f64::EPSILON),
        other => panic!("expected Float, got {other:?}"),
    }
}

#[test]
fn roundtrip_bool_true() {
    let heap = Heap::new();
    assert_eq!(roundtrip(&Value::Bool(true), &heap), Value::Bool(true));
}

#[test]
fn roundtrip_bool_false() {
    let heap = Heap::new();
    assert_eq!(roundtrip(&Value::Bool(false), &heap), Value::Bool(false));
}

#[test]
fn roundtrip_null() {
    let heap = Heap::new();
    assert_eq!(roundtrip(&Value::Null, &heap), Value::Null);
}

fn string_roundtrip(text: &str) {
    let mut heap = Heap::new();
    let gc = heap.alloc_string(text.into());
    let v = Value::String(gc);
    let mut ser_ctx = SerCtx::new(&heap);
    v.serialize(&mut ser_ctx);
    let mut de_ctx = DeCtx::new(&ser_ctx.buf);
    let restored = Value::deserialize(&mut de_ctx).unwrap();
    assert!(restored.is_string());
    if let Value::String(gc2) = &restored {
        assert_eq!(de_ctx.heap.get(*gc2).unwrap().data, text);
    } else {
        panic!("expected String");
    }
}

#[test]
fn roundtrip_string() {
    string_roundtrip("hello world");
}

#[test]
fn roundtrip_empty_string() {
    string_roundtrip("");
}

#[test]
fn roundtrip_string_unicode() {
    string_roundtrip("你好世界 🌍");
}

#[test]
fn roundtrip_list_of_ints() {
    let mut heap = Heap::new();
    let gc = heap.alloc_list(vec![Value::Int(1), Value::Int(2), Value::Int(3)]);
    let v = Value::List(gc);
    let mut ser_ctx = SerCtx::new(&heap);
    v.serialize(&mut ser_ctx);
    let mut de_ctx = DeCtx::new(&ser_ctx.buf);
    let restored = Value::deserialize(&mut de_ctx).unwrap();
    assert!(restored.is_list());
    if let Value::List(gc2) = &restored {
        assert_eq!(de_ctx.heap.get(*gc2).unwrap().elements, vec![Value::Int(1), Value::Int(2), Value::Int(3)]);
    } else {
        panic!("expected List");
    }
}

#[test]
fn roundtrip_mixed_list() {
    let mut heap = Heap::new();
    let inner = heap.alloc_string("nested".into());
    let gc = heap.alloc_list(vec![Value::Int(42), Value::Bool(true), Value::Null, Value::String(inner)]);
    let v = Value::List(gc);
    let mut ser_ctx = SerCtx::new(&heap);
    v.serialize(&mut ser_ctx);
    let mut de_ctx = DeCtx::new(&ser_ctx.buf);
    let restored = Value::deserialize(&mut de_ctx).unwrap();
    if let Value::List(gc2) = &restored {
        let list = de_ctx.heap.get(*gc2).unwrap();
        assert_eq!(list.elements.len(), 4);
        assert_eq!(list.elements[0], Value::Int(42));
        assert_eq!(list.elements[1], Value::Bool(true));
        assert_eq!(list.elements[2], Value::Null);
        assert!(list.elements[3].is_string());
        if let Value::String(inner_gc) = &list.elements[3] {
            assert_eq!(de_ctx.heap.get(*inner_gc).unwrap().data, "nested");
        } else {
            panic!("expected String at index 3");
        }
    } else {
        panic!("expected List");
    }
}

#[test]
fn roundtrip_nested_list() {
    let mut heap = Heap::new();
    let inner = heap.alloc_list(vec![Value::Int(1), Value::Int(2)]);
    let outer = heap.alloc_list(vec![Value::List(inner), Value::Int(3)]);
    let v = Value::List(outer);
    let mut ser_ctx = SerCtx::new(&heap);
    v.serialize(&mut ser_ctx);
    let mut de_ctx = DeCtx::new(&ser_ctx.buf);
    let restored = Value::deserialize(&mut de_ctx).unwrap();
    if let Value::List(outer_gc) = &restored {
        let outer_list = de_ctx.heap.get(*outer_gc).unwrap();
        assert_eq!(outer_list.elements.len(), 2);
        if let Value::List(inner_gc) = &outer_list.elements[0] {
            assert_eq!(de_ctx.heap.get(*inner_gc).unwrap().elements, vec![Value::Int(1), Value::Int(2)]);
        } else {
            panic!("expected nested List");
        }
        assert_eq!(outer_list.elements[1], Value::Int(3));
    } else {
        panic!("expected List");
    }
}

#[test]
fn object_map_tracks_unique_heap_objects() {
    let mut heap = Heap::new();
    let gc = heap.alloc_string("shared".into());
    let v = Value::String(gc);
    let mut ser_ctx = SerCtx::new(&heap);
    v.serialize(&mut ser_ctx);
    v.serialize(&mut ser_ctx);
    assert_eq!(ser_ctx.object_map.len(), 1);
    assert_eq!(ser_ctx.object_map.get(&gc.index), Some(&0));
}

#[test]
fn object_map_distinguishes_different_objects() {
    let mut heap = Heap::new();
    let a = heap.alloc_string("alpha".into());
    let b = heap.alloc_string("beta".into());
    let mut ser_ctx = SerCtx::new(&heap);
    Value::String(a).serialize(&mut ser_ctx);
    Value::String(b).serialize(&mut ser_ctx);
    assert_eq!(ser_ctx.object_map.len(), 2);
    assert_ne!(ser_ctx.object_map.get(&a.index), ser_ctx.object_map.get(&b.index));
}

#[test]
fn deserialize_empty_data_fails() {
    let mut ctx = DeCtx::new(&[]);
    let err = Value::deserialize(&mut ctx).unwrap_err();
    assert!(matches!(err, SerError::UnexpectedEof));
}

#[test]
fn deserialize_unknown_tag_fails() {
    let mut ctx = DeCtx::new(&[0xFF]);
    let err = Value::deserialize(&mut ctx).unwrap_err();
    assert!(matches!(err, SerError::UnknownValueTag(0xFF)));
}

#[test]
fn deserialize_truncated_int_fails() {
    let data = [TAG_INT, 0x01, 0x00, 0x00, 0x00];
    let mut ctx = DeCtx::new(&data);
    let err = Value::deserialize(&mut ctx).unwrap_err();
    assert!(matches!(err, SerError::UnexpectedEof));
}

#[test]
fn deserialize_truncated_string_fails() {
    let mut data = vec![TAG_STRING];
    data.extend_from_slice(&10u32.to_le_bytes());
    data.extend_from_slice(b"abc");
    let mut ctx = DeCtx::new(&data);
    let err = Value::deserialize(&mut ctx).unwrap_err();
    assert!(matches!(err, SerError::UnexpectedEof));
}

#[test]
fn ser_error_display() {
    assert_eq!(SerError::UnexpectedEof.display_string(), "unexpected end of serialized data");
    assert_eq!(SerError::UnknownValueTag(0xFF).display_string(), "unknown value tag: 0xFF");
}

#[test]
fn roundtrip_empty_list() {
    let mut heap = Heap::new();
    let gc = heap.alloc_list(vec![]);
    let v = Value::List(gc);
    let mut ser_ctx = SerCtx::new(&heap);
    v.serialize(&mut ser_ctx);
    let mut de_ctx = DeCtx::new(&ser_ctx.buf);
    let restored = Value::deserialize(&mut de_ctx).unwrap();
    if let Value::List(gc2) = &restored {
        assert!(de_ctx.heap.get(*gc2).unwrap().elements.is_empty());
    } else {
        panic!("expected List");
    }
}

#[test]
fn roundtrip_int_max_min() {
    let heap = Heap::new();
    for val in [i64::MIN, 0, i64::MAX] {
        assert_eq!(roundtrip(&Value::Int(val), &heap), Value::Int(val));
    }
}

#[test]
fn int_encoding_is_little_endian() {
    let heap = Heap::new();
    let mut ser_ctx = SerCtx::new(&heap);
    Value::Int(0x0102).serialize(&mut ser_ctx);
    assert_eq!(ser_ctx.buf, vec![TAG_INT, 0x02, 0x01, 0, 0, 0, 0, 0, 0]);
}

#[test]
fn objects_are_numbered_in_first_encounter_order() {
    let mut heap = Heap::new();
    let a = heap.alloc_string("a".into());
    let b = heap.alloc_string("b".into());
    let l = heap.alloc_list(vec![Value::String(b), Value::String(a)]);
    let mut ctx = SerCtx::new(&heap);
    assert_eq!(ctx.next_seq, 0);
    Value::String(a).serialize(&mut ctx);
    Value::String(a).serialize(&mut ctx);
    assert_eq!(ctx.object_map.len(), 1);
    assert_eq!(ctx.object_map[&a.index], 0);
    Value::List(l).serialize(&mut ctx);
    assert_eq!(ctx.object_map[&l.index], 1);
    assert_eq!(ctx.object_map[&b.index], 2);
    assert_eq!(ctx.next_seq, 3);
}
