use pausible::chunk::{deserialize_function, deserialize_module, serialize_function, serialize_module, Chunk, SerError, VERSION};
use pausible::function::Function;
use pausible::heap::Heap;
use pausible::io::HandleId;
use pausible::opcode::OpCode;
use pausible::value::Value;

const MAGIC: [u8; 4] = *b"PAUB";

#[test]
fn chunk_builder_chain() {
    let mut c = Chunk::new();
    c.emit_push(Value::Int(1)).emit_push(Value::Int(2)).emit(OpCode::Add).emit(OpCode::Halt);
    assert_eq!(c.len(), 4);
}

#[test]
fn chunk_shortcuts() {
    let mut c = Chunk::new();
    c.emit_push(Value::Null)
        .emit_load(0)
        .emit_store(1)
        .emit_call(2)
        .emit_jump(10)
        .emit_jump_if_true(20)
        .emit_jump_if_false(30)
        .emit(OpCode::Return);
    assert_eq!(c.len(), 8);
}

#[test]
fn chunk_into_code() {
    let mut c = Chunk::new();
    c.emit_push(Value::Bool(true)).emit(OpCode::Halt);
    assert_eq!(c.into_code(), vec![OpCode::Push(Value::Bool(true)), OpCode::Halt]);
}

#[test]
fn function_roundtrip_simple() {
    let func = Function::new("add", 2, vec![OpCode::Load(0), OpCode::Load(1), OpCode::Add, OpCode::Return], 2);
    let heap = Heap::new();
    let bytes = serialize_function(&func, &heap);
    let mut restored_heap = Heap::new();
    let restored = deserialize_function(&bytes, &mut restored_heap).unwrap();
    assert_eq!(restored.name, "add");
    assert_eq!(restored.arity, 2);
    assert_eq!(restored.num_locals, 2);
    assert_eq!(restored.code, func.code);
}

#[test]
fn function_roundtrip_with_jumps() {
    let func = Function::new(
        "loop",
        0,
        vec![
            OpCode::Push(Value::Int(0)),
            OpCode::Store(0),
            OpCode::Load(0),
            OpCode::Push(Value::Int(10)),
            OpCode::Lt,
            OpCode::JumpIfFalse(20),
            OpCode::Load(0),
            OpCode::Push(Value::Int(1)),
            OpCode::Add,
            OpCode::Store(0),
            OpCode::Jump(2),
            OpCode::Halt,
        ],
        1,
    );
    let heap = Heap::new();
    let bytes = serialize_function(&func, &heap);
    let mut restored_heap = Heap::new();
    let restored = deserialize_function(&bytes, &mut restored_heap).unwrap();
    assert_eq!(restored.code, func.code);
}

#[test]
fn function_roundtrip_all_value_types() {
    let func = Function::new(
        "values",
        0,
        vec![
            OpCode::Push(Value::Int(42)),
            OpCode::Push(Value::Float(1.5f64.to_bits())),
            OpCode::Push(Value::Bool(true)),
            OpCode::Push(Value::Bool(false)),
            OpCode::Push(Value::Null),
            OpCode::Halt,
        ],
        0,
    );
    let heap = Heap::new();
    let bytes = serialize_function(&func, &heap);
    let mut restored_heap = Heap::new();
    let restored = deserialize_function(&bytes, &mut restored_heap).unwrap();
    assert_eq!(restored.code, func.code);
}

#[test]
fn module_roundtrip() {
    let f1 = Function::new("main", 0, vec![OpCode::Call(1), OpCode::Halt], 0);
    let f2 = Function::new("add_one", 1, vec![OpCode::Load(0), OpCode::Push(Value::Int(1)), OpCode::Add, OpCode::Return], 1);
    let functions = vec![f1.clone(), f2.clone()];
    let heap = Heap::new();
    let bytes = serialize_module(&functions, &heap);
    let (restored, _heap) = deserialize_module(&bytes).unwrap();
    assert_eq!(restored.len(), 2);
    assert_eq!(restored[0].name, "main");
    assert_eq!(restored[0].code, f1.code);
    assert_eq!(restored[1].code, f2.code);
}

#[test]
fn module_roundtrip_single_function() {
    let func = Function::new("entry", 0, vec![OpCode::Halt], 0);
    let functions = vec![func.clone()];
    let heap = Heap::new();
    let bytes = serialize_module(&functions, &heap);
    let (restored, _heap) = deserialize_module(&bytes).unwrap();
    assert_eq!(restored.len(), 1);
    assert_eq!(restored[0].name, "entry");
    assert_eq!(restored[0].code, func.code);
}

#[test]
fn bad_magic_returns_error() {
    let data = vec![0xFF, 0xFF, 0xFF, 0xFF, 0, 0, 0, 0];
    let err = deserialize_module(&data).unwrap_err();
    assert!(matches!(err, SerError::BadMagic { .. }));
    assert_eq!(err.display_string(), "bad magic: [FF, FF, FF, FF]");
}

#[test]
fn unsupported_version_returns_error() {
    let mut data = Vec::new();
    data.extend_from_slice(&MAGIC);
    data.extend_from_slice(&99u32.to_le_bytes());
    data.extend_from_slice(&0u32.to_le_bytes());
    data.extend_from_slice(&0u32.to_le_bytes());
    let err = deserialize_module(&data).unwrap_err();
    assert!(matches!(err, SerError::UnsupportedVersion(99)));
    assert_eq!(err.display_string(), "unsupported version: 99");
}

#[test]
fn unexpected_eof() {
    let err = deserialize_module(&[0x50, 0x41]).unwrap_err();
    assert!(matches!(err, SerError::UnexpectedEof));
}

#[test]
fn unknown_opcode() {
    let mut data = Vec::new();
    data.extend_from_slice(&MAGIC);
    data.extend_from_slice(&VERSION.to_le_bytes());
    data.extend_from_slice(&1u32.to_le_bytes());
    data.extend_from_slice(&1u32.to_le_bytes());
    data.extend_from_slice(&0u32.to_le_bytes());
    data.extend_from_slice(&0u32.to_le_bytes());
    data.extend_from_slice(&0u32.to_le_bytes());
    data.extend_from_slice(&1u32.to_le_bytes());
    data.push(0xFF);
    let err = deserialize_module(&data).unwrap_err();
    assert!(matches!(err, SerError::UnknownOpcode(0xFF)));
    assert_eq!(err.display_string(), "unknown opcode byte: 0xFF");
}

#[test]
fn function_roundtrip_with_string() {
    let mut heap = Heap::new();
    let s = heap.alloc_string("hello world".into());
    let func = Function::new("str_test", 0, vec![OpCode::Push(Value::String(s)), OpCode::Halt], 0);
    let bytes = serialize_function(&func, &heap);
    let mut restore_heap = Heap::new();
    let restored = deserialize_function(&bytes, &mut restore_heap).unwrap();
    assert_eq!(restored.code.len(), 2);
    if let OpCode::Push(Value::String(gc)) = &restored.code[0] {
        assert_eq!(restore_heap.get(*gc).unwrap().data, "hello world");
    } else {
        panic!("expected Push(String)");
    }
}

#[test]
fn function_roundtrip_with_empty_string() {
    let mut heap = Heap::new();
    let s = heap.alloc_string(String::new());
    let func = Function::new("empty", 0, vec![OpCode::Push(Value::String(s)), OpCode::Halt], 0);
    let bytes = serialize_function(&func, &heap);
    let mut restore_heap = Heap::new();
    let restored = deserialize_function(&bytes, &mut restore_heap).unwrap();
    if let OpCode::Push(Value::String(gc)) = &restored.code[0] {
        assert_eq!(restore_heap.get(*gc).unwrap().data, "");
    } else {
        panic!("expected Push(String)");
    }
}

#[test]
fn function_roundtrip_with_list() {
    let mut heap = Heap::new();
    let lst = heap.alloc_list(vec![Value::Int(1), Value::Int(2), Value::Int(3)]);
    let func = Function::new("list_test", 0, vec![OpCode::Push(Value::List(lst)), OpCode::Halt], 0);
    let bytes = serialize_function(&func, &heap);
    let mut restore_heap = Heap::new();
    let restored = deserialize_function(&bytes, &mut restore_heap).unwrap();
    if let OpCode::Push(Value::List(gc)) = &restored.code[0] {
        assert_eq!(restore_heap.get(*gc).unwrap().elements, vec![Value::Int(1), Value::Int(2), Value::Int(3)]);
    } else {
        panic!("expected Push(List)");
    }
}

#[test]
fn function_roundtrip_with_nested_list() {
    let mut heap = Heap::new();
    let inner = heap.alloc_list(vec![Value::Int(1), Value::Int(2)]);
    let outer = heap.alloc_list(vec![Value::List(inner), Value::Int(3)]);
    let func = Function::new("nested", 0, vec![OpCode::Push(Value::List(outer)), OpCode::Halt], 0);
    let bytes = serialize_function(&func, &heap);
    let mut restore_heap = Heap::new();
    let restored = deserialize_function(&bytes, &mut restore_heap).unwrap();
    if let OpCode::Push(Value::List(gc)) = &restored.code[0] {
        let outer_list = restore_heap.get(*gc).unwrap();
        assert_eq!(outer_list.elements.len(), 2);
        if let Value::List(inner_gc) = &outer_list.elements[0] {
            assert_eq!(restore_heap.get(*inner_gc).unwrap().elements, vec![Value::Int(1), Value::Int(2)]);
        } else {
            panic!("expected nested List");
        }
    } else {
        panic!("expected Push(List)");
    }
}

#[test]
fn module_roundtrip_with_strings() {
    let mut heap = Heap::new();
    let s1 = heap.alloc_string("main".into());
    let s2 = heap.alloc_string("helper".into());
    let f1 = Function::new("a", 0, vec![OpCode::Push(Value::String(s1)), OpCode::Halt], 0);
    let f2 = Function::new("b", 0, vec![OpCode::Push(Value::String(s2)), OpCode::Halt], 0);
    let bytes = serialize_module(&[f1.clone(), f2.clone()], &heap);
    let (restored, restore_heap) = deserialize_module(&bytes).unwrap();
    assert_eq!(restored.len(), 2);
    if let OpCode::Push(Value::String(gc)) = &restored[0].code[0] {
        assert_eq!(restore_heap.get(*gc).unwrap().data, "main");
    } else {
        panic!("expected Push(String) in f1");
    }
    if let OpCode::Push(Value::String(gc)) = &restored[1].code[0] {
        assert_eq!(restore_heap.get(*gc).unwrap().data, "helper");
    } else {
        panic!("expected Push(String) in f2");
    }
}

#[test]
fn function_roundtrip_with_io_opcodes() {
    let func = Function::new(
        "io_test",
        0,
        vec![
            OpCode::FileOpen { path: Value::Null, mode: Value::Null },
            OpCode::FileRead(HandleId(0)),
            OpCode::FileWrite(HandleId(0)),
            OpCode::FileSeek { handle: HandleId(0), offset: Value::Int(10) },
            OpCode::FileClose(HandleId(0)),
            OpCode::TcpConnect { addr: Value::Null },
            OpCode::TcpRead(HandleId(1)),
            OpCode::TcpWrite(HandleId(1)),
            OpCode::TcpClose(HandleId(1)),
            OpCode::HttpGet { url: Value::Null },
            OpCode::HttpPost { url: Value::Null, body: Value::Null },
            OpCode::StdinRead,
            OpCode::StdoutWrite,
            OpCode::StderrWrite,
            OpCode::TimerSleep { ms: Value::Int(500) },
            OpCode::Halt,
        ],
        0,
    );
    let heap = Heap::new();
    let bytes = serialize_function(&func, &heap);
    let mut restored_heap = Heap::new();
    let restored = deserialize_function(&bytes, &mut restored_heap).unwrap();
    assert_eq!(restored.name, "io_test");
    assert_eq!(restored.arity, 0);
    assert_eq!(restored.code, func.code);
}

#[test]
fn module_header_bytes() {
    let func = Function::new("m", 0, vec![OpCode::Halt, OpCode::Halt], 0);
    let bytes = serialize_module(&[func], &Heap::new());
    assert_eq!(&bytes[0..4], b"PAUB");
    assert_eq!(&bytes[4..8], &1u32.to_le_bytes());
    assert_eq!(&bytes[8..12], &1u32.to_le_bytes());
    assert_eq!(&bytes[12..16], &2u32.to_le_bytes());
}

#[test]
fn decoding_allocates_only_the_decoded_constants() {
    let plain = Function::new("f", 0, vec![OpCode::Push(Value::Int(3)), OpCode::FileRead(HandleId(1)), OpCode::Halt], 0);
    let mut heap = Heap::new();
    deserialize_function(&serialize_function(&plain, &Heap::new()), &mut heap).unwrap();
    assert_eq!(heap.capacity(), 0);

    let mut src = Heap::new();
    let s = src.alloc_string("k".into());
    let l = src.alloc_list(vec![Value::String(s), Value::Int(1)]);
    let with_consts = Function::new("g", 0, vec![OpCode::Push(Value::List(l)), OpCode::Halt], 0);
    let mut heap2 = Heap::new();
    deserialize_function(&serialize_function(&with_consts, &src), &mut heap2).unwrap();
    assert_eq!(heap2.len(), 2);
}
