use pausible::function::Function;
use pausible::opcode::OpCode;
use pausible::snapshot::{Snapshot, SnapshotError, VERSION};
use pausible::value::Value;
use pausible::vm::VM;

const MAGIC: [u8; 4] = *b"PAUS";

fn make_test_vm() -> VM {
    let mut vm = VM::new();
    let main = Function::new("main", 0, vec![OpCode::Push(Value::Int(42)), OpCode::Halt], 0);
    vm.add_function(main);
    vm.prepare(0).unwrap();
    let s = vm.alloc_string("hello snapshot".into());
    vm.stack.push(Value::String(s));
    let lst = vm.alloc_list(vec![Value::Int(1), Value::Int(2), Value::Int(3)]);
    vm.stack.push(Value::List(lst));
    vm
}

fn fresh_main_vm() -> VM {
    let mut restored = VM::new();
    restored.add_function(Function::new("main", 0, vec![OpCode::Push(Value::Int(42)), OpCode::Halt], 0));
    restored.prepare(0).unwrap();
    restored
}

#[test]
fn snapshot_roundtrip_basic() {
    let mut vm = make_test_vm();
    let code_hash = vm.code_hash();
    let snap = Snapshot::capture(&mut vm, code_hash);
    assert_eq!(snap.header.magic, MAGIC);
    assert_eq!(snap.header.version, VERSION);
    assert!(snap.header.heap_count > 0, "should have heap objects");
    assert!(snap.header.stack_count > 0, "should have stack values");

    let mut restored = fresh_main_vm();
    let ch = restored.code_hash();
    snap.restore_into(&mut restored, ch).unwrap();

    assert_eq!(restored.stack.len(), vm.stack.len());
    assert!(matches!(restored.stack[0], Value::String(_)));
    assert!(matches!(restored.stack[1], Value::List(_)));
    if let Value::String(gc) = &restored.stack[0] {
        assert_eq!(restored.heap.get(*gc).unwrap().data, "hello snapshot");
    }
    if let Value::List(gc) = &restored.stack[1] {
        assert_eq!(restored.heap.get(*gc).unwrap().elements, vec![Value::Int(1), Value::Int(2), Value::Int(3)]);
    }
}

#[test]
fn snapshot_nested_heap_objects() {
    let mut vm = VM::new();
    let inner = vm.alloc_string("nested".into());
    let outer = vm.alloc_list(vec![Value::String(inner), Value::Int(7)]);
    vm.stack.push(Value::List(outer));
    let code_hash = vm.code_hash();
    let snap = Snapshot::capture(&mut vm, code_hash);

    let mut restored = VM::new();
    let ch = restored.code_hash();
    snap.restore_into(&mut restored, ch).unwrap();

    if let Value::List(outer_gc) = &restored.stack[0] {
        let outer_list = restored.heap.get(*outer_gc).unwrap();
        assert_eq!(outer_list.elements.len(), 2);
        if let Value::String(inner_gc) = &outer_list.elements[0] {
            assert_eq!(restored.heap.get(*inner_gc).unwrap().data, "nested");
        } else {
            panic!("expected String at index 0");
        }
        assert_eq!(outer_list.elements[1], Value::Int(7));
    } else {
        panic!("expected List on stack");
    }
}

fn add_one_program() -> (Function, Function) {
    let add_one = Function::new("add_one", 1, vec![OpCode::Load(0), OpCode::Push(Value::Int(1)), OpCode::Add, OpCode::Return], 1);
    let main = Function::new("main", 0, vec![OpCode::Push(Value::Int(5)), OpCode::Call(1), OpCode::Halt], 0);
    (main, add_one)
}

#[test]
fn snapshot_preserves_call_frames() {
    let mut vm = VM::new();
    let (main, add_one) = add_one_program();
    vm.add_function(main);
    vm.add_function(add_one);
    vm.prepare(0).unwrap();
    vm.step().unwrap();
    vm.step().unwrap();
    let code_hash = vm.code_hash();
    let snap = Snapshot::capture(&mut vm, code_hash);

    let mut restored = VM::new();
    let (main_r, add_one_r) = add_one_program();
    restored.add_function(main_r);
    restored.add_function(add_one_r);
    restored.prepare(0).unwrap();
    let ch = restored.code_hash();
    snap.restore_into(&mut restored, ch).unwrap();

    assert!(!restored.frames.is_empty());
    let frame = restored.frames.last().unwrap();
    assert_eq!(frame.function, 1);
    assert_eq!(frame.ip, 0);
    assert_eq!(frame.locals[0], Value::Int(5));
}

#[test]
fn snapshot_file_write_read_roundtrip() {
    let mut vm = make_test_vm();
    let code_hash = vm.code_hash();
    let snap = Snapshot::capture(&mut vm, code_hash);

    let bytes = snap.to_bytes();
    assert!(Snapshot::sections_fit(&bytes));
    let loaded = Snapshot::read_from_bytes(&bytes).unwrap();
    assert_eq!(loaded.header.magic, MAGIC);
    assert_eq!(loaded.header.code_hash, code_hash);
    assert_eq!(loaded.header.heap_count, snap.header.heap_count);
    assert_eq!(loaded.header.stack_count, snap.header.stack_count);
    assert_eq!(loaded.heap_data, snap.heap_data);
    assert_eq!(loaded.frames_data, snap.frames_data);
    assert_eq!(loaded.stack_data, snap.stack_data);

    let mut restored = fresh_main_vm();
    let ch = restored.code_hash();
    loaded.restore_into(&mut restored, ch).unwrap();
    assert_eq!(restored.stack.len(), vm.stack.len());
}

#[test]
fn code_hash_mismatch_returns_error() {
    let mut vm = make_test_vm();
    let ch = vm.code_hash();
    let snap = Snapshot::capture(&mut vm, ch);
    let mut restored = VM::new();
    let err = snap.restore_into(&mut restored, 0xDEAD_BEEF_CAFE_BABE).unwrap_err();
    assert!(matches!(err, SnapshotError::CodeMismatch { .. }));
    assert!(restored.stack.is_empty());
}

#[test]
fn snapshot_empty_vm() {
    let mut vm = VM::new();
    vm.add_function(Function::new("empty", 0, vec![OpCode::Halt], 0));
    vm.prepare(0).unwrap();
    let ch = vm.code_hash();
    let snap = Snapshot::capture(&mut vm, ch);
    assert_eq!(snap.header.heap_count, 0);
    assert_eq!(snap.header.stack_count, 0);

    let mut restored = VM::new();
    restored.add_function(Function::new("empty", 0, vec![OpCode::Halt], 0));
    restored.prepare(0).unwrap();
    let ch = restored.code_hash();
    snap.restore_into(&mut restored, ch).unwrap();
    assert!(restored.stack.is_empty());
}

#[test]
fn bad_magic_error() {
    let data = vec![0xFF, 0xFF, 0xFF, 0xFF, 0, 0, 0, 0];
    let err = Snapshot::read_from_bytes(&data).unwrap_err();
    assert!(matches!(err, SnapshotError::BadMagic { .. }));
}

#[test]
fn unsupported_version_error() {
    let mut data = Vec::new();
    data.extend_from_slice(&MAGIC);
    data.extend_from_slice(&99u32.to_le_bytes());
    data.extend_from_slice(&[0u8; 32]);
    let err = Snapshot::read_from_bytes(&data).unwrap_err();
    assert!(matches!(err, SnapshotError::UnsupportedVersion(99)));
}

#[test]
fn snapshot_error_display() {
    assert_eq!(SnapshotError::UnknownObjectTag(0xFF).display_string(), "unknown heap object tag: 0xFF");
    assert_eq!(SnapshotError::InvalidHeapPosition(7).display_string(), "invalid heap position reference: 7");
}

#[test]
fn snapshot_error_display_other_variants() {
    assert_eq!(SnapshotError::BadMagic { found: [0xFF, 0, 0x1A, 0x50] }.display_string(), "bad snapshot magic: [FF, 00, 1A, 50]");
    assert_eq!(SnapshotError::UnsupportedVersion(9).display_string(), "unsupported snapshot version: 9");
    assert_eq!(
        SnapshotError::CodeMismatch { expected: 0xAB, found: 0xDEAD_BEEF_CAFE_BABE }.display_string(),
        "code hash mismatch: expected 00000000000000AB, found DEADBEEFCAFEBABE"
    );
    assert_eq!(SnapshotError::UnexpectedEof.display_string(), "unexpected end of snapshot data");
    assert_eq!(SnapshotError::IoError("gone".into()).display_string(), "snapshot I/O error: gone");
}

#[test]
fn capture_keeps_only_reachable_objects_in_slot_order() {
    let mut vm = VM::new();
    let _dead = vm.alloc_string("dead".into());
    let a = vm.alloc_string("a".into());
    let l = vm.alloc_list(vec![Value::String(a), Value::Int(1)]);
    vm.stack.push(Value::List(l));
    let ch = vm.code_hash();
    let snap = Snapshot::capture(&mut vm, ch);
    assert_eq!(snap.header.heap_count, 2);
    // heap section: "a" at position 0, then the list naming position 0
    let mut expected = vec![0x04u8];
    expected.extend_from_slice(&1u32.to_le_bytes());
    expected.push(b'a');
    expected.push(0x05);
    expected.extend_from_slice(&2u32.to_le_bytes());
    expected.push(0x04);
    expected.extend_from_slice(&0u32.to_le_bytes());
    expected.push(0x00);
    expected.extend_from_slice(&1i64.to_le_bytes());
    assert_eq!(snap.heap_data, expected);
    // stack section: count 1, the list at position 1
    let mut stack = 1u32.to_le_bytes().to_vec();
    stack.push(0x05);
    stack.extend_from_slice(&1u32.to_le_bytes());
    assert_eq!(snap.stack_data, stack);
}

#[test]
fn restore_rejects_position_out_of_range() {
    let mut vm = VM::new();
    let a = vm.alloc_string("x".into());
    vm.stack.push(Value::String(a));
    let ch = vm.code_hash();
    let mut snap = Snapshot::capture(&mut vm, ch);
    // make the stack name a position that was never read
    let n = snap.stack_data.len();
    snap.stack_data[n - 4..].copy_from_slice(&5u32.to_le_bytes());
    let mut restored = VM::new();
    let err = snap.restore_into(&mut restored, ch).unwrap_err();
    assert_eq!(err, SnapshotError::InvalidHeapPosition(5));
    assert!(restored.stack.is_empty());
}

#[test]
fn truncated_file_is_reported() {
    let mut vm = make_test_vm();
    let ch = vm.code_hash();
    let snap = Snapshot::capture(&mut vm, ch);
    let bytes = snap.to_bytes();
    let err = Snapshot::read_from_bytes(&bytes[..20]).unwrap_err();
    assert_eq!(err, SnapshotError::UnexpectedEof);
}

#[test]
fn file_reads_back_every_part() {
    let mut vm = make_test_vm();
    let code_hash = vm.code_hash();
    let snap = Snapshot::capture(&mut vm, code_hash);
    let loaded = Snapshot::read_from_bytes(&snap.to_bytes()).unwrap();
    assert_eq!(loaded.header.version, snap.header.version);
    assert_eq!(loaded.header.timestamp, snap.header.timestamp);
    assert_eq!(loaded.header.frame_count, snap.header.frame_count);
    assert_eq!(loaded.header.io_handle_count, snap.header.io_handle_count);
    assert_eq!(loaded.header.task_count, snap.header.task_count);
    assert_eq!(loaded.io_section, snap.io_section);
    // With no settled task the count-only task section is not read back.
    assert_eq!(snap.header.task_count, 0);
    assert_eq!(snap.task_section, vec![0, 0, 0, 0]);
    assert!(loaded.task_section.is_empty());
    // Writing the read-back snapshot again gives the same file but for that section.
    let again = loaded.to_bytes();
    let first = snap.to_bytes();
    assert_eq!(again.len() + 4, first.len());
    assert_eq!(&again[..], &first[..first.len() - 4]);
}

#[test]
fn section_past_the_end_is_an_error() {
    let mut data: Vec<u8> = b"PAUS".to_vec();
    data.extend_from_slice(&3u32.to_le_bytes());
    data.extend_from_slice(&[0u8; 16]);
    data.extend_from_slice(&1u32.to_le_bytes());
    data.extend_from_slice(&[0u8; 16]);
    data.push(0x04);
    data.extend_from_slice(&100u32.to_le_bytes());
    assert!(!Snapshot::sections_fit(&data));
    assert!(matches!(Snapshot::read_from_bytes(&data), Err(SnapshotError::UnexpectedEof)));
}

#[test]
fn list_referring_to_a_later_slot_is_captured_and_restored() {
    let mut vm = fresh_main_vm();
    vm.alloc_string("a".into());
    vm.alloc_string("b".into());
    vm.collect_garbage();
    let s = vm.alloc_string("s".into());
    let l = vm.alloc_list(vec![Value::String(s)]);
    assert!(l.index < s.index, "the list reuses the lower slot");
    vm.stack.push(Value::List(l));
    let ch = vm.code_hash();
    let snap = Snapshot::capture(&mut vm, ch);
    assert_eq!(snap.header.heap_count, 2);
    let loaded = Snapshot::read_from_bytes(&snap.to_bytes()).unwrap();
    let mut restored = fresh_main_vm();
    let rch = restored.code_hash();
    loaded.restore_into(&mut restored, rch).unwrap();
    assert_eq!(restored.stack.len(), 1);
    let g = match restored.stack[0] {
        Value::List(g) => g,
        ref other => panic!("expected a list, got {other:?}"),
    };
    let elements = restored.get_list(g).unwrap().elements.clone();
    assert_eq!(elements.len(), 1);
    match elements[0] {
        Value::String(t) => assert_eq!(restored.get_string(t).unwrap().data, "s"),
        ref other => panic!("expected a string, got {other:?}"),
    }
}

#[test]
fn capture_at_stamps_the_given_time() {
    let mut vm = make_test_vm();
    let ch = vm.code_hash();
    let snap = Snapshot::capture_at(&mut vm, ch, 1_700_000_000);
    assert_eq!(snap.header.timestamp, 1_700_000_000);
    let loaded = Snapshot::read_from_bytes(&snap.to_bytes()).unwrap();
    assert_eq!(loaded.header.timestamp, 1_700_000_000);
}
