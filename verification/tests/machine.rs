use pausible::function::Function;
use pausible::io::{FileMode, HandleId, IoHandle, IoStrategy};
use pausible::opcode::OpCode;
use pausible::value::Value;
use pausible::vm::{FloatOp, HeapError, HostCall, HostReply, ResumeError, VmError, VM};
use pausible::reconnect::ReconnectOutcome;
use pausible::snapshot::Snapshot;

/// Outcomes of a host that reaches every resource of `snap`.
fn reach(snap: &Snapshot) -> Vec<ReconnectOutcome> {
    snap.io_handle_snapshots().iter().map(|_| ReconnectOutcome::Reached { response: Vec::new() }).collect()
}

fn f(x: f64) -> Value {
    Value::Float(x.to_bits())
}

/// The host's part of float instructions, for tests.
fn float_reply(call: &HostCall) -> HostReply {
    match call {
        HostCall::FloatBinary { op, lhs, rhs } => {
            let (a, b) = (f64::from_bits(*lhs), f64::from_bits(*rhs));
            let v = match op {
                FloatOp::Add => f(a + b),
                FloatOp::Sub => f(a - b),
                FloatOp::Mul => f(a * b),
                FloatOp::Div => f(a / b),
                FloatOp::Mod => f(a % b),
                FloatOp::Eq => Value::Bool(a == b),
                FloatOp::Neq => Value::Bool(a != b),
                FloatOp::Lt => Value::Bool(a < b),
                FloatOp::Lte => Value::Bool(a <= b),
                FloatOp::Gt => Value::Bool(a > b),
                FloatOp::Gte => Value::Bool(a >= b),
            };
            HostReply::Value(v)
        }
        HostCall::FloatNeg { operand } => HostReply::Value(f(-f64::from_bits(*operand))),
        other => panic!("unexpected host call {other:?}"),
    }
}

/// Run, answering the host calls the machine makes.
fn drive(vm: &mut VM) -> Result<(), VmError> {
    loop {
        vm.run()?;
        let call = match &vm.pending {
            Some(c) => c.clone(),
            None => return Ok(()),
        };
        vm.complete(float_reply(&call))?;
    }
}

fn make_vm(code: Vec<OpCode>) -> VM {
    let mut vm = VM::new();
    let main = Function::new("main", 0, code, 0);
    vm.add_function(main);
    vm.prepare(0).unwrap();
    vm
}

fn run_code(code: Vec<OpCode>) -> Result<VM, VmError> {
    let mut vm = make_vm(code);
    drive(&mut vm)?;
    Ok(vm)
}

#[test]
fn simple_push_and_add() {
    let vm = run_code(vec![OpCode::Push(Value::Int(2)), OpCode::Push(Value::Int(3)), OpCode::Add, OpCode::Halt]).unwrap();
    assert_eq!(vm.stack, vec![Value::Int(5)]);
}

#[test]
fn sub_mul_div_mod() {
    let vm = run_code(vec![OpCode::Push(Value::Int(10)), OpCode::Push(Value::Int(3)), OpCode::Sub, OpCode::Halt]).unwrap();
    assert_eq!(vm.stack, vec![Value::Int(7)]);
}

#[test]
fn float_arithmetic() {
    let vm = run_code(vec![OpCode::Push(f(3.0)), OpCode::Push(f(4.0)), OpCode::Mul, OpCode::Halt]).unwrap();
    assert_eq!(vm.stack, vec![f(12.0)]);
}

#[test]
fn vm_negate() {
    let vm = run_code(vec![OpCode::Push(Value::Int(42)), OpCode::Neg, OpCode::Halt]).unwrap();
    assert_eq!(vm.stack, vec![Value::Int(-42)]);
}

#[test]
fn pop_discards_top() {
    let vm = run_code(vec![OpCode::Push(Value::Int(1)), OpCode::Push(Value::Int(2)), OpCode::Pop, OpCode::Halt]).unwrap();
    assert_eq!(vm.stack, vec![Value::Int(1)]);
}

#[test]
fn dup_duplicates_top() {
    let vm = run_code(vec![OpCode::Push(Value::Int(7)), OpCode::Dup, OpCode::Halt]).unwrap();
    assert_eq!(vm.stack, vec![Value::Int(7), Value::Int(7)]);
}

#[test]
fn compare_eq_and_lt() {
    let vm = run_code(vec![OpCode::Push(Value::Int(5)), OpCode::Push(Value::Int(5)), OpCode::Eq, OpCode::Halt]).unwrap();
    assert_eq!(vm.stack, vec![Value::Bool(true)]);
}

#[test]
fn compare_lt() {
    let vm = run_code(vec![OpCode::Push(Value::Int(3)), OpCode::Push(Value::Int(7)), OpCode::Lt, OpCode::Halt]).unwrap();
    assert_eq!(vm.stack, vec![Value::Bool(true)]);
}

#[test]
fn vm_logical_and_or_not() {
    let vm = run_code(vec![
        OpCode::Push(Value::Bool(true)),
        OpCode::Push(Value::Bool(false)),
        OpCode::Or,
        OpCode::Not,
        OpCode::Halt,
    ])
    .unwrap();
    assert_eq!(vm.stack, vec![Value::Bool(false)]);
}

#[test]
fn unconditional_jump_skips_halt() {
    let vm = run_code(vec![
        OpCode::Jump(3),
        OpCode::Push(Value::Int(999)),
        OpCode::Halt,
        OpCode::Push(Value::Int(42)),
        OpCode::Halt,
    ])
    .unwrap();
    assert_eq!(vm.stack, vec![Value::Int(42)]);
}

#[test]
fn jump_if_true() {
    let vm = run_code(vec![
        OpCode::Push(Value::Bool(true)),
        OpCode::JumpIfTrue(4),
        OpCode::Push(Value::Int(1)),
        OpCode::Halt,
        OpCode::Push(Value::Int(2)),
        OpCode::Halt,
    ])
    .unwrap();
    assert_eq!(vm.stack, vec![Value::Int(2)]);
}

#[test]
fn jump_if_false() {
    let vm = run_code(vec![
        OpCode::Push(Value::Bool(false)),
        OpCode::JumpIfFalse(4),
        OpCode::Push(Value::Int(1)),
        OpCode::Halt,
        OpCode::Push(Value::Int(2)),
        OpCode::Halt,
    ])
    .unwrap();
    assert_eq!(vm.stack, vec![Value::Int(2)]);
}

#[test]
fn loop_with_counter() {
    let code = vec![
        OpCode::Push(Value::Int(3)),
        OpCode::Store(0),
        OpCode::Load(0),
        OpCode::Push(Value::Int(0)),
        OpCode::Eq,
        OpCode::JumpIfTrue(11),
        OpCode::Load(0),
        OpCode::Push(Value::Int(1)),
        OpCode::Sub,
        OpCode::Store(0),
        OpCode::Jump(2),
        OpCode::Halt,
    ];
    let mut vm = VM::new();
    vm.add_function(Function::new("main", 0, code, 1));
    vm.prepare(0).unwrap();
    vm.run().unwrap();
    assert!(vm.stack.is_empty());
}

#[test]
fn store_and_load_local() {
    let code = vec![
        OpCode::Push(Value::Int(100)),
        OpCode::Store(0),
        OpCode::Push(Value::Int(200)),
        OpCode::Store(1),
        OpCode::Load(0),
        OpCode::Load(1),
        OpCode::Add,
        OpCode::Halt,
    ];
    let mut vm = VM::new();
    vm.add_function(Function::new("main", 0, code, 3));
    vm.prepare(0).unwrap();
    vm.run().unwrap();
    assert_eq!(vm.stack, vec![Value::Int(300)]);
}

#[test]
fn call_and_return() {
    let add_one = Function::new("add_one", 1, vec![OpCode::Load(0), OpCode::Push(Value::Int(1)), OpCode::Add, OpCode::Return], 1);
    let main = Function::new("main", 0, vec![OpCode::Push(Value::Int(41)), OpCode::Call(1), OpCode::Halt], 0);
    let mut vm = VM::new();
    vm.add_function(main);
    vm.add_function(add_one);
    vm.prepare(0).unwrap();
    vm.run().unwrap();
    assert_eq!(vm.stack, vec![Value::Int(42)]);
}

#[test]
fn nested_calls() {
    let double = Function::new("double", 1, vec![OpCode::Load(0), OpCode::Push(Value::Int(2)), OpCode::Mul, OpCode::Return], 1);
    let add_doubled = Function::new(
        "add_doubled",
        2,
        vec![OpCode::Load(0), OpCode::Call(2), OpCode::Load(1), OpCode::Call(2), OpCode::Add, OpCode::Return],
        2,
    );
    let main = Function::new(
        "main",
        0,
        vec![OpCode::Push(Value::Int(3)), OpCode::Push(Value::Int(4)), OpCode::Call(1), OpCode::Halt],
        0,
    );
    let mut vm = VM::new();
    vm.add_function(main);
    vm.add_function(add_doubled);
    vm.add_function(double);
    vm.prepare(0).unwrap();
    vm.run().unwrap();
    assert_eq!(vm.stack, vec![Value::Int(14)]);
}

#[test]
fn stack_underflow_on_pop_empty() {
    let result = run_code(vec![OpCode::Pop, OpCode::Halt]);
    assert!(matches!(result, Err(VmError::StackUnderflow)));
}

#[test]
fn type_error_on_mixed_arithmetic() {
    let result = run_code(vec![OpCode::Push(Value::Int(1)), OpCode::Push(f(2.0)), OpCode::Add, OpCode::Halt]);
    assert!(matches!(result, Err(VmError::TypeError(_))));
}

#[test]
fn local_out_of_bounds() {
    let result = run_code(vec![OpCode::Push(Value::Int(1)), OpCode::Store(99), OpCode::Halt]);
    assert!(matches!(result, Err(VmError::LocalOutOfBounds(99))));
}

#[test]
fn invalid_function_call() {
    let result = run_code(vec![OpCode::Call(42), OpCode::Halt]);
    assert!(matches!(result, Err(VmError::InvalidFunction(42))));
}

#[test]
fn empty_frame_stack_run() {
    let mut vm = VM::new();
    vm.running = true;
    let result = vm.run();
    assert!(matches!(result, Err(VmError::EmptyFrameStack)));
}

#[test]
fn gc_collects_unreferenced_string() {
    let mut vm = VM::new();
    let _gc = vm.alloc_string("discard me".into());
    assert_eq!(vm.heap.len(), 1);
    let _a = vm.alloc_string("keep".into());
    let _b = vm.alloc_string("keep".into());
    let _c = vm.alloc_string("keep".into());
}

#[test]
fn gc_frees_unreachable_heap_objects() {
    let mut vm = VM::new();
    let a = vm.alloc_string("hello".into());
    let b = vm.alloc_list(vec![Value::Int(1), Value::Int(2)]);
    assert_eq!(vm.heap.len(), 2);
    vm.stack.push(Value::String(a));
    vm.stack.push(Value::List(b));
    let cap_before = vm.heap.capacity();
    vm.stack.pop();
    vm.stack.pop();
    vm.collect_garbage();
    assert_eq!(vm.heap.len(), 0);
    assert_eq!(vm.heap.capacity(), cap_before);
}

#[test]
fn gc_preserves_reachable_objects() {
    let mut vm = VM::new();
    let a = vm.alloc_string("survivor".into());
    let _b = vm.alloc_string("also alive".into());
    vm.stack.push(Value::String(a));
    let cap_before = vm.heap.capacity();
    vm.collect_garbage();
    assert_eq!(vm.heap.len(), 1);
    assert_eq!(vm.heap.capacity(), cap_before);
    assert_eq!(vm.get_string(a).unwrap().data, "survivor");
}

#[test]
fn gc_preserves_nested_list_elements() {
    let mut vm = VM::new();
    let inner = vm.alloc_list(vec![Value::Int(1), Value::Int(2)]);
    let outer = vm.alloc_list(vec![Value::List(inner), Value::Int(42)]);
    vm.stack.push(Value::List(outer));
    vm.collect_garbage();
    assert_eq!(vm.heap.len(), 2);
    let outer_list = vm.get_list(outer).unwrap();
    assert_eq!(outer_list.elements.len(), 2);
    if let Value::List(inner_gc) = &outer_list.elements[0] {
        assert_eq!(vm.get_list(*inner_gc).unwrap().elements, vec![Value::Int(1), Value::Int(2)]);
    } else {
        panic!("inner should be a List");
    }
}

#[test]
fn gc_slot_reuse_after_collection() {
    let mut vm = VM::new();
    let a = vm.alloc_string("first".into());
    let idx_a = a.index;
    vm.stack.push(Value::String(a));
    vm.stack.pop();
    vm.collect_garbage();
    assert_eq!(vm.heap.len(), 0);
    let b = vm.alloc_string("second".into());
    assert_eq!(b.index, idx_a, "new allocation should reuse freed slot");
    assert_eq!(vm.get_string(b).unwrap().data, "second");
}

#[test]
fn gc_multiple_cycles() {
    let mut vm = VM::new();
    let a = vm.alloc_string("one".into());
    vm.stack.push(Value::String(a));
    vm.collect_garbage();
    assert_eq!(vm.heap.len(), 1);
    vm.stack.pop();
    vm.collect_garbage();
    assert_eq!(vm.heap.len(), 0);
    let b = vm.alloc_string("two".into());
    vm.stack.push(Value::String(b));
    vm.collect_garbage();
    assert_eq!(vm.heap.len(), 1);
    assert_eq!(vm.get_string(b).unwrap().data, "two");
}

#[test]
fn yield_pauses_execution() {
    let mut vm = make_vm(vec![OpCode::Push(Value::Int(42)), OpCode::Yield, OpCode::Push(Value::Int(99)), OpCode::Halt]);
    vm.step().unwrap();
    assert_eq!(vm.stack, &[Value::Int(42)]);
    assert!(vm.running);
    vm.step().unwrap();
    assert!(!vm.running);
    assert_eq!(vm.stack, &[Value::Int(42)]);
    vm.running = true;
    vm.step().unwrap();
    assert_eq!(vm.stack, &[Value::Int(42), Value::Int(99)]);
    vm.step().unwrap();
    assert!(!vm.running);
}

#[test]
fn resume_continues_after_yield() {
    let mut vm = make_vm(vec![OpCode::Push(Value::Int(10)), OpCode::Yield, OpCode::Push(Value::Int(20)), OpCode::Halt]);
    vm.step().unwrap();
    vm.step().unwrap();
    let snap = vm.create_snapshot();
    let err = vm.resume(&snap, &reach(&snap));
    assert!(err.is_ok(), "resume should succeed after yield");
    assert_eq!(vm.stack, &[Value::Int(10), Value::Int(20)]);
    assert!(!vm.running);
}

#[test]
fn resume_preserves_heap_objects() {
    let mut vm = make_vm(vec![OpCode::Push(Value::Null), OpCode::Yield, OpCode::Halt]);
    let gc = vm.alloc_string("persistent".into());
    vm.stack.push(Value::String(gc));
    vm.step().unwrap();
    vm.stack.pop().unwrap();
    vm.step().unwrap();
    let snap = vm.create_snapshot();
    let err = vm.resume(&snap, &reach(&snap));
    assert!(err.is_ok(), "resume should succeed");
    assert!(!vm.frames.is_empty(), "frames should survive resume");
    if let Value::String(gc2) = &vm.stack[0] {
        assert_eq!(vm.heap.get(*gc2).unwrap().data, "persistent");
    } else {
        panic!("expected String on stack");
    }
}

#[test]
fn resume_multiple_cycles() {
    let mut vm = make_vm(vec![
        OpCode::Push(Value::Int(1)),
        OpCode::Yield,
        OpCode::Push(Value::Int(2)),
        OpCode::Yield,
        OpCode::Push(Value::Int(3)),
        OpCode::Halt,
    ]);
    vm.step().unwrap();
    vm.step().unwrap();
    let snap1 = vm.create_snapshot();
    vm.resume(&snap1, &reach(&snap1)).unwrap();
    assert!(!vm.running);
    assert!(!vm.stack.is_empty());
    vm.running = true;
    vm.step().unwrap();
    vm.step().unwrap();
    assert_eq!(vm.stack, &[Value::Int(1), Value::Int(2), Value::Int(3)]);
}

#[test]
fn resume_error_display() {
    assert_eq!(ResumeError::Snapshot("bad".into()).display_string(), "resume snapshot error: bad");
    assert_eq!(ResumeError::Vm(VmError::Halted).display_string(), "resume VM error: VM halted");
}

#[test]
fn handle_creation_and_retrieval() {
    let mut vm = VM::new();
    let h = IoHandle::File {
        attached: false,
        cached: None,
        path: "/tmp/a.txt".into(),
        mode: FileMode::Read,
        position: 0,
        strategy: IoStrategy::Seek,
    };
    let id = vm.create_handle(h);
    assert_eq!(vm.handle_count(), 1);
    assert_eq!(vm.get_handle(id).unwrap().kind_name(), "File");
}

#[test]
fn handle_id_monotonic() {
    let mut vm = VM::new();
    let id1 = vm.create_handle(IoHandle::Stdin { buffer: vec![] });
    let id2 = vm.create_handle(IoHandle::Stdout { buffer: vec![] });
    assert_eq!(id1, HandleId(0));
    assert_eq!(id2, HandleId(1));
}

#[test]
fn close_handle_removes_from_registry() {
    let mut vm = VM::new();
    let id = vm.create_handle(IoHandle::Timer { ms: 100, strategy: IoStrategy::Replay });
    assert_eq!(vm.handle_count(), 1);
    assert!(vm.close_handle(id));
    assert_eq!(vm.handle_count(), 0);
    assert!(vm.get_handle(id).is_none());
}

#[test]
fn close_nonexistent_handle_returns_false() {
    let mut vm = VM::new();
    assert!(!vm.close_handle(HandleId(99)));
}

#[test]
fn get_handle_mut_allows_modification() {
    let mut vm = VM::new();
    let id = vm.create_handle(IoHandle::File {
        path: "/tmp/log.txt".into(),
        mode: FileMode::Write,
        attached: false,
        cached: None,
        position: 0,
        strategy: IoStrategy::Seek,
    });
    if let Some(IoHandle::File { position, .. }) = vm.get_handle_mut(id) {
        *position = 128;
    }
    if let Some(IoHandle::File { position, .. }) = vm.get_handle(id) {
        assert_eq!(*position, 128);
    } else {
        panic!("expected File handle");
    }
}

#[test]
fn handle_count_starts_at_zero() {
    let vm = VM::new();
    assert_eq!(vm.handle_count(), 0);
}

#[test]
fn multiple_handle_types_coexist() {
    let mut vm = VM::new();
    vm.create_handle(IoHandle::Stdin { buffer: vec![1, 2] });
    vm.create_handle(IoHandle::Stdout { buffer: vec![] });
    vm.create_handle(IoHandle::File {
        path: "/tmp/x".into(),
        mode: FileMode::Read,
        attached: false,
        cached: None,
        position: 0,
        strategy: IoStrategy::Seek,
    });
    vm.create_handle(IoHandle::HttpConnection {
        url: "https://example.com".into(),
        method: pausible::io::HttpMethod::Get,
        body: None,
        last_response: None,
        strategy: IoStrategy::Replay,
    });
    assert_eq!(vm.handle_count(), 4);
}

#[test]
fn vm_clone_preserves_handles() {
    let mut vm = VM::new();
    vm.create_handle(IoHandle::Stdin { buffer: vec![42] });
    assert_eq!(vm.handle_count(), 1);
    let vm2 = vm.clone();
    assert_eq!(vm2.handle_count(), 1);
}

#[test]
fn handle_id_wrapping_is_safe() {
    let mut vm = VM::new();
    vm.next_handle_id = u32::MAX;
    let id = vm.create_handle(IoHandle::Stdin { buffer: vec![] });
    assert_eq!(id, HandleId(u32::MAX));
    assert_eq!(vm.next_handle_id, 0);
}

#[test]
fn stdout_write_accumulates() {
    let mut vm = VM::new();
    let h = vm.create_handle(IoHandle::Stdout { buffer: vec![] });
    vm.add_function(Function::new(
        "main",
        0,
        vec![OpCode::Push(Value::Int(65)), OpCode::StdoutWrite, OpCode::Push(Value::Int(66)), OpCode::StdoutWrite, OpCode::Halt],
        0,
    ));
    vm.prepare(0).unwrap();
    vm.run().unwrap();
    if let IoHandle::Stdout { buffer } = vm.get_handle(h).unwrap() {
        assert_eq!(buffer, b"6566");
    } else {
        panic!("expected Stdout handle");
    }
}

#[test]
fn stderr_write_accumulates() {
    let mut vm = VM::new();
    let h = vm.create_handle(IoHandle::Stderr { buffer: vec![] });
    vm.add_function(Function::new("main", 0, vec![OpCode::Push(Value::Bool(true)), OpCode::StderrWrite, OpCode::Halt], 0));
    vm.prepare(0).unwrap();
    vm.run().unwrap();
    if let IoHandle::Stderr { buffer } = vm.get_handle(h).unwrap() {
        assert_eq!(buffer, b"true");
    } else {
        panic!("expected Stderr handle");
    }
}

#[test]
fn stdin_read_from_buffer() {
    let mut vm = VM::new();
    vm.create_handle(IoHandle::Stdin { buffer: vec![72, 69, 76, 76, 79] });
    vm.add_function(Function::new("main", 0, vec![OpCode::StdinRead, OpCode::Halt], 0));
    vm.prepare(0).unwrap();
    vm.step().unwrap();
    if let Value::List(gc) = vm.stack.last().unwrap() {
        let elements = &vm.heap.get(*gc).unwrap().elements;
        assert_eq!(elements.len(), 5);
        assert_eq!(elements[0], Value::Int(72));
        assert_eq!(elements[4], Value::Int(79));
    } else {
        panic!("expected List from stdin read");
    }
}

#[test]
fn cached_strategy_file_read_uses_cache() {
    let mut vm = VM::new();
    let h = vm.create_handle(IoHandle::File {
        path: "/tmp/nonexistent_cached_test.txt".into(),
        mode: FileMode::Read,
        position: 0,
        strategy: IoStrategy::Cached,
        attached: false,
        cached: Some(vec![72, 105]),
    });
    vm.add_function(Function::new("main", 0, vec![OpCode::FileRead(h), OpCode::Halt], 0));
    vm.prepare(0).unwrap();
    vm.step().unwrap();
    assert!(vm.pending.is_none(), "a cached read needs no host");
    if let Value::List(gc) = vm.stack.last().unwrap() {
        let elements = &vm.heap.get(*gc).unwrap().elements;
        assert_eq!(elements.len(), 2);
        assert_eq!(elements[0], Value::Int(72));
        assert_eq!(elements[1], Value::Int(105));
    } else {
        panic!("expected List from cached read");
    }
}

#[test]
fn timer_sleep_is_noop() {
    let mut vm = VM::new();
    vm.add_function(Function::new(
        "main",
        0,
        vec![OpCode::Push(Value::Int(1)), OpCode::TimerSleep { ms: Value::Int(1000) }, OpCode::Push(Value::Int(2)), OpCode::Halt],
        0,
    ));
    vm.prepare(0).unwrap();
    vm.run().unwrap();
    assert_eq!(vm.stack, &[Value::Int(1), Value::Int(2)]);
}

#[test]
fn file_open_opcode_creates_file_handle() {
    let mut vm = VM::new();
    let path = vm.alloc_string("/tmp/pausible_test_open.txt".into());
    let mode = vm.alloc_string("w".into());
    vm.add_function(Function::new(
        "main",
        0,
        vec![OpCode::FileOpen { path: Value::String(path), mode: Value::String(mode) }, OpCode::Halt],
        0,
    ));
    vm.prepare(0).unwrap();
    vm.step().unwrap();
    assert_eq!(vm.handle_count(), 1);
    if let Value::Int(id) = vm.stack.last().unwrap() {
        let h = vm.get_handle(HandleId((*id).try_into().unwrap())).unwrap();
        assert_eq!(h.kind_name(), "File");
        if let IoHandle::File { mode, path, .. } = h {
            assert_eq!(*mode, FileMode::Write);
            assert_eq!(path, "/tmp/pausible_test_open.txt");
        }
    } else {
        panic!("expected Int handle ID on stack");
    }
}

#[test]
fn file_open_parses_read_mode_from_string() {
    let mut vm = VM::new();
    let path = vm.alloc_string("/tmp/pausible_test_mode.txt".into());
    let mode = vm.alloc_string("r".into());
    vm.add_function(Function::new(
        "main",
        0,
        vec![OpCode::FileOpen { path: Value::String(path), mode: Value::String(mode) }, OpCode::Halt],
        0,
    ));
    vm.prepare(0).unwrap();
    vm.step().unwrap();
    let id = if let Value::Int(id) = vm.stack.last().unwrap() { (*id).try_into().unwrap() } else { 0 };
    if let IoHandle::File { mode: fmode, .. } = vm.get_handle(HandleId(id)).unwrap() {
        assert_eq!(*fmode, FileMode::Read);
    } else {
        panic!("expected File handle");
    }
}

#[test]
fn file_close_opcode_removes_handle_and_pushes_bool() {
    let mut vm = VM::new();
    let path = vm.alloc_string("/tmp/pausible_test_close.txt".into());
    let mode = vm.alloc_string("w".into());
    vm.add_function(Function::new(
        "main",
        0,
        vec![
            OpCode::FileOpen { path: Value::String(path), mode: Value::String(mode) },
            OpCode::FileClose(HandleId(0)),
            OpCode::Halt,
        ],
        0,
    ));
    vm.prepare(0).unwrap();
    vm.step().unwrap();
    vm.step().unwrap();
    assert_eq!(vm.handle_count(), 0);
    assert_eq!(vm.stack.last().unwrap(), &Value::Bool(true));
    assert!(matches!(vm.pending, Some(HostCall::Release { handle: HandleId(0) })));
}

#[test]
fn float_comparison_and_negation_through_host() {
    let vm = run_code(vec![OpCode::Push(f(1.5)), OpCode::Push(f(2.5)), OpCode::Lt, OpCode::Push(f(2.0)), OpCode::Neg, OpCode::Halt])
        .unwrap();
    assert_eq!(vm.stack, vec![Value::Bool(true), f(-2.0)]);
}

#[test]
fn error_messages() {
    assert_eq!(VmError::StackUnderflow.display_string(), "stack underflow");
    assert_eq!(VmError::InvalidFunction(3).display_string(), "invalid function index: 3");
    assert_eq!(VmError::LocalOutOfBounds(9).display_string(), "local 9 out of bounds");
    assert_eq!(VmError::IoError("x".into()).display_string(), "I/O error: x");
}

#[test]
fn division_by_host_float_and_int_division_truncates() {
    let vm = run_code(vec![OpCode::Push(Value::Int(-7)), OpCode::Push(Value::Int(2)), OpCode::Div, OpCode::Halt]).unwrap();
    assert_eq!(vm.stack, vec![Value::Int(-3)]);
}

#[test]
fn step_on_bad_ip_changes_nothing() {
    let mut vm = make_vm(vec![OpCode::Jump(10)]);
    vm.step().unwrap();
    let before = vm.stack.clone();
    assert!(matches!(vm.step(), Err(VmError::InvalidIp)));
    assert_eq!(vm.stack, before);
    assert_eq!(vm.frames[0].ip, 10);
}

/// A host with one in-memory file: reads give its bytes from the position
/// asked for.
fn read_from(content: &[u8], call: &HostCall) -> HostReply {
    match call {
        HostCall::FileRead { position, seek, .. } => {
            let from = if *seek { (*position as usize).min(content.len()) } else { 0 };
            HostReply::Bytes(content[from..].to_vec())
        }
        HostCall::FileSeek { .. } => HostReply::Done,
        other => panic!("unexpected host call {other:?}"),
    }
}

fn seek_then_read(content: &[u8], offset: i64) -> (VM, HandleId) {
    let mut vm = VM::new();
    let h = vm.create_handle(IoHandle::File {
        path: "/tmp/pausible_in_memory.txt".into(),
        mode: FileMode::Read,
        position: 0,
        strategy: IoStrategy::Seek,
        attached: false,
        cached: None,
    });
    vm.add_function(Function::new(
        "main",
        0,
        vec![OpCode::FileSeek { handle: h, offset: Value::Int(offset) }, OpCode::Pop, OpCode::FileRead(h), OpCode::Halt],
        0,
    ));
    vm.prepare(0).unwrap();
    loop {
        vm.run().unwrap();
        let call = match &vm.pending {
            Some(c) => c.clone(),
            None => break,
        };
        vm.complete(read_from(content, &call)).unwrap();
    }
    (vm, h)
}

#[test]
fn file_seek_tracks_position() {
    let (vm, _) = seek_then_read(b"abcdef", 3);
    if let Value::List(gc) = vm.stack.last().unwrap() {
        let elements = &vm.heap.get(*gc).unwrap().elements;
        assert_eq!(elements.len(), 3);
    } else {
        panic!("expected List");
    }
}

#[test]
fn seek_strategy_read_tracks_position() {
    let (vm, h) = seek_then_read(b"0123456789", 5);
    if let Value::List(gc) = vm.stack.last().unwrap() {
        let elements = &vm.heap.get(*gc).unwrap().elements;
        assert_eq!(elements.len(), 5);
    } else {
        panic!("expected List");
    }
    if let IoHandle::File { position, .. } = vm.get_handle(h).unwrap() {
        assert_eq!(*position, 10);
    } else {
        panic!("expected File");
    }
}

#[test]
fn freed_string_is_a_heap_error() {
    let mut vm = VM::new();
    let a = vm.alloc_string("first".into());
    assert_eq!(vm.get_string(a).unwrap().data, "first");
    vm.collect_garbage();
    assert!(matches!(vm.get_string(a), Err(VmError::HeapError(HeapError::InvalidHandle))));
    let l = vm.alloc_list(vec![Value::Int(1)]);
    vm.collect_garbage();
    assert!(matches!(vm.get_list(l), Err(VmError::HeapError(HeapError::InvalidHandle))));
}

#[test]
fn live_count_is_slots_less_free_slots() {
    let mut vm = VM::new();
    let a = vm.alloc_string("kept".into());
    vm.alloc_string("dropped".into());
    vm.alloc_list(vec![]);
    vm.stack.push(Value::String(a));
    vm.collect_garbage();
    assert_eq!(vm.heap.capacity(), 3);
    assert_eq!(vm.heap.len(), 1);
}
