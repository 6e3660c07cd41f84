use pausible::function::Function;
use pausible::io::{FileMode, HandleId, HttpMethod, IoHandle, IoStrategy};
use pausible::opcode::OpCode;
use pausible::reconnect::{ReconnectOutcome, ReconnectRequest};
use pausible::snapshot::{ReconnectStatus, Snapshot};
use pausible::task::{Task, TaskId, TaskStatus};
use pausible::value::Value;
use pausible::vm::{ResumeError, VM};

fn run_to_yield(code: Vec<OpCode>) -> VM {
    let mut vm = VM::new();
    vm.add_function(Function::new("main", 0, code, 0));
    vm.prepare(0).unwrap();
    while vm.running {
        vm.step().unwrap();
    }
    assert!(!vm.running, "expected VM to have yielded");
    vm
}

fn yield_program() -> Vec<OpCode> {
    vec![OpCode::Push(Value::Int(0)), OpCode::Yield, OpCode::Halt]
}

/// The host's outcome for each request, as a test host that reaches every
/// resource and answers HTTP requests with `body`.
fn reach_all(snap: &Snapshot, body: &[u8]) -> Vec<ReconnectOutcome> {
    snap.io_handle_snapshots()
        .iter()
        .map(|s| match Snapshot::reconnect_request(s) {
            ReconnectRequest::Replay { .. } => ReconnectOutcome::Reached { response: body.to_vec() },
            _ => ReconnectOutcome::Reached { response: Vec::new() },
        })
        .collect()
}

#[test]
fn v2_snapshot_with_io_roundtrip() {
    let mut vm = VM::new();
    vm.add_function(Function::new("main", 0, vec![OpCode::Push(Value::Int(1)), OpCode::Halt], 0));
    vm.prepare(0).unwrap();
    vm.run().unwrap();
    vm.create_handle(IoHandle::Timer { ms: 500, strategy: IoStrategy::Replay });
    vm.create_handle(IoHandle::Stdin { buffer: vec![1, 2, 3] });
    let snap = vm.create_snapshot();
    assert_eq!(snap.header.version, 3);
    assert_eq!(snap.header.io_handle_count, 2);
    let loaded = Snapshot::read_from_bytes(&snap.to_bytes()).unwrap();
    assert_eq!(loaded.header.io_handle_count, 2);
}

#[test]
fn file_yield_seek_reconnect_resume() {
    let mut vm = run_to_yield(yield_program());
    vm.create_handle(IoHandle::File {
        path: "/tmp/pausible_seek_test.txt".into(),
        mode: FileMode::Read,
        position: 5,
        strategy: IoStrategy::Seek,
        attached: false,
        cached: None,
    });
    let snap = vm.create_snapshot();
    assert_eq!(snap.header.io_handle_count, 1);
    let result = vm.resume(&snap, &reach_all(&snap, b""));
    assert!(result.is_ok(), "resume should succeed: {result:?}");

    let entries = snap.io_handle_snapshots();
    match Snapshot::reconnect_request(&entries[0]) {
        ReconnectRequest::OpenFile { path, position } => {
            assert_eq!(path, "/tmp/pausible_seek_test.txt");
            assert_eq!(position, 5);
        }
        other => panic!("expected OpenFile, got {other:?}"),
    }
    let report = snap.restore_io_handles(&mut vm, &reach_all(&snap, b""));
    assert!(!report.has_failures());
    let handle = vm.get_handle(HandleId(0)).expect("handle should exist");
    if let IoHandle::File { attached, position, .. } = handle {
        assert_eq!(*position, 5);
        assert!(*attached);
    } else {
        panic!("expected File handle");
    }
}

#[test]
fn ephemeral_stdin_cache_restore() {
    let mut vm = run_to_yield(yield_program());
    let handle_id = vm.create_handle(IoHandle::Stdin { buffer: b"cached_input".to_vec() });
    let snap = vm.create_snapshot();
    assert_eq!(snap.header.io_handle_count, 1);
    let result = vm.resume(&snap, &reach_all(&snap, b""));
    assert!(result.is_ok(), "resume should succeed: {result:?}");
    let report = snap.restore_io_handles(&mut vm, &reach_all(&snap, b""));
    assert_eq!(report.entries, vec![(handle_id, ReconnectStatus::Reconnected)]);
    let restored = vm.get_handle(handle_id).expect("handle should exist");
    if let IoHandle::Stdin { buffer } = restored {
        assert_eq!(buffer, b"cached_input");
    } else {
        panic!("expected Stdin handle");
    }
}

#[test]
fn multi_handle_mixed_strategies_snapshot() {
    let mut vm = run_to_yield(yield_program());
    vm.create_handle(IoHandle::File {
        path: "/tmp/pausible_multi_test.txt".into(),
        mode: FileMode::Read,
        position: 10,
        strategy: IoStrategy::Seek,
        attached: false,
        cached: None,
    });
    vm.create_handle(IoHandle::Stdin { buffer: b"stdin-data".to_vec() });
    let snap = vm.create_snapshot();
    assert_eq!(snap.header.io_handle_count, 2);
    let result = vm.resume(&snap, &reach_all(&snap, b""));
    assert!(result.is_ok(), "multi-handle resume should succeed: {result:?}");
    let report = snap.restore_io_handles(&mut vm, &reach_all(&snap, b""));
    assert_eq!(report.entries.len(), 2);
    assert_eq!(vm.handles.len(), 2);
}

fn http_vm(method: HttpMethod, body: Option<Vec<u8>>, last: &[u8]) -> (VM, Snapshot) {
    let mut vm = run_to_yield(yield_program());
    vm.create_handle(IoHandle::HttpConnection {
        url: "http://127.0.0.1:8080/data".into(),
        method,
        body,
        last_response: Some(last.to_vec()),
        strategy: IoStrategy::Replay,
    });
    let snap = vm.create_snapshot();
    assert_eq!(snap.header.io_handle_count, 1);
    (vm, snap)
}

#[test]
fn http_get_replay_response_matches() {
    let (mut vm, snap) = http_vm(HttpMethod::Get, None, b"fixed-body");
    let result = vm.resume(&snap, &reach_all(&snap, b"fixed-body"));
    assert!(result.is_ok(), "HTTP GET replay should succeed: {result:?}");
    let report = snap.restore_io_handles(&mut vm, &reach_all(&snap, b"fixed-body"));
    assert_eq!(report.entries[0].1, ReconnectStatus::Reconnected);
}

#[test]
fn http_post_replay() {
    let (mut vm, snap) = http_vm(HttpMethod::Post, Some(b"hello=world".to_vec()), b"echo-back-post");
    let result = vm.resume(&snap, &reach_all(&snap, b"echo-back-post"));
    assert!(result.is_ok(), "HTTP POST replay should succeed: {result:?}");
    match Snapshot::reconnect_request(&snap.io_handle_snapshots()[0]) {
        ReconnectRequest::Replay { url, method, body } => {
            assert_eq!(url, "http://127.0.0.1:8080/data");
            assert_eq!(method, HttpMethod::Post);
            assert_eq!(body, Some(b"hello=world".to_vec()));
        }
        other => panic!("expected Replay, got {other:?}"),
    }
    let report = snap.restore_io_handles(&mut vm, &reach_all(&snap, b"echo-back-post"));
    assert!(!report.has_failures());
}

#[test]
fn http_get_replay_data_diverged() {
    let (mut vm, snap) = http_vm(HttpMethod::Get, None, b"old-value-that-wont-match");
    let report = snap.restore_io_handles(&mut vm, &reach_all(&snap, b"1"));
    let degraded: Vec<_> = report.entries.iter().filter(|(_, s)| matches!(s, ReconnectStatus::Degraded { .. })).collect();
    assert!(!degraded.is_empty(), "expected DataDiverged (Degraded) for changing endpoint replay");
    assert_eq!(
        report.entries[0].1,
        ReconnectStatus::Degraded { reason: "DataDiverged: response differs from snapshot".into() }
    );
}

#[test]
fn http_endpoint_unreachable_reconnect_fails() {
    let (mut vm, snap) = http_vm(HttpMethod::Get, None, b"old");
    let outcomes = vec![ReconnectOutcome::Unreachable { reason: "connection refused".into() }];
    let report = snap.restore_io_handles(&mut vm, &outcomes);
    assert!(report.has_failures(), "expected failures for unreachable HTTP endpoint");
    assert_eq!(report.entries[0].1, ReconnectStatus::Failed { reason: "HTTP replay failed: connection refused".into() });
    if let Some(IoHandle::HttpConnection { last_response, .. }) = vm.get_handle(HandleId(0)) {
        assert_eq!(last_response, &Some(b"old".to_vec()));
    } else {
        panic!("expected HttpConnection");
    }
}

#[test]
fn per_task_io_handle_isolation_in_snapshot() {
    let mut vm = run_to_yield(yield_program());
    let child_id_1 = TaskId(1);
    let mut task_a = Task::new(child_id_1, Some(TaskId::root()));
    task_a.status = TaskStatus::Completed;
    task_a.io_handles.insert(
        HandleId(100),
        IoHandle::File {
            path: "/tmp/pausible_iso_a.txt".into(),
            mode: FileMode::Read,
            position: 2,
            strategy: IoStrategy::Seek,
            attached: false,
            cached: Some(b"AAAA".to_vec()),
        },
    );
    task_a.stack.push(Value::Int(1));
    let child_id_2 = TaskId(2);
    let mut task_b = Task::new(child_id_2, Some(TaskId::root()));
    task_b.status = TaskStatus::Completed;
    task_b.io_handles.insert(
        HandleId(200),
        IoHandle::File {
            path: "/tmp/pausible_iso_b.txt".into(),
            mode: FileMode::Read,
            position: 0,
            strategy: IoStrategy::Seek,
            attached: false,
            cached: Some(b"BBBB".to_vec()),
        },
    );
    task_b.stack.push(Value::Int(2));
    let mut root = Task::new(TaskId::root(), None);
    root.status = TaskStatus::Yielded(2);
    root.children = vec![child_id_1, child_id_2];
    vm.task_registry.insert(root);
    vm.task_registry.insert(task_a);
    vm.task_registry.insert(task_b);

    let snap = vm.create_snapshot();
    assert_eq!(snap.header.task_count, 3, "should capture root + 2 children");
    let loaded = Snapshot::read_from_bytes(&snap.to_bytes()).unwrap();
    assert_eq!(loaded.header.version, 3);
    assert_eq!(loaded.header.task_count, 3);

    let mut resumed = run_to_yield(yield_program());
    let mut root2 = Task::new(TaskId::root(), None);
    root2.children = vec![child_id_1, child_id_2];
    resumed.task_registry.insert(root2);
    let result = resumed.resume(&loaded, &reach_all(&loaded, b""));
    assert!(result.is_ok(), "resume should succeed: {result:?}");

    let (records, err) = loaded.read_task_entries(resumed.current_task_id);
    assert!(err.is_none());
    let outcomes: Vec<Vec<ReconnectOutcome>> = records
        .iter()
        .map(|r| match &r.body {
            Some(b) => b.io.iter().map(|_| ReconnectOutcome::Reached { response: Vec::new() }).collect(),
            None => Vec::new(),
        })
        .collect();
    loaded.restore_task_tree(&mut resumed, &outcomes).unwrap();

    for (child_id, expected_hid) in &[(child_id_1, HandleId(100)), (child_id_2, HandleId(200))] {
        let task = resumed.task_registry.get(*child_id).expect("child task should exist");
        assert_eq!(task.io_handles.len(), 1, "child {child_id:?} should have 1 I/O handle");
        assert!(task.io_handles.get(*expected_hid).is_some(), "child {child_id:?} should contain {expected_hid:?}");
    }
    let root = resumed.task_registry.get(TaskId::root()).expect("root should exist");
    assert!(root.io_handles.is_empty(), "root should have no I/O handles");
    assert_eq!(root.status, TaskStatus::Yielded(2));
    assert_eq!(resumed.task_registry.get(child_id_1).unwrap().stack, vec![Value::Int(1)]);
}

#[test]
fn reconnect_failures_and_other_kinds() {
    let mut snap_vm = run_to_yield(yield_program());
    snap_vm.create_handle(IoHandle::File {
        path: "/tmp/x".into(),
        mode: FileMode::Append,
        position: 9,
        strategy: IoStrategy::Seek,
        attached: true,
        cached: None,
    });
    snap_vm.create_handle(IoHandle::TcpStream {
        addr: "127.0.0.1:1".into(),
        strategy: IoStrategy::Replay,
        connected: true,
        last_request: None,
        last_response: None,
    });
    snap_vm.create_handle(IoHandle::Timer { ms: 250, strategy: IoStrategy::Replay });
    let snap = snap_vm.create_snapshot();
    let outcomes = vec![
        ReconnectOutcome::SeekFailed { reason: "bad seek".into() },
        ReconnectOutcome::Unreachable { reason: "refused".into() },
        ReconnectOutcome::Reached { response: Vec::new() },
    ];
    let mut vm = VM::new();
    let report = snap.restore_io_handles(&mut vm, &outcomes);
    assert_eq!(report.entries[0].1, ReconnectStatus::Degraded { reason: "seek failed: bad seek".into() });
    assert_eq!(report.entries[1].1, ReconnectStatus::Failed { reason: "TCP connect failed: refused".into() });
    assert_eq!(report.entries[2].1, ReconnectStatus::Reconnected);
    match vm.get_handle(HandleId(0)) {
        Some(IoHandle::File { position, attached, mode, .. }) => {
            assert_eq!(*position, 0);
            assert!(!*attached);
            assert_eq!(*mode, FileMode::Append);
        }
        _ => panic!("expected File"),
    }
    match vm.get_handle(HandleId(2)) {
        Some(IoHandle::Timer { ms, .. }) => assert_eq!(*ms, 250),
        _ => panic!("expected Timer"),
    }
}

#[test]
fn captured_tasks_read_back_as_written() {
    let mut vm = run_to_yield(yield_program());
    let mut root = Task::new(TaskId::root(), None);
    root.status = TaskStatus::Yielded(2);
    root.children = vec![TaskId(7)];
    let mut child = Task::new(TaskId(7), Some(TaskId::root()));
    child.status = TaskStatus::Completed;
    child.stack.push(Value::Int(-3));
    child.stack.push(Value::Bool(true));
    child.io_handles.insert(HandleId(9), IoHandle::Timer { ms: 250, strategy: IoStrategy::Replay });
    let running = Task::new(TaskId(8), Some(TaskId::root()));
    vm.task_registry.insert(root);
    vm.task_registry.insert(child);
    vm.task_registry.insert(running);

    let snap = vm.create_snapshot();
    // The running task is left out.
    assert_eq!(snap.header.task_count, 2);
    let loaded = Snapshot::read_from_bytes(&snap.to_bytes()).unwrap();
    let (records, err) = loaded.read_task_entries(TaskId::root());
    assert!(err.is_none());
    assert_eq!(records.len(), 2);
    assert_eq!(records[0].id, 0);
    assert_eq!(records[0].parent, None);
    assert_eq!(records[0].status, TaskStatus::Yielded(2));
    assert_eq!(records[0].children, vec![TaskId(7)]);
    assert!(records[0].body.is_none());
    assert_eq!(records[1].id, 7);
    assert_eq!(records[1].parent, Some(0));
    assert_eq!(records[1].status, TaskStatus::Completed);
    assert!(records[1].children.is_empty());
    let body = records[1].body.as_ref().unwrap();
    assert_eq!(body.stack, vec![Value::Int(-3), Value::Bool(true)]);
    assert!(body.frames.is_empty());
    assert_eq!(body.io.len(), 1);
    assert_eq!(body.io[0].id, 9);
    assert_eq!(body.io[0].kind, 3);
    assert_eq!(body.io[0].params, 250u64.to_le_bytes().to_vec());
}

#[test]
fn file_deleted_before_resume_resource_lost() {
    let mut vm = run_to_yield(yield_program());
    vm.create_handle(IoHandle::File {
        path: "/tmp/pausible_delete_test.txt".into(),
        mode: FileMode::Read,
        position: 0,
        strategy: IoStrategy::Seek,
        attached: false,
        cached: None,
    });
    let snap = vm.create_snapshot();
    // The host finds the file gone.
    let outcomes = vec![ReconnectOutcome::Unreachable { reason: "No such file or directory (os error 2)".into() }];
    let result = vm.resume(&snap, &outcomes);
    match result {
        Err(ResumeError::Reconnect(msg)) => {
            assert!(msg.contains("Failed"), "expected Failed in: {msg}");
            assert_eq!(msg, "handle #0 Failed: file open failed: No such file or directory (os error 2); ");
        }
        other => panic!("expected Reconnect error, got {other:?}"),
    }
}

#[test]
fn tcp_peer_closed_reconnect_fails() {
    let mut vm = run_to_yield(yield_program());
    vm.create_handle(IoHandle::TcpStream {
        addr: "127.0.0.1:1".into(),
        strategy: IoStrategy::Replay,
        connected: false,
        last_request: None,
        last_response: None,
    });
    let snap = vm.create_snapshot();
    let outcomes = vec![ReconnectOutcome::Unreachable { reason: "Connection refused".into() }];
    match vm.resume(&snap, &outcomes) {
        Err(ResumeError::Reconnect(msg)) => {
            assert!(msg.contains("Failed"), "expected Failed in: {msg}");
        }
        other => panic!("expected Reconnect error, got {other:?}"),
    }
}

#[test]
fn resume_with_degraded_handle_runs_on() {
    let (mut vm, snap) = http_vm(HttpMethod::Get, None, b"old");
    let result = vm.resume(&snap, &reach_all(&snap, b"new"));
    assert!(result.is_ok(), "a degraded handle does not stop resume: {result:?}");
    assert!(!vm.running);
}

#[test]
fn timer_and_stream_restore_whatever_the_host_answers() {
    let mut vm = run_to_yield(yield_program());
    let timer = vm.create_handle(IoHandle::Timer { ms: 1500, strategy: IoStrategy::Replay });
    let out = vm.create_handle(IoHandle::Stdout { buffer: b"printed".to_vec() });
    let snap = vm.create_snapshot();
    let refused = vec![
        ReconnectOutcome::Unreachable { reason: "no host".to_string() },
        ReconnectOutcome::Unreachable { reason: "no host".to_string() },
    ];
    let report = snap.restore_io_handles(&mut vm, &refused);
    assert_eq!(
        report.entries,
        vec![(timer, ReconnectStatus::Reconnected), (out, ReconnectStatus::Reconnected)]
    );
    match vm.get_handle(timer).expect("timer should exist") {
        IoHandle::Timer { ms, strategy } => {
            assert_eq!(*ms, 1500);
            assert_eq!(*strategy, IoStrategy::Replay);
        }
        other => panic!("expected Timer, got {other:?}"),
    }
    match vm.get_handle(out).expect("stdout should exist") {
        IoHandle::Stdout { buffer } => assert_eq!(buffer, b"printed"),
        other => panic!("expected Stdout, got {other:?}"),
    }
}
