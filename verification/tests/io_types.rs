use pausible::io::{FileMode, HandleId, HandleTable, HttpMethod, IoHandle, IoStrategy};

#[test]
fn strategy_display() {
    assert_eq!(IoStrategy::Replay.display_string(), "Replay");
    assert_eq!(IoStrategy::Seek.display_string(), "Seek");
    assert_eq!(IoStrategy::Cached.display_string(), "Cached");
}

#[test]
fn handle_id_display() {
    assert_eq!(HandleId(0).display_string(), "#0");
    assert_eq!(HandleId(42).display_string(), "#42");
}

#[test]
fn handle_id_equality() {
    assert_eq!(HandleId(1), HandleId(1));
    assert_ne!(HandleId(1), HandleId(2));
}

#[test]
fn file_mode_display() {
    assert_eq!(FileMode::Read.display_string(), "r");
    assert_eq!(FileMode::Write.display_string(), "w");
    assert_eq!(FileMode::Append.display_string(), "a");
}

#[test]
fn http_method_display() {
    assert_eq!(HttpMethod::Get.display_string(), "GET");
    assert_eq!(HttpMethod::Post.display_string(), "POST");
}

#[test]
fn stdin_is_always_cached() {
    let h = IoHandle::Stdin { buffer: vec![1, 2, 3] };
    assert_eq!(h.strategy(), IoStrategy::Cached);
    assert_eq!(h.kind_name(), "Stdin");
}

#[test]
fn stdout_is_always_cached() {
    let h = IoHandle::Stdout { buffer: vec![] };
    assert_eq!(h.strategy(), IoStrategy::Cached);
    assert_eq!(h.kind_name(), "Stdout");
}

#[test]
fn stderr_is_always_cached() {
    let h = IoHandle::Stderr { buffer: vec![] };
    assert_eq!(h.strategy(), IoStrategy::Cached);
    assert_eq!(h.kind_name(), "Stderr");
}

#[test]
fn http_handle_strategy() {
    let h = IoHandle::HttpConnection {
        url: "https://api.example.com/data".into(),
        method: HttpMethod::Get,
        body: None,
        last_response: Some(b"{\"ok\":true}".to_vec()),
        strategy: IoStrategy::Replay,
    };
    assert_eq!(h.strategy(), IoStrategy::Replay);
    assert_eq!(h.kind_name(), "HttpConnection");
}

#[test]
fn timer_handle_strategy() {
    let h = IoHandle::Timer { ms: 5000, strategy: IoStrategy::Replay };
    assert_eq!(h.strategy(), IoStrategy::Replay);
    assert_eq!(h.kind_name(), "Timer");
}

#[test]
fn file_handle_strategy() {
    let h = IoHandle::File {
        path: "/tmp/a.txt".into(),
        mode: FileMode::Read,
        position: 0,
        strategy: IoStrategy::Seek,
        attached: false,
        cached: None,
    };
    assert_eq!(h.strategy(), IoStrategy::Seek);
    assert_eq!(h.kind_name(), "File");
}

#[test]
fn tcp_handle_strategy() {
    let h = IoHandle::TcpStream {
        addr: "127.0.0.1:8080".into(),
        strategy: IoStrategy::Replay,
        connected: false,
        last_request: None,
        last_response: None,
    };
    assert_eq!(h.strategy(), IoStrategy::Replay);
    assert_eq!(h.kind_name(), "TcpStream");
}

#[test]
fn all_kind_names() {
    let kinds: Vec<(&str, IoHandle)> = vec![
        (
            "File",
            IoHandle::File {
                path: "a".into(),
                mode: FileMode::Read,
                position: 0,
                strategy: IoStrategy::Seek,
                attached: false,
                cached: None,
            },
        ),
        (
            "TcpStream",
            IoHandle::TcpStream {
                addr: "x".into(),
                strategy: IoStrategy::Replay,
                connected: false,
                last_request: None,
                last_response: None,
            },
        ),
        (
            "HttpConnection",
            IoHandle::HttpConnection {
                url: "x".into(),
                method: HttpMethod::Get,
                body: None,
                last_response: None,
                strategy: IoStrategy::Replay,
            },
        ),
        ("Timer", IoHandle::Timer { ms: 0, strategy: IoStrategy::Replay }),
        ("Stdin", IoHandle::Stdin { buffer: vec![] }),
        ("Stdout", IoHandle::Stdout { buffer: vec![] }),
        ("Stderr", IoHandle::Stderr { buffer: vec![] }),
    ];
    for (expected, handle) in &kinds {
        assert_eq!(handle.kind_name(), *expected);
    }
}

#[test]
fn clone_file_sets_file_to_none() {
    let h = IoHandle::File {
        path: "/tmp/clone_test.txt".into(),
        mode: FileMode::Read,
        position: 42,
        strategy: IoStrategy::Seek,
        attached: true,
        cached: Some(b"cached data".to_vec()),
    };
    let cloned = h.clone();
    if let IoHandle::File { attached, cached, position, .. } = cloned {
        assert!(!attached, "a cloned File holds no open file");
        assert_eq!(position, 42);
        assert_eq!(cached, Some(b"cached data".to_vec()));
    } else {
        panic!("expected File");
    }
}

#[test]
fn clone_tcp_sets_stream_to_none() {
    let h = IoHandle::TcpStream {
        addr: "127.0.0.1:8080".into(),
        strategy: IoStrategy::Replay,
        connected: true,
        last_request: Some(b"req".to_vec()),
        last_response: Some(b"resp".to_vec()),
    };
    let cloned = h.clone();
    if let IoHandle::TcpStream { connected, last_request, last_response, .. } = cloned {
        assert!(!connected, "a cloned TcpStream holds no socket");
        assert_eq!(last_request, Some(b"req".to_vec()));
        assert_eq!(last_response, Some(b"resp".to_vec()));
    } else {
        panic!("expected TcpStream");
    }
}

#[test]
fn clone_http_preserves_all_fields() {
    let h = IoHandle::HttpConnection {
        url: "https://example.com".into(),
        method: HttpMethod::Post,
        body: Some(b"payload".to_vec()),
        last_response: Some(b"200 OK".to_vec()),
        strategy: IoStrategy::Replay,
    };
    let cloned = h.clone();
    if let IoHandle::HttpConnection { url, method, body, last_response, strategy } = cloned {
        assert_eq!(url, "https://example.com");
        assert_eq!(method, HttpMethod::Post);
        assert_eq!(body, Some(b"payload".to_vec()));
        assert_eq!(last_response, Some(b"200 OK".to_vec()));
        assert_eq!(strategy, IoStrategy::Replay);
    } else {
        panic!("expected HttpConnection");
    }
}

#[test]
fn strategy_tags_round_trip() {
    for s in [IoStrategy::Replay, IoStrategy::Seek, IoStrategy::Cached] {
        assert_eq!(IoStrategy::from_tag(s.tag()), s);
    }
    assert_eq!(IoStrategy::from_tag(7), IoStrategy::Cached);
}

#[test]
fn handle_table_insert_replaces_same_id() {
    let mut t = HandleTable::new();
    t.insert(HandleId(3), IoHandle::Stdin { buffer: vec![1] });
    t.insert(HandleId(4), IoHandle::Stdout { buffer: vec![] });
    t.insert(HandleId(3), IoHandle::Stdin { buffer: vec![2] });
    assert_eq!(t.len(), 2);
    assert_eq!(t.position(HandleId(3)), Some(0));
    match t.get(HandleId(3)) {
        Some(IoHandle::Stdin { buffer }) => assert_eq!(buffer, &vec![2u8]),
        _ => panic!("expected Stdin"),
    }
    assert!(t.remove(HandleId(3)));
    assert!(!t.remove(HandleId(3)));
    assert_eq!(t.len(), 1);
}
