use pausible::io::HandleId;
use pausible::opcode::OpCode;
use pausible::value::Value;

#[test]
fn mnemonic_names() {
    assert_eq!(OpCode::Push(Value::Int(1)).mnemonic(), "push");
    assert_eq!(OpCode::Pop.mnemonic(), "pop");
    assert_eq!(OpCode::Dup.mnemonic(), "dup");
    assert_eq!(OpCode::Add.mnemonic(), "add");
    assert_eq!(OpCode::Sub.mnemonic(), "sub");
    assert_eq!(OpCode::Mul.mnemonic(), "mul");
    assert_eq!(OpCode::Div.mnemonic(), "div");
    assert_eq!(OpCode::Mod.mnemonic(), "mod");
    assert_eq!(OpCode::Neg.mnemonic(), "neg");
    assert_eq!(OpCode::Eq.mnemonic(), "eq");
    assert_eq!(OpCode::Neq.mnemonic(), "neq");
    assert_eq!(OpCode::Lt.mnemonic(), "lt");
    assert_eq!(OpCode::Gt.mnemonic(), "gt");
    assert_eq!(OpCode::Lte.mnemonic(), "lte");
    assert_eq!(OpCode::Gte.mnemonic(), "gte");
    assert_eq!(OpCode::And.mnemonic(), "and");
    assert_eq!(OpCode::Or.mnemonic(), "or");
    assert_eq!(OpCode::Not.mnemonic(), "not");
    assert_eq!(OpCode::Jump(0).mnemonic(), "jump");
    assert_eq!(OpCode::JumpIfTrue(1).mnemonic(), "jump_if_true");
    assert_eq!(OpCode::JumpIfFalse(2).mnemonic(), "jump_if_false");
    assert_eq!(OpCode::Load(0).mnemonic(), "load");
    assert_eq!(OpCode::Store(0).mnemonic(), "store");
    assert_eq!(OpCode::Call(0).mnemonic(), "call");
    assert_eq!(OpCode::Return.mnemonic(), "ret");
    assert_eq!(OpCode::Halt.mnemonic(), "halt");
    assert_eq!(OpCode::Yield.mnemonic(), "yield");
    assert_eq!(OpCode::FileOpen { path: Value::Null, mode: Value::Null }.mnemonic(), "file_open");
    assert_eq!(OpCode::FileRead(HandleId(0)).mnemonic(), "file_read");
    assert_eq!(OpCode::FileWrite(HandleId(0)).mnemonic(), "file_write");
    assert_eq!(OpCode::FileSeek { handle: HandleId(0), offset: Value::Null }.mnemonic(), "file_seek");
    assert_eq!(OpCode::FileClose(HandleId(0)).mnemonic(), "file_close");
    assert_eq!(OpCode::TcpConnect { addr: Value::Null }.mnemonic(), "tcp_connect");
    assert_eq!(OpCode::TcpRead(HandleId(0)).mnemonic(), "tcp_read");
    assert_eq!(OpCode::TcpWrite(HandleId(0)).mnemonic(), "tcp_write");
    assert_eq!(OpCode::TcpClose(HandleId(0)).mnemonic(), "tcp_close");
    assert_eq!(OpCode::HttpGet { url: Value::Null }.mnemonic(), "http_get");
    assert_eq!(OpCode::HttpPost { url: Value::Null, body: Value::Null }.mnemonic(), "http_post");
    assert_eq!(OpCode::StdinRead.mnemonic(), "stdin_read");
    assert_eq!(OpCode::StdoutWrite.mnemonic(), "stdout_write");
    assert_eq!(OpCode::StderrWrite.mnemonic(), "stderr_write");
    assert_eq!(OpCode::TimerSleep { ms: Value::Null }.mnemonic(), "timer_sleep");
}

#[test]
fn display_with_args() {
    assert_eq!(OpCode::Push(Value::Int(42)).display_string(), "push 42");
    assert_eq!(OpCode::Jump(5).display_string(), "jump 5");
    assert_eq!(OpCode::JumpIfTrue(10).display_string(), "jump_if_true 10");
    assert_eq!(OpCode::JumpIfFalse(15).display_string(), "jump_if_false 15");
    assert_eq!(OpCode::Load(2).display_string(), "load 2");
    assert_eq!(OpCode::Store(3).display_string(), "store 3");
    assert_eq!(OpCode::Call(7).display_string(), "call 7");
    assert_eq!(OpCode::FileOpen { path: Value::Int(1), mode: Value::Int(2) }.display_string(), "file_open 1 2");
    assert_eq!(OpCode::FileRead(HandleId(3)).display_string(), "file_read #3");
    assert_eq!(OpCode::FileWrite(HandleId(4)).display_string(), "file_write #4");
    assert_eq!(OpCode::FileSeek { handle: HandleId(5), offset: Value::Int(100) }.display_string(), "file_seek #5 100");
    assert_eq!(OpCode::FileClose(HandleId(6)).display_string(), "file_close #6");
    assert_eq!(OpCode::TcpConnect { addr: Value::Null }.display_string(), "tcp_connect null");
    assert_eq!(OpCode::HttpGet { url: Value::Null }.display_string(), "http_get null");
    assert_eq!(OpCode::HttpPost { url: Value::Null, body: Value::Null }.display_string(), "http_post null null");
    assert_eq!(OpCode::TimerSleep { ms: Value::Int(500) }.display_string(), "timer_sleep 500");
    assert_eq!(OpCode::StdinRead.display_string(), "stdin_read");
}

#[test]
fn display_no_args() {
    assert_eq!(OpCode::Pop.display_string(), "pop");
    assert_eq!(OpCode::Add.display_string(), "add");
    assert_eq!(OpCode::Return.display_string(), "ret");
    assert_eq!(OpCode::Halt.display_string(), "halt");
    assert_eq!(OpCode::Yield.display_string(), "yield");
    assert_eq!(OpCode::StdoutWrite.display_string(), "stdout_write");
    assert_eq!(OpCode::StderrWrite.display_string(), "stderr_write");
}

#[test]
fn total_instruction_count() {
    let variants: Vec<OpCode> = vec![
        OpCode::Push(Value::Null),
        OpCode::Pop,
        OpCode::Dup,
        OpCode::Add,
        OpCode::Sub,
        OpCode::Mul,
        OpCode::Div,
        OpCode::Mod,
        OpCode::Neg,
        OpCode::Eq,
        OpCode::Neq,
        OpCode::Lt,
        OpCode::Gt,
        OpCode::Lte,
        OpCode::Gte,
        OpCode::And,
        OpCode::Or,
        OpCode::Not,
        OpCode::Jump(0),
        OpCode::JumpIfTrue(0),
        OpCode::JumpIfFalse(0),
        OpCode::Load(0),
        OpCode::Store(0),
        OpCode::Call(0),
        OpCode::Return,
        OpCode::Halt,
        OpCode::Yield,
        OpCode::FileOpen { path: Value::Null, mode: Value::Null },
        OpCode::FileRead(HandleId(0)),
        OpCode::FileWrite(HandleId(0)),
        OpCode::FileSeek { handle: HandleId(0), offset: Value::Null },
        OpCode::FileClose(HandleId(0)),
        OpCode::TcpConnect { addr: Value::Null },
        OpCode::TcpRead(HandleId(0)),
        OpCode::TcpWrite(HandleId(0)),
        OpCode::TcpClose(HandleId(0)),
        OpCode::HttpGet { url: Value::Null },
        OpCode::HttpPost { url: Value::Null, body: Value::Null },
        OpCode::StdinRead,
        OpCode::StdoutWrite,
        OpCode::StderrWrite,
        OpCode::TimerSleep { ms: Value::Null },
    ];
    assert_eq!(variants.len(), 42);
}

#[test]
fn equality() {
    assert_eq!(OpCode::Push(Value::Int(1)), OpCode::Push(Value::Int(1)));
    assert_ne!(OpCode::Push(Value::Int(1)), OpCode::Push(Value::Int(2)));
    assert_eq!(OpCode::Add, OpCode::Add);
    assert_ne!(OpCode::Add, OpCode::Sub);
    assert_eq!(OpCode::FileRead(HandleId(1)), OpCode::FileRead(HandleId(1)));
    assert_ne!(OpCode::FileRead(HandleId(1)), OpCode::FileRead(HandleId(2)));
}
