//! The machine's instruction set.

use vstd::prelude::*;

use crate::io::HandleId;
use crate::text::{push_decimal_u64, spec_decimal_u64, text};
use crate::value::{spec_display, Value};

verus! {

/// Bytecode instruction for the stack machine.
///
/// Instructions that carry an argument embed it directly. The `usize`
/// arguments are bytecode offsets (for jumps) or indices (for locals
/// and function calls).
#[derive(Debug, Clone, Copy, PartialEq)]
pub enum OpCode {
    // -- stack --
    /// Push an immediate value onto the operand stack.
    Push(Value),
    /// Discard the top of the operand stack.
    Pop,
    /// Duplicate the top of the operand stack.
    Dup,
    // -- arithmetic --
    Add,
    Sub,
    Mul,
    Div,
    Mod,
    Neg,
    // -- comparison --
    Eq,
    Neq,
    Lt,
    Gt,
    Lte,
    Gte,
    // -- logical --
    And,
    Or,
    Not,
    // -- control flow --
    /// Unconditional jump to an absolute bytecode offset.
    Jump(usize),
    /// Pop the stack; if truthy, jump to offset.
    JumpIfTrue(usize),
    /// Pop the stack; if falsy, jump to offset.
    JumpIfFalse(usize),
    // -- locals --
    /// Push the value at local slot `index` onto the operand stack.
    Load(usize),
    /// Pop the operand stack and store into local slot `index`.
    Store(usize),
    // -- functions --
    /// Call the function at the given index in the function table.
    Call(usize),
    /// Return from the current function.
    Return,
    /// Stop execution of the machine.
    Halt,
    /// Pause execution and yield control to the host.
    Yield,
    // -- I/O: file --
    /// Open a file at `path` with the given `mode` ("r"/"w"/"a"), push its handle id.
    FileOpen { path: Value, mode: Value },
    /// Read from a file handle, push the bytes as a list.
    FileRead(HandleId),
    /// Write the popped value to a file handle.
    FileWrite(HandleId),
    /// Seek a file handle to `offset`, push the resulting position.
    FileSeek { handle: HandleId, offset: Value },
    /// Close a file handle, push whether it was registered.
    FileClose(HandleId),
    // -- I/O: TCP --
    TcpConnect { addr: Value },
    TcpRead(HandleId),
    TcpWrite(HandleId),
    TcpClose(HandleId),
    // -- I/O: HTTP --
    HttpGet { url: Value },
    HttpPost { url: Value, body: Value },
    // -- I/O: standard streams --
    StdinRead,
    StdoutWrite,
    StderrWrite,
    // -- I/O: timer --
    TimerSleep { ms: Value },
}

/// The mnemonic of an instruction.
pub open spec fn spec_mnemonic(op: OpCode) -> Seq<char> {
    match op {
        OpCode::Push(_) => "push"@,
        OpCode::Pop => "pop"@,
        OpCode::Dup => "dup"@,
        OpCode::Add => "add"@,
        OpCode::Sub => "sub"@,
        OpCode::Mul => "mul"@,
        OpCode::Div => "div"@,
        OpCode::Mod => "mod"@,
        OpCode::Neg => "neg"@,
        OpCode::Eq => "eq"@,
        OpCode::Neq => "neq"@,
        OpCode::Lt => "lt"@,
        OpCode::Gt => "gt"@,
        OpCode::Lte => "lte"@,
        OpCode::Gte => "gte"@,
        OpCode::And => "and"@,
        OpCode::Or => "or"@,
        OpCode::Not => "not"@,
        OpCode::Jump(_) => "jump"@,
        OpCode::JumpIfTrue(_) => "jump_if_true"@,
        OpCode::JumpIfFalse(_) => "jump_if_false"@,
        OpCode::Load(_) => "load"@,
        OpCode::Store(_) => "store"@,
        OpCode::Call(_) => "call"@,
        OpCode::Return => "ret"@,
        OpCode::Halt => "halt"@,
        OpCode::Yield => "yield"@,
        OpCode::FileOpen { .. } => "file_open"@,
        OpCode::FileRead(_) => "file_read"@,
        OpCode::FileWrite(_) => "file_write"@,
        OpCode::FileSeek { .. } => "file_seek"@,
        OpCode::FileClose(_) => "file_close"@,
        OpCode::TcpConnect { .. } => "tcp_connect"@,
        OpCode::TcpRead(_) => "tcp_read"@,
        OpCode::TcpWrite(_) => "tcp_write"@,
        OpCode::TcpClose(_) => "tcp_close"@,
        OpCode::HttpGet { .. } => "http_get"@,
        OpCode::HttpPost { .. } => "http_post"@,
        OpCode::StdinRead => "stdin_read"@,
        OpCode::StdoutWrite => "stdout_write"@,
        OpCode::StderrWrite => "stderr_write"@,
        OpCode::TimerSleep { .. } => "timer_sleep"@,
    }
}

impl OpCode {
    /// Human-readable mnemonic (without argument).
    pub fn mnemonic(&self) -> (s: &'static str)
        ensures
            s@ == spec_mnemonic(*self),
    {
        match self {
            OpCode::Push(_) => "push",
            OpCode::Pop => "pop",
            OpCode::Dup => "dup",
            OpCode::Add => "add",
            OpCode::Sub => "sub",
            OpCode::Mul => "mul",
            OpCode::Div => "div",
            OpCode::Mod => "mod",
            OpCode::Neg => "neg",
            OpCode::Eq => "eq",
            OpCode::Neq => "neq",
            OpCode::Lt => "lt",
            OpCode::Gt => "gt",
            OpCode::Lte => "lte",
            OpCode::Gte => "gte",
            OpCode::And => "and",
            OpCode::Or => "or",
            OpCode::Not => "not",
            OpCode::Jump(_) => "jump",
            OpCode::JumpIfTrue(_) => "jump_if_true",
            OpCode::JumpIfFalse(_) => "jump_if_false",
            OpCode::Load(_) => "load",
            OpCode::Store(_) => "store",
            OpCode::Call(_) => "call",
            OpCode::Return => "ret",
            OpCode::Halt => "halt",
            OpCode::Yield => "yield",
            OpCode::FileOpen { .. } => "file_open",
            OpCode::FileRead(_) => "file_read",
            OpCode::FileWrite(_) => "file_write",
            OpCode::FileSeek { .. } => "file_seek",
            OpCode::FileClose(_) => "file_close",
            OpCode::TcpConnect { .. } => "tcp_connect",
            OpCode::TcpRead(_) => "tcp_read",
            OpCode::TcpWrite(_) => "tcp_write",
            OpCode::TcpClose(_) => "tcp_close",
            OpCode::HttpGet { .. } => "http_get",
            OpCode::HttpPost { .. } => "http_post",
            OpCode::StdinRead => "stdin_read",
            OpCode::StdoutWrite => "stdout_write",
            OpCode::StderrWrite => "stderr_write",
            OpCode::TimerSleep { .. } => "timer_sleep",
        }
    }
}

/// A value operand's text, after a space.
pub open spec fn arg_value(v: Value) -> Seq<char> {
    " "@ + spec_display(v)
}

/// A number operand's text, after a space.
pub open spec fn arg_number(n: u64) -> Seq<char> {
    " "@ + spec_decimal_u64(n)
}

/// A handle operand's text (`#` and the id), after a space.
pub open spec fn arg_handle(h: HandleId) -> Seq<char> {
    " #"@ + spec_decimal_u64(h.0 as u64)
}

/// The text of an instruction's operands, each after a space.
pub open spec fn spec_args(op: OpCode) -> Seq<char> {
    match op {
        OpCode::Push(v) => arg_value(v),
        OpCode::Jump(o) => arg_number(o as u64),
        OpCode::JumpIfTrue(o) => arg_number(o as u64),
        OpCode::JumpIfFalse(o) => arg_number(o as u64),
        OpCode::Load(i) => arg_number(i as u64),
        OpCode::Store(i) => arg_number(i as u64),
        OpCode::Call(i) => arg_number(i as u64),
        OpCode::FileOpen { path, mode } => arg_value(path) + arg_value(mode),
        OpCode::FileRead(h) => arg_handle(h),
        OpCode::FileWrite(h) => arg_handle(h),
        OpCode::FileSeek { handle, offset } => arg_handle(handle) + arg_value(offset),
        OpCode::FileClose(h) => arg_handle(h),
        OpCode::TcpConnect { addr } => arg_value(addr),
        OpCode::TcpRead(h) => arg_handle(h),
        OpCode::TcpWrite(h) => arg_handle(h),
        OpCode::TcpClose(h) => arg_handle(h),
        OpCode::HttpGet { url } => arg_value(url),
        OpCode::HttpPost { url, body } => arg_value(url) + arg_value(body),
        OpCode::TimerSleep { ms } => arg_value(ms),
        _ => Seq::empty(),
    }
}

/// No value operand of the instruction is a float.
pub open spec fn no_float_operand(op: OpCode) -> bool {
    match op {
        OpCode::Push(v) => !(v is Float),
        OpCode::FileOpen { path, mode } => !(path is Float) && !(mode is Float),
        OpCode::FileSeek { offset, .. } => !(offset is Float),
        OpCode::TcpConnect { addr } => !(addr is Float),
        OpCode::HttpGet { url } => !(url is Float),
        OpCode::HttpPost { url, body } => !(url is Float) && !(body is Float),
        OpCode::TimerSleep { ms } => !(ms is Float),
        _ => true,
    }
}

fn push_value(s: &mut String, v: &Value)
    requires
        !(*v is Float),
    ensures
        final(s)@ == old(s)@ + arg_value(*v),
{
    s.append(" ");
    let t = v.display_string();
    s.append(t.as_str());
}

fn push_number(s: &mut String, n: u64)
    ensures
        final(s)@ == old(s)@ + arg_number(n),
{
    s.append(" ");
    push_decimal_u64(s, n);
}

fn push_handle(s: &mut String, h: HandleId)
    ensures
        final(s)@ == old(s)@ + arg_handle(h),
{
    s.append(" #");
    push_decimal_u64(s, h.0 as u64);
}

impl OpCode {
    /// The mnemonic followed by the operands; float operands are formatted by
    /// the host.
    pub fn display_string(&self) -> (s: String)
        requires
            no_float_operand(*self),
        ensures
            s@ == spec_mnemonic(*self) + spec_args(*self),
    {
        let mut s = text(self.mnemonic());
        match self {
            OpCode::Push(v) => push_value(&mut s, v),
            OpCode::Jump(o) => push_number(&mut s, *o as u64),
            OpCode::JumpIfTrue(o) => push_number(&mut s, *o as u64),
            OpCode::JumpIfFalse(o) => push_number(&mut s, *o as u64),
            OpCode::Load(i) => push_number(&mut s, *i as u64),
            OpCode::Store(i) => push_number(&mut s, *i as u64),
            OpCode::Call(i) => push_number(&mut s, *i as u64),
            OpCode::FileOpen { path, mode } => {
                push_value(&mut s, path);
                push_value(&mut s, mode);
            },
            OpCode::FileRead(h) => push_handle(&mut s, *h),
            OpCode::FileWrite(h) => push_handle(&mut s, *h),
            OpCode::FileSeek { handle, offset } => {
                push_handle(&mut s, *handle);
                push_value(&mut s, offset);
            },
            OpCode::FileClose(h) => push_handle(&mut s, *h),
            OpCode::TcpConnect { addr } => push_value(&mut s, addr),
            OpCode::TcpRead(h) => push_handle(&mut s, *h),
            OpCode::TcpWrite(h) => push_handle(&mut s, *h),
            OpCode::TcpClose(h) => push_handle(&mut s, *h),
            OpCode::HttpGet { url } => push_value(&mut s, url),
            OpCode::HttpPost { url, body } => {
                push_value(&mut s, url);
                push_value(&mut s, body);
            },
            OpCode::TimerSleep { ms } => push_value(&mut s, ms),
            _ => {},
        }
        assert(s@ =~= spec_mnemonic(*self) + spec_args(*self));
        s
    }
}

} // verus!
