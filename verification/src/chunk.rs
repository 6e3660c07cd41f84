//! Bytecode building and the binary module format.
//!
//! A module is the magic `PAUB`, a `u32` version, the function count and the
//! total instruction count, then each function: its name (length-prefixed
//! UTF-8), arity, local count, instruction count and instructions. An
//! instruction is a tag byte followed by its operands; a value operand is
//! written in the value wire format of `serialize`.

use std::collections::HashMap;
use vstd::prelude::*;
use vstd::utf8::encode_utf8;

use crate::function::Function;
use crate::heap::Heap;
use crate::io::HandleId;
use crate::opcode::OpCode;
use crate::serialize::{content_of, encode, has_content, live_count, objects_in, parse_value, Content};
use crate::text::{push_decimal_u64, push_hex_padded, spec_decimal_u64, spec_hex_padded, text};
use crate::value::Value;
use crate::wire::{le32, u32_at};

verus! {

// -- Chunk builder --

/// Bytecode builder with a chainable API.
#[derive(Debug, Clone)]
pub struct Chunk {
    pub code: Vec<OpCode>,
}

impl Chunk {
    pub fn new() -> (c: Self)
        ensures
            c.code@ == Seq::<OpCode>::empty(),
    {
        Chunk { code: Vec::new() }
    }

    /// Append a raw opcode; returns self for chaining.
    pub fn emit(&mut self, op: OpCode) -> (r: &mut Self)
        ensures
            r.code@ == old(self).code@.push(op),
            *final(self) == *final(r),
    {
        self.code.push(op);
        self
    }

    /// Shortcut: `Push(value)`.
    pub fn emit_push(&mut self, v: Value) -> (r: &mut Self)
        ensures
            r.code@ == old(self).code@.push(OpCode::Push(v)),
            *final(self) == *final(r),
    {
        self.emit(OpCode::Push(v))
    }

    /// Shortcut: `Jump(offset)`.
    pub fn emit_jump(&mut self, offset: usize) -> (r: &mut Self)
        ensures
            r.code@ == old(self).code@.push(OpCode::Jump(offset)),
            *final(self) == *final(r),
    {
        self.emit(OpCode::Jump(offset))
    }

    /// Shortcut: `JumpIfTrue(offset)`.
    pub fn emit_jump_if_true(&mut self, offset: usize) -> (r: &mut Self)
        ensures
            r.code@ == old(self).code@.push(OpCode::JumpIfTrue(offset)),
            *final(self) == *final(r),
    {
        self.emit(OpCode::JumpIfTrue(offset))
    }

    /// Shortcut: `JumpIfFalse(offset)`.
    pub fn emit_jump_if_false(&mut self, offset: usize) -> (r: &mut Self)
        ensures
            r.code@ == old(self).code@.push(OpCode::JumpIfFalse(offset)),
            *final(self) == *final(r),
    {
        self.emit(OpCode::JumpIfFalse(offset))
    }

    /// Shortcut: `Load(index)`.
    pub fn emit_load(&mut self, idx: usize) -> (r: &mut Self)
        ensures
            r.code@ == old(self).code@.push(OpCode::Load(idx)),
            *final(self) == *final(r),
    {
        self.emit(OpCode::Load(idx))
    }

    /// Shortcut: `Store(index)`.
    pub fn emit_store(&mut self, idx: usize) -> (r: &mut Self)
        ensures
            r.code@ == old(self).code@.push(OpCode::Store(idx)),
            *final(self) == *final(r),
    {
        self.emit(OpCode::Store(idx))
    }

    /// Shortcut: `Call(index)`.
    pub fn emit_call(&mut self, idx: usize) -> (r: &mut Self)
        ensures
            r.code@ == old(self).code@.push(OpCode::Call(idx)),
            *final(self) == *final(r),
    {
        self.emit(OpCode::Call(idx))
    }

    /// The current instruction count (useful for jump offsets).
    pub fn len(&self) -> (n: usize)
        ensures
            n == self.code@.len(),
    {
        self.code.len()
    }

    pub fn is_empty(&self) -> (b: bool)
        ensures
            b == (self.code@.len() == 0),
    {
        self.code.len() == 0
    }

    /// Consume the builder and return the raw opcode vector.
    pub fn into_code(self) -> (code: Vec<OpCode>)
        ensures
            code@ == self.code@,
    {
        self.code
    }
}

impl Default for Chunk {
    fn default() -> (c: Self)
        ensures
            c.code@ == Seq::<OpCode>::empty(),
    {
        Chunk::new()
    }
}

} // verus!

verus! {

// -- binary format --

/// Version of the module format.
pub const VERSION: u32 = 1;

/// The magic bytes `PAUB` that open a module.
pub open spec fn magic() -> Seq<u8> {
    seq![0x50u8, 0x41u8, 0x55u8, 0x42u8]
}

pub const OP_HALT: u8 = 0x00;
pub const OP_PUSH: u8 = 0x01;
pub const OP_POP: u8 = 0x02;
pub const OP_DUP: u8 = 0x03;
pub const OP_ADD: u8 = 0x04;
pub const OP_SUB: u8 = 0x05;
pub const OP_MUL: u8 = 0x06;
pub const OP_DIV: u8 = 0x07;
pub const OP_MOD: u8 = 0x08;
pub const OP_NEG: u8 = 0x09;
pub const OP_EQ: u8 = 0x0A;
pub const OP_NEQ: u8 = 0x0B;
pub const OP_LT: u8 = 0x0C;
pub const OP_GT: u8 = 0x0D;
pub const OP_LTE: u8 = 0x0E;
pub const OP_GTE: u8 = 0x0F;
pub const OP_AND: u8 = 0x10;
pub const OP_OR: u8 = 0x11;
pub const OP_NOT: u8 = 0x12;
pub const OP_JUMP: u8 = 0x13;
pub const OP_JUMP_IF_TRUE: u8 = 0x14;
pub const OP_JUMP_IF_FALSE: u8 = 0x15;
pub const OP_LOAD: u8 = 0x16;
pub const OP_STORE: u8 = 0x17;
pub const OP_CALL: u8 = 0x18;
pub const OP_RETURN: u8 = 0x19;
pub const OP_YIELD: u8 = 0x1A;
pub const OP_FILE_OPEN: u8 = 0x1B;
pub const OP_FILE_READ: u8 = 0x1C;
pub const OP_FILE_WRITE: u8 = 0x1D;
pub const OP_FILE_SEEK: u8 = 0x1E;
pub const OP_FILE_CLOSE: u8 = 0x1F;
pub const OP_TCP_CONNECT: u8 = 0x20;
pub const OP_TCP_READ: u8 = 0x21;
pub const OP_TCP_WRITE: u8 = 0x22;
pub const OP_TCP_CLOSE: u8 = 0x23;
pub const OP_HTTP_GET: u8 = 0x24;
pub const OP_HTTP_POST: u8 = 0x25;
pub const OP_STDIN_READ: u8 = 0x26;
pub const OP_STDOUT_WRITE: u8 = 0x27;
pub const OP_STDERR_WRITE: u8 = 0x28;
pub const OP_TIMER_SLEEP: u8 = 0x29;

/// Serialization / deserialization errors of the module format.
#[derive(Debug, Clone, PartialEq)]
pub enum SerError {
    BadMagic { found: [u8; 4] },
    UnsupportedVersion(u32),
    UnexpectedEof,
    UnknownOpcode(u8),
    UnknownValueTag(u8),
    HeapValueWithoutHeap,
}

/// The error of the module format for an error of the value format.
pub open spec fn value_err(e: crate::serialize::SerError) -> SerError {
    match e {
        crate::serialize::SerError::UnexpectedEof => SerError::UnexpectedEof,
        crate::serialize::SerError::UnknownValueTag(b) => SerError::UnknownValueTag(b),
    }
}

fn from_value_err(e: crate::serialize::SerError) -> (r: SerError)
    ensures
        r == value_err(e),
{
    match e {
        crate::serialize::SerError::UnexpectedEof => SerError::UnexpectedEof,
        crate::serialize::SerError::UnknownValueTag(b) => SerError::UnknownValueTag(b),
    }
}

/// Instructions with no operand.
pub open spec fn is_bare_tag(t: u8) -> bool {
    t == OP_HALT || (OP_POP <= t <= OP_NOT) || t == OP_RETURN || t == OP_YIELD || (OP_STDIN_READ <= t
        <= OP_STDERR_WRITE)
}

/// Instructions with one `u32` operand (offsets, indices, handle ids).
pub open spec fn is_word_tag(t: u8) -> bool {
    (OP_JUMP <= t <= OP_CALL) || t == OP_FILE_READ || t == OP_FILE_WRITE || t == OP_FILE_CLOSE || (
    OP_TCP_READ <= t <= OP_TCP_CLOSE)
}

/// Instructions with one value operand.
pub open spec fn is_val_tag(t: u8) -> bool {
    t == OP_PUSH || t == OP_TCP_CONNECT || t == OP_HTTP_GET || t == OP_TIMER_SLEEP
}

/// Instructions with two value operands.
pub open spec fn is_val2_tag(t: u8) -> bool {
    t == OP_FILE_OPEN || t == OP_HTTP_POST
}

/// An instruction as it stands on the wire: its tag and its operands, value
/// operands by content.
pub enum OpForm {
    Bare(u8),
    Word(u8, u32),
    Val(u8, Content),
    Val2(u8, Content, Content),
    WordVal(u8, u32, Content),
}

/// The wire form of `op` when its values live in `objs`.
pub open spec fn op_form(objs: Seq<crate::heap::HeapObject>, op: OpCode) -> OpForm {
    match op {
        OpCode::Push(v) => OpForm::Val(OP_PUSH, content_of(objs, v)),
        OpCode::Pop => OpForm::Bare(OP_POP),
        OpCode::Dup => OpForm::Bare(OP_DUP),
        OpCode::Add => OpForm::Bare(OP_ADD),
        OpCode::Sub => OpForm::Bare(OP_SUB),
        OpCode::Mul => OpForm::Bare(OP_MUL),
        OpCode::Div => OpForm::Bare(OP_DIV),
        OpCode::Mod => OpForm::Bare(OP_MOD),
        OpCode::Neg => OpForm::Bare(OP_NEG),
        OpCode::Eq => OpForm::Bare(OP_EQ),
        OpCode::Neq => OpForm::Bare(OP_NEQ),
        OpCode::Lt => OpForm::Bare(OP_LT),
        OpCode::Gt => OpForm::Bare(OP_GT),
        OpCode::Lte => OpForm::Bare(OP_LTE),
        OpCode::Gte => OpForm::Bare(OP_GTE),
        OpCode::And => OpForm::Bare(OP_AND),
        OpCode::Or => OpForm::Bare(OP_OR),
        OpCode::Not => OpForm::Bare(OP_NOT),
        OpCode::Jump(o) => OpForm::Word(OP_JUMP, o as u32),
        OpCode::JumpIfTrue(o) => OpForm::Word(OP_JUMP_IF_TRUE, o as u32),
        OpCode::JumpIfFalse(o) => OpForm::Word(OP_JUMP_IF_FALSE, o as u32),
        OpCode::Load(i) => OpForm::Word(OP_LOAD, i as u32),
        OpCode::Store(i) => OpForm::Word(OP_STORE, i as u32),
        OpCode::Call(i) => OpForm::Word(OP_CALL, i as u32),
        OpCode::Return => OpForm::Bare(OP_RETURN),
        OpCode::Halt => OpForm::Bare(OP_HALT),
        OpCode::Yield => OpForm::Bare(OP_YIELD),
        OpCode::FileOpen { path, mode } => OpForm::Val2(OP_FILE_OPEN, content_of(objs, path), content_of(objs, mode)),
        OpCode::FileRead(h) => OpForm::Word(OP_FILE_READ, h.0),
        OpCode::FileWrite(h) => OpForm::Word(OP_FILE_WRITE, h.0),
        OpCode::FileSeek { handle, offset } => OpForm::WordVal(OP_FILE_SEEK, handle.0, content_of(objs, offset)),
        OpCode::FileClose(h) => OpForm::Word(OP_FILE_CLOSE, h.0),
        OpCode::TcpConnect { addr } => OpForm::Val(OP_TCP_CONNECT, content_of(objs, addr)),
        OpCode::TcpRead(h) => OpForm::Word(OP_TCP_READ, h.0),
        OpCode::TcpWrite(h) => OpForm::Word(OP_TCP_WRITE, h.0),
        OpCode::TcpClose(h) => OpForm::Word(OP_TCP_CLOSE, h.0),
        OpCode::HttpGet { url } => OpForm::Val(OP_HTTP_GET, content_of(objs, url)),
        OpCode::HttpPost { url, body } => OpForm::Val2(OP_HTTP_POST, content_of(objs, url), content_of(objs, body)),
        OpCode::StdinRead => OpForm::Bare(OP_STDIN_READ),
        OpCode::StdoutWrite => OpForm::Bare(OP_STDOUT_WRITE),
        OpCode::StderrWrite => OpForm::Bare(OP_STDERR_WRITE),
        OpCode::TimerSleep { ms } => OpForm::Val(OP_TIMER_SLEEP, content_of(objs, ms)),
    }
}

/// The value operands of an instruction, in wire order.
pub open spec fn op_values(op: OpCode) -> Seq<Value> {
    match op {
        OpCode::Push(v) => seq![v],
        OpCode::FileOpen { path, mode } => seq![path, mode],
        OpCode::FileSeek { offset, .. } => seq![offset],
        OpCode::TcpConnect { addr } => seq![addr],
        OpCode::HttpGet { url } => seq![url],
        OpCode::HttpPost { url, body } => seq![url, body],
        OpCode::TimerSleep { ms } => seq![ms],
        _ => Seq::empty(),
    }
}

/// Every value operand of `op` has a content in `objs`.
pub open spec fn op_has_content(objs: Seq<crate::heap::HeapObject>, op: OpCode) -> bool {
    forall|i: int| 0 <= i < op_values(op).len() ==> has_content(objs, #[trigger] op_values(op)[i])
}

/// Every value operand of `op` has a content whose slots are all live.
pub open spec fn op_live(objs: Seq<crate::heap::HeapObject>, free: Seq<usize>, op: OpCode) -> bool {
    forall|i: int| 0 <= i < op_values(op).len() ==> crate::serialize::value_live(objs, free, #[trigger] op_values(op)[i])
}

/// The bytes of an instruction form.
pub open spec fn form_bytes(f: OpForm) -> Seq<u8> {
    match f {
        OpForm::Bare(t) => seq![t],
        OpForm::Word(t, w) => seq![t] + le32(w),
        OpForm::Val(t, c) => seq![t] + encode(c),
        OpForm::Val2(t, a, b) => seq![t] + encode(a) + encode(b),
        OpForm::WordVal(t, w, c) => seq![t] + le32(w) + encode(c),
    }
}

/// The number of heap objects decoding an instruction of form `f` allocates:
/// the strings and lists of its value operands.
pub open spec fn form_objects(f: OpForm) -> nat {
    match f {
        OpForm::Val(_, c) => objects_in(c),
        OpForm::Val2(_, a, b) => objects_in(a) + objects_in(b),
        OpForm::WordVal(_, _, c) => objects_in(c),
        _ => 0,
    }
}

/// The number of heap objects decoding the instructions `fs` allocates.
pub open spec fn forms_objects(fs: Seq<OpForm>) -> nat
    decreases fs.len(),
{
    if fs.len() == 0 {
        0
    } else {
        forms_objects(fs.drop_last()) + form_objects(fs.last())
    }
}

/// How an instruction at the start of `data` decodes: its form and the
/// number of bytes it takes.
pub open spec fn parse_opcode(data: Seq<u8>) -> Result<(OpForm, nat), SerError> {
    if data.len() == 0 {
        Err(SerError::UnexpectedEof)
    } else {
        let t = data[0];
        let rest = data.skip(1);
        if is_bare_tag(t) {
            Ok((OpForm::Bare(t), 1nat))
        } else if is_word_tag(t) {
            if rest.len() < 4 {
                Err(SerError::UnexpectedEof)
            } else {
                Ok((OpForm::Word(t, u32_at(rest, 0)), 5nat))
            }
        } else if is_val_tag(t) {
            match parse_value(rest) {
                Ok((c, k)) => Ok((OpForm::Val(t, c), 1 + k)),
                Err(e) => Err(value_err(e)),
            }
        } else if is_val2_tag(t) {
            match parse_value(rest) {
                Ok((a, k1)) => match parse_value(rest.skip(k1 as int)) {
                    Ok((b, k2)) => Ok((OpForm::Val2(t, a, b), 1 + k1 + k2)),
                    Err(e) => Err(value_err(e)),
                },
                Err(e) => Err(value_err(e)),
            }
        } else if t == OP_FILE_SEEK {
            if rest.len() < 4 {
                Err(SerError::UnexpectedEof)
            } else {
                match parse_value(rest.skip(4)) {
                    Ok((c, k)) => Ok((OpForm::WordVal(t, u32_at(rest, 0), c), 5 + k)),
                    Err(e) => Err(value_err(e)),
                }
            }
        } else {
            Err(SerError::UnknownOpcode(t))
        }
    }
}

} // verus!

verus! {

// -- writers --

/// Append the wire encoding of `v`, whose content lives in `heap`.
///
/// The value format is shared with `serialize`, whose encoder also records
/// the identity of each heap object it meets; the module format has no use
/// for those identities, so they are gathered in a scratch map and dropped.
fn write_value(buf: &mut Vec<u8>, v: &Value, heap: &Heap)
    requires
        has_content(heap.objects(), *v),
    ensures
        final(buf)@ == old(buf)@ + encode(content_of(heap.objects(), *v)),
{
    let ghost f = choose|f: nat| #[trigger] crate::serialize::content(heap.objects(), *v, f) is Some;
    proof {
        crate::serialize::lemma_content_of(heap.objects(), *v, f);
    }
    let mut seen: HashMap<usize, u32> = HashMap::new();
    let mut next: u32 = 0;
    crate::serialize::encode_value(buf, heap, v, &mut seen, &mut next, Ghost(f));
}

fn emit_bare(buf: &mut Vec<u8>, t: u8)
    ensures
        final(buf)@ == old(buf)@ + form_bytes(OpForm::Bare(t)),
{
    buf.push(t);
    assert(buf@ =~= old(buf)@ + seq![t]);
}

fn emit_word(buf: &mut Vec<u8>, t: u8, w: u32)
    ensures
        final(buf)@ == old(buf)@ + form_bytes(OpForm::Word(t, w)),
{
    buf.push(t);
    crate::wire::push_u32(buf, w);
    assert(buf@ =~= old(buf)@ + (seq![t] + le32(w)));
}

fn emit_val(buf: &mut Vec<u8>, heap: &Heap, t: u8, v: &Value)
    requires
        has_content(heap.objects(), *v),
    ensures
        final(buf)@ == old(buf)@ + form_bytes(OpForm::Val(t, content_of(heap.objects(), *v))),
{
    buf.push(t);
    write_value(buf, v, heap);
    assert(buf@ =~= old(buf)@ + (seq![t] + encode(content_of(heap.objects(), *v))));
}

fn emit_val2(buf: &mut Vec<u8>, heap: &Heap, t: u8, a: &Value, b: &Value)
    requires
        has_content(heap.objects(), *a),
        has_content(heap.objects(), *b),
    ensures
        final(buf)@ == old(buf)@ + form_bytes(
            OpForm::Val2(t, content_of(heap.objects(), *a), content_of(heap.objects(), *b)),
        ),
{
    buf.push(t);
    write_value(buf, a, heap);
    write_value(buf, b, heap);
    assert(buf@ =~= old(buf)@ + (seq![t] + encode(content_of(heap.objects(), *a)) + encode(
        content_of(heap.objects(), *b),
    )));
}

fn emit_word_val(buf: &mut Vec<u8>, heap: &Heap, t: u8, w: u32, v: &Value)
    requires
        has_content(heap.objects(), *v),
    ensures
        final(buf)@ == old(buf)@ + form_bytes(OpForm::WordVal(t, w, content_of(heap.objects(), *v))),
{
    buf.push(t);
    crate::wire::push_u32(buf, w);
    write_value(buf, v, heap);
    assert(buf@ =~= old(buf)@ + (seq![t] + le32(w) + encode(content_of(heap.objects(), *v))));
}

/// Append the encoding of one instruction.
fn write_opcode(buf: &mut Vec<u8>, op: &OpCode, heap: &Heap)
    requires
        op_has_content(heap.objects(), *op),
    ensures
        final(buf)@ == old(buf)@ + form_bytes(op_form(heap.objects(), *op)),
{
    match op {
        OpCode::Push(v) => {
            assert(op_values(*op)[0] == *v);
            emit_val(buf, heap, OP_PUSH, v)
        },
        OpCode::Pop => emit_bare(buf, OP_POP),
        OpCode::Dup => emit_bare(buf, OP_DUP),
        OpCode::Add => emit_bare(buf, OP_ADD),
        OpCode::Sub => emit_bare(buf, OP_SUB),
        OpCode::Mul => emit_bare(buf, OP_MUL),
        OpCode::Div => emit_bare(buf, OP_DIV),
        OpCode::Mod => emit_bare(buf, OP_MOD),
        OpCode::Neg => emit_bare(buf, OP_NEG),
        OpCode::Eq => emit_bare(buf, OP_EQ),
        OpCode::Neq => emit_bare(buf, OP_NEQ),
        OpCode::Lt => emit_bare(buf, OP_LT),
        OpCode::Gt => emit_bare(buf, OP_GT),
        OpCode::Lte => emit_bare(buf, OP_LTE),
        OpCode::Gte => emit_bare(buf, OP_GTE),
        OpCode::And => emit_bare(buf, OP_AND),
        OpCode::Or => emit_bare(buf, OP_OR),
        OpCode::Not => emit_bare(buf, OP_NOT),
        OpCode::Jump(o) => emit_word(buf, OP_JUMP, *o as u32),
        OpCode::JumpIfTrue(o) => emit_word(buf, OP_JUMP_IF_TRUE, *o as u32),
        OpCode::JumpIfFalse(o) => emit_word(buf, OP_JUMP_IF_FALSE, *o as u32),
        OpCode::Load(i) => emit_word(buf, OP_LOAD, *i as u32),
        OpCode::Store(i) => emit_word(buf, OP_STORE, *i as u32),
        OpCode::Call(i) => emit_word(buf, OP_CALL, *i as u32),
        OpCode::Return => emit_bare(buf, OP_RETURN),
        OpCode::Halt => emit_bare(buf, OP_HALT),
        OpCode::Yield => emit_bare(buf, OP_YIELD),
        OpCode::FileOpen { path, mode } => {
            assert(op_values(*op)[0] == *path && op_values(*op)[1] == *mode);
            emit_val2(buf, heap, OP_FILE_OPEN, path, mode)
        },
        OpCode::FileRead(h) => emit_word(buf, OP_FILE_READ, h.0),
        OpCode::FileWrite(h) => emit_word(buf, OP_FILE_WRITE, h.0),
        OpCode::FileSeek { handle, offset } => {
            assert(op_values(*op)[0] == *offset);
            emit_word_val(buf, heap, OP_FILE_SEEK, handle.0, offset)
        },
        OpCode::FileClose(h) => emit_word(buf, OP_FILE_CLOSE, h.0),
        OpCode::TcpConnect { addr } => {
            assert(op_values(*op)[0] == *addr);
            emit_val(buf, heap, OP_TCP_CONNECT, addr)
        },
        OpCode::TcpRead(h) => emit_word(buf, OP_TCP_READ, h.0),
        OpCode::TcpWrite(h) => emit_word(buf, OP_TCP_WRITE, h.0),
        OpCode::TcpClose(h) => emit_word(buf, OP_TCP_CLOSE, h.0),
        OpCode::HttpGet { url } => {
            assert(op_values(*op)[0] == *url);
            emit_val(buf, heap, OP_HTTP_GET, url)
        },
        OpCode::HttpPost { url, body } => {
            assert(op_values(*op)[0] == *url && op_values(*op)[1] == *body);
            emit_val2(buf, heap, OP_HTTP_POST, url, body)
        },
        OpCode::StdinRead => emit_bare(buf, OP_STDIN_READ),
        OpCode::StdoutWrite => emit_bare(buf, OP_STDOUT_WRITE),
        OpCode::StderrWrite => emit_bare(buf, OP_STDERR_WRITE),
        OpCode::TimerSleep { ms } => {
            assert(op_values(*op)[0] == *ms);
            emit_val(buf, heap, OP_TIMER_SLEEP, ms)
        },
    }
}

} // verus!

verus! {

// -- readers --

use crate::heap::HeapObject;
use crate::serialize::{keeps_live, value_live};

/// Read one value, allocating its strings and lists in `heap`.
fn read_value(data: &[u8], pos: &mut usize, heap: &mut Heap) -> (r: Result<Value, SerError>)
    requires
        old(heap).wf(),
        *old(pos) <= data@.len(),
    ensures
        final(heap).wf(),
        final(heap).threshold() == old(heap).threshold(),
        keeps_live(old(heap).objects(), old(heap).free(), final(heap).objects(), final(heap).free()),
        *final(pos) <= data@.len(),
        match r {
            Ok(v) => parse_value(data@.skip(*old(pos) as int)) matches Ok((c, k)) && *final(pos) == *old(pos)
                + k && k >= 1 && value_live(final(heap).objects(), final(heap).free(), v) && content_of(
                final(heap).objects(),
                v,
            ) == c,
            Err(e) => parse_value(data@.skip(*old(pos) as int)) matches Err(ve) && e == value_err(ve),
        },
        r is Ok ==> live_count(*final(heap)) == live_count(*old(heap)) + objects_in(
            parse_value(data@.skip(*old(pos) as int))->Ok_0.0,
        ),
        parse_value(data@.skip(*old(pos) as int)) is Ok && objects_in(parse_value(data@.skip(*old(pos) as int))->Ok_0.0)
            == 0 ==> *final(heap) == *old(heap),
{
    let mut ids: HashMap<u32, usize> = HashMap::new();
    match crate::serialize::decode_value(data, pos, heap, &mut ids) {
        Ok(v) => {
            proof {
                let c = parse_value(data@.skip(*old(pos) as int)).unwrap().0;
                let f = choose|f: nat|
                    crate::serialize::content(heap.objects(), v, f) == Some(c)
                        && crate::serialize::content_live(heap.objects(), heap.free(), v, f);
                crate::serialize::lemma_content_of(heap.objects(), v, f);
            }
            Ok(v)
        },
        Err(e) => Err(from_value_err(e)),
    }
}

fn bare_tag(t: u8) -> (b: bool)
    ensures
        b == is_bare_tag(t),
{
    t == OP_HALT || (OP_POP <= t && t <= OP_NOT) || t == OP_RETURN || t == OP_YIELD || (OP_STDIN_READ <= t
        && t <= OP_STDERR_WRITE)
}

fn word_tag(t: u8) -> (b: bool)
    ensures
        b == is_word_tag(t),
{
    (OP_JUMP <= t && t <= OP_CALL) || t == OP_FILE_READ || t == OP_FILE_WRITE || t == OP_FILE_CLOSE || (
    OP_TCP_READ <= t && t <= OP_TCP_CLOSE)
}

fn val_tag(t: u8) -> (b: bool)
    ensures
        b == is_val_tag(t),
{
    t == OP_PUSH || t == OP_TCP_CONNECT || t == OP_HTTP_GET || t == OP_TIMER_SLEEP
}

fn val2_tag(t: u8) -> (b: bool)
    ensures
        b == is_val2_tag(t),
{
    t == OP_FILE_OPEN || t == OP_HTTP_POST
}

/// The operand-free instruction with tag `t`.
fn bare_op(t: u8) -> (op: OpCode)
    requires
        is_bare_tag(t),
    ensures
        forall|objs: Seq<HeapObject>| op_form(objs, op) == OpForm::Bare(t),
        op_values(op).len() == 0,
{
    if t == OP_HALT {
        OpCode::Halt
    } else if t == OP_POP {
        OpCode::Pop
    } else if t == OP_DUP {
        OpCode::Dup
    } else if t == OP_ADD {
        OpCode::Add
    } else if t == OP_SUB {
        OpCode::Sub
    } else if t == OP_MUL {
        OpCode::Mul
    } else if t == OP_DIV {
        OpCode::Div
    } else if t == OP_MOD {
        OpCode::Mod
    } else if t == OP_NEG {
        OpCode::Neg
    } else if t == OP_EQ {
        OpCode::Eq
    } else if t == OP_NEQ {
        OpCode::Neq
    } else if t == OP_LT {
        OpCode::Lt
    } else if t == OP_GT {
        OpCode::Gt
    } else if t == OP_LTE {
        OpCode::Lte
    } else if t == OP_GTE {
        OpCode::Gte
    } else if t == OP_AND {
        OpCode::And
    } else if t == OP_OR {
        OpCode::Or
    } else if t == OP_NOT {
        OpCode::Not
    } else if t == OP_RETURN {
        OpCode::Return
    } else if t == OP_YIELD {
        OpCode::Yield
    } else if t == OP_STDIN_READ {
        OpCode::StdinRead
    } else if t == OP_STDOUT_WRITE {
        OpCode::StdoutWrite
    } else {
        OpCode::StderrWrite
    }
}

/// The instruction with tag `t` and `u32` operand `w`.
fn word_op(t: u8, w: u32) -> (op: OpCode)
    requires
        is_word_tag(t),
    ensures
        forall|objs: Seq<HeapObject>| op_form(objs, op) == OpForm::Word(t, w),
        op_values(op).len() == 0,
{
    if t == OP_JUMP {
        OpCode::Jump(w as usize)
    } else if t == OP_JUMP_IF_TRUE {
        OpCode::JumpIfTrue(w as usize)
    } else if t == OP_JUMP_IF_FALSE {
        OpCode::JumpIfFalse(w as usize)
    } else if t == OP_LOAD {
        OpCode::Load(w as usize)
    } else if t == OP_STORE {
        OpCode::Store(w as usize)
    } else if t == OP_CALL {
        OpCode::Call(w as usize)
    } else if t == OP_FILE_READ {
        OpCode::FileRead(HandleId(w))
    } else if t == OP_FILE_WRITE {
        OpCode::FileWrite(HandleId(w))
    } else if t == OP_FILE_CLOSE {
        OpCode::FileClose(HandleId(w))
    } else if t == OP_TCP_READ {
        OpCode::TcpRead(HandleId(w))
    } else if t == OP_TCP_WRITE {
        OpCode::TcpWrite(HandleId(w))
    } else {
        OpCode::TcpClose(HandleId(w))
    }
}

/// The instruction with tag `t` and value operand `v`.
fn val_op(t: u8, v: Value) -> (op: OpCode)
    requires
        is_val_tag(t),
    ensures
        forall|objs: Seq<HeapObject>| op_form(objs, op) == OpForm::Val(t, content_of(objs, v)),
        op_values(op) == seq![v],
{
    if t == OP_PUSH {
        OpCode::Push(v)
    } else if t == OP_TCP_CONNECT {
        OpCode::TcpConnect { addr: v }
    } else if t == OP_HTTP_GET {
        OpCode::HttpGet { url: v }
    } else {
        OpCode::TimerSleep { ms: v }
    }
}

/// The instruction with tag `t` and value operands `a`, `b`.
fn val2_op(t: u8, a: Value, b: Value) -> (op: OpCode)
    requires
        is_val2_tag(t),
    ensures
        forall|objs: Seq<HeapObject>| op_form(objs, op) == OpForm::Val2(t, content_of(objs, a), content_of(objs, b)),
        op_values(op) == seq![a, b],
{
    if t == OP_FILE_OPEN {
        OpCode::FileOpen { path: a, mode: b }
    } else {
        OpCode::HttpPost { url: a, body: b }
    }
}

} // verus!

verus! {

/// Read one instruction, allocating the strings and lists of its value
/// operands in `heap`.
fn read_opcode(data: &[u8], pos: &mut usize, heap: &mut Heap) -> (r: Result<OpCode, SerError>)
    requires
        old(heap).wf(),
    ensures
        final(heap).wf(),
        final(heap).threshold() == old(heap).threshold(),
        keeps_live(old(heap).objects(), old(heap).free(), final(heap).objects(), final(heap).free()),
        *old(pos) > data@.len() ==> r == Err::<OpCode, SerError>(SerError::UnexpectedEof) && *final(pos) == *old(pos)
            && *final(heap) == *old(heap),
        *old(pos) <= data@.len() ==> *final(pos) <= data@.len() && match r {
            Ok(op) => parse_opcode(data@.skip(*old(pos) as int)) matches Ok((form, k)) && *final(pos) == *old(pos)
                + k && k >= 1 && op_live(final(heap).objects(), final(heap).free(), op) && op_form(
                final(heap).objects(),
                op,
            ) == form,
            Err(e) => parse_opcode(data@.skip(*old(pos) as int)) == Err::<(OpForm, nat), SerError>(e),
        },
        *old(pos) <= data@.len() && r is Ok ==> live_count(*final(heap)) == live_count(*old(heap)) + form_objects(
            parse_opcode(data@.skip(*old(pos) as int))->Ok_0.0,
        ),
        *old(pos) <= data@.len() && parse_opcode(data@.skip(*old(pos) as int)) is Ok && form_objects(
            parse_opcode(data@.skip(*old(pos) as int))->Ok_0.0,
        ) == 0 ==> *final(heap) == *old(heap),
{
    if *pos > data.len() {
        return Err(SerError::UnexpectedEof);
    }
    let ghost d = data@.skip(*pos as int);
    let start = *pos;
    let t = match crate::wire::read_u8(data, pos) {
        Some(t) => t,
        None => return Err(SerError::UnexpectedEof),
    };
    proof {
        assert(d[0] == t);
        assert(d.skip(1) =~= data@.skip(*pos as int));
    }
    if bare_tag(t) {
        return Ok(bare_op(t));
    }
    if word_tag(t) {
        let w = match crate::wire::read_u32(data, pos) {
            Some(w) => w,
            None => return Err(SerError::UnexpectedEof),
        };
        assert(u32_at(d.skip(1), 0) == u32_at(data@, start + 1)) by {
            assert(d.skip(1).subrange(0, 4) =~= data@.subrange(start + 1, start + 5));
        }
        return Ok(word_op(t, w));
    }
    if val_tag(t) {
        let v = read_value(data, pos, heap)?;
        let op = val_op(t, v);
        assert(op_values(op)[0] == v);
        return Ok(op);
    }
    if val2_tag(t) {
        let ghost h0 = *heap;
        let a = read_value(data, pos, heap)?;
        let ghost h1 = *heap;
        let ghost k1 = (*pos - start - 1) as nat;
        proof {
            assert(d.skip(1).skip(k1 as int) =~= data@.skip(*pos as int));
        }
        let b = read_value(data, pos, heap)?;
        proof {
            crate::serialize::lemma_value_kept(h1.objects(), h1.free(), heap.objects(), heap.free(), a);
            crate::serialize::lemma_keeps_live_trans(
                h0.objects(),
                h0.free(),
                h1.objects(),
                h1.free(),
                heap.objects(),
                heap.free(),
            );
        }
        let op = val2_op(t, a, b);
        assert(op_values(op)[0] == a && op_values(op)[1] == b);
        return Ok(op);
    }
    if t == OP_FILE_SEEK {
        let w = match crate::wire::read_u32(data, pos) {
            Some(w) => w,
            None => return Err(SerError::UnexpectedEof),
        };
        assert(u32_at(d.skip(1), 0) == u32_at(data@, start + 1)) by {
            assert(d.skip(1).subrange(0, 4) =~= data@.subrange(start + 1, start + 5));
        }
        assert(d.skip(1).skip(4) =~= data@.skip(*pos as int));
        let v = read_value(data, pos, heap)?;
        let op = OpCode::FileSeek { handle: HandleId(w), offset: v };
        assert(op_values(op)[0] == v);
        return Ok(op);
    }
    Err(SerError::UnknownOpcode(t))
}

} // verus!

verus! {

// -- functions --

/// The bytes of a sequence of instructions, back to back.
pub open spec fn ops_bytes(objs: Seq<HeapObject>, ops: Seq<OpCode>) -> Seq<u8>
    decreases ops.len(),
{
    if ops.len() == 0 {
        Seq::empty()
    } else {
        ops_bytes(objs, ops.drop_last()) + form_bytes(op_form(objs, ops.last()))
    }
}

/// The bytes `serialize_function` writes for `f`: name length and name,
/// arity, local count, instruction count (each count as a `u32`), then the
/// instructions.
pub open spec fn function_bytes(objs: Seq<HeapObject>, f: Function) -> Seq<u8> {
    let name = encode_utf8(f.name@);
    le32(name.len() as u32) + name + le32(f.arity as u32) + le32(f.num_locals as u32) + le32(
        f.code@.len() as u32,
    ) + ops_bytes(objs, f.code@)
}

/// A function as it stands on the wire.
#[verifier::ext_equal]
pub struct FnForm {
    pub name: Seq<char>,
    pub arity: u32,
    pub num_locals: u32,
    pub code: Seq<OpForm>,
}

/// The wire form of `f` when its values live in `objs`.
pub open spec fn fn_form(objs: Seq<HeapObject>, f: Function) -> FnForm {
    FnForm {
        name: f.name@,
        arity: f.arity as u32,
        num_locals: f.num_locals as u32,
        code: Seq::new(f.code@.len(), |i: int| op_form(objs, f.code@[i])),
    }
}

/// Every value operand of every instruction of `f` has a content in `objs`.
pub open spec fn function_has_content(objs: Seq<HeapObject>, f: Function) -> bool {
    forall|i: int| 0 <= i < f.code@.len() ==> op_has_content(objs, #[trigger] f.code@[i])
}

/// How `n` back-to-back instructions at the start of `data` decode.
pub open spec fn parse_ops(data: Seq<u8>, n: nat) -> Result<(Seq<OpForm>, nat), SerError>
    decreases data.len(), n,
{
    if n == 0 {
        Ok((Seq::empty(), 0nat))
    } else {
        match parse_opcode(data) {
            Ok((f, k)) => if 1 <= k <= data.len() {
                match parse_ops(data.skip(k as int), (n - 1) as nat) {
                    Ok((fs, k2)) => Ok((seq![f] + fs, k + k2)),
                    Err(e) => Err(e),
                }
            } else {
                Err(SerError::UnexpectedEof)
            },
            Err(e) => Err(e),
        }
    }
}

/// How a function at the start of `data` decodes: its form and the number of
/// bytes it takes. The name is decoded as `String::from_utf8_lossy` does.
pub open spec fn parse_function(data: Seq<u8>) -> Result<(FnForm, nat), SerError> {
    if data.len() < 4 {
        Err(SerError::UnexpectedEof)
    } else {
        let n = u32_at(data, 0) as int;
        if data.len() < 4 + n + 12 {
            Err(SerError::UnexpectedEof)
        } else {
            let p = 4 + n;
            match parse_ops(data.skip(p + 12), u32_at(data, p + 8) as nat) {
                Ok((code, k)) => Ok(
                    (
                        FnForm {
                            name: crate::serialize::text_of(data.subrange(4, p)),
                            arity: u32_at(data, p),
                            num_locals: u32_at(data, p + 4),
                            code,
                        },
                        (p + 12 + k) as nat,
                    ),
                ),
                Err(e) => Err(e),
            }
        }
    }
}

/// Every value operand of every instruction in `ops` lives in `(objs, free)`.
pub open spec fn ops_live(objs: Seq<HeapObject>, free: Seq<usize>, ops: Seq<OpCode>) -> bool {
    forall|i: int| 0 <= i < ops.len() ==> op_live(objs, free, #[trigger] ops[i])
}

/// An instruction whose values are live keeps its form in a heap that keeps
/// every live slot.
pub proof fn lemma_op_kept(o1: Seq<HeapObject>, f1: Seq<usize>, o2: Seq<HeapObject>, f2: Seq<usize>, op: OpCode)
    requires
        op_live(o1, f1, op),
        keeps_live(o1, f1, o2, f2),
    ensures
        op_live(o2, f2, op),
        op_form(o2, op) == op_form(o1, op),
{
    assert forall|i: int| 0 <= i < op_values(op).len() implies crate::serialize::value_live(
        o2,
        f2,
        #[trigger] op_values(op)[i],
    ) && content_of(o2, op_values(op)[i]) == content_of(o1, op_values(op)[i]) by {
        crate::serialize::lemma_value_kept(o1, f1, o2, f2, op_values(op)[i]);
    }
    match op {
        OpCode::Push(v) => assert(op_values(op)[0] == v),
        OpCode::FileOpen { path, mode } => assert(op_values(op)[0] == path && op_values(op)[1] == mode),
        OpCode::FileSeek { offset, .. } => assert(op_values(op)[0] == offset),
        OpCode::TcpConnect { addr } => assert(op_values(op)[0] == addr),
        OpCode::HttpGet { url } => assert(op_values(op)[0] == url),
        OpCode::HttpPost { url, body } => assert(op_values(op)[0] == url && op_values(op)[1] == body),
        OpCode::TimerSleep { ms } => assert(op_values(op)[0] == ms),
        _ => {},
    }
}

} // verus!

verus! {

/// Decoding one more instruction of a run moves its form to the decoded part.
proof fn lemma_ops_advance(
    body: Seq<u8>,
    count: nat,
    db: Seq<u8>,
    m: nat,
    done: Seq<OpForm>,
    off: nat,
    f: OpForm,
    k: nat,
)
    requires
        parse_ops(body, count) == (match parse_ops(db, m) {
            Ok((rest, kk)) => Ok((done + rest, off + kk)),
            Err(e) => Err(e),
        }),
        parse_opcode(db) == Ok::<(OpForm, nat), SerError>((f, k)),
        1 <= k <= db.len(),
        m >= 1,
    ensures
        parse_ops(body, count) == (match parse_ops(db.skip(k as int), (m - 1) as nat) {
            Ok((rest, kk)) => Ok((done.push(f) + rest, off + k + kk)),
            Err(e) => Err(e),
        }),
{
    match parse_ops(db.skip(k as int), (m - 1) as nat) {
        Ok((rest, k2)) => {
            assert(done + (seq![f] + rest) =~= done.push(f) + rest);
        },
        Err(e) => {},
    }
}

/// Every instruction of a run whose values are live keeps its form in a heap
/// that keeps every live slot.
proof fn lemma_ops_kept(
    o1: Seq<HeapObject>,
    f1: Seq<usize>,
    o2: Seq<HeapObject>,
    f2: Seq<usize>,
    ops: Seq<OpCode>,
    forms: Seq<OpForm>,
)
    requires
        ops_live(o1, f1, ops),
        keeps_live(o1, f1, o2, f2),
        ops.len() == forms.len(),
        forall|j: int| 0 <= j < ops.len() ==> op_form(o1, #[trigger] ops[j]) == forms[j],
    ensures
        ops_live(o2, f2, ops),
        forall|j: int| 0 <= j < ops.len() ==> op_form(o2, #[trigger] ops[j]) == forms[j],
{
    assert forall|j: int| 0 <= j < ops.len() implies op_live(o2, f2, #[trigger] ops[j]) && op_form(o2, ops[j])
        == forms[j] by {
        lemma_op_kept(o1, f1, o2, f2, ops[j]);
    }
}

/// Serialize a single function to bytes.
pub fn serialize_function(func: &Function, heap: &Heap) -> (buf: Vec<u8>)
    requires
        function_has_content(heap.objects(), *func),
    ensures
        buf@ == function_bytes(heap.objects(), *func),
{
    let mut buf: Vec<u8> = Vec::new();
    let name = func.name.as_str().as_bytes();
    crate::wire::push_u32(&mut buf, name.len() as u32);
    crate::wire::push_bytes(&mut buf, name);
    crate::wire::push_u32(&mut buf, func.arity as u32);
    crate::wire::push_u32(&mut buf, func.num_locals as u32);
    crate::wire::push_u32(&mut buf, func.code.len() as u32);
    let ghost head = buf@;
    let mut i: usize = 0;
    while i < func.code.len()
        invariant
            function_has_content(heap.objects(), *func),
            i <= func.code@.len(),
            buf@ == head + ops_bytes(heap.objects(), func.code@.take(i as int)),
        decreases func.code@.len() - i,
    {
        assert(func.code@.take(i + 1).drop_last() =~= func.code@.take(i as int));
        write_opcode(&mut buf, &func.code[i], heap);
        i = i + 1;
    }
    assert(func.code@.take(i as int) =~= func.code@);
    buf
}

/// Deserialize a function from the start of `data`, returning it with the
/// number of bytes it took.
fn deserialize_function_counted(data: &[u8], heap: &mut Heap) -> (r: Result<(Function, usize), SerError>)
    requires
        old(heap).wf(),
    ensures
        final(heap).wf(),
        final(heap).threshold() == old(heap).threshold(),
        keeps_live(old(heap).objects(), old(heap).free(), final(heap).objects(), final(heap).free()),
        match r {
            Ok((f, k)) => k <= data@.len() && (parse_function(data@) matches Ok((form, k2)) && k == k2 && fn_form(
                final(heap).objects(),
                f,
            ) == form && f.arity == form.arity as usize && f.num_locals == form.num_locals as usize
                && ops_live(final(heap).objects(), final(heap).free(), f.code@)),
            Err(e) => parse_function(data@) == Err::<(FnForm, nat), SerError>(e),
        },
        r is Ok ==> live_count(*final(heap)) == live_count(*old(heap)) + forms_objects(parse_function(data@)->Ok_0.0.code),
{
    let mut pos: usize = 0;
    let name_len = match crate::wire::read_u32(data, &mut pos) {
        Some(n) => n,
        None => return Err(SerError::UnexpectedEof),
    };
    let ghost n = name_len as int;
    let name_bytes = match crate::wire::read_bytes(data, &mut pos, name_len as usize) {
        Some(b) => b,
        None => return Err(SerError::UnexpectedEof),
    };
    let name = crate::serialize::string_from_utf8_lossy(name_bytes);
    assert(name@ == crate::serialize::text_of(data@.subrange(4, 4 + n)));
    let arity = match crate::wire::read_u32(data, &mut pos) {
        Some(v) => v,
        None => return Err(SerError::UnexpectedEof),
    };
    let num_locals = match crate::wire::read_u32(data, &mut pos) {
        Some(v) => v,
        None => return Err(SerError::UnexpectedEof),
    };
    let count = match crate::wire::read_u32(data, &mut pos) {
        Some(v) => v,
        None => return Err(SerError::UnexpectedEof),
    };
    let body_start = pos;
    let ghost body = data@.skip(body_start as int);
    assert(body_start == 4 + n + 12);
    assert(u32_at(data@, 0) == name_len && u32_at(data@, 4 + n) == arity && u32_at(data@, 8 + n) == num_locals
        && u32_at(data@, 12 + n) == count);
    let mut code: Vec<OpCode> = Vec::new();
    let ghost mut forms: Seq<OpForm> = Seq::empty();
    let ghost whole = parse_function(data@);
    assert(whole == (match parse_ops(body, count as nat) {
        Ok((c, k)) => Ok(
            (FnForm { name: name@, arity, num_locals, code: c }, (body_start + k) as nat),
        ),
        Err(e) => Err(e),
    }));
    assert(forms + Seq::<OpForm>::empty() =~= forms);
    let mut i: u32 = 0;
    while i < count
        invariant
            heap.wf(),
            heap.threshold() == old(heap).threshold(),
            keeps_live(old(heap).objects(), old(heap).free(), heap.objects(), heap.free()),
            body_start <= pos <= data@.len(),
            body == data@.skip(body_start as int),
            whole == parse_function(data@),
            whole == (match parse_ops(body, count as nat) {
                Ok((c, k)) => Ok(
                    (FnForm { name: name@, arity, num_locals, code: c }, (body_start + k) as nat),
                ),
                Err(e) => Err(e),
            }),
            i <= count,
            code@.len() == i,
            forms.len() == i,
            ops_live(heap.objects(), heap.free(), code@),
            forall|j: int| 0 <= j < i ==> op_form(heap.objects(), #[trigger] code@[j]) == forms[j],
            live_count(*heap) == live_count(*old(heap)) + forms_objects(forms),
            parse_ops(body, count as nat) == (match parse_ops(data@.skip(pos as int), (count - i) as nat) {
                Ok((rest, k)) => Ok((forms + rest, ((pos - body_start) + k) as nat)),
                Err(e) => Err(e),
            }),
        decreases count - i,
    {
        let ghost hb = *heap;
        let ghost pb = pos;
        let ghost db = data@.skip(pb as int);
        let op = match read_opcode(data, &mut pos, heap) {
            Ok(op) => op,
            Err(e) => {
                proof {
                    crate::serialize::lemma_keeps_live_trans(
                        old(heap).objects(),
                        old(heap).free(),
                        hb.objects(),
                        hb.free(),
                        heap.objects(),
                        heap.free(),
                    );
                    assert(parse_ops(db, (count - i) as nat) == Err::<(Seq<OpForm>, nat), SerError>(e));
                }
                return Err(e);
            },
        };
        proof {
            crate::serialize::lemma_keeps_live_trans(
                old(heap).objects(),
                old(heap).free(),
                hb.objects(),
                hb.free(),
                heap.objects(),
                heap.free(),
            );
            lemma_ops_kept(hb.objects(), hb.free(), heap.objects(), heap.free(), code@, forms);
            let (f, k) = parse_opcode(db).unwrap();
            lemma_ops_advance(body, count as nat, db, (count - i) as nat, forms, (pb - body_start) as nat, f, k);
            assert(db.skip(k as int) =~= data@.skip(pos as int));
            let f0 = forms;
            forms = forms.push(f);
            assert(forms.drop_last() =~= f0);
        }
        let ghost prev = code@;
        code.push(op);
        proof {
            assert forall|j: int| 0 <= j < i + 1 implies op_live(heap.objects(), heap.free(), #[trigger] code@[j])
                && op_form(heap.objects(), code@[j]) == forms[j] by {
                if j < i {
                    assert(code@[j] == prev[j]);
                }
            }
        }
        i = i + 1;
    }
    assert(parse_ops(data@.skip(pos as int), 0) == Ok::<(Seq<OpForm>, nat), SerError>((Seq::empty(), 0nat)));
    assert(forms + Seq::<OpForm>::empty() =~= forms);
    let f = Function { name, arity: arity as usize, code, num_locals: num_locals as usize };
    assert(fn_form(heap.objects(), f).code =~= forms);
    Ok((f, pos))
}

/// Deserialize a single function from bytes.
pub fn deserialize_function(data: &[u8], heap: &mut Heap) -> (r: Result<Function, SerError>)
    requires
        old(heap).wf(),
    ensures
        final(heap).wf(),
        final(heap).threshold() == old(heap).threshold(),
        keeps_live(old(heap).objects(), old(heap).free(), final(heap).objects(), final(heap).free()),
        match r {
            Ok(f) => parse_function(data@) matches Ok((form, _)) && fn_form(final(heap).objects(), f) == form
                && f.arity == form.arity as usize && f.num_locals == form.num_locals as usize && ops_live(
                final(heap).objects(),
                final(heap).free(),
                f.code@,
            ),
            Err(e) => parse_function(data@) == Err::<(FnForm, nat), SerError>(e),
        },
        r is Ok ==> live_count(*final(heap)) == live_count(*old(heap)) + forms_objects(parse_function(data@)->Ok_0.0.code),
{
    match deserialize_function_counted(data, heap) {
        Ok((f, _)) => Ok(f),
        Err(e) => Err(e),
    }
}

} // verus!

verus! {

// -- modules --

/// The instruction count a module header records: the instruction counts of
/// its functions, each taken as a `u32`, summed modulo 2^32.
pub open spec fn total_code(fs: Seq<Function>) -> u32
    decreases fs.len(),
{
    if fs.len() == 0 {
        0
    } else {
        let a = total_code(fs.drop_last()) as int;
        let b = (fs.last().code@.len() as u32) as int;
        if a + b > u32::MAX {
            (a + b - 0x1_0000_0000) as u32
        } else {
            (a + b) as u32
        }
    }
}

/// The encodings of a sequence of functions, back to back.
pub open spec fn functions_bytes(objs: Seq<HeapObject>, fs: Seq<Function>) -> Seq<u8>
    decreases fs.len(),
{
    if fs.len() == 0 {
        Seq::empty()
    } else {
        functions_bytes(objs, fs.drop_last()) + function_bytes(objs, fs.last())
    }
}

/// The bytes `serialize_module` writes: magic, version, function count,
/// instruction count, then the functions.
pub open spec fn module_bytes(objs: Seq<HeapObject>, fs: Seq<Function>) -> Seq<u8> {
    magic() + le32(VERSION) + le32(fs.len() as u32) + le32(total_code(fs)) + functions_bytes(objs, fs)
}

/// Serialize a module (list of functions) to bytes with header.
pub fn serialize_module(functions: &[Function], heap: &Heap) -> (buf: Vec<u8>)
    requires
        forall|i: int| 0 <= i < functions@.len() ==> function_has_content(heap.objects(), #[trigger] functions@[i]),
    ensures
        buf@ == module_bytes(heap.objects(), functions@),
{
    let mut buf: Vec<u8> = Vec::new();
    buf.push(0x50u8);
    buf.push(0x41u8);
    buf.push(0x55u8);
    buf.push(0x42u8);
    crate::wire::push_u32(&mut buf, VERSION);
    crate::wire::push_u32(&mut buf, functions.len() as u32);
    let mut total: u32 = 0;
    let mut i: usize = 0;
    while i < functions.len()
        invariant
            i <= functions@.len(),
            total == total_code(functions@.take(i as int)),
        decreases functions@.len() - i,
    {
        assert(functions@.take(i + 1).drop_last() =~= functions@.take(i as int));
        total = total.wrapping_add(functions[i].code.len() as u32);
        i = i + 1;
    }
    assert(functions@.take(i as int) =~= functions@);
    crate::wire::push_u32(&mut buf, total);
    assert(buf@ =~= magic() + le32(VERSION) + le32(functions@.len() as u32) + le32(total));
    let ghost head = buf@;
    let mut j: usize = 0;
    while j < functions.len()
        invariant
            forall|k: int| 0 <= k < functions@.len() ==> function_has_content(heap.objects(), #[trigger] functions@[k]),
            j <= functions@.len(),
            buf@ == head + functions_bytes(heap.objects(), functions@.take(j as int)),
        decreases functions@.len() - j,
    {
        assert(functions@.take(j + 1).drop_last() =~= functions@.take(j as int));
        let bytes = serialize_function(&functions[j], heap);
        crate::wire::push_bytes(&mut buf, bytes.as_slice());
        assert(buf@ =~= head + functions_bytes(heap.objects(), functions@.take(j + 1)));
        j = j + 1;
    }
    assert(functions@.take(j as int) =~= functions@);
    buf
}

/// The module opens with the magic `PAUB`.
pub open spec fn magic_ok(data: Seq<u8>) -> bool {
    data.len() >= 4 && data.subrange(0, 4) == magic()
}

/// How `n` back-to-back functions at the start of `data` decode.
pub open spec fn parse_functions(data: Seq<u8>, n: nat) -> Result<Seq<FnForm>, SerError>
    decreases data.len(), n,
{
    if n == 0 {
        Ok(Seq::empty())
    } else {
        match parse_function(data) {
            Ok((f, k)) => if 1 <= k <= data.len() {
                match parse_functions(data.skip(k as int), (n - 1) as nat) {
                    Ok(fs) => Ok(seq![f] + fs),
                    Err(e) => Err(e),
                }
            } else {
                Err(SerError::UnexpectedEof)
            },
            Err(e) => Err(e),
        }
    }
}

/// How a module whose magic is right decodes: the version must be 1; the
/// recorded instruction count is not checked.
pub open spec fn parse_module_body(data: Seq<u8>) -> Result<Seq<FnForm>, SerError> {
    if data.len() < 8 {
        Err(SerError::UnexpectedEof)
    } else if u32_at(data, 4) != VERSION {
        Err(SerError::UnsupportedVersion(u32_at(data, 4)))
    } else if data.len() < 16 {
        Err(SerError::UnexpectedEof)
    } else {
        parse_functions(data.skip(16), u32_at(data, 8) as nat)
    }
}

} // verus!

verus! {

/// The number of heap objects decoding the functions `forms` allocates.
pub open spec fn module_objects(forms: Seq<FnForm>) -> nat
    decreases forms.len(),
{
    if forms.len() == 0 {
        0
    } else {
        module_objects(forms.drop_last()) + forms_objects(forms.last().code)
    }
}

/// The functions `fs` decoded into heap `(objs, free)` stand for the forms
/// `forms`: same names, counts and instructions, their values live.
pub open spec fn decoded_as(objs: Seq<HeapObject>, free: Seq<usize>, fs: Seq<Function>, forms: Seq<FnForm>) -> bool {
    &&& fs.len() == forms.len()
    &&& forall|i: int|
        0 <= i < fs.len() ==> fn_form(objs, #[trigger] fs[i]) == forms[i] && fs[i].arity == forms[i].arity as usize
            && fs[i].num_locals == forms[i].num_locals as usize && ops_live(objs, free, fs[i].code@)
}

/// Deserialize a module (list of functions) from bytes, into a heap of its
/// own.
pub fn deserialize_module(data: &[u8]) -> (r: Result<(Vec<Function>, Heap), SerError>)
    ensures
        data@.len() < 4 ==> r == Err::<(Vec<Function>, Heap), SerError>(SerError::UnexpectedEof),
        data@.len() >= 4 && !magic_ok(data@) ==> (r matches Err(SerError::BadMagic { found }) && found@
            == data@.subrange(0, 4)),
        magic_ok(data@) ==> match r {
            Ok((fs, heap)) => heap.wf() && (parse_module_body(data@) matches Ok(forms) && decoded_as(
                heap.objects(),
                heap.free(),
                fs@,
                forms,
            ) && live_count(heap) == module_objects(forms)),
            Err(e) => parse_module_body(data@) == Err::<Seq<FnForm>, SerError>(e),
        },
{
    if data.len() < 4 {
        return Err(SerError::UnexpectedEof);
    }
    let found: [u8; 4] = [data[0], data[1], data[2], data[3]];
    assert(found@ =~= data@.subrange(0, 4));
    if !(data[0] == 0x50u8 && data[1] == 0x41u8 && data[2] == 0x55u8 && data[3] == 0x42u8) {
        assert(!magic_ok(data@)) by {
            if magic_ok(data@) {
                assert(data@.subrange(0, 4)[0] == data@[0]);
                assert(data@.subrange(0, 4)[1] == data@[1]);
                assert(data@.subrange(0, 4)[2] == data@[2]);
                assert(data@.subrange(0, 4)[3] == data@[3]);
            }
        }
        return Err(SerError::BadMagic { found });
    }
    assert(magic_ok(data@)) by {
        assert(data@.subrange(0, 4) =~= magic());
    }
    let mut pos: usize = 4;
    let version = match crate::wire::read_u32(data, &mut pos) {
        Some(v) => v,
        None => return Err(SerError::UnexpectedEof),
    };
    if version != VERSION {
        return Err(SerError::UnsupportedVersion(version));
    }
    let count = match crate::wire::read_u32(data, &mut pos) {
        Some(v) => v,
        None => return Err(SerError::UnexpectedEof),
    };
    let _total = match crate::wire::read_u32(data, &mut pos) {
        Some(v) => v,
        None => return Err(SerError::UnexpectedEof),
    };
    let ghost body = data@.skip(16);
    let mut heap = Heap::new();
    let mut functions: Vec<Function> = Vec::new();
    let ghost mut forms: Seq<FnForm> = Seq::empty();
    assert(forms + Seq::<FnForm>::empty() =~= forms);
    let mut i: u32 = 0;
    while i < count
        invariant
            heap.wf(),
            16 <= pos <= data@.len(),
            body == data@.skip(16),
            magic_ok(data@),
            parse_module_body(data@) == parse_functions(body, count as nat),
            i <= count,
            decoded_as(heap.objects(), heap.free(), functions@, forms),
            live_count(heap) == module_objects(forms),
            parse_functions(body, count as nat) == (match parse_functions(data@.skip(pos as int), (count - i) as nat) {
                Ok(rest) => Ok(forms + rest),
                Err(e) => Err(e),
            }),
        decreases count - i,
    {
        let ghost hb = heap;
        let ghost db = data@.skip(pos as int);
        let rest = vstd::slice::slice_subrange(data, pos, data.len());
        assert(rest@ =~= db);
        let (f, used) = match deserialize_function_counted(rest, &mut heap) {
            Ok(p) => p,
            Err(e) => {
                assert(parse_functions(db, (count - i) as nat) == Err::<Seq<FnForm>, SerError>(e));
                return Err(e);
            },
        };
        let ghost form = parse_function(db).unwrap().0;
        proof {
            assert forall|j: int| 0 <= j < functions@.len() implies fn_form(heap.objects(), #[trigger] functions@[j])
                == forms[j] && ops_live(heap.objects(), heap.free(), functions@[j].code@) by {
                let g = functions@[j];
                lemma_ops_kept(
                    hb.objects(),
                    hb.free(),
                    heap.objects(),
                    heap.free(),
                    g.code@,
                    forms[j].code,
                );
                assert(fn_form(heap.objects(), g).code =~= forms[j].code);
            }
        }
        assert(used >= 16);
        assert(used <= rest@.len());
        let ghost forms0 = forms;
        proof {
            forms = forms.push(form);
            assert(forms.drop_last() =~= forms0);
            assert(db.skip(used as int) =~= data@.skip(pos + used));
            match parse_functions(db.skip(used as int), (count - i - 1) as nat) {
                Ok(more) => {
                    assert(forms0 + (seq![form] + more) =~= forms + more);
                },
                Err(e) => {},
            }
        }
        let ghost prev = functions@;
        functions.push(f);
        proof {
            assert forall|j: int| 0 <= j < functions@.len() implies fn_form(heap.objects(), #[trigger] functions@[j])
                == forms[j] && functions@[j].arity == forms[j].arity as usize && functions@[j].num_locals
                == forms[j].num_locals as usize && ops_live(heap.objects(), heap.free(), functions@[j].code@) by {
                if j < prev.len() {
                    assert(functions@[j] == prev[j]);
                }
            }
        }
        pos = pos + used;
        i = i + 1;
    }
    assert(parse_functions(data@.skip(pos as int), 0) == Ok::<Seq<FnForm>, SerError>(Seq::empty()));
    assert(forms + Seq::<FnForm>::empty() =~= forms);
    Ok((functions, heap))
}

} // verus!

verus! {

// -- round trip --

/// The tag of a form belongs to the form's kind.
pub open spec fn form_tag_ok(f: OpForm) -> bool {
    match f {
        OpForm::Bare(t) => is_bare_tag(t),
        OpForm::Word(t, _) => is_word_tag(t),
        OpForm::Val(t, _) => is_val_tag(t),
        OpForm::Val2(t, _, _) => is_val2_tag(t),
        OpForm::WordVal(t, _, _) => t == OP_FILE_SEEK,
    }
}

/// The value operands of a form fit the format's 32-bit counts.
pub open spec fn form_fits(f: OpForm) -> bool {
    match f {
        OpForm::Val(_, c) => crate::serialize::fits(c),
        OpForm::Val2(_, a, b) => crate::serialize::fits(a) && crate::serialize::fits(b),
        OpForm::WordVal(_, _, c) => crate::serialize::fits(c),
        _ => true,
    }
}

/// Every instruction of `ops` has value operands that fit.
pub open spec fn code_fits(objs: Seq<HeapObject>, ops: Seq<OpCode>) -> bool {
    forall|i: int| 0 <= i < ops.len() ==> form_fits(op_form(objs, #[trigger] ops[i]))
}

/// The lengths `serialize_function` writes as `u32` fit: name, instruction
/// count and every string and list inside the instructions.
pub open spec fn function_fits(objs: Seq<HeapObject>, f: Function) -> bool {
    &&& encode_utf8(f.name@).len() <= u32::MAX
    &&& f.code@.len() <= u32::MAX
    &&& code_fits(objs, f.code@)
}

proof fn lemma_op_form_tag(objs: Seq<HeapObject>, op: OpCode)
    ensures
        form_tag_ok(op_form(objs, op)),
{
}

proof fn lemma_parse_form(f: OpForm, rest: Seq<u8>)
    requires
        form_tag_ok(f),
        form_fits(f),
    ensures
        parse_opcode(form_bytes(f) + rest) == Ok::<(OpForm, nat), SerError>((f, form_bytes(f).len())),
{
    let data = form_bytes(f) + rest;
    match f {
        OpForm::Bare(t) => {
            assert(data[0] == t);
        },
        OpForm::Word(t, w) => {
            assert(data[0] == t);
            crate::wire::lemma_le32_roundtrip(w, Seq::empty(), rest);
            assert(data.skip(1) =~= Seq::<u8>::empty() + le32(w) + rest);
        },
        OpForm::Val(t, c) => {
            assert(data[0] == t);
            assert(data.skip(1) =~= encode(c) + rest);
            crate::serialize::lemma_parse_encode(c, rest);
        },
        OpForm::Val2(t, a, b) => {
            assert(data[0] == t);
            assert(data.skip(1) =~= encode(a) + (encode(b) + rest));
            crate::serialize::lemma_parse_encode(a, encode(b) + rest);
            assert(data.skip(1).skip(encode(a).len() as int) =~= encode(b) + rest);
            crate::serialize::lemma_parse_encode(b, rest);
        },
        OpForm::WordVal(t, w, c) => {
            assert(data[0] == t);
            crate::wire::lemma_le32_roundtrip(w, Seq::empty(), encode(c) + rest);
            assert(data.skip(1) =~= Seq::<u8>::empty() + le32(w) + (encode(c) + rest));
            assert(data.skip(1).skip(4) =~= encode(c) + rest);
            crate::serialize::lemma_parse_encode(c, rest);
        },
    }
}

/// An instruction written by `write_opcode` reads back as an instruction of
/// the same form (values with the same contents), consuming exactly the
/// bytes written, whatever follows them.
pub proof fn law_opcode_roundtrip(objs: Seq<HeapObject>, op: OpCode, rest: Seq<u8>)
    requires
        form_fits(op_form(objs, op)),
    ensures
        parse_opcode(form_bytes(op_form(objs, op)) + rest) == Ok::<(OpForm, nat), SerError>(
            (op_form(objs, op), form_bytes(op_form(objs, op)).len()),
        ),
{
    lemma_op_form_tag(objs, op);
    lemma_parse_form(op_form(objs, op), rest);
}

proof fn lemma_ops_bytes_front(objs: Seq<HeapObject>, ops: Seq<OpCode>)
    requires
        ops.len() > 0,
    ensures
        ops_bytes(objs, ops) == form_bytes(op_form(objs, ops[0])) + ops_bytes(objs, ops.skip(1)),
    decreases ops.len(),
{
    if ops.len() == 1 {
        assert(ops.drop_last() =~= Seq::<OpCode>::empty());
        assert(ops.skip(1) =~= Seq::<OpCode>::empty());
        assert(ops.last() == ops[0]);
        assert(ops_bytes(objs, ops.drop_last()) == Seq::<u8>::empty());
        assert(ops_bytes(objs, ops) =~= form_bytes(op_form(objs, ops[0])));
    } else {
        lemma_ops_bytes_front(objs, ops.drop_last());
        assert(ops.drop_last().skip(1) =~= ops.skip(1).drop_last());
        assert(ops.skip(1).last() == ops.last());
        assert(ops_bytes(objs, ops) =~= form_bytes(op_form(objs, ops[0])) + ops_bytes(objs, ops.skip(1)));
    }
}

proof fn lemma_form_bytes_nonempty(f: OpForm)
    ensures
        form_bytes(f).len() >= 1,
{
}

/// Decoding back-to-back instructions gives their forms back, whatever follows.
#[verifier::spinoff_prover]
#[verifier::rlimit(30)]
proof fn lemma_parse_ops_bytes(objs: Seq<HeapObject>, ops: Seq<OpCode>, rest: Seq<u8>)
    requires
        code_fits(objs, ops),
    ensures
        parse_ops(ops_bytes(objs, ops) + rest, ops.len()) == Ok::<(Seq<OpForm>, nat), SerError>(
            (Seq::new(ops.len(), |i: int| op_form(objs, ops[i])), ops_bytes(objs, ops).len()),
        ),
    decreases ops.len(),
{
    if ops.len() == 0 {
        assert(Seq::new(ops.len(), |i: int| op_form(objs, ops[i])) =~= Seq::<OpForm>::empty());
    } else {
        lemma_ops_bytes_front(objs, ops);
        let tail = ops.skip(1);
        let f = op_form(objs, ops[0]);
        assert(code_fits(objs, tail)) by {
            assert forall|i: int| 0 <= i < tail.len() implies form_fits(op_form(objs, #[trigger] tail[i])) by {
                assert(tail[i] == ops[i + 1]);
            }
        }
        assert(form_fits(f));
        lemma_op_form_tag(objs, ops[0]);
        let data = ops_bytes(objs, ops) + rest;
        assert(data =~= form_bytes(f) + (ops_bytes(objs, tail) + rest));
        lemma_parse_form(f, ops_bytes(objs, tail) + rest);
        lemma_form_bytes_nonempty(f);
        assert(data.skip(form_bytes(f).len() as int) =~= ops_bytes(objs, tail) + rest);
        lemma_parse_ops_bytes(objs, tail, rest);
        assert(seq![f] + Seq::new(tail.len(), |i: int| op_form(objs, tail[i])) =~= Seq::new(
            ops.len(),
            |i: int| op_form(objs, ops[i]),
        ));
    }
}

/// Law: a function written by `serialize_function` reads back as the same
/// function: same name, arity and local count (as the `u32`s written), and
/// instructions of the same forms (values with the same contents); reading
/// consumes exactly the bytes written, whatever follows them.
#[verifier::spinoff_prover]
pub proof fn law_function_roundtrip(objs: Seq<HeapObject>, f: Function, rest: Seq<u8>)
    requires
        function_has_content(objs, f),
        function_fits(objs, f),
    ensures
        parse_function(function_bytes(objs, f) + rest) == Ok::<(FnForm, nat), SerError>(
            (fn_form(objs, f), function_bytes(objs, f).len()),
        ),
{
    let name = encode_utf8(f.name@);
    let n = name.len() as u32;
    let data = function_bytes(objs, f) + rest;
    let tail = le32(f.arity as u32) + le32(f.num_locals as u32) + le32(f.code@.len() as u32) + (ops_bytes(
        objs,
        f.code@,
    ) + rest);
    assert(data =~= le32(n) + (name + tail));
    crate::wire::lemma_le32_roundtrip(n, Seq::empty(), name + tail);
    assert(Seq::<u8>::empty() + le32(n) + (name + tail) =~= data);
    let p: int = 4 + name.len() as int;
    assert(data.subrange(4, p) =~= name);
    crate::wire::lemma_le32_roundtrip(f.arity as u32, le32(n) + name, le32(f.num_locals as u32) + le32(
        f.code@.len() as u32,
    ) + (ops_bytes(objs, f.code@) + rest));
    crate::wire::lemma_le32_roundtrip(f.num_locals as u32, le32(n) + name + le32(f.arity as u32), le32(
        f.code@.len() as u32,
    ) + (ops_bytes(objs, f.code@) + rest));
    crate::wire::lemma_le32_roundtrip(f.code@.len() as u32, le32(n) + name + le32(f.arity as u32) + le32(
        f.num_locals as u32,
    ), ops_bytes(objs, f.code@) + rest);
    assert(data =~= le32(n) + name + le32(f.arity as u32) + le32(f.num_locals as u32) + (le32(f.code@.len() as u32)
        + (ops_bytes(objs, f.code@) + rest)));
    assert(data =~= le32(n) + name + le32(f.arity as u32) + (le32(f.num_locals as u32) + le32(f.code@.len() as u32)
        + (ops_bytes(objs, f.code@) + rest)));
    assert(data =~= le32(n) + name + (le32(f.arity as u32) + le32(f.num_locals as u32) + le32(f.code@.len() as u32)
        + (ops_bytes(objs, f.code@) + rest)));
    assert(data.skip(p + 12) =~= ops_bytes(objs, f.code@) + rest);
    lemma_parse_ops_bytes(objs, f.code@, rest);
    vstd::utf8::encode_utf8_valid_utf8(f.name@);
    vstd::utf8::encode_utf8_decode_utf8(f.name@);
    assert(fn_form(objs, f).code =~= Seq::new(f.code@.len(), |i: int| op_form(objs, f.code@[i])));
    assert(u32_at(data, 0) == n);
    assert(u32_at(data, p) == f.arity as u32);
    assert(u32_at(data, p + 4) == f.num_locals as u32);
    assert(data =~= le32(n) + name + le32(f.arity as u32) + le32(f.num_locals as u32) + le32(f.code@.len() as u32)
        + (ops_bytes(objs, f.code@) + rest));
    assert(u32_at(data, p + 8) == f.code@.len() as u32);
    assert(crate::serialize::text_of(data.subrange(4, p)) == f.name@);
    assert(function_bytes(objs, f).len() == p + 12 + ops_bytes(objs, f.code@).len());
}

} // verus!

verus! {

proof fn lemma_functions_bytes_front(objs: Seq<HeapObject>, fs: Seq<Function>)
    requires
        fs.len() > 0,
    ensures
        functions_bytes(objs, fs) == function_bytes(objs, fs[0]) + functions_bytes(objs, fs.skip(1)),
    decreases fs.len(),
{
    if fs.len() == 1 {
        assert(fs.drop_last() =~= Seq::<Function>::empty());
        assert(fs.skip(1) =~= Seq::<Function>::empty());
        assert(fs.last() == fs[0]);
        assert(functions_bytes(objs, fs.drop_last()) == Seq::<u8>::empty());
        assert(functions_bytes(objs, fs) =~= function_bytes(objs, fs[0]));
    } else {
        lemma_functions_bytes_front(objs, fs.drop_last());
        assert(fs.drop_last().skip(1) =~= fs.skip(1).drop_last());
        assert(fs.skip(1).last() == fs.last());
        assert(functions_bytes(objs, fs) =~= function_bytes(objs, fs[0]) + functions_bytes(objs, fs.skip(1)));
    }
}

#[verifier::spinoff_prover]
#[verifier::rlimit(40)]
proof fn lemma_parse_functions_bytes(objs: Seq<HeapObject>, fs: Seq<Function>)
    requires
        forall|i: int| 0 <= i < fs.len() ==> function_has_content(objs, #[trigger] fs[i]) && function_fits(objs, fs[i]),
    ensures
        parse_functions(functions_bytes(objs, fs), fs.len()) == Ok::<Seq<FnForm>, SerError>(
            Seq::new(fs.len(), |i: int| fn_form(objs, fs[i])),
        ),
    decreases fs.len(),
{
    if fs.len() == 0 {
        assert(Seq::new(fs.len(), |i: int| fn_form(objs, fs[i])) =~= Seq::<FnForm>::empty());
    } else {
        lemma_functions_bytes_front(objs, fs);
        let tail = fs.skip(1);
        assert forall|i: int| 0 <= i < tail.len() implies function_has_content(objs, #[trigger] tail[i])
            && function_fits(objs, tail[i]) by {
            assert(tail[i] == fs[i + 1]);
        }
        assert(function_has_content(objs, fs[0]) && function_fits(objs, fs[0]));
        let data = functions_bytes(objs, fs);
        law_function_roundtrip(objs, fs[0], functions_bytes(objs, tail));
        let k = function_bytes(objs, fs[0]).len();
        assert(data.skip(k as int) =~= functions_bytes(objs, tail));
        lemma_parse_functions_bytes(objs, tail);
        assert(seq![fn_form(objs, fs[0])] + Seq::new(tail.len(), |i: int| fn_form(objs, tail[i])) =~= Seq::new(
            fs.len(),
            |i: int| fn_form(objs, fs[i]),
        ));
    }
}

/// Law: a module written by `serialize_module` opens with the right magic and
/// reads back as its functions, each of the same form.
pub proof fn law_module_roundtrip(objs: Seq<HeapObject>, fs: Seq<Function>)
    requires
        fs.len() <= u32::MAX,
        forall|i: int| 0 <= i < fs.len() ==> function_has_content(objs, #[trigger] fs[i]) && function_fits(objs, fs[i]),
    ensures
        magic_ok(module_bytes(objs, fs)),
        parse_module_body(module_bytes(objs, fs)) == Ok::<Seq<FnForm>, SerError>(
            Seq::new(fs.len(), |i: int| fn_form(objs, fs[i])),
        ),
{
    let data = module_bytes(objs, fs);
    let n = fs.len() as u32;
    assert(data.subrange(0, 4) =~= magic());
    crate::wire::lemma_le32_roundtrip(VERSION, magic(), le32(n) + le32(total_code(fs)) + functions_bytes(objs, fs));
    assert(data =~= magic() + le32(VERSION) + (le32(n) + le32(total_code(fs)) + functions_bytes(objs, fs)));
    crate::wire::lemma_le32_roundtrip(n, magic() + le32(VERSION), le32(total_code(fs)) + functions_bytes(objs, fs));
    assert(data =~= magic() + le32(VERSION) + le32(n) + (le32(total_code(fs)) + functions_bytes(objs, fs)));
    crate::wire::lemma_le32_roundtrip(total_code(fs), magic() + le32(VERSION) + le32(n), functions_bytes(objs, fs));
    assert(data.skip(16) =~= functions_bytes(objs, fs));
    lemma_parse_functions_bytes(objs, fs);
}

} // verus!

verus! {

/// `[` the bytes in upper-case hexadecimal, two digits each, separated by `, ` `]`.
pub open spec fn spec_byte_list(b: Seq<u8>) -> Seq<char> {
    "["@ + spec_hex_padded(b[0] as nat, 2) + ", "@ + spec_hex_padded(b[1] as nat, 2) + ", "@ + spec_hex_padded(
        b[2] as nat,
        2,
    ) + ", "@ + spec_hex_padded(b[3] as nat, 2) + "]"@
}

impl SerError {
    /// The error's message.
    pub fn display_string(&self) -> (s: String)
        ensures
            s@ == (match *self {
                SerError::BadMagic { found } => "bad magic: "@ + spec_byte_list(found@),
                SerError::UnsupportedVersion(v) => "unsupported version: "@ + spec_decimal_u64(v as u64),
                SerError::UnexpectedEof => "unexpected end of data"@,
                SerError::UnknownOpcode(b) => "unknown opcode byte: "@ + crate::text::spec_hex_byte(b),
                SerError::UnknownValueTag(b) => "unknown value tag: "@ + crate::text::spec_hex_byte(b),
                SerError::HeapValueWithoutHeap => "cannot serialize/deserialize a heap-backed Value without a Heap context"@,
            }),
    {
        match self {
            SerError::BadMagic { found } => {
                let mut s = text("bad magic: [");
                let ghost s0 = s@;
                push_hex_padded(&mut s, found[0] as u64, 2);
                s.append(", ");
                push_hex_padded(&mut s, found[1] as u64, 2);
                s.append(", ");
                push_hex_padded(&mut s, found[2] as u64, 2);
                s.append(", ");
                push_hex_padded(&mut s, found[3] as u64, 2);
                s.append("]");
                proof {
                    reveal_strlit("bad magic: [");
                    reveal_strlit("bad magic: ");
                    reveal_strlit("[");
                }
                assert(s@ =~= "bad magic: "@ + spec_byte_list(found@));
                s
            },
            SerError::UnsupportedVersion(v) => {
                let mut s = text("unsupported version: ");
                push_decimal_u64(&mut s, *v as u64);
                s
            },
            SerError::UnexpectedEof => text("unexpected end of data"),
            SerError::UnknownOpcode(b) => {
                let mut s = text("unknown opcode byte: ");
                crate::text::push_hex_byte(&mut s, *b);
                s
            },
            SerError::UnknownValueTag(b) => {
                let mut s = text("unknown value tag: ");
                crate::text::push_hex_byte(&mut s, *b);
                s
            },
            SerError::HeapValueWithoutHeap => text(
                "cannot serialize/deserialize a heap-backed Value without a Heap context",
            ),
        }
    }
}

} // verus!
