//! Snapshots of the machine state and their binary format.
//!
//! A snapshot file is the magic `PAUS`, the header fields, then five
//! sections: the heap objects reachable from the roots (in slot order), the
//! call frames, the operand stack, the I/O handles and the task tree. Inside
//! frames, stack and list elements a heap reference is written as the
//! position of its object in the heap section.

use std::collections::HashMap;
use vstd::prelude::*;

use crate::io::HandleId;

verus! {

/// Errors of snapshot write / read / restore.
#[derive(Debug, Clone, PartialEq)]
pub enum SnapshotError {
    /// File magic does not match `"PAUS"`.
    BadMagic { found: [u8; 4] },
    /// Snapshot version is not supported by this runtime.
    UnsupportedVersion(u32),
    /// Code hash mismatch: the bytecode has changed since the snapshot was taken.
    CodeMismatch { expected: u64, found: u64 },
    /// File I/O error.
    IoError(String),
    /// Premature end of data.
    UnexpectedEof,
    /// Unknown object tag in the heap section.
    UnknownObjectTag(u8),
    /// A heap position refers to an object that was never read.
    InvalidHeapPosition(u32),
}

/// Outcome of reconnecting a single I/O handle during resume.
#[derive(Debug, Clone, PartialEq)]
pub enum ReconnectStatus {
    /// Handle reconnected successfully.
    Reconnected,
    /// Handle reconnected with degraded capability.
    Degraded { reason: String },
    /// Handle could not be reconnected.
    Failed { reason: String },
}

impl ReconnectStatus {
    pub fn is_failed(&self) -> (b: bool)
        ensures
            b == (*self is Failed),
    {
        matches!(self, ReconnectStatus::Failed { .. })
    }
}

/// Per-handle reconnect outcomes.
#[derive(Debug, Clone)]
pub struct ReconnectReport {
    pub entries: Vec<(HandleId, ReconnectStatus)>,
}

impl ReconnectReport {
    /// True if any entry has status `Failed`.
    pub fn has_failures(&self) -> (b: bool)
        ensures
            b == exists|i: int| 0 <= i < self.entries@.len() && (#[trigger] self.entries@[i]).1 is Failed,
    {
        let mut i: usize = 0;
        while i < self.entries.len()
            invariant
                i <= self.entries@.len(),
                forall|k: int| 0 <= k < i ==> !((#[trigger] self.entries@[k]).1 is Failed),
            decreases self.entries@.len() - i,
        {
            if self.entries[i].1.is_failed() {
                return true;
            }
            i = i + 1;
        }
        false
    }
}

/// Magic, version and counts of a snapshot.
#[derive(Debug, Clone)]
pub struct SnapshotHeader {
    pub magic: [u8; 4],
    pub version: u32,
    /// Hash of the serialized function table; must match on restore.
    pub code_hash: u64,
    /// Unix timestamp when the snapshot was created.
    pub timestamp: u64,
    pub heap_count: u32,
    pub frame_count: u32,
    pub stack_count: u32,
    /// Number of serialized I/O handles (zero for version 1 snapshots).
    pub io_handle_count: u32,
    /// Number of serialized tasks.
    pub task_count: u32,
}

/// Serialized form of a single I/O handle inside a snapshot.
#[derive(Debug, Clone)]
pub struct IoHandleSnapshot {
    pub id: u32,
    /// Kind tag: 0=File, 1=TcpStream, 2=HttpConnection, 3=Timer,
    /// 4=Stdin, 5=Stdout, 6=Stderr.
    pub kind: u8,
    /// Strategy tag: 0=Replay, 1=Seek, 2=Cached.
    pub strategy: u8,
    /// Serialized reconnect parameters (path, addr, url, ...).
    pub params: Vec<u8>,
    /// Cached data.
    pub cached: Option<Vec<u8>>,
    /// File position.
    pub position: Option<u64>,
}

/// Serialized form of a single task inside a snapshot.
#[derive(Debug, Clone)]
pub struct TaskSnapshot {
    pub id: u32,
    pub parent: Option<u32>,
    /// 1=Yielded, 2=Completed.
    pub status_kind: u8,
    /// Resume instruction pointer of a yielded task.
    pub yielded_pc: Option<u32>,
    pub children: Vec<u32>,
    /// Serialized stack values (position-reference format).
    pub stack_data: Vec<u8>,
    /// Serialized frames.
    pub frames_data: Vec<u8>,
    /// Serialized per-task I/O handles.
    pub io_data: Vec<u8>,
    pub io_handle_count: u32,
}

/// A portable, serialized snapshot of the complete machine state.
#[derive(Debug, Clone)]
pub struct Snapshot {
    /// Magic, version and metadata.
    pub header: SnapshotHeader,
    /// Bytes of the heap section.
    pub heap_data: Vec<u8>,
    /// Bytes of the frames section.
    pub frames_data: Vec<u8>,
    /// Bytes of the I/O handles section.
    pub io_section: Vec<u8>,
    /// Bytes of the stack section.
    pub stack_data: Vec<u8>,
    /// Heap slot of each captured object, mapped to its position in the heap
    /// section.
    pub gc_to_pos: HashMap<usize, u32>,
    /// Task tree state.
    pub task_tree: Vec<TaskSnapshot>,
    /// Bytes of the task section.
    pub task_section: Vec<u8>,
}

} // verus!

verus! {

use crate::heap::{Gc, Heap, HeapObject};
use crate::value::Value;
use crate::wire::{le32, le64, u32_at, u64_at};

/// Version of the snapshot format.
pub const VERSION: u32 = 3;

/// The magic bytes `PAUS` that open a snapshot.
pub open spec fn magic() -> Seq<u8> {
    seq![0x50u8, 0x41u8, 0x55u8, 0x53u8]
}

pub const TAG_INT: u8 = 0x00;
pub const TAG_FLOAT: u8 = 0x01;
pub const TAG_BOOL: u8 = 0x02;
pub const TAG_NULL: u8 = 0x03;
pub const TAG_STRING: u8 = 0x04;
pub const TAG_LIST: u8 = 0x05;

/// `v` with each heap reference standing for position `pos`.
pub open spec fn at_pos(v: Value, pos: u32) -> Value {
    match v {
        Value::String(_) => Value::String(Gc::new_spec(pos as usize)),
        Value::List(_) => Value::List(Gc::new_spec(pos as usize)),
        _ => v,
    }
}

/// The bytes of a value in the position-reference format: scalars inline, a
/// heap reference as its tag and the position `pos` of its object.
pub open spec fn ref_bytes(v: Value, pos: u32) -> Seq<u8> {
    match v {
        Value::Int(i) => seq![TAG_INT] + le64(i as u64),
        Value::Float(b) => seq![TAG_FLOAT] + le64(b),
        Value::Bool(b) => seq![TAG_BOOL, if b { 1u8 } else { 0u8 }],
        Value::Null => seq![TAG_NULL],
        Value::String(_) => seq![TAG_STRING] + le32(pos),
        Value::List(_) => seq![TAG_LIST] + le32(pos),
    }
}

/// How a value in the position-reference format at the start of `data`
/// decodes: the value (a heap reference carrying the position as its slot)
/// and the number of bytes it takes.
pub open spec fn parse_ref(data: Seq<u8>) -> Result<(Value, nat), SnapshotError> {
    if data.len() == 0 {
        Err(SnapshotError::UnexpectedEof)
    } else {
        let t = data[0];
        let rest = data.skip(1);
        if t == TAG_INT || t == TAG_FLOAT {
            if rest.len() < 8 {
                Err(SnapshotError::UnexpectedEof)
            } else if t == TAG_INT {
                Ok((Value::Int(u64_at(rest, 0) as i64), 9nat))
            } else {
                Ok((Value::Float(u64_at(rest, 0)), 9nat))
            }
        } else if t == TAG_BOOL {
            if rest.len() < 1 {
                Err(SnapshotError::UnexpectedEof)
            } else {
                Ok((Value::Bool(rest[0] != 0), 2nat))
            }
        } else if t == TAG_NULL {
            Ok((Value::Null, 1nat))
        } else if t == TAG_STRING || t == TAG_LIST {
            if rest.len() < 4 {
                Err(SnapshotError::UnexpectedEof)
            } else if t == TAG_STRING {
                Ok((Value::String(Gc::new_spec(u32_at(rest, 0) as usize)), 5nat))
            } else {
                Ok((Value::List(Gc::new_spec(u32_at(rest, 0) as usize)), 5nat))
            }
        } else {
            Err(SnapshotError::UnknownObjectTag(t))
        }
    }
}

/// Reading the position-reference bytes of a value gives it back with its
/// heap reference at the position written.
pub proof fn lemma_parse_ref(v: Value, pos: u32, rest: Seq<u8>)
    ensures
        parse_ref(ref_bytes(v, pos) + rest) == Ok::<(Value, nat), SnapshotError>((at_pos(v, pos), ref_bytes(v, pos).len())),
{
    let data = ref_bytes(v, pos) + rest;
    match v {
        Value::Int(i) => {
            crate::wire::lemma_le64_roundtrip(i as u64, Seq::empty(), rest);
            assert(data.skip(1) =~= Seq::<u8>::empty() + le64(i as u64) + rest);
            assert(((i as u64) as i64) == i) by (bit_vector);
        },
        Value::Float(b) => {
            crate::wire::lemma_le64_roundtrip(b, Seq::empty(), rest);
            assert(data.skip(1) =~= Seq::<u8>::empty() + le64(b) + rest);
        },
        Value::Bool(b) => {
            assert(data[1] == if b { 1u8 } else { 0u8 });
        },
        Value::Null => {},
        Value::String(_) => {
            crate::wire::lemma_le32_roundtrip(pos, Seq::empty(), rest);
            assert(data.skip(1) =~= Seq::<u8>::empty() + le32(pos) + rest);
        },
        Value::List(_) => {
            crate::wire::lemma_le32_roundtrip(pos, Seq::empty(), rest);
            assert(data.skip(1) =~= Seq::<u8>::empty() + le32(pos) + rest);
        },
    }
}

/// Append `v` in the position-reference format, its heap reference (if any)
/// written as `pos`.
fn write_ref(buf: &mut Vec<u8>, v: &Value, pos: u32)
    ensures
        final(buf)@ == old(buf)@ + ref_bytes(*v, pos),
{
    match v {
        Value::Int(i) => {
            buf.push(TAG_INT);
            crate::wire::push_u64(buf, *i as u64);
            assert(buf@ =~= old(buf)@ + (seq![TAG_INT] + le64(*i as u64)));
        },
        Value::Float(b) => {
            buf.push(TAG_FLOAT);
            crate::wire::push_u64(buf, *b);
            assert(buf@ =~= old(buf)@ + (seq![TAG_FLOAT] + le64(*b)));
        },
        Value::Bool(b) => {
            buf.push(TAG_BOOL);
            buf.push(if *b { 1u8 } else { 0u8 });
            assert(buf@ =~= old(buf)@ + seq![TAG_BOOL, if *b { 1u8 } else { 0u8 }]);
        },
        Value::Null => {
            buf.push(TAG_NULL);
            assert(buf@ =~= old(buf)@ + seq![TAG_NULL]);
        },
        Value::String(_) => {
            buf.push(TAG_STRING);
            crate::wire::push_u32(buf, pos);
            assert(buf@ =~= old(buf)@ + (seq![TAG_STRING] + le32(pos)));
        },
        Value::List(_) => {
            buf.push(TAG_LIST);
            crate::wire::push_u32(buf, pos);
            assert(buf@ =~= old(buf)@ + (seq![TAG_LIST] + le32(pos)));
        },
    }
}

/// Read one value in the position-reference format; a heap reference carries
/// its position as its slot.
pub(crate) fn read_ref(data: &[u8], pos: &mut usize) -> (r: Result<Value, SnapshotError>)
    requires
        *old(pos) <= data@.len(),
    ensures
        *old(pos) <= *final(pos) <= data@.len(),
        match r {
            Ok(v) => parse_ref(data@.skip(*old(pos) as int)) == Ok::<(Value, nat), SnapshotError>(
                (v, (*final(pos) - *old(pos)) as nat),
            ),
            Err(e) => parse_ref(data@.skip(*old(pos) as int)) == Err::<(Value, nat), SnapshotError>(e),
        },
{
    let ghost d = data@.skip(*pos as int);
    let start = *pos;
    let t = match crate::wire::read_u8(data, pos) {
        Some(t) => t,
        None => return Err(SnapshotError::UnexpectedEof),
    };
    proof {
        assert(d[0] == t);
        assert(d.skip(1) =~= data@.skip(*pos as int));
    }
    if t == TAG_INT || t == TAG_FLOAT {
        let v = match crate::wire::read_u64(data, pos) {
            Some(v) => v,
            None => return Err(SnapshotError::UnexpectedEof),
        };
        assert(u64_at(d.skip(1), 0) == u64_at(data@, start + 1)) by {
            assert(d.skip(1).subrange(0, 8) =~= data@.subrange(start + 1, start + 9));
        }
        if t == TAG_INT {
            Ok(Value::Int(v as i64))
        } else {
            Ok(Value::Float(v))
        }
    } else if t == TAG_BOOL {
        match crate::wire::read_u8(data, pos) {
            Some(b) => {
                assert(d.skip(1)[0] == b);
                Ok(Value::Bool(b != 0))
            },
            None => Err(SnapshotError::UnexpectedEof),
        }
    } else if t == TAG_NULL {
        Ok(Value::Null)
    } else if t == TAG_STRING || t == TAG_LIST {
        let p = match crate::wire::read_u32(data, pos) {
            Some(p) => p,
            None => return Err(SnapshotError::UnexpectedEof),
        };
        assert(u32_at(d.skip(1), 0) == u32_at(data@, start + 1)) by {
            assert(d.skip(1).subrange(0, 4) =~= data@.subrange(start + 1, start + 5));
        }
        if t == TAG_STRING {
            Ok(Value::String(Gc::new(p as usize)))
        } else {
            Ok(Value::List(Gc::new(p as usize)))
        }
    } else {
        Err(SnapshotError::UnknownObjectTag(t))
    }
}

} // verus!

verus! {

use vstd::utf8::encode_utf8;
use crate::heap::{children, value_ref};
use crate::vm::CallFrame;

/// The number of marked slots below `i`: the position slot `i` gets in the
/// heap section.
pub open spec fn rank(marks: Seq<bool>, i: int) -> nat
    decreases i,
{
    if i <= 0 {
        0
    } else {
        rank(marks, i - 1) + if marks[i - 1] {
            1nat
        } else {
            0nat
        }
    }
}

/// The position written for a value's heap reference (0 for a scalar).
pub open spec fn ref_pos(marks: Seq<bool>, v: Value) -> u32 {
    match value_ref(v) {
        Some(i) => rank(marks, i as int) as u32,
        None => 0,
    }
}

/// Values in the position-reference format, back to back.
pub open spec fn refs_bytes(marks: Seq<bool>, vals: Seq<Value>) -> Seq<u8>
    decreases vals.len(),
{
    if vals.len() == 0 {
        Seq::empty()
    } else {
        refs_bytes(marks, vals.drop_last()) + ref_bytes(vals.last(), ref_pos(marks, vals.last()))
    }
}

/// The bytes of one heap object in the heap section.
pub open spec fn object_bytes(marks: Seq<bool>, obj: HeapObject) -> Seq<u8> {
    match obj {
        HeapObject::String(s) => seq![TAG_STRING] + le32(encode_utf8(s.data@).len() as u32) + encode_utf8(s.data@),
        HeapObject::List(l) => seq![TAG_LIST] + le32(l.elements@.len() as u32) + refs_bytes(marks, l.elements@),
    }
}

/// The heap section: the marked objects among the first `n` slots, in slot
/// order.
pub open spec fn heap_section(objs: Seq<HeapObject>, marks: Seq<bool>, n: int) -> Seq<u8>
    decreases n,
{
    if n <= 0 {
        Seq::empty()
    } else if marks[n - 1] {
        heap_section(objs, marks, n - 1) + object_bytes(marks, objs[n - 1])
    } else {
        heap_section(objs, marks, n - 1)
    }
}

/// The bytes of one call frame: function, instruction pointer and local
/// count as `u32`s, then the locals.
pub open spec fn frame_bytes(marks: Seq<bool>, f: CallFrame) -> Seq<u8> {
    le32(f.function as u32) + le32(f.ip as u32) + le32(f.locals@.len() as u32) + refs_bytes(marks, f.locals@)
}

/// Call frames, back to back.
pub open spec fn frames_bytes(marks: Seq<bool>, fs: Seq<CallFrame>) -> Seq<u8>
    decreases fs.len(),
{
    if fs.len() == 0 {
        Seq::empty()
    } else {
        frames_bytes(marks, fs.drop_last()) + frame_bytes(marks, fs.last())
    }
}

/// The slots below `n` that are marked, mapped to their positions.
pub open spec fn positions(marks: Seq<bool>, n: int) -> Map<usize, u32> {
    Map::new(|i: usize| i < n && i < marks.len() && marks[i as int], |i: usize| rank(marks, i as int) as u32)
}

fn write_u32(buf: &mut Vec<u8>, v: u32)
    ensures
        final(buf)@ == old(buf)@ + le32(v),
{
    crate::wire::push_u32(buf, v);
}

/// `v`'s heap reference, if any, has its position in `m`.
pub open spec fn ref_known(m: Map<usize, u32>, marks: Seq<bool>, v: Value) -> bool {
    match value_ref(v) {
        Some(i) => m.contains_key(i) && m[i] == rank(marks, i as int) as u32,
        None => true,
    }
}

/// The position of a value's heap reference in `gc_to_pos` (0 for a scalar).
fn lookup_pos(gc_to_pos: &HashMap<usize, u32>, v: &Value, Ghost(marks): Ghost<Seq<bool>>) -> (p: u32)
    requires
        ref_known(gc_to_pos@, marks, *v),
    ensures
        p == ref_pos(marks, *v),
{
    broadcast use vstd::std_specs::hash::group_hash_axioms;

    let idx = match v {
        Value::String(gc) => gc.index,
        Value::List(gc) => gc.index,
        _ => return 0,
    };
    match gc_to_pos.get(&idx) {
        Some(p) => *p,
        None => {
            assert(false);
            0
        },
    }
}

/// Append values in the position-reference format.
fn write_refs(buf: &mut Vec<u8>, vals: &Vec<Value>, gc_to_pos: &HashMap<usize, u32>, Ghost(marks): Ghost<Seq<bool>>)
    requires
        forall|k: int| 0 <= k < vals@.len() ==> ref_known(gc_to_pos@, marks, #[trigger] vals@[k]),
    ensures
        final(buf)@ == old(buf)@ + refs_bytes(marks, vals@),
{
    let mut i: usize = 0;
    while i < vals.len()
        invariant
            i <= vals@.len(),
            forall|k: int| 0 <= k < vals@.len() ==> ref_known(gc_to_pos@, marks, #[trigger] vals@[k]),
            buf@ == old(buf)@ + refs_bytes(marks, vals@.take(i as int)),
        decreases vals@.len() - i,
    {
        assert(vals@.take(i + 1).drop_last() =~= vals@.take(i as int));
        let v = vals[i];
        let p = lookup_pos(gc_to_pos, &v, Ghost(marks));
        write_ref(buf, &v, p);
        i = i + 1;
    }
    assert(vals@.take(i as int) =~= vals@);
}

} // verus!

verus! {

use crate::io::{FileMode, HandleRecord, HttpMethod, IoHandle, spec_strategy_tag};

/// Wire tag of a file mode.
pub open spec fn mode_tag(m: FileMode) -> u8 {
    match m {
        FileMode::Read => 0,
        FileMode::Write => 1,
        FileMode::Append => 2,
    }
}

/// Wire tag of an HTTP method.
pub open spec fn method_tag(m: HttpMethod) -> u8 {
    match m {
        HttpMethod::Get => 0,
        HttpMethod::Post => 1,
    }
}

/// A length-prefixed byte string, or the `0xFFFF_FFFF` sentinel for none.
pub open spec fn opt_field(o: Option<Seq<u8>>) -> Seq<u8> {
    match o {
        Some(b) => le32(b.len() as u32) + b,
        None => le32(0xFFFF_FFFFu32),
    }
}

/// A length-prefixed UTF-8 text.
pub open spec fn text_field(t: Seq<char>) -> Seq<u8> {
    le32(encode_utf8(t).len() as u32) + encode_utf8(t)
}

/// The kind tag, strategy tag, reconnect parameters, cached data and position
/// a handle is recorded with.
pub open spec fn io_parts(h: HandleRecord) -> (u8, u8, Seq<u8>, Option<Seq<u8>>, Option<u64>) {
    match h {
        HandleRecord::File { path, mode, position, strategy, cached, .. } => (
            0u8,
            spec_strategy_tag(strategy),
            text_field(path) + seq![mode_tag(mode)],
            cached,
            Some(position),
        ),
        HandleRecord::TcpStream { addr, strategy, last_request, last_response, .. } => (
            1u8,
            spec_strategy_tag(strategy),
            text_field(addr) + opt_field(last_request) + opt_field(last_response),
            None,
            None,
        ),
        HandleRecord::HttpConnection { url, method, body, last_response, strategy } => (
            2u8,
            spec_strategy_tag(strategy),
            text_field(url) + seq![method_tag(method)] + opt_field(body) + opt_field(last_response),
            None,
            None,
        ),
        HandleRecord::Timer { ms, strategy } => (3u8, spec_strategy_tag(strategy), le64(ms), None, None),
        HandleRecord::Stdin { buffer } => (4u8, 2u8, Seq::empty(), Some(buffer), None),
        HandleRecord::Stdout { buffer } => (5u8, 2u8, Seq::empty(), Some(buffer), None),
        HandleRecord::Stderr { buffer } => (6u8, 2u8, Seq::empty(), Some(buffer), None),
    }
}

/// The bytes of one I/O handle entry: id, kind, strategy, parameters, cached
/// data (or the sentinel) and position (or `u64::MAX`).
pub open spec fn io_entry_bytes(id: u32, h: HandleRecord) -> Seq<u8> {
    let (kind, strategy, params, cached, position) = io_parts(h);
    le32(id) + seq![kind, strategy] + le32(params.len() as u32) + params + opt_field(cached) + le64(
        match position {
            Some(p) => p,
            None => 0xFFFF_FFFF_FFFF_FFFFu64,
        },
    )
}

/// I/O handle entries, back to back, in table order.
pub open spec fn io_entries_bytes(e: Seq<(HandleId, IoHandle)>) -> Seq<u8>
    decreases e.len(),
{
    if e.len() == 0 {
        Seq::empty()
    } else {
        io_entries_bytes(e.drop_last()) + io_entry_bytes(e.last().0.0, e.last().1@)
    }
}

fn write_opt(buf: &mut Vec<u8>, o: &Option<Vec<u8>>)
    ensures
        final(buf)@ == old(buf)@ + opt_field(crate::io::opt_bytes(*o)),
{
    match o {
        Some(b) => {
            write_u32(buf, b.len() as u32);
            crate::wire::push_bytes(buf, b.as_slice());
            assert(buf@ =~= old(buf)@ + (le32(b@.len() as u32) + b@));
        },
        None => write_u32(buf, 0xFFFF_FFFFu32),
    }
}

fn write_text(buf: &mut Vec<u8>, t: &String)
    ensures
        final(buf)@ == old(buf)@ + text_field(t@),
{
    let b = t.as_str().as_bytes();
    write_u32(buf, b.len() as u32);
    crate::wire::push_bytes(buf, b);
    assert(buf@ =~= old(buf)@ + (le32(encode_utf8(t@).len() as u32) + encode_utf8(t@)));
}

fn mode_byte(m: FileMode) -> (b: u8)
    ensures
        b == mode_tag(m),
{
    match m {
        FileMode::Read => 0,
        FileMode::Write => 1,
        FileMode::Append => 2,
    }
}

fn method_byte(m: HttpMethod) -> (b: u8)
    ensures
        b == method_tag(m),
{
    match m {
        HttpMethod::Get => 0,
        HttpMethod::Post => 1,
    }
}

/// The kind tag, strategy tag, parameters, cached data and position of a handle.
#[verifier::spinoff_prover]
fn io_parts_of(handle: &IoHandle) -> (r: (u8, u8, Vec<u8>, Option<Vec<u8>>, Option<u64>))
    ensures
        ({
            let p = io_parts(handle@);
            r.0 == p.0 && r.1 == p.1 && r.2@ == p.2 && crate::io::opt_bytes(r.3) == p.3 && r.4 == p.4
        }),
{
    let mut params: Vec<u8> = Vec::new();
    match handle {
        IoHandle::File { path, mode, position, strategy, cached, .. } => {
            write_text(&mut params, path);
            params.push(mode_byte(*mode));
            let c = match cached {
                Some(c) => Some(c.clone()),
                None => None,
            };
            assert(params@ =~= text_field(path@) + seq![mode_tag(*mode)]);
            (0u8, strategy.tag(), params, c, Some(*position))
        },
        IoHandle::TcpStream { addr, strategy, last_request, last_response, .. } => {
            write_text(&mut params, addr);
            write_opt(&mut params, last_request);
            write_opt(&mut params, last_response);
            (1u8, strategy.tag(), params, None, None)
        },
        IoHandle::HttpConnection { url, method, body, last_response, strategy } => {
            write_text(&mut params, url);
            params.push(method_byte(*method));
            write_opt(&mut params, body);
            write_opt(&mut params, last_response);
            (2u8, strategy.tag(), params, None, None)
        },
        IoHandle::Timer { ms, strategy } => {
            crate::wire::push_u64(&mut params, *ms);
            assert(params@ =~= le64(*ms));
            (3u8, strategy.tag(), params, None, None)
        },
        IoHandle::Stdin { buffer } => (4u8, 2u8, params, Some(buffer.clone()), None),
        IoHandle::Stdout { buffer } => (5u8, 2u8, params, Some(buffer.clone()), None),
        IoHandle::Stderr { buffer } => (6u8, 2u8, params, Some(buffer.clone()), None),
    }
}

impl Snapshot {
    /// Serialize an I/O handle into a snapshot entry.
    fn serialize_io_handle_snapshot(buf: &mut Vec<u8>, id: HandleId, handle: &IoHandle)
        ensures
            final(buf)@ == old(buf)@ + io_entry_bytes(id.0, handle@),
    {
        let (kind, strategy, params, cached, position) = io_parts_of(handle);
        write_u32(buf, id.0);
        buf.push(kind);
        buf.push(strategy);
        write_u32(buf, params.len() as u32);
        crate::wire::push_bytes(buf, params.as_slice());
        write_opt(buf, &cached);
        let p: u64 = match position {
            Some(p) => p,
            None => 0xFFFF_FFFF_FFFF_FFFFu64,
        };
        crate::wire::push_u64(buf, p);
        assert(buf@ =~= old(buf)@ + io_entry_bytes(id.0, handle@));
    }
}

} // verus!

verus! {

/// The content of an `IoHandleSnapshot`.
pub struct IoEntryView {
    pub id: u32,
    pub kind: u8,
    pub strategy: u8,
    pub params: Seq<u8>,
    pub cached: Option<Seq<u8>>,
    pub position: Option<u64>,
}

pub open spec fn io_snapshot_view(s: IoHandleSnapshot) -> IoEntryView {
    IoEntryView {
        id: s.id,
        kind: s.kind,
        strategy: s.strategy,
        params: s.params@,
        cached: crate::io::opt_bytes(s.cached),
        position: s.position,
    }
}

/// How an I/O handle entry at the start of `data` decodes, and its length.
pub open spec fn parse_io_entry(data: Seq<u8>) -> Result<(IoEntryView, nat), SnapshotError> {
    if data.len() < 10 {
        Err(SnapshotError::UnexpectedEof)
    } else {
        let plen = u32_at(data, 6) as int;
        let p = 10 + plen;
        if data.len() < p + 4 {
            Err(SnapshotError::UnexpectedEof)
        } else {
            let clen = u32_at(data, p) as int;
            let (cached, q) = if clen == 0xFFFF_FFFF {
                (None::<Seq<u8>>, p + 4)
            } else {
                (Some(data.subrange(p + 4, p + 4 + clen)), p + 4 + clen)
            };
            if data.len() < q + 8 {
                Err(SnapshotError::UnexpectedEof)
            } else {
                let raw = u64_at(data, q);
                Ok(
                    (
                        IoEntryView {
                            id: u32_at(data, 0),
                            kind: data[4],
                            strategy: data[5],
                            params: data.subrange(10, p),
                            cached,
                            position: if raw == 0xFFFF_FFFF_FFFF_FFFFu64 {
                                None
                            } else {
                                Some(raw)
                            },
                        },
                        (q + 8) as nat,
                    ),
                )
            }
        }
    }
}

/// Where reading an I/O handle entry at the start of `data` stops when the
/// entry is cut short: at the start of the field that is not all there.
pub open spec fn io_entry_stop(d: Seq<u8>) -> nat {
    if d.len() < 4 {
        0
    } else if d.len() < 5 {
        4
    } else if d.len() < 6 {
        5
    } else if d.len() < 10 {
        6
    } else {
        let plen = u32_at(d, 6) as int;
        if d.len() < 10 + plen {
            10
        } else if d.len() < 14 + plen {
            (10 + plen) as nat
        } else {
            let clen = u32_at(d, 10 + plen) as int;
            if clen == 0xFFFF_FFFF || d.len() < 14 + plen + clen {
                (14 + plen) as nat
            } else {
                (14 + plen + clen) as nat
            }
        }
    }
}

/// The counts inside a handle's entry fit their fields and no value is
/// mistaken for a sentinel: what `parse_io_entry` needs to read it back.
pub open spec fn io_fits(h: HandleRecord) -> bool {
    let (kind, strategy, params, cached, position) = io_parts(h);
    &&& params.len() <= u32::MAX
    &&& (cached matches Some(c) ==> c.len() < 0xFFFF_FFFF)
    &&& position != Some(0xFFFF_FFFF_FFFF_FFFFu64)
}

/// Law: an I/O handle entry reads back as the handle's id, kind, strategy,
/// parameters, cached data and position, whatever follows it.
pub proof fn law_io_entry_roundtrip(id: u32, h: HandleRecord, rest: Seq<u8>)
    requires
        io_fits(h),
    ensures
        ({
            let (kind, strategy, params, cached, position) = io_parts(h);
            parse_io_entry(io_entry_bytes(id, h) + rest) == Ok::<(IoEntryView, nat), SnapshotError>(
                (
                    IoEntryView { id, kind, strategy, params, cached, position },
                    io_entry_bytes(id, h).len(),
                ),
            )
        }),
{
    let (kind, strategy, params, cached, position) = io_parts(h);
    let plen = params.len() as u32;
    let pv: u64 = match position {
        Some(p) => p,
        None => 0xFFFF_FFFF_FFFF_FFFFu64,
    };
    let tail = opt_field(cached) + le64(pv) + rest;
    let data = io_entry_bytes(id, h) + rest;
    assert(data =~= le32(id) + (seq![kind, strategy] + le32(plen) + params + tail));
    crate::wire::lemma_le32_roundtrip(id, Seq::empty(), seq![kind, strategy] + le32(plen) + params + tail);
    assert(data =~= Seq::<u8>::empty() + le32(id) + (seq![kind, strategy] + le32(plen) + params + tail));
    crate::wire::lemma_le32_roundtrip(plen, le32(id) + seq![kind, strategy], params + tail);
    assert(data =~= le32(id) + seq![kind, strategy] + le32(plen) + (params + tail));
    let p: int = 10 + params.len() as int;
    assert(data.subrange(10, p) =~= params);
    match cached {
        Some(c) => {
            crate::wire::lemma_le32_roundtrip(c.len() as u32, le32(id) + seq![kind, strategy] + le32(plen) + params, c
                + le64(pv) + rest);
            assert(data =~= le32(id) + seq![kind, strategy] + le32(plen) + params + le32(c.len() as u32) + (c + le64(
                pv,
            ) + rest));
            assert(data.subrange(p + 4, p + 4 + c.len() as int) =~= c);
            crate::wire::lemma_le64_roundtrip(pv, le32(id) + seq![kind, strategy] + le32(plen) + params + le32(
                c.len() as u32,
            ) + c, rest);
            assert(data =~= le32(id) + seq![kind, strategy] + le32(plen) + params + le32(c.len() as u32) + c + le64(pv)
                + rest);
        },
        None => {
            crate::wire::lemma_le32_roundtrip(0xFFFF_FFFFu32, le32(id) + seq![kind, strategy] + le32(plen) + params, le64(
                pv,
            ) + rest);
            assert(data =~= le32(id) + seq![kind, strategy] + le32(plen) + params + le32(0xFFFF_FFFFu32) + (le64(pv)
                + rest));
            crate::wire::lemma_le64_roundtrip(pv, le32(id) + seq![kind, strategy] + le32(plen) + params + le32(
                0xFFFF_FFFFu32,
            ), rest);
            assert(data =~= le32(id) + seq![kind, strategy] + le32(plen) + params + le32(0xFFFF_FFFFu32) + le64(pv)
                + rest);
        },
    }
}

} // verus!

verus! {

fn read_u32_at(data: &[u8], pos: &mut usize) -> (r: Result<u32, SnapshotError>)
    ensures
        *old(pos) + 4 <= data@.len() ==> r == Ok::<u32, SnapshotError>(u32_at(data@, *old(pos) as int)) && *final(pos)
            == *old(pos) + 4,
        *old(pos) + 4 > data@.len() ==> r == Err::<u32, SnapshotError>(SnapshotError::UnexpectedEof) && *final(pos)
            == *old(pos),
{
    match crate::wire::read_u32(data, pos) {
        Some(v) => Ok(v),
        None => Err(SnapshotError::UnexpectedEof),
    }
}

fn read_u64_at(data: &[u8], pos: &mut usize) -> (r: Result<u64, SnapshotError>)
    ensures
        *old(pos) + 8 <= data@.len() ==> r == Ok::<u64, SnapshotError>(u64_at(data@, *old(pos) as int)) && *final(pos)
            == *old(pos) + 8,
        *old(pos) + 8 > data@.len() ==> r == Err::<u64, SnapshotError>(SnapshotError::UnexpectedEof) && *final(pos)
            == *old(pos),
{
    match crate::wire::read_u64(data, pos) {
        Some(v) => Ok(v),
        None => Err(SnapshotError::UnexpectedEof),
    }
}

fn read_u8_at(data: &[u8], pos: &mut usize) -> (r: Result<u8, SnapshotError>)
    ensures
        *old(pos) < data@.len() ==> r == Ok::<u8, SnapshotError>(data@[*old(pos) as int]) && *final(pos) == *old(pos) + 1,
        *old(pos) >= data@.len() ==> r == Err::<u8, SnapshotError>(SnapshotError::UnexpectedEof) && *final(pos) == *old(pos),
{
    match crate::wire::read_u8(data, pos) {
        Some(v) => Ok(v),
        None => Err(SnapshotError::UnexpectedEof),
    }
}

fn read_vec(data: &[u8], pos: &mut usize, len: usize) -> (r: Result<Vec<u8>, SnapshotError>)
    ensures
        *old(pos) + len <= data@.len() ==> (r matches Ok(v) && v@ == data@.subrange(*old(pos) as int, *old(pos) + len))
            && *final(pos) == *old(pos) + len,
        *old(pos) + len > data@.len() ==> r == Err::<Vec<u8>, SnapshotError>(SnapshotError::UnexpectedEof) && *final(pos)
            == *old(pos),
{
    match crate::wire::read_bytes(data, pos, len) {
        Some(b) => {
            let mut v: Vec<u8> = Vec::new();
            crate::wire::push_bytes(&mut v, b);
            assert(v@ =~= b@);
            Ok(v)
        },
        None => Err(SnapshotError::UnexpectedEof),
    }
}

impl Snapshot {
    /// Deserialize one I/O handle entry at `*pos`.
    pub fn deserialize_io_handle_snapshot(data: &[u8], pos: &mut usize) -> (r: Result<IoHandleSnapshot, SnapshotError>)
        requires
            *old(pos) <= data@.len(),
        ensures
            *old(pos) <= *final(pos) <= data@.len(),
            match r {
                Ok(s) => parse_io_entry(data@.skip(*old(pos) as int)) == Ok::<(IoEntryView, nat), SnapshotError>(
                    (io_snapshot_view(s), (*final(pos) - *old(pos)) as nat),
                ),
                Err(e) => parse_io_entry(data@.skip(*old(pos) as int)) == Err::<(IoEntryView, nat), SnapshotError>(e)
                    && *final(pos) == *old(pos) + io_entry_stop(data@.skip(*old(pos) as int)),
            },
    {
        let ghost d = data@.skip(*pos as int);
        let start = *pos;
        let id = read_u32_at(data, pos)?;
        let kind = read_u8_at(data, pos)?;
        let strategy = read_u8_at(data, pos)?;
        let plen = read_u32_at(data, pos)?;
        assert(d.subrange(0, 4) =~= data@.subrange(start as int, start + 4));
        assert(d.subrange(6, 10) =~= data@.subrange(start + 6, start + 10));
        let params = read_vec(data, pos, plen as usize)?;
        assert(params@ =~= d.subrange(10, 10 + plen as int));
        let clen = read_u32_at(data, pos)?;
        let ghost p = 10 + plen as int;
        assert(d.subrange(p, p + 4) =~= data@.subrange(start + p, start + p + 4));
        let cached = if clen == 0xFFFF_FFFFu32 {
            None
        } else {
            let c = read_vec(data, pos, clen as usize)?;
            assert(c@ =~= d.subrange(p + 4, p + 4 + clen as int));
            Some(c)
        };
        let ghost q = *pos - start;
        let raw = read_u64_at(data, pos)?;
        assert(d.subrange(q as int, q + 8) =~= data@.subrange(start + q, start + q + 8));
        let position = if raw == 0xFFFF_FFFF_FFFF_FFFFu64 {
            None
        } else {
            Some(raw)
        };
        Ok(IoHandleSnapshot { id, kind, strategy, params, cached, position })
    }
}

} // verus!

verus! {

use crate::task::{Task, TaskStatus};
use crate::vm::{all_roots, reachable_from, VM};

/// Task ids as `u32`s, back to back.
pub open spec fn ids_bytes(ids: Seq<crate::task::TaskId>) -> Seq<u8>
    decreases ids.len(),
{
    if ids.len() == 0 {
        Seq::empty()
    } else {
        ids_bytes(ids.drop_last()) + le32(ids.last().0 as u32)
    }
}

/// The id, parent and status of a task entry.
pub open spec fn task_head_bytes(t: Task) -> Seq<u8> {
    le32(t.id.0 as u32) + match t.parent {
        Some(p) => seq![1u8] + le32(p.0 as u32),
        None => seq![0u8],
    } + match t.status {
        TaskStatus::Yielded(pc) => seq![1u8] + le32(pc as u32),
        _ => seq![2u8],
    }
}

/// The bytes of one task entry: id, parent, status, then the counted
/// children, stack, frames and I/O handles.
pub open spec fn task_bytes(marks: Seq<bool>, t: Task) -> Seq<u8> {
    task_head_bytes(t) + (le32(t.children@.len() as u32) + ids_bytes(t.children@)) + (le32(t.stack@.len() as u32)
        + refs_bytes(marks, t.stack@)) + (le32(t.frames@.len() as u32) + frames_bytes(marks, t.frames@)) + (le32(
        t.io_handles.entries@.len() as u32,
    ) + io_entries_bytes(t.io_handles.entries@))
}

/// The entries of the tasks that are not running, in table order.
pub open spec fn tasks_bytes(marks: Seq<bool>, tasks: Seq<Task>) -> Seq<u8>
    decreases tasks.len(),
{
    if tasks.len() == 0 {
        Seq::empty()
    } else if tasks.last().status is Running {
        tasks_bytes(marks, tasks.drop_last())
    } else {
        tasks_bytes(marks, tasks.drop_last()) + task_bytes(marks, tasks.last())
    }
}

/// The number of tasks that are not running.
pub open spec fn settled_count(tasks: Seq<Task>) -> nat
    decreases tasks.len(),
{
    if tasks.len() == 0 {
        0
    } else {
        settled_count(tasks.drop_last()) + if tasks.last().status is Running {
            0nat
        } else {
            1nat
        }
    }
}

/// Every object reachable from the machine's roots is marked, and nothing else.
pub open spec fn marks_reach(vm: VM, marks: Seq<bool>) -> bool {
    &&& marks.len() == vm.heap.objects().len()
    &&& forall|j: int|
        0 <= j < marks.len() ==> (#[trigger] marks[j] <==> reachable_from(vm.heap.objects(), all_roots(vm), j as usize))
}

/// The machine can be captured: every root and every reference of a
/// reachable list is in range, and slot positions fit a `u32`.
pub open spec fn capturable(vm: VM) -> bool {
    let objs = vm.heap.objects();
    let roots = all_roots(vm);
    &&& objs.len() <= u32::MAX
    &&& forall|k: int| 0 <= k < roots.len() ==> #[trigger] roots[k] < objs.len()
    &&& forall|j: usize|
        j < objs.len() && #[trigger] reachable_from(objs, roots, j) ==> forall|k: int|
            0 <= k < children(objs[j as int]).len() ==> #[trigger] children(objs[j as int])[k] < objs.len()
}

} // verus!

verus! {

use crate::vm::{frame_refs, root_slots, task_refs};
use crate::heap::refs_of;

/// Every value of `vals` has its heap reference's position in `m`.
pub open spec fn all_known(m: Map<usize, u32>, marks: Seq<bool>, vals: Seq<Value>) -> bool {
    forall|k: int| 0 <= k < vals.len() ==> ref_known(m, marks, #[trigger] vals[k])
}

/// Every local of every frame has its position in `m`.
pub open spec fn frames_known(m: Map<usize, u32>, marks: Seq<bool>, fs: Seq<CallFrame>) -> bool {
    forall|k: int| 0 <= k < fs.len() ==> all_known(m, marks, #[trigger] fs[k].locals@)
}

impl Snapshot {
    /// Serialize one heap object into `buf`.
    fn serialize_heap_object(buf: &mut Vec<u8>, obj: &HeapObject, gc_to_pos: &HashMap<usize, u32>, Ghost(marks): Ghost<Seq<bool>>)
        requires
            obj matches HeapObject::List(l) ==> all_known(gc_to_pos@, marks, l.elements@),
        ensures
            final(buf)@ == old(buf)@ + object_bytes(marks, *obj),
    {
        match obj {
            HeapObject::String(s) => {
                buf.push(TAG_STRING);
                write_text(buf, &s.data);
                assert(buf@ =~= old(buf)@ + object_bytes(marks, *obj));
            },
            HeapObject::List(l) => {
                buf.push(TAG_LIST);
                write_u32(buf, l.elements.len() as u32);
                write_refs(buf, &l.elements, gc_to_pos, Ghost(marks));
                assert(buf@ =~= old(buf)@ + object_bytes(marks, *obj));
            },
        }
    }

    /// Serialize one call frame into `buf`.
    fn serialize_frame(buf: &mut Vec<u8>, frame: &CallFrame, gc_to_pos: &HashMap<usize, u32>, Ghost(marks): Ghost<Seq<bool>>)
        requires
            all_known(gc_to_pos@, marks, frame.locals@),
        ensures
            final(buf)@ == old(buf)@ + frame_bytes(marks, *frame),
    {
        write_u32(buf, frame.function as u32);
        write_u32(buf, frame.ip as u32);
        write_u32(buf, frame.locals.len() as u32);
        write_refs(buf, &frame.locals, gc_to_pos, Ghost(marks));
        assert(buf@ =~= old(buf)@ + frame_bytes(marks, *frame));
    }
}

/// Append a count and the frames.
fn write_frames(buf: &mut Vec<u8>, frames: &Vec<CallFrame>, gc_to_pos: &HashMap<usize, u32>, Ghost(marks): Ghost<Seq<bool>>)
    requires
        frames_known(gc_to_pos@, marks, frames@),
    ensures
        final(buf)@ == old(buf)@ + le32(frames@.len() as u32) + frames_bytes(marks, frames@),
{
    write_u32(buf, frames.len() as u32);
    let ghost head = buf@;
    let mut i: usize = 0;
    while i < frames.len()
        invariant
            i <= frames@.len(),
            frames_known(gc_to_pos@, marks, frames@),
            buf@ == head + frames_bytes(marks, frames@.take(i as int)),
        decreases frames@.len() - i,
    {
        assert(frames@.take(i + 1).drop_last() =~= frames@.take(i as int));
        Snapshot::serialize_frame(buf, &frames[i], gc_to_pos, Ghost(marks));
        i = i + 1;
    }
    assert(frames@.take(i as int) =~= frames@);
}

/// Append a count and the values.
fn write_values(buf: &mut Vec<u8>, vals: &Vec<Value>, gc_to_pos: &HashMap<usize, u32>, Ghost(marks): Ghost<Seq<bool>>)
    requires
        all_known(gc_to_pos@, marks, vals@),
    ensures
        final(buf)@ == old(buf)@ + le32(vals@.len() as u32) + refs_bytes(marks, vals@),
{
    write_u32(buf, vals.len() as u32);
    write_refs(buf, vals, gc_to_pos, Ghost(marks));
}

/// Append a count and the I/O handle entries.
fn write_io(buf: &mut Vec<u8>, handles: &crate::io::HandleTable)
    ensures
        final(buf)@ == old(buf)@ + le32(handles.entries@.len() as u32) + io_entries_bytes(handles.entries@),
{
    write_u32(buf, handles.entries.len() as u32);
    let ghost head = buf@;
    let mut i: usize = 0;
    while i < handles.entries.len()
        invariant
            i <= handles.entries@.len(),
            buf@ == head + io_entries_bytes(handles.entries@.take(i as int)),
        decreases handles.entries@.len() - i,
    {
        assert(handles.entries@.take(i + 1).drop_last() =~= handles.entries@.take(i as int));
        Snapshot::serialize_io_handle_snapshot(buf, handles.entries[i].0, &handles.entries[i].1);
        i = i + 1;
    }
    assert(handles.entries@.take(i as int) =~= handles.entries@);
}

/// Append task ids as `u32`s.
fn write_ids(buf: &mut Vec<u8>, ids: &Vec<crate::task::TaskId>)
    ensures
        final(buf)@ == old(buf)@ + ids_bytes(ids@),
{
    let ghost head = buf@;
    let mut i: usize = 0;
    while i < ids.len()
        invariant
            i <= ids@.len(),
            buf@ == head + ids_bytes(ids@.take(i as int)),
        decreases ids@.len() - i,
    {
        assert(ids@.take(i + 1).drop_last() =~= ids@.take(i as int));
        write_u32(buf, ids[i].0 as u32);
        i = i + 1;
    }
    assert(ids@.take(i as int) =~= ids@);
}

impl Snapshot {
    /// Serialize a task entry (metadata, stack, frames, I/O handles).
    #[verifier::spinoff_prover]
    fn serialize_task_snapshot(buf: &mut Vec<u8>, task: &Task, gc_to_pos: &HashMap<usize, u32>, Ghost(marks): Ghost<Seq<bool>>)
        requires
            all_known(gc_to_pos@, marks, task.stack@),
            frames_known(gc_to_pos@, marks, task.frames@),
        ensures
            final(buf)@ == old(buf)@ + task_bytes(marks, *task),
    {
        write_u32(buf, task.id.0 as u32);
        let ghost a = buf@;
        match task.parent {
            Some(p) => {
                buf.push(1u8);
                write_u32(buf, p.0 as u32);
                assert(buf@ =~= a + (seq![1u8] + le32(p.0 as u32)));
            },
            None => {
                buf.push(0u8);
                assert(buf@ =~= a + seq![0u8]);
            },
        }
        let ghost b = buf@;
        match task.status {
            TaskStatus::Yielded(pc) => {
                buf.push(1u8);
                write_u32(buf, pc as u32);
                assert(buf@ =~= b + (seq![1u8] + le32(pc as u32)));
            },
            _ => {
                buf.push(2u8);
                assert(buf@ =~= b + seq![2u8]);
            },
        }
        let ghost h = buf@;
        assert(h =~= old(buf)@ + task_head_bytes(*task));
        let ghost p2 = le32(task.children@.len() as u32) + ids_bytes(task.children@);
        let ghost p3 = le32(task.stack@.len() as u32) + refs_bytes(marks, task.stack@);
        let ghost p4 = le32(task.frames@.len() as u32) + frames_bytes(marks, task.frames@);
        let ghost p5 = le32(task.io_handles.entries@.len() as u32) + io_entries_bytes(task.io_handles.entries@);
        write_u32(buf, task.children.len() as u32);
        write_ids(buf, &task.children);
        proof {
            vstd::seq_lib::lemma_concat_associative(h, le32(task.children@.len() as u32), ids_bytes(task.children@));
        }
        let ghost c = buf@;
        assert(c == h + p2);
        write_values(buf, &task.stack, gc_to_pos, Ghost(marks));
        proof {
            vstd::seq_lib::lemma_concat_associative(c, le32(task.stack@.len() as u32), refs_bytes(marks, task.stack@));
        }
        let ghost d = buf@;
        assert(d == c + p3);
        write_frames(buf, &task.frames, gc_to_pos, Ghost(marks));
        proof {
            vstd::seq_lib::lemma_concat_associative(d, le32(task.frames@.len() as u32), frames_bytes(marks, task.frames@));
        }
        let ghost e = buf@;
        assert(e == d + p4);
        write_io(buf, &task.io_handles);
        proof {
            vstd::seq_lib::lemma_concat_associative(
                e,
                le32(task.io_handles.entries@.len() as u32),
                io_entries_bytes(task.io_handles.entries@),
            );
            let hd = task_head_bytes(*task);
            let o = old(buf)@;
            assert(buf@ == e + p5);
            vstd::seq_lib::lemma_concat_associative(o, hd, p2);
            vstd::seq_lib::lemma_concat_associative(o, hd + p2, p3);
            vstd::seq_lib::lemma_concat_associative(o, hd + p2 + p3, p4);
            vstd::seq_lib::lemma_concat_associative(o, hd + p2 + p3 + p4, p5);
            assert(task_bytes(marks, *task) == hd + p2 + p3 + p4 + p5);
        }
    }
}

} // verus!

verus! {

proof fn lemma_contains_concat<A>(a: Seq<A>, b: Seq<A>, c: A)
    ensures
        a.contains(c) ==> (a + b).contains(c),
        b.contains(c) ==> (a + b).contains(c),
{
    if a.contains(c) {
        let i = choose|i: int| 0 <= i < a.len() && a[i] == c;
        assert((a + b)[i] == c);
    }
    if b.contains(c) {
        let i = choose|i: int| 0 <= i < b.len() && b[i] == c;
        assert((a + b)[a.len() + i] == c);
    }
}

proof fn lemma_frame_refs_contains(fs: Seq<CallFrame>, i: int, c: usize)
    requires
        0 <= i < fs.len(),
        refs_of(fs[i].locals@).contains(c),
    ensures
        frame_refs(fs).contains(c),
    decreases fs.len(),
{
    if i < fs.len() - 1 {
        lemma_frame_refs_contains(fs.drop_last(), i, c);
    }
    lemma_contains_concat(frame_refs(fs.drop_last()), refs_of(fs.last().locals@), c);
}

proof fn lemma_task_refs_contains(ts: Seq<Task>, i: int, c: usize)
    requires
        0 <= i < ts.len(),
        refs_of(ts[i].stack@).contains(c) || frame_refs(ts[i].frames@).contains(c),
    ensures
        task_refs(ts).contains(c),
    decreases ts.len(),
{
    let last = ts.last();
    lemma_contains_concat(refs_of(last.stack@), frame_refs(last.frames@), c);
    if i < ts.len() - 1 {
        lemma_task_refs_contains(ts.drop_last(), i, c);
    }
    lemma_contains_concat(task_refs(ts.drop_last()), refs_of(last.stack@) + frame_refs(last.frames@), c);
}

/// A value whose heap reference is a root of a capturable machine has a
/// position among the marked slots.
pub(crate) proof fn lemma_root_known(vm: VM, marks: Seq<bool>, vals: Seq<Value>)
    requires
        capturable(vm),
        marks_reach(vm, marks),
        forall|c: usize| refs_of(vals).contains(c) ==> all_roots(vm).contains(c),
    ensures
        all_known(positions(marks, marks.len() as int), marks, vals),
{
    let objs = vm.heap.objects();
    assert forall|k: int| 0 <= k < vals.len() implies ref_known(
        positions(marks, marks.len() as int),
        marks,
        #[trigger] vals[k],
    ) by {
        if let Some(c) = value_ref(vals[k]) {
            crate::heap::lemma_ref_in_refs_of(vals, k, c);
            let roots = all_roots(vm);
            let i = choose|i: int| 0 <= i < roots.len() && roots[i] == c;
            assert(c < objs.len());
            crate::heap::lemma_reach_self(objs, c);
            assert(reachable_from(objs, roots, c));
            assert(marks[c as int]);
        }
    }
}

/// Seconds since the Unix epoch according to the system clock, 0 for a
/// clock set before the epoch.
///
/// Trusted: calls `SystemTime::now` and measures its distance from
/// `UNIX_EPOCH`; the result depends on the clock, so nothing is stated of it.
#[verifier::external_body]
fn unix_time_secs() -> (t: u64) {
    std::time::SystemTime::now().duration_since(std::time::UNIX_EPOCH).map_or(0, |d| d.as_secs())
}

} // verus!

verus! {

/// The snapshot of machine `vm` (after marking, with marks `marks`) taken
/// with code hash `h`.
pub open spec fn captured(vm: VM, marks: Seq<bool>, h: u64, s: Snapshot) -> bool {
    let objs = vm.heap.objects();
    let tasks = vm.task_registry.tasks@;
    let n = settled_count(tasks);
    let tc: u32 = if n <= u32::MAX {
        n as u32
    } else {
        0
    };
    &&& s.header.magic@ == magic()
    &&& s.header.version == VERSION
    &&& s.header.code_hash == h
    &&& s.header.heap_count == rank(marks, objs.len() as int)
    &&& s.header.frame_count == vm.frames@.len() as u32
    &&& s.header.stack_count == vm.stack@.len() as u32
    &&& s.header.io_handle_count == vm.handles.entries@.len() as u32
    &&& s.header.task_count == tc
    &&& s.heap_data@ == heap_section(objs, marks, objs.len() as int)
    &&& s.frames_data@ == le32(vm.frames@.len() as u32) + frames_bytes(marks, vm.frames@)
    &&& s.stack_data@ == le32(vm.stack@.len() as u32) + refs_bytes(marks, vm.stack@)
    &&& s.io_section@ == le32(vm.handles.entries@.len() as u32) + io_entries_bytes(vm.handles.entries@)
    &&& s.task_section@ == le32(tc) + tasks_bytes(marks, tasks)
    &&& s.task_tree@.len() == 0
    &&& s.gc_to_pos@ == positions(marks, objs.len() as int)
}

pub(crate) proof fn lemma_rank_bound(marks: Seq<bool>, i: int)
    requires
        0 <= i <= marks.len(),
    ensures
        rank(marks, i) <= i,
    decreases i,
{
    if i > 0 {
        lemma_rank_bound(marks, i - 1);
    }
}

/// The roots of the machine's own stack and frames, and of its tasks, are
/// among all its roots.
pub(crate) proof fn lemma_roots_cover(vm: VM)
    ensures
        forall|c: usize| refs_of(vm.stack@).contains(c) ==> all_roots(vm).contains(c),
        forall|k: int, c: usize|
            0 <= k < vm.frames@.len() && #[trigger] refs_of(vm.frames@[k].locals@).contains(c) ==> all_roots(vm).contains(c),
        forall|i: int, c: usize|
            0 <= i < vm.task_registry.tasks@.len() && #[trigger] refs_of(vm.task_registry.tasks@[i].stack@).contains(c)
                ==> all_roots(vm).contains(c),
        forall|i: int, k: int, c: usize|
            0 <= i < vm.task_registry.tasks@.len() && 0 <= k < vm.task_registry.tasks@[i].frames@.len() && #[trigger] refs_of(
                vm.task_registry.tasks@[i].frames@[k].locals@,
            ).contains(c) ==> all_roots(vm).contains(c),
{
    let own = root_slots(vm.stack@, vm.frames@);
    let tr = task_refs(vm.task_registry.tasks@);
    assert forall|c: usize| refs_of(vm.stack@).contains(c) implies all_roots(vm).contains(c) by {
        lemma_contains_concat(refs_of(vm.stack@), frame_refs(vm.frames@), c);
        lemma_contains_concat(own, tr, c);
    }
    assert forall|k: int, c: usize|
        0 <= k < vm.frames@.len() && #[trigger] refs_of(vm.frames@[k].locals@).contains(c) implies all_roots(vm).contains(c) by {
        lemma_frame_refs_contains(vm.frames@, k, c);
        lemma_contains_concat(refs_of(vm.stack@), frame_refs(vm.frames@), c);
        lemma_contains_concat(own, tr, c);
    }
    assert forall|i: int, c: usize|
        0 <= i < vm.task_registry.tasks@.len() && #[trigger] refs_of(vm.task_registry.tasks@[i].stack@).contains(c)
            implies all_roots(vm).contains(c) by {
        lemma_task_refs_contains(vm.task_registry.tasks@, i, c);
        lemma_contains_concat(own, tr, c);
    }
    assert forall|i: int, k: int, c: usize|
        0 <= i < vm.task_registry.tasks@.len() && 0 <= k < vm.task_registry.tasks@[i].frames@.len() && #[trigger] refs_of(
            vm.task_registry.tasks@[i].frames@[k].locals@,
        ).contains(c) implies all_roots(vm).contains(c) by {
        lemma_frame_refs_contains(vm.task_registry.tasks@[i].frames@, k, c);
        lemma_task_refs_contains(vm.task_registry.tasks@, i, c);
        lemma_contains_concat(own, tr, c);
    }
}

impl Snapshot {
    /// Capture the current machine state into a snapshot.
    ///
    /// Marks the objects reachable from every root (those of the tasks
    /// included); the stack, frames and everything else are unchanged.
    pub fn capture(vm: &mut VM, code_hash: u64) -> (s: Snapshot)
        requires
            old(vm).wf(),
            capturable(*old(vm)),
        ensures
            final(vm).wf(),
            marks_reach(*old(vm), final(vm).heap.marks()),
            final(vm).heap.objects() == old(vm).heap.objects(),
            final(vm).heap.free() == old(vm).heap.free(),
            final(vm).heap.threshold() == old(vm).heap.threshold(),
            final(vm).stack == old(vm).stack,
            final(vm).frames == old(vm).frames,
            final(vm).functions == old(vm).functions,
            final(vm).running == old(vm).running,
            final(vm).handles == old(vm).handles,
            final(vm).task_registry == old(vm).task_registry,
            final(vm).current_task_id == old(vm).current_task_id,
            final(vm).pending == old(vm).pending,
            final(vm).snapshot == old(vm).snapshot,
            final(vm).next_handle_id == old(vm).next_handle_id,
            captured(*old(vm), final(vm).heap.marks(), code_hash, s),
    {
        let t = unix_time_secs();
        Snapshot::capture_at(vm, code_hash, t)
    }

    /// Capture the current machine state into a snapshot stamped with
    /// `timestamp` (seconds since the Unix epoch).
    ///
    /// Marks the objects reachable from every root (those of the tasks
    /// included); the stack, frames and everything else are unchanged.
    pub fn capture_at(vm: &mut VM, code_hash: u64, timestamp: u64) -> (s: Snapshot)
        requires
            old(vm).wf(),
            capturable(*old(vm)),
        ensures
            final(vm).wf(),
            marks_reach(*old(vm), final(vm).heap.marks()),
            final(vm).heap.objects() == old(vm).heap.objects(),
            final(vm).heap.free() == old(vm).heap.free(),
            final(vm).heap.threshold() == old(vm).heap.threshold(),
            final(vm).stack == old(vm).stack,
            final(vm).frames == old(vm).frames,
            final(vm).functions == old(vm).functions,
            final(vm).running == old(vm).running,
            final(vm).handles == old(vm).handles,
            final(vm).task_registry == old(vm).task_registry,
            final(vm).current_task_id == old(vm).current_task_id,
            final(vm).pending == old(vm).pending,
            final(vm).snapshot == old(vm).snapshot,
            final(vm).next_handle_id == old(vm).next_handle_id,
            captured(*old(vm), final(vm).heap.marks(), code_hash, s),
            s.header.timestamp == timestamp,
    {
        broadcast use vstd::std_specs::hash::group_hash_axioms;

        vm.mark_all_task_roots();
        let ghost marks = vm.heap.marks();
        let ghost objs = vm.heap.objects();
        let ghost roots = all_roots(*old(vm));
        assert(marks_reach(*old(vm), marks));
        // Number every marked slot first, so that a list may refer to an
        // object written after it.
        let mut gc_to_pos: HashMap<usize, u32> = HashMap::new();
        let mut heap_count: u32 = 0;
        let cap = vm.heap.capacity();
        let mut idx: usize = 0;
        assert(gc_to_pos@ =~= positions(marks, 0));
        while idx < cap
            invariant
                vm.heap.marks() == marks,
                cap == objs.len(),
                objs == vm.heap.objects(),
                marks.len() == objs.len(),
                objs.len() <= u32::MAX,
                idx <= cap,
                heap_count == rank(marks, idx as int),
                gc_to_pos@ == positions(marks, idx as int),
            decreases cap - idx,
        {
            proof {
                lemma_rank_bound(marks, idx as int);
            }
            if vm.heap.is_marked(idx) {
                gc_to_pos.insert(idx, heap_count);
                heap_count = heap_count + 1;
            }
            assert(gc_to_pos@ =~= positions(marks, idx + 1));
            idx = idx + 1;
        }
        let mut heap_buf: Vec<u8> = Vec::new();
        let mut idx: usize = 0;
        while idx < cap
            invariant
                vm.heap.wf(),
                vm.heap.objects() == objs,
                vm.heap.marks() == marks,
                objs == old(vm).heap.objects(),
                cap == objs.len(),
                objs.len() <= u32::MAX,
                marks_reach(*old(vm), marks),
                capturable(*old(vm)),
                roots == all_roots(*old(vm)),
                vm.stack == old(vm).stack,
                vm.frames == old(vm).frames,
                vm.functions == old(vm).functions,
                vm.running == old(vm).running,
                vm.handles == old(vm).handles,
                vm.task_registry == old(vm).task_registry,
                vm.current_task_id == old(vm).current_task_id,
                vm.pending == old(vm).pending,
                vm.snapshot == old(vm).snapshot,
                vm.next_handle_id == old(vm).next_handle_id,
                vm.heap.free() == old(vm).heap.free(),
                vm.heap.threshold() == old(vm).heap.threshold(),
                idx <= cap,
                heap_count == rank(marks, cap as int),
                gc_to_pos@ == positions(marks, cap as int),
                heap_buf@ == heap_section(objs, marks, idx as int),
            decreases cap - idx,
        {
            if vm.heap.is_marked(idx) {
                let got = vm.heap.get_object(idx);
                if got.is_none() {
                    assert(false);
                }
                let obj = got.unwrap();
                proof {
                    if obj is List {
                        let l = obj->List_0;
                        assert forall|k: int| 0 <= k < l.elements@.len() implies ref_known(
                            gc_to_pos@,
                            marks,
                            #[trigger] l.elements@[k],
                        ) by {
                            if let Some(c) = value_ref(l.elements@[k]) {
                                crate::heap::lemma_ref_in_refs_of(l.elements@, k, c);
                                assert(children(objs[idx as int]).contains(c));
                                assert(reachable_from(objs, roots, idx));
                                let ci = choose|ci: int| 0 <= ci < children(objs[idx as int]).len() && children(objs[idx as int])[ci] == c;
                                assert(c < objs.len());
                                let r = choose|r: int| 0 <= r < roots.len() && #[trigger] crate::heap::reaches(objs, roots[r], idx);
                                crate::heap::lemma_reach_child(objs, roots[r], idx, c);
                                assert(reachable_from(objs, roots, c));
                                assert(marks[c as int]);
                            }
                        }
                    }
                }
                Snapshot::serialize_heap_object(&mut heap_buf, obj, &gc_to_pos, Ghost(marks));
            }
            idx = idx + 1;
        }
        assert(gc_to_pos@ == positions(marks, marks.len() as int));
        proof {
            lemma_roots_cover(*old(vm));
            lemma_root_known(*old(vm), marks, vm.stack@);
            assert forall|k: int| 0 <= k < vm.frames@.len() implies all_known(
                gc_to_pos@,
                marks,
                #[trigger] vm.frames@[k].locals@,
            ) by {
                lemma_root_known(*old(vm), marks, vm.frames@[k].locals@);
            }
        }
        let mut frames_buf: Vec<u8> = Vec::new();
        write_frames(&mut frames_buf, &vm.frames, &gc_to_pos, Ghost(marks));
        let mut stack_buf: Vec<u8> = Vec::new();
        write_values(&mut stack_buf, &vm.stack, &gc_to_pos, Ghost(marks));
        let mut io_buf: Vec<u8> = Vec::new();
        write_io(&mut io_buf, &vm.handles);
        let mut task_buf: Vec<u8> = Vec::new();
        let tc = Snapshot::write_tasks(&mut task_buf, &vm.task_registry.tasks, &gc_to_pos, Ghost(*old(vm)), Ghost(marks));
        let header = SnapshotHeader {
            magic: [0x50u8, 0x41u8, 0x55u8, 0x53u8],
            version: VERSION,
            code_hash,
            timestamp,
            heap_count,
            frame_count: vm.frames.len() as u32,
            stack_count: vm.stack.len() as u32,
            io_handle_count: vm.handles.entries.len() as u32,
            task_count: tc,
        };
        assert(header.magic@ =~= magic());
        Snapshot {
            header,
            heap_data: heap_buf,
            frames_data: frames_buf,
            io_section: io_buf,
            stack_data: stack_buf,
            gc_to_pos,
            task_tree: Vec::new(),
            task_section: task_buf,
        }
    }

    /// Append the count and the entries of the tasks that are not running.
    fn write_tasks(
        buf: &mut Vec<u8>,
        tasks: &Vec<Task>,
        gc_to_pos: &HashMap<usize, u32>,
        Ghost(vm): Ghost<VM>,
        Ghost(marks): Ghost<Seq<bool>>,
    ) -> (tc: u32)
        requires
            tasks@ == vm.task_registry.tasks@,
            capturable(vm),
            marks_reach(vm, marks),
            gc_to_pos@ == positions(marks, marks.len() as int),
        ensures
            tc == (if settled_count(tasks@) <= u32::MAX {
                settled_count(tasks@) as u32
            } else {
                0u32
            }),
            final(buf)@ == old(buf)@ + le32(tc) + tasks_bytes(marks, tasks@),
    {
        let mut n: usize = 0;
        let mut i: usize = 0;
        while i < tasks.len()
            invariant
                i <= tasks@.len(),
                n == settled_count(tasks@.take(i as int)),
                n <= i,
            decreases tasks@.len() - i,
        {
            assert(tasks@.take(i + 1).drop_last() =~= tasks@.take(i as int));
            if !tasks[i].status.is_running() {
                n = n + 1;
            }
            i = i + 1;
        }
        assert(tasks@.take(i as int) =~= tasks@);
        let tc: u32 = if n <= 0xFFFF_FFFFusize {
            n as u32
        } else {
            0
        };
        write_u32(buf, tc);
        let ghost head = buf@;
        proof {
            lemma_roots_cover(vm);
        }
        let mut j: usize = 0;
        while j < tasks.len()
            invariant
                j <= tasks@.len(),
                tasks@ == vm.task_registry.tasks@,
                capturable(vm),
                marks_reach(vm, marks),
                gc_to_pos@ == positions(marks, marks.len() as int),
                forall|i: int, c: usize|
                    0 <= i < vm.task_registry.tasks@.len() && #[trigger] refs_of(vm.task_registry.tasks@[i].stack@).contains(c)
                        ==> all_roots(vm).contains(c),
                forall|i: int, k: int, c: usize|
                    0 <= i < vm.task_registry.tasks@.len() && 0 <= k < vm.task_registry.tasks@[i].frames@.len() && #[trigger] refs_of(
                        vm.task_registry.tasks@[i].frames@[k].locals@,
                    ).contains(c) ==> all_roots(vm).contains(c),
                buf@ == head + tasks_bytes(marks, tasks@.take(j as int)),
            decreases tasks@.len() - j,
        {
            assert(tasks@.take(j + 1).drop_last() =~= tasks@.take(j as int));
            if !tasks[j].status.is_running() {
                proof {
                    let t = tasks@[j as int];
                    lemma_root_known(vm, marks, t.stack@);
                    assert forall|k: int| 0 <= k < t.frames@.len() implies all_known(
                        gc_to_pos@,
                        marks,
                        #[trigger] t.frames@[k].locals@,
                    ) by {
                        assert forall|c: usize| refs_of(t.frames@[k].locals@).contains(c) implies all_roots(vm).contains(c) by {
                            assert(vm.task_registry.tasks@[j as int].frames@[k] == t.frames@[k]);
                        }
                        lemma_root_known(vm, marks, t.frames@[k].locals@);
                    }
                }
                Snapshot::serialize_task_snapshot(buf, &tasks[j], gc_to_pos, Ghost(marks));
            }
            j = j + 1;
        }
        assert(tasks@.take(j as int) =~= tasks@);
        tc
    }
}

} // verus!

verus! {

/// A value read back from the position-reference format into a heap where
/// the objects at positions below `k` have been read (at slots equal to
/// their positions): a reference to position `k` or beyond is invalid.
pub open spec fn resolve(v: Value, k: nat) -> Result<Value, SnapshotError> {
    match v {
        Value::String(g) => if g.index < k {
            Ok(v)
        } else {
            Err(SnapshotError::InvalidHeapPosition(g.index as u32))
        },
        Value::List(g) => if g.index < k {
            Ok(v)
        } else {
            Err(SnapshotError::InvalidHeapPosition(g.index as u32))
        },
        _ => Ok(v),
    }
}

/// How the value in the position-reference format at the start of `data`
/// reads back, its reference resolved against `k` objects: the value and the
/// number of bytes it takes.
pub open spec fn parse_ref_in(data: Seq<u8>, k: nat) -> Result<(Value, nat), SnapshotError> {
    match parse_ref(data) {
        Ok((v, m)) => match resolve(v, k) {
            Ok(w) => Ok((w, m)),
            Err(e) => Err(e),
        },
        Err(e) => Err(e),
    }
}

/// How `n` values in the position-reference format at the start of `data`
/// read back, references resolved against `k` objects.
pub open spec fn parse_refs(data: Seq<u8>, n: nat, k: nat) -> Result<(Seq<Value>, nat), SnapshotError>
    decreases n,
{
    if n == 0 {
        Ok((Seq::empty(), 0nat))
    } else {
        match parse_refs(data, (n - 1) as nat, k) {
            Ok((vs, used)) => if used <= data.len() {
                match parse_ref_in(data.skip(used as int), k) {
                    Ok((v, m)) => Ok((vs.push(v), used + m)),
                    Err(e) => Err(e),
                }
            } else {
                Err(SnapshotError::UnexpectedEof)
            },
            Err(e) => Err(e),
        }
    }
}

/// A heap object as read back: a string's text, or a list's elements with
/// references by position.
pub enum ObjForm {
    Str(Seq<char>),
    List(Seq<Value>),
}

/// How the heap object at the start of `data`, the one at position `k`,
/// reads back (its references must name earlier positions).
pub open spec fn parse_object(data: Seq<u8>, k: nat) -> Result<(ObjForm, nat), SnapshotError> {
    if data.len() == 0 {
        Err(SnapshotError::UnexpectedEof)
    } else if data[0] == TAG_STRING {
        if data.len() < 5 {
            Err(SnapshotError::UnexpectedEof)
        } else {
            let n = u32_at(data, 1) as int;
            if data.len() < 5 + n {
                Err(SnapshotError::UnexpectedEof)
            } else {
                Ok((ObjForm::Str(crate::serialize::text_of(data.subrange(5, 5 + n))), (5 + n) as nat))
            }
        }
    } else if data[0] == TAG_LIST {
        if data.len() < 5 {
            Err(SnapshotError::UnexpectedEof)
        } else {
            match parse_refs(data.skip(5), u32_at(data, 1) as nat, k) {
                Ok((vs, used)) => Ok((ObjForm::List(vs), 5 + used)),
                Err(e) => Err(e),
            }
        }
    } else {
        Err(SnapshotError::UnknownObjectTag(data[0]))
    }
}

/// How the first `n` objects of a heap section read back, references
/// resolved against the `k` objects of the whole section (a list may refer
/// to an object written after it).
pub open spec fn parse_heap(data: Seq<u8>, n: nat, k: nat) -> Result<(Seq<ObjForm>, nat), SnapshotError>
    decreases n,
{
    if n == 0 {
        Ok((Seq::empty(), 0nat))
    } else {
        match parse_heap(data, (n - 1) as nat, k) {
            Ok((os, used)) => if used <= data.len() {
                match parse_object(data.skip(used as int), k) {
                    Ok((o, m)) => Ok((os.push(o), used + m)),
                    Err(e) => Err(e),
                }
            } else {
                Err(SnapshotError::UnexpectedEof)
            },
            Err(e) => Err(e),
        }
    }
}

/// A call frame as read back.
pub struct FrameForm {
    pub function: u32,
    pub ip: u32,
    pub locals: Seq<Value>,
}

/// How the frame at the start of `data` reads back.
pub open spec fn parse_frame(data: Seq<u8>, k: nat) -> Result<(FrameForm, nat), SnapshotError> {
    if data.len() < 12 {
        Err(SnapshotError::UnexpectedEof)
    } else {
        match parse_refs(data.skip(12), u32_at(data, 8) as nat, k) {
            Ok((vs, used)) => Ok((FrameForm { function: u32_at(data, 0), ip: u32_at(data, 4), locals: vs }, 12 + used)),
            Err(e) => Err(e),
        }
    }
}

/// How `n` frames at the start of `data` read back.
pub open spec fn parse_frames(data: Seq<u8>, n: nat, k: nat) -> Result<(Seq<FrameForm>, nat), SnapshotError>
    decreases n,
{
    if n == 0 {
        Ok((Seq::empty(), 0nat))
    } else {
        match parse_frames(data, (n - 1) as nat, k) {
            Ok((fs, used)) => if used <= data.len() {
                match parse_frame(data.skip(used as int), k) {
                    Ok((f, m)) => Ok((fs.push(f), used + m)),
                    Err(e) => Err(e),
                }
            } else {
                Err(SnapshotError::UnexpectedEof)
            },
            Err(e) => Err(e),
        }
    }
}

/// How a counted section of frames reads back.
pub open spec fn parse_frame_section(data: Seq<u8>, k: nat) -> Result<Seq<FrameForm>, SnapshotError> {
    if data.len() < 4 {
        Err(SnapshotError::UnexpectedEof)
    } else {
        match parse_frames(data.skip(4), u32_at(data, 0) as nat, k) {
            Ok((fs, _)) => Ok(fs),
            Err(e) => Err(e),
        }
    }
}

/// How a counted section of values reads back.
pub open spec fn parse_value_section(data: Seq<u8>, k: nat) -> Result<Seq<Value>, SnapshotError> {
    if data.len() < 4 {
        Err(SnapshotError::UnexpectedEof)
    } else {
        match parse_refs(data.skip(4), u32_at(data, 0) as nat, k) {
            Ok((vs, _)) => Ok(vs),
            Err(e) => Err(e),
        }
    }
}

/// The machine state a snapshot restores: the heap objects (object `p` at
/// slot `p`), the frames and the operand stack.
pub open spec fn restored(s: Snapshot) -> Result<(Seq<ObjForm>, Seq<FrameForm>, Seq<Value>), SnapshotError> {
    let n = s.header.heap_count as nat;
    match parse_heap(s.heap_data@, n, n) {
        Ok((objs, _)) => match parse_frame_section(s.frames_data@, n) {
            Ok(fs) => match parse_value_section(s.stack_data@, n) {
                Ok(vs) => Ok((objs, fs, vs)),
                Err(e) => Err(e),
            },
            Err(e) => Err(e),
        },
        Err(e) => Err(e),
    }
}

/// Heap object `o` is what form `f` describes.
pub open spec fn object_is(o: HeapObject, f: ObjForm) -> bool {
    match (o, f) {
        (HeapObject::String(s), ObjForm::Str(t)) => s.data@ == t,
        (HeapObject::List(l), ObjForm::List(vs)) => l.elements@ == vs,
        _ => false,
    }
}

/// Frame `f` is what form `g` describes (at instruction pointer `g.ip`).
pub open spec fn frame_is(f: CallFrame, g: FrameForm) -> bool {
    f.function == g.function as usize && f.ip == g.ip as usize && f.locals@ == g.locals
}

} // verus!

verus! {

use crate::chunk::spec_byte_list;
use crate::text::{push_decimal_u64, push_hex_byte, push_hex_padded, spec_decimal_u64, spec_hex_byte, spec_hex_padded, text};

/// The message of a snapshot error.
pub open spec fn spec_snapshot_error_text(e: SnapshotError) -> Seq<char> {
    match e {
        SnapshotError::BadMagic { found } => "bad snapshot magic: "@ + spec_byte_list(found@),
        SnapshotError::UnsupportedVersion(v) => "unsupported snapshot version: "@ + spec_decimal_u64(v as u64),
        SnapshotError::CodeMismatch { expected, found } => "code hash mismatch: expected "@ + spec_hex_padded(
            expected as nat,
            16,
        ) + ", found "@ + spec_hex_padded(found as nat, 16),
        SnapshotError::IoError(msg) => "snapshot I/O error: "@ + msg@,
        SnapshotError::UnexpectedEof => "unexpected end of snapshot data"@,
        SnapshotError::UnknownObjectTag(b) => "unknown heap object tag: "@ + spec_hex_byte(b),
        SnapshotError::InvalidHeapPosition(p) => "invalid heap position reference: "@ + spec_decimal_u64(p as u64),
    }
}

impl SnapshotError {
    /// The error's message.
    pub fn display_string(&self) -> (s: String)
        ensures
            s@ == spec_snapshot_error_text(*self),
    {
        match self {
            SnapshotError::BadMagic { found } => {
                let mut s = text("bad snapshot magic: [");
                push_hex_padded(&mut s, found[0] as u64, 2);
                s.append(", ");
                push_hex_padded(&mut s, found[1] as u64, 2);
                s.append(", ");
                push_hex_padded(&mut s, found[2] as u64, 2);
                s.append(", ");
                push_hex_padded(&mut s, found[3] as u64, 2);
                s.append("]");
                proof {
                    reveal_strlit("bad snapshot magic: [");
                    reveal_strlit("bad snapshot magic: ");
                    reveal_strlit("[");
                }
                assert(s@ =~= "bad snapshot magic: "@ + spec_byte_list(found@));
                s
            },
            SnapshotError::UnsupportedVersion(v) => {
                let mut s = text("unsupported snapshot version: ");
                push_decimal_u64(&mut s, *v as u64);
                s
            },
            SnapshotError::CodeMismatch { expected, found } => {
                let mut s = text("code hash mismatch: expected ");
                push_hex_padded(&mut s, *expected, 16);
                s.append(", found ");
                push_hex_padded(&mut s, *found, 16);
                s
            },
            SnapshotError::IoError(msg) => {
                let mut s = text("snapshot I/O error: ");
                s.append(msg.as_str());
                s
            },
            SnapshotError::UnexpectedEof => text("unexpected end of snapshot data"),
            SnapshotError::UnknownObjectTag(b) => {
                let mut s = text("unknown heap object tag: ");
                push_hex_byte(&mut s, *b);
                s
            },
            SnapshotError::InvalidHeapPosition(p) => {
                let mut s = text("invalid heap position reference: ");
                push_decimal_u64(&mut s, *p as u64);
                s
            },
        }
    }
}

} // verus!
