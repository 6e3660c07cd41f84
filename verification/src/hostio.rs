//! The I/O instructions: the machine's side of files, sockets, HTTP and the
//! standard streams. What the outside world does is left to the host through
//! `HostCall`s; `VM::complete` applies the host's answer.

use vstd::prelude::*;
use vstd::utf8::encode_utf8;

use crate::heap::{Heap, HeapObject, ListObj, StringObj};
use crate::io::{FileMode, HandleId, IoHandle, IoStrategy};
use crate::text::{push_decimal_i64, spec_decimal_i64, text};
use crate::value::{spec_display, Value};
use crate::vm::{HostCall, HostText, VmError, VM};

verus! {

/// The mathematical content of a `HostText`.
pub enum TextView {
    Ready(Seq<u8>),
    Float(u64),
}

pub open spec fn text_view(t: HostText) -> TextView {
    match t {
        HostText::Ready(b) => TextView::Ready(b@),
        HostText::Float(bits) => TextView::Float(bits),
    }
}

/// The text of a string object at `gc`, or the empty text when there is none.
pub open spec fn heap_text(h: Heap, idx: usize) -> Seq<char> {
    if idx < h.objects().len() {
        match h.objects()[idx as int] {
            HeapObject::String(s) => s.data@,
            _ => Seq::empty(),
        }
    } else {
        Seq::empty()
    }
}

/// A value as text for paths, addresses and URLs: a heap string's text (empty
/// for an invalid handle), a float's text from the host, otherwise the
/// value's display text.
pub open spec fn spec_value_text(h: Heap, v: Value) -> TextView {
    match v {
        Value::String(gc) => TextView::Ready(encode_utf8(heap_text(h, gc.index))),
        Value::Float(bits) => TextView::Float(bits),
        _ => TextView::Ready(encode_utf8(spec_display(v))),
    }
}

/// A value as the bytes an I/O write sends: the decimal text of an integer,
/// `true` / `false`, `null`, a float's text from the host; heap strings and
/// lists write nothing.
pub open spec fn spec_value_bytes(v: Value) -> TextView {
    match v {
        Value::Int(n) => TextView::Ready(encode_utf8(spec_decimal_i64(n))),
        Value::Float(bits) => TextView::Float(bits),
        Value::Bool(b) => TextView::Ready(encode_utf8(
            if b {
                "true"@
            } else {
                "false"@
            },
        )),
        Value::Null => TextView::Ready(encode_utf8("null"@)),
        _ => TextView::Ready(Seq::empty()),
    }
}

/// The list elements that stand for the bytes `b`.
pub open spec fn byte_values(b: Seq<u8>) -> Seq<Value> {
    Seq::new(b.len(), |i: int| Value::Int(b[i] as i64))
}

/// The file mode a mode operand stands for: a heap string `w`/`W` or `a`/`A`;
/// anything else reads.
pub open spec fn spec_file_mode(h: Heap, v: Value) -> FileMode {
    match v {
        Value::String(gc) => {
            let t = heap_text(h, gc.index);
            if t == "w"@ || t == "W"@ {
                FileMode::Write
            } else if t == "a"@ || t == "A"@ {
                FileMode::Append
            } else {
                FileMode::Read
            }
        },
        _ => FileMode::Read,
    }
}

fn utf8_bytes(s: &str) -> (b: Vec<u8>)
    ensures
        b@ == encode_utf8(s@),
{
    let bytes = s.as_bytes();
    let mut out: Vec<u8> = Vec::new();
    crate::wire::push_bytes(&mut out, bytes);
    out
}

impl VM {
    /// The text of the string object at `idx`, empty when there is none.
    fn string_at(&self, idx: usize) -> (s: String)
        ensures
            s@ == heap_text(self.heap, idx),
    {
        match self.heap.get_object(idx) {
            Some(HeapObject::String(obj)) => obj.data.clone(),
            _ => String::new(),
        }
    }

    /// `spec_value_text` of `v`.
    fn value_text(&self, v: &Value) -> (t: HostText)
        ensures
            text_view(t) == spec_value_text(self.heap, *v),
    {
        match v {
            Value::String(gc) => {
                let s = self.string_at(gc.index);
                HostText::Ready(utf8_bytes(s.as_str()))
            },
            Value::Float(bits) => HostText::Float(*bits),
            _ => {
                let s = v.display_string();
                HostText::Ready(utf8_bytes(s.as_str()))
            },
        }
    }

    /// The file mode a mode operand stands for.
    fn file_mode(&self, v: &Value) -> (m: FileMode)
        ensures
            m == spec_file_mode(self.heap, *v),
    {
        match v {
            Value::String(gc) => {
                let s = self.string_at(gc.index);
                let t = s.as_str();
                proof {
                    reveal_strlit("w");
                    reveal_strlit("W");
                    reveal_strlit("a");
                    reveal_strlit("A");
                }
                if t.unicode_len() == 1 {
                    let c = t.get_char(0);
                    if c == 'w' || c == 'W' {
                        assert(t@ =~= "w"@ || t@ =~= "W"@);
                        FileMode::Write
                    } else if c == 'a' || c == 'A' {
                        assert(t@ =~= "a"@ || t@ =~= "A"@);
                        FileMode::Append
                    } else {
                        FileMode::Read
                    }
                } else {
                    FileMode::Read
                }
            },
            _ => FileMode::Read,
        }
    }
}

/// `spec_value_bytes` of `v`.
fn value_bytes(v: &Value) -> (t: HostText)
    ensures
        text_view(t) == spec_value_bytes(*v),
{
    match v {
        Value::Int(n) => {
            let mut s = String::new();
            push_decimal_i64(&mut s, *n);
            assert(s@ =~= spec_decimal_i64(*n));
            HostText::Ready(utf8_bytes(s.as_str()))
        },
        Value::Float(bits) => HostText::Float(*bits),
        Value::Bool(b) => {
            let s = if *b {
                text("true")
            } else {
                text("false")
            };
            HostText::Ready(utf8_bytes(s.as_str()))
        },
        Value::Null => {
            let s = text("null");
            HostText::Ready(utf8_bytes(s.as_str()))
        },
        _ => HostText::Ready(Vec::new()),
    }
}

/// The list elements that stand for `bytes`.
fn byte_list(bytes: &Vec<u8>) -> (v: Vec<Value>)
    ensures
        v@ == byte_values(bytes@),
{
    let mut v: Vec<Value> = Vec::new();
    let mut i: usize = 0;
    while i < bytes.len()
        invariant
            i <= bytes@.len(),
            v@ == byte_values(bytes@.take(i as int)),
        decreases bytes@.len() - i,
    {
        v.push(Value::Int(bytes[i] as i64));
        i = i + 1;
        assert(v@ =~= byte_values(bytes@.take(i as int)));
    }
    assert(bytes@.take(i as int) =~= bytes@);
    v
}

} // verus!

verus! {

use crate::io::{HandleRecord, HandleTable};
use crate::vm::{free_after_alloc, next_slot, objects_after_alloc};

/// The handle registered under `id`, if any.
pub open spec fn find_handle(t: HandleTable, id: HandleId) -> Option<IoHandle> {
    match t.position_of(id) {
        Some(i) => Some(t.entries@[i].1),
        None => None,
    }
}

/// `n` is `o` with a handle of record `rec` registered under `id`.
pub open spec fn registers(o: HandleTable, n: HandleTable, id: HandleId, rec: HandleRecord) -> bool {
    exists|x: IoHandle|
        #[trigger] x@ == rec && match o.position_of(id) {
            Some(i) => n.entries@ == o.entries@.update(i, (id, x)),
            None => n.entries@ == o.entries@.push((id, x)),
        }
}

/// `n` is `o` with the handle under `id` (registered in `o`) replaced by one of
/// record `rec`.
pub open spec fn replaces(o: HandleTable, n: HandleTable, id: HandleId, rec: HandleRecord) -> bool {
    exists|x: IoHandle|
        #[trigger] x@ == rec && o.position_of(id) is Some && n.entries@ == o.entries@.update(
            o.position_of(id).unwrap(),
            (id, x),
        )
}

/// Everything but the stack, heap, handles, handle counter and pending call
/// is unchanged.
pub open spec fn same_but_io(o: VM, n: VM) -> bool {
    &&& n.functions == o.functions
    &&& n.frames == o.frames
    &&& n.running == o.running
    &&& n.snapshot == o.snapshot
    &&& n.task_registry == o.task_registry
    &&& n.current_task_id == o.current_task_id
}

/// Also the heap, handles and handle counter are unchanged.
pub open spec fn same_but_stack_pending(o: VM, n: VM) -> bool {
    &&& same_but_io(o, n)
    &&& n.heap == o.heap
    &&& n.handles == o.handles
    &&& n.next_handle_id == o.next_handle_id
}

/// The heap of `n` is that of `o` after allocating `obj` (no collection).
pub open spec fn heap_allocs(o: Heap, n: Heap, obj: HeapObject) -> bool {
    &&& n.objects() == objects_after_alloc(o, obj)
    &&& n.free() == free_after_alloc(o)
    &&& n.threshold() == o.threshold()
}

/// A heap reference or scalar operand used as a path / address text.
pub open spec fn path_string(h: Heap, v: Value) -> Seq<char> {
    match v {
        Value::String(gc) => heap_text(h, gc.index),
        _ => spec_display(v),
    }
}

/// A file handle for `path` opened with mode `m` was registered under the next
/// id, and the id was pushed.
pub open spec fn opened_file(o: VM, n: VM, path: Seq<char>, m: FileMode) -> bool {
    &&& registers(
        o.handles,
        n.handles,
        HandleId(o.next_handle_id),
        HandleRecord::File {
            path,
            mode: m,
            position: 0,
            strategy: IoStrategy::Seek,
            attached: false,
            cached: None,
        },
    )
    &&& n.next_handle_id == o.next_handle_id.wrapping_add(1)
    &&& n.stack@ == o.stack@.push(Value::Int(o.next_handle_id as i64))
}

/// What `FileOpen { path, mode }` does: no file is touched; the handle
/// records the path and mode. A float path's text comes from the host.
pub open spec fn file_open_step(o: VM, path: Value, mode: Value, n: VM, r: Result<(), VmError>) -> bool {
    let m = spec_file_mode(o.heap, mode);
    &&& r is Ok
    &&& same_but_io(o, n)
    &&& n.heap == o.heap
    &&& match path {
        Value::Float(bits) => n.pending == Some(HostCall::FilePath { path: bits, mode: m }) && n.stack == o.stack
            && n.handles == o.handles && n.next_handle_id == o.next_handle_id,
        _ => n.pending == o.pending && opened_file(o, n, path_string(o.heap, path), m),
    }
}

impl VM {
    /// Register a handle under the next id and push the id.
    fn open_handle(&mut self, handle: IoHandle) -> (r: Result<(), VmError>)
        requires
            old(self).wf(),
        ensures
            final(self).wf(),
            r is Ok,
            registers(old(self).handles, final(self).handles, HandleId(old(self).next_handle_id), handle@),
            final(self).next_handle_id == old(self).next_handle_id.wrapping_add(1),
            final(self).stack@ == old(self).stack@.push(Value::Int(old(self).next_handle_id as i64)),
            same_but_io(*old(self), *final(self)),
            final(self).heap == old(self).heap,
            final(self).pending == old(self).pending,
    {
        let ghost h = handle;
        let id = self.create_handle(handle);
        self.stack.push(Value::Int(id.0 as i64));
        assert(h@ == h@);
        Ok(())
    }

    pub(crate) fn file_open(&mut self, path: Value, mode: Value) -> (r: Result<(), VmError>)
        requires
            old(self).wf(),
        ensures
            final(self).wf(),
            file_open_step(*old(self), path, mode, *final(self), r),
    {
        let m = self.file_mode(&mode);
        if let Value::Float(bits) = path {
            self.pending = Some(HostCall::FilePath { path: bits, mode: m });
            return Ok(());
        }
        let p = match path {
            Value::String(gc) => self.string_at(gc.index),
            _ => path.display_string(),
        };
        let handle = IoHandle::File {
            path: p,
            mode: m,
            position: 0,
            strategy: IoStrategy::Seek,
            attached: false,
            cached: None,
        };
        self.open_handle(handle)
    }
}

} // verus!

verus! {

/// What `FileRead(h)` does: a non-file handle reads `Null`; cached data of a
/// `Cached` handle is pushed as a list of bytes; otherwise the host reads the
/// file (from its open file when the handle is `Seek` and attached, by
/// reopening and seeking when `Seek`, by reading the whole file otherwise).
pub open spec fn file_read_step(o: VM, h: HandleId, n: VM, r: Result<(), VmError>) -> bool {
    &&& r is Ok
    &&& same_but_io(o, n)
    &&& n.handles == o.handles
    &&& n.next_handle_id == o.next_handle_id
    &&& match find_handle(o.handles, h) {
        Some(IoHandle::File { path, position, strategy, attached, cached, .. }) => if strategy == IoStrategy::Cached
            && cached is Some {
            &&& heap_allocs(o.heap, n.heap, HeapObject::List(ListObj { elements: n.heap.objects()[next_slot(o.heap) as int]->List_0.elements }))
            &&& n.heap.objects()[next_slot(o.heap) as int]->List_0.elements@ == byte_values(cached.unwrap()@)
            &&& n.stack@ == o.stack@.push(Value::List(crate::heap::Gc::new_spec(next_slot(o.heap))))
            &&& n.pending == o.pending
        } else {
            &&& n.heap == o.heap
            &&& n.stack == o.stack
            &&& n.pending matches Some(HostCall::FileRead { handle, path: p, position: pos, attached: a, seek })
            &&& handle == h && p == path && pos == position && seek == (strategy == IoStrategy::Seek) && a == (
            strategy == IoStrategy::Seek && attached)
        },
        _ => n.heap == o.heap && n.pending == o.pending && n.stack@ == o.stack@.push(Value::Null),
    }
}

impl VM {
    /// Allocate a list of the bytes (no collection) and push it.
    fn push_byte_list(&mut self, bytes: &Vec<u8>)
        requires
            old(self).wf(),
        ensures
            final(self).wf(),
            heap_allocs(
                old(self).heap,
                final(self).heap,
                HeapObject::List(ListObj { elements: final(self).heap.objects()[next_slot(old(self).heap) as int]->List_0.elements }),
            ),
            final(self).heap.objects()[next_slot(old(self).heap) as int]->List_0.elements@ == byte_values(bytes@),
            final(self).stack@ == old(self).stack@.push(Value::List(crate::heap::Gc::new_spec(next_slot(old(self).heap)))),
            same_but_io(*old(self), *final(self)),
            final(self).handles == old(self).handles,
            final(self).next_handle_id == old(self).next_handle_id,
            final(self).pending == old(self).pending,
    {
        let elements = byte_list(bytes);
        proof {
            self.heap.lemma_free_distinct();
        }
        let gc = self.heap.alloc_list(elements);
        self.stack.push(Value::List(gc));
    }

    pub(crate) fn file_read(&mut self, h: HandleId) -> (r: Result<(), VmError>)
        requires
            old(self).wf(),
        ensures
            final(self).wf(),
            file_read_step(*old(self), h, *final(self), r),
    {
        let (path, position, strategy, attached, cached) = match self.handles.get(h) {
            Some(IoHandle::File { path, position, strategy, attached, cached, .. }) => (
                path.clone(),
                *position,
                *strategy,
                *attached,
                match cached {
                    Some(c) => Some(c.clone()),
                    None => None,
                },
            ),
            _ => {
                self.stack.push(Value::Null);
                return Ok(());
            },
        };
        if strategy == IoStrategy::Cached {
            if let Some(data) = cached {
                self.push_byte_list(&data);
                return Ok(());
            }
        }
        let seek = strategy == IoStrategy::Seek;
        self.pending = Some(HostCall::FileRead { handle: h, path, position, attached: seek && attached, seek });
        Ok(())
    }
}

} // verus!

verus! {

/// What `FileWrite(h)` does: pop the data; for a file handle the host writes
/// its bytes (to the open file when `Seek` and attached, otherwise by
/// creating / truncating the path); other handles ignore it.
pub open spec fn file_write_step(o: VM, h: HandleId, n: VM, r: Result<(), VmError>) -> bool {
    let s = o.stack@;
    &&& same_but_io(o, n)
    &&& n.heap == o.heap
    &&& n.handles == o.handles
    &&& n.next_handle_id == o.next_handle_id
    &&& if s.len() == 0 {
        r == Err::<(), VmError>(VmError::StackUnderflow) && n.stack@ == s && n.pending == o.pending
    } else {
        &&& r is Ok
        &&& n.stack@ == s.drop_last()
        &&& match find_handle(o.handles, h) {
            Some(IoHandle::File { path, strategy, attached, .. }) => n.pending matches Some(
                HostCall::FileWrite { handle, path: p, data, attached: a },
            ) && handle == h && p == path && text_view(data) == spec_value_bytes(s.last()) && a == (strategy
                == IoStrategy::Seek && attached),
            _ => n.pending == o.pending,
        }
    }
}

/// The offset a seek operand stands for: an integer's bits, otherwise 0.
pub open spec fn seek_offset(v: Value) -> u64 {
    match v {
        Value::Int(n) => n as u64,
        _ => 0,
    }
}

/// What `FileSeek { handle, offset }` does: a file handle's position becomes
/// the offset (and the host seeks its open file, if attached); the offset is
/// pushed.
pub open spec fn file_seek_step(o: VM, h: HandleId, offset: Value, n: VM, r: Result<(), VmError>) -> bool {
    let off = seek_offset(offset);
    &&& r is Ok
    &&& same_but_io(o, n)
    &&& n.heap == o.heap
    &&& n.next_handle_id == o.next_handle_id
    &&& n.stack@ == o.stack@.push(Value::Int(off as i64))
    &&& match find_handle(o.handles, h) {
        Some(IoHandle::File { path, mode, strategy, attached, cached, .. }) => replaces(
            o.handles,
            n.handles,
            h,
            HandleRecord::File { path: path@, mode, position: off, strategy, attached, cached: crate::io::opt_bytes(cached) },
        ) && if attached {
            n.pending == Some(HostCall::FileSeek { handle: h, offset: off })
        } else {
            n.pending == o.pending
        },
        _ => n.handles.entries@ == o.handles.entries@ && n.pending == o.pending,
    }
}

/// What `FileClose(h)` / `TcpClose(h)` do: unregister the handle, push whether
/// it was registered, and have the host release its file or socket.
pub open spec fn close_step(o: VM, h: HandleId, n: VM, r: Result<(), VmError>) -> bool {
    &&& r is Ok
    &&& same_but_io(o, n)
    &&& n.heap == o.heap
    &&& n.next_handle_id == o.next_handle_id
    &&& match o.handles.position_of(h) {
        Some(i) => n.handles.entries@ == o.handles.entries@.remove(i) && n.stack@ == o.stack@.push(Value::Bool(true))
            && n.pending == Some(HostCall::Release { handle: h }),
        None => n.handles.entries@ == o.handles.entries@ && n.stack@ == o.stack@.push(Value::Bool(false)) && n.pending
            == o.pending,
    }
}

impl VM {
    pub(crate) fn file_write(&mut self, h: HandleId) -> (r: Result<(), VmError>)
        requires
            old(self).wf(),
        ensures
            final(self).wf(),
            file_write_step(*old(self), h, *final(self), r),
    {
        let data = match self.stack.pop() {
            Some(v) => v,
            None => return Err(VmError::StackUnderflow),
        };
        let (path, strategy, attached) = match self.handles.get(h) {
            Some(IoHandle::File { path, strategy, attached, .. }) => (path.clone(), *strategy, *attached),
            _ => return Ok(()),
        };
        let bytes = value_bytes(&data);
        self.pending = Some(
            HostCall::FileWrite { handle: h, path, data: bytes, attached: strategy == IoStrategy::Seek && attached },
        );
        Ok(())
    }

    pub(crate) fn file_seek(&mut self, h: HandleId, offset: Value) -> (r: Result<(), VmError>)
        requires
            old(self).wf(),
        ensures
            final(self).wf(),
            file_seek_step(*old(self), h, offset, *final(self), r),
    {
        let off: u64 = match offset {
            Value::Int(n) => n as u64,
            _ => 0,
        };
        let attached = match self.handles.get(h) {
            Some(IoHandle::File { attached, .. }) => Some(*attached),
            _ => None,
        };
        if let Some(att) = attached {
            let ghost t0 = self.handles;
            let ghost i = choose|i: int|
                0 <= i < t0.entries@.len() && (#[trigger] t0.entries@[i]).0 == h && t0.entries@[i].1 is File;
            proof {
                t0.lemma_position_of(h, i);
            }
            match self.handles.get_mut(h) {
                Some(handle) => {
                    proof {
                        let j = choose|j: int|
                            0 <= j < t0.entries@.len() && (#[trigger] t0.entries@[j]).0 == h && t0.entries@[j].1
                                == *handle;
                        t0.lemma_position_of(h, j);
                    }
                    match handle {
                        IoHandle::File { position, .. } => {
                            *position = off;
                        },
                        _ => {},
                    }
                },
                None => {},
            }
            proof {
                let x = self.handles.entries@[i].1;
                let o = t0.entries@[i].1;
                assert(self.handles.entries@ =~= t0.entries@.update(i, (h, x)));
                assert(x is File);
                assert(x->File_position == off);
                assert(x->File_path == o->File_path);
                assert(x->File_mode == o->File_mode);
                assert(x->File_strategy == o->File_strategy);
                assert(x->File_attached == o->File_attached);
                assert(x->File_cached == o->File_cached);
                assert(x@ == HandleRecord::File {
                    path: o->File_path@,
                    mode: o->File_mode,
                    position: off,
                    strategy: o->File_strategy,
                    attached: o->File_attached,
                    cached: crate::io::opt_bytes(o->File_cached),
                });
            }
            if att {
                self.pending = Some(HostCall::FileSeek { handle: h, offset: off });
            }
        }
        self.stack.push(Value::Int(off as i64));
        Ok(())
    }

    pub(crate) fn close(&mut self, h: HandleId) -> (r: Result<(), VmError>)
        requires
            old(self).wf(),
        ensures
            final(self).wf(),
            close_step(*old(self), h, *final(self), r),
    {
        let removed = self.close_handle(h);
        self.stack.push(Value::Bool(removed));
        if removed {
            self.pending = Some(HostCall::Release { handle: h });
        }
        Ok(())
    }
}

} // verus!

verus! {

/// The error of a TCP read / write on handle `h` before any I/O, if any.
pub open spec fn tcp_check(t: HandleTable, h: HandleId) -> Option<Seq<char>> {
    match find_handle(t, h) {
        None => Some("invalid TCP handle"@),
        Some(IoHandle::TcpStream { connected, .. }) => if connected {
            None
        } else {
            Some("TCP stream not connected"@)
        },
        Some(_) => Some("handle is not a TcpStream"@),
    }
}

/// `r` is an I/O error with message `m`.
pub open spec fn io_error(r: Result<(), VmError>, m: Seq<char>) -> bool {
    r matches Err(VmError::IoError(s)) && s@ == m
}

/// What `TcpConnect { addr }` does: the host connects to the address text.
pub open spec fn tcp_connect_step(o: VM, addr: Value, n: VM, r: Result<(), VmError>) -> bool {
    &&& r is Ok
    &&& same_but_stack_pending(o, n)
    &&& n.stack == o.stack
    &&& n.pending matches Some(HostCall::TcpConnect { addr: a }) && text_view(a) == spec_value_text(o.heap, addr)
}

/// What `TcpRead(h)` does: after the handle checks, the host reads.
pub open spec fn tcp_read_step(o: VM, h: HandleId, n: VM, r: Result<(), VmError>) -> bool {
    &&& same_but_stack_pending(o, n)
    &&& n.stack == o.stack
    &&& match tcp_check(o.handles, h) {
        Some(m) => io_error(r, m) && n.pending == o.pending,
        None => r is Ok && n.pending == Some(HostCall::TcpRead { handle: h }),
    }
}

/// What `TcpWrite(h)` does: pop the data; after the handle checks, the host
/// writes its bytes.
pub open spec fn tcp_write_step(o: VM, h: HandleId, n: VM, r: Result<(), VmError>) -> bool {
    let s = o.stack@;
    &&& same_but_stack_pending(o, n)
    &&& if s.len() == 0 {
        r == Err::<(), VmError>(VmError::StackUnderflow) && n.stack@ == s && n.pending == o.pending
    } else {
        &&& n.stack@ == s.drop_last()
        &&& match tcp_check(o.handles, h) {
            Some(m) => io_error(r, m) && n.pending == o.pending,
            None => r is Ok && (n.pending matches Some(HostCall::TcpWrite { handle, data }) && handle == h
                && text_view(data) == spec_value_bytes(s.last())),
        }
    }
}

/// What `HttpGet { url }` does: the host fetches the URL text.
pub open spec fn http_get_step(o: VM, url: Value, n: VM, r: Result<(), VmError>) -> bool {
    &&& r is Ok
    &&& same_but_stack_pending(o, n)
    &&& n.stack == o.stack
    &&& n.pending matches Some(HostCall::HttpGet { url: u }) && text_view(u) == spec_value_text(o.heap, url)
}

/// What `HttpPost { url, body }` does: the host posts the body's bytes to the
/// URL text.
pub open spec fn http_post_step(o: VM, url: Value, body: Value, n: VM, r: Result<(), VmError>) -> bool {
    &&& r is Ok
    &&& same_but_stack_pending(o, n)
    &&& n.stack == o.stack
    &&& n.pending matches Some(HostCall::HttpPost { url: u, body: b }) && text_view(u) == spec_value_text(o.heap, url)
        && text_view(b) == spec_value_bytes(body)
}

impl VM {
    /// The handle checks of a TCP read or write.
    fn tcp_check(&self, h: HandleId) -> (r: Result<(), VmError>)
        requires
            self.wf(),
        ensures
            match tcp_check(self.handles, h) {
                Some(m) => io_error(r, m),
                None => r is Ok,
            },
    {
        match self.handles.get(h) {
            None => Err(VmError::IoError(text("invalid TCP handle"))),
            Some(handle) => {
                proof {
                    let i = choose|i: int|
                        0 <= i < self.handles.entries@.len() && (#[trigger] self.handles.entries@[i]).0 == h
                            && self.handles.entries@[i].1 == *handle;
                    self.handles.lemma_position_of(h, i);
                }
                match handle {
                    IoHandle::TcpStream { connected, .. } => if *connected {
                        Ok(())
                    } else {
                        Err(VmError::IoError(text("TCP stream not connected")))
                    },
                    _ => Err(VmError::IoError(text("handle is not a TcpStream"))),
                }
            },
        }
    }

    pub(crate) fn tcp_connect(&mut self, addr: Value) -> (r: Result<(), VmError>)
        ensures
            tcp_connect_step(*old(self), addr, *final(self), r),
    {
        let a = self.value_text(&addr);
        self.pending = Some(HostCall::TcpConnect { addr: a });
        Ok(())
    }

    pub(crate) fn tcp_read(&mut self, h: HandleId) -> (r: Result<(), VmError>)
        requires
            old(self).wf(),
        ensures
            tcp_read_step(*old(self), h, *final(self), r),
    {
        self.tcp_check(h)?;
        self.pending = Some(HostCall::TcpRead { handle: h });
        Ok(())
    }

    pub(crate) fn tcp_write(&mut self, h: HandleId) -> (r: Result<(), VmError>)
        requires
            old(self).wf(),
        ensures
            tcp_write_step(*old(self), h, *final(self), r),
    {
        let data = match self.stack.pop() {
            Some(v) => v,
            None => return Err(VmError::StackUnderflow),
        };
        let bytes = value_bytes(&data);
        self.tcp_check(h)?;
        self.pending = Some(HostCall::TcpWrite { handle: h, data: bytes });
        Ok(())
    }

    pub(crate) fn http_get(&mut self, url: Value) -> (r: Result<(), VmError>)
        ensures
            http_get_step(*old(self), url, *final(self), r),
    {
        let u = self.value_text(&url);
        self.pending = Some(HostCall::HttpGet { url: u });
        Ok(())
    }

    pub(crate) fn http_post(&mut self, url: Value, body: Value) -> (r: Result<(), VmError>)
        ensures
            http_post_step(*old(self), url, body, *final(self), r),
    {
        let u = self.value_text(&url);
        let b = value_bytes(&body);
        self.pending = Some(HostCall::HttpPost { url: u, body: b });
        Ok(())
    }
}

} // verus!

verus! {

/// The kinds of standard stream.
#[derive(Debug, Clone, Copy, PartialEq, Eq, Structural)]
pub enum Stream {
    In,
    Out,
    Error,
}

pub open spec fn is_stream(h: IoHandle, k: Stream) -> bool {
    match h {
        IoHandle::Stdin { .. } => k == Stream::In,
        IoHandle::Stdout { .. } => k == Stream::Out,
        IoHandle::Stderr { .. } => k == Stream::Error,
        _ => false,
    }
}

/// `i` is the first entry of `e` that is a stream of kind `k`.
pub open spec fn first_at(e: Seq<(HandleId, IoHandle)>, k: Stream, i: int) -> bool {
    &&& 0 <= i < e.len()
    &&& is_stream(e[i].1, k)
    &&& forall|j: int| 0 <= j < i ==> !is_stream(#[trigger] e[j].1, k)
}

/// The position of the first registered stream of kind `k`, if any.
pub open spec fn first_stream(e: Seq<(HandleId, IoHandle)>, k: Stream) -> Option<int> {
    if exists|i: int| first_at(e, k, i) {
        Some(choose|i: int| first_at(e, k, i))
    } else {
        None
    }
}

/// The buffer of a standard-stream handle.
pub open spec fn stream_buffer(h: IoHandle) -> Seq<u8> {
    match h {
        IoHandle::Stdin { buffer } => buffer@,
        IoHandle::Stdout { buffer } => buffer@,
        IoHandle::Stderr { buffer } => buffer@,
        _ => Seq::empty(),
    }
}

/// The record of a stream handle of kind `k` with buffer `b`.
pub open spec fn stream_record(k: Stream, b: Seq<u8>) -> HandleRecord {
    match k {
        Stream::In => HandleRecord::Stdin { buffer: b },
        Stream::Out => HandleRecord::Stdout { buffer: b },
        Stream::Error => HandleRecord::Stderr { buffer: b },
    }
}

/// `n` is `o` with `bytes` appended to the first stream of kind `k`, if any.
pub open spec fn appended(o: HandleTable, n: HandleTable, k: Stream, bytes: Seq<u8>) -> bool {
    match first_stream(o.entries@, k) {
        Some(i) => exists|x: IoHandle|
            #[trigger] x@ == stream_record(k, stream_buffer(o.entries@[i].1) + bytes) && n.entries@
                == o.entries@.update(i, (o.entries@[i].0, x)),
        None => n.entries@ == o.entries@,
    }
}

/// What `StdinRead` does: the first standard-input handle's buffer is pushed
/// as a list of bytes; without one, `Null`.
pub open spec fn stdin_read_step(o: VM, n: VM, r: Result<(), VmError>) -> bool {
    &&& r is Ok
    &&& same_but_io(o, n)
    &&& n.handles == o.handles
    &&& n.next_handle_id == o.next_handle_id
    &&& n.pending == o.pending
    &&& match first_stream(o.handles.entries@, Stream::In) {
        Some(i) => heap_allocs(o.heap, n.heap, HeapObject::List(ListObj { elements: n.heap.objects()[next_slot(o.heap) as int]->List_0.elements }))
            && n.heap.objects()[next_slot(o.heap) as int]->List_0.elements@ == byte_values(
            stream_buffer(o.handles.entries@[i].1),
        ) && n.stack@ == o.stack@.push(Value::List(crate::heap::Gc::new_spec(next_slot(o.heap)))),
        None => n.heap == o.heap && n.stack@ == o.stack@.push(Value::Null),
    }
}

/// What `StdoutWrite` / `StderrWrite` do: pop the data and append its bytes
/// to the first handle of that stream; a float's text comes from the host.
pub open spec fn stream_write_step(o: VM, k: Stream, n: VM, r: Result<(), VmError>) -> bool {
    let s = o.stack@;
    &&& same_but_io(o, n)
    &&& n.heap == o.heap
    &&& n.next_handle_id == o.next_handle_id
    &&& if s.len() == 0 {
        r == Err::<(), VmError>(VmError::StackUnderflow) && n.stack@ == s && n.handles == o.handles && n.pending
            == o.pending
    } else {
        &&& r is Ok
        &&& n.stack@ == s.drop_last()
        &&& match spec_value_bytes(s.last()) {
            TextView::Float(bits) => n.handles == o.handles && n.pending == Some(
                HostCall::StreamText { data: bits, to_stderr: k == Stream::Error },
            ),
            TextView::Ready(b) => appended(o.handles, n.handles, k, b) && n.pending == o.pending,
        }
    }
}

/// The position of the first stream handle of kind `k`.
fn find_stream(t: &HandleTable, k: Stream) -> (r: Option<usize>)
    ensures
        match r {
            Some(i) => first_at(t.entries@, k, i as int) && first_stream(t.entries@, k) == Some(i as int),
            None => first_stream(t.entries@, k) is None,
        },
{
    let mut i: usize = 0;
    while i < t.entries.len()
        invariant
            i <= t.entries@.len(),
            forall|j: int| 0 <= j < i ==> !is_stream(#[trigger] t.entries@[j].1, k),
        decreases t.entries@.len() - i,
    {
        let hit = match &t.entries[i].1 {
            IoHandle::Stdin { .. } => k == Stream::In,
            IoHandle::Stdout { .. } => k == Stream::Out,
            IoHandle::Stderr { .. } => k == Stream::Error,
            _ => false,
        };
        if hit {
            proof {
                assert(is_stream(t.entries@[i as int].1, k));
                assert(first_at(t.entries@, k, i as int));
                let c = choose|c: int| first_at(t.entries@, k, c);
                if c < i {
                    assert(!is_stream(t.entries@[c].1, k));
                } else if c > i {
                    assert(!is_stream(t.entries@[i as int].1, k));
                }
            }
            return Some(i);
        }
        i = i + 1;
    }
    None
}

impl VM {
    /// Append `bytes` to the buffer of the first stream handle of kind `k`.
    fn append_stream(&mut self, k: Stream, bytes: &Vec<u8>)
        requires
            old(self).wf(),
        ensures
            final(self).wf(),
            appended(old(self).handles, final(self).handles, k, bytes@),
            same_but_io(*old(self), *final(self)),
            final(self).heap == old(self).heap,
            final(self).stack == old(self).stack,
            final(self).pending == old(self).pending,
            final(self).next_handle_id == old(self).next_handle_id,
    {
        match find_stream(&self.handles, k) {
            Some(i) => {
                let ghost t0 = self.handles;
                let id = self.handles.entries[i].0;
                match self.handles.get_mut(id) {
                    Some(handle) => {
                        proof {
                            t0.lemma_position_of(id, i as int);
                            let j = choose|j: int|
                                0 <= j < t0.entries@.len() && (#[trigger] t0.entries@[j]).0 == id && t0.entries@[j].1
                                    == *handle;
                            t0.lemma_position_of(id, j);
                        }
                        match handle {
                            IoHandle::Stdin { buffer } => crate::wire::push_bytes(buffer, bytes.as_slice()),
                            IoHandle::Stdout { buffer } => crate::wire::push_bytes(buffer, bytes.as_slice()),
                            IoHandle::Stderr { buffer } => crate::wire::push_bytes(buffer, bytes.as_slice()),
                            _ => {},
                        }
                    },
                    None => {},
                }
                proof {
                    let x = self.handles.entries@[i as int].1;
                    assert(self.handles.entries@ =~= t0.entries@.update(i as int, (id, x)));
                    assert(x@ == stream_record(k, stream_buffer(t0.entries@[i as int].1) + bytes@));
                }
            },
            None => {},
        }
    }

    pub(crate) fn stdin_read(&mut self) -> (r: Result<(), VmError>)
        requires
            old(self).wf(),
        ensures
            final(self).wf(),
            stdin_read_step(*old(self), *final(self), r),
    {
        match find_stream(&self.handles, Stream::In) {
            Some(i) => {
                let buffer = match &self.handles.entries[i].1 {
                    IoHandle::Stdin { buffer } => buffer.clone(),
                    _ => Vec::new(),
                };
                self.push_byte_list(&buffer);
                Ok(())
            },
            None => {
                self.stack.push(Value::Null);
                Ok(())
            },
        }
    }

    pub(crate) fn stream_write(&mut self, k: Stream) -> (r: Result<(), VmError>)
        requires
            old(self).wf(),
            k != Stream::In,
        ensures
            final(self).wf(),
            stream_write_step(*old(self), k, *final(self), r),
    {
        let data = match self.stack.pop() {
            Some(v) => v,
            None => return Err(VmError::StackUnderflow),
        };
        match value_bytes(&data) {
            HostText::Float(bits) => {
                self.pending = Some(HostCall::StreamText { data: bits, to_stderr: k == Stream::Error });
                Ok(())
            },
            HostText::Ready(b) => {
                self.append_stream(k, &b);
                Ok(())
            },
        }
    }
}

} // verus!

verus! {

use crate::serialize::text_of;
use crate::vm::HostReply;
use crate::io::HttpMethod;

/// The text a request's operand stands for: the machine's own text when it
/// had one, otherwise the text the host echoed.
pub open spec fn host_text(t: HostText, echo: Seq<u8>) -> Seq<char> {
    match t {
        HostText::Ready(b) => text_of(b@),
        HostText::Float(_) => text_of(echo),
    }
}

/// The bytes a request's operand stands for.
pub open spec fn host_bytes(t: HostText, echo: Seq<u8>) -> Seq<u8> {
    match t {
        HostText::Ready(b) => b@,
        HostText::Float(_) => echo,
    }
}

/// The handles are unchanged, but for `h`, which (when it is a file) has
/// position `pos` (or keeps its own when `None`) and cached data `data`.
pub open spec fn file_updated(o: HandleTable, n: HandleTable, h: HandleId, pos: Option<u64>, data: Seq<u8>) -> bool {
    match find_handle(o, h) {
        Some(IoHandle::File { path, mode, position, strategy, attached, .. }) => replaces(
            o,
            n,
            h,
            HandleRecord::File {
                path: path@,
                mode,
                position: match pos {
                    Some(p) => p,
                    None => position,
                },
                strategy,
                attached,
                cached: Some(data),
            },
        ),
        _ => n.entries@ == o.entries@,
    }
}

/// The handles are unchanged, but for `h`, which (when it is a socket) has
/// its last request (when `request`) or last response set to `data`.
pub open spec fn tcp_updated(o: HandleTable, n: HandleTable, h: HandleId, request: bool, data: Seq<u8>) -> bool {
    match find_handle(o, h) {
        Some(IoHandle::TcpStream { addr, strategy, connected, last_request, last_response }) => replaces(
            o,
            n,
            h,
            HandleRecord::TcpStream {
                addr: addr@,
                strategy,
                connected,
                last_request: if request {
                    Some(data)
                } else {
                    crate::io::opt_bytes(last_request)
                },
                last_response: if request {
                    crate::io::opt_bytes(last_response)
                } else {
                    Some(data)
                },
            },
        ),
        _ => n.entries@ == o.entries@,
    }
}

impl VM {
    /// Set a file handle's cached data (and position, when given).
    fn update_file(&mut self, h: HandleId, pos: Option<u64>, data: Vec<u8>)
        requires
            old(self).wf(),
        ensures
            final(self).wf(),
            file_updated(old(self).handles, final(self).handles, h, pos, data@),
            same_but_io(*old(self), *final(self)),
            final(self).heap == old(self).heap,
            final(self).stack == old(self).stack,
            final(self).pending == old(self).pending,
            final(self).next_handle_id == old(self).next_handle_id,
    {
        let is_file = match self.handles.get(h) {
            Some(IoHandle::File { .. }) => true,
            _ => false,
        };
        if !is_file {
            return;
        }
        let ghost t0 = self.handles;
        let ghost i = choose|i: int|
            0 <= i < t0.entries@.len() && (#[trigger] t0.entries@[i]).0 == h && t0.entries@[i].1 is File;
        proof {
            t0.lemma_position_of(h, i);
        }
        let ghost d = data@;
        match self.handles.get_mut(h) {
            Some(handle) => {
                proof {
                    let j = choose|j: int|
                        0 <= j < t0.entries@.len() && (#[trigger] t0.entries@[j]).0 == h && t0.entries@[j].1 == *handle;
                    t0.lemma_position_of(h, j);
                }
                match handle {
                    IoHandle::File { position, cached, .. } => {
                        if let Some(p) = pos {
                            *position = p;
                        }
                        *cached = Some(data);
                    },
                    _ => {},
                }
            },
            None => {},
        }
        proof {
            let x = self.handles.entries@[i].1;
            let o = t0.entries@[i].1;
            assert(self.handles.entries@ =~= t0.entries@.update(i, (h, x)));
            assert(x@ == HandleRecord::File {
                path: o->File_path@,
                mode: o->File_mode,
                position: match pos {
                    Some(p) => p,
                    None => o->File_position,
                },
                strategy: o->File_strategy,
                attached: o->File_attached,
                cached: Some(d),
            });
        }
    }

    /// Set a socket handle's last request or response.
    fn update_tcp(&mut self, h: HandleId, request: bool, data: Vec<u8>)
        requires
            old(self).wf(),
        ensures
            final(self).wf(),
            tcp_updated(old(self).handles, final(self).handles, h, request, data@),
            same_but_io(*old(self), *final(self)),
            final(self).heap == old(self).heap,
            final(self).stack == old(self).stack,
            final(self).pending == old(self).pending,
            final(self).next_handle_id == old(self).next_handle_id,
    {
        let is_tcp = match self.handles.get(h) {
            Some(IoHandle::TcpStream { .. }) => true,
            _ => false,
        };
        if !is_tcp {
            return;
        }
        let ghost t0 = self.handles;
        let ghost i = choose|i: int|
            0 <= i < t0.entries@.len() && (#[trigger] t0.entries@[i]).0 == h && t0.entries@[i].1 is TcpStream;
        proof {
            t0.lemma_position_of(h, i);
        }
        let ghost d = data@;
        match self.handles.get_mut(h) {
            Some(handle) => {
                proof {
                    let j = choose|j: int|
                        0 <= j < t0.entries@.len() && (#[trigger] t0.entries@[j]).0 == h && t0.entries@[j].1 == *handle;
                    t0.lemma_position_of(h, j);
                }
                match handle {
                    IoHandle::TcpStream { last_request, last_response, .. } => {
                        if request {
                            *last_request = Some(data);
                        } else {
                            *last_response = Some(data);
                        }
                    },
                    _ => {},
                }
            },
            None => {},
        }
        proof {
            let x = self.handles.entries@[i].1;
            let o = t0.entries@[i].1;
            assert(self.handles.entries@ =~= t0.entries@.update(i, (h, x)));
            assert(x@ == HandleRecord::TcpStream {
                addr: o->TcpStream_addr@,
                strategy: o->TcpStream_strategy,
                connected: o->TcpStream_connected,
                last_request: if request {
                    Some(d)
                } else {
                    crate::io::opt_bytes(o->TcpStream_last_request)
                },
                last_response: if request {
                    crate::io::opt_bytes(o->TcpStream_last_response)
                } else {
                    Some(d)
                },
            });
        }
    }
}

} // verus!

verus! {

/// `n` is `o` with only the stack, heap, handles or handle counter changed
/// as the clauses beside it say; everything else of the machine is kept.
pub open spec fn keeps_machine(o: VM, n: VM) -> bool {
    &&& same_but_io(o, n)
    &&& n.pending is None
}

/// Nothing but the pending call changed.
pub open spec fn only_cleared(o: VM, n: VM) -> bool {
    &&& keeps_machine(o, n)
    &&& n.stack == o.stack
    &&& n.heap == o.heap
    &&& n.handles == o.handles
    &&& n.next_handle_id == o.next_handle_id
}

/// A handle of record `rec` was registered under the next id (the id is not
/// pushed).
pub open spec fn handle_added(o: VM, n: VM, rec: HandleRecord) -> bool {
    &&& registers(o.handles, n.handles, HandleId(o.next_handle_id), rec)
    &&& n.next_handle_id == o.next_handle_id.wrapping_add(1)
}

/// A list of the bytes `b` was allocated (no collection) and pushed.
pub open spec fn pushed_bytes(o: VM, n: VM, b: Seq<u8>) -> bool {
    &&& heap_allocs(o.heap, n.heap, HeapObject::List(ListObj { elements: n.heap.objects()[next_slot(o.heap) as int]->List_0.elements }))
    &&& n.heap.objects()[next_slot(o.heap) as int]->List_0.elements@ == byte_values(b)
    &&& n.stack@ == o.stack@.push(Value::List(crate::heap::Gc::new_spec(next_slot(o.heap))))
}

/// A string of text `t` was allocated (no collection) and pushed.
pub open spec fn pushed_string(h0: Heap, s0: Seq<Value>, n: VM, t: Seq<char>) -> bool {
    &&& heap_allocs(h0, n.heap, HeapObject::String(StringObj { data: n.heap.objects()[next_slot(h0) as int]->String_0.data }))
    &&& n.heap.objects()[next_slot(h0) as int]->String_0.data@ == t
    &&& n.stack@ == s0.push(Value::String(crate::heap::Gc::new_spec(next_slot(h0))))
}

/// What `VM::complete` does with the host's answer to the pending call.
pub open spec fn complete_step(o: VM, reply: HostReply, n: VM, r: Result<(), VmError>) -> bool {
    &&& keeps_machine(o, n)
    &&& match o.pending {
        None => only_cleared(o, n) && io_error(r, "no host call is pending"@),
        Some(call) => match (call, reply) {
            (HostCall::FloatBinary { .. }, HostReply::Value(v)) => r is Ok && n.stack@ == o.stack@.push(v) && n.heap
                == o.heap && n.handles == o.handles && n.next_handle_id == o.next_handle_id,
            (HostCall::FloatNeg { .. }, HostReply::Value(v)) => r is Ok && n.stack@ == o.stack@.push(v) && n.heap
                == o.heap && n.handles == o.handles && n.next_handle_id == o.next_handle_id,
            (HostCall::FilePath { mode, .. }, HostReply::Text(t)) => r is Ok && n.heap == o.heap && opened_file(
                o,
                n,
                text_of(t@),
                mode,
            ),
            (HostCall::FileRead { handle, position, attached, seek, .. }, HostReply::Bytes(b)) => r is Ok
                && file_updated(
                o.handles,
                n.handles,
                handle,
                if seek && !attached {
                    Some(position.wrapping_add(b@.len() as u64))
                } else {
                    None
                },
                b@,
            ) && pushed_bytes(o, n, b@) && n.next_handle_id == o.next_handle_id,
            (HostCall::FileRead { .. }, HostReply::Failed(_)) => only_cleared(o, n) && r == Err::<(), VmError>(
                VmError::HeapError(crate::vm::HeapError::InvalidHandle),
            ),
            (HostCall::FileWrite { handle, .. }, HostReply::Bytes(w)) => r is Ok && n.stack == o.stack && n.heap
                == o.heap && n.next_handle_id == o.next_handle_id && match find_handle(o.handles, handle) {
                Some(IoHandle::File { strategy, .. }) => if strategy == IoStrategy::Cached {
                    file_updated(o.handles, n.handles, handle, None, w@)
                } else {
                    n.handles == o.handles
                },
                _ => n.handles == o.handles,
            },
            (HostCall::FileWrite { .. }, HostReply::Failed(_)) => only_cleared(o, n) && r == Err::<(), VmError>(
                VmError::HeapError(crate::vm::HeapError::InvalidHandle),
            ),
            (HostCall::FileSeek { .. }, HostReply::Done) => only_cleared(o, n) && r is Ok,
            (HostCall::Release { .. }, HostReply::Done) => only_cleared(o, n) && r is Ok,
            (HostCall::TcpConnect { addr }, HostReply::Connected(t)) => r is Ok && n.heap == o.heap && registers(
                o.handles,
                n.handles,
                HandleId(o.next_handle_id),
                HandleRecord::TcpStream {
                    addr: host_text(addr, t@),
                    strategy: IoStrategy::Replay,
                    connected: true,
                    last_request: None,
                    last_response: None,
                },
            ) && n.next_handle_id == o.next_handle_id.wrapping_add(1) && n.stack@ == o.stack@.push(
                Value::Int(o.next_handle_id as i64),
            ),
            (HostCall::TcpConnect { addr }, HostReply::Refused { target, reason }) => only_cleared(o, n) && io_error(
                r,
                "TCP connect to "@ + host_text(addr, target@) + ": "@ + text_of(reason@),
            ),
            (HostCall::TcpRead { handle }, HostReply::Bytes(b)) => r is Ok && tcp_updated(
                o.handles,
                n.handles,
                handle,
                false,
                b@,
            ) && pushed_bytes(o, n, b@) && n.next_handle_id == o.next_handle_id,
            (HostCall::TcpRead { .. }, HostReply::Failed(reason)) => only_cleared(o, n) && io_error(
                r,
                "TCP read: "@ + text_of(reason@),
            ),
            (HostCall::TcpWrite { handle, data }, HostReply::Bytes(w)) => r is Ok && n.stack == o.stack && n.heap
                == o.heap && n.next_handle_id == o.next_handle_id && tcp_updated(
                o.handles,
                n.handles,
                handle,
                true,
                host_bytes(data, w@),
            ),
            (HostCall::TcpWrite { .. }, HostReply::Failed(reason)) => only_cleared(o, n) && io_error(
                r,
                "TCP write: "@ + text_of(reason@),
            ),
            (HostCall::HttpGet { url }, HostReply::Fetched { url: u, body, .. }) => r is Ok && handle_added(
                o,
                n,
                HandleRecord::HttpConnection {
                    url: host_text(url, u@),
                    method: HttpMethod::Get,
                    body: None,
                    last_response: Some(body@),
                    strategy: IoStrategy::Replay,
                },
            ) && pushed_string(o.heap, o.stack@, n, text_of(body@)),
            (HostCall::HttpGet { url }, HostReply::Refused { target, reason }) => only_cleared(o, n) && io_error(
                r,
                "HTTP GET "@ + host_text(url, target@) + ": "@ + text_of(reason@),
            ),
            (HostCall::HttpPost { url, body }, HostReply::Fetched { url: u, sent, body: resp }) => r is Ok
                && handle_added(
                o,
                n,
                HandleRecord::HttpConnection {
                    url: host_text(url, u@),
                    method: HttpMethod::Post,
                    body: Some(host_bytes(body, sent@)),
                    last_response: Some(resp@),
                    strategy: IoStrategy::Replay,
                },
            ) && pushed_string(o.heap, o.stack@, n, text_of(resp@)),
            (HostCall::HttpPost { url, .. }, HostReply::Refused { target, reason }) => only_cleared(o, n)
                && io_error(r, "HTTP POST "@ + host_text(url, target@) + ": "@ + text_of(reason@)),
            (HostCall::StreamText { to_stderr, .. }, HostReply::Text(t)) => r is Ok && n.stack == o.stack && n.heap
                == o.heap && n.next_handle_id == o.next_handle_id && appended(
                o.handles,
                n.handles,
                if to_stderr {
                    Stream::Error
                } else {
                    Stream::Out
                },
                t@,
            ),
            _ => only_cleared(o, n) && io_error(r, "host reply does not answer the pending call"@),
        },
    }
}

/// The text of a request operand: the machine's own, or the host's echo.
fn text_from(t: &HostText, echo: &Vec<u8>) -> (s: String)
    ensures
        s@ == host_text(*t, echo@),
{
    match t {
        HostText::Ready(b) => crate::serialize::string_from_utf8_lossy(b.as_slice()),
        HostText::Float(_) => crate::serialize::string_from_utf8_lossy(echo.as_slice()),
    }
}

/// The bytes of a request operand: the machine's own, or the host's echo.
fn bytes_from(t: &HostText, echo: &Vec<u8>) -> (b: Vec<u8>)
    ensures
        b@ == host_bytes(*t, echo@),
{
    match t {
        HostText::Ready(b) => b.clone(),
        HostText::Float(_) => echo.clone(),
    }
}

/// `prefix` + `a` as an I/O error.
fn io_error_with(prefix: &str, a: String) -> (e: VmError)
    ensures
        e matches VmError::IoError(s) && s@ == prefix@ + a@,
{
    let mut s = String::from_str(prefix);
    s.append(a.as_str());
    VmError::IoError(s)
}

/// `prefix` + `a` + `sep` + `b` as an I/O error.
fn io_error_of(prefix: &str, a: String, sep: &str, b: String) -> (e: VmError)
    ensures
        e matches VmError::IoError(s) && s@ == prefix@ + a@ + sep@ + b@,
{
    let mut s = String::from_str(prefix);
    s.append(a.as_str());
    s.append(sep);
    s.append(b.as_str());
    VmError::IoError(s)
}

} // verus!

verus! {

impl VM {
    /// Finish the pending host call with the host's answer; the call is no
    /// longer pending afterwards, whatever the outcome.
    pub fn complete(&mut self, reply: HostReply) -> (r: Result<(), VmError>)
        requires
            old(self).wf(),
        ensures
            final(self).wf(),
            complete_step(*old(self), reply, *final(self), r),
    {
        let call = match self.pending.take() {
            Some(c) => c,
            None => return Err(VmError::IoError(text("no host call is pending"))),
        };
        match (call, reply) {
            (HostCall::FloatBinary { .. }, HostReply::Value(v)) => {
                self.stack.push(v);
                assert(complete_step(*old(self), reply, *self, Ok(())));
                Ok(())
            },
            (HostCall::FloatNeg { .. }, HostReply::Value(v)) => {
                self.stack.push(v);
                Ok(())
            },
            (HostCall::FilePath { mode, .. }, HostReply::Text(t)) => {
                let path = crate::serialize::string_from_utf8_lossy(t.as_slice());
                let handle = IoHandle::File {
                    path,
                    mode,
                    position: 0,
                    strategy: IoStrategy::Seek,
                    attached: false,
                    cached: None,
                };
                let r = self.open_handle(handle);
                assert(opened_file(*old(self), *self, text_of(t@), mode));
                assert(complete_step(*old(self), reply, *self, r));
                r
            },
            (HostCall::FileRead { handle, position, attached, seek, .. }, HostReply::Bytes(b)) => {
                let pos = if seek && !attached {
                    Some(position.wrapping_add(b.len() as u64))
                } else {
                    None
                };
                let ghost h0 = self.heap;
                let ghost s0 = self.stack@;
                self.update_file(handle, pos, b.clone());
                self.push_byte_list(&b);
                assert(file_updated(old(self).handles, self.handles, handle, pos, b@));
                assert(pushed_bytes(*old(self), *self, b@));
                assert(keeps_machine(*old(self), *self));
                assert(complete_step(*old(self), reply, *self, Ok(())));
                Ok(())
            },
            (HostCall::FileRead { .. }, HostReply::Failed(_)) => Err(
                VmError::HeapError(crate::vm::HeapError::InvalidHandle),
            ),
            (HostCall::FileWrite { handle, .. }, HostReply::Bytes(w)) => {
                let cached = match self.handles.get(handle) {
                    Some(hh) => {
                        proof {
                            let i = choose|i: int|
                                0 <= i < self.handles.entries@.len() && (#[trigger] self.handles.entries@[i]).0
                                    == handle && self.handles.entries@[i].1 == *hh;
                            self.handles.lemma_position_of(handle, i);
                        }
                        match hh {
                            IoHandle::File { strategy, .. } => *strategy == IoStrategy::Cached,
                            _ => false,
                        }
                    },
                    None => false,
                };
                if cached {
                    self.update_file(handle, None, w);
                }
                assert(complete_step(*old(self), reply, *self, Ok(())));
                Ok(())
            },
            (HostCall::FileWrite { .. }, HostReply::Failed(_)) => Err(
                VmError::HeapError(crate::vm::HeapError::InvalidHandle),
            ),
            (HostCall::FileSeek { .. }, HostReply::Done) => Ok(()),
            (HostCall::Release { .. }, HostReply::Done) => Ok(()),
            (HostCall::TcpConnect { addr }, HostReply::Connected(t)) => {
                let a = text_from(&addr, &t);
                let handle = IoHandle::TcpStream {
                    addr: a,
                    strategy: IoStrategy::Replay,
                    connected: true,
                    last_request: None,
                    last_response: None,
                };
                let r = self.open_handle(handle);
                assert(self.stack@ == old(self).stack@.push(Value::Int(old(self).next_handle_id as i64)));
                assert(registers(
                    old(self).handles,
                    self.handles,
                    HandleId(old(self).next_handle_id),
                    HandleRecord::TcpStream {
                        addr: host_text(addr, t@),
                        strategy: IoStrategy::Replay,
                        connected: true,
                        last_request: None,
                        last_response: None,
                    },
                ));
                r
            },
            (HostCall::TcpConnect { addr }, HostReply::Refused { target, reason }) => {
                let a = text_from(&addr, &target);
                let why = crate::serialize::string_from_utf8_lossy(reason.as_slice());
                let e = io_error_of("TCP connect to ", a, ": ", why);
                assert(io_error(Err(e), "TCP connect to "@ + host_text(addr, target@) + ": "@ + text_of(reason@)));
                Err(e)
            },
            (HostCall::TcpRead { handle }, HostReply::Bytes(b)) => {
                self.update_tcp(handle, false, b.clone());
                self.push_byte_list(&b);
                assert(tcp_updated(old(self).handles, self.handles, handle, false, b@));
                assert(pushed_bytes(*old(self), *self, b@));
                assert(complete_step(*old(self), reply, *self, Ok(())));
                Ok(())
            },
            (HostCall::TcpRead { .. }, HostReply::Failed(reason)) => {
                let why = crate::serialize::string_from_utf8_lossy(reason.as_slice());
                Err(io_error_with("TCP read: ", why))
            },
            (HostCall::TcpWrite { handle, data }, HostReply::Bytes(w)) => {
                let sent = bytes_from(&data, &w);
                self.update_tcp(handle, true, sent);
                assert(complete_step(*old(self), reply, *self, Ok(())));
                Ok(())
            },
            (HostCall::TcpWrite { .. }, HostReply::Failed(reason)) => {
                let why = crate::serialize::string_from_utf8_lossy(reason.as_slice());
                Err(io_error_with("TCP write: ", why))
            },
            (HostCall::HttpGet { url }, HostReply::Fetched { url: u, body, .. }) => {
                let url_text = text_from(&url, &u);
                let text_body = crate::serialize::string_from_utf8_lossy(body.as_slice());
                let handle = IoHandle::HttpConnection {
                    url: url_text,
                    method: HttpMethod::Get,
                    body: None,
                    last_response: Some(body),
                    strategy: IoStrategy::Replay,
                };
                let ghost hv = handle;
                assert(hv@ == HandleRecord::HttpConnection {
                    url: host_text(url, u@),
                    method: HttpMethod::Get,
                    body: None,
                    last_response: Some(body@),
                    strategy: IoStrategy::Replay,
                });
                self.create_handle(handle);
                proof {
                    self.heap.lemma_free_distinct();
                }
                let gc = self.heap.alloc_string(text_body);
                self.stack.push(Value::String(gc));
                assert(pushed_string(old(self).heap, old(self).stack@, *self, text_of(body@)));
                assert(complete_step(*old(self), reply, *self, Ok(())));
                Ok(())
            },
            (HostCall::HttpGet { url }, HostReply::Refused { target, reason }) => {
                let a = text_from(&url, &target);
                let why = crate::serialize::string_from_utf8_lossy(reason.as_slice());
                Err(io_error_of("HTTP GET ", a, ": ", why))
            },
            (HostCall::HttpPost { url, body }, HostReply::Fetched { url: u, sent, body: resp }) => {
                let url_text = text_from(&url, &u);
                let sent_bytes = bytes_from(&body, &sent);
                let text_body = crate::serialize::string_from_utf8_lossy(resp.as_slice());
                let handle = IoHandle::HttpConnection {
                    url: url_text,
                    method: HttpMethod::Post,
                    body: Some(sent_bytes),
                    last_response: Some(resp),
                    strategy: IoStrategy::Replay,
                };
                let ghost hv = handle;
                assert(hv@ == HandleRecord::HttpConnection {
                    url: host_text(url, u@),
                    method: HttpMethod::Post,
                    body: Some(host_bytes(body, sent@)),
                    last_response: Some(resp@),
                    strategy: IoStrategy::Replay,
                });
                self.create_handle(handle);
                proof {
                    self.heap.lemma_free_distinct();
                }
                let gc = self.heap.alloc_string(text_body);
                self.stack.push(Value::String(gc));
                assert(complete_step(*old(self), reply, *self, Ok(())));
                Ok(())
            },
            (HostCall::HttpPost { url, .. }, HostReply::Refused { target, reason }) => {
                let a = text_from(&url, &target);
                let why = crate::serialize::string_from_utf8_lossy(reason.as_slice());
                Err(io_error_of("HTTP POST ", a, ": ", why))
            },
            (HostCall::StreamText { to_stderr, .. }, HostReply::Text(t)) => {
                let k = if to_stderr {
                    Stream::Error
                } else {
                    Stream::Out
                };
                self.append_stream(k, &t);
                assert(appended(old(self).handles, self.handles, k, t@));
                assert(complete_step(*old(self), reply, *self, Ok(())));
                Ok(())
            },
            _ => Err(VmError::IoError(text("host reply does not answer the pending call"))),
        }
    }
}

} // verus!
