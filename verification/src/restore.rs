//! Rebuilding a machine from a snapshot.
//!
//! Restoring reads the heap section into a fresh heap, so the object at
//! position `p` of the section lands in slot `p`; frames, stack and list
//! elements then name their objects by that slot.

use std::collections::HashMap;
use vstd::prelude::*;

use crate::heap::{Gc, Heap, HeapObject, ListObj, StringObj, DEFAULT_GC_THRESHOLD};
use crate::snapshot::{
    frame_is, object_is, parse_frame, parse_frames, parse_heap, parse_object, parse_ref_in, parse_refs,
    read_ref, restored, FrameForm, ObjForm, Snapshot, SnapshotError, TAG_LIST, TAG_STRING,
};
use crate::value::Value;
use crate::vm::{CallFrame, VM};
use crate::wire::u32_at;

verus! {

/// The slots of the first `k` positions of a freshly read heap: position `p`
/// is slot `p`.
pub open spec fn by_position(k: nat) -> Map<u32, usize> {
    Map::new(|p: u32| p < k, |p: u32| p as usize)
}

/// The heap objects are, slot by slot, what the forms describe.
pub open spec fn heap_is(objs: Seq<HeapObject>, forms: Seq<ObjForm>) -> bool {
    &&& objs.len() == forms.len()
    &&& forall|p: int| 0 <= p < forms.len() ==> object_is(#[trigger] objs[p], forms[p])
}

/// The call frames are, one by one, what the forms describe.
pub open spec fn frames_are(fs: Seq<CallFrame>, forms: Seq<FrameForm>) -> bool {
    &&& fs.len() == forms.len()
    &&& forall|p: int| 0 <= p < forms.len() ==> frame_is(#[trigger] fs[p], forms[p])
}

/// Machine `a` is machine `b` with the heap, frames and stack that `objs`,
/// `fs` and `vs` describe, and running.
pub open spec fn restored_vm(b: VM, a: VM, objs: Seq<ObjForm>, fs: Seq<FrameForm>, vs: Seq<Value>) -> bool {
    &&& heap_is(a.heap.objects(), objs)
    &&& a.heap.free().len() == 0
    &&& a.heap.threshold() == DEFAULT_GC_THRESHOLD
    &&& frames_are(a.frames@, fs)
    &&& a.stack@ == vs
    &&& a.running
    &&& a.functions == b.functions
    &&& a.handles == b.handles
    &&& a.snapshot == b.snapshot
    &&& a.task_registry == b.task_registry
    &&& a.current_task_id == b.current_task_id
    &&& a.pending == b.pending
    &&& a.next_handle_id == b.next_handle_id
}

/// What restoring snapshot `s` into machine `o` with code hash `h` does: a
/// different hash is refused; otherwise the snapshot's heap, frames and stack
/// replace the machine's, or the error that reading them meets is returned.
/// On an error the machine is unchanged.
pub open spec fn restore_spec(s: Snapshot, o: VM, h: u64, n: VM, r: Result<(), SnapshotError>) -> bool {
    if h != s.header.code_hash {
        r == Err::<(), SnapshotError>(SnapshotError::CodeMismatch { expected: s.header.code_hash, found: h }) && n == o
    } else {
        match restored(s) {
            Ok((objs, fs, vs)) => r is Ok && restored_vm(o, n, objs, fs, vs),
            Err(e) => r == Err::<(), SnapshotError>(e) && n == o,
        }
    }
}

proof fn lemma_refs_err(d: Seq<u8>, i: nat, n: nat, k: nat)
    requires
        i <= n,
        parse_refs(d, i, k) is Err,
    ensures
        parse_refs(d, n, k) == parse_refs(d, i, k),
    decreases n,
{
    if n > i {
        lemma_refs_err(d, i, (n - 1) as nat, k);
    }
}

proof fn lemma_heap_err(d: Seq<u8>, i: nat, n: nat, k: nat)
    requires
        i <= n,
        parse_heap(d, i, k) is Err,
    ensures
        parse_heap(d, n, k) == parse_heap(d, i, k),
    decreases n,
{
    if n > i {
        lemma_heap_err(d, i, (n - 1) as nat, k);
    }
}

pub(crate) proof fn lemma_frames_err(d: Seq<u8>, i: nat, n: nat, k: nat)
    requires
        i <= n,
        parse_frames(d, i, k) is Err,
    ensures
        parse_frames(d, n, k) == parse_frames(d, i, k),
    decreases n,
{
    if n > i {
        lemma_frames_err(d, i, (n - 1) as nat, k);
    }
}

fn read_count(data: &[u8], pos: &mut usize) -> (r: Result<u32, SnapshotError>)
    ensures
        *old(pos) + 4 <= data@.len() ==> r == Ok::<u32, SnapshotError>(u32_at(data@, *old(pos) as int)) && *final(pos)
            == *old(pos) + 4,
        *old(pos) + 4 > data@.len() ==> r == Err::<u32, SnapshotError>(SnapshotError::UnexpectedEof) && *final(pos)
            == *old(pos),
{
    match crate::wire::read_u32(data, pos) {
        Some(v) => Ok(v),
        None => Err(SnapshotError::UnexpectedEof),
    }
}

impl Snapshot {
    /// Read a value written in the position-reference format, resolving its
    /// heap reference (if any) through `pos_to_gc`.
    fn read_value_ref(data: &[u8], pos: &mut usize, pos_to_gc: &HashMap<u32, usize>, Ghost(k): Ghost<nat>) -> (r: Result<
        Value,
        SnapshotError,
    >)
        requires
            *old(pos) <= data@.len(),
            pos_to_gc@ == by_position(k),
        ensures
            *old(pos) <= *final(pos) <= data@.len(),
            match r {
                Ok(v) => parse_ref_in(data@.skip(*old(pos) as int), k) == Ok::<(Value, nat), SnapshotError>(
                    (v, (*final(pos) - *old(pos)) as nat),
                ),
                Err(e) => parse_ref_in(data@.skip(*old(pos) as int), k) == Err::<(Value, nat), SnapshotError>(e),
            },
    {
        broadcast use vstd::std_specs::hash::group_hash_axioms;

        let v = read_ref(data, pos)?;
        match v {
            Value::String(g) => {
                let p = g.index as u32;
                match pos_to_gc.get(&p) {
                    Some(i) => Ok(Value::String(Gc::new(*i))),
                    None => Err(SnapshotError::InvalidHeapPosition(p)),
                }
            },
            Value::List(g) => {
                let p = g.index as u32;
                match pos_to_gc.get(&p) {
                    Some(i) => Ok(Value::List(Gc::new(*i))),
                    None => Err(SnapshotError::InvalidHeapPosition(p)),
                }
            },
            _ => Ok(v),
        }
    }

    /// Read `count` values in the position-reference format.
    pub(crate) fn read_value_refs(data: &[u8], pos: &mut usize, count: u32, pos_to_gc: &HashMap<u32, usize>, Ghost(k): Ghost<nat>) -> (r:
        Result<Vec<Value>, SnapshotError>)
        requires
            *old(pos) <= data@.len(),
            pos_to_gc@ == by_position(k),
        ensures
            *old(pos) <= *final(pos) <= data@.len(),
            match r {
                Ok(vs) => parse_refs(data@.skip(*old(pos) as int), count as nat, k) == Ok::<
                    (Seq<Value>, nat),
                    SnapshotError,
                >((vs@, (*final(pos) - *old(pos)) as nat)),
                Err(e) => parse_refs(data@.skip(*old(pos) as int), count as nat, k) == Err::<
                    (Seq<Value>, nat),
                    SnapshotError,
                >(e),
            },
    {
        let ghost d = data@.skip(*pos as int);
        let ghost start = *pos;
        let mut out: Vec<Value> = Vec::new();
        let mut i: u32 = 0;
        while i < count
            invariant
                start == *old(pos),
                start <= *pos <= data@.len(),
                d == data@.skip(start as int),
                i <= count,
                pos_to_gc@ == by_position(k),
                parse_refs(d, i as nat, k) == Ok::<(Seq<Value>, nat), SnapshotError>((out@, (*pos - start) as nat)),
            decreases count - i,
        {
            let ghost before = *pos;
            assert(d.skip(before - start) =~= data@.skip(before as int));
            let v = match Snapshot::read_value_ref(data, pos, pos_to_gc, Ghost(k)) {
                Ok(v) => v,
                Err(e) => {
                    proof {
                        lemma_refs_err(d, (i + 1) as nat, count as nat, k);
                    }
                    return Err(e);
                },
            };
            out.push(v);
            i = i + 1;
        }
        Ok(out)
    }

    /// Read one heap object of the heap section, the one at position `k`.
    fn read_heap_object(data: &[u8], pos: &mut usize, pos_to_gc: &HashMap<u32, usize>, Ghost(k): Ghost<nat>) -> (r: Result<
        HeapObject,
        SnapshotError,
    >)
        requires
            *old(pos) <= data@.len(),
            pos_to_gc@ == by_position(k),
        ensures
            *old(pos) <= *final(pos) <= data@.len(),
            match r {
                Ok(o) => parse_object(data@.skip(*old(pos) as int), k) matches Ok((f, m)) && object_is(o, f) && *final(pos)
                    == *old(pos) + m,
                Err(e) => parse_object(data@.skip(*old(pos) as int), k) == Err::<(ObjForm, nat), SnapshotError>(e),
            },
    {
        let ghost d = data@.skip(*pos as int);
        let start = *pos;
        let tag = match crate::wire::read_u8(data, pos) {
            Some(t) => t,
            None => return Err(SnapshotError::UnexpectedEof),
        };
        assert(d[0] == tag);
        if tag == TAG_STRING {
            let len = read_count(data, pos)?;
            assert(d.subrange(1, 5) =~= data@.subrange(start + 1, start + 5));
            let bytes = match crate::wire::read_bytes(data, pos, len as usize) {
                Some(b) => b,
                None => return Err(SnapshotError::UnexpectedEof),
            };
            assert(bytes@ =~= d.subrange(5, 5 + len as int));
            let s = crate::serialize::string_from_utf8_lossy(bytes);
            Ok(HeapObject::String(StringObj { data: s }))
        } else if tag == TAG_LIST {
            let count = read_count(data, pos)?;
            assert(d.subrange(1, 5) =~= data@.subrange(start + 1, start + 5));
            assert(d.skip(5) =~= data@.skip(*pos as int));
            let elements = Snapshot::read_value_refs(data, pos, count, pos_to_gc, Ghost(k))?;
            Ok(HeapObject::List(ListObj { elements }))
        } else {
            Err(SnapshotError::UnknownObjectTag(tag))
        }
    }

    /// Read one call frame.
    pub(crate) fn read_frame(data: &[u8], pos: &mut usize, pos_to_gc: &HashMap<u32, usize>, Ghost(k): Ghost<nat>) -> (r: Result<
        CallFrame,
        SnapshotError,
    >)
        requires
            *old(pos) <= data@.len(),
            pos_to_gc@ == by_position(k),
        ensures
            *old(pos) <= *final(pos) <= data@.len(),
            match r {
                Ok(f) => parse_frame(data@.skip(*old(pos) as int), k) matches Ok((g, m)) && frame_is(f, g) && *final(pos)
                    == *old(pos) + m,
                Err(e) => parse_frame(data@.skip(*old(pos) as int), k) == Err::<(FrameForm, nat), SnapshotError>(e),
            },
    {
        let ghost d = data@.skip(*pos as int);
        let start = *pos;
        let function = read_count(data, pos)?;
        let ip = read_count(data, pos)?;
        let locals_count = read_count(data, pos)?;
        assert(d.subrange(0, 4) =~= data@.subrange(start as int, start + 4));
        assert(d.subrange(4, 8) =~= data@.subrange(start + 4, start + 8));
        assert(d.subrange(8, 12) =~= data@.subrange(start + 8, start + 12));
        assert(d.skip(12) =~= data@.skip(*pos as int));
        let locals = Snapshot::read_value_refs(data, pos, locals_count, pos_to_gc, Ghost(k))?;
        let mut frame = CallFrame::new(function as usize, locals);
        frame.ip = ip as usize;
        Ok(frame)
    }

    /// Restore the machine's heap, frames and stack from this snapshot.
    ///
    /// The code hash of the machine's functions must match the snapshot's.
    /// I/O handles and tasks are left alone (see `restore_io_handles` and
    /// `restore_task_tree`). On any error the machine is unchanged.
    pub fn restore_into(&self, vm: &mut VM, code_hash: u64) -> (r: Result<(), SnapshotError>)
        requires
            old(vm).wf(),
        ensures
            final(vm).wf(),
            restore_spec(*self, *old(vm), code_hash, *final(vm), r),
    {
        broadcast use vstd::std_specs::hash::group_hash_axioms;

        if code_hash != self.header.code_hash {
            return Err(SnapshotError::CodeMismatch { expected: self.header.code_hash, found: code_hash });
        }
        let n = self.header.heap_count;
        // 1. The heap: position `p` goes to slot `p` of a fresh heap.
        let mut heap = Heap::new();
        let mut pos_to_gc: HashMap<u32, usize> = HashMap::new();
        let mut p: u32 = 0;
        assert(pos_to_gc@ =~= by_position(0));
        while p < n
            invariant
                p <= n,
                pos_to_gc@ == by_position(p as nat),
            decreases n - p,
        {
            pos_to_gc.insert(p, p as usize);
            assert(pos_to_gc@ =~= by_position((p + 1) as nat));
            p = p + 1;
        }
        let mut hpos: usize = 0;
        let ghost mut forms: Seq<ObjForm> = Seq::empty();
        let mut pos_idx: u32 = 0;
        while pos_idx < n
            invariant
                n == self.header.heap_count,
                code_hash == self.header.code_hash,
                *vm == *old(vm),
                vm.wf(),
                heap.wf(),
                heap.free().len() == 0,
                heap.threshold() == DEFAULT_GC_THRESHOLD,
                heap_is(heap.objects(), forms),
                pos_idx <= n,
                forms.len() == pos_idx,
                heap.objects().len() == pos_idx,
                pos_to_gc@ == by_position(n as nat),
                hpos <= self.heap_data@.len(),
                parse_heap(self.heap_data@, pos_idx as nat, n as nat) == Ok::<(Seq<ObjForm>, nat), SnapshotError>(
                    (forms, hpos as nat),
                ),
            decreases n - pos_idx,
        {
            let ghost before = hpos;
            let obj = match Snapshot::read_heap_object(&self.heap_data, &mut hpos, &pos_to_gc, Ghost(n as nat)) {
                Ok(o) => o,
                Err(e) => {
                    proof {
                        lemma_heap_err(self.heap_data@, (pos_idx + 1) as nat, n as nat, n as nat);
                    }
                    return Err(e);
                },
            };
            let ghost f = parse_object(self.heap_data@.skip(before as int), n as nat)->Ok_0.0;
            let ghost h0 = heap.objects();
            let idx = match obj {
                HeapObject::String(s) => heap.alloc_string(s.data).index,
                HeapObject::List(l) => heap.alloc_list(l.elements).index,
            };
            assert(heap.objects() == h0.push(obj));
            proof {
                forms = forms.push(f);
                assert forall|p: int| 0 <= p < forms.len() implies object_is(#[trigger] heap.objects()[p], forms[p]) by {
                    if p < forms.len() - 1 {
                        assert(heap.objects()[p] == h0[p]);
                    }
                }
            }
            pos_idx = pos_idx + 1;
        }
        // 2. The frames.
        let mut fpos: usize = 0;
        let frame_count = read_count(&self.frames_data, &mut fpos)?;
        let ghost fd = self.frames_data@.skip(4);
        let ghost mut gs: Seq<FrameForm> = Seq::empty();
        let mut frames: Vec<CallFrame> = Vec::new();
        let mut i: u32 = 0;
        while i < frame_count
            invariant
                fd == self.frames_data@.skip(4),
                n == self.header.heap_count,
                code_hash == self.header.code_hash,
                *vm == *old(vm),
                vm.wf(),
                parse_heap(self.heap_data@, n as nat, n as nat) == Ok::<(Seq<ObjForm>, nat), SnapshotError>(
                    (forms, hpos as nat),
                ),
                frame_count == u32_at(self.frames_data@, 0),
                4 <= fpos <= self.frames_data@.len(),
                i <= frame_count,
                pos_to_gc@ == by_position(n as nat),
                frames_are(frames@, gs),
                parse_frames(fd, i as nat, n as nat) == Ok::<(Seq<FrameForm>, nat), SnapshotError>(
                    (gs, (fpos - 4) as nat),
                ),
            decreases frame_count - i,
        {
            let ghost before = fpos;
            assert(fd.skip(before - 4) =~= self.frames_data@.skip(before as int));
            let frame = match Snapshot::read_frame(&self.frames_data, &mut fpos, &pos_to_gc, Ghost(n as nat)) {
                Ok(f) => f,
                Err(e) => {
                    proof {
                        lemma_frames_err(fd, (i + 1) as nat, frame_count as nat, n as nat);
                    }
                    return Err(e);
                },
            };
            let ghost g = parse_frame(self.frames_data@.skip(before as int), n as nat)->Ok_0.0;
            let ghost f0 = frames@;
            frames.push(frame);
            proof {
                gs = gs.push(g);
                assert forall|p: int| 0 <= p < gs.len() implies frame_is(#[trigger] frames@[p], gs[p]) by {
                    if p < gs.len() - 1 {
                        assert(frames@[p] == f0[p]);
                    }
                }
            }
            i = i + 1;
        }
        // 3. The operand stack.
        let mut spos: usize = 0;
        let stack_count = read_count(&self.stack_data, &mut spos)?;
        let stack = Snapshot::read_value_refs(&self.stack_data, &mut spos, stack_count, &pos_to_gc, Ghost(n as nat))?;
        // 4. Replace the machine state.
        vm.heap = heap;
        vm.frames = frames;
        vm.stack = stack;
        vm.running = true;
        Ok(())
    }
}

} // verus!

verus! {

use crate::heap::{children, refs_of, value_ref};
use crate::snapshot::{
    at_pos, capturable, captured, frame_bytes, frames_bytes, heap_section, marks_reach, object_bytes, rank, ref_bytes,
    ref_pos, refs_bytes, positions, ref_known,
};
use crate::vm::{all_roots, reachable_from};
use vstd::utf8::encode_utf8;
use crate::wire::le32;

/// `v` with its heap reference renumbered to the position its object gets in
/// the heap section.
pub open spec fn renum(marks: Seq<bool>, v: Value) -> Value {
    at_pos(v, ref_pos(marks, v))
}

/// Each of `vals` renumbered.
pub open spec fn renum_all(marks: Seq<bool>, vals: Seq<Value>) -> Seq<Value> {
    vals.map_values(|v: Value| renum(marks, v))
}

/// The form a captured heap object reads back as.
pub open spec fn obj_form(marks: Seq<bool>, o: HeapObject) -> ObjForm {
    match o {
        HeapObject::String(s) => ObjForm::Str(s.data@),
        HeapObject::List(l) => ObjForm::List(renum_all(marks, l.elements@)),
    }
}

/// The forms of the marked objects among the first `n` slots, in slot order.
pub open spec fn captured_forms(objs: Seq<HeapObject>, marks: Seq<bool>, n: int) -> Seq<ObjForm>
    decreases n,
{
    if n <= 0 {
        Seq::empty()
    } else if marks[n - 1] {
        captured_forms(objs, marks, n - 1).push(obj_form(marks, objs[n - 1]))
    } else {
        captured_forms(objs, marks, n - 1)
    }
}

/// The form a captured call frame reads back as (function and instruction
/// pointer are written as `u32`s).
pub open spec fn frame_form(marks: Seq<bool>, f: CallFrame) -> FrameForm {
    FrameForm { function: f.function as u32, ip: f.ip as u32, locals: renum_all(marks, f.locals@) }
}

pub open spec fn frame_forms(marks: Seq<bool>, fs: Seq<CallFrame>) -> Seq<FrameForm> {
    fs.map_values(|f: CallFrame| frame_form(marks, f))
}

/// Every heap reference among `vals` names a marked slot whose position is
/// below `k`.
pub open spec fn refs_below(marks: Seq<bool>, vals: Seq<Value>, k: nat) -> bool {
    forall|i: int|
        0 <= i < vals.len() ==> (value_ref(#[trigger] vals[i]) matches Some(c) ==> c < marks.len() && marks[c as int]
            && rank(marks, c as int) < k)
}

/// The counts the snapshot format writes as `u32`s fit: the stack, the
/// frames and their locals, and every object's length.
pub open spec fn fits_format(vm: VM) -> bool {
    &&& vm.stack@.len() <= u32::MAX
    &&& vm.frames@.len() <= u32::MAX
    &&& forall|i: int| 0 <= i < vm.frames@.len() ==> (#[trigger] vm.frames@[i]).locals@.len() <= u32::MAX
    &&& forall|j: int|
        0 <= j < vm.heap.objects().len() ==> match #[trigger] vm.heap.objects()[j] {
            HeapObject::String(s) => encode_utf8(s.data@).len() <= u32::MAX,
            HeapObject::List(l) => l.elements@.len() <= u32::MAX,
        }
}

proof fn lemma_rank_step(marks: Seq<bool>, c: int, j: int)
    requires
        0 <= c < j <= marks.len(),
        marks[c],
    ensures
        rank(marks, c) < rank(marks, j),
    decreases j,
{
    if j > c + 1 {
        lemma_rank_step(marks, c, j - 1);
    }
}

pub(crate) proof fn lemma_refs_read_back(marks: Seq<bool>, vals: Seq<Value>, rest: Seq<u8>, k: nat)
    requires
        marks.len() <= u32::MAX,
        refs_below(marks, vals, k),
    ensures
        parse_refs(refs_bytes(marks, vals) + rest, vals.len(), k) == Ok::<(Seq<Value>, nat), SnapshotError>(
            (renum_all(marks, vals), refs_bytes(marks, vals).len()),
        ),
    decreases vals.len(),
{
    if vals.len() > 0 {
        let pre = vals.drop_last();
        let last = vals.last();
        let b1 = refs_bytes(marks, pre);
        let b2 = ref_bytes(last, ref_pos(marks, last));
        assert(refs_below(marks, pre, k)) by {
            assert forall|i: int| 0 <= i < pre.len() implies (value_ref(#[trigger] pre[i]) matches Some(c) ==> c
                < marks.len() && marks[c as int] && rank(marks, c as int) < k) by {
                assert(pre[i] == vals[i]);
            }
        }
        lemma_refs_read_back(marks, pre, b2 + rest, k);
        assert(refs_bytes(marks, vals) + rest =~= b1 + (b2 + rest));
        assert((b1 + (b2 + rest)).skip(b1.len() as int) =~= b2 + rest);
        crate::snapshot::lemma_parse_ref(last, ref_pos(marks, last), rest);
        assert(value_ref(vals[vals.len() - 1]) matches Some(c) ==> rank(marks, c as int) < k);
        if let Some(c) = value_ref(last) {
            crate::snapshot::lemma_rank_bound(marks, c as int);
        }
        assert(renum_all(marks, vals) =~= renum_all(marks, pre).push(renum(marks, last)));
    } else {
        assert(renum_all(marks, vals) =~= Seq::<Value>::empty());
    }
}


proof fn lemma_object_read_back(marks: Seq<bool>, obj: HeapObject, rest: Seq<u8>, k: nat)
    requires
        marks.len() <= u32::MAX,
        match obj {
            HeapObject::String(s) => encode_utf8(s.data@).len() <= u32::MAX,
            HeapObject::List(l) => l.elements@.len() <= u32::MAX && refs_below(marks, l.elements@, k),
        },
    ensures
        parse_object(object_bytes(marks, obj) + rest, k) == Ok::<(ObjForm, nat), SnapshotError>(
            (obj_form(marks, obj), object_bytes(marks, obj).len()),
        ),
{
    let data = object_bytes(marks, obj) + rest;
    match obj {
        HeapObject::String(s) => {
            let enc = encode_utf8(s.data@);
            let n = enc.len() as u32;
            crate::wire::lemma_le32_roundtrip(n, seq![TAG_STRING], enc + rest);
            assert(data =~= seq![TAG_STRING] + le32(n) + (enc + rest));
            assert(data.subrange(5, 5 + n as int) =~= enc);
            vstd::utf8::encode_utf8_valid_utf8(s.data@);
            vstd::utf8::encode_utf8_decode_utf8(s.data@);
        },
        HeapObject::List(l) => {
            let n = l.elements@.len() as u32;
            let b = refs_bytes(marks, l.elements@);
            crate::wire::lemma_le32_roundtrip(n, seq![TAG_LIST], b + rest);
            assert(data =~= seq![TAG_LIST] + le32(n) + (b + rest));
            assert(data.skip(5) =~= b + rest);
            lemma_refs_read_back(marks, l.elements@, rest, k);
        },
    }
}

/// Children of marked objects are marked slots in range.
pub open spec fn marked_closed(objs: Seq<HeapObject>, marks: Seq<bool>) -> bool {
    forall|j: int, i: int|
        0 <= j < objs.len() && marks[j] && 0 <= i < children(objs[j]).len() ==> #[trigger] children(objs[j])[i]
            < objs.len() && marks[children(objs[j])[i] as int]
}

proof fn lemma_heap_read_back(objs: Seq<HeapObject>, marks: Seq<bool>, n: int, rest: Seq<u8>, k: nat)
    requires
        k == rank(marks, marks.len() as int),
        0 <= n <= objs.len(),
        objs.len() == marks.len(),
        marks.len() <= u32::MAX,
        marked_closed(objs, marks),
        forall|j: int|
            0 <= j < objs.len() ==> match #[trigger] objs[j] {
                HeapObject::String(s) => encode_utf8(s.data@).len() <= u32::MAX,
                HeapObject::List(l) => l.elements@.len() <= u32::MAX,
            },
    ensures
        parse_heap(heap_section(objs, marks, n) + rest, rank(marks, n), k) == Ok::<(Seq<ObjForm>, nat), SnapshotError>(
            (captured_forms(objs, marks, n), heap_section(objs, marks, n).len()),
        ),
    decreases n,
{
    if n > 0 {
        let pre = heap_section(objs, marks, n - 1);
        if marks[n - 1] {
            let ob = object_bytes(marks, objs[n - 1]);
            lemma_heap_read_back(objs, marks, n - 1, ob + rest, k);
            assert(heap_section(objs, marks, n) + rest =~= pre + (ob + rest));
            assert((pre + (ob + rest)).skip(pre.len() as int) =~= ob + rest);
            if let HeapObject::List(l) = objs[n - 1] {
                assert forall|i: int| 0 <= i < l.elements@.len() implies (value_ref(#[trigger] l.elements@[i]) matches Some(
                    c,
                ) ==> c < marks.len() && marks[c as int] && rank(marks, c as int) < k) by {
                    if let Some(c) = value_ref(l.elements@[i]) {
                        crate::heap::lemma_ref_in_refs_of(l.elements@, i, c);
                        let ci = choose|ci: int| 0 <= ci < children(objs[n - 1]).len() && #[trigger] children(objs[n - 1])[ci] == c;
                        assert(children(objs[n - 1])[ci] < objs.len());
                        lemma_rank_step(marks, c as int, marks.len() as int);
                    }
                }
            }
            lemma_object_read_back(marks, objs[n - 1], rest, k);
        } else {
            lemma_heap_read_back(objs, marks, n - 1, rest, k);
        }
    }
}

#[verifier::spinoff_prover]
pub(crate) proof fn lemma_frames_read_back(marks: Seq<bool>, fs: Seq<CallFrame>, rest: Seq<u8>, k: nat)
    requires
        marks.len() <= u32::MAX,
        forall|i: int| 0 <= i < fs.len() ==> (#[trigger] fs[i]).locals@.len() <= u32::MAX && refs_below(marks, fs[i].locals@, k),
    ensures
        parse_frames(frames_bytes(marks, fs) + rest, fs.len(), k) == Ok::<(Seq<FrameForm>, nat), SnapshotError>(
            (frame_forms(marks, fs), frames_bytes(marks, fs).len()),
        ),
    decreases fs.len(),
{
    if fs.len() > 0 {
        let pre = fs.drop_last();
        let f = fs.last();
        let b1 = frames_bytes(marks, pre);
        let b2 = frame_bytes(marks, f);
        assert forall|i: int| 0 <= i < pre.len() implies (#[trigger] pre[i]).locals@.len() <= u32::MAX && refs_below(marks, pre[i].locals@, k) by {
            assert(pre[i] == fs[i]);
        }
        lemma_frames_read_back(marks, pre, b2 + rest, k);
        assert(frames_bytes(marks, fs) + rest =~= b1 + (b2 + rest));
        let d = b2 + rest;
        assert((b1 + d).skip(b1.len() as int) =~= d);
        let lb = refs_bytes(marks, f.locals@);
        let a = le32(f.function as u32);
        let b = le32(f.ip as u32);
        let c = le32(f.locals@.len() as u32);
        crate::wire::lemma_le32_roundtrip(f.function as u32, Seq::empty(), b + c + lb + rest);
        crate::wire::lemma_le32_roundtrip(f.ip as u32, a, c + lb + rest);
        crate::wire::lemma_le32_roundtrip(f.locals@.len() as u32, a + b, lb + rest);
        assert(d =~= Seq::<u8>::empty() + a + (b + c + lb + rest));
        assert(d =~= a + b + (c + lb + rest));
        assert(d =~= a + b + c + (lb + rest));
        assert(d.skip(12) =~= lb + rest);
        lemma_refs_read_back(marks, f.locals@, rest, k);
        assert(frame_forms(marks, fs) =~= frame_forms(marks, pre).push(frame_form(marks, f)));
    } else {
        assert(frame_forms(marks, fs) =~= Seq::<FrameForm>::empty());
    }
}

proof fn lemma_captured_forms(objs: Seq<HeapObject>, marks: Seq<bool>, n: int)
    requires
        0 <= n <= marks.len(),
    ensures
        captured_forms(objs, marks, n).len() == rank(marks, n),
        forall|j: int| 0 <= j < n && marks[j] ==> #[trigger] captured_forms(objs, marks, n)[rank(marks, j) as int] == obj_form(marks, objs[j]),
    decreases n,
{
    if n > 0 {
        lemma_captured_forms(objs, marks, n - 1);
        assert forall|j: int| 0 <= j < n && marks[j] implies #[trigger] captured_forms(objs, marks, n)[rank(marks, j) as int] == obj_form(marks, objs[j]) by {
            if j < n - 1 {
                lemma_rank_step(marks, j, n - 1);
            }
        }
    }
}

/// Values whose heap references are roots of a capturable machine refer to
/// marked objects, all at positions below the heap count.
pub(crate) proof fn lemma_roots_below(vm: VM, marks: Seq<bool>, vals: Seq<Value>)
    requires
        capturable(vm),
        marks_reach(vm, marks),
        forall|c: usize| refs_of(vals).contains(c) ==> all_roots(vm).contains(c),
    ensures
        refs_below(marks, vals, rank(marks, marks.len() as int)),
{
    crate::snapshot::lemma_root_known(vm, marks, vals);
    assert forall|i: int| 0 <= i < vals.len() implies (value_ref(#[trigger] vals[i]) matches Some(c) ==> c < marks.len()
        && marks[c as int] && rank(marks, c as int) < rank(marks, marks.len() as int)) by {
        assert(ref_known(positions(marks, marks.len() as int), marks, vals[i]));
        if let Some(c) = value_ref(vals[i]) {
            lemma_rank_step(marks, c as int, marks.len() as int);
        }
    }
}

/// Restoring a captured snapshot rebuilds the captured machine: the heap
/// holds the objects reachable from the roots in slot order (object `j` at
/// its position `rank(marks, j)`), and the frames, the stack and the list
/// elements refer to them by those positions.
pub proof fn law_capture_restore(vm: VM, marks: Seq<bool>, h: u64, s: Snapshot)
    requires
        vm.wf(),
        capturable(vm),
        fits_format(vm),
        marks_reach(vm, marks),
        captured(vm, marks, h, s),
    ensures
        restored(s) == Ok::<(Seq<ObjForm>, Seq<FrameForm>, Seq<Value>), SnapshotError>(
            (
                captured_forms(vm.heap.objects(), marks, vm.heap.objects().len() as int),
                frame_forms(marks, vm.frames@),
                renum_all(marks, vm.stack@),
            ),
        ),
        forall|j: int|
            0 <= j < vm.heap.objects().len() && marks[j] ==> #[trigger] captured_forms(
                vm.heap.objects(),
                marks,
                vm.heap.objects().len() as int,
            )[rank(marks, j) as int] == obj_form(marks, vm.heap.objects()[j]),
{
    let objs = vm.heap.objects();
    let roots = all_roots(vm);
    let len = objs.len() as int;
    let k = rank(marks, len);
    crate::snapshot::lemma_rank_bound(marks, len);
    assert(marked_closed(objs, marks)) by {
        assert forall|j: int, i: int|
            0 <= j < objs.len() && marks[j] && 0 <= i < children(objs[j]).len() implies #[trigger] children(objs[j])[i]
            < objs.len() && marks[children(objs[j])[i] as int] by {
            let c = children(objs[j])[i];
            assert(reachable_from(objs, roots, j as usize));
            assert(c < objs.len());
            let r = choose|r: int| 0 <= r < roots.len() && #[trigger] crate::heap::reaches(objs, roots[r], j as usize);
            assert(children(objs[j]).contains(c));
            crate::heap::lemma_reach_child(objs, roots[r], j as usize, c);
            assert(reachable_from(objs, roots, c));
        }
    }
    lemma_heap_read_back(objs, marks, len, Seq::empty(), k);
    assert(s.heap_data@ + Seq::<u8>::empty() =~= s.heap_data@);
    lemma_captured_forms(objs, marks, len);
    crate::snapshot::lemma_roots_cover(vm);
    // frames
    assert forall|i: int| 0 <= i < vm.frames@.len() implies (#[trigger] vm.frames@[i]).locals@.len() <= u32::MAX
        && refs_below(marks, vm.frames@[i].locals@, k) by {
        lemma_roots_below(vm, marks, vm.frames@[i].locals@);
    }
    lemma_frames_read_back(marks, vm.frames@, Seq::empty(), k);
    let fb = frames_bytes(marks, vm.frames@);
    crate::wire::lemma_le32_roundtrip(vm.frames@.len() as u32, Seq::empty(), fb);
    assert(s.frames_data@ =~= Seq::<u8>::empty() + le32(vm.frames@.len() as u32) + fb);
    assert(s.frames_data@.skip(4) =~= fb + Seq::<u8>::empty());
    // stack
    lemma_roots_below(vm, marks, vm.stack@);
    lemma_refs_read_back(marks, vm.stack@, Seq::empty(), k);
    let sb = refs_bytes(marks, vm.stack@);
    crate::wire::lemma_le32_roundtrip(vm.stack@.len() as u32, Seq::empty(), sb);
    assert(s.stack_data@ =~= Seq::<u8>::empty() + le32(vm.stack@.len() as u32) + sb);
    assert(s.stack_data@.skip(4) =~= sb + Seq::<u8>::empty());
}

} // verus!

verus! {

use crate::interp::{run_spec, runs_safely};
use crate::io::{spec_strategy_from_tag, HandleId};
use crate::reconnect::{
    io_entries, io_regs, outcome_view, put_all, records, spec_reconnect, status_view, ReconnectOutcome, StatusView,
};
use crate::snapshot::{spec_snapshot_error_text, ReconnectStatus};
use crate::text::{push_decimal_u64, spec_decimal_u64};
use crate::vm::{code_has_content, spec_code_hash, ResumeError, VmError};

/// `n` is `o` with only the heap's marks changed.
pub open spec fn only_marks_changed(o: VM, n: VM) -> bool {
    &&& n.heap.objects() == o.heap.objects()
    &&& n.heap.free() == o.heap.free()
    &&& n.heap.threshold() == o.heap.threshold()
    &&& n.stack == o.stack
    &&& n.frames == o.frames
    &&& n.functions == o.functions
    &&& n.running == o.running
    &&& n.handles == o.handles
    &&& n.task_registry == o.task_registry
    &&& n.current_task_id == o.current_task_id
    &&& n.pending == o.pending
    &&& n.snapshot == o.snapshot
    &&& n.next_handle_id == o.next_handle_id
}

/// The status reconnecting each I/O entry of `s` gets (with its id), the
/// host's attempts giving `outs`.
pub open spec fn reconnect_statuses(s: Snapshot, outs: Seq<ReconnectOutcome>) -> Seq<(u32, StatusView)> {
    let es = io_entries(s);
    Seq::new(
        es.len(),
        |i: int| (es[i].id, spec_reconnect(es[i], spec_strategy_from_tag(es[i].strategy), outcome_view(outs[i])).1),
    )
}

/// Some status of `e` is a failure.
pub open spec fn any_failed(e: Seq<(u32, StatusView)>) -> bool {
    exists|i: int| 0 <= i < e.len() && (#[trigger] e[i]).1 is Failed
}

/// The failed handles of `e`, each as `handle #<id> Failed: <reason>; `.
pub open spec fn failures_text(e: Seq<(u32, StatusView)>) -> Seq<char>
    decreases e.len(),
{
    if e.len() == 0 {
        Seq::empty()
    } else {
        failures_text(e.drop_last()) + match e.last().1 {
            StatusView::Failed(why) => "handle #"@ + spec_decimal_u64(e.last().0 as u64) + " Failed: "@ + why + "; "@,
            _ => Seq::empty(),
        }
    }
}

/// Machine `n` is `o` with the I/O handles of `s` reconnected, the host's
/// attempts giving `outs`, and registered under their ids.
pub open spec fn reconnected(s: Snapshot, o: VM, outs: Seq<ReconnectOutcome>, n: VM) -> bool {
    &&& n.wf()
    &&& records(n.handles.entries@) == put_all(records(o.handles.entries@), io_regs(io_entries(s), outs))
    &&& n.stack == o.stack
    &&& n.frames == o.frames
    &&& n.functions == o.functions
    &&& n.running == o.running
    &&& n.heap == o.heap
    &&& n.task_registry == o.task_registry
    &&& n.current_task_id == o.current_task_id
    &&& n.pending == o.pending
    &&& n.snapshot == o.snapshot
    &&& n.next_handle_id == o.next_handle_id
}

/// What resuming from `snap` does to `o`, the host's reconnect attempts
/// giving `outs`: restore under the machine's code hash (a failure is
/// reported with its message), reconnect the snapshot's handles, stop with a
/// reconnect error when any of them failed, otherwise run.
pub open spec fn resume_spec(o: VM, snap: Snapshot, outs: Seq<ReconnectOutcome>, n: VM, r: Result<(), ResumeError>) -> bool {
    exists|m: VM, r1: Result<(), SnapshotError>|
        #[trigger] restore_spec(snap, o, spec_code_hash(o), m, r1) && match r1 {
            Err(e) => n == m && (r matches Err(ResumeError::Snapshot(t)) && t@ == spec_snapshot_error_text(e)),
            Ok(_) => exists|m2: VM|
                #[trigger] reconnected(snap, m, outs, m2) && if any_failed(reconnect_statuses(snap, outs)) {
                    n == m2 && (r matches Err(ResumeError::Reconnect(t)) && t@ == failures_text(
                        reconnect_statuses(snap, outs),
                    ))
                } else {
                    exists|r2: Result<(), VmError>|
                        #[trigger] run_spec(m2, n, r2, u64::MAX as nat) && match r2 {
                            Ok(_) => r is Ok,
                            Err(e) => r == Err::<(), ResumeError>(ResumeError::Vm(e)),
                        }
                },
        }
}

/// The report entries as (id, status) pairs.
pub open spec fn report_view(e: Seq<(HandleId, ReconnectStatus)>) -> Seq<(u32, StatusView)> {
    e.map_values(|p: (HandleId, ReconnectStatus)| (p.0.0, status_view(p.1)))
}

/// The message naming the failed entries of a reconnect report.
fn failure_message(entries: &Vec<(HandleId, ReconnectStatus)>) -> (s: String)
    ensures
        s@ == failures_text(report_view(entries@)),
{
    let ghost v = report_view(entries@);
    let mut s = String::new();
    let mut i: usize = 0;
    assert(v.take(0) =~= Seq::<(u32, StatusView)>::empty());
    while i < entries.len()
        invariant
            i <= entries@.len(),
            v == report_view(entries@),
            v.len() == entries@.len(),
            s@ == failures_text(v.take(i as int)),
        decreases entries@.len() - i,
    {
        proof {
            reveal_strlit("handle #");
            reveal_strlit(" Failed: ");
            reveal_strlit("; ");
        }
        assert(v.take(i as int + 1).drop_last() =~= v.take(i as int));
        assert(v.take(i as int + 1).last() == v[i as int]);
        match &entries[i].1 {
            ReconnectStatus::Failed { reason } => {
                s.append("handle #");
                push_decimal_u64(&mut s, entries[i].0.0 as u64);
                s.append(" Failed: ");
                s.append(reason.as_str());
                s.append("; ");
            },
            _ => {},
        }
        i = i + 1;
    }
    assert(v.take(i as int) =~= v);
    s
}

impl VM {
    /// Snapshot the current machine state under its code hash.
    pub fn create_snapshot(&mut self) -> (s: Snapshot)
        requires
            old(self).wf(),
            capturable(*old(self)),
            code_has_content(*old(self)),
        ensures
            final(self).wf(),
            captured(*old(self), final(self).heap.marks(), spec_code_hash(*old(self)), s),
            marks_reach(*old(self), final(self).heap.marks()),
            only_marks_changed(*old(self), *final(self)),
    {
        let hash = self.code_hash();
        Snapshot::capture(self, hash)
    }

    /// Restore the machine state from a snapshot taken with the same code.
    pub fn restore_snapshot(&mut self, snap: &Snapshot) -> (r: Result<(), SnapshotError>)
        requires
            old(self).wf(),
            code_has_content(*old(self)),
        ensures
            final(self).wf(),
            restore_spec(*snap, *old(self), spec_code_hash(*old(self)), *final(self), r),
    {
        let hash = self.code_hash();
        snap.restore_into(self, hash)
    }

    /// Resume from a snapshot: restore the state, reconnect the snapshot's
    /// I/O handles (the host's attempt for the `i`-th entry being
    /// `outcomes[i]`), stop with a reconnect error when any handle failed,
    /// and otherwise continue running.
    pub fn resume(&mut self, snap: &Snapshot, outcomes: &Vec<ReconnectOutcome>) -> (r: Result<(), ResumeError>)
        requires
            old(self).wf(),
            code_has_content(*old(self)),
            outcomes@.len() == io_entries(*snap).len(),
            forall|n: VM, m: VM|
                #![trigger restore_spec(*snap, *old(self), spec_code_hash(*old(self)), n, Ok(())), reconnected(*snap, n, outcomes@, m)]
                restore_spec(*snap, *old(self), spec_code_hash(*old(self)), n, Ok(())) && reconnected(
                    *snap,
                    n,
                    outcomes@,
                    m,
                ) ==> runs_safely(m, u64::MAX as nat),
        ensures
            final(self).wf(),
            resume_spec(*old(self), *snap, outcomes@, *final(self), r),
    {
        let ghost o = *self;
        match self.restore_snapshot(snap) {
            Err(e) => {
                let r = Err(ResumeError::Snapshot(e.display_string()));
                assert(restore_spec(*snap, o, spec_code_hash(o), *self, Err(e)));
                r
            },
            Ok(()) => {
                let ghost m = *self;
                assert(restore_spec(*snap, o, spec_code_hash(o), m, Ok(())));
                let report = snap.restore_io_handles(self, outcomes);
                let ghost m2 = *self;
                assert(reconnected(*snap, m, outcomes@, m2));
                assert(report_view(report.entries@) =~= reconnect_statuses(*snap, outcomes@));
                let failed = report.has_failures();
                assert(failed == any_failed(reconnect_statuses(*snap, outcomes@))) by {
                    let e = reconnect_statuses(*snap, outcomes@);
                    if failed {
                        let i = choose|i: int| 0 <= i < report.entries@.len() && (#[trigger] report.entries@[i]).1 is Failed;
                        assert(e[i].1 is Failed);
                    }
                    if any_failed(e) {
                        let i = choose|i: int| 0 <= i < e.len() && (#[trigger] e[i]).1 is Failed;
                        assert(report.entries@[i].1 is Failed);
                    }
                }
                if failed {
                    let msg = failure_message(&report.entries);
                    return Err(ResumeError::Reconnect(msg));
                }
                let res = self.run();
                assert(run_spec(m2, *self, res, u64::MAX as nat));
                match res {
                    Ok(()) => Ok(()),
                    Err(e) => Err(ResumeError::Vm(e)),
                }
            },
        }
    }
}


/// Restoring a captured snapshot into any machine with the hash it was taken
/// with succeeds, and the machine then holds the captured heap (reachable
/// objects in slot order, no free slot), frames and stack, is running, and
/// keeps its functions, handles, snapshot and tasks.
pub proof fn law_capture_restore_into(
    vm: VM,
    marks: Seq<bool>,
    h: u64,
    s: Snapshot,
    before: VM,
    after: VM,
    r: Result<(), SnapshotError>,
)
    requires
        vm.wf(),
        capturable(vm),
        fits_format(vm),
        marks_reach(vm, marks),
        captured(vm, marks, h, s),
        restore_spec(s, before, h, after, r),
    ensures
        r is Ok,
        restored_vm(
            before,
            after,
            captured_forms(vm.heap.objects(), marks, vm.heap.objects().len() as int),
            frame_forms(marks, vm.frames@),
            renum_all(marks, vm.stack@),
        ),
{
    law_capture_restore(vm, marks, h, s);
}

} // verus!
