//! The sections a capture writes read to their own ends: skipping the
//! entries of each section, as reading a snapshot file does, walks exactly
//! over the bytes the capture wrote, as long as every count and length fits
//! the fields of the format.

use vstd::prelude::*;

use crate::heap::HeapObject;
use crate::scan::{
    lemma_lies_halves, lemma_skip_frames_lies, lemma_skip_heap_objects_lies, lemma_skip_heap_object_lies,
    lemma_skip_ios_lies, lemma_skip_io_lies, lemma_skip_frame_lies, lemma_skip_task_rest_lies, lemma_skip_task_lies,
    lemma_skip_tasks_lies, lemma_skip_value_lies, lemma_skip_values_lies, skip_frame_at, skip_frames_at,
    skip_heap_object_at, skip_heap_objects_at, skip_io_at, skip_ios_at, skip_task_at, skip_task_rest, skip_tasks_at,
    skip_value_at, skip_values_at,
};
use crate::io::{HandleId, HandleRecord, IoHandle};
use crate::snapshot::{
    frame_bytes, frames_bytes, heap_section, ids_bytes, io_entries_bytes, io_entry_bytes, io_fits, io_parts, object_bytes,
    opt_field, rank, ref_bytes, ref_pos, refs_bytes, settled_count, task_bytes, task_head_bytes, tasks_bytes,
    SnapshotError, TAG_LIST, TAG_STRING,
};
use crate::task::{Task, TaskId, TaskStatus};
use crate::restore::{captured_forms, fits_format, frame_forms, law_capture_restore, renum_all};
use crate::snapfile::{
    counted_end, file_bytes, law_file_roundtrip, lemma_sections_lie, parts_read_back, read_file, sections_sound,
    snapshot_parts, FileRead,
};
use crate::snapshot::{capturable, captured, marks_reach, restored, FrameForm, ObjForm, Snapshot};
use crate::vm::{CallFrame, VM};
use crate::value::Value;
use crate::wire::{le32, le64, lemma_le32_roundtrip, lemma_le64_roundtrip, u32_at};
use vstd::utf8::encode_utf8;

verus! {

pub(crate) proof fn lemma_field_lens(v: u32, w: u64)
    ensures
        le32(v).len() == 4,
        le64(w).len() == 8,
{
    lemma_le32_roundtrip(v, Seq::empty(), Seq::empty());
    lemma_le64_roundtrip(w, Seq::empty(), Seq::empty());
}

/// Skipping a value walks over its bytes.
proof fn lemma_value_over(v: Value, pos: u32)
    requires
        ref_bytes(v, pos).len() <= usize::MAX,
    ensures
        skip_value_at(ref_bytes(v, pos), 0) == Ok::<int, SnapshotError>(ref_bytes(v, pos).len() as int),
{
    lemma_field_lens(pos, 0);
    match v {
        Value::Int(i) => lemma_field_lens(0, i as u64),
        Value::Float(b) => lemma_field_lens(0, b),
        _ => {},
    }
}

/// Skipping `vals.len()` values walks over their bytes.
proof fn lemma_values_over(marks: Seq<bool>, vals: Seq<Value>)
    requires
        refs_bytes(marks, vals).len() <= usize::MAX,
    ensures
        skip_values_at(refs_bytes(marks, vals), 0, vals.len()) == Ok::<int, SnapshotError>(
            refs_bytes(marks, vals).len() as int,
        ),
    decreases vals.len(),
{
    if vals.len() > 0 {
        let a = refs_bytes(marks, vals.drop_last());
        let b = ref_bytes(vals.last(), ref_pos(marks, vals.last()));
        let e = refs_bytes(marks, vals);
        assert(e == a + b);
        lemma_values_over(marks, vals.drop_last());
        lemma_value_over(vals.last(), ref_pos(marks, vals.last()));
        lemma_lies_halves(a, b);
        lemma_skip_values_lies(e, a, 0, 0, (vals.len() - 1) as nat, a.len() as int);
        lemma_skip_value_lies(e, b, a.len() as int, 0, b.len() as int);
    }
}

/// The length of a heap object's contents fits its `u32` field.
pub open spec fn object_fits(obj: HeapObject) -> bool {
    match obj {
        HeapObject::String(s) => encode_utf8(s.data@).len() <= u32::MAX,
        HeapObject::List(l) => l.elements@.len() <= u32::MAX,
    }
}

proof fn lemma_object_over(marks: Seq<bool>, obj: HeapObject)
    requires
        object_fits(obj),
        object_bytes(marks, obj).len() <= usize::MAX,
    ensures
        skip_heap_object_at(object_bytes(marks, obj), 0) == Ok::<int, SnapshotError>(
            object_bytes(marks, obj).len() as int,
        ),
{
    let e = object_bytes(marks, obj);
    match obj {
        HeapObject::String(s) => {
            let t = encode_utf8(s.data@);
            lemma_le32_roundtrip(t.len() as u32, seq![TAG_STRING], t);
        },
        HeapObject::List(l) => {
            let n = l.elements@.len();
            let r = refs_bytes(marks, l.elements@);
            let h = seq![TAG_LIST] + le32(n as u32);
            lemma_le32_roundtrip(n as u32, seq![TAG_LIST], r);
            assert(e == h + r);
            lemma_values_over(marks, l.elements@);
            lemma_lies_halves(h, r);
            lemma_skip_values_lies(e, r, 5, 0, n, r.len() as int);
        },
    }
}

/// Skipping the marked objects among the first `n` slots walks over the heap
/// section.
pub(crate) proof fn lemma_heap_over(objs: Seq<HeapObject>, marks: Seq<bool>, n: int)
    requires
        0 <= n <= objs.len(),
        n <= marks.len(),
        forall|j: int| 0 <= j < objs.len() ==> object_fits(#[trigger] objs[j]),
        heap_section(objs, marks, n).len() <= usize::MAX,
    ensures
        skip_heap_objects_at(heap_section(objs, marks, n), 0, rank(marks, n)) == Ok::<int, SnapshotError>(
            heap_section(objs, marks, n).len() as int,
        ),
    decreases n,
{
    if n > 0 {
        let a = heap_section(objs, marks, n - 1);
        lemma_heap_over(objs, marks, n - 1);
        if marks[n - 1] {
            let b = object_bytes(marks, objs[n - 1]);
            let e = heap_section(objs, marks, n);
            assert(e == a + b);
            assert(object_fits(objs[n - 1]));
            lemma_object_over(marks, objs[n - 1]);
            lemma_lies_halves(a, b);
            lemma_skip_heap_objects_lies(e, a, 0, 0, rank(marks, n - 1), a.len() as int);
            lemma_skip_heap_object_lies(e, b, a.len() as int, 0, b.len() as int);
        }
    }
}

/// Each frame's local count fits its `u32` field, and so does the number
/// of frames.
pub open spec fn frames_fit(fs: Seq<CallFrame>) -> bool {
    &&& fs.len() <= u32::MAX
    &&& forall|i: int| 0 <= i < fs.len() ==> (#[trigger] fs[i]).locals@.len() <= u32::MAX
}

proof fn lemma_frame_over(marks: Seq<bool>, f: CallFrame)
    requires
        f.locals@.len() <= u32::MAX,
        frame_bytes(marks, f).len() <= usize::MAX,
    ensures
        skip_frame_at(frame_bytes(marks, f), 0) == Ok::<int, SnapshotError>(frame_bytes(marks, f).len() as int),
{
    let n = f.locals@.len();
    let h = le32(f.function as u32) + le32(f.ip as u32);
    let r = refs_bytes(marks, f.locals@);
    let e = frame_bytes(marks, f);
    lemma_field_lens(f.function as u32, 0);
    lemma_field_lens(f.ip as u32, 0);
    lemma_le32_roundtrip(n as u32, h, r);
    lemma_values_over(marks, f.locals@);
    lemma_lies_halves(h + le32(n as u32), r);
    lemma_skip_values_lies(e, r, 12, 0, n, r.len() as int);
}

proof fn lemma_frames_over(marks: Seq<bool>, fs: Seq<CallFrame>)
    requires
        frames_fit(fs),
        frames_bytes(marks, fs).len() <= usize::MAX,
    ensures
        skip_frames_at(frames_bytes(marks, fs), 0, fs.len()) == Ok::<int, SnapshotError>(
            frames_bytes(marks, fs).len() as int,
        ),
    decreases fs.len(),
{
    if fs.len() > 0 {
        let a = frames_bytes(marks, fs.drop_last());
        let b = frame_bytes(marks, fs.last());
        let e = frames_bytes(marks, fs);
        assert(e == a + b);
        assert(fs.last() == fs[fs.len() - 1]);
        lemma_frames_over(marks, fs.drop_last());
        lemma_frame_over(marks, fs.last());
        lemma_lies_halves(a, b);
        lemma_skip_frames_lies(e, a, 0, 0, (fs.len() - 1) as nat, a.len() as int);
        lemma_skip_frame_lies(e, b, a.len() as int, 0, b.len() as int);
    }
}

/// Every handle of `e` fits, and so does their number.
pub open spec fn entries_fit(e: Seq<(HandleId, IoHandle)>) -> bool {
    &&& e.len() <= u32::MAX
    &&& forall|i: int| 0 <= i < e.len() ==> io_fits((#[trigger] e[i]).1@)
}

proof fn lemma_io_over(id: u32, h: HandleRecord)
    requires
        io_fits(h),
        io_entry_bytes(id, h).len() <= usize::MAX,
    ensures
        skip_io_at(io_entry_bytes(id, h), 0) == Ok::<int, SnapshotError>(io_entry_bytes(id, h).len() as int),
{
    let (kind, st, params, cached, position) = io_parts(h);
    let pv: u64 = match position {
        Some(p) => p,
        None => 0xFFFF_FFFF_FFFF_FFFFu64,
    };
    let e = io_entry_bytes(id, h);
    let x = le32(id) + seq![kind, st];
    let tail = le64(pv);
    lemma_field_lens(id, pv);
    lemma_le32_roundtrip(params.len() as u32, x, params + opt_field(cached) + tail);
    assert(e =~= x + le32(params.len() as u32) + (params + opt_field(cached) + tail));
    let y = x + le32(params.len() as u32) + params;
    match cached {
        Some(b) => {
            lemma_le32_roundtrip(b.len() as u32, y, b + tail);
            assert(e =~= y + le32(b.len() as u32) + (b + tail));
        },
        None => {
            lemma_le32_roundtrip(0xFFFF_FFFFu32, y, tail);
            assert(e =~= y + le32(0xFFFF_FFFFu32) + tail);
        },
    }
}

proof fn lemma_ios_over(e: Seq<(HandleId, IoHandle)>)
    requires
        entries_fit(e),
        io_entries_bytes(e).len() <= usize::MAX,
    ensures
        skip_ios_at(io_entries_bytes(e), 0, e.len()) == Ok::<int, SnapshotError>(io_entries_bytes(e).len() as int),
    decreases e.len(),
{
    if e.len() > 0 {
        let a = io_entries_bytes(e.drop_last());
        let b = io_entry_bytes(e.last().0.0, e.last().1@);
        let w = io_entries_bytes(e);
        assert(w == a + b);
        assert(e.last() == e[e.len() - 1]);
        assert(entries_fit(e.drop_last())) by {
            assert forall|i: int| 0 <= i < e.drop_last().len() implies io_fits((#[trigger] e.drop_last()[i]).1@) by {
                assert(e.drop_last()[i] == e[i]);
            }
        }
        lemma_ios_over(e.drop_last());
        lemma_io_over(e.last().0.0, e.last().1@);
        lemma_lies_halves(a, b);
        lemma_skip_ios_lies(w, a, 0, 0, (e.len() - 1) as nat, a.len() as int);
        lemma_skip_io_lies(w, b, a.len() as int, 0, b.len() as int);
    }
}

pub(crate) proof fn lemma_ids_len(ids: Seq<TaskId>)
    ensures
        ids_bytes(ids).len() == 4 * ids.len(),
    decreases ids.len(),
{
    if ids.len() > 0 {
        lemma_ids_len(ids.drop_last());
        lemma_field_lens(ids.last().0 as u32, 0);
    }
}

/// A task's child, value, frame and handle counts fit their `u32` fields,
/// and so do its frames and handles.
pub open spec fn task_fits(t: Task) -> bool {
    &&& t.children@.len() <= u32::MAX
    &&& t.stack@.len() <= u32::MAX
    &&& frames_fit(t.frames@)
    &&& entries_fit(t.io_handles.entries@)
}

/// The counted stack values, frames and handles of a task entry.
pub(crate) open spec fn task_rest_bytes(marks: Seq<bool>, t: Task) -> Seq<u8> {
    (le32(t.stack@.len() as u32) + refs_bytes(marks, t.stack@)) + (le32(t.frames@.len() as u32) + frames_bytes(
        marks,
        t.frames@,
    )) + (le32(t.io_handles.entries@.len() as u32) + io_entries_bytes(t.io_handles.entries@))
}

pub(crate) proof fn lemma_task_rest_over(marks: Seq<bool>, t: Task)
    requires
        task_fits(t),
        task_rest_bytes(marks, t).len() <= usize::MAX,
    ensures
        skip_task_rest(task_rest_bytes(marks, t), 0) == Ok::<int, SnapshotError>(
            task_rest_bytes(marks, t).len() as int,
        ),
{
    let e = task_rest_bytes(marks, t);
    let (sc, fc, ic) = (t.stack@.len(), t.frames@.len(), t.io_handles.entries@.len());
    let vb = refs_bytes(marks, t.stack@);
    let fb = frames_bytes(marks, t.frames@);
    let ib = io_entries_bytes(t.io_handles.entries@);
    let fpart = le32(fc as u32) + fb;
    let ipart = le32(ic as u32) + ib;
    lemma_field_lens(sc as u32, 0);
    lemma_field_lens(fc as u32, 0);
    lemma_field_lens(ic as u32, 0);
    lemma_values_over(marks, t.stack@);
    lemma_frames_over(marks, t.frames@);
    lemma_ios_over(t.io_handles.entries@);
    let q1: int = 4 + vb.len() as int;
    let q3: int = q1 + 4 + fb.len();
    lemma_le32_roundtrip(sc as u32, Seq::empty(), vb + fpart + ipart);
    assert(e =~= Seq::<u8>::empty() + le32(sc as u32) + (vb + fpart + ipart));
    crate::scan::lemma_lies_in(le32(sc as u32), vb, fpart + ipart);
    assert(e =~= le32(sc as u32) + vb + (fpart + ipart));
    lemma_skip_values_lies(e, vb, 4, 0, sc, vb.len() as int);
    lemma_le32_roundtrip(fc as u32, le32(sc as u32) + vb, fb + ipart);
    assert(e =~= (le32(sc as u32) + vb) + le32(fc as u32) + (fb + ipart));
    crate::scan::lemma_lies_in(le32(sc as u32) + vb + le32(fc as u32), fb, ipart);
    assert(e =~= (le32(sc as u32) + vb + le32(fc as u32)) + fb + ipart);
    lemma_skip_frames_lies(e, fb, q1 + 4, 0, fc, fb.len() as int);
    lemma_le32_roundtrip(ic as u32, le32(sc as u32) + vb + fpart, ib);
    assert(e =~= (le32(sc as u32) + vb + fpart) + le32(ic as u32) + ib);
    crate::scan::lemma_lies_in(le32(sc as u32) + vb + fpart + le32(ic as u32), ib, Seq::empty());
    assert(e =~= (le32(sc as u32) + vb + fpart + le32(ic as u32)) + ib + Seq::<u8>::empty());
    lemma_skip_ios_lies(e, ib, q3 + 4, 0, ic, ib.len() as int);
}

#[verifier::rlimit(30)]
proof fn lemma_task_over(marks: Seq<bool>, t: Task)
    requires
        task_fits(t),
        task_bytes(marks, t).len() <= usize::MAX,
    ensures
        skip_task_at(task_bytes(marks, t), 0) == Ok::<int, SnapshotError>(task_bytes(marks, t).len() as int),
{
    let e = task_bytes(marks, t);
    let head = task_head_bytes(t);
    let cc = t.children@.len();
    let ids = ids_bytes(t.children@);
    let rest = task_rest_bytes(marks, t);
    let x: Seq<u8> = match t.parent {
        Some(p) => seq![1u8] + le32(p.0 as u32),
        None => seq![0u8],
    };
    let y: Seq<u8> = match t.status {
        TaskStatus::Yielded(pc) => seq![1u8] + le32(pc as u32),
        _ => seq![2u8],
    };
    lemma_ids_len(t.children@);
    lemma_field_lens(t.id.0 as u32, 0);
    lemma_field_lens(cc as u32, 0);
    match t.parent {
        Some(p) => lemma_field_lens(p.0 as u32, 0),
        None => {},
    }
    match t.status {
        TaskStatus::Yielded(pc) => lemma_field_lens(pc as u32, 0),
        _ => {},
    }
    assert(head == le32(t.id.0 as u32) + x + y);
    let p5: int = head.len() as int;
    let p7: int = p5 + 4 + ids.len();
    assert(e =~= head + le32(cc as u32) + (ids + rest));
    assert(e[4] == x[0]);
    assert(e[4 + x.len() as int] == y[0]);
    assert(p5 == 4 + x.len() + y.len());
    assert(u32_at(e, p5) == cc) by {
        lemma_le32_roundtrip(cc as u32, head, ids + rest);
    }
    assert(skip_task_rest(e, p7) == Ok::<int, SnapshotError>(e.len() as int)) by {
        lemma_task_rest_over(marks, t);
        crate::scan::lemma_lies_in(head + le32(cc as u32) + ids, rest, Seq::empty());
        assert(e =~= (head + le32(cc as u32) + ids) + rest + Seq::<u8>::empty());
        lemma_skip_task_rest_lies(e, rest, p7, 0, rest.len() as int);
    }
}

/// Skipping `settled_count(tasks)` entries walks over the entries of the
/// settled tasks.
proof fn lemma_tasks_over(marks: Seq<bool>, tasks: Seq<Task>)
    requires
        forall|i: int| 0 <= i < tasks.len() ==> task_fits(#[trigger] tasks[i]),
        tasks_bytes(marks, tasks).len() <= usize::MAX,
    ensures
        skip_tasks_at(tasks_bytes(marks, tasks), 0, settled_count(tasks)) == Ok::<int, SnapshotError>(
            tasks_bytes(marks, tasks).len() as int,
        ),
    decreases tasks.len(),
{
    if tasks.len() > 0 {
        let a = tasks_bytes(marks, tasks.drop_last());
        assert forall|i: int| 0 <= i < tasks.drop_last().len() implies task_fits(#[trigger] tasks.drop_last()[i]) by {
            assert(tasks.drop_last()[i] == tasks[i]);
        }
        lemma_tasks_over(marks, tasks.drop_last());
        if !(tasks.last().status is Running) {
            let b = task_bytes(marks, tasks.last());
            let e = tasks_bytes(marks, tasks);
            assert(e == a + b);
            assert(tasks.last() == tasks[tasks.len() - 1]);
            lemma_task_over(marks, tasks.last());
            lemma_lies_halves(a, b);
            lemma_skip_tasks_lies(e, a, 0, 0, settled_count(tasks.drop_last()), a.len() as int);
            lemma_skip_task_lies(e, b, a.len() as int, 0, b.len() as int);
        }
    }
}

/// Every count and length of machine `vm` fits the fields of the snapshot
/// format: those the heap, frames and stack need, and those of its handles
/// and tasks.
pub open spec fn fits_file(vm: VM) -> bool {
    &&& fits_format(vm)
    &&& entries_fit(vm.handles.entries@)
    &&& forall|i: int| 0 <= i < vm.task_registry.tasks@.len() ==> task_fits(#[trigger] vm.task_registry.tasks@[i])
}

/// A counted section is its count followed by its entries.
proof fn lemma_counted_over(body: Seq<u8>, n: nat, which: int)
    requires
        n <= u32::MAX,
        4 + body.len() <= usize::MAX,
        0 <= which <= 3,
        which == 0 ==> skip_frames_at(body, 0, n) == Ok::<int, SnapshotError>(body.len() as int),
        which == 1 ==> skip_values_at(body, 0, n) == Ok::<int, SnapshotError>(body.len() as int),
        which == 2 ==> skip_ios_at(body, 0, n) == Ok::<int, SnapshotError>(body.len() as int),
        which == 3 ==> skip_tasks_at(body, 0, n) == Ok::<int, SnapshotError>(body.len() as int),
    ensures
        counted_end(le32(n as u32) + body, 0, n, which) == Ok::<int, SnapshotError>(4 + body.len() as int),
{
    let e = le32(n as u32) + body;
    let q = body.len() as int;
    lemma_field_lens(n as u32, 0);
    lemma_lies_halves(le32(n as u32), body);
    if which == 0 {
        lemma_skip_frames_lies(e, body, 4, 0, n, q);
    } else if which == 1 {
        lemma_skip_values_lies(e, body, 4, 0, n, q);
    } else if which == 2 {
        lemma_skip_ios_lies(e, body, 4, 0, n, q);
    } else if which == 3 {
        lemma_skip_tasks_lies(e, body, 4, 0, n, q);
    }
}

proof fn lemma_frames_section(marks: Seq<bool>, fs: Seq<CallFrame>, data: Seq<u8>, count: u32)
    requires
        data == le32(fs.len() as u32) + frames_bytes(marks, fs),
        count == fs.len() as u32,
        frames_fit(fs),
        data.len() <= usize::MAX,
    ensures
        counted_end(data, 0, count as nat, 0) == Ok::<int, SnapshotError>(data.len() as int),
{
    lemma_field_lens(count, 0);
    lemma_frames_over(marks, fs);
    lemma_counted_over(frames_bytes(marks, fs), fs.len(), 0);
}

proof fn lemma_stack_section(marks: Seq<bool>, vals: Seq<Value>, data: Seq<u8>, count: u32)
    requires
        data == le32(vals.len() as u32) + refs_bytes(marks, vals),
        count == vals.len() as u32,
        vals.len() <= u32::MAX,
        data.len() <= usize::MAX,
    ensures
        counted_end(data, 0, count as nat, 1) == Ok::<int, SnapshotError>(data.len() as int),
{
    lemma_field_lens(count, 0);
    lemma_values_over(marks, vals);
    lemma_counted_over(refs_bytes(marks, vals), vals.len(), 1);
}

proof fn lemma_io_section(e: Seq<(HandleId, IoHandle)>, data: Seq<u8>, count: u32)
    requires
        data == le32(e.len() as u32) + io_entries_bytes(e),
        count == e.len() as u32,
        entries_fit(e),
        data.len() <= usize::MAX,
    ensures
        counted_end(data, 0, count as nat, 2) == Ok::<int, SnapshotError>(data.len() as int),
{
    lemma_field_lens(count, 0);
    lemma_ios_over(e);
    lemma_counted_over(io_entries_bytes(e), e.len(), 2);
}

proof fn lemma_task_section(marks: Seq<bool>, tasks: Seq<Task>, data: Seq<u8>, count: u32)
    requires
        data == le32(count) + tasks_bytes(marks, tasks),
        count == settled_count(tasks),
        forall|i: int| 0 <= i < tasks.len() ==> task_fits(#[trigger] tasks[i]),
        data.len() <= usize::MAX,
    ensures
        counted_end(data, 0, count as nat, 3) == Ok::<int, SnapshotError>(data.len() as int),
{
    lemma_field_lens(count, 0);
    lemma_tasks_over(marks, tasks);
    lemma_counted_over(tasks_bytes(marks, tasks), settled_count(tasks), 3);
}

proof fn lemma_heap_data(objs: Seq<HeapObject>, marks: Seq<bool>, data: Seq<u8>, count: u32)
    requires
        data == heap_section(objs, marks, objs.len() as int),
        count == rank(marks, objs.len() as int),
        marks.len() == objs.len(),
        forall|j: int| 0 <= j < objs.len() ==> object_fits(#[trigger] objs[j]),
        data.len() <= usize::MAX,
    ensures
        skip_heap_objects_at(data, 0, count as nat) == Ok::<int, SnapshotError>(data.len() as int),
{
    lemma_heap_over(objs, marks, objs.len() as int);
}

/// A snapshot taken of a machine whose counts and lengths fit the format has
/// sound sections, and its file reads back as its parts (the task section
/// only where the header counts tasks).
pub proof fn law_capture_file(vm: VM, marks: Seq<bool>, h: u64, s: Snapshot)
    requires
        captured(vm, marks, h, s),
        marks.len() == vm.heap.objects().len(),
        fits_file(vm),
        file_bytes(s).len() <= usize::MAX,
    ensures
        sections_sound(s),
        read_file(file_bytes(s)) == FileRead::Parsed(parts_read_back(s)),
{
    let objs = vm.heap.objects();
    let tasks = vm.task_registry.tasks@;
    lemma_sections_lie(s);
    assert forall|j: int| 0 <= j < objs.len() implies object_fits(#[trigger] objs[j]) by {
        assert(fits_format(vm));
    }
    lemma_heap_data(objs, marks, s.heap_data@, s.header.heap_count);
    assert(frames_fit(vm.frames@));
    lemma_frames_section(marks, vm.frames@, s.frames_data@, s.header.frame_count);
    lemma_stack_section(marks, vm.stack@, s.stack_data@, s.header.stack_count);
    lemma_io_section(vm.handles.entries@, s.io_section@, s.header.io_handle_count);
    if s.header.task_count > 0 {
        lemma_task_section(marks, tasks, s.task_section@, s.header.task_count);
    }
    law_file_roundtrip(s);
}

/// A snapshot taken of a machine that fits the format, written to its file
/// and read back, restores the heap, frames and stack that were captured,
/// with the code hash it was taken with.
pub proof fn law_capture_file_restore(vm: VM, marks: Seq<bool>, h: u64, s: Snapshot, back: Snapshot)
    requires
        vm.wf(),
        capturable(vm),
        fits_file(vm),
        marks_reach(vm, marks),
        captured(vm, marks, h, s),
        file_bytes(s).len() <= usize::MAX,
        snapshot_parts(back) == parts_read_back(s),
    ensures
        read_file(file_bytes(s)) == FileRead::Parsed(parts_read_back(s)),
        back.header.code_hash == h,
        restored(back) == Ok::<(Seq<ObjForm>, Seq<FrameForm>, Seq<Value>), SnapshotError>(
            (
                captured_forms(vm.heap.objects(), marks, vm.heap.objects().len() as int),
                frame_forms(marks, vm.frames@),
                renum_all(marks, vm.stack@),
            ),
        ),
{
    law_capture_file(vm, marks, h, s);
    law_capture_restore(vm, marks, h, s);
    assert(back.heap_data@ == s.heap_data@);
    assert(back.frames_data@ == s.frames_data@);
    assert(back.stack_data@ == s.stack_data@);
}

} // verus!
