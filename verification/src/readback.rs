//! What the I/O and task sections a capture writes read back as.

use vstd::prelude::*;

use crate::io::{HandleId, HandleRecord, IoHandle};
use crate::reconnect::{io_entries, scan_io};
use crate::restore::{
    fits_format, frame_forms, lemma_frames_read_back, lemma_refs_read_back, lemma_roots_below, refs_below, renum_all,
};
use crate::sections::{
    entries_fit, fits_file, frames_fit, lemma_field_lens, lemma_heap_over, lemma_ids_len, lemma_task_rest_over,
    object_fits, task_fits, task_rest_bytes,
};
use crate::snapfile::{file_bytes, lemma_sections_lie};
use crate::snapshot::{
    frames_bytes, ids_bytes, io_entries_bytes, io_entry_bytes, io_fits, io_parts, law_io_entry_roundtrip, refs_bytes,
    IoEntryView, SnapshotError,
};
use crate::scan::{lemma_lies_in, lemma_skip_task_rest_lies, skip_task_rest, u32_field, u8_field};
use crate::snapshot::{parse_frames, parse_refs, FrameForm};
use crate::value::Value;
use crate::snapshot::{
    capturable, captured, marks_reach, rank, settled_count, task_bytes, task_head_bytes, tasks_bytes, Snapshot,
};
use crate::vm::VM;
use crate::task::{Task, TaskId, TaskStatus};
use crate::tasktree::{
    flagged_u32, ids_at, ios_at, parse_task_entry, parse_tasks, status_of, task_body, task_reads, BodyForm, TaskForm,
};
use crate::wire::{le32, lemma_le32_roundtrip};

verus! {

/// The entry view of handle `h` registered under `id`.
pub open spec fn entry_view(id: u32, h: HandleRecord) -> IoEntryView {
    let (kind, strategy, params, cached, position) = io_parts(h);
    IoEntryView { id, kind, strategy, params, cached, position }
}

/// The entry views of the handles of a table, in table order.
pub open spec fn entry_views(e: Seq<(HandleId, IoHandle)>) -> Seq<IoEntryView> {
    e.map_values(|p: (HandleId, IoHandle)| entry_view(p.0.0, p.1@))
}

/// The handle entries of `e`, lying at `pre.len()` in `pre + bytes + post`,
/// read back as their views.
proof fn lemma_ios_back(pre: Seq<u8>, e: Seq<(HandleId, IoHandle)>, post: Seq<u8>)
    requires
        forall|i: int| 0 <= i < e.len() ==> io_fits((#[trigger] e[i]).1@),
    ensures
        ios_at(pre + io_entries_bytes(e) + post, pre.len() as int, e.len()) == Ok::<
            (Seq<IoEntryView>, int),
            SnapshotError,
        >((entry_views(e), pre.len() + io_entries_bytes(e).len() as int)),
    decreases e.len(),
{
    if e.len() > 0 {
        let a = io_entries_bytes(e.drop_last());
        let b = io_entry_bytes(e.last().0.0, e.last().1@);
        let d = pre + io_entries_bytes(e) + post;
        assert(io_entries_bytes(e) == a + b);
        assert(d =~= pre + a + (b + post));
        assert forall|i: int| 0 <= i < e.drop_last().len() implies io_fits((#[trigger] e.drop_last()[i]).1@) by {
            assert(e.drop_last()[i] == e[i]);
        }
        lemma_ios_back(pre, e.drop_last(), b + post);
        assert(e.last() == e[e.len() - 1]);
        law_io_entry_roundtrip(e.last().0.0, e.last().1@, post);
        assert(d.skip(pre.len() + a.len() as int) =~= b + post);
        assert(entry_views(e) =~= entry_views(e.drop_last()).push(entry_view(e.last().0.0, e.last().1@)));
    } else {
        assert(entry_views(e) =~= Seq::<IoEntryView>::empty());
    }
}

/// Every id fits a `u32`.
pub open spec fn ids_fit(ids: Seq<TaskId>) -> bool {
    forall|i: int| 0 <= i < ids.len() ==> (#[trigger] ids[i]).0 <= u32::MAX
}

/// The ids `ids`, lying at `pre.len()` in `pre + bytes + post`, read back.
proof fn lemma_ids_back(pre: Seq<u8>, ids: Seq<TaskId>, post: Seq<u8>)
    requires
        ids_fit(ids),
    ensures
        ids_at(pre + ids_bytes(ids) + post, pre.len() as int, ids.len()) == Ok::<(Seq<TaskId>, int), SnapshotError>(
            (ids, pre.len() + ids_bytes(ids).len() as int),
        ),
    decreases ids.len(),
{
    if ids.len() > 0 {
        let a = ids_bytes(ids.drop_last());
        let v = ids.last().0 as u32;
        let d = pre + ids_bytes(ids) + post;
        assert(d =~= pre + a + (le32(v) + post));
        assert(ids_fit(ids.drop_last())) by {
            assert forall|i: int| 0 <= i < ids.drop_last().len() implies (#[trigger] ids.drop_last()[i]).0 <= u32::MAX by {
                assert(ids.drop_last()[i] == ids[i]);
            }
        }
        lemma_ids_back(pre, ids.drop_last(), le32(v) + post);
        lemma_le32_roundtrip(v, pre + a, post);
        assert(d =~= pre + a + le32(v) + post);
        assert(ids.last() == ids[ids.len() - 1]);
        assert(ids =~= ids.drop_last().push(TaskId(v as u64)));
    } else {
        assert(ids =~= Seq::<TaskId>::empty());
    }
}

/// The body a task's entry reads back as: its stack and frames with their
/// references as positions, and its handle entries.
pub open spec fn body_form(marks: Seq<bool>, t: Task) -> BodyForm {
    BodyForm {
        stack: renum_all(marks, t.stack@),
        frames: frame_forms(marks, t.frames@),
        io: entry_views(t.io_handles.entries@),
    }
}

/// The references of a task's stack and frames name marked slots below `k`.
pub open spec fn task_refs_below(marks: Seq<bool>, t: Task, k: nat) -> bool {
    &&& refs_below(marks, t.stack@, k)
    &&& forall|i: int| 0 <= i < t.frames@.len() ==> refs_below(marks, (#[trigger] t.frames@[i]).locals@, k)
}

/// The counted stack, frames and handles of a task, lying at `pre.len()` in
/// `pre + bytes + post`, read back as its body.
#[verifier::spinoff_prover]
#[verifier::rlimit(40)]
proof fn lemma_body_back(pre: Seq<u8>, marks: Seq<bool>, t: Task, post: Seq<u8>, k: nat)
    requires
        marks.len() <= u32::MAX,
        task_fits(t),
        task_refs_below(marks, t, k),
    ensures
        task_body(pre + task_rest_bytes(marks, t) + post, pre.len() as int, k) == Ok::<(BodyForm, int), SnapshotError>(
            (body_form(marks, t), pre.len() + task_rest_bytes(marks, t).len() as int),
        ),
{
    let d = pre + task_rest_bytes(marks, t) + post;
    let (sc, fc, ic) = (t.stack@.len(), t.frames@.len(), t.io_handles.entries@.len());
    let vb = refs_bytes(marks, t.stack@);
    let fb = frames_bytes(marks, t.frames@);
    let ib = io_entries_bytes(t.io_handles.entries@);
    let p: int = pre.len() as int;
    lemma_field_lens(sc as u32, 0);
    lemma_field_lens(fc as u32, 0);
    lemma_field_lens(ic as u32, 0);
    let fpart = le32(fc as u32) + fb;
    let ipart = le32(ic as u32) + ib;
    assert(d =~= pre + le32(sc as u32) + (vb + fpart + ipart + post));
    let q2: int = p + 4 + vb.len();
    let q4: int = q2 + 4 + fb.len();
    assert(u32_field(d, p) == Ok::<(u32, int), SnapshotError>((sc as u32, p + 4))) by {
        lemma_le32_roundtrip(sc as u32, pre, vb + fpart + ipart + post);
    }
    assert(parse_refs(d.skip(p + 4), sc as u32 as nat, k) == Ok::<(Seq<Value>, nat), SnapshotError>(
        (renum_all(marks, t.stack@), vb.len()),
    )) by {
        assert(d.skip(p + 4) =~= vb + (fpart + ipart + post));
        lemma_refs_read_back(marks, t.stack@, fpart + ipart + post, k);
    }
    assert(u32_field(d, q2) == Ok::<(u32, int), SnapshotError>((fc as u32, q2 + 4))) by {
        lemma_le32_roundtrip(fc as u32, pre + le32(sc as u32) + vb, fb + ipart + post);
        assert(d =~= (pre + le32(sc as u32) + vb) + le32(fc as u32) + (fb + ipart + post));
    }
    assert(parse_frames(d.skip(q2 + 4), fc as u32 as nat, k) == Ok::<(Seq<FrameForm>, nat), SnapshotError>(
        (frame_forms(marks, t.frames@), fb.len()),
    )) by {
        assert(d.skip(q2 + 4) =~= fb + (ipart + post));
        assert forall|i: int| 0 <= i < t.frames@.len() implies (#[trigger] t.frames@[i]).locals@.len() <= u32::MAX
            && refs_below(marks, t.frames@[i].locals@, k) by {
            assert(frames_fit(t.frames@));
        }
        lemma_frames_read_back(marks, t.frames@, ipart + post, k);
    }
    let pre3 = pre + le32(sc as u32) + vb + fpart;
    assert(u32_field(d, q4) == Ok::<(u32, int), SnapshotError>((ic as u32, q4 + 4))) by {
        lemma_le32_roundtrip(ic as u32, pre3, ib + post);
        assert(d =~= pre3 + le32(ic as u32) + (ib + post));
    }
    assert(ios_at(d, q4 + 4, ic as u32 as nat) == Ok::<(Seq<IoEntryView>, int), SnapshotError>(
        (entry_views(t.io_handles.entries@), q4 + 4 + ib.len()),
    )) by {
        assert(d =~= (pre3 + le32(ic as u32)) + ib + post);
        assert forall|i: int| 0 <= i < t.io_handles.entries@.len() implies io_fits(
            (#[trigger] t.io_handles.entries@[i]).1@,
        ) by {
            assert(entries_fit(t.io_handles.entries@));
        }
        lemma_ios_back(pre3 + le32(ic as u32), t.io_handles.entries@, post);
    }
}

/// A task's id, parent, children and resume point fit the `u32` fields of
/// its entry.
pub open spec fn task_ids_fit(t: Task) -> bool {
    &&& t.id.0 <= u32::MAX
    &&& (t.parent matches Some(p) ==> p.0 <= u32::MAX)
    &&& ids_fit(t.children@)
    &&& (t.status matches TaskStatus::Yielded(pc) ==> pc <= u32::MAX)
}

/// The form the entry of settled task `t` reads back as, `cur` being the
/// current task: the current task's entry has no body.
pub open spec fn task_form(marks: Seq<bool>, t: Task, cur: TaskId) -> TaskForm {
    TaskForm {
        id: t.id.0 as u32,
        parent: match t.parent {
            Some(p) => Some(p.0 as u32),
            None => None,
        },
        status: t.status,
        children: t.children@,
        body: if t.id == cur {
            None
        } else {
            Some(body_form(marks, t))
        },
    }
}

/// The id, parent and status of a task entry lying at `pre.len()` read back,
/// up to where its children start.
proof fn lemma_head_back(pre: Seq<u8>, t: Task, post: Seq<u8>)
    requires
        task_ids_fit(t),
        !(t.status is Running),
    ensures
        ({
            let d = pre + task_head_bytes(t) + post;
            let p = pre.len() as int;
            let fb: u8 = if t.parent is Some {
                1
            } else {
                0
            };
            let parent: Option<u32> = match t.parent {
                Some(q) => Some(q.0 as u32),
                None => None,
            };
            let p3: int = if t.parent is Some {
                p + 9
            } else {
                p + 5
            };
            let sb: u8 = if t.status is Yielded {
                1
            } else {
                2
            };
            let pc: Option<u32> = match t.status {
                TaskStatus::Yielded(c) => Some(c as u32),
                _ => None,
            };
            &&& u32_field(d, p) == Ok::<(u32, int), SnapshotError>((t.id.0 as u32, p + 4))
            &&& u8_field(d, p + 4) == Ok::<(u8, int), SnapshotError>((fb, p + 5))
            &&& flagged_u32(d, p + 5, fb) == Ok::<(Option<u32>, int), SnapshotError>((parent, p3))
            &&& u8_field(d, p3) == Ok::<(u8, int), SnapshotError>((sb, p3 + 1))
            &&& flagged_u32(d, p3 + 1, sb) == Ok::<(Option<u32>, int), SnapshotError>(
                (pc, p + task_head_bytes(t).len()),
            )
            &&& status_of(sb, pc) == t.status
        }),
{
    let d = pre + task_head_bytes(t) + post;
    let id = t.id.0 as u32;
    let x: Seq<u8> = match t.parent {
        Some(q) => seq![1u8] + le32(q.0 as u32),
        None => seq![0u8],
    };
    let y: Seq<u8> = match t.status {
        TaskStatus::Yielded(pc) => seq![1u8] + le32(pc as u32),
        _ => seq![2u8],
    };
    lemma_field_lens(id, 0);
    assert(task_head_bytes(t) == le32(id) + x + y);
    lemma_le32_roundtrip(id, pre, x + y + post);
    assert(d =~= pre + le32(id) + (x + y + post));
    let p: int = pre.len() as int;
    assert(d[p + 4] == x[0]);
    match t.parent {
        Some(q) => {
            lemma_field_lens(q.0 as u32, 0);
            lemma_le32_roundtrip(q.0 as u32, pre + le32(id) + seq![1u8], y + post);
            assert(d =~= pre + le32(id) + seq![1u8] + le32(q.0 as u32) + (y + post));
        },
        None => {},
    }
    let p3: int = p + 4 + x.len() as int;
    assert(d[p3] == y[0]);
    match t.status {
        TaskStatus::Yielded(pc) => {
            lemma_field_lens(pc as u32, 0);
            lemma_le32_roundtrip(pc as u32, pre + le32(id) + x + seq![1u8], post);
            assert(d =~= pre + le32(id) + x + seq![1u8] + le32(pc as u32) + post);
        },
        _ => {},
    }
}

/// The entry of settled task `t`, lying at `pre.len()` in
/// `pre + bytes + post`, reads back as its form.
#[verifier::spinoff_prover]
#[verifier::rlimit(40)]
proof fn lemma_entry_back(pre: Seq<u8>, marks: Seq<bool>, t: Task, post: Seq<u8>, cur: TaskId, k: nat)
    requires
        marks.len() <= u32::MAX,
        task_fits(t),
        task_ids_fit(t),
        !(t.status is Running),
        task_refs_below(marks, t, k),
        pre.len() + task_bytes(marks, t).len() + post.len() <= usize::MAX,
    ensures
        parse_task_entry(pre + task_bytes(marks, t) + post, pre.len() as int, cur, k) == Ok::<
            (TaskForm, int),
            SnapshotError,
        >((task_form(marks, t, cur), pre.len() + task_bytes(marks, t).len() as int)),
{
    let d = pre + task_bytes(marks, t) + post;
    let p: int = pre.len() as int;
    let head = task_head_bytes(t);
    let cc = t.children@.len();
    let ids = ids_bytes(t.children@);
    let rest = task_rest_bytes(marks, t);
    lemma_field_lens(cc as u32, 0);
    lemma_ids_len(t.children@);
    assert(task_bytes(marks, t) =~= head + (le32(cc as u32) + ids) + rest);
    assert(d =~= pre + head + (le32(cc as u32) + ids + rest + post));
    lemma_head_back(pre, t, le32(cc as u32) + ids + rest + post);
    let p5: int = p + head.len();
    assert(u32_field(d, p5) == Ok::<(u32, int), SnapshotError>((cc as u32, p5 + 4))) by {
        lemma_le32_roundtrip(cc as u32, pre + head, ids + rest + post);
        assert(d =~= (pre + head) + le32(cc as u32) + (ids + rest + post));
    }
    let pre7 = pre + head + le32(cc as u32);
    assert(ids_at(d, p5 + 4, cc as u32 as nat) == Ok::<(Seq<TaskId>, int), SnapshotError>(
        (t.children@, p5 + 4 + ids.len()),
    )) by {
        assert(d =~= pre7 + ids + (rest + post));
        lemma_ids_back(pre7, t.children@, rest + post);
    }
    let p7: int = p5 + 4 + ids.len();
    assert(d =~= (pre7 + ids) + rest + post);
    assert(TaskId(t.id.0 as u32 as u64) == t.id);
    if t.id == cur {
        assert(skip_task_rest(d, p7) == Ok::<int, SnapshotError>(p7 + rest.len())) by {
            lemma_task_rest_over(marks, t);
            lemma_lies_in(pre7 + ids, rest, post);
            lemma_skip_task_rest_lies(d, rest, p7, 0, rest.len() as int);
        }
    } else {
        lemma_body_back(pre7 + ids, marks, t, post, k);
    }
}

/// The forms of the settled tasks among `tasks`, in table order.
pub open spec fn task_forms(marks: Seq<bool>, tasks: Seq<Task>, cur: TaskId) -> Seq<TaskForm>
    decreases tasks.len(),
{
    if tasks.len() == 0 {
        Seq::empty()
    } else if tasks.last().status is Running {
        task_forms(marks, tasks.drop_last(), cur)
    } else {
        task_forms(marks, tasks.drop_last(), cur).push(task_form(marks, tasks.last(), cur))
    }
}

/// Every task of `tasks` fits the format, and its references name marked
/// slots below `k`.
pub open spec fn tasks_ready(marks: Seq<bool>, tasks: Seq<Task>, k: nat) -> bool {
    forall|i: int|
        0 <= i < tasks.len() ==> task_fits(#[trigger] tasks[i]) && task_ids_fit(tasks[i]) && task_refs_below(
            marks,
            tasks[i],
            k,
        )
}

proof fn lemma_tasks_back(c: u32, marks: Seq<bool>, tasks: Seq<Task>, post: Seq<u8>, cur: TaskId, k: nat)
    requires
        marks.len() <= u32::MAX,
        tasks_ready(marks, tasks, k),
        4 + tasks_bytes(marks, tasks).len() + post.len() <= usize::MAX,
    ensures
        parse_tasks(le32(c) + tasks_bytes(marks, tasks) + post, settled_count(tasks), cur, k) == (
            task_forms(marks, tasks, cur),
            None::<SnapshotError>,
            4 + tasks_bytes(marks, tasks).len() as int,
        ),
    decreases tasks.len(),
{
    lemma_field_lens(c, 0);
    if tasks.len() > 0 {
        let rest = tasks.drop_last();
        let t = tasks.last();
        assert(t == tasks[tasks.len() - 1]);
        assert(tasks_ready(marks, rest, k)) by {
            assert forall|i: int| 0 <= i < rest.len() implies task_fits(#[trigger] rest[i]) && task_ids_fit(rest[i])
                && task_refs_below(marks, rest[i], k) by {
                assert(rest[i] == tasks[i]);
            }
        }
        let a = tasks_bytes(marks, rest);
        if t.status is Running {
            lemma_tasks_back(c, marks, rest, post, cur, k);
        } else {
            let b = task_bytes(marks, t);
            assert(le32(c) + tasks_bytes(marks, tasks) + post =~= le32(c) + a + (b + post));
            lemma_tasks_back(c, marks, rest, b + post, cur, k);
            assert(le32(c) + tasks_bytes(marks, tasks) + post =~= (le32(c) + a) + b + post);
            lemma_entry_back(le32(c) + a, marks, t, post, cur, k);
        }
    }
}

proof fn lemma_no_settled(marks: Seq<bool>, tasks: Seq<Task>, cur: TaskId)
    requires
        settled_count(tasks) == 0,
    ensures
        task_forms(marks, tasks, cur).len() == 0,
    decreases tasks.len(),
{
    if tasks.len() > 0 {
        lemma_no_settled(marks, tasks.drop_last(), cur);
    }
}

/// Every task's id, parent, children and resume point fit the format.
pub open spec fn task_ids_fit_all(vm: VM) -> bool {
    forall|i: int| 0 <= i < vm.task_registry.tasks@.len() ==> task_ids_fit(#[trigger] vm.task_registry.tasks@[i])
}

/// The task section a capture writes reads back as the settled tasks of the
/// machine, in table order: their ids, parents, statuses and children, and
/// for every task but `cur` (the current task of the machine it is restored
/// into) its stack and frames (references as positions) and its handle
/// entries. With `restore_task_tree`'s contract this gives the task registry
/// a restore rebuilds.
pub proof fn law_capture_tasks(vm: VM, marks: Seq<bool>, h: u64, s: Snapshot, cur: TaskId)
    requires
        capturable(vm),
        marks_reach(vm, marks),
        captured(vm, marks, h, s),
        fits_file(vm),
        task_ids_fit_all(vm),
        settled_count(vm.task_registry.tasks@) <= u32::MAX,
        file_bytes(s).len() <= usize::MAX,
    ensures
        task_reads(s, cur) == (
            task_forms(marks, vm.task_registry.tasks@, cur),
            None::<SnapshotError>,
        ),
{
    let objs = vm.heap.objects();
    let tasks = vm.task_registry.tasks@;
    let k = rank(marks, marks.len() as int);
    lemma_sections_lie(s);
    crate::snapshot::lemma_rank_bound(marks, marks.len() as int);
    if s.header.task_count == 0 {
        lemma_no_settled(marks, tasks, cur);
    } else {
        assert forall|j: int| 0 <= j < objs.len() implies object_fits(#[trigger] objs[j]) by {
            assert(fits_format(vm));
        }
        lemma_heap_over(objs, marks, objs.len() as int);
        crate::snapshot::lemma_roots_cover(vm);
        assert(tasks_ready(marks, tasks, k)) by {
            assert forall|i: int| 0 <= i < tasks.len() implies task_fits(#[trigger] tasks[i]) && task_ids_fit(tasks[i])
                && task_refs_below(marks, tasks[i], k) by {
                lemma_roots_below(vm, marks, tasks[i].stack@);
                assert forall|f: int| 0 <= f < tasks[i].frames@.len() implies refs_below(
                    marks,
                    (#[trigger] tasks[i].frames@[f]).locals@,
                    k,
                ) by {
                    lemma_roots_below(vm, marks, tasks[i].frames@[f].locals@);
                }
            }
        }
        let tc = s.header.task_count;
        lemma_le32_roundtrip(tc, Seq::empty(), tasks_bytes(marks, tasks));
        assert(s.task_section@ =~= Seq::<u8>::empty() + le32(tc) + tasks_bytes(marks, tasks));
        assert(s.task_section@ =~= le32(tc) + tasks_bytes(marks, tasks) + Seq::<u8>::empty());
        lemma_tasks_back(tc, marks, tasks, Seq::empty(), cur, k);
    }
}

/// The handle entries of `e`, after a count, read back in order.
proof fn lemma_scan_back(c: u32, e: Seq<(HandleId, IoHandle)>, post: Seq<u8>)
    requires
        forall|i: int| 0 <= i < e.len() ==> io_fits((#[trigger] e[i]).1@),
    ensures
        scan_io(le32(c) + io_entries_bytes(e) + post, e.len()) == (
            entry_views(e),
            4 + io_entries_bytes(e).len(),
        ),
    decreases e.len(),
{
    lemma_field_lens(c, 0);
    if e.len() > 0 {
        let a = io_entries_bytes(e.drop_last());
        let b = io_entry_bytes(e.last().0.0, e.last().1@);
        let d = le32(c) + io_entries_bytes(e) + post;
        assert(io_entries_bytes(e) == a + b);
        assert(d =~= le32(c) + a + (b + post));
        assert forall|i: int| 0 <= i < e.drop_last().len() implies io_fits((#[trigger] e.drop_last()[i]).1@) by {
            assert(e.drop_last()[i] == e[i]);
        }
        lemma_scan_back(c, e.drop_last(), b + post);
        assert(e.last() == e[e.len() - 1]);
        law_io_entry_roundtrip(e.last().0.0, e.last().1@, post);
        assert(d.skip(4 + a.len() as int) =~= b + post);
        assert(entry_views(e) =~= entry_views(e.drop_last()).push(entry_view(e.last().0.0, e.last().1@)));
    } else {
        assert(entry_views(e) =~= Seq::<IoEntryView>::empty());
    }
}

/// The I/O section a capture writes reads back as the entries of the
/// machine's handles, in table order.
pub proof fn law_capture_io(vm: VM, marks: Seq<bool>, h: u64, s: Snapshot)
    requires
        captured(vm, marks, h, s),
        entries_fit(vm.handles.entries@),
    ensures
        io_entries(s) == entry_views(vm.handles.entries@),
{
    let e = vm.handles.entries@;
    let c = e.len() as u32;
    lemma_field_lens(c, 0);
    assert forall|i: int| 0 <= i < e.len() implies io_fits((#[trigger] e[i]).1@) by {}
    lemma_scan_back(c, e, Seq::empty());
    assert(s.io_section@ =~= le32(c) + io_entries_bytes(e) + Seq::<u8>::empty());
    if e.len() > 0 {
        lemma_le32_roundtrip(c, Seq::empty(), io_entries_bytes(e));
        assert(s.io_section@ =~= Seq::<u8>::empty() + le32(c) + io_entries_bytes(e));
    } else {
        assert(entry_views(e) =~= Seq::<IoEntryView>::empty());
    }
}

} // verus!
