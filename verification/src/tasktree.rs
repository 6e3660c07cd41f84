//! Restoring the task tree of a snapshot.
//!
//! The task section lists the tasks that were not running: id, parent,
//! status, children, then each task's stack, frames and I/O handles. The
//! entry of the machine's current task only updates that task's children
//! and status (its state comes from the main sections); every other entry
//! becomes a task of the registry, its I/O handles reconnected.

use std::collections::HashMap;
use vstd::prelude::*;

use crate::io::{HandleId, HandleRecord, IoStrategy};
use crate::reconnect::{io_regs, put_all, records, ReconnectOutcome};
use crate::restore::{by_position, frames_are};
use crate::scan::{read_u32_field, read_u8_field, skip_heap_objects_at, skip_task_rest, u32_field, u8_field};
use crate::wire::u32_at;
use crate::snapshot::{
    io_snapshot_view, parse_frame, parse_frames, parse_io_entry, parse_refs, FrameForm, IoEntryView, IoHandleSnapshot,
    Snapshot, SnapshotError,
};
use crate::task::{Task, TaskId, TaskStatus};
use crate::value::Value;
use crate::vm::{CallFrame, VM};

verus! {

/// The state of a non-current task as its entry gives it.
pub struct BodyForm {
    pub stack: Seq<Value>,
    pub frames: Seq<FrameForm>,
    pub io: Seq<IoEntryView>,
}

/// A task entry as read back; the current task's entry has no body.
pub struct TaskForm {
    pub id: u32,
    pub parent: Option<u32>,
    pub status: TaskStatus,
    pub children: Seq<TaskId>,
    pub body: Option<BodyForm>,
}

/// `n` task ids (`u32`s) at `p`, and the position after them.
pub open spec fn ids_at(d: Seq<u8>, p: int, n: nat) -> Result<(Seq<TaskId>, int), SnapshotError>
    decreases n,
{
    if n == 0 {
        Ok((Seq::empty(), p))
    } else {
        match ids_at(d, p, (n - 1) as nat) {
            Ok((ids, q)) => match u32_field(d, q) {
                Ok((v, r)) => Ok((ids.push(TaskId(v as u64)), r)),
                Err(e) => Err(e),
            },
            Err(e) => Err(e),
        }
    }
}

/// `n` I/O entries at `p`, and the position after them; a broken entry is
/// an error.
pub open spec fn ios_at(d: Seq<u8>, p: int, n: nat) -> Result<(Seq<IoEntryView>, int), SnapshotError>
    decreases n,
{
    if n == 0 {
        Ok((Seq::empty(), p))
    } else {
        match ios_at(d, p, (n - 1) as nat) {
            Ok((es, q)) => match parse_io_entry(d.skip(q)) {
                Ok((e, m)) => Ok((es.push(e), q + m)),
                Err(e) => Err(e),
            },
            Err(e) => Err(e),
        }
    }
}

/// The counted stack values, frames and I/O entries of a task entry at `p`
/// (references resolved against `k` objects), and the position after them.
pub open spec fn task_body(d: Seq<u8>, p: int, k: nat) -> Result<(BodyForm, int), SnapshotError> {
    match u32_field(d, p) {
        Err(e) => Err(e),
        Ok((sc, q1)) => match parse_refs(d.skip(q1), sc as nat, k) {
            Err(e) => Err(e),
            Ok((vs, u1)) => match u32_field(d, q1 + u1) {
                Err(e) => Err(e),
                Ok((fc, q3)) => match parse_frames(d.skip(q3), fc as nat, k) {
                    Err(e) => Err(e),
                    Ok((fs, u2)) => match u32_field(d, q3 + u2) {
                        Err(e) => Err(e),
                        Ok((ic, q5)) => match ios_at(d, q5, ic as nat) {
                            Err(e) => Err(e),
                            Ok((ios, q6)) => Ok((BodyForm { stack: vs, frames: fs, io: ios }, q6)),
                        },
                    },
                },
            },
        },
    }
}

/// The optional `u32` after a flag byte of 1.
pub open spec fn flagged_u32(d: Seq<u8>, p: int, flag: u8) -> Result<(Option<u32>, int), SnapshotError> {
    if flag == 1 {
        match u32_field(d, p) {
            Ok((v, q)) => Ok((Some(v), q)),
            Err(e) => Err(e),
        }
    } else {
        Ok((None, p))
    }
}

/// The status a status byte (and resume point) stands for: 1 yielded,
/// anything else completed.
pub open spec fn status_of(kind: u8, pc: Option<u32>) -> TaskStatus {
    if kind == 1 {
        TaskStatus::Yielded(pc.unwrap() as usize)
    } else {
        TaskStatus::Completed
    }
}

/// How the task entry at `p` reads back, `cur` being the current task: its
/// form and the position after it.
pub open spec fn parse_task_entry(d: Seq<u8>, p: int, cur: TaskId, k: nat) -> Result<(TaskForm, int), SnapshotError> {
    match u32_field(d, p) {
        Err(e) => Err(e),
        Ok((id, p1)) => match u8_field(d, p1) {
            Err(e) => Err(e),
            Ok((flag, p2)) => match flagged_u32(d, p2, flag) {
                Err(e) => Err(e),
                Ok((parent, p3)) => match u8_field(d, p3) {
                    Err(e) => Err(e),
                    Ok((sk, p4)) => match flagged_u32(d, p4, sk) {
                        Err(e) => Err(e),
                        Ok((pc, p5)) => match u32_field(d, p5) {
                            Err(e) => Err(e),
                            Ok((cc, p6)) => match ids_at(d, p6, cc as nat) {
                                Err(e) => Err(e),
                                Ok((children, p7)) => {
                                    let status = status_of(sk, pc);
                                    if TaskId(id as u64) == cur {
                                        match skip_task_rest(d, p7) {
                                            Ok(p8) => Ok(
                                                (TaskForm { id, parent, status, children, body: None }, p8),
                                            ),
                                            Err(e) => Err(e),
                                        }
                                    } else {
                                        match task_body(d, p7, k) {
                                            Ok((b, p8)) => Ok(
                                                (TaskForm { id, parent, status, children, body: Some(b) }, p8),
                                            ),
                                            Err(e) => Err(e),
                                        }
                                    }
                                },
                            },
                        },
                    },
                },
            },
        },
    }
}

/// The task entries that read back among the first `n`, the error that
/// stopped reading (if any), and where reading stood.
pub open spec fn parse_tasks(d: Seq<u8>, n: nat, cur: TaskId, k: nat) -> (Seq<TaskForm>, Option<SnapshotError>, int)
    decreases n,
{
    if n == 0 {
        (Seq::empty(), None, 4)
    } else {
        let (fs, err, p) = parse_tasks(d, (n - 1) as nat, cur, k);
        if err is Some {
            (fs, err, p)
        } else {
            match parse_task_entry(d, p, cur, k) {
                Ok((f, q)) => (fs.push(f), None, q),
                Err(e) => (fs, Some(e), p),
            }
        }
    }
}

/// The task entries of snapshot `s` that read back (`cur` being the current
/// task), and the error that stopped reading, if any. Nothing is read when
/// the header counts no task; the heap section is walked first.
pub open spec fn task_reads(s: Snapshot, cur: TaskId) -> (Seq<TaskForm>, Option<SnapshotError>) {
    if s.header.task_count == 0 {
        (Seq::empty(), None)
    } else {
        match skip_heap_objects_at(s.heap_data@, 0, s.header.heap_count as nat) {
            Err(e) => (Seq::empty(), Some(e)),
            Ok(_) => match u32_field(s.task_section@, 0) {
                Err(e) => (Seq::empty(), Some(e)),
                Ok((tc, _)) => {
                    let (fs, err, _) = parse_tasks(s.task_section@, tc as nat, cur, s.header.heap_count as nat);
                    (fs, err)
                },
            },
        }
    }
}

/// A task's state without its executable containers.
pub struct TaskView {
    pub id: TaskId,
    pub parent: Option<TaskId>,
    pub children: Seq<TaskId>,
    pub status: TaskStatus,
    pub stack: Seq<Value>,
    pub frames: Seq<FrameView>,
    pub io: Seq<(HandleId, HandleRecord)>,
}

/// A call frame's function, instruction pointer and locals.
pub struct FrameView {
    pub function: usize,
    pub ip: usize,
    pub locals: Seq<Value>,
}

pub open spec fn frame_view(f: CallFrame) -> FrameView {
    FrameView { function: f.function, ip: f.ip, locals: f.locals@ }
}

/// The frame a frame read from a snapshot restores.
pub open spec fn form_view(g: FrameForm) -> FrameView {
    FrameView { function: g.function as usize, ip: g.ip as usize, locals: g.locals }
}

pub open spec fn task_view(t: Task) -> TaskView {
    TaskView {
        id: t.id,
        parent: t.parent,
        children: t.children@,
        status: t.status,
        stack: t.stack@,
        frames: t.frames@.map_values(|f: CallFrame| frame_view(f)),
        io: records(t.io_handles.entries@),
    }
}

pub open spec fn tasks_view(ts: Seq<Task>) -> Seq<TaskView> {
    ts.map_values(|t: Task| task_view(t))
}

/// `ts` with `t` registered: replacing the task with its id, or added.
pub open spec fn put_task(ts: Seq<TaskView>, t: TaskView) -> Seq<TaskView> {
    if exists|i: int| 0 <= i < ts.len() && (#[trigger] ts[i]).id == t.id {
        ts.update(choose|i: int| 0 <= i < ts.len() && (#[trigger] ts[i]).id == t.id, t)
    } else {
        ts.push(t)
    }
}

/// The task a non-current entry restores, its handles reconnected with the
/// host's outcomes `outs`.
pub open spec fn restored_task(f: TaskForm, b: BodyForm, outs: Seq<ReconnectOutcome>) -> TaskView {
    TaskView {
        id: TaskId(f.id as u64),
        parent: match f.parent {
            Some(p) => Some(TaskId(p as u64)),
            None => None,
        },
        children: f.children,
        status: f.status,
        stack: b.stack,
        frames: b.frames.map_values(|g: FrameForm| form_view(g)),
        io: put_all(Seq::empty(), io_regs(b.io, outs)),
    }
}

/// What restoring one entry does to the registry.
pub open spec fn apply_form(ts: Seq<TaskView>, f: TaskForm, outs: Seq<ReconnectOutcome>) -> Seq<TaskView> {
    match f.body {
        None => if exists|i: int| 0 <= i < ts.len() && (#[trigger] ts[i]).id == TaskId(f.id as u64) {
            let i = choose|i: int| 0 <= i < ts.len() && (#[trigger] ts[i]).id == TaskId(f.id as u64);
            ts.update(i, TaskView { children: f.children, status: f.status, ..ts[i] })
        } else {
            ts
        },
        Some(b) => put_task(ts, restored_task(f, b, outs)),
    }
}

/// What restoring the entries `fs` in order does to the registry.
pub open spec fn apply_forms(ts: Seq<TaskView>, fs: Seq<TaskForm>, outs: Seq<Seq<ReconnectOutcome>>) -> Seq<TaskView>
    decreases fs.len(),
{
    if fs.len() == 0 {
        ts
    } else {
        apply_form(apply_forms(ts, fs.drop_last(), outs), fs.last(), outs[fs.len() - 1])
    }
}

/// The executable content of a non-current task entry.
pub struct TaskBody {
    pub stack: Vec<Value>,
    pub frames: Vec<CallFrame>,
    pub io: Vec<IoHandleSnapshot>,
}

/// A task entry as read back.
pub struct TaskRecord {
    pub id: u32,
    pub parent: Option<u32>,
    pub status: TaskStatus,
    pub children: Vec<TaskId>,
    pub body: Option<TaskBody>,
}

pub open spec fn body_is(b: TaskBody, g: BodyForm) -> bool {
    &&& b.stack@ == g.stack
    &&& frames_are(b.frames@, g.frames)
    &&& b.io@.map_values(|s: IoHandleSnapshot| io_snapshot_view(s)) == g.io
}

pub open spec fn record_is(t: TaskRecord, f: TaskForm) -> bool {
    &&& t.id == f.id
    &&& t.parent == f.parent
    &&& t.status == f.status
    &&& t.children@ == f.children
    &&& match (t.body, f.body) {
        (None, None) => true,
        (Some(b), Some(g)) => body_is(b, g),
        _ => false,
    }
}

} // verus!

verus! {

proof fn lemma_ids_err(d: Seq<u8>, p: int, i: nat, n: nat)
    requires
        i <= n,
        ids_at(d, p, i) is Err,
    ensures
        ids_at(d, p, n) == ids_at(d, p, i),
    decreases n,
{
    if n > i {
        lemma_ids_err(d, p, i, (n - 1) as nat);
    }
}

proof fn lemma_ios_err(d: Seq<u8>, p: int, i: nat, n: nat)
    requires
        i <= n,
        ios_at(d, p, i) is Err,
    ensures
        ios_at(d, p, n) == ios_at(d, p, i),
    decreases n,
{
    if n > i {
        lemma_ios_err(d, p, i, (n - 1) as nat);
    }
}

/// Read `n` task ids.
fn read_ids(data: &[u8], pos: &mut usize, n: u32) -> (r: Result<Vec<TaskId>, SnapshotError>)
    ensures
        match ids_at(data@, *old(pos) as int, n as nat) {
            Ok((ids, q)) => r matches Ok(v) && v@ == ids && *final(pos) == q,
            Err(e) => r == Err::<Vec<TaskId>, SnapshotError>(e),
        },
{
    let ghost p0 = *pos as int;
    let mut out: Vec<TaskId> = Vec::new();
    let mut i: u32 = 0;
    while i < n
        invariant
            i <= n,
            p0 == *old(pos),
            ids_at(data@, p0, i as nat) == Ok::<(Seq<TaskId>, int), SnapshotError>((out@, *pos as int)),
        decreases n - i,
    {
        match read_u32_field(data, pos) {
            Ok(v) => out.push(TaskId(v as u64)),
            Err(e) => {
                proof {
                    lemma_ids_err(data@, p0, (i + 1) as nat, n as nat);
                }
                return Err(e);
            },
        }
        i = i + 1;
    }
    Ok(out)
}

/// Read `n` I/O entries; a broken one is an error.
fn read_ios(data: &[u8], pos: &mut usize, n: u32) -> (r: Result<Vec<IoHandleSnapshot>, SnapshotError>)
    requires
        *old(pos) <= data@.len(),
    ensures
        match ios_at(data@, *old(pos) as int, n as nat) {
            Ok((es, q)) => r matches Ok(v) && v@.map_values(|s: IoHandleSnapshot| io_snapshot_view(s)) == es
                && *final(pos) == q && q <= data@.len(),
            Err(e) => r == Err::<Vec<IoHandleSnapshot>, SnapshotError>(e),
        },
{
    let ghost p0 = *pos as int;
    let mut out: Vec<IoHandleSnapshot> = Vec::new();
    assert(out@.map_values(|s: IoHandleSnapshot| io_snapshot_view(s)) =~= Seq::<IoEntryView>::empty());
    let mut i: u32 = 0;
    while i < n
        invariant
            i <= n,
            p0 == *old(pos),
            *pos <= data@.len(),
            ios_at(data@, p0, i as nat) == Ok::<(Seq<IoEntryView>, int), SnapshotError>(
                (out@.map_values(|s: IoHandleSnapshot| io_snapshot_view(s)), *pos as int),
            ),
        decreases n - i,
    {
        let ghost before = *pos;
        let ghost pv = out@.map_values(|s: IoHandleSnapshot| io_snapshot_view(s));
        match Snapshot::deserialize_io_handle_snapshot(data, pos) {
            Ok(s) => {
                let ghost sv = io_snapshot_view(s);
                out.push(s);
                assert(out@.map_values(|s: IoHandleSnapshot| io_snapshot_view(s)) =~= pv.push(sv));
            },
            Err(e) => {
                proof {
                    lemma_ios_err(data@, p0, (i + 1) as nat, n as nat);
                }
                return Err(e);
            },
        }
        i = i + 1;
    }
    Ok(out)
}

/// Read `n` call frames.
fn read_frames(data: &[u8], pos: &mut usize, n: u32, pos_to_gc: &HashMap<u32, usize>, Ghost(k): Ghost<nat>) -> (r: Result<
    Vec<CallFrame>,
    SnapshotError,
>)
    requires
        *old(pos) <= data@.len(),
        pos_to_gc@ == by_position(k),
    ensures
        *old(pos) <= *final(pos) <= data@.len(),
        match parse_frames(data@.skip(*old(pos) as int), n as nat, k) {
            Ok((gs, used)) => r matches Ok(v) && frames_are(v@, gs) && *final(pos) == *old(pos) + used,
            Err(e) => r == Err::<Vec<CallFrame>, SnapshotError>(e),
        },
{
    let ghost d = data@.skip(*pos as int);
    let ghost start = *pos;
    let ghost mut gs: Seq<FrameForm> = Seq::empty();
    let mut frames: Vec<CallFrame> = Vec::new();
    let mut i: u32 = 0;
    while i < n
        invariant
            start == *old(pos),
            d == data@.skip(start as int),
            start <= *pos <= data@.len(),
            i <= n,
            pos_to_gc@ == by_position(k),
            frames_are(frames@, gs),
            parse_frames(d, i as nat, k) == Ok::<(Seq<FrameForm>, nat), SnapshotError>((gs, (*pos - start) as nat)),
        decreases n - i,
    {
        let ghost before = *pos;
        assert(d.skip(before - start) =~= data@.skip(before as int));
        let frame = match Snapshot::read_frame(data, pos, pos_to_gc, Ghost(k)) {
            Ok(f) => f,
            Err(e) => {
                proof {
                    crate::restore::lemma_frames_err(d, (i + 1) as nat, n as nat, k);
                }
                return Err(e);
            },
        };
        let ghost g = parse_frame(data@.skip(before as int), k)->Ok_0.0;
        let ghost f0 = frames@;
        frames.push(frame);
        proof {
            gs = gs.push(g);
            assert forall|p: int| 0 <= p < gs.len() implies crate::snapshot::frame_is(#[trigger] frames@[p], gs[p]) by {
                if p < gs.len() - 1 {
                    assert(frames@[p] == f0[p]);
                }
            }
        }
        i = i + 1;
    }
    Ok(frames)
}

/// Read the optional `u32` after a flag byte of 1.
fn read_flagged(data: &[u8], pos: &mut usize, flag: u8) -> (r: Result<Option<u32>, SnapshotError>)
    ensures
        match flagged_u32(data@, *old(pos) as int, flag) {
            Ok((v, q)) => r == Ok::<Option<u32>, SnapshotError>(v) && *final(pos) == q,
            Err(e) => r == Err::<Option<u32>, SnapshotError>(e),
        },
{
    if flag == 1 {
        let v = read_u32_field(data, pos)?;
        Ok(Some(v))
    } else {
        Ok(None)
    }
}

/// Read the stack values, frames and I/O entries of a non-current task.
fn read_task_body(data: &[u8], pos: &mut usize, pos_to_gc: &HashMap<u32, usize>, Ghost(k): Ghost<nat>) -> (r: Result<
    TaskBody,
    SnapshotError,
>)
    requires
        pos_to_gc@ == by_position(k),
    ensures
        match task_body(data@, *old(pos) as int, k) {
            Ok((g, q)) => r matches Ok(b) && body_is(b, g) && *final(pos) == q && q <= data@.len(),
            Err(e) => r == Err::<TaskBody, SnapshotError>(e),
        },
{
    let sc = read_u32_field(data, pos)?;
    let stack = Snapshot::read_value_refs(data, pos, sc, pos_to_gc, Ghost(k))?;
    let fc = read_u32_field(data, pos)?;
    let frames = read_frames(data, pos, fc, pos_to_gc, Ghost(k))?;
    let ic = read_u32_field(data, pos)?;
    let io = read_ios(data, pos, ic)?;
    Ok(TaskBody { stack, frames, io })
}

/// Read one task entry, `cur` being the current task.
fn read_task_entry(data: &[u8], pos: &mut usize, cur: TaskId, pos_to_gc: &HashMap<u32, usize>, Ghost(k): Ghost<nat>) -> (r:
    Result<TaskRecord, SnapshotError>)
    requires
        pos_to_gc@ == by_position(k),
    ensures
        match parse_task_entry(data@, *old(pos) as int, cur, k) {
            Ok((f, q)) => r matches Ok(t) && record_is(t, f) && *final(pos) == q,
            Err(e) => r == Err::<TaskRecord, SnapshotError>(e),
        },
{
    let id = read_u32_field(data, pos)?;
    let flag = read_u8_field(data, pos)?;
    let parent = read_flagged(data, pos, flag)?;
    let sk = read_u8_field(data, pos)?;
    let pc = read_flagged(data, pos, sk)?;
    let status = if sk == 1 {
        TaskStatus::Yielded(pc.unwrap() as usize)
    } else {
        TaskStatus::Completed
    };
    let cc = read_u32_field(data, pos)?;
    let children = read_ids(data, pos, cc)?;
    if id as u64 == cur.0 {
        Snapshot::skip_task_sections(data, pos)?;
        Ok(TaskRecord { id, parent, status, children, body: None })
    } else {
        let body = read_task_body(data, pos, pos_to_gc, Ghost(k))?;
        Ok(TaskRecord { id, parent, status, children, body: Some(body) })
    }
}

} // verus!

verus! {

proof fn lemma_tasks_err(d: Seq<u8>, i: nat, n: nat, cur: TaskId, k: nat)
    requires
        i <= n,
        parse_tasks(d, i, cur, k).1 is Some,
    ensures
        parse_tasks(d, n, cur, k) == parse_tasks(d, i, cur, k),
    decreases n,
{
    if n > i {
        lemma_tasks_err(d, i, (n - 1) as nat, cur, k);
    }
}

fn copy_ids(v: &Vec<TaskId>) -> (r: Vec<TaskId>)
    ensures
        r@ == v@,
{
    let mut out: Vec<TaskId> = Vec::new();
    let mut i: usize = 0;
    while i < v.len()
        invariant
            i <= v@.len(),
            out@ == v@.take(i as int),
        decreases v@.len() - i,
    {
        out.push(v[i]);
        i = i + 1;
        assert(out@ =~= v@.take(i as int));
    }
    assert(v@.take(i as int) =~= v@);
    out
}

fn copy_values(v: &Vec<Value>) -> (r: Vec<Value>)
    ensures
        r@ == v@,
{
    let mut out: Vec<Value> = Vec::new();
    let mut i: usize = 0;
    while i < v.len()
        invariant
            i <= v@.len(),
            out@ == v@.take(i as int),
        decreases v@.len() - i,
    {
        out.push(v[i]);
        i = i + 1;
        assert(out@ =~= v@.take(i as int));
    }
    assert(v@.take(i as int) =~= v@);
    out
}

fn copy_frames(v: &Vec<CallFrame>) -> (r: Vec<CallFrame>)
    ensures
        r@.len() == v@.len(),
        forall|i: int|
            0 <= i < v@.len() ==> (#[trigger] r@[i]).function == v@[i].function && r@[i].ip == v@[i].ip && r@[i].locals@
                == v@[i].locals@,
{
    let mut out: Vec<CallFrame> = Vec::new();
    let mut i: usize = 0;
    while i < v.len()
        invariant
            i <= v@.len(),
            out@.len() == i,
            forall|j: int|
                0 <= j < i ==> (#[trigger] out@[j]).function == v@[j].function && out@[j].ip == v@[j].ip && out@[j].locals@
                    == v@[j].locals@,
        decreases v@.len() - i,
    {
        let f = &v[i];
        out.push(CallFrame { function: f.function, ip: f.ip, locals: copy_values(&f.locals) });
        i = i + 1;
    }
    out
}

proof fn lemma_put_task(e: Seq<Task>, e2: Seq<Task>, t: crate::task::TaskTable, task: Task)
    requires
        t.tasks@ == e,
        t.wf(),
        match t.position_of(task.id) {
            Some(i) => e2 == e.update(i, task),
            None => e2 == e.push(task),
        },
    ensures
        tasks_view(e2) == put_task(tasks_view(e), task_view(task)),
{
    let r = tasks_view(e);
    let id = task.id;
    if exists|i: int| 0 <= i < e.len() && (#[trigger] e[i]).id == id {
        let i = choose|i: int| 0 <= i < e.len() && (#[trigger] e[i]).id == id;
        assert(r[i].id == id);
        let j = choose|j: int| 0 <= j < r.len() && (#[trigger] r[j]).id == id;
        assert(e[j].id == id);
        if i != j {
            if i < j {
                assert(e[i].id != e[j].id);
            } else {
                assert(e[j].id != e[i].id);
            }
        }
        assert(tasks_view(e2) =~= r.update(j, task_view(task)));
    } else {
        assert(!exists|j: int| 0 <= j < r.len() && (#[trigger] r[j]).id == id) by {
            if exists|j: int| 0 <= j < r.len() && (#[trigger] r[j]).id == id {
                let j = choose|j: int| 0 <= j < r.len() && (#[trigger] r[j]).id == id;
                assert(e[j].id == id);
            }
        }
        assert(tasks_view(e2) =~= r.push(task_view(task)));
    }
}

impl Snapshot {
    /// The task entries of the snapshot that read back, `cur` being the
    /// current task, and the error that stopped reading, if any.
    pub fn read_task_entries(&self, cur: TaskId) -> (r: (Vec<TaskRecord>, Option<SnapshotError>))
        ensures
            r.0@.len() == task_reads(*self, cur).0.len(),
            forall|i: int| 0 <= i < r.0@.len() ==> record_is(#[trigger] r.0@[i], task_reads(*self, cur).0[i]),
            r.1 == task_reads(*self, cur).1,
    {
        broadcast use vstd::std_specs::hash::group_hash_axioms;

        let mut out: Vec<TaskRecord> = Vec::new();
        if self.header.task_count == 0 {
            return (out, None);
        }
        let mut hpos: usize = 0;
        if let Err(e) = Snapshot::skip_heap_objects(self.heap_data.as_slice(), &mut hpos, self.header.heap_count) {
            return (out, Some(e));
        }
        let n = self.header.heap_count;
        let mut pos_to_gc: HashMap<u32, usize> = HashMap::new();
        let mut p: u32 = 0;
        assert(pos_to_gc@ =~= by_position(0));
        while p < n
            invariant
                p <= n,
                pos_to_gc@ == by_position(p as nat),
            decreases n - p,
        {
            pos_to_gc.insert(p, p as usize);
            assert(pos_to_gc@ =~= by_position((p + 1) as nat));
            p = p + 1;
        }
        let data = self.task_section.as_slice();
        let mut pos: usize = 0;
        let tc = match read_u32_field(data, &mut pos) {
            Ok(v) => v,
            Err(e) => return (out, Some(e)),
        };
        let ghost k = n as nat;
        let ghost mut forms: Seq<TaskForm> = Seq::empty();
        let mut i: u32 = 0;
        while i < tc
            invariant
                data@ == self.task_section@,
                data@.len() >= 4,
                tc == u32_at(data@, 0),
                self.header.task_count != 0,
                skip_heap_objects_at(self.heap_data@, 0, self.header.heap_count as nat) is Ok,
                k == self.header.heap_count as nat,
                pos_to_gc@ == by_position(k),
                i <= tc,
                out@.len() == forms.len(),
                forall|j: int| 0 <= j < out@.len() ==> record_is(#[trigger] out@[j], forms[j]),
                parse_tasks(data@, i as nat, cur, k) == (forms, None::<SnapshotError>, pos as int),
            decreases tc - i,
        {
            let ghost before = pos;
            match read_task_entry(data, &mut pos, cur, &pos_to_gc, Ghost(k)) {
                Ok(t) => {
                    let ghost f = parse_task_entry(data@, before as int, cur, k)->Ok_0.0;
                    let ghost o0 = out@;
                    out.push(t);
                    proof {
                        forms = forms.push(f);
                        assert forall|j: int| 0 <= j < out@.len() implies record_is(#[trigger] out@[j], forms[j]) by {
                            if j < out@.len() - 1 {
                                assert(out@[j] == o0[j]);
                            }
                        }
                    }
                },
                Err(e) => {
                    proof {
                        assert(parse_tasks(data@, (i + 1) as nat, cur, k) == (forms, Some(e), before as int));
                        lemma_tasks_err(data@, (i + 1) as nat, tc as nat, cur, k);
                        assert(u32_field(self.task_section@, 0) == Ok::<(u32, int), SnapshotError>((tc, 4)));
                        assert(parse_tasks(self.task_section@, tc as nat, cur, self.header.heap_count as nat) == (forms, Some(e), before as int));
                        assert(task_reads(*self, cur).0 == forms);
                    }
                    return (out, Some(e));
                },
            }
            i = i + 1;
        }
        (out, None)
    }
}

} // verus!

verus! {

/// The host's outcomes, by entry.
pub open spec fn outcome_seqs(o: Seq<Vec<ReconnectOutcome>>) -> Seq<Seq<ReconnectOutcome>> {
    o.map_values(|v: Vec<ReconnectOutcome>| v@)
}

/// Build the task of a non-current entry, reconnecting its handles with the
/// host's outcomes `outs`.
fn build_task(rec: &TaskRecord, b: &TaskBody, outs: &Vec<ReconnectOutcome>, Ghost(f): Ghost<TaskForm>, Ghost(g): Ghost<BodyForm>) -> (t: Task)
    requires
        record_is(*rec, f),
        f.body == Some(g),
        body_is(*b, g),
        outs@.len() == g.io.len(),
    ensures
        task_view(t) == restored_task(f, g, outs@),
{
    let parent = match rec.parent {
        Some(p) => Some(TaskId(p as u64)),
        None => None,
    };
    let mut task = Task::new(TaskId(rec.id as u64), parent);
    task.children = copy_ids(&rec.children);
    task.status = rec.status;
    task.stack = copy_values(&b.stack);
    task.frames = copy_frames(&b.frames);
    let ghost regs = io_regs(g.io, outs@);
    assert(task.io_handles.wf());
    assert(records(task.io_handles.entries@) =~= put_all(Seq::empty(), regs.take(0)));
    let mut j: usize = 0;
    while j < b.io.len()
        invariant
            b.io@.map_values(|s: IoHandleSnapshot| io_snapshot_view(s)) == g.io,
            outs@.len() == g.io.len(),
            regs == io_regs(g.io, outs@),
            j <= b.io@.len(),
            task.io_handles.wf(),
            records(task.io_handles.entries@) == put_all(Seq::empty(), regs.take(j as int)),
            task.id == TaskId(rec.id as u64),
            task.parent == parent,
            task.children@ == rec.children@,
            task.status == rec.status,
            task.stack@ == b.stack@,
            task.frames@.len() == b.frames@.len(),
            forall|i: int|
                0 <= i < b.frames@.len() ==> (#[trigger] task.frames@[i]).function == b.frames@[i].function
                    && task.frames@[i].ip == b.frames@[i].ip && task.frames@[i].locals@ == b.frames@[i].locals@,
        decreases b.io@.len() - j,
    {
        let snap = &b.io[j];
        assert(io_snapshot_view(*snap) == g.io[j as int]);
        let strategy = IoStrategy::from_tag(snap.strategy);
        let (handle, _status) = Snapshot::reconnect_handle(snap, strategy, &outs[j]);
        let ghost t0 = task.io_handles;
        let ghost h = handle;
        task.io_handles.insert(HandleId(snap.id), handle);
        proof {
            crate::reconnect::lemma_put_records(t0.entries@, task.io_handles.entries@, t0, HandleId(snap.id), h);
            assert(regs.take(j + 1).drop_last() =~= regs.take(j as int));
            assert(regs.take(j + 1).last() == regs[j as int]);
        }
        j = j + 1;
    }
    assert(regs.take(j as int) =~= regs);
    let ghost fv = task.frames@.map_values(|f: CallFrame| frame_view(f));
    assert(fv =~= g.frames.map_values(|x: FrameForm| form_view(x))) by {
        assert forall|i: int| 0 <= i < g.frames.len() implies #[trigger] fv[i] == form_view(g.frames[i]) by {
            assert(crate::snapshot::frame_is(b.frames@[i], g.frames[i]));
        }
    }
    task
}

impl Snapshot {
    /// Rebuild the task registry from the task section: the current task's
    /// entry sets its children and status (if it is registered); every other
    /// entry registers its task, with its handles reconnected using the
    /// host's outcomes (`outcomes[i]` for entry `i`, one per handle). Entries
    /// are applied in order up to the first one that does not read, whose
    /// error is returned.
    pub fn restore_task_tree(&self, vm: &mut VM, outcomes: &Vec<Vec<ReconnectOutcome>>) -> (r: Result<(), SnapshotError>)
        requires
            old(vm).wf(),
            outcomes@.len() == task_reads(*self, old(vm).current_task_id).0.len(),
            forall|i: int|
                0 <= i < outcomes@.len() ==> (task_reads(*self, old(vm).current_task_id).0[i].body matches Some(b) ==> (
                #[trigger] outcomes@[i])@.len() == b.io.len()),
        ensures
            final(vm).wf(),
            tasks_view(final(vm).task_registry.tasks@) == apply_forms(
                tasks_view(old(vm).task_registry.tasks@),
                task_reads(*self, old(vm).current_task_id).0,
                outcome_seqs(outcomes@),
            ),
            r == match task_reads(*self, old(vm).current_task_id).1 {
                Some(e) => Err::<(), SnapshotError>(e),
                None => Ok(()),
            },
            final(vm).stack == old(vm).stack,
            final(vm).frames == old(vm).frames,
            final(vm).functions == old(vm).functions,
            final(vm).running == old(vm).running,
            final(vm).heap == old(vm).heap,
            final(vm).handles == old(vm).handles,
            final(vm).current_task_id == old(vm).current_task_id,
            final(vm).pending == old(vm).pending,
            final(vm).snapshot == old(vm).snapshot,
            final(vm).next_handle_id == old(vm).next_handle_id,
    {
        let cur = vm.current_task_id;
        let (recs, err) = self.read_task_entries(cur);
        let ghost forms = task_reads(*self, cur).0;
        let ghost outs = outcome_seqs(outcomes@);
        let mut i: usize = 0;
        while i < recs.len()
            invariant
                forms == task_reads(*self, old(vm).current_task_id).0,
                cur == old(vm).current_task_id,
                outs == outcome_seqs(outcomes@),
                recs@.len() == forms.len(),
                outcomes@.len() == forms.len(),
                forall|j: int| 0 <= j < recs@.len() ==> record_is(#[trigger] recs@[j], forms[j]),
                forall|j: int|
                    0 <= j < outcomes@.len() ==> (forms[j].body matches Some(b) ==> (#[trigger] outcomes@[j])@.len()
                        == b.io.len()),
                i <= recs@.len(),
                vm.wf(),
                tasks_view(vm.task_registry.tasks@) == apply_forms(tasks_view(old(vm).task_registry.tasks@), forms.take(i as int), outs),
                vm.stack == old(vm).stack,
                vm.frames == old(vm).frames,
                vm.functions == old(vm).functions,
                vm.running == old(vm).running,
                vm.heap == old(vm).heap,
                vm.handles == old(vm).handles,
                vm.current_task_id == old(vm).current_task_id,
                vm.pending == old(vm).pending,
                vm.snapshot == old(vm).snapshot,
                vm.next_handle_id == old(vm).next_handle_id,
            decreases recs@.len() - i,
        {
            let rec = &recs[i];
            let ghost f = forms[i as int];
            let ghost before = tasks_view(vm.task_registry.tasks@);
            assert(forms.take(i + 1).drop_last() =~= forms.take(i as int));
            assert(forms.take(i + 1).last() == f);
            assert(record_is(*rec, f));
            match &rec.body {
                None => {
                    let id = TaskId(rec.id as u64);
                    match vm.task_registry.position(id) {
                        Some(j) => {
                            let ghost e = vm.task_registry.tasks@;
                            proof {
                                let c = choose|c: int| 0 <= c < before.len() && (#[trigger] before[c]).id == id;
                                assert(before[j as int].id == id);
                                assert(e[c].id == id);
                                if c != j {
                                    if c < j {
                                        assert(e[c].id != e[j as int].id);
                                    } else {
                                        assert(e[j as int].id != e[c].id);
                                    }
                                }
                            }
                            let children = copy_ids(&rec.children);
                            vm.task_registry.tasks[j].children = children;
                            vm.task_registry.tasks[j].status = rec.status;
                            proof {
                                assert(tasks_view(vm.task_registry.tasks@) =~= before.update(
                                    j as int,
                                    TaskView { children: f.children, status: f.status, ..before[j as int] },
                                ));
                                assert forall|a: int, b: int| 0 <= a < b < vm.task_registry.tasks@.len() implies (
                                #[trigger] vm.task_registry.tasks@[a]).id != (#[trigger] vm.task_registry.tasks@[b]).id by {
                                    assert(e[a].id != e[b].id);
                                }
                            }
                        },
                        None => {
                            assert(!exists|c: int| 0 <= c < before.len() && (#[trigger] before[c]).id == id) by {
                                if exists|c: int| 0 <= c < before.len() && (#[trigger] before[c]).id == id {
                                    let c = choose|c: int| 0 <= c < before.len() && (#[trigger] before[c]).id == id;
                                    assert(vm.task_registry.tasks@[c].id == id);
                                }
                            }
                        },
                    }
                },
                Some(b) => {
                    let ghost g = f.body.unwrap();
                    let task = build_task(rec, b, &outcomes[i], Ghost(f), Ghost(g));
                    let ghost t0 = vm.task_registry;
                    let ghost tk = task;
                    vm.task_registry.insert(task);
                    proof {
                        lemma_put_task(t0.tasks@, vm.task_registry.tasks@, t0, tk);
                    }
                },
            }
            i = i + 1;
        }
        assert(forms.take(i as int) =~= forms);
        match err {
            Some(e) => Err(e),
            None => Ok(()),
        }
    }
}

} // verus!
