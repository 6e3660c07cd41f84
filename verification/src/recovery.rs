//! What restoring a captured snapshot gives back: its tasks, its handles
//! (each kind reconnected as it was captured), and its machine state after
//! a trip through the file.

use vstd::prelude::*;

use crate::io::{spec_strategy_from_tag, HandleId, HandleRecord, IoStrategy};
use crate::readback::{entry_views, law_capture_io, law_capture_tasks, task_forms, task_ids_fit_all};
use crate::reconnect::{
    io_entries, io_regs, outcome_view, put_all, records, spec_reconnect, ReconnectOutcome, StatusView,
};
use crate::restore::{captured_forms, frame_forms, renum_all, restore_spec, restored_vm};
use crate::snapshot::FrameForm;
use crate::sections::{entries_fit, fits_file, law_capture_file_restore};
use crate::snapfile::{file_bytes, parts_read_back, read_file, snapshot_parts, FileRead};
use crate::snapshot::{capturable, captured, magic, marks_reach, settled_count, IoEntryView, Snapshot, SnapshotError};
use crate::task::{Task, TaskId};
use crate::tasktree::{
    apply_form, apply_forms, form_view, outcome_seqs, task_reads, task_view, tasks_view, FrameView, TaskForm, TaskView,
};
use crate::readback::task_ids_fit;
use crate::vm::VM;
use crate::readback::entry_view;
use crate::reconnect::{file_params, param_opt_bytes, param_text, spec_request, OutcomeView, RequestView};
use crate::snapshot::{io_fits, io_parts, opt_field, text_field};
use crate::wire::{le32, le64, lemma_le32_roundtrip, lemma_le64_roundtrip};
use vstd::utf8::encode_utf8;

verus! {

/// Restoring the task section of a captured snapshot into a machine (as
/// `restore_task_tree` does) succeeds, and the registry then holds the
/// machine's tasks with the captured settled tasks applied: their parents,
/// statuses and children, and for every task but the current one their
/// stacks, frames and reconnected handles.
pub proof fn law_capture_restore_tasks(
    vm: VM,
    marks: Seq<bool>,
    h: u64,
    s: Snapshot,
    before: VM,
    after: VM,
    outs: Seq<Vec<ReconnectOutcome>>,
    r: Result<(), SnapshotError>,
)
    requires
        capturable(vm),
        marks_reach(vm, marks),
        captured(vm, marks, h, s),
        fits_file(vm),
        task_ids_fit_all(vm),
        settled_count(vm.task_registry.tasks@) <= u32::MAX,
        file_bytes(s).len() <= usize::MAX,
        tasks_view(after.task_registry.tasks@) == apply_forms(
            tasks_view(before.task_registry.tasks@),
            task_reads(s, before.current_task_id).0,
            outcome_seqs(outs),
        ),
        r == match task_reads(s, before.current_task_id).1 {
            Some(e) => Err::<(), SnapshotError>(e),
            None => Ok(()),
        },
    ensures
        r is Ok,
        tasks_view(after.task_registry.tasks@) == apply_forms(
            tasks_view(before.task_registry.tasks@),
            task_forms(marks, vm.task_registry.tasks@, before.current_task_id),
            outcome_seqs(outs),
        ),
{
    law_capture_tasks(vm, marks, h, s, before.current_task_id);
}

/// A handle that needs nothing from outside to come back: a timer or a
/// standard stream.
pub open spec fn self_contained(h: HandleRecord) -> bool {
    h is Timer || h is Stdin || h is Stdout || h is Stderr
}

/// Restoring the I/O section of a captured snapshot into a machine (as
/// `restore_io_handles` does) registers each captured handle, under its id
/// and in table order, as reconnecting its entry with the host's outcome
/// makes it; handles the snapshot does not name are left as they were. A
/// timer or standard stream comes back exactly as it was captured (its
/// delay, or its buffered bytes), reported reconnected, whatever the host
/// answered.
pub proof fn law_capture_restore_io(
    vm: VM,
    marks: Seq<bool>,
    h: u64,
    s: Snapshot,
    before: VM,
    after: VM,
    outs: Seq<ReconnectOutcome>,
)
    requires
        captured(vm, marks, h, s),
        entries_fit(vm.handles.entries@),
        records(after.handles.entries@) == put_all(
            records(before.handles.entries@),
            io_regs(io_entries(s), outs),
        ),
    ensures
        records(after.handles.entries@) == put_all(
            records(before.handles.entries@),
            io_regs(entry_views(vm.handles.entries@), outs),
        ),
        forall|i: int|
            0 <= i < vm.handles.entries@.len() && self_contained((#[trigger] vm.handles.entries@[i]).1@) ==> io_regs(
                entry_views(vm.handles.entries@),
                outs,
            )[i] == (vm.handles.entries@[i].0, vm.handles.entries@[i].1@) && spec_reconnect(
                entry_views(vm.handles.entries@)[i],
                spec_strategy_from_tag(entry_views(vm.handles.entries@)[i].strategy),
                outcome_view(outs[i]),
            ).1 == StatusView::Reconnected,
{
    law_capture_io(vm, marks, h, s);
    let e = vm.handles.entries@;
    assert forall|i: int| 0 <= i < e.len() && self_contained((#[trigger] e[i]).1@) implies io_regs(entry_views(e), outs)[i]
        == (e[i].0, e[i].1@) && spec_reconnect(
        entry_views(e)[i],
        spec_strategy_from_tag(entry_views(e)[i].strategy),
        outcome_view(outs[i]),
    ).1 == StatusView::Reconnected by {
        let rec = e[i].1@;
        if let HandleRecord::Timer { ms, strategy } = rec {
            lemma_le64_roundtrip(ms, Seq::empty(), Seq::empty());
            assert(Seq::<u8>::empty() + le64(ms) + Seq::<u8>::empty() =~= le64(ms));
        }
        assert(e[i].0 == HandleId(e[i].0.0));
    }
}

/// A captured snapshot written to its file and read back has the captured
/// header, and restoring it into any machine with the hash it was taken with
/// succeeds and rebuilds the captured heap, frames and stack, exactly as
/// restoring the snapshot itself does.
pub proof fn law_capture_file_restore_into(
    vm: VM,
    marks: Seq<bool>,
    h: u64,
    s: Snapshot,
    back: Snapshot,
    before: VM,
    after: VM,
    r: Result<(), SnapshotError>,
)
    requires
        vm.wf(),
        capturable(vm),
        fits_file(vm),
        marks_reach(vm, marks),
        captured(vm, marks, h, s),
        file_bytes(s).len() <= usize::MAX,
        snapshot_parts(back) == parts_read_back(s),
        back.header.magic@ == magic(),
        restore_spec(back, before, h, after, r),
    ensures
        read_file(file_bytes(s)) == FileRead::Parsed(parts_read_back(s)),
        back.header.magic@ == s.header.magic@,
        back.header.version == s.header.version,
        back.header.code_hash == s.header.code_hash,
        back.header.timestamp == s.header.timestamp,
        back.header.heap_count == s.header.heap_count,
        back.header.frame_count == s.header.frame_count,
        back.header.stack_count == s.header.stack_count,
        back.header.io_handle_count == s.header.io_handle_count,
        back.header.task_count == s.header.task_count,
        r is Ok,
        restored_vm(
            before,
            after,
            captured_forms(vm.heap.objects(), marks, vm.heap.objects().len() as int),
            frame_forms(marks, vm.frames@),
            renum_all(marks, vm.stack@),
        ),
{
    law_capture_file_restore(vm, marks, h, s, back);
}

/// A text field followed by anything reads back as its text, ending after
/// the text's bytes.
proof fn lemma_param_text(t: Seq<char>, rest: Seq<u8>)
    requires
        4 + encode_utf8(t).len() + rest.len() <= u32::MAX,
    ensures
        param_text(text_field(t) + rest) == (t, 4 + encode_utf8(t).len() as int),
{
    let b = encode_utf8(t);
    let d = text_field(t) + rest;
    lemma_le32_roundtrip(b.len() as u32, Seq::empty(), b + rest);
    assert(d =~= Seq::<u8>::empty() + le32(b.len() as u32) + (b + rest));
    assert(d.subrange(4, 4 + b.len() as int) =~= b);
    vstd::utf8::encode_utf8_valid_utf8(t);
    vstd::utf8::encode_utf8_decode_utf8(t);
}

/// Optional bytes written as a field read back as themselves, ending after
/// the field.
proof fn lemma_opt_bytes(ob: Option<Seq<u8>>, pre: Seq<u8>, post: Seq<u8>)
    requires
        pre.len() + opt_field(ob).len() + post.len() <= u32::MAX,
    ensures
        opt_field(ob).len() == 4 + match ob {
            Some(b) => b.len(),
            None => 0,
        },
        param_opt_bytes(pre + opt_field(ob) + post, pre.len() as int) == (ob, pre.len() + opt_field(ob).len() as int),
{
    let d = pre + opt_field(ob) + post;
    match ob {
        Some(b) => {
            lemma_le32_roundtrip(b.len() as u32, pre, b + post);
            assert(d =~= pre + le32(b.len() as u32) + (b + post));
            assert(d.subrange(pre.len() + 4int, pre.len() + 4 + b.len() as int) =~= b);
        },
        None => {
            lemma_le32_roundtrip(0xFFFF_FFFFu32, pre, post);
        },
    }
}

/// A captured HTTP connection comes back as the same request: its URL,
/// method, body and strategy are kept and replayed. When the host's replay
/// answered, the answer becomes the last response, and the connection is
/// reported degraded exactly when a captured response differs from it;
/// when it did not, the captured response stays and the connection is
/// reported failed.
pub proof fn law_http_handle_back(id: u32, h: HandleRecord, o: OutcomeView)
    requires
        h is HttpConnection,
        io_fits(h),
    ensures
        ({
            let e = entry_view(id, h);
            let (rec, st) = spec_reconnect(e, spec_strategy_from_tag(e.strategy), o);
            &&& spec_request(e) == RequestView::Replay {
                url: h->HttpConnection_url,
                method: h->HttpConnection_method,
                body: h->HttpConnection_body,
            }
            &&& rec is HttpConnection
            &&& rec->HttpConnection_url == h->HttpConnection_url
            &&& rec->HttpConnection_method == h->HttpConnection_method
            &&& rec->HttpConnection_body == h->HttpConnection_body
            &&& rec->HttpConnection_strategy == h->HttpConnection_strategy
            &&& match o {
                OutcomeView::Reached(resp) => rec->HttpConnection_last_response == Some(resp) && (st is Degraded
                    <==> (h->HttpConnection_last_response is Some && h->HttpConnection_last_response != Some(resp)))
                    && !(st is Failed),
                _ => rec->HttpConnection_last_response == h->HttpConnection_last_response && st is Failed,
            }
        }),
{
    let url = h->HttpConnection_url;
    let mt = seq![crate::snapshot::method_tag(h->HttpConnection_method)];
    let ob = opt_field(h->HttpConnection_body);
    let ol = opt_field(h->HttpConnection_last_response);
    let tf = text_field(url);
    let params = tf + mt + ob + ol;
    assert(params == io_parts(h).2);
    lemma_le32_roundtrip(encode_utf8(url).len() as u32, Seq::empty(), Seq::empty());
    lemma_opt_bytes(h->HttpConnection_body, tf + mt, ol);
    lemma_opt_bytes(h->HttpConnection_last_response, tf + mt + ob, Seq::empty());
    assert(params =~= tf + (mt + ob + ol));
    lemma_param_text(url, mt + ob + ol);
    let p = 4 + encode_utf8(url).len() as int;
    assert(tf.len() == p);
    assert(params[p] == crate::snapshot::method_tag(h->HttpConnection_method));
    assert(params =~= (tf + mt) + ob + ol);
    assert(params =~= (tf + mt + ob) + ol + Seq::<u8>::empty());
}

/// A reconnected handle is live: a file reported reconnected is attached
/// and a socket reported reconnected is connected. A file or socket entry
/// whose resource the host reached is reported reconnected; one it could
/// not reach is reported failed and left detached.
pub proof fn law_reconnected_is_live(e: IoEntryView, strategy: IoStrategy, o: OutcomeView)
    ensures
        ({
            let (rec, st) = spec_reconnect(e, strategy, o);
            &&& st == StatusView::Reconnected && rec is File ==> rec->File_attached
            &&& st == StatusView::Reconnected && rec is TcpStream ==> rec->TcpStream_connected
            &&& (e.kind == 0 || e.kind == 1) ==> (st == StatusView::Reconnected <==> o is Reached)
            &&& e.kind == 0 ==> rec is File && (rec->File_attached <==> o is Reached)
            &&& e.kind == 1 ==> rec is TcpStream && (rec->TcpStream_connected <==> o is Reached)
            &&& o is Unreachable && (e.kind == 0 || e.kind == 1) ==> st is Failed
        }),
{
}

/// A captured file handle asks the host to open its path at its position,
/// and comes back as the same file: its path, mode, strategy and cached
/// bytes are kept, its position too unless seeking failed, and it is
/// attached (and reported reconnected) exactly when the host reached the
/// file.
pub proof fn law_file_handle_back(id: u32, h: HandleRecord, o: OutcomeView)
    requires
        h is File,
        io_fits(h),
    ensures
        ({
            let e = entry_view(id, h);
            let (rec, st) = spec_reconnect(e, spec_strategy_from_tag(e.strategy), o);
            &&& spec_request(e) == RequestView::OpenFile { path: h->File_path, position: h->File_position }
            &&& rec is File
            &&& rec->File_path == h->File_path
            &&& rec->File_mode == h->File_mode
            &&& rec->File_strategy == h->File_strategy
            &&& rec->File_cached == h->File_cached
            &&& !(o is SeekFailed) ==> rec->File_position == h->File_position
            &&& rec->File_attached == (o is Reached)
            &&& (st == StatusView::Reconnected) == (o is Reached)
        }),
{
    let path = h->File_path;
    let mode = h->File_mode;
    let tail = seq![crate::snapshot::mode_tag(mode)];
    lemma_le32_roundtrip(encode_utf8(path).len() as u32, Seq::empty(), Seq::empty());
    lemma_param_text(path, tail);
    let params = text_field(path) + tail;
    assert(params.len() == 4 + encode_utf8(path).len() + 1);
    assert(params[4 + encode_utf8(path).len() as int] == crate::snapshot::mode_tag(mode));
    assert(file_params(params) == (path, mode));
}

/// A captured socket asks the host to connect to its address, and comes
/// back to the same address under the same strategy, connected (and
/// reported reconnected) exactly when the host reached the peer.
pub proof fn law_socket_handle_back(id: u32, h: HandleRecord, o: OutcomeView)
    requires
        h is TcpStream,
        io_fits(h),
    ensures
        ({
            let e = entry_view(id, h);
            let (rec, st) = spec_reconnect(e, spec_strategy_from_tag(e.strategy), o);
            &&& spec_request(e) == RequestView::Connect { addr: h->TcpStream_addr }
            &&& rec is TcpStream
            &&& rec->TcpStream_addr == h->TcpStream_addr
            &&& rec->TcpStream_strategy == h->TcpStream_strategy
            &&& rec->TcpStream_connected == (o is Reached)
            &&& (st == StatusView::Reconnected) == (o is Reached)
        }),
{
    let addr = h->TcpStream_addr;
    let tail = crate::snapshot::opt_field(h->TcpStream_last_request) + crate::snapshot::opt_field(
        h->TcpStream_last_response,
    );
    lemma_le32_roundtrip(encode_utf8(addr).len() as u32, Seq::empty(), Seq::empty());
    lemma_param_text(addr, tail);
    assert(text_field(addr) + crate::snapshot::opt_field(h->TcpStream_last_request) + crate::snapshot::opt_field(
        h->TcpStream_last_response,
    ) =~= text_field(addr) + tail);
}

/// The frames a task's captured frames restore as.
pub open spec fn frames_back(marks: Seq<bool>, t: Task) -> Seq<FrameView> {
    frame_forms(marks, t.frames@).map_values(|g: FrameForm| form_view(g))
}

/// Some task of `vs` has `t`'s id, parent, status and children, and its
/// stack and frames as captured with `marks` (heap references as positions).
pub open spec fn holds_task(vs: Seq<TaskView>, marks: Seq<bool>, t: Task) -> bool {
    exists|j: int|
        0 <= j < vs.len() && (#[trigger] vs[j]).id == t.id && vs[j].parent == t.parent && vs[j].status == t.status
            && vs[j].children == t.children@ && vs[j].stack == renum_all(marks, t.stack@) && vs[j].frames
            == frames_back(marks, t)
}

/// Restoring an entry of another id keeps what a registry holds of `t`.
proof fn lemma_apply_form_keeps(vs: Seq<TaskView>, marks: Seq<bool>, f: TaskForm, o: Seq<ReconnectOutcome>, t: Task)
    requires
        holds_task(vs, marks, t),
        TaskId(f.id as u64) != t.id,
    ensures
        holds_task(apply_form(vs, f, o), marks, t),
{
    let j = choose|j: int|
        0 <= j < vs.len() && (#[trigger] vs[j]).id == t.id && vs[j].parent == t.parent && vs[j].status == t.status
            && vs[j].children == t.children@ && vs[j].stack == renum_all(marks, t.stack@) && vs[j].frames
            == frames_back(marks, t);
    let a = apply_form(vs, f, o);
    match f.body {
        None => {
            if exists|i: int| 0 <= i < vs.len() && (#[trigger] vs[i]).id == TaskId(f.id as u64) {
                let i = choose|i: int| 0 <= i < vs.len() && (#[trigger] vs[i]).id == TaskId(f.id as u64);
                assert(i != j);
                assert(a[j] == vs[j]);
            }
            assert(a[j] == vs[j]);
        },
        Some(b) => {
            let nt = crate::tasktree::restored_task(f, b, o);
            if exists|i: int| 0 <= i < vs.len() && (#[trigger] vs[i]).id == nt.id {
                let i = choose|i: int| 0 <= i < vs.len() && (#[trigger] vs[i]).id == nt.id;
                assert(i != j);
                assert(a[j] == vs[j]);
            } else {
                assert(a[j] == vs[j]);
            }
        },
    }
}

/// Restoring the forms of `tasks` leaves every settled task but `cur` with
/// its id, parent, status and children.
proof fn lemma_forms_tasks(
    vs: Seq<TaskView>,
    marks: Seq<bool>,
    tasks: Seq<Task>,
    cur: TaskId,
    outs: Seq<Seq<ReconnectOutcome>>,
)
    requires
        forall|i: int, j: int| 0 <= i < j < tasks.len() ==> (#[trigger] tasks[i]).id != (#[trigger] tasks[j]).id,
        forall|i: int| 0 <= i < tasks.len() ==> task_ids_fit(#[trigger] tasks[i]),
    ensures
        forall|i: int|
            0 <= i < tasks.len() && !((#[trigger] tasks[i]).status is Running) && tasks[i].id != cur ==> holds_task(
                apply_forms(vs, task_forms(marks, tasks, cur), outs),
                marks,
                tasks[i],
            ),
    decreases tasks.len(),
{
    if tasks.len() > 0 {
        let init = tasks.drop_last();
        let last = tasks.last();
        assert forall|i: int, j: int| 0 <= i < j < init.len() implies (#[trigger] init[i]).id != (#[trigger] init[j]).id by {
            assert(init[i] == tasks[i] && init[j] == tasks[j]);
        }
        assert forall|i: int| 0 <= i < init.len() implies task_ids_fit(#[trigger] init[i]) by {
            assert(init[i] == tasks[i]);
        }
        lemma_forms_tasks(vs, marks, init, cur, outs);
        let fs0 = task_forms(marks, init, cur);
        let prev = apply_forms(vs, fs0, outs);
        if !(last.status is Running) {
            let f = crate::readback::task_form(marks, last, cur);
            let fs = task_forms(marks, tasks, cur);
            assert(fs == fs0.push(f));
            assert(fs.drop_last() =~= fs0);
            let after = apply_forms(vs, fs, outs);
            let o = outs[fs.len() - 1];
            assert(after == apply_form(prev, f, o));
            assert(task_ids_fit(tasks[tasks.len() - 1]));
            assert(TaskId(f.id as u64) == last.id);
            assert forall|i: int|
                0 <= i < tasks.len() && !((#[trigger] tasks[i]).status is Running) && tasks[i].id != cur implies holds_task(
                after,
                marks,
                tasks[i],
            ) by {
                if i < tasks.len() - 1 {
                    assert(init[i] == tasks[i]);
                    assert(tasks[i].id != last.id);
                    lemma_apply_form_keeps(prev, marks, f, o, tasks[i]);
                } else {
                    let b = f.body.unwrap();
                    let nt = crate::tasktree::restored_task(f, b, o);
                    assert(nt.parent == last.parent);
                    assert(nt.frames == frames_back(marks, last));
                    assert(nt.id == last.id);
                    if exists|k: int| 0 <= k < prev.len() && (#[trigger] prev[k]).id == nt.id {
                        let k = choose|k: int| 0 <= k < prev.len() && (#[trigger] prev[k]).id == nt.id;
                        assert(after[k] == nt);
                    } else {
                        assert(after[prev.len() as int] == nt);
                    }
                }
            }
        } else {
            assert(task_forms(marks, tasks, cur) == fs0);
            assert forall|i: int|
                0 <= i < tasks.len() && !((#[trigger] tasks[i]).status is Running) && tasks[i].id != cur implies holds_task(
                prev,
                marks,
                tasks[i],
            ) by {
                assert(init[i] == tasks[i]);
            }
        }
    }
}

/// Restoring the task section of a captured snapshot gives every settled
/// task but the current one back its id, parent, status and children, and
/// its stack and frames as captured (heap references as the positions the
/// capture gave the objects).
pub proof fn law_restored_settled_tasks(
    vm: VM,
    marks: Seq<bool>,
    h: u64,
    s: Snapshot,
    before: VM,
    after: VM,
    outs: Seq<Vec<ReconnectOutcome>>,
    r: Result<(), SnapshotError>,
)
    requires
        vm.task_registry.wf(),
        capturable(vm),
        marks_reach(vm, marks),
        captured(vm, marks, h, s),
        fits_file(vm),
        task_ids_fit_all(vm),
        settled_count(vm.task_registry.tasks@) <= u32::MAX,
        file_bytes(s).len() <= usize::MAX,
        tasks_view(after.task_registry.tasks@) == apply_forms(
            tasks_view(before.task_registry.tasks@),
            task_reads(s, before.current_task_id).0,
            outcome_seqs(outs),
        ),
    ensures
        forall|i: int|
            0 <= i < vm.task_registry.tasks@.len() && !((#[trigger] vm.task_registry.tasks@[i]).status is Running)
                && vm.task_registry.tasks@[i].id != before.current_task_id ==> exists|j: int|
                0 <= j < after.task_registry.tasks@.len() && (#[trigger] after.task_registry.tasks@[j]).id
                    == vm.task_registry.tasks@[i].id && after.task_registry.tasks@[j].parent
                    == vm.task_registry.tasks@[i].parent && after.task_registry.tasks@[j].status
                    == vm.task_registry.tasks@[i].status && after.task_registry.tasks@[j].children@
                    == vm.task_registry.tasks@[i].children@ && after.task_registry.tasks@[j].stack@ == renum_all(
                    marks,
                    vm.task_registry.tasks@[i].stack@,
                ) && task_view(after.task_registry.tasks@[j]).frames == frames_back(
                    marks,
                    vm.task_registry.tasks@[i],
                ),
{
    let tasks = vm.task_registry.tasks@;
    let cur = before.current_task_id;
    law_capture_tasks(vm, marks, h, s, cur);
    lemma_forms_tasks(tasks_view(before.task_registry.tasks@), marks, tasks, cur, outcome_seqs(outs));
    let av = tasks_view(after.task_registry.tasks@);
    assert forall|i: int|
        0 <= i < tasks.len() && !((#[trigger] tasks[i]).status is Running) && tasks[i].id != cur implies exists|j: int|
        0 <= j < after.task_registry.tasks@.len() && (#[trigger] after.task_registry.tasks@[j]).id == tasks[i].id
            && after.task_registry.tasks@[j].parent == tasks[i].parent && after.task_registry.tasks@[j].status
            == tasks[i].status && after.task_registry.tasks@[j].children@ == tasks[i].children@
            && after.task_registry.tasks@[j].stack@ == renum_all(marks, tasks[i].stack@) && task_view(
            after.task_registry.tasks@[j],
        ).frames == frames_back(marks, tasks[i]) by {
        assert(holds_task(av, marks, tasks[i]));
        let j = choose|j: int|
            0 <= j < av.len() && (#[trigger] av[j]).id == tasks[i].id && av[j].parent == tasks[i].parent
                && av[j].status == tasks[i].status && av[j].children == tasks[i].children@ && av[j].stack == renum_all(
                marks,
                tasks[i].stack@,
            ) && av[j].frames == frames_back(marks, tasks[i]);
        assert(av[j] == task_view(after.task_registry.tasks@[j]));
    }
}

/// No two tasks of `vs` share an id.
pub open spec fn unique_ids(vs: Seq<TaskView>) -> bool {
    forall|i: int, j: int| 0 <= i < j < vs.len() ==> (#[trigger] vs[i]).id != (#[trigger] vs[j]).id
}

/// `vs` holds the task `v` under `v`'s id.
pub open spec fn holds_view(vs: Seq<TaskView>, v: TaskView) -> bool {
    exists|j: int| 0 <= j < vs.len() && #[trigger] vs[j] == v
}

proof fn lemma_apply_form_unique(vs: Seq<TaskView>, f: TaskForm, o: Seq<ReconnectOutcome>)
    requires
        unique_ids(vs),
    ensures
        unique_ids(apply_form(vs, f, o)),
        apply_form(vs, f, o).len() >= vs.len(),
{
    let a = apply_form(vs, f, o);
    match f.body {
        None => {
            if exists|i: int| 0 <= i < vs.len() && (#[trigger] vs[i]).id == TaskId(f.id as u64) {
                let k = choose|i: int| 0 <= i < vs.len() && (#[trigger] vs[i]).id == TaskId(f.id as u64);
                assert forall|i: int| 0 <= i < a.len() implies (#[trigger] a[i]).id == vs[i].id by {}
            }
        },
        Some(b) => {
            let nt = crate::tasktree::restored_task(f, b, o);
            if exists|i: int| 0 <= i < vs.len() && (#[trigger] vs[i]).id == nt.id {
                let k = choose|i: int| 0 <= i < vs.len() && (#[trigger] vs[i]).id == nt.id;
                assert forall|i: int| 0 <= i < a.len() implies (#[trigger] a[i]).id == vs[i].id by {}
            } else {
                assert forall|i: int, j: int| 0 <= i < j < a.len() implies (#[trigger] a[i]).id != (#[trigger] a[j]).id by {
                    if j == vs.len() {
                        assert(a[i] == vs[i]);
                    }
                }
            }
        },
    }
}

proof fn lemma_apply_form_other(vs: Seq<TaskView>, f: TaskForm, o: Seq<ReconnectOutcome>, v: TaskView)
    requires
        holds_view(vs, v),
        TaskId(f.id as u64) != v.id,
    ensures
        holds_view(apply_form(vs, f, o), v),
{
    let j = choose|j: int| 0 <= j < vs.len() && #[trigger] vs[j] == v;
    let a = apply_form(vs, f, o);
    match f.body {
        None => {
            if exists|i: int| 0 <= i < vs.len() && (#[trigger] vs[i]).id == TaskId(f.id as u64) {
                let i = choose|i: int| 0 <= i < vs.len() && (#[trigger] vs[i]).id == TaskId(f.id as u64);
                assert(i != j);
            }
            assert(a[j] == v);
        },
        Some(b) => {
            let nt = crate::tasktree::restored_task(f, b, o);
            if exists|i: int| 0 <= i < vs.len() && (#[trigger] vs[i]).id == nt.id {
                let i = choose|i: int| 0 <= i < vs.len() && (#[trigger] vs[i]).id == nt.id;
                assert(i != j);
            }
            assert(a[j] == v);
        },
    }
}

/// The current task's entry, restoring no body, replaces only the children
/// and status of the task registered under its id.
proof fn lemma_apply_form_current(vs: Seq<TaskView>, f: TaskForm, o: Seq<ReconnectOutcome>, v: TaskView)
    requires
        unique_ids(vs),
        holds_view(vs, v),
        TaskId(f.id as u64) == v.id,
        f.body is None,
    ensures
        holds_view(apply_form(vs, f, o), TaskView { children: f.children, status: f.status, ..v }),
{
    let j = choose|j: int| 0 <= j < vs.len() && #[trigger] vs[j] == v;
    let i = choose|i: int| 0 <= i < vs.len() && (#[trigger] vs[i]).id == TaskId(f.id as u64);
    assert(vs[j].id == TaskId(f.id as u64));
    assert(i == j);
    assert(apply_form(vs, f, o)[j] == TaskView { children: f.children, status: f.status, ..v });
}

/// Restoring the forms of `tasks` into `vs` keeps the ids of `vs` unique and
/// changes the current task's view `v` only by the children and status of
/// the settled task with its id, if there is one.
proof fn lemma_forms_current(
    vs: Seq<TaskView>,
    marks: Seq<bool>,
    tasks: Seq<Task>,
    cur: TaskId,
    outs: Seq<Seq<ReconnectOutcome>>,
    v: TaskView,
)
    requires
        forall|i: int, j: int| 0 <= i < j < tasks.len() ==> (#[trigger] tasks[i]).id != (#[trigger] tasks[j]).id,
        forall|i: int| 0 <= i < tasks.len() ==> task_ids_fit(#[trigger] tasks[i]),
        unique_ids(vs),
        holds_view(vs, v),
        v.id == cur,
    ensures
        unique_ids(apply_forms(vs, task_forms(marks, tasks, cur), outs)),
        forall|i: int|
            0 <= i < tasks.len() && !((#[trigger] tasks[i]).status is Running) && tasks[i].id == cur ==> holds_view(
                apply_forms(vs, task_forms(marks, tasks, cur), outs),
                TaskView { children: tasks[i].children@, status: tasks[i].status, ..v },
            ),
        (forall|i: int| 0 <= i < tasks.len() ==> (#[trigger] tasks[i]).status is Running || tasks[i].id != cur)
            ==> holds_view(apply_forms(vs, task_forms(marks, tasks, cur), outs), v),
    decreases tasks.len(),
{
    if tasks.len() > 0 {
        let init = tasks.drop_last();
        let last = tasks.last();
        assert forall|i: int, j: int| 0 <= i < j < init.len() implies (#[trigger] init[i]).id != (#[trigger] init[j]).id by {
            assert(init[i] == tasks[i] && init[j] == tasks[j]);
        }
        assert forall|i: int| 0 <= i < init.len() implies task_ids_fit(#[trigger] init[i]) by {
            assert(init[i] == tasks[i]);
        }
        lemma_forms_current(vs, marks, init, cur, outs, v);
        let fs0 = task_forms(marks, init, cur);
        let prev = apply_forms(vs, fs0, outs);
        if !(last.status is Running) {
            let f = crate::readback::task_form(marks, last, cur);
            let fs = task_forms(marks, tasks, cur);
            assert(fs == fs0.push(f));
            assert(fs.drop_last() =~= fs0);
            let o = outs[fs.len() - 1];
            let after = apply_forms(vs, fs, outs);
            assert(after == apply_form(prev, f, o));
            assert(task_ids_fit(tasks[tasks.len() - 1]));
            assert(TaskId(f.id as u64) == last.id);
            lemma_apply_form_unique(prev, f, o);
            if last.id == cur {
                assert forall|i: int| 0 <= i < init.len() implies (#[trigger] init[i]).status is Running || init[i].id
                    != cur by {
                    assert(init[i] == tasks[i]);
                    assert(tasks[i].id != tasks[tasks.len() - 1].id);
                }
                lemma_apply_form_current(prev, f, o, v);
                assert forall|i: int|
                    0 <= i < tasks.len() && !((#[trigger] tasks[i]).status is Running) && tasks[i].id == cur implies holds_view(
                    after,
                    TaskView { children: tasks[i].children@, status: tasks[i].status, ..v },
                ) by {
                    if i < tasks.len() - 1 {
                        assert(tasks[i].id != tasks[tasks.len() - 1].id);
                    }
                }
            } else {
                assert forall|i: int|
                    0 <= i < tasks.len() && !((#[trigger] tasks[i]).status is Running) && tasks[i].id == cur implies holds_view(
                    after,
                    TaskView { children: tasks[i].children@, status: tasks[i].status, ..v },
                ) by {
                    assert(init[i] == tasks[i]);
                    lemma_apply_form_other(
                        prev,
                        f,
                        o,
                        TaskView { children: tasks[i].children@, status: tasks[i].status, ..v },
                    );
                }
                if forall|i: int| 0 <= i < tasks.len() ==> (#[trigger] tasks[i]).status is Running || tasks[i].id != cur {
                    assert forall|i: int| 0 <= i < init.len() implies (#[trigger] init[i]).status is Running || init[i].id
                        != cur by {
                        assert(init[i] == tasks[i]);
                    }
                    lemma_apply_form_other(prev, f, o, v);
                }
            }
        } else {
            assert(task_forms(marks, tasks, cur) == fs0);
            assert forall|i: int|
                0 <= i < tasks.len() && !((#[trigger] tasks[i]).status is Running) && tasks[i].id == cur implies holds_view(
                prev,
                TaskView { children: tasks[i].children@, status: tasks[i].status, ..v },
            ) by {
                assert(init[i] == tasks[i]);
            }
            if forall|i: int| 0 <= i < tasks.len() ==> (#[trigger] tasks[i]).status is Running || tasks[i].id != cur {
                assert forall|i: int| 0 <= i < init.len() implies (#[trigger] init[i]).status is Running || init[i].id
                    != cur by {
                    assert(init[i] == tasks[i]);
                }
            }
        }
    }
}

/// Restoring the task section of a captured snapshot replaces only the
/// children and status of the current task (with those it was captured
/// with); its parent, stack, frames and handles stay as they were.
pub proof fn law_restored_current_task(
    vm: VM,
    marks: Seq<bool>,
    h: u64,
    s: Snapshot,
    before: VM,
    after: VM,
    outs: Seq<Vec<ReconnectOutcome>>,
    i: int,
    k: int,
)
    requires
        vm.task_registry.wf(),
        before.task_registry.wf(),
        capturable(vm),
        marks_reach(vm, marks),
        captured(vm, marks, h, s),
        fits_file(vm),
        task_ids_fit_all(vm),
        settled_count(vm.task_registry.tasks@) <= u32::MAX,
        file_bytes(s).len() <= usize::MAX,
        tasks_view(after.task_registry.tasks@) == apply_forms(
            tasks_view(before.task_registry.tasks@),
            task_reads(s, before.current_task_id).0,
            outcome_seqs(outs),
        ),
        0 <= i < vm.task_registry.tasks@.len(),
        !(vm.task_registry.tasks@[i].status is Running),
        vm.task_registry.tasks@[i].id == before.current_task_id,
        0 <= k < before.task_registry.tasks@.len(),
        before.task_registry.tasks@[k].id == before.current_task_id,
    ensures
        exists|j: int|
            0 <= j < after.task_registry.tasks@.len() && task_view(#[trigger] after.task_registry.tasks@[j]) == (TaskView {
                children: vm.task_registry.tasks@[i].children@,
                status: vm.task_registry.tasks@[i].status,
                ..task_view(before.task_registry.tasks@[k])
            }),
{
    let tasks = vm.task_registry.tasks@;
    let cur = before.current_task_id;
    let bv = tasks_view(before.task_registry.tasks@);
    law_capture_tasks(vm, marks, h, s, cur);
    assert forall|a: int, b: int| 0 <= a < b < bv.len() implies (#[trigger] bv[a]).id != (#[trigger] bv[b]).id by {
        assert(bv[a] == task_view(before.task_registry.tasks@[a]));
        assert(bv[b] == task_view(before.task_registry.tasks@[b]));
    }
    assert(bv[k] == task_view(before.task_registry.tasks@[k]));
    lemma_forms_current(bv, marks, tasks, cur, outcome_seqs(outs), bv[k]);
    let av = tasks_view(after.task_registry.tasks@);
    let want = TaskView { children: tasks[i].children@, status: tasks[i].status, ..bv[k] };
    assert(holds_view(av, want));
    let j = choose|j: int| 0 <= j < av.len() && #[trigger] av[j] == want;
    assert(av[j] == task_view(after.task_registry.tasks@[j]));
}

} // verus!
