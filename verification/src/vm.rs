//! The stack machine: state, heap access, I/O handle registry, collection,
//! and the interpreter.
//!
//! The interpreter is written as a state machine. Instructions that need the
//! outside world (float arithmetic and float formatting, files, sockets,
//! HTTP) leave a `HostCall` in `pending`; the host performs it and hands the
//! outcome back through `VM::complete`, which finishes the instruction.

use vstd::prelude::*;

use crate::function::Function;
use crate::heap::{children, reaches, refs_of, value_ref, Gc, Heap, HeapObject, ListObj, StringObj};
use crate::io::{FileMode, HandleId, HandleTable, IoHandle};
use crate::task::{TaskId, TaskTable};
use crate::text::text;
use crate::value::{TypeError, Value};

verus! {

#[derive(Debug, Clone, Copy, PartialEq)]
pub enum HeapError {
    InvalidHandle,
}

impl HeapError {
    pub fn display_string(&self) -> (s: String)
        ensures
            s@ == "invalid heap handle"@,
    {
        text("invalid heap handle")
    }
}

/// Execution state of one function invocation.
#[derive(Debug, Clone)]
pub struct CallFrame {
    /// Index into the machine's function table.
    pub function: usize,
    /// Instruction pointer (index into the function's bytecode).
    pub ip: usize,
    /// Local variable slots; `locals[0..arity]` are the parameters.
    pub locals: Vec<Value>,
}

impl CallFrame {
    pub(crate) fn new(function: usize, locals: Vec<Value>) -> (f: Self)
        ensures
            f.function == function,
            f.ip == 0,
            f.locals == locals,
    {
        CallFrame { function, ip: 0, locals }
    }
}

/// Errors that can occur during execution.
#[derive(Debug, Clone, PartialEq)]
pub enum VmError {
    /// Tried to pop from an empty operand stack.
    StackUnderflow,
    /// No call frame is active.
    EmptyFrameStack,
    /// Referenced a function index that does not exist.
    InvalidFunction(usize),
    /// Instruction pointer out of bounds.
    InvalidIp,
    /// Local variable index out of bounds.
    LocalOutOfBounds(usize),
    /// A typed operation received incompatible operands.
    TypeError(TypeError),
    /// A heap operation failed (e.g. accessing freed memory).
    HeapError(HeapError),
    /// Execution has stopped.
    Halted,
    /// An I/O operation failed.
    IoError(String),
}

/// Errors of the resume workflow (restore, then continue execution).
#[derive(Debug, Clone, PartialEq)]
pub enum ResumeError {
    /// Snapshot restoration failed.
    Snapshot(String),
    /// Execution failed after the restore.
    Vm(VmError),
    /// A handle of the snapshot could not be reconnected; the message names
    /// each failed handle and why.
    Reconnect(String),
}

/// The float operations the host carries out.
#[derive(Debug, Clone, Copy, PartialEq)]
pub enum FloatOp {
    Add,
    Sub,
    Mul,
    Div,
    Mod,
    Eq,
    Neq,
    Lt,
    Lte,
    Gt,
    Gte,
}

/// Text the host is to produce: either ready, or the decimal text of a float
/// (given by its bits) as the host formats floats.
#[derive(Debug, Clone)]
pub enum HostText {
    Ready(Vec<u8>),
    Float(u64),
}

/// Work the machine hands to its host in the middle of an instruction.
#[derive(Debug, Clone)]
pub enum HostCall {
    /// Apply `op` to two floats; answer with the resulting value.
    FloatBinary { op: FloatOp, lhs: u64, rhs: u64 },
    /// Negate a float; answer with the resulting value.
    FloatNeg { operand: u64 },
    /// Give the text of a float used as a file path; answer with the text.
    FilePath { path: u64, mode: FileMode },
    /// Read the file of `handle`: from its open file when `attached`,
    /// otherwise by opening `path` and, when `seek`, seeking to `position`
    /// first. Answer with the bytes read, or with a failure.
    FileRead { handle: HandleId, path: String, position: u64, attached: bool, seek: bool },
    /// Write `data` to the file of `handle`: to its open file when
    /// `attached`, otherwise by creating / truncating `path`. Answer with the
    /// bytes written, or with a failure.
    FileWrite { handle: HandleId, path: String, data: HostText, attached: bool },
    /// Seek the open file of `handle` to `offset`; answer `Done`.
    FileSeek { handle: HandleId, offset: u64 },
    /// `handle` was closed: drop its open file or socket; answer `Done`.
    Release { handle: HandleId },
    /// Connect a socket to `addr`; answer with the address text and whether
    /// it connected.
    TcpConnect { addr: HostText },
    /// Read up to 4096 bytes from the socket of `handle`.
    TcpRead { handle: HandleId },
    /// Write `data` to the socket of `handle`; answer with the bytes written.
    TcpWrite { handle: HandleId, data: HostText },
    /// HTTP GET `url`.
    HttpGet { url: HostText },
    /// HTTP POST `body` to `url`.
    HttpPost { url: HostText, body: HostText },
    /// Give the text of a float written to standard output (or error when
    /// `to_stderr`); answer with the text.
    StreamText { data: u64, to_stderr: bool },
}

/// The host's answer to a `HostCall`.
#[derive(Debug, Clone)]
pub enum HostReply {
    /// The result of a float operation.
    Value(Value),
    /// The text asked for.
    Text(Vec<u8>),
    /// Bytes read or written.
    Bytes(Vec<u8>),
    /// A notification was acted on.
    Done,
    /// The operation failed, with the host's reason.
    Failed(Vec<u8>),
    /// A connection to the given address text was made.
    Connected(Vec<u8>),
    /// A connection or request to the given text failed, with a reason.
    Refused { target: Vec<u8>, reason: Vec<u8> },
    /// An HTTP exchange with `url`: the body sent and the response body.
    Fetched { url: Vec<u8>, sent: Vec<u8>, body: Vec<u8> },
}

/// The stack machine.
#[derive(Debug, Clone)]
pub struct VM {
    /// Operand stack.
    pub stack: Vec<Value>,
    /// Call frames (top = active).
    pub frames: Vec<CallFrame>,
    /// Function table (indexed by function id).
    pub functions: Vec<Function>,
    /// Whether the machine is currently executing.
    pub running: bool,
    /// Heap for reference types.
    pub heap: Heap,
    /// Registered I/O handles, keyed by `HandleId`, in registration order.
    pub handles: HandleTable,
    /// Snapshot captured on `Yield` (`None` before the first yield).
    pub snapshot: Option<crate::snapshot::Snapshot>,
    /// The tasks of the machine, keyed by id.
    pub task_registry: TaskTable,
    /// The task whose state the machine is executing.
    pub current_task_id: TaskId,
    /// Work handed to the host and not yet completed.
    pub pending: Option<HostCall>,
    /// Counter for the next `HandleId` allocation.
    pub next_handle_id: u32,
}

impl VM {
    /// The machine's invariant: its heap, handle table and task table are sound.
    pub open spec fn wf(&self) -> bool {
        &&& self.heap.wf()
        &&& self.handles.wf()
        &&& self.task_registry.wf()
    }

    pub fn new() -> (vm: Self)
        ensures
            vm.wf(),
            vm.stack@.len() == 0,
            vm.frames@.len() == 0,
            vm.functions@.len() == 0,
            !vm.running,
            vm.heap.objects().len() == 0,
            vm.heap.marks().len() == 0,
            vm.heap.free().len() == 0,
            vm.heap.threshold() == crate::heap::DEFAULT_GC_THRESHOLD,
            vm.handles.entries@.len() == 0,
            vm.snapshot is None,
            vm.task_registry.tasks@.len() == 0,
            vm.current_task_id == TaskId(0),
            vm.pending is None,
            vm.next_handle_id == 0,
    {
        VM {
            stack: Vec::new(),
            frames: Vec::new(),
            functions: Vec::new(),
            running: false,
            heap: Heap::new(),
            handles: HandleTable::new(),
            snapshot: None,
            task_registry: TaskTable::new(),
            current_task_id: TaskId::root(),
            pending: None,
            next_handle_id: 0,
        }
    }
}

impl Default for VM {
    fn default() -> (vm: Self)
        ensures
            vm.wf(),
            vm.stack@.len() == 0,
            vm.frames@.len() == 0,
            vm.functions@.len() == 0,
            !vm.running,
            vm.heap.objects().len() == 0,
            vm.handles.entries@.len() == 0,
            vm.pending is None,
    {
        VM::new()
    }
}

} // verus!

verus! {

// -- collection --

/// Slot `j` can be reached from one of the slots `roots`.
pub open spec fn reachable_from(objs: Seq<HeapObject>, roots: Seq<usize>, j: usize) -> bool {
    exists|k: int| 0 <= k < roots.len() && #[trigger] reaches(objs, roots[k], j)
}

/// The slots the locals of `frames` refer to, frame by frame.
pub open spec fn frame_refs(frames: Seq<CallFrame>) -> Seq<usize>
    decreases frames.len(),
{
    if frames.len() == 0 {
        Seq::empty()
    } else {
        frame_refs(frames.drop_last()) + refs_of(frames.last().locals@)
    }
}

/// The root slots of the machine: those the operand stack refers to, then
/// those of the frames' locals.
pub open spec fn root_slots(stack: Seq<Value>, frames: Seq<CallFrame>) -> Seq<usize> {
    refs_of(stack) + frame_refs(frames)
}

/// Reachability from a list of roots carries over to any list that contains it.
proof fn lemma_reach_concat(objs: Seq<HeapObject>, a: Seq<usize>, b: Seq<usize>, j: usize)
    ensures
        reachable_from(objs, a, j) ==> reachable_from(objs, a + b, j),
        reachable_from(objs, b, j) ==> reachable_from(objs, a + b, j),
{
    if reachable_from(objs, a, j) {
        let k = choose|k: int| 0 <= k < a.len() && #[trigger] reaches(objs, a[k], j);
        assert((a + b)[k] == a[k]);
    }
    if reachable_from(objs, b, j) {
        let k = choose|k: int| 0 <= k < b.len() && #[trigger] reaches(objs, b[k], j);
        assert((a + b)[a.len() + k] == b[k]);
    }
}

/// The marking of a set of roots: the roots in range are marked, and each
/// slot marked since `before` has its children marked and is reachable from
/// the roots.
pub open spec fn marked_from(objs: Seq<HeapObject>, before: Seq<bool>, after: Seq<bool>, roots: Seq<usize>) -> bool {
    &&& before.len() == objs.len()
    &&& crate::heap::marks_grow(before, after)
    &&& forall|k: int| 0 <= k < roots.len() && #[trigger] roots[k] < objs.len() ==> after[roots[k] as int]
    &&& forall|j: int|
        0 <= j < before.len() && !before[j] && #[trigger] after[j] ==> Heap::children_marked(objs, after, j)
            && reachable_from(objs, roots, j as usize)
}

/// Marking `a`'s roots, then `b`'s, marks from `a + b`.
proof fn lemma_marked_from_concat(
    objs: Seq<HeapObject>,
    m0: Seq<bool>,
    m1: Seq<bool>,
    m2: Seq<bool>,
    a: Seq<usize>,
    b: Seq<usize>,
)
    requires
        marked_from(objs, m0, m1, a),
        marked_from(objs, m1, m2, b),
    ensures
        marked_from(objs, m0, m2, a + b),
{
    assert forall|k: int| 0 <= k < (a + b).len() && #[trigger] (a + b)[k] < objs.len() implies m2[(a + b)[k] as int] by {
        if k < a.len() {
            assert((a + b)[k] == a[k]);
            assert(m1[a[k] as int]);
            assert(m2[a[k] as int]);
        } else {
            let k2 = k - a.len();
            assert((a + b)[k] == b[k2]);
            assert(b[k2] < objs.len());
            assert(m2[b[k2] as int]);
        }
    }
    assert forall|j: int|
        0 <= j < m0.len() && !m0[j] && #[trigger] m2[j] implies Heap::children_marked(objs, m2, j)
            && reachable_from(objs, a + b, j as usize) by {
        lemma_reach_concat(objs, a, b, j as usize);
        if m1[j] {
            crate::heap::lemma_children_marked_grow(objs, m1, m2, j);
        }
    }
}

/// Mark everything the values `vals` refer to.
fn mark_values(heap: &mut Heap, vals: &Vec<Value>)
    requires
        old(heap).wf(),
    ensures
        final(heap).wf(),
        final(heap).objects() == old(heap).objects(),
        final(heap).free() == old(heap).free(),
        final(heap).threshold() == old(heap).threshold(),
        marked_from(old(heap).objects(), old(heap).marks(), final(heap).marks(), refs_of(vals@)),
{
    let ghost objs = heap.objects();
    proof {
        heap.lemma_free_distinct();
    }
    let mut i: usize = 0;
    assert(refs_of(vals@.take(0)) =~= Seq::<usize>::empty());
    while i < vals.len()
        invariant
            heap.wf(),
            heap.objects() == objs,
            objs == old(heap).objects(),
            heap.free() == old(heap).free(),
            heap.threshold() == old(heap).threshold(),
            i <= vals@.len(),
            marked_from(objs, old(heap).marks(), heap.marks(), refs_of(vals@.take(i as int))),
        decreases vals@.len() - i,
    {
        let ghost m1 = heap.marks();
        proof {
            heap.lemma_free_distinct();
        }
        heap.mark_value(&vals[i]);
        let ghost r = match value_ref(vals@[i as int]) {
            Some(x) => seq![x],
            None => Seq::<usize>::empty(),
        };
        proof {
            assert(vals@.take(i + 1).drop_last() =~= vals@.take(i as int));
            assert(refs_of(vals@.take(i + 1)) =~= refs_of(vals@.take(i as int)) + r);
            assert(marked_from(objs, m1, heap.marks(), r)) by {
                assert forall|j: int| 0 <= j < m1.len() && !m1[j] && #[trigger] heap.marks()[j] implies Heap::children_marked(
                    objs,
                    heap.marks(),
                    j,
                ) && reachable_from(objs, r, j as usize) by {
                    let x = choose|x: usize| value_ref(vals@[i as int]) == Some(x) && reaches(objs, x, j as usize);
                    assert(r[0] == x);
                }
            }
            lemma_marked_from_concat(objs, old(heap).marks(), m1, heap.marks(), refs_of(vals@.take(i as int)), r);
        }
        i = i + 1;
    }
    assert(vals@.take(i as int) =~= vals@);
}

/// Mark everything the locals of `frames` refer to.
fn mark_frames(heap: &mut Heap, frames: &Vec<CallFrame>)
    requires
        old(heap).wf(),
    ensures
        final(heap).wf(),
        final(heap).objects() == old(heap).objects(),
        final(heap).free() == old(heap).free(),
        final(heap).threshold() == old(heap).threshold(),
        marked_from(old(heap).objects(), old(heap).marks(), final(heap).marks(), frame_refs(frames@)),
{
    let ghost objs = heap.objects();
    proof {
        heap.lemma_free_distinct();
    }
    let mut i: usize = 0;
    assert(frame_refs(frames@.take(0)) =~= Seq::<usize>::empty());
    while i < frames.len()
        invariant
            heap.wf(),
            heap.objects() == objs,
            objs == old(heap).objects(),
            heap.free() == old(heap).free(),
            heap.threshold() == old(heap).threshold(),
            i <= frames@.len(),
            marked_from(objs, old(heap).marks(), heap.marks(), frame_refs(frames@.take(i as int))),
        decreases frames@.len() - i,
    {
        let ghost m1 = heap.marks();
        proof {
            heap.lemma_free_distinct();
        }
        mark_values(heap, &frames[i].locals);
        proof {
            assert(frames@.take(i + 1).drop_last() =~= frames@.take(i as int));
            assert(frame_refs(frames@.take(i + 1)) =~= frame_refs(frames@.take(i as int)) + refs_of(
                frames@[i as int].locals@,
            ));
            lemma_marked_from_concat(
                objs,
                old(heap).marks(),
                m1,
                heap.marks(),
                frame_refs(frames@.take(i as int)),
                refs_of(frames@[i as int].locals@),
            );
        }
        i = i + 1;
    }
    assert(frames@.take(i as int) =~= frames@);
}

proof fn lemma_reached_marked(objs: Seq<HeapObject>, m: Seq<bool>, roots: Seq<usize>, j: usize)
    requires
        m.len() == objs.len(),
        forall|k: int| 0 <= k < roots.len() && #[trigger] roots[k] < objs.len() ==> m[roots[k] as int],
        forall|i: int| 0 <= i < m.len() && #[trigger] m[i] ==> Heap::children_marked(objs, m, i),
        reachable_from(objs, roots, j),
    ensures
        m[j as int],
{
    let k = choose|k: int| 0 <= k < roots.len() && #[trigger] reaches(objs, roots[k], j);
    let p = choose|p: Seq<usize>| #[trigger] crate::heap::is_path(objs, p) && p[0] == roots[k] && p.last() == j;
    assert(p[0] < objs.len());
    crate::heap::lemma_path_marked(objs, m, p);
}

/// Marks from all-false marks `m0` that mark from `roots` are exactly the
/// slots reachable from `roots`.
proof fn lemma_marked_exactly(objs: Seq<HeapObject>, m0: Seq<bool>, m: Seq<bool>, roots: Seq<usize>)
    requires
        m0.len() == objs.len(),
        objs.len() <= usize::MAX,
        forall|i: int| 0 <= i < m0.len() ==> !m0[i],
        marked_from(objs, m0, m, roots),
    ensures
        forall|j: int| 0 <= j < objs.len() ==> (m[j] <==> reachable_from(objs, roots, j as usize)),
{
    assert forall|i: int| 0 <= i < m.len() && #[trigger] m[i] implies Heap::children_marked(objs, m, i) by {
        assert(!m0[i]);
    }
    assert forall|j: int| 0 <= j < objs.len() implies (m[j] <==> reachable_from(objs, roots, j as usize)) by {
        if reachable_from(objs, roots, j as usize) {
            lemma_reached_marked(objs, m, roots, j as usize);
        }
        if m[j] {
            assert(!m0[j]);
        }
    }
}

impl VM {
    /// Scan all roots (operand stack, then frame locals) and mark every
    /// reachable heap object.
    pub fn mark_roots(&mut self)
        requires
            old(self).wf(),
        ensures
            final(self).wf(),
            final(self).heap.objects() == old(self).heap.objects(),
            final(self).heap.free() == old(self).heap.free(),
            final(self).heap.threshold() == old(self).heap.threshold(),
            marked_from(
                old(self).heap.objects(),
                old(self).heap.marks(),
                final(self).heap.marks(),
                root_slots(old(self).stack@, old(self).frames@),
            ),
            final(self).stack == old(self).stack,
            final(self).frames == old(self).frames,
            final(self).functions == old(self).functions,
            final(self).running == old(self).running,
            final(self).handles == old(self).handles,
            final(self).task_registry == old(self).task_registry,
            final(self).current_task_id == old(self).current_task_id,
            final(self).pending == old(self).pending,
            final(self).snapshot == old(self).snapshot,
            final(self).next_handle_id == old(self).next_handle_id,
    {
        let ghost m0 = self.heap.marks();
        mark_values(&mut self.heap, &self.stack);
        let ghost m1 = self.heap.marks();
        proof {
            self.heap.lemma_free_distinct();
        }
        mark_frames(&mut self.heap, &self.frames);
        proof {
            lemma_marked_from_concat(
                self.heap.objects(),
                m0,
                m1,
                self.heap.marks(),
                refs_of(self.stack@),
                frame_refs(self.frames@),
            );
        }
    }

    /// Run a full mark-sweep collection: reset the marks, mark every object
    /// reachable from the roots, and free every other slot.
    pub fn collect_garbage(&mut self)
        requires
            old(self).wf(),
        ensures
            final(self).wf(),
            final(self).heap.objects() == old(self).heap.objects(),
            final(self).heap.threshold() == old(self).heap.threshold(),
            forall|j: usize|
                #![trigger final(self).heap.free().contains(j)]
                #![trigger reachable_from(old(self).heap.objects(), root_slots(old(self).stack@, old(self).frames@), j)]
                j < old(self).heap.objects().len() ==> (final(self).heap.free().contains(j) <==> !reachable_from(
                    old(self).heap.objects(),
                    root_slots(old(self).stack@, old(self).frames@),
                    j,
                )),
            forall|i: int|
                0 <= i < final(self).heap.free().len() ==> #[trigger] final(self).heap.free()[i] < final(self).heap.objects().len(),
            final(self).stack == old(self).stack,
            final(self).frames == old(self).frames,
            final(self).functions == old(self).functions,
            final(self).running == old(self).running,
            final(self).handles == old(self).handles,
            final(self).task_registry == old(self).task_registry,
            final(self).current_task_id == old(self).current_task_id,
            final(self).pending == old(self).pending,
            final(self).snapshot == old(self).snapshot,
            final(self).next_handle_id == old(self).next_handle_id,
    {
        self.heap.reset_marks();
        let ghost m0 = self.heap.marks();
        proof {
            self.heap.lemma_free_distinct();
        }
        self.mark_roots();
        let ghost m = self.heap.marks();
        let ghost objs = self.heap.objects();
        proof {
            lemma_marked_exactly(objs, m0, m, root_slots(self.stack@, self.frames@));
        }
        self.heap.collect_garbage_after_mark();
        proof {
            self.heap.lemma_free_distinct();
            assert forall|j: usize| j < objs.len() implies (self.heap.free().contains(j) <==> !reachable_from(
                objs,
                root_slots(self.stack@, self.frames@),
                j,
            )) by {
                crate::heap::lemma_unmarked_indices_contains(m, j as int);
                assert(m[j as int] <==> reachable_from(objs, root_slots(self.stack@, self.frames@), j as usize));
            }
        }
    }
}

} // verus!

verus! {

/// The objects of `h` after allocating `obj` in it.
pub open spec fn objects_after_alloc(h: Heap, obj: HeapObject) -> Seq<HeapObject> {
    if h.free().len() > 0 {
        h.objects().update(h.free().last() as int, obj)
    } else {
        h.objects().push(obj)
    }
}

/// The slot `h` allocates next.
pub open spec fn next_slot(h: Heap) -> usize {
    if h.free().len() > 0 {
        h.free().last()
    } else {
        h.objects().len() as usize
    }
}

/// The free slots of `h` after one allocation.
pub open spec fn free_after_alloc(h: Heap) -> Seq<usize> {
    if h.free().len() > 0 {
        h.free().drop_last()
    } else {
        h.free()
    }
}

/// `h2`'s free list is what a collection from the roots leaves in a heap
/// with objects `objs`.
pub open spec fn collected(objs: Seq<HeapObject>, roots: Seq<usize>, h2: Heap) -> bool {
    forall|j: usize|
        #![trigger h2.free().contains(j)]
        j < objs.len() ==> (h2.free().contains(j) <==> !reachable_from(objs, roots, j))
}

/// The allocation of `obj` at `gc_index`, then a collection when the live
/// count went over the threshold, turned `before` into `after`.
pub open spec fn allocated(before: VM, after: VM, obj: HeapObject, gc_index: usize) -> bool {
    let objs = objects_after_alloc(before.heap, obj);
    let live = (objs.len() - free_after_alloc(before.heap).len()) as int;
    &&& gc_index == next_slot(before.heap)
    &&& after.heap.objects() == objs
    &&& after.heap.threshold() == before.heap.threshold()
    &&& live > before.heap.threshold() ==> collected(objs, root_slots(before.stack@, before.frames@), after.heap)
    &&& live <= before.heap.threshold() ==> after.heap.free() == free_after_alloc(before.heap)
    &&& after.stack == before.stack
    &&& after.frames == before.frames
    &&& after.functions == before.functions
    &&& after.running == before.running
    &&& after.handles == before.handles
    &&& after.task_registry == before.task_registry
    &&& after.current_task_id == before.current_task_id
    &&& after.pending == before.pending
    &&& after.snapshot == before.snapshot
    &&& after.next_handle_id == before.next_handle_id
}

impl VM {
    /// Collect when the live object count exceeds the threshold.
    fn maybe_gc(&mut self)
        requires
            old(self).wf(),
        ensures
            final(self).wf(),
            final(self).heap.objects() == old(self).heap.objects(),
            final(self).heap.threshold() == old(self).heap.threshold(),
            old(self).heap.spec_len() > old(self).heap.threshold() ==> collected(
                old(self).heap.objects(),
                root_slots(old(self).stack@, old(self).frames@),
                final(self).heap,
            ),
            old(self).heap.spec_len() <= old(self).heap.threshold() ==> final(self).heap.free() == old(self).heap.free(),
            final(self).stack == old(self).stack,
            final(self).frames == old(self).frames,
            final(self).functions == old(self).functions,
            final(self).running == old(self).running,
            final(self).handles == old(self).handles,
            final(self).task_registry == old(self).task_registry,
            final(self).current_task_id == old(self).current_task_id,
            final(self).pending == old(self).pending,
            final(self).snapshot == old(self).snapshot,
            final(self).next_handle_id == old(self).next_handle_id,
    {
        if self.heap.should_gc() {
            self.collect_garbage();
        }
    }

    /// Allocate a string on the heap, collecting when the live object count
    /// exceeds the threshold. (The new string is not a root: a collection
    /// right after the allocation frees it unless a root refers to its slot.)
    pub fn alloc_string(&mut self, data: String) -> (gc: Gc<StringObj>)
        requires
            old(self).wf(),
        ensures
            final(self).wf(),
            allocated(*old(self), *final(self), HeapObject::String(StringObj { data }), gc.index),
    {
        let ghost obj = HeapObject::String(StringObj { data });
        proof {
            self.heap.lemma_free_distinct();
        }
        let gc = self.heap.alloc_string(data);
        proof {
            self.heap.lemma_free_distinct();
        }
        self.maybe_gc();
        gc
    }

    /// Allocate a list on the heap, collecting when the live object count
    /// exceeds the threshold.
    pub fn alloc_list(&mut self, elements: Vec<Value>) -> (gc: Gc<ListObj>)
        requires
            old(self).wf(),
        ensures
            final(self).wf(),
            allocated(*old(self), *final(self), HeapObject::List(ListObj { elements }), gc.index),
    {
        proof {
            self.heap.lemma_free_distinct();
        }
        let gc = self.heap.alloc_list(elements);
        proof {
            self.heap.lemma_free_distinct();
        }
        self.maybe_gc();
        gc
    }

    /// Borrow a heap string by handle.
    pub fn get_string(&self, gc: Gc<StringObj>) -> (r: Result<&StringObj, VmError>)
        ensures
            match r {
                Ok(s) => self.heap.holds(gc.index as int, *s) && !self.heap.free().contains(gc.index),
                Err(e) => e == VmError::HeapError(HeapError::InvalidHandle) && (gc.index >= self.heap.objects().len()
                    || self.heap.free().contains(gc.index) || !(self.heap.objects()[gc.index as int] is String)),
            },
    {
        match self.heap.get(gc) {
            Some(s) => Ok(s),
            None => Err(VmError::HeapError(HeapError::InvalidHandle)),
        }
    }

    /// Mutably borrow a heap string.
    pub fn get_string_mut(&mut self, gc: Gc<StringObj>) -> (r: Result<&mut StringObj, VmError>)
        requires
            old(self).wf(),
        ensures
            final(self).wf(),
            final(self).heap.marks() == old(self).heap.marks(),
            final(self).heap.free() == old(self).heap.free(),
            final(self).heap.threshold() == old(self).heap.threshold(),
            final(self).stack == old(self).stack,
            final(self).frames == old(self).frames,
            final(self).handles == old(self).handles,
            match r {
                Ok(s) => old(self).heap.holds(gc.index as int, *s) && !old(self).heap.free().contains(gc.index)
                    && final(self).heap.objects() == old(self).heap.objects().update(
                    gc.index as int,
                    HeapObject::String(*final(s)),
                ),
                Err(e) => e == VmError::HeapError(HeapError::InvalidHandle) && final(self).heap.objects() == old(
                    self,
                ).heap.objects() && (gc.index >= old(self).heap.objects().len() || old(self).heap.free().contains(
                    gc.index,
                ) || !(old(self).heap.objects()[gc.index as int] is String)),
            },
    {
        match self.heap.get_mut(gc) {
            Some(s) => Ok(s),
            None => Err(VmError::HeapError(HeapError::InvalidHandle)),
        }
    }

    /// Borrow a heap list by handle.
    pub fn get_list(&self, gc: Gc<ListObj>) -> (r: Result<&ListObj, VmError>)
        ensures
            match r {
                Ok(l) => self.heap.holds(gc.index as int, *l) && !self.heap.free().contains(gc.index),
                Err(e) => e == VmError::HeapError(HeapError::InvalidHandle) && (gc.index >= self.heap.objects().len()
                    || self.heap.free().contains(gc.index) || !(self.heap.objects()[gc.index as int] is List)),
            },
    {
        match self.heap.get(gc) {
            Some(l) => Ok(l),
            None => Err(VmError::HeapError(HeapError::InvalidHandle)),
        }
    }

    /// Mutably borrow a heap list.
    pub fn get_list_mut(&mut self, gc: Gc<ListObj>) -> (r: Result<&mut ListObj, VmError>)
        requires
            old(self).wf(),
        ensures
            final(self).wf(),
            final(self).heap.marks() == old(self).heap.marks(),
            final(self).heap.free() == old(self).heap.free(),
            final(self).heap.threshold() == old(self).heap.threshold(),
            final(self).stack == old(self).stack,
            final(self).frames == old(self).frames,
            final(self).handles == old(self).handles,
            match r {
                Ok(l) => old(self).heap.holds(gc.index as int, *l) && !old(self).heap.free().contains(gc.index)
                    && final(self).heap.objects() == old(self).heap.objects().update(
                    gc.index as int,
                    HeapObject::List(*final(l)),
                ),
                Err(e) => e == VmError::HeapError(HeapError::InvalidHandle) && final(self).heap.objects() == old(
                    self,
                ).heap.objects() && (gc.index >= old(self).heap.objects().len() || old(self).heap.free().contains(
                    gc.index,
                ) || !(old(self).heap.objects()[gc.index as int] is List)),
            },
    {
        match self.heap.get_mut(gc) {
            Some(l) => Ok(l),
            None => Err(VmError::HeapError(HeapError::InvalidHandle)),
        }
    }
}

} // verus!

verus! {

impl VM {
    // -- I/O handles --

    /// Register an I/O handle under the next id and return that id; ids
    /// wrap around after `u32::MAX`.
    pub fn create_handle(&mut self, handle: IoHandle) -> (id: HandleId)
        requires
            old(self).wf(),
        ensures
            final(self).wf(),
            id == HandleId(old(self).next_handle_id),
            final(self).next_handle_id == old(self).next_handle_id.wrapping_add(1),
            match old(self).handles.position_of(id) {
                Some(i) => final(self).handles.entries@ == old(self).handles.entries@.update(i, (id, handle)),
                None => final(self).handles.entries@ == old(self).handles.entries@.push((id, handle)),
            },
            final(self).stack == old(self).stack,
            final(self).frames == old(self).frames,
            final(self).functions == old(self).functions,
            final(self).running == old(self).running,
            final(self).heap == old(self).heap,
            final(self).task_registry == old(self).task_registry,
            final(self).pending == old(self).pending,
            final(self).snapshot == old(self).snapshot,
            final(self).current_task_id == old(self).current_task_id,
    {
        let id = HandleId(self.next_handle_id);
        self.next_handle_id = self.next_handle_id.wrapping_add(1);
        self.handles.insert(id, handle);
        id
    }

    /// Register an I/O handle under a given id, replacing any handle there.
    pub fn register_handle(&mut self, id: HandleId, handle: IoHandle)
        requires
            old(self).wf(),
        ensures
            final(self).wf(),
            match old(self).handles.position_of(id) {
                Some(i) => final(self).handles.entries@ == old(self).handles.entries@.update(i, (id, handle)),
                None => final(self).handles.entries@ == old(self).handles.entries@.push((id, handle)),
            },
            final(self).next_handle_id == old(self).next_handle_id,
            final(self).stack == old(self).stack,
            final(self).frames == old(self).frames,
            final(self).functions == old(self).functions,
            final(self).running == old(self).running,
            final(self).heap == old(self).heap,
            final(self).task_registry == old(self).task_registry,
            final(self).pending == old(self).pending,
            final(self).snapshot == old(self).snapshot,
            final(self).current_task_id == old(self).current_task_id,
    {
        self.handles.insert(id, handle);
    }

    /// Borrow a registered I/O handle by id.
    pub fn get_handle(&self, id: HandleId) -> (r: Option<&IoHandle>)
        ensures
            match r {
                Some(h) => exists|i: int|
                    0 <= i < self.handles.entries@.len() && (#[trigger] self.handles.entries@[i]).0 == id
                        && self.handles.entries@[i].1 == *h,
                None => forall|i: int| 0 <= i < self.handles.entries@.len() ==> (#[trigger] self.handles.entries@[i]).0 != id,
            },
    {
        self.handles.get(id)
    }

    /// Mutably borrow a registered I/O handle by id.
    pub fn get_handle_mut(&mut self, id: HandleId) -> (r: Option<&mut IoHandle>)
        requires
            old(self).wf(),
        ensures
            final(self).wf(),
            match r {
                Some(h) => exists|i: int|
                    0 <= i < old(self).handles.entries@.len() && (#[trigger] old(self).handles.entries@[i]).0 == id
                        && old(self).handles.entries@[i].1 == *h && final(self).handles.entries@ == old(
                        self,
                    ).handles.entries@.update(i, (id, *final(h))),
                None => (forall|i: int|
                    0 <= i < old(self).handles.entries@.len() ==> (#[trigger] old(self).handles.entries@[i]).0 != id)
                    && final(self).handles.entries@ == old(self).handles.entries@,
            },
            final(self).next_handle_id == old(self).next_handle_id,
            final(self).stack == old(self).stack,
            final(self).frames == old(self).frames,
            final(self).heap == old(self).heap,
            final(self).task_registry == old(self).task_registry,
            final(self).snapshot == old(self).snapshot,
            final(self).current_task_id == old(self).current_task_id,
            final(self).functions == old(self).functions,
            final(self).running == old(self).running,
            final(self).pending == old(self).pending,
    {
        self.handles.get_mut(id)
    }

    /// Remove an I/O handle from the registry; true if it was registered.
    pub fn close_handle(&mut self, id: HandleId) -> (removed: bool)
        requires
            old(self).wf(),
        ensures
            final(self).wf(),
            removed == old(self).handles.position_of(id) is Some,
            match old(self).handles.position_of(id) {
                Some(i) => final(self).handles.entries@ == old(self).handles.entries@.remove(i),
                None => final(self).handles.entries@ == old(self).handles.entries@,
            },
            final(self).next_handle_id == old(self).next_handle_id,
            final(self).stack == old(self).stack,
            final(self).frames == old(self).frames,
            final(self).functions == old(self).functions,
            final(self).running == old(self).running,
            final(self).heap == old(self).heap,
            final(self).task_registry == old(self).task_registry,
            final(self).pending == old(self).pending,
            final(self).snapshot == old(self).snapshot,
            final(self).current_task_id == old(self).current_task_id,
    {
        self.handles.remove(id)
    }

    /// Number of registered I/O handles.
    pub fn handle_count(&self) -> (n: usize)
        ensures
            n == self.handles.entries@.len(),
    {
        self.handles.len()
    }

    // -- functions --

    /// Register a function and return its index.
    pub fn add_function(&mut self, func: Function) -> (idx: usize)
        ensures
            idx == old(self).functions@.len(),
            final(self).functions@ == old(self).functions@.push(func),
            final(self).stack == old(self).stack,
            final(self).frames == old(self).frames,
            final(self).running == old(self).running,
            final(self).heap == old(self).heap,
            final(self).handles == old(self).handles,
            final(self).task_registry == old(self).task_registry,
            final(self).pending == old(self).pending,
            final(self).next_handle_id == old(self).next_handle_id,
            final(self).snapshot == old(self).snapshot,
            final(self).current_task_id == old(self).current_task_id,
    {
        let idx = self.functions.len();
        self.functions.push(func);
        idx
    }

    /// Prepare to execute function `main_idx`: push its call frame, with
    /// every local `Null`, and start running.
    pub fn prepare(&mut self, main_idx: usize) -> (r: Result<(), VmError>)
        ensures
            main_idx >= old(self).functions@.len() ==> r == Err::<(), VmError>(VmError::InvalidFunction(main_idx))
                && *final(self) == *old(self),
            main_idx < old(self).functions@.len() ==> r is Ok && final(self).frames@ == old(self).frames@.push(
                CallFrame {
                    function: main_idx,
                    ip: 0,
                    locals: final(self).frames@.last().locals,
                },
            ) && final(self).frames@.last().locals@ == Seq::new(
                old(self).functions@[main_idx as int].num_locals as nat,
                |i: int| Value::Null,
            ) && final(self).running,
            final(self).stack == old(self).stack,
            final(self).functions == old(self).functions,
            final(self).heap == old(self).heap,
            final(self).handles == old(self).handles,
            final(self).task_registry == old(self).task_registry,
            final(self).pending == old(self).pending,
            final(self).next_handle_id == old(self).next_handle_id,
            final(self).snapshot == old(self).snapshot,
            final(self).current_task_id == old(self).current_task_id,
    {
        if main_idx >= self.functions.len() {
            return Err(VmError::InvalidFunction(main_idx));
        }
        let n = self.functions[main_idx].num_locals;
        let locals = null_locals(n);
        self.frames.push(CallFrame::new(main_idx, locals));
        self.running = true;
        Ok(())
    }
}

/// `n` locals, each `Null`.
fn null_locals(n: usize) -> (v: Vec<Value>)
    ensures
        v@ == Seq::new(n as nat, |i: int| Value::Null),
{
    let mut v: Vec<Value> = Vec::new();
    let mut i: usize = 0;
    while i < n
        invariant
            i <= n,
            v@ == Seq::new(i as nat, |k: int| Value::Null),
        decreases n - i,
    {
        v.push(Value::Null);
        i = i + 1;
        assert(v@ =~= Seq::new(i as nat, |k: int| Value::Null));
    }
    v
}

} // verus!

verus! {

/// The slots the stacks and frames of `tasks` refer to, task by task.
pub open spec fn task_refs(tasks: Seq<crate::task::Task>) -> Seq<usize>
    decreases tasks.len(),
{
    if tasks.len() == 0 {
        Seq::empty()
    } else {
        task_refs(tasks.drop_last()) + (refs_of(tasks.last().stack@) + frame_refs(tasks.last().frames@))
    }
}

/// Every root of the machine: its own, then those of its tasks.
pub open spec fn all_roots(vm: VM) -> Seq<usize> {
    root_slots(vm.stack@, vm.frames@) + task_refs(vm.task_registry.tasks@)
}

impl VM {
    /// Clear the marks, then mark every object reachable from the machine's
    /// roots and from the stacks and frames of all its tasks.
    pub fn mark_all_task_roots(&mut self)
        requires
            old(self).wf(),
        ensures
            final(self).wf(),
            final(self).heap.objects() == old(self).heap.objects(),
            final(self).heap.free() == old(self).heap.free(),
            final(self).heap.threshold() == old(self).heap.threshold(),
            final(self).heap.marks().len() == final(self).heap.objects().len(),
            forall|j: int|
                0 <= j < final(self).heap.objects().len() ==> (#[trigger] final(self).heap.marks()[j] <==> reachable_from(
                    final(self).heap.objects(),
                    all_roots(*old(self)),
                    j as usize,
                )),
            final(self).stack == old(self).stack,
            final(self).frames == old(self).frames,
            final(self).functions == old(self).functions,
            final(self).running == old(self).running,
            final(self).handles == old(self).handles,
            final(self).task_registry == old(self).task_registry,
            final(self).current_task_id == old(self).current_task_id,
            final(self).pending == old(self).pending,
            final(self).snapshot == old(self).snapshot,
            final(self).next_handle_id == old(self).next_handle_id,
    {
        self.heap.reset_marks();
        let ghost m0 = self.heap.marks();
        proof {
            self.heap.lemma_free_distinct();
        }
        self.mark_roots();
        let ghost m1 = self.heap.marks();
        let ghost objs = self.heap.objects();
        let mut i: usize = 0;
        assert(task_refs(self.task_registry.tasks@.take(0)) =~= Seq::<usize>::empty());
        assert(root_slots(self.stack@, self.frames@) + Seq::<usize>::empty() =~= root_slots(self.stack@, self.frames@));
        while i < self.task_registry.tasks.len()
            invariant
                self.heap.wf(),
                self.heap.objects() == objs,
                objs == old(self).heap.objects(),
                self.heap.free() == old(self).heap.free(),
                self.heap.threshold() == old(self).heap.threshold(),
                self.stack == old(self).stack,
                self.frames == old(self).frames,
                self.functions == old(self).functions,
                self.running == old(self).running,
                self.handles == old(self).handles,
                self.task_registry == old(self).task_registry,
                self.current_task_id == old(self).current_task_id,
                self.pending == old(self).pending,
                self.snapshot == old(self).snapshot,
                self.next_handle_id == old(self).next_handle_id,
                i <= self.task_registry.tasks@.len(),
                m0.len() == objs.len(),
                forall|k: int| 0 <= k < m0.len() ==> !m0[k],
                marked_from(
                    objs,
                    m0,
                    self.heap.marks(),
                    root_slots(self.stack@, self.frames@) + task_refs(self.task_registry.tasks@.take(i as int)),
                ),
            decreases self.task_registry.tasks@.len() - i,
        {
            let ghost ma = self.heap.marks();
            let ghost tasks = self.task_registry.tasks@;
            proof {
                self.heap.lemma_free_distinct();
            }
            mark_values(&mut self.heap, &self.task_registry.tasks[i].stack);
            let ghost mb = self.heap.marks();
            proof {
                self.heap.lemma_free_distinct();
            }
            mark_frames(&mut self.heap, &self.task_registry.tasks[i].frames);
            proof {
                let t = tasks[i as int];
                lemma_marked_from_concat(objs, ma, mb, self.heap.marks(), refs_of(t.stack@), frame_refs(t.frames@));
                let before = root_slots(self.stack@, self.frames@) + task_refs(tasks.take(i as int));
                lemma_marked_from_concat(objs, m0, ma, self.heap.marks(), before, refs_of(t.stack@) + frame_refs(t.frames@));
                assert(tasks.take(i + 1).drop_last() =~= tasks.take(i as int));
                assert(before + (refs_of(t.stack@) + frame_refs(t.frames@)) =~= root_slots(self.stack@, self.frames@)
                    + task_refs(tasks.take(i + 1)));
            }
            i = i + 1;
        }
        proof {
            assert(self.task_registry.tasks@.take(i as int) =~= self.task_registry.tasks@);
            self.heap.lemma_free_distinct();
            lemma_marked_exactly(objs, m0, self.heap.marks(), all_roots(*old(self)));
        }
    }
}

} // verus!

verus! {

use crate::chunk::{function_has_content, module_bytes};

/// What a fresh `DefaultHasher` gives for `bytes` written in one call.
pub uninterp spec fn default_hash(bytes: Seq<u8>) -> u64;

/// Hash `bytes` with a fresh `std::collections::hash_map::DefaultHasher`.
///
/// Trusted: std documents that every `DefaultHasher` made by `new` is the
/// same as every other, so the result depends on the bytes alone; it is
/// named `default_hash(bytes)` and nothing more is said of it.
#[verifier::external_body]
fn hash_bytes(bytes: &[u8]) -> (h: u64)
    ensures
        h == default_hash(bytes@),
{
    let mut hasher = std::collections::hash_map::DefaultHasher::new();
    std::hash::Hasher::write(&mut hasher, bytes);
    std::hash::Hasher::finish(&hasher)
}

/// Every instruction operand of every function has content in the heap.
pub open spec fn code_has_content(vm: VM) -> bool {
    forall|i: int| 0 <= i < vm.functions@.len() ==> function_has_content(vm.heap.objects(), #[trigger] vm.functions@[i])
}

/// The code hash of a machine: the hash of its serialized function table.
pub open spec fn spec_code_hash(vm: VM) -> u64 {
    default_hash(module_bytes(vm.heap.objects(), vm.functions@))
}

impl VM {
    /// Hash of the function table, for code-mismatch detection: the
    /// `DefaultHasher` hash of the serialized module, so it covers every
    /// instruction and embedded heap constant.
    pub fn code_hash(&self) -> (h: u64)
        requires
            code_has_content(*self),
        ensures
            h == spec_code_hash(*self),
    {
        let bytes = crate::chunk::serialize_module(self.functions.as_slice(), &self.heap);
        hash_bytes(bytes.as_slice())
    }
}

} // verus!

verus! {

use crate::text::{push_decimal_u64, spec_decimal_u64};
use crate::value::spec_display;

/// The message of a machine error.
pub open spec fn spec_vm_error_text(e: VmError) -> Seq<char> {
    match e {
        VmError::StackUnderflow => "stack underflow"@,
        VmError::EmptyFrameStack => "empty call frame stack"@,
        VmError::InvalidFunction(i) => "invalid function index: "@ + spec_decimal_u64(i as u64),
        VmError::InvalidIp => "instruction pointer out of bounds"@,
        VmError::LocalOutOfBounds(i) => "local "@ + spec_decimal_u64(i as u64) + " out of bounds"@,
        VmError::TypeError(t) => "type error: cannot "@ + t.op@ + " "@ + spec_display(t.lhs) + " and "@ + spec_display(t.rhs),
        VmError::HeapError(_) => "invalid heap handle"@,
        VmError::Halted => "VM halted"@,
        VmError::IoError(m) => "I/O error: "@ + m@,
    }
}

/// The error can be displayed without the host (no float operand).
pub open spec fn vm_error_shown(e: VmError) -> bool {
    e matches VmError::TypeError(t) ==> !(t.lhs is Float) && !(t.rhs is Float)
}

impl VmError {
    /// The error's message.
    pub fn display_string(&self) -> (s: String)
        requires
            vm_error_shown(*self),
        ensures
            s@ == spec_vm_error_text(*self),
    {
        match self {
            VmError::StackUnderflow => text("stack underflow"),
            VmError::EmptyFrameStack => text("empty call frame stack"),
            VmError::InvalidFunction(i) => {
                let mut s = text("invalid function index: ");
                push_decimal_u64(&mut s, *i as u64);
                s
            },
            VmError::InvalidIp => text("instruction pointer out of bounds"),
            VmError::LocalOutOfBounds(i) => {
                let mut s = text("local ");
                push_decimal_u64(&mut s, *i as u64);
                s.append(" out of bounds");
                s
            },
            VmError::TypeError(t) => t.display_string(),
            VmError::HeapError(h) => h.display_string(),
            VmError::Halted => text("VM halted"),
            VmError::IoError(m) => {
                let mut s = text("I/O error: ");
                s.append(m.as_str());
                s
            },
        }
    }
}

impl ResumeError {
    /// The error's message.
    pub fn display_string(&self) -> (s: String)
        requires
            *self matches ResumeError::Vm(e) ==> vm_error_shown(e),
        ensures
            s@ == (match *self {
                ResumeError::Snapshot(m) => "resume snapshot error: "@ + m@,
                ResumeError::Vm(e) => "resume VM error: "@ + spec_vm_error_text(e),
                ResumeError::Reconnect(m) => "resume reconnect error: "@ + m@,
            }),
    {
        match self {
            ResumeError::Snapshot(m) => {
                let mut s = text("resume snapshot error: ");
                s.append(m.as_str());
                s
            },
            ResumeError::Vm(e) => {
                let mut s = text("resume VM error: ");
                let t = e.display_string();
                s.append(t.as_str());
                s
            },
            ResumeError::Reconnect(m) => {
                let mut s = text("resume reconnect error: ");
                s.append(m.as_str());
                s
            },
        }
    }
}

} // verus!
