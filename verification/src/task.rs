use vstd::prelude::*;

use crate::io::HandleTable;
use crate::text::{push_decimal_u64, spec_decimal_u64, text};
use crate::value::Value;
use crate::vm::CallFrame;

verus! {

/// Unique identifier for a task.
#[derive(Debug, Clone, Copy, PartialEq, Eq, Hash)]
pub struct TaskId(pub u64);

impl TaskId {
    /// The root task always has id 0.
    pub fn root() -> (t: Self)
        ensures
            t.0 == 0,
    {
        TaskId(0)
    }

    pub fn is_root(self) -> (b: bool)
        ensures
            b == (self.0 == 0),
    {
        self.0 == 0
    }

    /// `Task(` id `)`.
    pub fn display_string(&self) -> (s: String)
        ensures
            s@ == "Task("@ + spec_decimal_u64(self.0) + ")"@,
    {
        let mut s = text("Task(");
        push_decimal_u64(&mut s, self.0);
        s.append(")");
        s
    }
}

/// Execution status of a task.
#[derive(Debug, Clone, Copy, PartialEq)]
pub enum TaskStatus {
    /// Executing or ready to run.
    Running,
    /// Yielded at the given instruction pointer.
    Yielded(usize),
    /// Finished.
    Completed,
}

impl TaskStatus {
    pub fn is_running(&self) -> (b: bool)
        ensures
            b == (*self is Running),
    {
        matches!(self, TaskStatus::Running)
    }

    pub fn is_completed(&self) -> (b: bool)
        ensures
            b == (*self is Completed),
    {
        matches!(self, TaskStatus::Completed)
    }

    pub fn is_yielded(&self) -> (b: bool)
        ensures
            b == (*self is Yielded),
    {
        matches!(self, TaskStatus::Yielded(_))
    }
}

/// A task owns its own operand stack, call frames and I/O handles.
///
/// Tasks form a tree: each task has at most one parent; the root (id 0) has
/// none.
#[derive(Debug, Clone)]
pub struct Task {
    pub id: TaskId,
    pub parent: Option<TaskId>,
    pub children: Vec<TaskId>,
    pub status: TaskStatus,
    /// Per-task operand stack.
    pub stack: Vec<Value>,
    /// Per-task call frames.
    pub frames: Vec<CallFrame>,
    /// Per-task I/O handle registry.
    pub io_handles: HandleTable,
}

impl Task {
    pub fn new(id: TaskId, parent: Option<TaskId>) -> (t: Self)
        ensures
            t.id == id,
            t.parent == parent,
            t.children@.len() == 0,
            t.status == TaskStatus::Running,
            t.stack@.len() == 0,
            t.frames@.len() == 0,
            t.io_handles.entries@.len() == 0,
    {
        Task {
            id,
            parent,
            children: Vec::new(),
            status: TaskStatus::Running,
            stack: Vec::new(),
            frames: Vec::new(),
            io_handles: HandleTable::new(),
        }
    }

    /// True for a task without a parent.
    pub fn is_root(&self) -> (b: bool)
        ensures
            b == (self.parent is None),
    {
        self.parent.is_none()
    }

    /// Number of direct children.
    pub fn child_count(&self) -> (n: usize)
        ensures
            n == self.children@.len(),
    {
        self.children.len()
    }
}

/// The tasks of a machine, keyed by id, in registration order.
#[derive(Debug, Clone)]
pub struct TaskTable {
    pub tasks: Vec<Task>,
}

/// `i` is the first position of `s` holding a task with id `id`.
pub open spec fn is_first(s: Seq<Task>, id: TaskId, i: int) -> bool {
    &&& 0 <= i < s.len()
    &&& s[i].id == id
    &&& forall|k: int| 0 <= k < i ==> (#[trigger] s[k]).id != id
}

/// The first task of `s` with id `id`, if any.
pub open spec fn lookup(s: Seq<Task>, id: TaskId) -> Option<Task> {
    if exists|i: int| is_first(s, id, i) {
        Some(s[choose|i: int| is_first(s, id, i)])
    } else {
        None
    }
}

/// The first position holding id `id` is where `lookup` finds it.
pub proof fn lemma_lookup_at(s: Seq<Task>, id: TaskId, i: int)
    requires
        is_first(s, id, i),
    ensures
        lookup(s, id) == Some(s[i]),
{
    let j = choose|j: int| is_first(s, id, j);
    assert(is_first(s, id, j));
    if j < i {
        assert(s[j].id != id);
    } else if i < j {
        assert(s[i].id != id);
    }
}

/// The registered tasks among the ids `kids`, in their order (an id with no
/// task is passed over).
pub open spec fn registered_children(s: Seq<Task>, kids: Seq<TaskId>) -> Seq<Task>
    decreases kids.len(),
{
    if kids.len() == 0 {
        Seq::empty()
    } else {
        let r = registered_children(s, kids.drop_last());
        match lookup(s, kids.last()) {
            Some(t) => r.push(t),
            None => r,
        }
    }
}

/// The children of task `id` that are registered, in the order it lists them.
pub open spec fn children_of(s: Seq<Task>, id: TaskId) -> Seq<Task> {
    match lookup(s, id) {
        Some(t) => registered_children(s, t.children@),
        None => Seq::empty(),
    }
}

impl TaskTable {
    /// No id occurs twice.
    pub open spec fn wf(&self) -> bool {
        forall|i: int, j: int| 0 <= i < j < self.tasks@.len() ==> (#[trigger] self.tasks@[i]).id != (#[trigger] self.tasks@[j]).id
    }

    pub fn new() -> (t: Self)
        ensures
            t.wf(),
            t.tasks@.len() == 0,
    {
        TaskTable { tasks: Vec::new() }
    }

    pub fn len(&self) -> (n: usize)
        ensures
            n == self.tasks@.len(),
    {
        self.tasks.len()
    }

    pub fn is_empty(&self) -> (b: bool)
        ensures
            b == (self.tasks@.len() == 0),
    {
        self.tasks.len() == 0
    }

    pub fn position(&self, id: TaskId) -> (r: Option<usize>)
        ensures
            match r {
                Some(i) => is_first(self.tasks@, id, i as int),
                None => forall|i: int| 0 <= i < self.tasks@.len() ==> (#[trigger] self.tasks@[i]).id != id,
            },
    {
        let mut i: usize = 0;
        while i < self.tasks.len()
            invariant
                i <= self.tasks@.len(),
                forall|k: int| 0 <= k < i ==> (#[trigger] self.tasks@[k]).id != id,
            decreases self.tasks@.len() - i,
        {
            if self.tasks[i].id.0 == id.0 {
                return Some(i);
            }
            i = i + 1;
        }
        None
    }

    pub fn get(&self, id: TaskId) -> (r: Option<&Task>)
        ensures
            match r {
                Some(t) => t.id == id && self.tasks@.contains(*t) && lookup(self.tasks@, id) == Some(*t),
                None => forall|i: int| 0 <= i < self.tasks@.len() ==> (#[trigger] self.tasks@[i]).id != id,
            },
            r is None <==> lookup(self.tasks@, id) is None,
    {
        match self.position(id) {
            Some(i) => {
                proof {
                    lemma_lookup_at(self.tasks@, id, i as int);
                }
                Some(&self.tasks[i])
            },
            None => None,
        }
    }

    /// The index of the task with id `id`, if any.
    pub open spec fn position_of(&self, id: TaskId) -> Option<int> {
        if exists|i: int| 0 <= i < self.tasks@.len() && (#[trigger] self.tasks@[i]).id == id {
            Some(choose|i: int| 0 <= i < self.tasks@.len() && (#[trigger] self.tasks@[i]).id == id)
        } else {
            None
        }
    }

    /// Register `task`, replacing any task with the same id.
    pub fn insert(&mut self, task: Task)
        requires
            old(self).wf(),
        ensures
            final(self).wf(),
            match old(self).position_of(task.id) {
                Some(i) => final(self).tasks@ == old(self).tasks@.update(i, task),
                None => final(self).tasks@ == old(self).tasks@.push(task),
            },
            final(self).tasks@.contains(task),
            forall|t: Task| #[trigger] old(self).tasks@.contains(t) && t.id != task.id ==> final(self).tasks@.contains(t),
            forall|t: Task| #[trigger] final(self).tasks@.contains(t) ==> t == task || old(self).tasks@.contains(t),
    {
        let id = task.id;
        match self.position(id) {
            Some(i) => {
                proof {
                    let j = choose|j: int| 0 <= j < old(self).tasks@.len() && (#[trigger] old(self).tasks@[j]).id == id;
                    assert(old(self).tasks@[i as int].id == id);
                    if j != i {
                        if j < i {
                            assert(old(self).tasks@[j].id != old(self).tasks@[i as int].id);
                        } else {
                            assert(old(self).tasks@[i as int].id != old(self).tasks@[j].id);
                        }
                    }
                }
                self.tasks.set(i, task);
                assert(self.tasks@[i as int] == task);
                assert forall|t: Task| #[trigger] old(self).tasks@.contains(t) && t.id != id implies self.tasks@.contains(t) by {
                    let k = choose|k: int| 0 <= k < old(self).tasks@.len() && old(self).tasks@[k] == t;
                    assert(self.tasks@[k] == t);
                }
                assert forall|t: Task| #[trigger] self.tasks@.contains(t) implies t == task || old(self).tasks@.contains(t) by {
                    let k = choose|k: int| 0 <= k < self.tasks@.len() && self.tasks@[k] == t;
                    if k != i {
                        assert(old(self).tasks@[k] == t);
                    }
                }
                assert forall|a: int, b: int| 0 <= a < b < self.tasks@.len() implies (
                #[trigger] self.tasks@[a]).id != (#[trigger] self.tasks@[b]).id by {
                    assert(old(self).tasks@[a].id != old(self).tasks@[b].id);
                }
            },
            None => {
                self.tasks.push(task);
                assert(self.tasks@[self.tasks@.len() - 1] == task);
                assert forall|t: Task| #[trigger] old(self).tasks@.contains(t) && t.id != id implies self.tasks@.contains(t) by {
                    let k = choose|k: int| 0 <= k < old(self).tasks@.len() && old(self).tasks@[k] == t;
                    assert(self.tasks@[k] == t);
                }
                assert forall|t: Task| #[trigger] self.tasks@.contains(t) implies t == task || old(self).tasks@.contains(t) by {
                    let k = choose|k: int| 0 <= k < self.tasks@.len() && self.tasks@[k] == t;
                    if k < old(self).tasks@.len() {
                        assert(old(self).tasks@[k] == t);
                    }
                }
                assert forall|a: int, b: int| 0 <= a < b < self.tasks@.len() implies (
                #[trigger] self.tasks@[a]).id != (#[trigger] self.tasks@[b]).id by {
                    if b < old(self).tasks@.len() {
                        assert(old(self).tasks@[a].id != old(self).tasks@[b].id);
                    } else {
                        assert(old(self).tasks@[a].id != id);
                    }
                }
            },
        }
    }
}

/// Parent / child queries over a task table.
#[derive(Debug)]
pub struct TaskTree<'a> {
    registry: &'a TaskTable,
}

impl<'a> TaskTree<'a> {
    pub closed spec fn table(&self) -> TaskTable {
        *self.registry
    }

    pub fn new(registry: &'a TaskTable) -> (t: Self)
        ensures
            t.table() == *registry,
    {
        TaskTree { registry }
    }

    pub fn get(&self, id: TaskId) -> (r: Option<&Task>)
        ensures
            match r {
                Some(t) => t.id == id && self.table().tasks@.contains(*t),
                None => forall|i: int|
                    0 <= i < self.table().tasks@.len() ==> (#[trigger] self.table().tasks@[i]).id != id,
            },
    {
        self.registry.get(id)
    }

    /// The parent of task `id`, when both are registered.
    pub fn find_parent(&self, id: TaskId) -> (r: Option<&Task>)
        requires
            self.table().wf(),
        ensures
            match r {
                Some(p) => self.table().tasks@.contains(*p) && exists|c: Task|
                    #[trigger] self.table().tasks@.contains(c) && c.id == id && c.parent == Some(p.id),
                None => forall|c: Task|
                    #[trigger] self.table().tasks@.contains(c) && c.id == id && c.parent is Some ==> forall|i: int|
                        0 <= i < self.table().tasks@.len() ==> (#[trigger] self.table().tasks@[i]).id != c.parent.unwrap(),
            },
    {
        match self.registry.get(id) {
            Some(t) => match t.parent {
                Some(pid) => {
                    let r = self.registry.get(pid);
                    proof {
                        if r is None {
                            assert forall|c: Task|
                                #[trigger] self.table().tasks@.contains(c) && c.id == id && c.parent is Some implies forall|i: int|
                                    0 <= i < self.table().tasks@.len() ==> (#[trigger] self.table().tasks@[i]).id
                                        != c.parent.unwrap() by {
                                let k = choose|k: int| 0 <= k < self.registry.tasks@.len() && self.registry.tasks@[k] == c;
                                let k2 = choose|k: int| 0 <= k < self.registry.tasks@.len() && self.registry.tasks@[k] == *t;
                                if k != k2 {
                                    if k < k2 {
                                        assert(self.registry.tasks@[k].id != self.registry.tasks@[k2].id);
                                    } else {
                                        assert(self.registry.tasks@[k2].id != self.registry.tasks@[k].id);
                                    }
                                }
                            }
                        }
                    }
                    r
                },
                None => None,
            },
            None => None,
        }
    }

    /// The registered children of task `id`, in the order it lists them.
    pub fn get_children(&self, id: TaskId) -> (r: Vec<&Task>)
        ensures
            r@.map_values(|t: &Task| *t) == children_of(self.table().tasks@, id),
            forall|i: int| 0 <= i < r@.len() ==> self.table().tasks@.contains(*#[trigger] r@[i]),
    {
        let mut out: Vec<&Task> = Vec::new();
        match self.registry.get(id) {
            Some(t) => {
                let mut k: usize = 0;
                while k < t.children.len()
                    invariant
                        k <= t.children@.len(),
                        lookup(self.registry.tasks@, id) == Some(*t),
                        out@.map_values(|c: &Task| *c) == registered_children(
                            self.registry.tasks@,
                            t.children@.subrange(0, k as int),
                        ),
                        forall|i: int| 0 <= i < out@.len() ==> self.registry.tasks@.contains(*#[trigger] out@[i]),
                    decreases t.children@.len() - k,
                {
                    let ghost before = out@;
                    assert(t.children@.subrange(0, k as int + 1).drop_last() =~= t.children@.subrange(0, k as int));
                    match self.registry.get(t.children[k]) {
                        Some(c) => {
                            out.push(c);
                            assert(out@.map_values(|x: &Task| *x) =~= before.map_values(|x: &Task| *x).push(*c));
                        },
                        None => {},
                    }
                    k = k + 1;
                }
                assert(t.children@.subrange(0, k as int) =~= t.children@);
            },
            None => {
                assert(out@.map_values(|c: &Task| *c) =~= Seq::<Task>::empty());
            },
        }
        out
    }

    /// The root task (id 0), if registered.
    pub fn root(&self) -> (r: Option<&Task>)
        ensures
            match r {
                Some(t) => t.id.0 == 0 && self.table().tasks@.contains(*t),
                None => forall|i: int| 0 <= i < self.table().tasks@.len() ==> (#[trigger] self.table().tasks@[i]).id.0 != 0,
            },
    {
        self.registry.get(TaskId::root())
    }

    pub fn len(&self) -> (n: usize)
        ensures
            n == self.table().tasks@.len(),
    {
        self.registry.len()
    }

    pub fn is_empty(&self) -> (b: bool)
        ensures
            b == (self.table().tasks@.len() == 0),
    {
        self.registry.is_empty()
    }
}

} // verus!
