use pausible::task::{Task, TaskId, TaskStatus, TaskTable, TaskTree};

fn make_registry() -> TaskTable {
    let mut registry = TaskTable::new();
    registry.insert(Task::new(TaskId::root(), None));
    registry
}

#[test]
fn task_id_root_is_zero() {
    assert_eq!(TaskId::root(), TaskId(0));
    assert!(TaskId::root().is_root());
    assert!(!TaskId(1).is_root());
}

#[test]
fn task_id_display() {
    assert_eq!(TaskId(0).display_string(), "Task(0)");
    assert_eq!(TaskId(42).display_string(), "Task(42)");
}

#[test]
fn task_status_predicates() {
    assert!(TaskStatus::Running.is_running());
    assert!(!TaskStatus::Running.is_completed());
    assert!(!TaskStatus::Running.is_yielded());

    assert!(TaskStatus::Completed.is_completed());
    assert!(!TaskStatus::Completed.is_yielded());

    assert!(TaskStatus::Yielded(5).is_yielded());
}

#[test]
fn new_task_has_correct_defaults() {
    let task = Task::new(TaskId(1), Some(TaskId::root()));
    assert_eq!(task.id, TaskId(1));
    assert_eq!(task.parent, Some(TaskId::root()));
    assert!(task.children.is_empty());
    assert_eq!(task.status, TaskStatus::Running);
    assert!(task.stack.is_empty());
    assert!(task.frames.is_empty());
    assert!(task.io_handles.is_empty());
}

#[test]
fn root_task_has_no_parent() {
    let task = Task::new(TaskId::root(), None);
    assert!(task.is_root());
    assert_eq!(task.child_count(), 0);
}

#[test]
fn task_child_count() {
    let mut task = Task::new(TaskId(0), None);
    assert_eq!(task.child_count(), 0);
    task.children.push(TaskId(1));
    task.children.push(TaskId(2));
    assert_eq!(task.child_count(), 2);
}

#[test]
fn tree_root() {
    let registry = make_registry();
    let tree = TaskTree::new(&registry);
    assert!(tree.root().is_some());
    assert_eq!(tree.root().unwrap().id, TaskId::root());
}

#[test]
fn tree_empty() {
    let registry = TaskTable::new();
    let tree = TaskTree::new(&registry);
    assert!(tree.is_empty());
    assert_eq!(tree.len(), 0);
    assert!(tree.root().is_none());
}

#[test]
fn tree_parent_lookup() {
    let mut registry = make_registry();
    registry.insert(Task::new(TaskId(1), Some(TaskId::root())));
    let tree = TaskTree::new(&registry);
    let parent = tree.find_parent(TaskId(1));
    assert!(parent.is_some());
    assert_eq!(parent.unwrap().id, TaskId::root());
}

#[test]
fn tree_parent_of_root_is_none() {
    let registry = make_registry();
    let tree = TaskTree::new(&registry);
    assert!(tree.find_parent(TaskId::root()).is_none());
}

#[test]
fn tree_children_query() {
    let mut registry = TaskTable::new();
    let mut root = Task::new(TaskId::root(), None);
    root.children.push(TaskId(1));
    root.children.push(TaskId(2));
    registry.insert(root);
    registry.insert(Task::new(TaskId(1), Some(TaskId::root())));
    registry.insert(Task::new(TaskId(2), Some(TaskId::root())));

    let tree = TaskTree::new(&registry);
    let children = tree.get_children(TaskId::root());
    assert_eq!(children.len(), 2);
    assert_eq!(children[0].id, TaskId(1));
    assert_eq!(children[1].id, TaskId(2));
}

#[test]
fn tree_children_of_leaf_is_empty() {
    let mut registry = make_registry();
    registry.insert(Task::new(TaskId(1), Some(TaskId::root())));
    let tree = TaskTree::new(&registry);
    assert!(tree.get_children(TaskId(1)).is_empty());
}

#[test]
fn tree_get_nonexistent() {
    let registry = make_registry();
    let tree = TaskTree::new(&registry);
    assert!(tree.get(TaskId(99)).is_none());
}

#[test]
fn tree_len() {
    let mut registry = make_registry();
    registry.insert(Task::new(TaskId(1), Some(TaskId::root())));
    registry.insert(Task::new(TaskId(2), Some(TaskId::root())));
    let tree = TaskTree::new(&registry);
    assert_eq!(tree.len(), 3);
}

#[test]
fn registry_insert_replaces_task_with_same_id() {
    let mut registry = make_registry();
    let mut t = Task::new(TaskId::root(), None);
    t.status = TaskStatus::Completed;
    registry.insert(t);
    assert_eq!(registry.len(), 1);
    assert_eq!(registry.get(TaskId::root()).unwrap().status, TaskStatus::Completed);
}
