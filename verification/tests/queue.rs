use wasmedge_async::task::{Task, TaskQueue, DEFAULT_TASK_QUEUE_SIZE};

#[test]
fn new_queue_is_empty() {
    let mut q = TaskQueue::new();
    assert!(q.is_empty());
    assert_eq!(q.len(), 0);
    assert_eq!(q.pop(), None);
}

#[test]
fn default_capacity_hint() {
    assert_eq!(DEFAULT_TASK_QUEUE_SIZE, 4096);
    assert_eq!(TaskQueue::new().capacity_hint(), 4096);
}

#[test]
fn queue_remembers_the_capacity_it_was_made_with() {
    assert_eq!(TaskQueue::new_with_capacity(0).capacity_hint(), 0);
    assert_eq!(TaskQueue::new_with_capacity(17).capacity_hint(), 17);
    let mut q = TaskQueue::new_with_capacity(2);
    for id in 0..5usize {
        q.push(Task::new(id));
    }
    assert_eq!(q.len(), 5);
    assert_eq!(q.capacity_hint(), 2);
    q.pop();
    assert_eq!(q.capacity_hint(), 2);
}

#[test]
fn queue_is_fifo() {
    let mut q = TaskQueue::new_with_capacity(2);
    q.push(Task::new(7));
    q.push(Task::new(3));
    q.push(Task::new(9));
    assert_eq!(q.len(), 3);
    assert_eq!(q.pop(), Some(Task::new(7)));
    assert_eq!(q.pop(), Some(Task::new(3)));
    assert_eq!(q.pop(), Some(Task::new(9)));
    assert_eq!(q.pop(), None);
}

#[test]
fn queue_keeps_duplicates() {
    let mut q = TaskQueue::new_with_capacity(0);
    q.push(Task::new(1));
    q.push(Task::new(1));
    assert_eq!(q.len(), 2);
    assert_eq!(q.pop().map(|t| t.id()), Some(1));
    assert_eq!(q.pop().map(|t| t.id()), Some(1));
    assert!(q.is_empty());
}

#[test]
fn queue_grows_past_its_hint() {
    let mut q = TaskQueue::new_with_capacity(1);
    for id in 0..100usize {
        q.push(Task::new(id));
    }
    assert_eq!(q.len(), 100);
    for id in 0..100usize {
        assert_eq!(q.pop(), Some(Task::new(id)));
    }
    assert_eq!(q.pop(), None);
}

#[test]
fn append_moves_all_tasks_in_order() {
    let mut q = TaskQueue::new_with_capacity(4);
    let mut other = TaskQueue::new_with_capacity(8);
    q.push(Task::new(1));
    other.push(Task::new(2));
    other.push(Task::new(3));
    q.append(&mut other);
    assert!(other.is_empty());
    assert_eq!(q.len(), 3);
    assert_eq!(q.capacity_hint(), 4);
    assert_eq!(other.capacity_hint(), 8);
    assert_eq!(q.pop(), Some(Task::new(1)));
    assert_eq!(q.pop(), Some(Task::new(2)));
    assert_eq!(q.pop(), Some(Task::new(3)));
    assert_eq!(q.pop(), None);
    q.append(&mut other);
    assert!(q.is_empty());
}
