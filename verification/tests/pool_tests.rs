use rhei_cli::pool::{admit_work_items, WorkerPool};

fn strings(v: &[&str]) -> Vec<String> {
    v.iter().map(|s| s.to_string()).collect()
}

#[test]
fn slots_are_handed_out_smallest_first_then_extra() {
    let mut pool = WorkerPool::new(2);
    assert_eq!(pool.take_slot(), 0);
    assert_eq!(pool.take_slot(), 1);
    assert_eq!(pool.take_slot(), 2);
    assert_eq!(pool.take_slot(), 3);
    pool.return_slot(1);
    pool.return_slot(0);
    assert_eq!(pool.take_slot(), 0);
    assert_eq!(pool.take_slot(), 1);
    assert_eq!(pool.take_slot(), 4);
}

#[test]
fn a_released_worker_gives_back_its_slot_and_counts() {
    let mut pool = WorkerPool::new(1);
    let slot = pool.take_slot();
    pool.record_spawn("auth.1", "review", false);
    assert!(pool.is_active_task("auth.1"));
    assert!(pool.holds_state("review"));
    assert_eq!(pool.task_capacity(Some(3)), 2);
    pool.release("auth.1", "review", slot);
    assert!(!pool.is_active_task("auth.1"));
    assert!(!pool.holds_state("review"));
    assert_eq!(pool.task_capacity(Some(3)), 3);
    assert_eq!(pool.take_slot(), 0);
}

#[test]
fn concurrent_states_are_not_held_and_counts_add_up() {
    let mut pool = WorkerPool::new(4);
    pool.record_spawn("a", "fanout", true);
    pool.record_spawn("a", "fanout", true);
    pool.record_spawn("b", "build", false);
    assert!(!pool.holds_state("fanout"));
    assert!(pool.holds_state("build"));
    assert_eq!(pool.task_capacity(Some(1)), 0);
    assert_eq!(pool.task_capacity(None), usize::MAX);
    pool.release("a", "fanout", 7);
    assert!(pool.is_active_task("a"));
    pool.release("a", "fanout", 8);
    assert!(!pool.is_active_task("a"));
    pool.release("nobody", "nothing", 9);
    assert!(pool.is_active_task("b"));
}

#[test]
fn new_tickets_are_admitted_up_to_the_limit() {
    let ids = strings(&["a", "a", "b", "c", "b", "a", "d"]);
    assert_eq!(admit_work_items(&ids, 2), vec![true, true, true, false, true, true, false]);
    assert_eq!(admit_work_items(&ids, 0), vec![false; 7]);
}
