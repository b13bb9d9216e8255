use stride_scheduler::manager::{
    add_task, fetch_task, stride_scheduling_task, Policy, TaskManager,
};
use stride_scheduler::schedule::Schedule;
use stride_scheduler::task::Task;

fn task(pid: usize, priority: isize) -> Task {
    let mut t = Task::new(pid);
    t.set_priority(priority).unwrap();
    t
}

fn task_at(pid: usize, priority: isize, pass: u64) -> Task {
    Task::with_schedule(pid, Schedule::with_pass(priority, pass).unwrap())
}

fn dispatch(m: &mut TaskManager) -> usize {
    let t = m.stride_scheduling().unwrap();
    let pid = t.pid();
    m.add(t);
    pid
}

#[test]
fn new_manager_is_empty() {
    let mut m = TaskManager::new();
    assert_eq!(m.len(), 0);
    assert!(m.fetch().is_none());
    assert!(m.stride_scheduling().is_none());
    assert!(m.select(Policy::Fifo).is_none());
    assert!(m.select(Policy::Stride).is_none());
    assert_eq!(m.len(), 0);
}

#[test]
fn contains_finds_queued_tasks_only() {
    let mut m = TaskManager::new();
    assert!(!m.contains(1));
    m.add(task(1, 2));
    m.add(task(2, 2));
    assert!(m.contains(1));
    assert!(m.contains(2));
    assert!(!m.contains(3));
    let t = m.fetch().unwrap();
    assert_eq!(t.pid(), 1);
    assert!(!m.contains(1));
    assert!(m.contains(2));
}

#[test]
fn fetch_is_first_in_first_out() {
    let mut m = TaskManager::new();
    m.add(task_at(1, 2, 500));
    m.add(task_at(2, 4, 0));
    m.add(task_at(3, 8, 100));
    assert_eq!(m.len(), 3);
    let pids: Vec<usize> = (0..3).map(|_| m.fetch().unwrap().pid()).collect();
    assert_eq!(pids, vec![1, 2, 3]);
    assert!(m.fetch().is_none());
}

#[test]
fn fetch_leaves_the_pass_alone() {
    let mut m = TaskManager::new();
    m.add(task_at(1, 2, 500));
    let t = m.fetch().unwrap();
    assert_eq!(t.schedule().pass(), 500);
    assert_eq!(t.schedule().priority(), 2);
}

#[test]
fn add_leaves_the_pass_alone() {
    let mut m = TaskManager::new();
    m.add(task_at(1, 2, 500));
    m.add(task_at(2, 2, 900));
    assert_eq!(m.fetch().unwrap().schedule().pass(), 500);
    assert_eq!(m.fetch().unwrap().schedule().pass(), 900);
}

#[test]
fn stride_scheduling_takes_the_least_pass() {
    let mut m = TaskManager::new();
    m.add(task_at(1, 2, 300));
    m.add(task_at(2, 2, 100));
    m.add(task_at(3, 2, 200));
    let t = m.stride_scheduling().unwrap();
    assert_eq!(t.pid(), 2);
    assert_eq!(m.len(), 2);
    assert_eq!(m.fetch().unwrap().pid(), 1);
    assert_eq!(m.fetch().unwrap().pid(), 3);
}

#[test]
fn stride_scheduling_moves_the_pass_once() {
    let mut m = TaskManager::new();
    m.add(task_at(1, 2, 300));
    m.add(task_at(2, 4, 100));
    m.add(task_at(3, 2, 200));
    let t = m.stride_scheduling().unwrap();
    assert_eq!(t.pid(), 2);
    assert_eq!(t.schedule().pass(), 100 + 2305843009213693952);
    assert_eq!(t.schedule().stride(), 2305843009213693952);
    assert_eq!(t.schedule().priority(), 4);
    let a = m.fetch().unwrap();
    let b = m.fetch().unwrap();
    assert_eq!((a.pid(), a.schedule().pass()), (1, 300));
    assert_eq!((b.pid(), b.schedule().pass()), (3, 200));
}

#[test]
fn every_task_is_returned_exactly_once() {
    let mut m = TaskManager::new();
    let passes = [700u64, 0, 30, 30, 9000, 5, 700, u64::MAX, 1];
    for (i, pass) in passes.iter().enumerate() {
        m.add(task_at(i + 1, 2 + (i as isize % 3), *pass));
    }
    let mut seen = vec![0usize; passes.len() + 1];
    for left in (0..passes.len()).rev() {
        let t = m.stride_scheduling().unwrap();
        seen[t.pid()] += 1;
        assert_eq!(m.len(), left);
    }
    assert!(m.stride_scheduling().is_none());
    assert_eq!(seen[0], 0);
    assert!(seen[1..].iter().all(|&n| n == 1));
}

#[test]
fn drain_order_follows_the_passes() {
    let mut m = TaskManager::new();
    m.add(task_at(1, 2, 700));
    m.add(task_at(2, 2, 0));
    m.add(task_at(3, 2, 30));
    m.add(task_at(4, 2, 30));
    m.add(task_at(5, 2, u64::MAX));
    let pids: Vec<usize> = (0..5).map(|_| m.stride_scheduling().unwrap().pid()).collect();
    assert_eq!(pids, vec![5, 2, 3, 4, 1]);
}

#[test]
fn equal_priority_is_first_in_first_out() {
    let mut m = TaskManager::new();
    for pid in [4usize, 1, 3, 2, 5] {
        m.add(task(pid, 6));
    }
    let pids: Vec<usize> = (0..5).map(|_| m.stride_scheduling().unwrap().pid()).collect();
    assert_eq!(pids, vec![4, 1, 3, 2, 5]);
    assert!(m.stride_scheduling().is_none());
}

#[test]
fn equal_priority_is_round_robin_under_dispatch() {
    let mut m = TaskManager::new();
    for pid in [4usize, 1, 3] {
        m.add(task(pid, 7));
    }
    let pids: Vec<usize> = (0..9).map(|_| dispatch(&mut m)).collect();
    assert_eq!(pids, vec![4, 1, 3, 4, 1, 3, 4, 1, 3]);
}

#[test]
fn equal_priority_with_unequal_passes_is_not_first_in_first_out() {
    let mut m = TaskManager::new();
    m.add(task_at(1, 2, 1u64 << 62));
    m.add(task_at(2, 2, 0));
    assert_eq!(m.stride_scheduling().unwrap().pid(), 2);
    assert_eq!(m.stride_scheduling().unwrap().pid(), 1);
}

#[test]
fn selections_are_proportional_to_priority() {
    let mut m = TaskManager::new();
    m.add(task(1, 2));
    m.add(task(2, 4));
    m.add(task(3, 4));
    let mut count = [0i64; 4];
    let mut order = Vec::new();
    for _ in 0..10 {
        let pid = dispatch(&mut m);
        count[pid] += 1;
        order.push(pid);
    }
    assert!((count[1] - 2).abs() <= 1);
    assert!((count[2] - 4).abs() <= 1);
    assert!((count[3] - 4).abs() <= 1);
    assert_eq!(count[1] + count[2] + count[3], 10);
    assert_eq!(order, vec![1, 2, 3, 2, 3, 1, 2, 3, 2, 3]);
    assert_eq!(&count[1..], &[2, 4, 4]);
}

#[test]
fn weighted_selection_counts_stay_within_one_largest_stride() {
    let priorities = [2isize, 3, 5, 7, 16];
    let mut m = TaskManager::new();
    for (i, p) in priorities.iter().enumerate() {
        m.add(task(i, *p));
    }
    let strides: Vec<i128> =
        priorities.iter().map(|p| ((1u64 << 63) / (*p as u64)) as i128).collect();
    let mut count = [0i128; 5];
    for _ in 0..2000 {
        count[dispatch(&mut m)] += 1;
        for a in 0..5 {
            for b in 0..5 {
                let lead = count[a] * strides[a] - count[b] * strides[b];
                assert!(lead <= 1i128 << 62);
            }
        }
    }
}

#[test]
fn the_task_behind_across_the_wraparound_is_selected() {
    let mut m = TaskManager::new();
    m.add(task_at(1, 2, 10));
    m.add(task_at(2, 2, u64::MAX - 5));
    let t = m.stride_scheduling().unwrap();
    assert_eq!(t.pid(), 2);
    assert_eq!(t.schedule().pass(), 4611686018427387898);
    assert_eq!(m.stride_scheduling().unwrap().pid(), 1);
}

#[test]
fn passes_that_wrapped_by_running_compare_correctly() {
    let mut ahead = task(1, 2);
    let mut behind = task(2, 2);
    for t in [&mut ahead, &mut behind] {
        for _ in 0..3 {
            t.update_pass();
        }
        for exponent in 2..=62 {
            t.set_priority(1isize << exponent).unwrap();
            t.update_pass();
        }
    }
    assert_eq!(behind.schedule().pass(), u64::MAX - 1);
    ahead.update_pass();
    ahead.update_pass();
    assert_eq!(ahead.schedule().pass(), 2);
    let mut m = TaskManager::new();
    m.add(ahead);
    m.add(behind);
    assert_eq!(m.stride_scheduling().unwrap().pid(), 2);
}

#[test]
fn tie_goes_to_the_task_added_first() {
    for _ in 0..20 {
        let mut m = TaskManager::new();
        m.add(task_at(10, 3, 12345));
        m.add(task_at(20, 3, 12345));
        assert_eq!(m.stride_scheduling().unwrap().pid(), 10);
        assert_eq!(m.stride_scheduling().unwrap().pid(), 20);
    }
    let mut m = TaskManager::new();
    m.add(task_at(20, 3, 12345));
    m.add(task_at(10, 3, 12345));
    assert_eq!(m.stride_scheduling().unwrap().pid(), 20);
}

#[test]
fn tie_at_the_least_pass_goes_to_the_front_most() {
    let mut m = TaskManager::new();
    m.add(task_at(1, 2, 50));
    m.add(task_at(2, 2, 7));
    m.add(task_at(3, 2, 7));
    m.add(task_at(4, 2, 7));
    assert_eq!(m.stride_scheduling().unwrap().pid(), 2);
    assert_eq!(m.stride_scheduling().unwrap().pid(), 3);
}

#[test]
fn higher_priority_is_selected_more_often() {
    let mut m = TaskManager::new();
    m.add(task(1, 2));
    m.add(task(2, 4));
    let picks: Vec<usize> = (0..3).map(|_| dispatch(&mut m)).collect();
    assert_eq!(picks, vec![1, 2, 2]);
    assert!(picks.iter().filter(|&&pid| pid == 2).count() >= 2);
}

#[test]
fn select_follows_the_policy() {
    let mut m = TaskManager::new();
    m.add(task_at(1, 2, 300));
    m.add(task_at(2, 2, 100));
    m.add(task_at(3, 2, 200));
    let t = m.select(Policy::Fifo).unwrap();
    assert_eq!((t.pid(), t.schedule().pass()), (1, 300));
    let t = m.select(Policy::Stride).unwrap();
    assert_eq!((t.pid(), t.schedule().pass()), (2, 100 + 4611686018427387904));
    let t = m.select(Policy::Stride).unwrap();
    assert_eq!(t.pid(), 3);
    assert!(m.select(Policy::Stride).is_none());
}

#[test]
fn a_task_can_come_back_after_it_was_selected() {
    let mut m = TaskManager::new();
    m.add(task(1, 2));
    let t = m.stride_scheduling().unwrap();
    assert!(!m.contains(1));
    m.add(t);
    assert!(m.contains(1));
    assert_eq!(m.len(), 1);
}

#[test]
fn free_functions_act_on_the_manager_given() {
    let mut m = TaskManager::new();
    assert!(fetch_task(&mut m).is_none());
    assert!(stride_scheduling_task(&mut m).is_none());
    add_task(&mut m, task_at(1, 2, 300));
    add_task(&mut m, task_at(2, 2, 100));
    add_task(&mut m, task_at(3, 2, 200));
    assert_eq!(m.len(), 3);
    let t = stride_scheduling_task(&mut m).unwrap();
    assert_eq!((t.pid(), t.schedule().pass()), (2, 100 + 4611686018427387904));
    let t = fetch_task(&mut m).unwrap();
    assert_eq!((t.pid(), t.schedule().pass()), (1, 300));
    let t = fetch_task(&mut m).unwrap();
    assert_eq!(t.pid(), 3);
    assert!(fetch_task(&mut m).is_none());
}
