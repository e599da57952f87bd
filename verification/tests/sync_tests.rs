use os::syscall::sync::{
    finish_acquire, is_res_safe, sys_condvar_create, sys_condvar_signal, sys_condvar_wait,
    sys_enable_deadlock_detect, sys_mutex_create, sys_mutex_lock, sys_mutex_unlock,
    sys_semaphore_create, sys_semaphore_down, sys_semaphore_up, sys_sleep, DEADLOCK_REFUSED,
};
use os::task::process::{MutexKind, ProcessSync, SemaphoreSlot};
use os::task::{TaskAction, MAX_NUM_RES, MAX_NUM_THREAD};

fn zero_matrix() -> [[usize; MAX_NUM_RES]; MAX_NUM_THREAD] {
    [[0; MAX_NUM_RES]; MAX_NUM_THREAD]
}

fn same_bookkeeping(a: &ProcessSync, b: &ProcessSync) -> bool {
    a.available == b.available
        && a.allocation == b.allocation
        && a.needed == b.needed
        && a.if_dead_detect == b.if_dead_detect
        && a.mutex_list == b.mutex_list
        && a.semaphore_list == b.semaphore_list
        && a.condvar_list == b.condvar_list
}

fn copy_of(p: &ProcessSync) -> ProcessSync {
    ProcessSync {
        mutex_list: p.mutex_list.clone(),
        semaphore_list: p.semaphore_list.clone(),
        condvar_list: p.condvar_list.clone(),
        available: p.available,
        allocation: p.allocation,
        needed: p.needed,
        if_dead_detect: p.if_dead_detect,
    }
}

#[test]
fn nothing_held_or_needed_is_safe() {
    let a = zero_matrix();
    let n = zero_matrix();
    let v = [0usize; MAX_NUM_RES];
    assert!(is_res_safe(&a, &v, &n));
}

#[test]
fn circular_wait_is_unsafe() {
    let mut a = zero_matrix();
    let mut n = zero_matrix();
    let v = [0usize; MAX_NUM_RES];
    a[0][0] = 1;
    a[1][1] = 1;
    n[0][1] = 1;
    n[1][0] = 1;
    assert!(!is_res_safe(&a, &v, &n));
}

#[test]
fn chain_of_releases_is_safe() {
    // Thread 2 can finish at once; its release lets thread 1 finish, whose
    // release lets thread 0 finish, although thread 0 comes first.
    let mut a = zero_matrix();
    let mut n = zero_matrix();
    let mut v = [0usize; MAX_NUM_RES];
    v[2] = 1;
    a[2][1] = 3;
    a[1][0] = 2;
    n[2][2] = 1;
    n[1][1] = 3;
    n[0][0] = 2;
    n[0][1] = 3;
    assert!(is_res_safe(&a, &v, &n));
    n[0][0] = 3;
    assert!(!is_res_safe(&a, &v, &n));
}

#[test]
fn available_units_meet_a_need() {
    let a = zero_matrix();
    let mut n = zero_matrix();
    let mut v = [0usize; MAX_NUM_RES];
    n[5][3] = 4;
    v[3] = 3;
    assert!(!is_res_safe(&a, &v, &n));
    v[3] = 4;
    assert!(is_res_safe(&a, &v, &n));
}

#[test]
fn mutex_ids_fill_free_slots_first() {
    let mut p = ProcessSync::new();
    assert_eq!(sys_mutex_create(&mut p, false), 0);
    assert_eq!(sys_mutex_create(&mut p, true), 1);
    assert_eq!(p.mutex_list, vec![Some(MutexKind::Spin), Some(MutexKind::Blocking)]);
    assert_eq!(p.available[0], 1);
    assert_eq!(p.available[1], 1);
    p.mutex_list[0] = None;
    p.available[0] = 0;
    assert_eq!(sys_mutex_create(&mut p, true), 0);
    assert_eq!(p.mutex_list[0], Some(MutexKind::Blocking));
    assert_eq!(p.available[0], 1);
    assert_eq!(sys_mutex_create(&mut p, true), 2);
    assert_eq!(p.mutex_list.len(), 3);
}

#[test]
fn semaphore_starts_with_its_units() {
    let mut p = ProcessSync::new();
    assert_eq!(sys_semaphore_create(&mut p, 3), 0);
    assert_eq!(sys_semaphore_create(&mut p, 0), 1);
    assert_eq!(p.available[0], 3);
    assert_eq!(p.available[1], 0);
    assert_eq!(p.semaphore_list[0], Some(SemaphoreSlot { res_count: 3 }));
    assert!(p.mutex_list.is_empty());
}

#[test]
fn condvars_get_consecutive_ids() {
    let mut p = ProcessSync::new();
    assert_eq!(sys_condvar_create(&mut p), 0);
    assert_eq!(sys_condvar_create(&mut p), 1);
    assert_eq!(sys_condvar_create(&mut p), 2);
    sys_mutex_create(&mut p, true);
    assert_eq!(sys_condvar_signal(&p, 1), 0);
    assert_eq!(sys_condvar_wait(&p, 2, 0), 0);
    assert_eq!(p.available, [1, 0, 0, 0, 0, 0, 0, 0, 0, 0, 0, 0, 0, 0, 0, 0]);
}

#[test]
fn deadlock_detect_flag() {
    let mut p = ProcessSync::new();
    assert_eq!(sys_enable_deadlock_detect(&mut p, 1), 0);
    assert!(p.if_dead_detect);
    assert_eq!(sys_enable_deadlock_detect(&mut p, 2), 0);
    assert!(!p.if_dead_detect);
    sys_enable_deadlock_detect(&mut p, 1);
    assert_eq!(sys_enable_deadlock_detect(&mut p, 0), 0);
    assert!(!p.if_dead_detect);
}

#[test]
fn lock_then_unlock_restores_bookkeeping() {
    let mut p = ProcessSync::new();
    sys_mutex_create(&mut p, true);
    sys_enable_deadlock_detect(&mut p, 1);
    let before = copy_of(&p);
    assert_eq!(sys_mutex_lock(&mut p, 3, 0), 0);
    assert_eq!(p.needed[3][0], 1);
    assert_eq!(finish_acquire(&mut p, 3, 0), 0);
    assert_eq!(p.needed[3][0], 0);
    assert_eq!(p.available[0], 0);
    assert_eq!(p.allocation[3][0], 1);
    assert_eq!(sys_mutex_unlock(&mut p, 3, 0), 0);
    assert!(same_bookkeeping(&p, &before));
}

#[test]
fn crossing_locks_are_refused_with_detection() {
    let mut p = ProcessSync::new();
    sys_mutex_create(&mut p, true);
    sys_mutex_create(&mut p, true);
    sys_enable_deadlock_detect(&mut p, 1);
    assert_eq!(sys_mutex_lock(&mut p, 0, 0), 0);
    finish_acquire(&mut p, 0, 0);
    assert_eq!(sys_mutex_lock(&mut p, 1, 1), 0);
    finish_acquire(&mut p, 1, 1);
    // Thread 0 waits for mutex 1: thread 1 can still finish first.
    assert_eq!(sys_mutex_lock(&mut p, 0, 1), 0);
    assert_eq!(p.needed[0][1], 1);
    // Thread 1 waiting for mutex 0 would close the cycle.
    let before = copy_of(&p);
    assert_eq!(sys_mutex_lock(&mut p, 1, 0), DEADLOCK_REFUSED);
    assert_eq!(DEADLOCK_REFUSED, -0xDEAD);
    assert!(same_bookkeeping(&p, &before));
}

#[test]
fn crossing_locks_proceed_without_detection() {
    let mut p = ProcessSync::new();
    sys_mutex_create(&mut p, true);
    sys_mutex_create(&mut p, true);
    sys_mutex_lock(&mut p, 0, 0);
    finish_acquire(&mut p, 0, 0);
    sys_mutex_lock(&mut p, 1, 1);
    finish_acquire(&mut p, 1, 1);
    assert_eq!(sys_mutex_lock(&mut p, 0, 1), 0);
    assert_eq!(sys_mutex_lock(&mut p, 1, 0), 0);
    assert_eq!(p.needed[1][0], 1);
    assert_eq!(p.needed[0][1], 1);
}

#[test]
fn semaphore_down_up_and_refusal() {
    let mut p = ProcessSync::new();
    sys_semaphore_create(&mut p, 1);
    sys_enable_deadlock_detect(&mut p, 1);
    assert_eq!(sys_semaphore_down(&mut p, 0, 0), 0);
    finish_acquire(&mut p, 0, 0);
    assert_eq!(p.available[0], 0);
    assert_eq!(p.allocation[0][0], 1);
    // Thread 0 waiting for a second unit, which nobody else can give back.
    let before = copy_of(&p);
    assert_eq!(sys_semaphore_down(&mut p, 0, 0), DEADLOCK_REFUSED);
    assert!(same_bookkeeping(&p, &before));
    // Thread 1 may wait: thread 0 can finish and give its unit back.
    assert_eq!(sys_semaphore_down(&mut p, 1, 0), 0);
    assert_eq!(sys_semaphore_up(&mut p, 0, 0), 0);
    assert_eq!(p.available[0], 1);
    assert_eq!(p.allocation[0][0], 0);
    finish_acquire(&mut p, 1, 0);
    assert_eq!(p.allocation[1][0], 1);
    assert_eq!(p.available[0], 0);
    assert_eq!(p.needed[1][0], 0);
}

#[test]
fn units_are_conserved_across_lock_and_unlock() {
    let mut p = ProcessSync::new();
    sys_semaphore_create(&mut p, 5);
    let total = |p: &ProcessSync| -> usize {
        p.available[0] + (0..MAX_NUM_THREAD).map(|t| p.allocation[t][0]).sum::<usize>()
    };
    assert_eq!(total(&p), 5);
    sys_semaphore_down(&mut p, 2, 0);
    assert_eq!(total(&p), 5);
    finish_acquire(&mut p, 2, 0);
    assert_eq!(total(&p), 5);
    sys_semaphore_down(&mut p, 7, 0);
    finish_acquire(&mut p, 7, 0);
    assert_eq!(total(&p), 5);
    sys_semaphore_up(&mut p, 2, 0);
    assert_eq!(total(&p), 5);
    assert_eq!(p.available[0], 4);
}

#[test]
fn sleep_blocks_until_expiry() {
    assert_eq!(sys_sleep(1000, 250), (TaskAction::BlockUntil(1250), 0));
    assert_eq!(sys_sleep(7, 0), (TaskAction::BlockUntil(7), 0));
}
