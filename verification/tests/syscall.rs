use stride_scheduler::syscall::{
    signed_argument, sys_close, sys_condvar_create, sys_condvar_signal, sys_condvar_wait, sys_dup,
    sys_enable_deadlock_detect, sys_exec, sys_exit, sys_fork, sys_fstat, sys_get_time, sys_getpid,
    sys_gettid, sys_linkat, sys_mail_read, sys_mail_write, sys_mmap, sys_munmap, sys_mutex_create,
    sys_mutex_lock, sys_mutex_unlock, sys_openat, sys_pipe, sys_read, sys_semaphore_create,
    sys_semaphore_down, sys_semaphore_up, sys_set_priority, sys_sleep, sys_spawn, sys_task_info,
    sys_thread_create, sys_unlinkat, sys_waitpid, sys_waittid, sys_write, sys_yield,
};

#[test]
fn signed_argument_is_twos_complement() {
    assert_eq!(signed_argument(0), 0);
    assert_eq!(signed_argument(17), 17);
    assert_eq!(signed_argument(isize::MAX), usize::MAX / 2);
    assert_eq!(signed_argument(-1), usize::MAX);
    assert_eq!(signed_argument(-2), usize::MAX - 1);
    assert_eq!(signed_argument(isize::MIN), usize::MAX / 2 + 1);
    for v in [-1000isize, -3, 0, 5, 123456789] {
        assert_eq!(signed_argument(v), v as usize);
    }
}

#[test]
fn file_calls() {
    let c = sys_openat(3, 0x1000, 0x201, 0o644);
    assert_eq!((c.id, c.args), (56, [3, 0x1000, 0x201, 0o644, 0, 0]));
    let c = sys_openat(usize::MAX, 1, u32::MAX, u32::MAX);
    assert_eq!(c.args, [usize::MAX, 1, u32::MAX as usize, u32::MAX as usize, 0, 0]);
    let c = sys_close(4);
    assert_eq!((c.id, c.args), (57, [4, 0, 0]));
    let c = sys_read(0, 0x2000, 64);
    assert_eq!((c.id, c.args), (63, [0, 0x2000, 64]));
    let c = sys_write(1, 0x3000, 12);
    assert_eq!((c.id, c.args), (64, [1, 0x3000, 12]));
    let c = sys_linkat(5, 0x10, 6, 0x20, 7);
    assert_eq!((c.id, c.args), (37, [5, 0x10, 6, 0x20, 7, 0]));
    let c = sys_unlinkat(5, 0x10, 7);
    assert_eq!((c.id, c.args), (35, [5, 0x10, 7]));
    let c = sys_fstat(2, 0x4000);
    assert_eq!((c.id, c.args), (80, [2, 0x4000, 0]));
    let c = sys_dup(9);
    assert_eq!((c.id, c.args), (24, [9, 0, 0]));
    let c = sys_pipe(0x5000);
    assert_eq!((c.id, c.args), (59, [0x5000, 0, 0]));
}

#[test]
fn process_calls() {
    let c = sys_exit(0);
    assert_eq!((c.id, c.args), (93, [0, 0, 0]));
    let c = sys_exit(3);
    assert_eq!((c.id, c.args), (93, [3, 0, 0]));
    let c = sys_exit(-1);
    assert_eq!((c.id, c.args), (93, [usize::MAX, 0, 0]));
    let c = sys_exit(i32::MIN);
    assert_eq!(c.args, [i32::MIN as usize, 0, 0]);
    let c = sys_sleep(250);
    assert_eq!((c.id, c.args), (101, [250, 0, 0]));
    let c = sys_yield();
    assert_eq!((c.id, c.args), (124, [0, 0, 0]));
    let c = sys_get_time(0x6000, 8);
    assert_eq!((c.id, c.args), (169, [0x6000, 8, 0]));
    let c = sys_getpid();
    assert_eq!((c.id, c.args), (172, [0, 0, 0]));
    let c = sys_fork();
    assert_eq!((c.id, c.args), (220, [0, 0, 0]));
    let c = sys_exec(0x7000, 0x7100);
    assert_eq!((c.id, c.args), (221, [0x7000, 0x7100, 0]));
    let c = sys_waitpid(12, 0x8000);
    assert_eq!((c.id, c.args), (260, [12, 0x8000, 0]));
    let c = sys_waitpid(-1, 0x8000);
    assert_eq!((c.id, c.args), (260, [usize::MAX, 0x8000, 0]));
    let c = sys_set_priority(5);
    assert_eq!((c.id, c.args), (140, [5, 0, 0]));
    let c = sys_set_priority(-7);
    assert_eq!((c.id, c.args), (140, [usize::MAX - 6, 0, 0]));
    let c = sys_spawn(0x9000);
    assert_eq!((c.id, c.args), (400, [0x9000, 0, 0]));
    let c = sys_task_info(0xa000);
    assert_eq!((c.id, c.args), (410, [0xa000, 0, 0]));
}

#[test]
fn memory_and_mail_calls() {
    let c = sys_mmap(0x10000, 4096, 3);
    assert_eq!((c.id, c.args), (222, [0x10000, 4096, 3]));
    let c = sys_munmap(0x10000, 4096);
    assert_eq!((c.id, c.args), (215, [0x10000, 4096, 0]));
    let c = sys_mail_read(0xb000, 256);
    assert_eq!((c.id, c.args), (401, [0xb000, 256, 0]));
    let c = sys_mail_write(4, 0xc000, 16);
    assert_eq!((c.id, c.args), (402, [4, 0xc000, 16]));
}

#[test]
fn thread_and_lock_calls() {
    let c = sys_thread_create(0x400000, 42);
    assert_eq!((c.id, c.args), (460, [0x400000, 42, 0]));
    let c = sys_gettid();
    assert_eq!((c.id, c.args), (178, [0, 0, 0]));
    let c = sys_waittid(3);
    assert_eq!((c.id, c.args), (462, [3, 0, 0]));
    let c = sys_mutex_create(true);
    assert_eq!((c.id, c.args), (463, [1, 0, 0]));
    let c = sys_mutex_create(false);
    assert_eq!((c.id, c.args), (463, [0, 0, 0]));
    let c = sys_mutex_lock(2);
    assert_eq!((c.id, c.args), (464, [2, 0, 0]));
    let c = sys_mutex_unlock(2);
    assert_eq!((c.id, c.args), (466, [2, 0, 0]));
    let c = sys_semaphore_create(5);
    assert_eq!((c.id, c.args), (467, [5, 0, 0]));
    let c = sys_semaphore_up(1);
    assert_eq!((c.id, c.args), (468, [1, 0, 0]));
    let c = sys_enable_deadlock_detect(1);
    assert_eq!((c.id, c.args), (469, [1, 0, 0]));
    let c = sys_semaphore_down(1);
    assert_eq!((c.id, c.args), (470, [1, 0, 0]));
    let c = sys_condvar_create(0);
    assert_eq!((c.id, c.args), (471, [0, 0, 0]));
    let c = sys_condvar_signal(6);
    assert_eq!((c.id, c.args), (472, [6, 0, 0]));
    let c = sys_condvar_wait(6, 2);
    assert_eq!((c.id, c.args), (473, [6, 2, 0]));
}
