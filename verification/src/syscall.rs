//! The system calls of the kernel as user programs make them: the number of
//! each call, and the values that a call places in the argument registers.
//!
//! Nothing here enters the kernel. Each function builds the register image
//! of one call; whoever executes the trap instruction hands it over. Memory
//! is named by address: a buffer by the address of its first byte and its
//! length, a path by the address of its first byte.

use vstd::prelude::*;

verus! {

// Files and pipes.
pub const SYSCALL_DUP: usize = 24;
pub const SYSCALL_UNLINKAT: usize = 35;
pub const SYSCALL_LINKAT: usize = 37;
pub const SYSCALL_OPENAT: usize = 56;
pub const SYSCALL_CLOSE: usize = 57;
pub const SYSCALL_PIPE: usize = 59;
pub const SYSCALL_READ: usize = 63;
pub const SYSCALL_WRITE: usize = 64;
pub const SYSCALL_FSTAT: usize = 80;

// Processes, time, memory and mail.
pub const SYSCALL_EXIT: usize = 93;
pub const SYSCALL_SLEEP: usize = 101;
pub const SYSCALL_YIELD: usize = 124;
pub const SYSCALL_SET_PRIORITY: usize = 140;
pub const SYSCALL_GETTIMEOFDAY: usize = 169;
pub const SYSCALL_GETPID: usize = 172;
pub const SYSCALL_GETTID: usize = 178;
pub const SYSCALL_MUNMAP: usize = 215;
pub const SYSCALL_FORK: usize = 220;
pub const SYSCALL_EXEC: usize = 221;
pub const SYSCALL_MMAP: usize = 222;
pub const SYSCALL_WAITPID: usize = 260;
pub const SYSCALL_SPAWN: usize = 400;
pub const SYSCALL_MAIL_READ: usize = 401;
pub const SYSCALL_MAIL_WRITE: usize = 402;
pub const SYSCALL_TASK_INFO: usize = 410;

// Threads and what they synchronise on.
pub const SYSCALL_THREAD_CREATE: usize = 460;
pub const SYSCALL_WAITTID: usize = 462;
pub const SYSCALL_MUTEX_CREATE: usize = 463;
pub const SYSCALL_MUTEX_LOCK: usize = 464;
pub const SYSCALL_MUTEX_UNLOCK: usize = 466;
pub const SYSCALL_SEMAPHORE_CREATE: usize = 467;
pub const SYSCALL_SEMAPHORE_UP: usize = 468;
pub const SYSCALL_ENABLE_DEADLOCK_DETECT: usize = 469;
pub const SYSCALL_SEMAPHORE_DOWN: usize = 470;
pub const SYSCALL_CONDVAR_CREATE: usize = 471;
pub const SYSCALL_CONDVAR_SIGNAL: usize = 472;
pub const SYSCALL_CONDVAR_WAIT: usize = 473;

/// A call with three argument registers.
#[derive(Clone, Copy, Debug)]
pub struct Syscall {
    /// The number of the call.
    pub id: usize,
    /// The argument registers, first argument first.
    pub args: [usize; 3],
}

/// A call with six argument registers.
#[derive(Clone, Copy, Debug)]
pub struct Syscall6 {
    /// The number of the call.
    pub id: usize,
    /// The argument registers, first argument first.
    pub args: [usize; 6],
}

/// What a register holds for a signed argument: the value itself, or for a
/// negative one its two's complement at the width of a register.
pub open spec fn register_image(value: int) -> int {
    if value >= 0 {
        value
    } else {
        value + usize::MAX + 1
    }
}

/// What a register holds for a flag: one if it is set, zero if not.
pub open spec fn flag_image(flag: bool) -> int {
    if flag {
        1
    } else {
        0
    }
}

/// Places a signed argument in a register.
pub fn signed_argument(value: isize) -> (r: usize)
    ensures
        r == register_image(value as int),
{
    if value >= 0 {
        value as usize
    } else {
        usize::MAX - ((-(value + 1)) as usize)
    }
}

/// Opens the file at `path`, read relative to the directory `dirfd`, and
/// answers its descriptor.
pub fn sys_openat(dirfd: usize, path: usize, flags: u32, mode: u32) -> (call: Syscall6)
    ensures
        call.id == SYSCALL_OPENAT,
        call.args@ == seq![dirfd, path, flags as usize, mode as usize, 0usize, 0usize],
{
    Syscall6 { id: SYSCALL_OPENAT, args: [dirfd, path, flags as usize, mode as usize, 0, 0] }
}

/// Closes the descriptor `fd`.
pub fn sys_close(fd: usize) -> (call: Syscall)
    ensures
        call.id == SYSCALL_CLOSE,
        call.args@ == seq![fd, 0usize, 0usize],
{
    Syscall { id: SYSCALL_CLOSE, args: [fd, 0, 0] }
}

/// Reads from `fd` into the buffer of `len` bytes at `buffer`; the kernel
/// answers the number of bytes read.
pub fn sys_read(fd: usize, buffer: usize, len: usize) -> (call: Syscall)
    ensures
        call.id == SYSCALL_READ,
        call.args@ == seq![fd, buffer, len],
{
    Syscall { id: SYSCALL_READ, args: [fd, buffer, len] }
}

/// Writes the `len` bytes at `buffer` to `fd`; the kernel answers the
/// number of bytes written.
pub fn sys_write(fd: usize, buffer: usize, len: usize) -> (call: Syscall)
    ensures
        call.id == SYSCALL_WRITE,
        call.args@ == seq![fd, buffer, len],
{
    Syscall { id: SYSCALL_WRITE, args: [fd, buffer, len] }
}

/// Gives the file at `old_path` the further name `new_path`, each path
/// read relative to its directory.
pub fn sys_linkat(
    old_dirfd: usize,
    old_path: usize,
    new_dirfd: usize,
    new_path: usize,
    flags: usize,
) -> (call: Syscall6)
    ensures
        call.id == SYSCALL_LINKAT,
        call.args@ == seq![old_dirfd, old_path, new_dirfd, new_path, flags, 0usize],
{
    Syscall6 { id: SYSCALL_LINKAT, args: [old_dirfd, old_path, new_dirfd, new_path, flags, 0] }
}

/// Removes the name `path`, read relative to the directory `dirfd`.
pub fn sys_unlinkat(dirfd: usize, path: usize, flags: usize) -> (call: Syscall)
    ensures
        call.id == SYSCALL_UNLINKAT,
        call.args@ == seq![dirfd, path, flags],
{
    Syscall { id: SYSCALL_UNLINKAT, args: [dirfd, path, flags] }
}

/// Asks for the status of `fd`, to be written to the record at `st`.
pub fn sys_fstat(fd: usize, st: usize) -> (call: Syscall)
    ensures
        call.id == SYSCALL_FSTAT,
        call.args@ == seq![fd, st, 0usize],
{
    Syscall { id: SYSCALL_FSTAT, args: [fd, st, 0] }
}

/// Takes the oldest letter from the mailbox of the caller into the buffer
/// of `len` bytes at `buffer`.
pub fn sys_mail_read(buffer: usize, len: usize) -> (call: Syscall)
    ensures
        call.id == SYSCALL_MAIL_READ,
        call.args@ == seq![buffer, len, 0usize],
{
    Syscall { id: SYSCALL_MAIL_READ, args: [buffer, len, 0] }
}

/// Puts the `len` bytes at `buffer` as a letter into the mailbox of the
/// process `pid`.
pub fn sys_mail_write(pid: usize, buffer: usize, len: usize) -> (call: Syscall)
    ensures
        call.id == SYSCALL_MAIL_WRITE,
        call.args@ == seq![pid, buffer, len],
{
    Syscall { id: SYSCALL_MAIL_WRITE, args: [pid, buffer, len] }
}

/// Ends the calling process with `exit_code`. The kernel does not return
/// from this call.
pub fn sys_exit(exit_code: i32) -> (call: Syscall)
    ensures
        call.id == SYSCALL_EXIT,
        call.args@ == seq![register_image(exit_code as int) as usize, 0usize, 0usize],
{
    Syscall { id: SYSCALL_EXIT, args: [signed_argument(exit_code as isize), 0, 0] }
}

/// Suspends the caller for `sleep_ms` milliseconds.
pub fn sys_sleep(sleep_ms: usize) -> (call: Syscall)
    ensures
        call.id == SYSCALL_SLEEP,
        call.args@ == seq![sleep_ms, 0usize, 0usize],
{
    Syscall { id: SYSCALL_SLEEP, args: [sleep_ms, 0, 0] }
}

/// Gives up the processor; the caller stays ready.
pub fn sys_yield() -> (call: Syscall)
    ensures
        call.id == SYSCALL_YIELD,
        call.args@ == seq![0usize, 0usize, 0usize],
{
    Syscall { id: SYSCALL_YIELD, args: [0, 0, 0] }
}

/// Asks for the time of day, to be written to the record at `time`.
pub fn sys_get_time(time: usize, tz: usize) -> (call: Syscall)
    ensures
        call.id == SYSCALL_GETTIMEOFDAY,
        call.args@ == seq![time, tz, 0usize],
{
    Syscall { id: SYSCALL_GETTIMEOFDAY, args: [time, tz, 0] }
}

/// Asks for the identifier of the calling process.
pub fn sys_getpid() -> (call: Syscall)
    ensures
        call.id == SYSCALL_GETPID,
        call.args@ == seq![0usize, 0usize, 0usize],
{
    Syscall { id: SYSCALL_GETPID, args: [0, 0, 0] }
}

/// Makes a copy of the calling process; the kernel answers zero in the
/// copy and the identifier of the copy in the caller.
pub fn sys_fork() -> (call: Syscall)
    ensures
        call.id == SYSCALL_FORK,
        call.args@ == seq![0usize, 0usize, 0usize],
{
    Syscall { id: SYSCALL_FORK, args: [0, 0, 0] }
}

/// Replaces the program of the calling process by the executable named at
/// `path`, started with the argument vector at `args`.
pub fn sys_exec(path: usize, args: usize) -> (call: Syscall)
    ensures
        call.id == SYSCALL_EXEC,
        call.args@ == seq![path, args, 0usize],
{
    Syscall { id: SYSCALL_EXEC, args: [path, args, 0] }
}

/// Collects a child that has ended: the child `pid`, or any child where
/// `pid` is -1. Its exit code is written to `xstatus`.
pub fn sys_waitpid(pid: isize, xstatus: usize) -> (call: Syscall)
    ensures
        call.id == SYSCALL_WAITPID,
        call.args@ == seq![register_image(pid as int) as usize, xstatus, 0usize],
{
    Syscall { id: SYSCALL_WAITPID, args: [signed_argument(pid), xstatus, 0] }
}

/// Asks for the scheduling priority `prio` for the calling process.
pub fn sys_set_priority(prio: isize) -> (call: Syscall)
    ensures
        call.id == SYSCALL_SET_PRIORITY,
        call.args@ == seq![register_image(prio as int) as usize, 0usize, 0usize],
{
    Syscall { id: SYSCALL_SET_PRIORITY, args: [signed_argument(prio), 0, 0] }
}

/// Maps `len` bytes of fresh memory at `start` with the protection `prot`.
pub fn sys_mmap(start: usize, len: usize, prot: usize) -> (call: Syscall)
    ensures
        call.id == SYSCALL_MMAP,
        call.args@ == seq![start, len, prot],
{
    Syscall { id: SYSCALL_MMAP, args: [start, len, prot] }
}

/// Unmaps the `len` bytes at `start`.
pub fn sys_munmap(start: usize, len: usize) -> (call: Syscall)
    ensures
        call.id == SYSCALL_MUNMAP,
        call.args@ == seq![start, len, 0usize],
{
    Syscall { id: SYSCALL_MUNMAP, args: [start, len, 0] }
}

/// Starts the executable named at `path` as a child of the caller.
pub fn sys_spawn(path: usize) -> (call: Syscall)
    ensures
        call.id == SYSCALL_SPAWN,
        call.args@ == seq![path, 0usize, 0usize],
{
    Syscall { id: SYSCALL_SPAWN, args: [path, 0, 0] }
}

/// Asks for a second descriptor of what `fd` is open on.
pub fn sys_dup(fd: usize) -> (call: Syscall)
    ensures
        call.id == SYSCALL_DUP,
        call.args@ == seq![fd, 0usize, 0usize],
{
    Syscall { id: SYSCALL_DUP, args: [fd, 0, 0] }
}

/// Makes a pipe; its two descriptors, read end first, are written to `pipe`.
pub fn sys_pipe(pipe: usize) -> (call: Syscall)
    ensures
        call.id == SYSCALL_PIPE,
        call.args@ == seq![pipe, 0usize, 0usize],
{
    Syscall { id: SYSCALL_PIPE, args: [pipe, 0, 0] }
}

/// Asks for the record of the calling task, to be written to `info`.
pub fn sys_task_info(info: usize) -> (call: Syscall)
    ensures
        call.id == SYSCALL_TASK_INFO,
        call.args@ == seq![info, 0usize, 0usize],
{
    Syscall { id: SYSCALL_TASK_INFO, args: [info, 0, 0] }
}

/// Starts a thread of the calling process at `entry`, with `arg` as its
/// argument.
pub fn sys_thread_create(entry: usize, arg: usize) -> (call: Syscall)
    ensures
        call.id == SYSCALL_THREAD_CREATE,
        call.args@ == seq![entry, arg, 0usize],
{
    Syscall { id: SYSCALL_THREAD_CREATE, args: [entry, arg, 0] }
}

/// Asks for the identifier of the calling thread.
pub fn sys_gettid() -> (call: Syscall)
    ensures
        call.id == SYSCALL_GETTID,
        call.args@ == seq![0usize, 0usize, 0usize],
{
    Syscall { id: SYSCALL_GETTID, args: [0, 0, 0] }
}

/// Collects the thread `tid` once it has ended.
pub fn sys_waittid(tid: usize) -> (call: Syscall)
    ensures
        call.id == SYSCALL_WAITTID,
        call.args@ == seq![tid, 0usize, 0usize],
{
    Syscall { id: SYSCALL_WAITTID, args: [tid, 0, 0] }
}

/// Makes a mutex: one that puts waiters to sleep where `blocking` is set,
/// one that lets them spin where it is not.
pub fn sys_mutex_create(blocking: bool) -> (call: Syscall)
    ensures
        call.id == SYSCALL_MUTEX_CREATE,
        call.args@ == seq![flag_image(blocking) as usize, 0usize, 0usize],
{
    Syscall { id: SYSCALL_MUTEX_CREATE, args: [blocking as usize, 0, 0] }
}

/// Locks the mutex `id`.
pub fn sys_mutex_lock(id: usize) -> (call: Syscall)
    ensures
        call.id == SYSCALL_MUTEX_LOCK,
        call.args@ == seq![id, 0usize, 0usize],
{
    Syscall { id: SYSCALL_MUTEX_LOCK, args: [id, 0, 0] }
}

/// Unlocks the mutex `id`.
pub fn sys_mutex_unlock(id: usize) -> (call: Syscall)
    ensures
        call.id == SYSCALL_MUTEX_UNLOCK,
        call.args@ == seq![id, 0usize, 0usize],
{
    Syscall { id: SYSCALL_MUTEX_UNLOCK, args: [id, 0, 0] }
}

/// Makes a semaphore that counts down from `res_count`.
pub fn sys_semaphore_create(res_count: usize) -> (call: Syscall)
    ensures
        call.id == SYSCALL_SEMAPHORE_CREATE,
        call.args@ == seq![res_count, 0usize, 0usize],
{
    Syscall { id: SYSCALL_SEMAPHORE_CREATE, args: [res_count, 0, 0] }
}

/// Releases one unit of the semaphore `sem_id`.
pub fn sys_semaphore_up(sem_id: usize) -> (call: Syscall)
    ensures
        call.id == SYSCALL_SEMAPHORE_UP,
        call.args@ == seq![sem_id, 0usize, 0usize],
{
    Syscall { id: SYSCALL_SEMAPHORE_UP, args: [sem_id, 0, 0] }
}

/// Switches the detection of deadlocks on, or off where `enabled` is zero.
pub fn sys_enable_deadlock_detect(enabled: usize) -> (call: Syscall)
    ensures
        call.id == SYSCALL_ENABLE_DEADLOCK_DETECT,
        call.args@ == seq![enabled, 0usize, 0usize],
{
    Syscall { id: SYSCALL_ENABLE_DEADLOCK_DETECT, args: [enabled, 0, 0] }
}

/// Takes one unit of the semaphore `sem_id`, waiting for it if need be.
pub fn sys_semaphore_down(sem_id: usize) -> (call: Syscall)
    ensures
        call.id == SYSCALL_SEMAPHORE_DOWN,
        call.args@ == seq![sem_id, 0usize, 0usize],
{
    Syscall { id: SYSCALL_SEMAPHORE_DOWN, args: [sem_id, 0, 0] }
}

/// Makes a condition variable.
pub fn sys_condvar_create(arg: usize) -> (call: Syscall)
    ensures
        call.id == SYSCALL_CONDVAR_CREATE,
        call.args@ == seq![arg, 0usize, 0usize],
{
    Syscall { id: SYSCALL_CONDVAR_CREATE, args: [arg, 0, 0] }
}

/// Wakes one waiter of the condition variable `condvar_id`.
pub fn sys_condvar_signal(condvar_id: usize) -> (call: Syscall)
    ensures
        call.id == SYSCALL_CONDVAR_SIGNAL,
        call.args@ == seq![condvar_id, 0usize, 0usize],
{
    Syscall { id: SYSCALL_CONDVAR_SIGNAL, args: [condvar_id, 0, 0] }
}

/// Waits on the condition variable `condvar_id`, releasing the mutex
/// `mutex_id` meanwhile.
pub fn sys_condvar_wait(condvar_id: usize, mutex_id: usize) -> (call: Syscall)
    ensures
        call.id == SYSCALL_CONDVAR_WAIT,
        call.args@ == seq![condvar_id, mutex_id, 0usize],
{
    Syscall { id: SYSCALL_CONDVAR_WAIT, args: [condvar_id, mutex_id, 0] }
}

} // verus!
