//! The system-call dispatcher, and the Linux calls that are not about files.
//!
//! The number comes in `rax`, the arguments of a Linux call in `rdi`, `rsi`,
//! `rdx`, `r10` and `r8`; the result goes back in `rax`. The numbers from
//! `NT_BASE` to `NT_BASE | 0xFFFF` are calls of the NT personality.
use vstd::prelude::*;

use crate::bytes;
use crate::ext2;
use crate::file;
use crate::gdt;
use crate::nt;
use crate::nt_ntdll;
use crate::process;
use crate::spawn;
use crate::sys;
use crate::sys::{Caller, Outcome, Step, Sv, Sys, UserFrame};
use crate::syscall_fs;
use crate::syscall_fs::{Pg, Progress};
use crate::task;
use crate::task::{Task, Tv};

verus! {

pub const SYS_READ: u64 = 0;

pub const SYS_WRITE: u64 = 1;

pub const SYS_OPEN: u64 = 2;

pub const SYS_CLOSE: u64 = 3;

pub const SYS_FSTAT: u64 = 5;

pub const SYS_LSEEK: u64 = 8;

pub const SYS_MMAP: u64 = 9;

pub const SYS_BRK: u64 = 12;

pub const SYS_RT_SIGACTION: u64 = 13;

pub const SYS_RT_SIGPROCMASK: u64 = 14;

pub const SYS_IOCTL: u64 = 16;

pub const SYS_WRITEV: u64 = 20;

pub const SYS_GETPID: u64 = 39;

pub const SYS_GETUID: u64 = 102;

pub const SYS_GETGID: u64 = 104;

pub const SYS_GETEUID: u64 = 107;

pub const SYS_GETEGID: u64 = 108;

pub const SYS_FORK: u64 = 57;

pub const SYS_EXECVE: u64 = 59;

pub const SYS_EXIT: u64 = 60;

pub const SYS_WAIT4: u64 = 61;

pub const SYS_ARCH_PRCTL: u64 = 158;

pub const SYS_SET_TID_ADDRESS: u64 = 218;

pub const SYS_EXIT_GROUP: u64 = 231;

pub const SYS_SET_ROBUST_LIST: u64 = 273;

pub const SYS_PRCTL: u64 = 157;

pub const SYS_PRLIMIT64: u64 = 302;

pub const SYS_GETRANDOM: u64 = 318;

pub const SYS_RSEQ: u64 = 334;

pub const SYS_OPENAT: u64 = 257;

pub const SYS_UNLINK: u64 = 87;

pub const SYS_RMDIR: u64 = 84;

pub const SYS_UNLINKAT: u64 = 263;

pub const SYS_POLL: u64 = 7;

pub const SYS_DUP: u64 = 32;

pub const SYS_DUP2: u64 = 33;

pub const SYS_DUP3: u64 = 292;

pub const SYS_PIPE: u64 = 22;

pub const SYS_PIPE2: u64 = 293;

pub const SYS_FCNTL: u64 = 72;

pub const SYS_NANOSLEEP: u64 = 35;

pub const SYS_CLOCK_NANOSLEEP: u64 = 230;

pub const SYS_CHDIR: u64 = 80;

pub const SYS_FCHDIR: u64 = 81;

pub const SYS_GETPPID: u64 = 110;

pub const SYS_GETPGRP: u64 = 111;

pub const SYS_GETPGID: u64 = 121;

pub const SYS_SETPGID: u64 = 109;

pub const SYS_SETSID: u64 = 112;

pub const SYS_SYSINFO: u64 = 99;

pub const SYS_WAITID: u64 = 247;

pub const SYS_CLONE: u64 = 56;

pub const SYS_NEWFSTATAT: u64 = 262;

pub const SYS_GETDENTS64: u64 = 217;

pub const SYS_TIME: u64 = 201;

pub const SYS_SENDFILE: u64 = 40;

pub const SYS_SETUID: u64 = 105;

pub const SYS_SETGID: u64 = 106;

pub const SYS_MPROTECT: u64 = 10;

pub const SYS_MADVISE: u64 = 28;

pub const SYS_MUNMAP: u64 = 11;

pub const SYS_KILL: u64 = 62;

pub const SYS_UNAME: u64 = 63;

pub const SYS_GETCWD: u64 = 79;

pub const SYS_READLINK: u64 = 89;

pub const SYS_RT_SIGRETURN: u64 = 15;

pub const SYS_SIGALTSTACK: u64 = 131;

pub const SYS_GETTID: u64 = 186;

pub const SYS_FUTEX: u64 = 202;

pub const SYS_SCHED_GETAFFINITY: u64 = 204;

pub const SYS_TKILL: u64 = 200;

pub const SYS_TGKILL: u64 = 234;

pub const SYS_CLOCK_GETTIME: u64 = 228;

pub const SYS_PPOLL: u64 = 271;

pub const SYS_READLINKAT: u64 = 267;

pub const ARCH_SET_FS: u64 = 0x1002;

pub const ARCH_GET_FS: u64 = 0x1003;

pub const CLONE_VM: u64 = 0x100;

pub const O_CLOEXEC: u64 = 0o2000000;

/// What `time` answers: there is no clock to ask.
pub const EPOCH_NOW: i64 = 1_735_689_600;

pub const RNG_STEP: u64 = 0x9E37_79B9_7F4A_7C15;

pub const NO_FRAME: &'static str = "no frame";

pub const BAD_ADDRESS: &'static str = "address is not canonical";

/// How many user threads have ended so far.
pub fn user_exits(s: &Sys) -> (r: u64)
    ensures
        r == s@.user_exits,
{
    s.user_exits
}

/// Count a user thread that ended without `exit`.
pub fn note_user_exit(s: &mut Sys)
    ensures
        final(s)@ == (Sv { user_exits: old(s)@.user_exits.wrapping_add(1), ..old(s)@ }),
        old(s).wf() ==> final(s).wf(),
{
    s.user_exits = s.user_exits.wrapping_add(1);
}

// --- memory and time ---

/// `b` stored at `at`, and the call returns `v`.
pub open spec fn filled(c: Caller, t: Tv, s: Sv, at: u64, b: Seq<u8>, v: i64) -> Step {
    match task::poked(t, at as int, b) {
        Some(t2) => sys::back(c, t2, s, v),
        None => None,
    }
}

fn fill(t: &mut Task, at: u64, b: &Vec<u8>, v: i64) -> (r: Outcome)
    requires
        old(t).wf(),
        b@.len() > 0,
    ensures
        final(t).wf(),
        final(t).pml4() == old(t).pml4(),
        forall|c: Caller, s: Sv|
            sys::meets(#[trigger] filled(c, old(t)@, s, at, b@, v), c, final(t)@, s, r),
{
    if t.store(at, 0, b.as_slice()) {
        Outcome::Return(v)
    } else {
        Outcome::Fault
    }
}

/// `time(*t)`.
pub open spec fn time_call(c: Caller, t: Tv, s: Sv, at: u64) -> Step {
    if at == 0 {
        sys::back(c, t, s, EPOCH_NOW)
    } else {
        filled(c, t, s, at, bytes::bytes64(EPOCH_NOW as u64), EPOCH_NOW)
    }
}

fn sys_time(c: &Caller, t: &mut Task, s: &Sys, at: u64) -> (r: Outcome)
    requires
        old(t).wf(),
    ensures
        final(t).wf(),
        final(t).pml4() == old(t).pml4(),
        sys::meets(time_call(*c, old(t)@, s@, at), *c, final(t)@, s@, r),
{
    if at == 0 {
        return Outcome::Return(EPOCH_NOW);
    }
    let b = crate::bytes::to_bytes64(EPOCH_NOW as u64);
    proof {
        let w = filled(*c, t@, s@, at, b@, EPOCH_NOW);
    }
    fill(t, at, &b, EPOCH_NOW)
}

/// An address the processor takes: the top 17 bits are equal.
pub open spec fn canonical(a: u64) -> bool {
    a < 0x8000_0000_0000 || a >= 0xFFFF_8000_0000_0000
}

/// `arch_prctl(op, arg)`: the thread pointer.
pub open spec fn prctl_call(c: Caller, t: Tv, s: Sv, op: u64, arg: u64) -> Step {
    if op == ARCH_SET_FS {
        if canonical(arg) {
            sys::back(Caller { fsbase: arg, ..c }, t, s, 0)
        } else {
            Some((c, t, s, Outcome::Panic(BAD_ADDRESS)))
        }
    } else if op == ARCH_GET_FS {
        filled(c, t, s, arg, bytes::bytes64(c.fsbase), 0)
    } else {
        sys::back(c, t, s, file::EINVAL)
    }
}

fn sys_arch_prctl(c: &mut Caller, t: &mut Task, s: &Sys, op: u64, arg: u64) -> (r: Outcome)
    requires
        old(t).wf(),
    ensures
        final(t).wf(),
        final(t).pml4() == old(t).pml4(),
        sys::meets(prctl_call(*old(c), old(t)@, s@, op, arg), *final(c), final(t)@, s@, r),
{
    if op == ARCH_SET_FS {
        if arg < 0x8000_0000_0000 || arg >= 0xFFFF_8000_0000_0000 {
            c.fsbase = arg;
            return Outcome::Return(0);
        }
        return Outcome::Panic(BAD_ADDRESS);
    }
    if op == ARCH_GET_FS {
        let b = crate::bytes::to_bytes64(c.fsbase);
        proof {
            let w = filled(*c, t@, s@, arg, b@, 0);
        }
        return fill(t, arg, &b, 0);
    }
    Outcome::Return(crate::file::EINVAL)
}

/// `brk` or `mmap`: the address, or a panic where memory has run out.
pub open spec fn grown(c: Caller, s: Sv, got: (Tv, Seq<u64>, Option<u64>)) -> Step {
    let (t2, free, r) = got;
    match r {
        Some(a) => sys::back(c, t2, Sv { free, ..s }, a as i64),
        None => Some((c, t2, Sv { free, ..s }, Outcome::Panic(NO_FRAME))),
    }
}

fn sys_brk(c: &Caller, t: &mut Task, s: &mut Sys, req: u64) -> (r: Outcome)
    requires
        old(t).wf(),
        old(s).wf(),
    ensures
        final(t).wf(),
        final(t).pml4() == old(t).pml4(),
        final(s).wf(),
        sys::meets(
            grown(*c, old(s)@, task::broken(old(t)@, old(s)@.free, req)),
            *c,
            final(t)@,
            final(s)@,
            r,
        ),
{
    match t.brk(&mut s.fa, req) {
        Some(a) => Outcome::Return(a as i64),
        None => Outcome::Panic(NO_FRAME),
    }
}

fn sys_mmap(c: &Caller, t: &mut Task, s: &mut Sys, len: u64) -> (r: Outcome)
    requires
        old(t).wf(),
        old(s).wf(),
    ensures
        final(t).wf(),
        final(t).pml4() == old(t).pml4(),
        final(s).wf(),
        sys::meets(
            grown(*c, old(s)@, task::mmapped(old(t)@, old(s)@.free, len)),
            *c,
            final(t)@,
            final(s)@,
            r,
        ),
{
    match t.mmap(&mut s.fa, len) {
        Some(a) => Outcome::Return(a as i64),
        None => Outcome::Panic(NO_FRAME),
    }
}

// --- random bytes ---

/// One step of the generator.
pub open spec fn stirred(x: u64) -> u64 {
    let a = x ^ (x << 13);
    let b = a ^ (a >> 7);
    b ^ (b << 17)
}

pub(crate) fn stir(x: u64) -> (r: u64)
    ensures
        r == stirred(x),
{
    let a: u64 = x ^ (x << 13);
    let b: u64 = a ^ (a >> 7);
    b ^ (b << 17)
}

/// The next `n` bytes from state `x`.
pub open spec fn stream(x: u64, n: nat) -> Seq<u8>
    decreases n,
{
    if n == 0 {
        Seq::empty()
    } else {
        seq![stirred(x) as u8] + stream(stirred(x), (n - 1) as nat)
    }
}

fn draw(x: u64, n: usize) -> (r: Vec<u8>)
    ensures
        r@ == stream(x, n as nat),
{
    let mut r: Vec<u8> = Vec::new();
    let mut y: u64 = x;
    let mut i: usize = 0;
    assert(r@ + stream(y, n as nat) =~= stream(x, n as nat));
    while i < n
        invariant
            i <= n,
            r@ + stream(y, (n - i) as nat) == stream(x, n as nat),
        decreases n - i,
    {
        let ghost r0 = r@;
        let ghost y0 = y;
        y = stir(y);
        r.push(y as u8);
        proof {
            assert(stream(y0, (n - i) as nat) == seq![y as u8] + stream(y, (n - i - 1) as nat));
            assert(r@ + stream(y, (n - i - 1) as nat) =~= r0 + (seq![y as u8] + stream(
                y,
                (n - i - 1) as nat,
            )));
        }
        i = i + 1;
    }
    assert(r@ + stream(y, 0) =~= r@);
    r
}

/// `getrandom(buf, len)`.
pub open spec fn random_call(c: Caller, t: Tv, s: Sv, buf: u64, len: u64) -> Step {
    if len > usize::MAX || !process::mapped(t.space.mem, buf as int, len as int) {
        None
    } else {
        filled(
            c,
            t,
            Sv { rng: s.rng.wrapping_add(RNG_STEP), ..s },
            buf,
            stream(s.rng, len as nat),
            len as i64,
        )
    }
}

fn sys_getrandom(c: &Caller, t: &mut Task, s: &mut Sys, buf: u64, len: u64) -> (r: Outcome)
    requires
        old(t).wf(),
        old(s).wf(),
    ensures
        final(t).wf(),
        final(t).pml4() == old(t).pml4(),
        final(s).wf(),
        sys::meets(random_call(*c, old(t)@, old(s)@, buf, len), *c, final(t)@, final(s)@, r),
{
    if len > usize::MAX as u64 || !t.is_mapped(buf, len) {
        return Outcome::Fault;
    }
    let b = draw(s.rng, len as usize);
    s.rng = s.rng.wrapping_add(RNG_STEP);
    if t.store_bytes(buf, b.as_slice()) {
        Outcome::Return(len as i64)
    } else {
        Outcome::Fault
    }
}

// --- descriptors ---

/// `fcntl(fd, cmd, arg)`.
pub open spec fn fcntl_call(c: Caller, t: Tv, s: Sv, fd: u64, cmd: u64, arg: u64) -> Step {
    if cmd == 0 {
        let (t2, s2, r) = sys::duped(t, s, fd as i32, arg as i32);
        sys::back(c, t2, s2, r as i64)
    } else if cmd == 1030 {
        let (t2, s2, r) = sys::duped(t, s, fd as i32, arg as i32);
        if r >= 0 {
            sys::back(c, Tv { fds: task::cloexec_set(t2.fds, r, true).0, ..t2 }, s2, r as i64)
        } else {
            sys::back(c, t2, s2, r as i64)
        }
    } else if cmd == 1 {
        sys::back(c, t, s, task::cloexec_of(t.fds, (fd as i32) as int) as i64)
    } else if cmd == 2 {
        let (fds, r) = task::cloexec_set(t.fds, (fd as i32) as int, arg & 1 != 0);
        sys::back(c, Tv { fds, ..t }, s, r as i64)
    } else if cmd == 3 {
        sys::back(c, t, s, 2)
    } else {
        sys::back(c, t, s, 0)
    }
}

fn sys_fcntl(c: &Caller, t: &mut Task, s: &mut Sys, fd: u64, cmd: u64, arg: u64) -> (r: Outcome)
    requires
        old(t).wf(),
        old(s).wf(),
    ensures
        final(t).wf(),
        final(t).pml4() == old(t).pml4(),
        final(s).wf(),
        sys::meets(fcntl_call(*c, old(t)@, old(s)@, fd, cmd, arg), *c, final(t)@, final(s)@, r),
{
    if cmd == 0 {
        Outcome::Return(crate::sys::dup(t, s, fd as i32, arg as i32) as i64)
    } else if cmd == 1030 {
        let r: i32 = crate::sys::dup(t, s, fd as i32, arg as i32);
        if r >= 0 {
            let _set = t.fd_set_cloexec(r, true);
        }
        Outcome::Return(r as i64)
    } else if cmd == 1 {
        Outcome::Return(t.fd_get_cloexec(fd as i32) as i64)
    } else if cmd == 2 {
        Outcome::Return(t.fd_set_cloexec(fd as i32, arg & 1 != 0) as i64)
    } else if cmd == 3 {
        Outcome::Return(2)
    } else {
        Outcome::Return(0)
    }
}

/// `poll(fds, n)` from entry `i` on: an open descriptor has no events, any
/// other is reported and counted.
pub open spec fn polled(c: Caller, t: Tv, s: Sv, at: u64, n: u64, i: u64, ready: u64) -> Step
    decreases n - i,
{
    if i >= n {
        sys::back(c, t, s, ready as i64)
    } else {
        match process::word32(t.space.mem, at + i * 8) {
            None => None,
            Some(fd) => {
                let bad = sys::file_of(t, s, fd as i32) is None;
                match task::poked(
                    t,
                    at + (i * 8 + 6),
                    bytes::bytes16(
                        if bad {
                            0x20
                        } else {
                            0
                        },
                    ),
                ) {
                    None => None,
                    Some(t2) => polled(
                        c,
                        t2,
                        s,
                        at,
                        n,
                        (i + 1) as u64,
                        if bad {
                            (ready + 1) as u64
                        } else {
                            ready
                        },
                    ),
                }
            },
        }
    }
}

fn sys_poll(c: &Caller, t: &mut Task, s: &Sys, at: u64, n: u64) -> (r: Outcome)
    requires
        old(t).wf(),
        s.wf(),
    ensures
        final(t).wf(),
        final(t).pml4() == old(t).pml4(),
        sys::meets(polled(*c, old(t)@, s@, at, n, 0, 0), *c, final(t)@, s@, r),
{
    let mut ready: u64 = 0;
    let mut i: u64 = 0;
    let ghost want = polled(*c, t@, s@, at, n, 0, 0);
    while i < n
        invariant
            i <= n,
            ready <= i,
            t.wf(),
            t.pml4() == old(t).pml4(),
            s.wf(),
            want == polled(*c, old(t)@, s@, at, n, 0, 0),
            want == polled(*c, t@, s@, at, n, i, ready),
        decreases n - i,
    {
        if i > u64::MAX / 8 {
            proof {
                t.lemma_memory_ends(at + i * 8);
            }
            return Outcome::Fault;
        }
        let fd: u32 = match t.load32(at, i * 8) {
            Some(v) => v,
            None => { return Outcome::Fault; },
        };
        let bad: bool = crate::sys::find_file(t, s, fd as i32).is_none();
        let b = crate::bytes::to_bytes16(if bad { 0x20 } else { 0 });
        if !t.store(at, i * 8 + 6, b.as_slice()) {
            return Outcome::Fault;
        }
        if bad {
            ready = ready + 1;
        }
        i = i + 1;
    }
    Outcome::Return(ready as i64)
}

/// `sched_getaffinity(.., len, *mask)`: one bit for each processor.
pub open spec fn affinity_call(c: Caller, t: Tv, s: Sv, len: u64, at: u64) -> Step {
    let k = if len < 8 {
        len as int
    } else {
        8
    };
    filled(c, t, s, at, bytes::bytes64(((1u64 << s.cpus) - 1) as u64).take(k), k as i64)
}

fn sys_affinity(c: &Caller, t: &mut Task, s: &Sys, len: u64, at: u64) -> (r: Outcome)
    requires
        old(t).wf(),
        s.wf(),
    ensures
        final(t).wf(),
        final(t).pml4() == old(t).pml4(),
        sys::meets(affinity_call(*c, old(t)@, s@, len, at), *c, final(t)@, s@, r),
{
    let n: u32 = s.cpus;
    assert(1u64 << n >= 1) by (bit_vector)
        requires
            n <= 32,
    ;
    let mask: u64 = (1u64 << n) - 1;
    let k: usize = if len < 8 { len as usize } else { 8 };
    let all = crate::bytes::to_bytes64(mask);
    let b = crate::bytes::sub(all.as_slice(), 0, k);
    assert(b@ =~= bytes::bytes64(mask).take(k as int));
    if t.store_bytes(at, b.as_slice()) {
        Outcome::Return(k as i64)
    } else {
        Outcome::Fault
    }
}

// --- the process tree ---

/// The call ends the process.
pub open spec fn exit_call(c: Caller, t: Tv, s: Sv, code: i32) -> Step {
    let (t2, s2) = sys::ended(t, s, code);
    Some((c, t2, s2, Outcome::Exit(code)))
}

/// `kill`: only the fatal signals do anything, and they end the caller.
pub open spec fn kill_call(c: Caller, t: Tv, s: Sv, sig: u64) -> Step {
    if sig == 6 || sig == 9 || sig == 15 {
        exit_call(c, t, s, (128 + sig) as i32)
    } else {
        sys::back(c, t, s, 0)
    }
}

fn sys_kill(c: &Caller, t: &mut Task, s: &mut Sys, sig: u64) -> (r: Outcome)
    requires
        old(t).wf(),
        old(s).wf(),
    ensures
        final(t).wf(),
        final(t).pml4() == old(t).pml4(),
        final(s).wf(),
        sys::meets(kill_call(*c, old(t)@, old(s)@, sig), *c, final(t)@, final(s)@, r),
{
    if sig == 6 || sig == 9 || sig == 15 {
        let code: i32 = 128 + sig as i32;
        crate::sys::end(t, s, code);
        Outcome::Exit(code)
    } else {
        Outcome::Return(0)
    }
}

/// The UTF-8 forms of these texts.
pub open spec fn encoded(v: Seq<Seq<char>>) -> Seq<Seq<u8>> {
    v.map_values(|s: Seq<char>| vstd::utf8::encode_utf8(s))
}

/// `execve(path, argv, envp)`.
pub open spec fn exec_call(c: Caller, t: Tv, s: Sv, p: u64, av: u64, ev: u64) -> Step {
    let m = t.space.mem;
    match (syscall_fs::user_path(t, p), syscall_fs::user_strs(m, av), syscall_fs::user_strs(m, ev)) {
        (Some(path), Some(argv), Some(envp)) => match ext2::opened(s.disk) {
            Err(_) => sys::back(c, t, s, sys::ENOENT),
            Ok(fs) => match ext2::path_data(s.disk, fs, vstd::utf8::encode_utf8(path)) {
                Err(e) => Some((c, t, s, Outcome::Panic(e))),
                Ok(None) => sys::back(c, t, s, sys::ENOENT),
                Ok(Some(image)) => Some(
                    spawn::execed(c, t, s, image, encoded(argv), encoded(envp)),
                ),
            },
        },
        _ => None,
    }
}

fn strs_of<'a>(v: &'a Vec<String>) -> (r: Vec<&'a str>)
    ensures
        process::utf8_of(r@) == encoded(syscall_fs::string_views(v@)),
{
    let mut r: Vec<&'a str> = Vec::new();
    let n: usize = v.len();
    let mut i: usize = 0;
    while i < n
        invariant
            i <= n,
            n == v@.len(),
            r@.len() == i,
            forall|j: int| 0 <= j < i ==> (#[trigger] r@[j])@ == v@[j]@,
        decreases n - i,
    {
        r.push(v[i].as_str());
        i = i + 1;
    }
    assert(process::utf8_of(r@) =~= encoded(syscall_fs::string_views(v@)));
    r
}

/// `meets`, but what is left behind by a panic does not matter.
pub open spec fn reaches(w: Step, c: Caller, t: Tv, s: Sv, o: Outcome) -> bool {
    match w {
        Some((c2, t2, s2, o2)) => o == o2 && (o2 !is Panic ==> c == c2 && t == t2 && s == s2),
        None => o == Outcome::Fault,
    }
}

fn sys_execve(c: &mut Caller, t: &mut Task, s: &mut Sys, p: u64, av: u64, ev: u64) -> (r: Outcome)
    requires
        old(t).wf(),
        old(s).wf(),
    ensures
        final(t).wf(),
        r !is Exec ==> final(t).pml4() == old(t).pml4(),
        final(s).wf(),
        reaches(
            exec_call(*old(c), old(t)@, old(s)@, p, av, ev),
            *final(c),
            final(t)@,
            final(s)@,
            r,
        ),
{
    let path = match crate::syscall_fs::resolve_user_path(t, p) {
        Some(p) => crate::text::string_of(p.as_slice()),
        None => { return Outcome::Fault; },
    };
    let argv = match crate::syscall_fs::user_cstr_array(t, av) {
        Some(v) => v,
        None => { return Outcome::Fault; },
    };
    let envp = match crate::syscall_fs::user_cstr_array(t, ev) {
        Some(v) => v,
        None => { return Outcome::Fault; },
    };
    let fs = match crate::ext2::open(s.disk.as_slice()) {
        Ok(fs) => fs,
        Err(_) => { return Outcome::Return(sys::ENOENT); },
    };
    match fs.read_path(s.disk.as_slice(), path.as_str()) {
        Err(e) => Outcome::Panic(e),
        Ok(None) => Outcome::Return(sys::ENOENT),
        Ok(Some(image)) => {
            let a = strs_of(&argv);
            let e = strs_of(&envp);
            crate::spawn::execve(c, t, s, image.as_slice(), a.as_slice(), e.as_slice())
        },
    }
}

// --- the call table ---

/// What a call comes to, with the progress it keeps.
pub type Lstep = Option<(Caller, Tv, Sv, Pg, Outcome)>;

/// What a call that has to wait keeps.
pub open spec fn kept(o: Outcome) -> Pg {
    match o {
        Outcome::Block { file: _, done } => Pg { done, ..syscall_fs::fresh() },
        _ => syscall_fs::fresh(),
    }
}

/// A call that keeps nothing but how much of a write is done.
pub open spec fn plain(w: Step) -> Lstep {
    match w {
        Some((c, t, s, o)) => Some((c, t, s, kept(o), o)),
        None => None,
    }
}

/// `unlink` and `rmdir`: the path is left to be removed.
pub open spec fn unlink_call(c: Caller, t: Tv, s: Sv, p: u64, dir: bool) -> Lstep {
    match syscall_fs::user_path(t, p) {
        None => None,
        Some(path) => if ext2::opened(s.disk) is Err {
            Some((c, t, s, syscall_fs::fresh(), Outcome::Return(sys::EIO)))
        } else {
            Some((c, t, s, Pg { path, ..syscall_fs::fresh() }, Outcome::Unlink { dir }))
        },
    }
}

fn sys_unlink(c: &Caller, t: &Task, s: &Sys, pg: &mut Progress, p: u64, dir: bool) -> (r: Outcome)
    requires
        t.wf(),
        s.wf(),
    ensures
        match unlink_call(*c, t@, s@, p, dir) {
            None => r == Outcome::Fault,
            Some((_, _, _, p2, o)) => r == o && final(pg)@ == p2,
        },
{
    let path = match crate::syscall_fs::resolve_user_path(t, p) {
        Some(p) => p,
        None => { return Outcome::Fault; },
    };
    *pg = Progress::new();
    match crate::ext2::open(s.disk.as_slice()) {
        Err(_) => Outcome::Return(sys::EIO),
        Ok(_) => {
            pg.path = path;
            assert(pg@ =~= (Pg { path: path@, ..syscall_fs::fresh() }));
            Outcome::Unlink { dir }
        },
    }
}

/// The numbers that answer with the process id.
pub open spec fn asks_pid(nr: u64) -> bool {
    nr == SYS_GETPID || nr == SYS_GETTID || nr == SYS_SET_TID_ADDRESS || nr == SYS_GETPGRP || nr
        == SYS_GETPGID
}

pub open spec fn asks_uid(nr: u64) -> bool {
    nr == SYS_GETUID || nr == SYS_GETEUID || nr == SYS_GETGID || nr == SYS_GETEGID
}

/// The numbers that are accepted and do nothing.
pub open spec fn ignored(nr: u64) -> bool {
    nr == SYS_RT_SIGACTION || nr == SYS_RT_SIGPROCMASK || nr == SYS_RT_SIGRETURN || nr
        == SYS_SET_ROBUST_LIST || nr == SYS_PRLIMIT64 || nr == SYS_SIGALTSTACK || nr
        == SYS_MPROTECT || nr == SYS_MADVISE || nr == SYS_MUNMAP || nr == SYS_FUTEX || nr
        == SYS_PRCTL || nr == SYS_FCHDIR || nr == SYS_SETPGID || nr == SYS_SETSID || nr
        == SYS_SETUID || nr == SYS_SETGID
}

fn is_pid_query(nr: u64) -> (r: bool)
    ensures
        r == asks_pid(nr),
{
    nr == SYS_GETPID || nr == SYS_GETTID || nr == SYS_SET_TID_ADDRESS || nr == SYS_GETPGRP || nr
        == SYS_GETPGID
}

fn is_uid_query(nr: u64) -> (r: bool)
    ensures
        r == asks_uid(nr),
{
    nr == SYS_GETUID || nr == SYS_GETEUID || nr == SYS_GETGID || nr == SYS_GETEGID
}

fn is_ignored(nr: u64) -> (r: bool)
    ensures
        r == ignored(nr),
{
    nr == SYS_RT_SIGACTION || nr == SYS_RT_SIGPROCMASK || nr == SYS_RT_SIGRETURN || nr
        == SYS_SET_ROBUST_LIST || nr == SYS_PRLIMIT64 || nr == SYS_SIGALTSTACK || nr
        == SYS_MPROTECT || nr == SYS_MADVISE || nr == SYS_MUNMAP || nr == SYS_FUTEX || nr
        == SYS_PRCTL || nr == SYS_FCHDIR || nr == SYS_SETPGID || nr == SYS_SETSID || nr
        == SYS_SETUID || nr == SYS_SETGID
}

/// The calls on files and paths that keep only plain progress; nothing for
/// any other number.
pub open spec fn file_call(c: Caller, t: Tv, s: Sv, done: u64) -> Option<Step> {
    let f = c.frame;
    let (nr, a1, a2, a3, a4) = (f.rax, f.rdi, f.rsi, f.rdx, f.r10);
    if nr == SYS_WRITE {
        Some(syscall_fs::write_call(c, t, s, a1, a2, a3, done))
    } else if nr == SYS_READ {
        Some(syscall_fs::read_call(c, t, s, a1, a2, a3))
    } else if nr == SYS_WRITEV {
        Some(syscall_fs::writev_from(c, t, s, a1, a2, a3, 0, 0, done))
    } else if nr == SYS_OPEN {
        Some(syscall_fs::open_call(c, t, s, a1))
    } else if nr == SYS_OPENAT {
        Some(syscall_fs::open_call(c, t, s, a2))
    } else if nr == SYS_CLOSE {
        let (t2, s2, ok) = sys::closed(t, s, a1 as i32);
        Some(
            sys::back(
                c,
                t2,
                s2,
                if ok {
                    0
                } else {
                    file::EBADF
                },
            ),
        )
    } else if nr == SYS_LSEEK {
        Some(syscall_fs::seek_call(c, t, s, a1, a2, a3))
    } else if nr == SYS_GETDENTS64 {
        Some(syscall_fs::getdents_call(c, t, s, a1, a2, a3))
    } else if nr == SYS_FSTAT {
        Some(syscall_fs::fstat_call(c, t, s, a1, a2))
    } else if nr == SYS_NEWFSTATAT {
        Some(syscall_fs::fstatat_call(c, t, s, a1, a2, a3, a4))
    } else if nr == SYS_IOCTL {
        Some(syscall_fs::ioctl_call(c, t, s, a1, a2, a3))
    } else if nr == SYS_CHDIR {
        Some(syscall_fs::chdir_call(c, t, s, a1))
    } else if nr == SYS_GETCWD {
        Some(syscall_fs::getcwd_call(c, t, s, a1, a2))
    } else if nr == SYS_PIPE {
        Some(syscall_fs::pipe_call(c, t, s, a1, 0))
    } else if nr == SYS_PIPE2 {
        Some(syscall_fs::pipe_call(c, t, s, a1, a2))
    } else if nr == SYS_DUP {
        let (t2, s2, r) = sys::duped(t, s, a1 as i32, 0);
        Some(sys::back(c, t2, s2, r as i64))
    } else if nr == SYS_DUP2 {
        let (t2, s2, r) = sys::forced(t, s, a1 as i32, a2 as i32, false);
        Some(sys::back(c, t2, s2, r as i64))
    } else if nr == SYS_DUP3 {
        if a1 == a2 {
            Some(sys::back(c, t, s, file::EINVAL))
        } else {
            let (t2, s2, r) = sys::forced(t, s, a1 as i32, a2 as i32, a3 & O_CLOEXEC != 0);
            Some(sys::back(c, t2, s2, r as i64))
        }
    } else if nr == SYS_FCNTL {
        Some(fcntl_call(c, t, s, a1, a2, a3))
    } else if nr == SYS_POLL || nr == SYS_PPOLL {
        Some(polled(c, t, s, a1, a2, 0, 0))
    } else if nr == SYS_READLINK || nr == SYS_READLINKAT {
        Some(sys::back(c, t, s, file::EINVAL))
    } else {
        None
    }
}

fn do_file_call(c: &Caller, t: &mut Task, s: &mut Sys, done: u64) -> (r: Option<Outcome>)
    requires
        old(t).wf(),
        old(s).wf(),
    ensures
        final(t).wf(),
        final(t).pml4() == old(t).pml4(),
        final(s).wf(),
        match file_call(*c, old(t)@, old(s)@, done) {
            Some(w) => r is Some && sys::meets(w, *c, final(t)@, final(s)@, r->0),
            None => r is None && final(t)@ == old(t)@ && final(s)@ == old(s)@,
        },
{
    let f = c.frame;
    let (nr, a1, a2, a3, a4) = (f.rax, f.rdi, f.rsi, f.rdx, f.r10);
    if nr == SYS_WRITE {
        Some(crate::syscall_fs::sys_write(c, t, s, a1, a2, a3, done))
    } else if nr == SYS_READ {
        Some(crate::syscall_fs::sys_read(c, t, s, a1, a2, a3))
    } else if nr == SYS_WRITEV {
        Some(crate::syscall_fs::sys_writev(c, t, s, a1, a2, a3, done))
    } else if nr == SYS_OPEN {
        Some(crate::syscall_fs::sys_open(c, t, s, a1))
    } else if nr == SYS_OPENAT {
        Some(crate::syscall_fs::sys_open(c, t, s, a2))
    } else if nr == SYS_CLOSE {
        if crate::sys::close(t, s, a1 as i32) {
            Some(Outcome::Return(0))
        } else {
            Some(Outcome::Return(crate::file::EBADF))
        }
    } else if nr == SYS_LSEEK {
        Some(crate::syscall_fs::sys_lseek(c, t, s, a1, a2, a3))
    } else if nr == SYS_GETDENTS64 {
        Some(crate::syscall_fs::sys_getdents64(c, t, s, a1, a2, a3))
    } else if nr == SYS_FSTAT {
        Some(crate::syscall_fs::sys_fstat(c, t, s, a1, a2))
    } else if nr == SYS_NEWFSTATAT {
        Some(crate::syscall_fs::sys_newfstatat(c, t, s, a1, a2, a3, a4))
    } else if nr == SYS_IOCTL {
        Some(crate::syscall_fs::sys_ioctl(c, t, s, a1, a2, a3))
    } else if nr == SYS_CHDIR {
        Some(crate::syscall_fs::sys_chdir(c, t, s, a1))
    } else if nr == SYS_GETCWD {
        Some(crate::syscall_fs::sys_getcwd(c, t, s, a1, a2))
    } else if nr == SYS_PIPE {
        Some(crate::syscall_fs::sys_pipe(c, t, s, a1, 0))
    } else if nr == SYS_PIPE2 {
        Some(crate::syscall_fs::sys_pipe(c, t, s, a1, a2))
    } else if nr == SYS_DUP {
        Some(Outcome::Return(crate::sys::dup(t, s, a1 as i32, 0) as i64))
    } else if nr == SYS_DUP2 {
        Some(Outcome::Return(crate::sys::dup3(t, s, a1 as i32, a2 as i32, false) as i64))
    } else if nr == SYS_DUP3 {
        if a1 == a2 {
            Some(Outcome::Return(crate::file::EINVAL))
        } else {
            Some(
                Outcome::Return(
                    crate::sys::dup3(t, s, a1 as i32, a2 as i32, a3 & O_CLOEXEC != 0) as i64,
                ),
            )
        }
    } else if nr == SYS_FCNTL {
        Some(sys_fcntl(c, t, s, a1, a2, a3))
    } else if nr == SYS_POLL || nr == SYS_PPOLL {
        Some(sys_poll(c, t, s, a1, a2))
    } else if nr == SYS_READLINK || nr == SYS_READLINKAT {
        Some(Outcome::Return(crate::file::EINVAL))
    } else {
        None
    }
}

/// Every other call but `fork`; an unknown number is refused.
pub open spec fn other_call(c: Caller, t: Tv, s: Sv) -> Step {
    let f = c.frame;
    let (nr, a1, a2, a3) = (f.rax, f.rdi, f.rsi, f.rdx);
    if nr == SYS_TIME {
        time_call(c, t, s, a1)
    } else if nr == SYS_ARCH_PRCTL {
        prctl_call(c, t, s, a1, a2)
    } else if nr == SYS_BRK {
        grown(c, s, task::broken(t, s.free, a1))
    } else if nr == SYS_MMAP {
        grown(c, s, task::mmapped(t, s.free, a2))
    } else if nr == SYS_GETRANDOM {
        random_call(c, t, s, a1, a2)
    } else if asks_pid(nr) {
        sys::back(c, t, s, t.pid as i64)
    } else if nr == SYS_GETPPID {
        sys::back(c, t, s, t.ppid as i64)
    } else if asks_uid(nr) {
        sys::back(c, t, s, t.uid as i64)
    } else if ignored(nr) {
        sys::back(c, t, s, 0)
    } else if nr == SYS_NANOSLEEP || nr == SYS_CLOCK_NANOSLEEP {
        Some((c, t, s, Outcome::Yield(1000)))
    } else if nr == SYS_SYSINFO {
        filled(c, t, s, a1, bytes::zeros(112), 0)
    } else if nr == SYS_UNAME {
        filled(c, t, s, a1, bytes::zeros(390), 0)
    } else if nr == SYS_CLOCK_GETTIME {
        filled(c, t, s, a2, bytes::zeros(16), 0)
    } else if nr == SYS_WAITID {
        sys::back(c, t, s, sys::ECHILD)
    } else if nr == SYS_SCHED_GETAFFINITY {
        affinity_call(c, t, s, a2, a3)
    } else if nr == SYS_KILL || nr == SYS_TKILL {
        kill_call(c, t, s, a2)
    } else if nr == SYS_TGKILL {
        kill_call(c, t, s, a3)
    } else if nr == SYS_EXECVE {
        exec_call(c, t, s, a1, a2, a3)
    } else if nr == SYS_WAIT4 {
        spawn::waited(c, t, s, a1 as i64, a2)
    } else if nr == SYS_EXIT || nr == SYS_EXIT_GROUP {
        exit_call(c, t, s, a1 as i32)
    } else {
        sys::back(c, t, s, sys::ENOSYS)
    }
}

fn fill_zeros(c: &Caller, t: &mut Task, s: &Sys, at: u64, n: usize) -> (r: Outcome)
    requires
        old(t).wf(),
        0 < n,
    ensures
        final(t).wf(),
        final(t).pml4() == old(t).pml4(),
        sys::meets(filled(*c, old(t)@, s@, at, bytes::zeros(n as nat), 0), *c, final(t)@, s@, r),
{
    let b = crate::bytes::zeroed(n);
    proof {
        let w = filled(*c, t@, s@, at, b@, 0);
    }
    fill(t, at, &b, 0)
}

fn do_other_call(c: &mut Caller, t: &mut Task, s: &mut Sys) -> (r: Outcome)
    requires
        old(t).wf(),
        old(s).wf(),
    ensures
        final(t).wf(),
        r !is Exec ==> final(t).pml4() == old(t).pml4(),
        final(s).wf(),
        reaches(other_call(*old(c), old(t)@, old(s)@), *final(c), final(t)@, final(s)@, r),
{
    let f = c.frame;
    let (nr, a1, a2, a3) = (f.rax, f.rdi, f.rsi, f.rdx);
    if nr == SYS_TIME {
        sys_time(c, t, s, a1)
    } else if nr == SYS_ARCH_PRCTL {
        sys_arch_prctl(c, t, s, a1, a2)
    } else if nr == SYS_BRK {
        sys_brk(c, t, s, a1)
    } else if nr == SYS_MMAP {
        sys_mmap(c, t, s, a2)
    } else if nr == SYS_GETRANDOM {
        sys_getrandom(c, t, s, a1, a2)
    } else if is_pid_query(nr) {
        Outcome::Return(t.pid() as i64)
    } else if nr == SYS_GETPPID {
        Outcome::Return(t.ppid() as i64)
    } else if is_uid_query(nr) {
        Outcome::Return(t.uid() as i64)
    } else if is_ignored(nr) {
        Outcome::Return(0)
    } else if nr == SYS_NANOSLEEP || nr == SYS_CLOCK_NANOSLEEP {
        Outcome::Yield(1000)
    } else if nr == SYS_SYSINFO {
        fill_zeros(c, t, s, a1, 112)
    } else if nr == SYS_UNAME {
        fill_zeros(c, t, s, a1, 390)
    } else if nr == SYS_CLOCK_GETTIME {
        fill_zeros(c, t, s, a2, 16)
    } else if nr == SYS_WAITID {
        Outcome::Return(sys::ECHILD)
    } else if nr == SYS_SCHED_GETAFFINITY {
        sys_affinity(c, t, s, a2, a3)
    } else if nr == SYS_KILL || nr == SYS_TKILL {
        sys_kill(c, t, s, a2)
    } else if nr == SYS_TGKILL {
        sys_kill(c, t, s, a3)
    } else if nr == SYS_EXECVE {
        sys_execve(c, t, s, a1, a2, a3)
    } else if nr == SYS_WAIT4 {
        crate::spawn::wait4(c, t, s, a1 as i64, a2)
    } else if nr == SYS_EXIT || nr == SYS_EXIT_GROUP {
        let code: i32 = a1 as i32;
        crate::sys::end(t, s, code);
        Outcome::Exit(code)
    } else {
        Outcome::Return(sys::ENOSYS)
    }
}

/// Whether the call is a `fork`: `clone` without shared memory is one.
pub open spec fn forks(c: Caller) -> bool {
    c.frame.rax == SYS_FORK || c.frame.rax == SYS_CLONE && c.frame.rdi & CLONE_VM == 0
}

/// Where the result is known, it goes into `rax`.
pub open spec fn settled(c: Caller, o: Outcome) -> Caller {
    match o {
        Outcome::Return(v) => Caller { frame: UserFrame { rax: v as u64, ..c.frame }, ..c },
        Outcome::Yield(_) => Caller { frame: UserFrame { rax: 0, ..c.frame }, ..c },
        Outcome::Fork { pid, frame: _ } => Caller {
            frame: UserFrame { rax: pid, ..c.frame },
            ..c
        },
        _ => c,
    }
}

/// Whether the number is one of the NT personality's.
pub open spec fn is_nt_call(nr: u64) -> bool {
    nt::NT_BASE <= nr <= nt::NT_BASE | 0xFFFF
}

/// What a call other than `fork` comes to, before its result is in `rax`.
pub open spec fn served(c: Caller, t: Tv, s: Sv, p: Pg) -> Lstep {
    let f = c.frame;
    let (nr, a1, a2, a3, a4) = (f.rax, f.rdi, f.rsi, f.rdx, f.r10);
    if is_nt_call(nr) {
        plain(nt_ntdll::nt_call((nr & 0xFFFF) as u16, p.done, c, t, s))
    } else if nr == SYS_SENDFILE {
        syscall_fs::sendfile_call(c, t, s, p, a1, a2, a3, a4)
    } else if nr == SYS_UNLINK {
        unlink_call(c, t, s, a1, false)
    } else if nr == SYS_RMDIR {
        unlink_call(c, t, s, a1, true)
    } else if nr == SYS_UNLINKAT {
        unlink_call(c, t, s, a2, a3 & 0x200 != 0)
    } else {
        match file_call(c, t, s, p.done) {
            Some(w) => plain(w),
            None => plain(other_call(c, t, s)),
        }
    }
}

/// The call left this behind: its result is in place, and a thread that has to
/// wait is queued.
pub open spec fn answered(w: Lstep, c: Caller, t: Tv, s: Sv, p: Pg, o: Outcome) -> bool {
    match w {
        Some((c2, t2, s2, p2, o2)) => o == o2 && (o2 !is Panic ==> c == settled(c2, o2) && t == t2
            && s == sys::parked(s2, c2.tid, o2) && p == p2),
        None => o == Outcome::Fault,
    }
}

fn settle(c: &mut Caller, o: &Outcome)
    ensures
        *final(c) == settled(*old(c), *o),
{
    match o {
        Outcome::Return(v) => {
            c.frame.rax = *v as u64;
        },
        Outcome::Yield(_) => {
            c.frame.rax = 0;
        },
        Outcome::Fork { pid, frame: _ } => {
            c.frame.rax = *pid;
        },
        _ => {},
    }
}

/// Serve a call of either personality. `p` is how far it came the last time it had to wait.
pub fn thos_syscall_dispatch(c: &mut Caller, t: &mut Task, s: &mut Sys, p: &mut Progress) -> (r:
    Outcome)
    requires
        old(t).wf(),
        old(s).wf(),
    ensures
        final(t).wf(),
        r !is Exec ==> final(t).pml4() == old(t).pml4(),
        final(s).wf(),
        forks(*old(c)) ==> {
            &&& spawn::forked(old(t)@, old(s)@, *old(c), final(s)@, r)
            &&& final(t)@ == old(t)@
            &&& *final(c) == settled(*old(c), r)
            &&& final(p)@ == syscall_fs::fresh()
        },
        !forks(*old(c)) ==> answered(
            served(*old(c), old(t)@, old(s)@, old(p)@),
            *final(c),
            final(t)@,
            final(s)@,
            final(p)@,
            r,
        ),
{
    let f = c.frame;
    let (nr, a1, a2, a3, a4) = (f.rax, f.rdi, f.rsi, f.rdx, f.r10);
    if nr == SYS_FORK || (nr == SYS_CLONE && a1 & CLONE_VM == 0) {
        let o = crate::spawn::fork(c, t, s);
        settle(c, &o);
        *p = Progress::new();
        return o;
    }
    let done: u64 = p.done;
    let o = if nt::NT_BASE <= nr && nr <= nt::NT_BASE | 0xFFFF {
        *p = Progress::new();
        let o = crate::nt_ntdll::dispatch((nr & 0xFFFF) as u16, done, c, t, s);
        match &o {
            Outcome::Block { file: _, done } => {
                p.done = *done;
                assert(p@ =~= (Pg { done: *done, ..syscall_fs::fresh() }));
            },
            _ => {},
        }
        o
    } else if nr == SYS_SENDFILE {
        crate::syscall_fs::sys_sendfile(c, t, s, p, a1, a2, a3, a4)
    } else if nr == SYS_UNLINK {
        sys_unlink(c, t, s, p, a1, false)
    } else if nr == SYS_RMDIR {
        sys_unlink(c, t, s, p, a1, true)
    } else if nr == SYS_UNLINKAT {
        sys_unlink(c, t, s, p, a2, a3 & 0x200 != 0)
    } else {
        *p = Progress::new();
        let o = match do_file_call(c, t, s, done) {
            Some(o) => o,
            None => do_other_call(c, t, s),
        };
        match &o {
            Outcome::Block { file: _, done } => {
                p.done = *done;
                assert(p@ =~= (Pg { done: *done, ..syscall_fs::fresh() }));
            },
            _ => {},
        }
        o
    };
    settle(c, &o);
    crate::sys::park(s, c.tid, &o);
    o
}

/// A trampoline of the NT stubs leads to the NT personality: the call it makes
/// is no `fork`, and comes to what the selector in its low 16 bits comes to.
pub proof fn law_trampolines_reach_the_personality(c: Caller, t: Tv, s: Sv, p: Pg, flag: u16, idx: u16)
    requires
        c.frame.rax == crate::pe_pages::selector(flag, idx),
    ensures
        !forks(c),
        is_nt_call(c.frame.rax),
        served(c, t, s, p) == plain(nt_ntdll::nt_call(flag | idx, p.done, c, t, s)),
{
    let nr = c.frame.rax;
    let base = nt::NT_BASE;
    assert(base == 0x4E54_0000u64);
    assert(nr == (base | flag as u64 | idx as u64) as u32);
    assert(base <= nr && nr <= base | 0xFFFF && (nr & 0xFFFF) as u16 == flag | idx) by (bit_vector)
        requires
            base == 0x4E54_0000u64,
            nr == (base | flag as u64 | idx as u64) as u32,
    ;
    assert(base | 0xFFFF == 0x4E54_FFFF) by (bit_vector)
        requires
            base == 0x4E54_0000u64,
    ;
}

/// What a processor's system-call registers are set to. Entering takes code
/// from `syscall_base` and the stack from 8 behind it; returning takes the
/// stack from 8 behind `sysret_base` and code from 16 behind it.
#[derive(Clone, Copy)]
pub struct Msrs {
    pub efer: u64,
    pub sysret_base: u16,
    pub syscall_base: u16,
    pub lstar: u64,
    pub sfmask: u64,
}

pub const EFER_SYSTEM_CALL_EXTENSIONS: u64 = 0x1;

/// Interrupts, the direction flag, single stepping and alignment checks are
/// off on entry.
pub const SFMASK: u64 = 0x4_0700;

/// The registers that send system calls to `entry`.
pub fn init_cpu(efer: u64, entry: u64) -> (r: Msrs)
    ensures
        r.efer == efer | EFER_SYSTEM_CALL_EXTENSIONS,
        r.sysret_base + 8 == gdt::shared().user_data,
        r.sysret_base + 16 == gdt::shared().user_code,
        r.syscall_base == gdt::shared().kernel_code,
        r.syscall_base + 8 == gdt::shared().kernel_data,
        r.lstar == entry,
        r.sfmask == SFMASK,
{
    let s = crate::gdt::selectors();
    Msrs {
        efer: efer | EFER_SYSTEM_CALL_EXTENSIONS,
        sysret_base: s.user_data - 8,
        syscall_base: s.kernel_code,
        lstar: entry,
        sfmask: SFMASK,
    }
}

} // verus!
