use thos::apc::ApcEntry;
use thos::current::{
    current_alloc_event, current_alloc_mutant, current_alloc_regkey, current_alloc_semaphore,
    current_apc_pending, current_cwd, current_event, current_fd, current_fd_dup, current_fd_dup2,
    current_fd_get_cloexec, current_fd_set_cloexec, current_pid, current_ppid, current_queue_apc,
    current_regkey, current_take_apc, current_tid, current_uid, current_waitable, set_current_cwd,
};
use thos::elf::{load, Image};
use thos::mm::{init, Entry, FrameAllocator};
use thos::process::{Process, BRK_BASE, USER_ALLOC_BASE, USER_STACK_SIZE};
use thos::spawn::{
    fork, park, pid_exited, register_thread_exit, set_session, should_block_in_wait4,
    signal_thread_exit, spawn_init,
    spawn_thread, wait4,
};
use thos::sys::{end, Caller, Outcome, Sys, UserFrame, ECHILD, EIO, ENOENT, ENOSYS};
use thos::syscall::{
    note_user_exit, thos_syscall_dispatch, user_exits, ARCH_GET_FS, ARCH_SET_FS, SYS_ARCH_PRCTL, SYS_BRK,
    SYS_CHDIR, SYS_CLOSE, SYS_DUP2, SYS_EXIT, SYS_FORK, SYS_GETCWD, SYS_GETPID, SYS_GETUID,
    SYS_GETTID, SYS_IOCTL, SYS_MMAP, SYS_OPEN, SYS_PIPE, SYS_READ, SYS_WAIT4, SYS_WRITE,
    SYS_WRITEV,
};
use thos::syscall_fs::Progress;
use thos::task::{resolve_path, Task, Waitable};
use thos::text::{chars_of, string_of};

fn frames(n: u64) -> FrameAllocator {
    let mut fa = FrameAllocator::new();
    init(&mut fa, &[Entry { base: 0x10_0000, length: n * 4096, usable: true }]);
    fa
}

const ZERO: UserFrame = UserFrame {
    r15: 0, r14: 0, r13: 0, r12: 0, rbp: 0, rbx: 0, r11: 0, r10: 0, r9: 0, r8: 0, rax: 0,
    rdx: 0, rsi: 0, rdi: 0, rip: 0x40_1000, rflags: 0x202, rsp: 0x7000_0000_8000, cs: 0x2B, ss: 0x23,
};

fn caller() -> Caller {
    Caller { frame: ZERO, tid: 7, fsbase: 0, gsbase: 0, cs: 0x2B, ss: 0x23 }
}

fn call(c: &mut Caller, t: &mut Task, s: &mut Sys, n: u64, a: [u64; 3]) -> i64 {
    c.frame.rax = n;
    c.frame.rdi = a[0];
    c.frame.rsi = a[1];
    c.frame.rdx = a[2];
    let mut p = Progress::new();
    match thos_syscall_dispatch(c, t, s, &mut p) {
        Outcome::Return(v) => {
            assert_eq!(c.frame.rax, v as u64);
            v
        }
        _ => panic!("no plain return"),
    }
}

fn put(b: &mut Vec<u8>, at: usize, v: &[u8]) {
    if b.len() < at + v.len() {
        b.resize(at + v.len(), 0);
    }
    b[at..at + v.len()].copy_from_slice(v);
}

/// An image with one segment that holds the headers and 0x20 bytes of code.
fn elf() -> Vec<u8> {
    let mut b = vec![0u8; 0xA0];
    put(&mut b, 0, &[0x7F, b'E', b'L', b'F', 2, 1, 1]);
    put(&mut b, 16, &2u16.to_le_bytes());
    put(&mut b, 18, &0x3Eu16.to_le_bytes());
    put(&mut b, 24, &0x40_0080u64.to_le_bytes());
    put(&mut b, 32, &64u64.to_le_bytes());
    put(&mut b, 54, &56u16.to_le_bytes());
    put(&mut b, 56, &1u16.to_le_bytes());
    put(&mut b, 64, &1u32.to_le_bytes());
    put(&mut b, 68, &5u32.to_le_bytes());
    put(&mut b, 80, &0x40_0000u64.to_le_bytes());
    put(&mut b, 96, &0xA0u64.to_le_bytes());
    put(&mut b, 104, &0x1800u64.to_le_bytes());
    for i in 0x80..0xA0 {
        b[i] = i as u8;
    }
    b
}

fn started() -> (Sys, Task, u64) {
    let mut s = Sys::new(frames(256), Vec::new(), 1);
    let r = match spawn_init(&mut s, &elf(), &["/bin/sh", "-i"], &["HOME=/"]) {
        Ok(r) => r,
        Err(e) => panic!("{}", e),
    };
    let t = s.tasks.pop().unwrap();
    assert_eq!(t.pid(), r.pid);
    (s, t, r.rsp)
}

#[test]
fn segments_are_mapped_with_their_rights() {
    let mut p = Process::new(0x1000);
    let mut fa = frames(8);
    let img = load(&mut p, &mut fa, &elf()).ok().unwrap();
    assert_eq!((img.entry, img.phdr, img.phent, img.phnum), (0x40_0080, 0x40_0040, 56, 1));
    assert_eq!(p.read(0x40_0080, 2), Some(vec![0x80, 0x81]));
    assert_eq!(p.read(0x40_00A0, 3), Some(vec![0, 0, 0]));
    assert_eq!(p.read_u8(0x40_17FF), Some(0));
    let pages: Vec<(u64, bool)> = p.user_pages().iter().map(|x| (x.0, x.3)).collect();
    assert_eq!(pages, vec![(0x40_0000, true), (0x40_1000, true)]);
    assert_eq!(fa.free_frames(), 6);
}

#[test]
fn bad_images_are_refused() {
    let broken = |at: usize, v: u8| {
        let mut b = elf();
        b[at] = v;
        let mut p = Process::new(0x1000);
        load(&mut p, &mut frames(8), &b).err()
    };
    assert_eq!(broken(0, 0), Some("not an ELF"));
    assert_eq!(broken(4, 1), Some("not ELF64"));
    assert_eq!(broken(5, 2), Some("not little-endian"));
    assert_eq!(broken(16, 3), Some("not ET_EXEC"));
    assert_eq!(broken(18, 3), Some("not x86-64"));
    assert_eq!(broken(56, 200), Some("truncated ELF"));
}

#[test]
fn break_and_mappings_grow() {
    let mut p = Process::new(0x1000);
    let mut fa = frames(64);
    assert_eq!(p.brk(&mut fa, 0), Some(BRK_BASE));
    assert_eq!(p.brk(&mut fa, BRK_BASE + 5000), Some(BRK_BASE + 5000));
    assert_eq!(p.read_u8(BRK_BASE + 8191), Some(0));
    assert_eq!(p.read_u8(BRK_BASE + 8192), None);
    assert_eq!(p.mmap_anon(&mut fa, 10), Some(USER_ALLOC_BASE));
    assert_eq!(p.mmap_anon(&mut fa, 4097), Some(USER_ALLOC_BASE + 2 * 4096));
    let top = p.new_user_stack(&mut fa).unwrap();
    assert_eq!(top, USER_ALLOC_BASE + 5 * 4096 + USER_STACK_SIZE);
    assert!(p.store(BRK_BASE + 4090, b"across the page"));
    assert_eq!(p.read(BRK_BASE + 4090, 15), Some(b"across the page".to_vec()));
    assert!(!p.store(BRK_BASE + 8190, b"too far"));
    assert_eq!(p.translate(0x123), None);
}

#[test]
fn memory_is_copied_for_a_child() {
    let mut p = Process::new(0x1000);
    let mut fa = frames(16);
    let a = p.mmap_anon(&mut fa, 4096).unwrap();
    assert!(p.store(a, b"parent"));
    let mut q = p.duplicate(&mut fa, 0x2000).unwrap();
    assert_eq!(q.read(a, 6), Some(b"parent".to_vec()));
    assert!(q.store(a, b"child!"));
    assert_eq!(p.read(a, 6), Some(b"parent".to_vec()));
    assert_ne!(p.translate(a), q.translate(a));
}

#[test]
fn entry_stack_holds_arguments() {
    let (_, t, rsp) = started();
    assert_eq!(rsp % 16, 0);
    assert_eq!(t.load64(rsp, 0), Some(2));
    let text = |p: u64| {
        let mut v = Vec::new();
        let mut a = p;
        while t.load8(a) != Some(0) {
            v.push(t.load8(a).unwrap());
            a += 1;
        }
        v
    };
    assert_eq!(text(t.load64(rsp, 8).unwrap()), b"/bin/sh");
    assert_eq!(text(t.load64(rsp, 16).unwrap()), b"-i");
    assert_eq!(t.load64(rsp, 24), Some(0));
    assert_eq!(text(t.load64(rsp, 32).unwrap()), b"HOME=/");
    assert_eq!(t.load64(rsp, 40), Some(0));
}

#[test]
fn paths_are_resolved() {
    let r = |c: &str, p: &str| string_of(&resolve_path(&chars_of(c), &chars_of(p)));
    assert_eq!(r("/", "a/b"), "/a/b");
    assert_eq!(r("/home/x", "../y/./z"), "/home/y/z");
    assert_eq!(r("/home", "/etc//passwd"), "/etc/passwd");
    assert_eq!(r("/", "../.."), "/");
}

#[test]
fn lowest_descriptor_is_taken() {
    let (mut s, mut t, _) = started();
    let f = s.files.add_mem(b"x".to_vec());
    assert_eq!(t.fd_count(), 3);
    assert_eq!(t.fd_alloc(f), 3);
    assert!(t.fd_close(1));
    assert_eq!(t.fd_alloc_flags(f, true), 1);
    assert_eq!(t.fd_get_cloexec(1), 1);
    assert_eq!(t.fd_dup(1, 5), 5);
    assert_eq!(t.fd_get_cloexec(5), 0);
    assert_eq!(t.fd_dup3(1, 2, true), 2);
    assert_eq!(t.fd_get_cloexec(2), 1);
    assert_eq!(t.fd_dup2(9, 0), -9);
    t.close_on_exec();
    assert!(!t.fd_is_open(1));
    assert!(t.fd_is_open(5));
    let e = t.handle_alloc_event(0);
    assert!(matches!(t.handle_waitable(e), Some(Waitable::Event(0))));
    assert_eq!(t.fd_get(e), None);
}

#[test]
fn calls_answer_who_is_asking() {
    let (mut s, mut t, _) = started();
    let mut c = caller();
    set_session(&mut s, "admin", 1000);
    assert_eq!(call(&mut c, &mut t, &mut s, SYS_GETPID, [0; 3]), t.pid() as i64);
    assert_eq!(call(&mut c, &mut t, &mut s, SYS_GETTID, [0; 3]), t.pid() as i64);
    assert_eq!(call(&mut c, &mut t, &mut s, SYS_GETUID, [0; 3]), t.uid() as i64);
    assert_eq!(call(&mut c, &mut t, &mut s, 9999, [0; 3]), ENOSYS);
    assert_eq!(call(&mut c, &mut t, &mut s, SYS_IOCTL, [0, 1, 0]), -25);
    let m = call(&mut c, &mut t, &mut s, SYS_MMAP, [0, 4096, 3]) as u64;
    assert_eq!(t.load8(m), Some(0));
    assert_eq!(call(&mut c, &mut t, &mut s, SYS_BRK, [0; 3]), BRK_BASE as i64);
    assert_eq!(call(&mut c, &mut t, &mut s, SYS_ARCH_PRCTL, [ARCH_SET_FS, 0x1234, 0]), 0);
    assert_eq!(c.fsbase, 0x1234);
    assert_eq!(call(&mut c, &mut t, &mut s, SYS_ARCH_PRCTL, [ARCH_GET_FS, m, 0]), 0);
    assert_eq!(t.load64(m, 0), Some(0x1234));
}

#[test]
fn written_bytes_reach_the_console() {
    let (mut s, mut t, _) = started();
    let mut c = caller();
    let m = call(&mut c, &mut t, &mut s, SYS_MMAP, [0, 4096, 3]) as u64;
    assert!(t.store_bytes(m, b"hi there"));
    s.out.clear();
    assert_eq!(call(&mut c, &mut t, &mut s, SYS_WRITE, [1, m, 2]), 2);
    assert_eq!(s.out, b"hi");
    assert!(t.store64(m, 0x100, m) && t.store64(m, 0x108, 2));
    assert!(t.store64(m, 0x110, m + 2) && t.store64(m, 0x118, 6));
    assert_eq!(call(&mut c, &mut t, &mut s, SYS_WRITEV, [1, m + 0x100, 2]), 8);
    assert_eq!(s.out, b"hihi there");
    assert_eq!(call(&mut c, &mut t, &mut s, SYS_WRITE, [17, m, 2]), -9);
}

#[test]
fn unmapped_buffers_fault() {
    let (mut s, mut t, _) = started();
    let mut c = caller();
    c.frame.rax = SYS_WRITE;
    c.frame.rdi = 1;
    c.frame.rsi = 0x10;
    c.frame.rdx = 4;
    let mut p = Progress::new();
    assert!(matches!(thos_syscall_dispatch(&mut c, &mut t, &mut s, &mut p), Outcome::Fault));
}

#[test]
fn pipes_carry_bytes_between_descriptors() {
    let (mut s, mut t, _) = started();
    let mut c = caller();
    let m = call(&mut c, &mut t, &mut s, SYS_MMAP, [0, 4096, 3]) as u64;
    assert_eq!(call(&mut c, &mut t, &mut s, SYS_PIPE, [m, 0, 0]), 0);
    let (r, w) = (t.load32(m, 0).unwrap() as u64, t.load32(m, 4).unwrap() as u64);
    assert_eq!((r, w), (3, 4));
    c.frame.rax = SYS_READ;
    c.frame.rdi = r;
    c.frame.rsi = m;
    c.frame.rdx = 8;
    let mut p = Progress::new();
    assert!(matches!(thos_syscall_dispatch(&mut c, &mut t, &mut s, &mut p), Outcome::Block { .. }));
    assert!(t.store_bytes(m, b"through"));
    assert_eq!(s.take_woken(), Vec::<u64>::new());
    assert_eq!(call(&mut c, &mut t, &mut s, SYS_WRITE, [w, m, 7]), 7);
    assert_eq!(s.take_woken(), vec![7]);
    assert_eq!(call(&mut c, &mut t, &mut s, SYS_DUP2, [r, 9, 0]), 9);
    assert_eq!(call(&mut c, &mut t, &mut s, SYS_CLOSE, [r, 0, 0]), 0);
    assert_eq!(call(&mut c, &mut t, &mut s, SYS_READ, [9, m + 64, 100]), 7);
    assert_eq!(t.load_bytes(m + 64, 7), Some(b"through".to_vec()));
    c.frame.rax = SYS_READ;
    c.frame.rdi = 9;
    assert!(matches!(thos_syscall_dispatch(&mut c, &mut t, &mut s, &mut p), Outcome::Block { .. }));
    assert_eq!(call(&mut c, &mut t, &mut s, SYS_CLOSE, [w, 0, 0]), 0);
    assert_eq!(s.take_woken(), vec![7]);
    assert_eq!(call(&mut c, &mut t, &mut s, SYS_READ, [9, m, 1]), 0);
    assert_eq!(call(&mut c, &mut t, &mut s, SYS_CLOSE, [w, 0, 0]), -9);
}

#[test]
fn missing_files_are_not_opened() {
    let (mut s, mut t, _) = started();
    let mut c = caller();
    let m = call(&mut c, &mut t, &mut s, SYS_MMAP, [0, 4096, 3]) as u64;
    assert!(t.store_bytes(m, b"/nothing\0"));
    assert_eq!(call(&mut c, &mut t, &mut s, SYS_OPEN, [m, 0, 0]), EIO);
    assert_eq!(call(&mut c, &mut t, &mut s, SYS_CHDIR, [m, 0, 0]), ENOENT);
    assert_eq!(call(&mut c, &mut t, &mut s, SYS_GETCWD, [m, 1, 0]), -34);
    assert_eq!(call(&mut c, &mut t, &mut s, SYS_GETCWD, [m, 2, 0]), 2);
    assert_eq!(t.load_bytes(m, 2), Some(b"/\0".to_vec()));
}

#[test]
fn child_is_waited_for_once() {
    let (mut s, mut t, _) = started();
    let mut c = caller();
    let m = call(&mut c, &mut t, &mut s, SYS_MMAP, [0, 4096, 3]) as u64;
    assert!(t.store_bytes(m, b"before"));
    assert_eq!(call(&mut c, &mut t, &mut s, SYS_WAIT4, [u64::MAX, 0, 0]), ECHILD);
    c.frame.rax = SYS_FORK;
    let mut p = Progress::new();
    let pid = match thos_syscall_dispatch(&mut c, &mut t, &mut s, &mut p) {
        Outcome::Fork { pid, frame } => {
            assert_eq!(frame.rax, 0);
            assert_eq!(frame.rip, c.frame.rip);
            pid
        }
        _ => panic!("fork"),
    };
    assert_eq!(c.frame.rax, pid);
    assert!(matches!(wait4(&c, &mut t, &mut s, -1, m), Outcome::WaitChild));
    c.frame.rax = SYS_WAIT4;
    c.frame.rdi = u64::MAX;
    let o = thos_syscall_dispatch(&mut c, &mut t, &mut s, &mut p);
    assert!(matches!(o, Outcome::WaitChild));
    assert_eq!(s.take_woken(), Vec::<u64>::new());
    let mut child = s.tasks.pop().unwrap();
    assert_eq!((child.pid(), child.ppid()), (pid, t.pid()));
    assert_eq!(child.load_bytes(m, 6), Some(b"before".to_vec()));
    let mut cc = caller();
    cc.frame.rax = SYS_EXIT;
    cc.frame.rdi = 3;
    let o = thos_syscall_dispatch(&mut cc, &mut child, &mut s, &mut p);
    assert!(matches!(o, Outcome::Exit(3)));
    assert_eq!(s.take_woken(), vec![7]);
    assert_eq!(user_exits(&s), 1);
    s.tasks.push(child);
    assert!(pid_exited(&None, &s, pid));
    let me = Some(t);
    assert!(!pid_exited(&me, &s, me.as_ref().unwrap().pid()));
    assert!(pid_exited(&me, &s, pid));
    assert!(pid_exited(&me, &s, 999));
    t = me.unwrap();
    assert!(matches!(wait4(&c, &mut t, &mut s, -1, m), Outcome::Return(v) if v == pid as i64));
    assert_eq!(t.load32(m, 0), Some(3 << 8));
    assert!(s.tasks.is_empty());
    assert_eq!(call(&mut c, &mut t, &mut s, SYS_WAIT4, [u64::MAX, 0, 0]), ECHILD);
}

#[test]
fn fork_without_memory_panics() {
    let (mut s, t, _) = started();
    while s.fa.alloc_frame().is_some() {}
    assert!(matches!(fork(&caller(), &t, &mut s), Outcome::Panic("no frame for process PML4")));
}

#[test]
fn threads_share_their_process() {
    let (mut s, t, _) = started();
    let mut cur = Some(t);
    let w = match spawn_thread(&mut cur, &mut s, 0x40_0080, 5, 42) {
        Ok(w) => w,
        Err(e) => panic!("{}", e),
    };
    let t = cur.unwrap();
    assert_eq!(t.load64(w.teb, 0x30), Some(w.teb));
    assert!(!s.events[w.event].is_signaled());
    assert!(signal_thread_exit(&mut s, 42));
    assert!(s.events[w.event].is_signaled());
    assert!(!signal_thread_exit(&mut s, 42));
    register_thread_exit(&mut s, 43, w.event);
    assert!(signal_thread_exit(&mut s, 43));
}

#[test]
fn without_a_task_the_kernel_answers() {
    let mut cur: Option<Task> = None;
    assert_eq!((current_uid(&cur), current_pid(&cur)), (0, 0));
    assert_eq!(current_cwd(&cur), vec!['/']);
    assert_eq!(current_fd(&cur, 0), None);
    assert_eq!(current_fd_get_cloexec(&cur, 0), -9);
    assert_eq!(current_alloc_event(&mut cur, 0), -1);
    assert!(current_take_apc(&mut cur).is_none());
    assert_eq!(current_tid(&caller()), 7);
}

#[test]
fn current_task_is_read_and_changed() {
    let (mut s, t, _) = started();
    let mut cur = Some(t);
    set_current_cwd(&mut cur, chars_of("/tmp"));
    assert_eq!(string_of(&current_cwd(&cur)), "/tmp");
    let e = ApcEntry { routine: 1, arg1: 2, arg2: 3, arg3: 4 };
    assert!(current_queue_apc(&mut cur, e));
    assert_eq!(current_take_apc(&mut cur).unwrap().routine, 1);
    let h = current_alloc_regkey(&mut cur, chars_of("\\REGISTRY"));
    assert_eq!(current_regkey(&cur, h), Some(chars_of("\\REGISTRY")));
    assert_eq!(current_fd_dup2(&mut cur, &mut s, 1, 8), 8);
    assert_eq!(current_fd(&cur, 8), current_fd(&cur, 1));
}

#[test]
fn ended_task_keeps_its_status() {
    let (mut s, mut t, _) = started();
    end(&mut t, &mut s, 5);
    assert!(t.has_exited());
    assert_eq!(t.exit_status(), Some(5));
}

#[test]
fn auxiliary_values_follow_the_environment() {
    let mut p = Process::new(0x1000);
    let mut fa = frames(32);
    let top = p.new_user_stack(&mut fa).unwrap();
    let img = Image { entry: 0x40_0080, phdr: 0x40_0040, phent: 56, phnum: 1 };
    let rsp = p.init_stack(top, &["a"], &[], &img).unwrap();
    // argc, argv[0], NULL, NULL (environment), then the auxiliary vector.
    assert_eq!(p.word64_at(rsp, 0), Some(1));
    let mut seen = Vec::new();
    let mut off = 32;
    loop {
        let k = p.word64_at(rsp, off).unwrap();
        let v = p.word64_at(rsp, off + 8).unwrap();
        if k == 0 {
            break;
        }
        seen.push((k, v));
        off += 16;
    }
    assert!(seen.contains(&(3, 0x40_0040)));
    assert!(seen.contains(&(4, 56)));
    assert!(seen.contains(&(5, 1)));
    assert!(seen.contains(&(6, 4096)));
    assert!(seen.contains(&(9, 0x40_0080)));
}

#[test]
fn current_handles_name_their_objects() {
    let (mut s, t, _) = started();
    let mut cur = Some(t);
    assert_eq!(current_ppid(&cur), 0);
    let e = current_alloc_event(&mut cur, 3);
    let m = current_alloc_mutant(&mut cur, 4);
    let q = current_alloc_semaphore(&mut cur, 5);
    assert_eq!(current_event(&cur, e), Some(3));
    assert_eq!(current_event(&cur, m), None);
    assert!(matches!(current_waitable(&cur, m), Some(Waitable::Mutant(4))));
    assert!(matches!(current_waitable(&cur, q), Some(Waitable::Semaphore(5))));
    assert!(!current_apc_pending(&cur));
    current_queue_apc(&mut cur, ApcEntry { routine: 1, arg1: 0, arg2: 0, arg3: 0 });
    assert!(current_apc_pending(&cur));
    assert_eq!(current_fd_dup(&mut cur, &mut s, 0, 20), 20);
    assert_eq!(current_fd_set_cloexec(&mut cur, 20, true), 0);
    assert_eq!(current_fd_get_cloexec(&cur, 20), 1);
    assert_eq!(current_fd_set_cloexec(&mut cur, 77, true), -9);
}

#[test]
fn parents_wait_only_for_running_children() {
    let (mut s, t, _) = started();
    assert!(!should_block_in_wait4(&s.tasks, t.pid(), -1));
    assert!(matches!(fork(&caller(), &t, &mut s), Outcome::Fork { .. }));
    assert!(should_block_in_wait4(&s.tasks, t.pid(), -1));
    assert!(!should_block_in_wait4(&s.tasks, t.pid() + 99, -1));
    note_user_exit(&mut s);
    assert_eq!(user_exits(&s), 1);
}

#[test]
fn keys_wake_the_reader() {
    let (mut s, mut t, _) = started();
    let mut c = caller();
    let m = call(&mut c, &mut t, &mut s, SYS_MMAP, [0, 4096, 3]) as u64;
    c.frame.rax = SYS_READ;
    c.frame.rdi = 0;
    c.frame.rsi = m;
    c.frame.rdx = 8;
    let mut p = Progress::new();
    assert!(matches!(thos_syscall_dispatch(&mut c, &mut t, &mut s, &mut p), Outcome::Block { .. }));
    let (_, woken) = s.con.feed_report(&[0, 0, 0x04, 0, 0, 0, 0, 0]);
    assert_eq!(woken, vec![7]);
    assert_eq!(call(&mut c, &mut t, &mut s, SYS_READ, [0, m, 8]), 1);
    assert_eq!(t.load8(m), Some(b'a'));
}

#[test]
fn failed_starts_leave_no_task() {
    let (mut s, _, _) = started();
    let n = s.tasks.len();
    let pid = s.next_pid;
    assert!(spawn_init(&mut s, b"no program", &[], &[]).is_err());
    assert_eq!((s.tasks.len(), s.next_pid), (n, pid));
}

#[test]
fn mappings_keep_a_guard_page() {
    let mut fa = frames(64);
    let mut p = Process::new(0x1000);
    let a = p.mmap_anon(&mut fa, 5000).unwrap();
    let b = p.mmap_anon(&mut fa, 1).unwrap();
    assert_eq!(a, USER_ALLOC_BASE);
    assert_eq!(b, a + 3 * 4096);
    assert!(p.is_mapped(a, 8192) && p.is_mapped(b, 4096));
    assert!(!p.is_mapped(a + 8192, 1));
}

fn root_of(t: &mut Task) -> u64 {
    let sp = t.set_space(Process::new(0));
    let root = sp.pml4_phys();
    t.set_space(sp);
    root
}

#[test]
fn every_process_has_its_own_root() {
    let (mut s, mut t, _) = started();
    let c = caller();
    let mine = root_of(&mut t);
    assert!(matches!(fork(&c, &t, &mut s), Outcome::Fork { .. }));
    assert!(matches!(fork(&c, &t, &mut s), Outcome::Fork { .. }));
    assert!(spawn_init(&mut s, &elf(), &["/x"], &[]).is_ok());
    let mut roots = vec![mine];
    for i in 0..s.tasks.len() {
        roots.push(root_of(&mut s.tasks[i]));
    }
    let n = roots.len();
    roots.sort();
    roots.dedup();
    assert_eq!((n, roots.len()), (4, 4));
    assert!(roots.iter().all(|r| r % 4096 == 0 && *r != 0));
    assert_eq!(root_of(&mut t), mine);
}

#[test]
fn process_ids_are_not_used_twice() {
    let (mut s, mut t, _) = started();
    let c = caller();
    for _ in 0..3 {
        assert!(matches!(fork(&c, &t, &mut s), Outcome::Fork { .. }));
    }
    let before: Vec<u64> = s.tasks.iter().map(|t| t.pid()).collect();
    let mut cc = caller();
    call(&mut cc, &mut t, &mut s, SYS_PIPE, [USER_ALLOC_BASE, 0, 0]);
    call(&mut cc, &mut t, &mut s, SYS_MMAP, [0, 4096, 3]);
    call(&mut cc, &mut t, &mut s, SYS_GETPID, [0; 3]);
    assert_eq!(before, s.tasks.iter().map(|t| t.pid()).collect::<Vec<u64>>());
    let mut child = s.tasks.remove(1);
    let pid = child.pid();
    end(&mut child, &mut s, 0x1FE);
    assert_eq!((child.fd_get(0), child.fd_get_cloexec(0)), (None, -9));
    park(&mut s, child);
    let ids: Vec<u64> = s.tasks.iter().map(|t| t.pid()).collect();
    assert!(ids.windows(2).all(|w| w[0] < w[1]) && !ids.contains(&t.pid()));
    assert!(ids.contains(&pid) && pid_exited(&None, &s, pid));
    // Another process does not collect it, nor does a wait for another child.
    let mut other = s.tasks.remove(0);
    let buf = USER_ALLOC_BASE;
    assert!(matches!(wait4(&c, &mut other, &mut s, pid as i64, buf), Outcome::Return(ECHILD)));
    park(&mut s, other);
    assert!(matches!(wait4(&c, &mut t, &mut s, ids[0] as i64, 0), Outcome::WaitChild));
    assert!(s.tasks.iter().any(|t| t.pid() == pid));
    assert!(matches!(wait4(&c, &mut t, &mut s, pid as i64, buf), Outcome::Return(v) if v == pid as i64));
    assert_eq!(t.load32(buf, 0), Some(0xFE00));
    assert!(s.tasks.iter().all(|t| t.pid() != pid) && pid_exited(&None, &s, pid));
    assert!(matches!(fork(&c, &t, &mut s), Outcome::Fork { pid: p, .. } if p > ids[2]));
}

#[test]
fn a_table_holds_an_id_once() {
    let (mut s, mut t, _) = started();
    let c = caller();
    for _ in 0..2 {
        assert!(matches!(fork(&c, &t, &mut s), Outcome::Fork { .. }));
    }
    let ids = |s: &Sys| -> Vec<u64> { s.tasks.iter().map(|t| t.pid()).collect() };
    let before = ids(&s);
    let me = t.pid();
    // The ids start again: the child takes the place of the task that has its id.
    s.next_pid = before[0];
    assert!(matches!(fork(&c, &t, &mut s), Outcome::Fork { pid, .. } if pid == before[0]));
    assert_eq!(ids(&s), before);
    assert!(s.tasks.iter().all(|t| t.ppid() == me));
    // An id below the others goes first.
    end(&mut t, &mut s, 0);
    park(&mut s, t);
    assert_eq!(ids(&s), vec![me, before[0], before[1]]);
    assert!(pid_exited(&None, &s, me));
}
