use thos::bytes::{load16, load32, load64, put64, same, sub, to_bytes64};
use thos::console::{ascii, Console, ECHO_MASKED, ECHO_NONE};
use thos::mm::{align_down, align_up, hhdm_offset, init, phys_to_virt, Entry, FrameAllocator, Hhdm};
use thos::object::{Handle, HandleTable};
use thos::registry::{canon, Registry};
use thos::timer::Clock;
use thos::vfs::{close, OpenFile, RamFs};
use thos::wait::{Event, EventMode, Mutant, Semaphore, WaitQueue};

#[test]
fn scalars_are_little_endian() {
    let b = to_bytes64(0x0807_0605_0403_0201);
    assert_eq!(b, vec![1, 2, 3, 4, 5, 6, 7, 8]);
    assert_eq!(load16(&b, 1), 0x0302);
    assert_eq!(load32(&b, 4), 0x0807_0605);
    assert_eq!(load64(&b, 0), 0x0807_0605_0403_0201);
    let mut p = vec![0u8; 10];
    put64(&mut p, 1, u64::MAX);
    assert_eq!(p, vec![0, 255, 255, 255, 255, 255, 255, 255, 255, 0]);
    assert_eq!(sub(&b, 2, 4), vec![3, 4]);
    assert!(same(&[1, 2], &[1, 2]) && !same(&[1, 2], &[1, 3]) && !same(&[1], &[1, 2]));
}

#[test]
fn memory_map_becomes_frames() {
    let mut fa = FrameAllocator::new();
    let es = [
        Entry { base: 0x1000, length: 0x1000, usable: false },
        Entry { base: 0x100_0800, length: 0x4000_0000, usable: true },
    ];
    let stats = init(&mut fa, &es);
    assert_eq!(stats.usable_bytes, 0x4000_0000);
    assert_eq!(stats.largest_region_bytes, 0x4000_0000);
    assert_eq!(stats.heap_bytes, 8 * 1024 * 1024);
    assert!(stats.usable_frames > 0);
    assert_eq!(fa.free_frames(), stats.usable_frames);
}

#[test]
fn freed_frame_comes_back_first() {
    let mut fa = FrameAllocator::new();
    assert_eq!(fa.alloc_frame(), None);
    fa.dealloc(0x5000);
    fa.dealloc(0x9000);
    assert_eq!(fa.free_frames(), 2);
    assert_eq!(fa.alloc_frame(), Some(0x9000));
    assert_eq!(fa.alloc_frame(), Some(0x5000));
}

#[test]
fn addresses_align() {
    assert_eq!(align_up(4097, 4096), 8192);
    assert_eq!(align_up(4096, 4096), 4096);
    assert_eq!(align_down(8191, 4096), 4096);
    let h = Hhdm { offset: 0xFFFF_8000_0000_0000 };
    assert_eq!(phys_to_virt(&h, 0x1234), 0xFFFF_8000_0000_1234);
    assert_eq!(hhdm_offset(&h), 0xFFFF_8000_0000_0000);
}

#[test]
fn waiters_wake_in_order() {
    let mut q = WaitQueue::new();
    assert!(!q.wait_if(false, 1));
    assert!(q.wait_if(true, 1));
    q.wait(2);
    q.wait(3);
    assert_eq!(q.wake_one(), Some(1));
    assert_eq!(q.wake_all(), vec![2, 3]);
    assert_eq!(q.wake_one(), None);
    let mut latch = false;
    assert_eq!(q.wake_one_or(&mut latch), None);
    assert!(latch);
}

#[test]
fn manual_events_stay_signalled() {
    let mut e = Event::new();
    assert!(e.wait(5));
    assert!(e.wait(6));
    assert_eq!(e.signal(), vec![5, 6]);
    assert!(e.is_signaled());
    assert!(!e.wait(7));
    assert!(e.try_take() && e.try_take());
    e.reset();
    assert!(!e.try_take());
}

#[test]
fn automatic_events_wake_one() {
    let mut e = Event::with_mode(EventMode::Auto);
    assert!(e.wait(5));
    assert!(e.wait(6));
    assert_eq!(e.signal(), vec![5]);
    assert!(!e.is_signaled());
    assert_eq!(e.signal(), vec![6]);
    assert_eq!(e.signal(), Vec::<u64>::new());
    assert!(e.try_take());
    assert!(!e.try_take());
}

#[test]
fn semaphores_respect_their_limit() {
    let mut s = Semaphore::new(1, 3);
    assert!(s.is_signaled());
    assert!(s.try_take());
    assert!(!s.try_take());
    assert!(s.wait(9));
    let (before, woken) = s.release(2).unwrap();
    assert_eq!(before, 0);
    assert_eq!(woken, vec![9]);
    assert!(s.release(i32::MAX).is_none());
    assert!(s.release(0).is_none());
}

#[test]
fn mutants_have_one_owner() {
    let mut m = Mutant::new(0);
    assert!(m.try_acquire(1));
    assert!(m.try_acquire(1));
    assert!(!m.try_acquire(2));
    assert!(m.acquire(2));
    assert_eq!(m.release(2), Err(()));
    assert!(m.release(1).is_ok());
    assert!(!m.is_signaled(2));
    let (_, next) = m.release(1).unwrap();
    assert_eq!(next, Some(2));
}

#[test]
fn handles_are_not_used_twice() {
    assert!(HandleTable::new().has_handle_left());
    let mut t = HandleTable::new();
    let a = t.insert(Event::new());
    let b = t.insert(OpenFile { vnode: 7, offset: 20 });
    assert!(t.get::<Event>(a).is_some());
    assert!(t.close(a));
    assert!(!t.close(a));
    assert!(t.get::<Event>(a).is_none());
    let c = t.insert(OpenFile { vnode: 8, offset: 30 });
    assert_ne!(a, c);
    assert_eq!(t.len(), 2);
    assert_eq!(t.get::<OpenFile>(b).map(|f| f.offset), Some(20));
    assert_eq!(t.get::<OpenFile>(c).map(|f| f.offset), Some(30));
}

#[test]
fn handles_yield_their_own_kind() {
    let mut t = HandleTable::new();
    let a = t.insert(Event::new());
    let b = t.insert(Semaphore::new(1, 2));
    assert!(t.get::<OpenFile>(a).is_none());
    assert!(t.get::<Semaphore>(a).is_none());
    assert!(t.get::<Mutant>(b).is_none());
    assert!(t.get::<Event>(a).is_some());
    assert!(t.get::<Semaphore>(b).is_some());
    assert!(t.get::<Event>(Handle(0)).is_none());
    assert!(!t.close(Handle(0)));
    assert_eq!(t.len(), 2);
}

#[test]
fn sleepers_wake_on_time() {
    let mut c = Clock::new();
    assert_eq!(c.now(), 0);
    // 25 ms are three ticks of 10 ms.
    let d = c.deadline_from_relative_100ns(-250_000);
    assert_eq!(d, 3);
    assert!(c.sleep_until(d, 7));
    assert!(c.sleep_until(1, 8));
    // Nothing moves on another processor, or before scheduling has started.
    assert_eq!(c.tick(1, true), Vec::<u64>::new());
    assert_eq!(c.tick(0, false), Vec::<u64>::new());
    assert_eq!(c.now(), 0);
    assert_eq!(c.tick(0, true), vec![8]);
    assert_eq!(c.tick(0, true), Vec::<u64>::new());
    assert_eq!(c.tick(0, true), vec![7]);
    assert!(!c.sleep_until(3, 9));
}

#[test]
fn registry_reads_what_was_set() {
    let mut r = Registry::new();
    let k = "\\Registry\\Machine\\Software\\Thos";
    assert!(!r.set_value(k, "Name", 1, b"x"));
    r.create(k);
    assert!(r.open(k));
    assert!(r.open("\\registry\\MACHINE\\software\\thos"));
    assert!(r.set_value(k, "Name", 1, b"abc"));
    assert_eq!(r.query_value(k, "NAME"), Some((1, b"abc".to_vec())));
    assert!(r.set_value(k, "name", 4, b"zz"));
    assert_eq!(r.query_value(k, "Name"), Some((4, b"zz".to_vec())));
    assert_eq!(r.query_value(k, "Other"), None);
    r.create("\\Registry\\Machine\\Software\\Thos\\Sub");
    assert!(r.delete_key(k));
    assert!(!r.open(k));
    assert!(!r.open("\\Registry\\Machine\\Software\\Thos\\Sub"));
    assert!(r.open("\\Registry\\Machine\\Software"));
}

#[test]
fn registry_paths_have_one_canonical_form() {
    let want = "machine\\software\\thos";
    for p in [
        "\\Registry\\Machine\\Software\\Thos",
        "Machine\\Software\\Thos",
        "/REGISTRY/MACHINE//software\\THOS/",
        "\\\\machine/Software\\\\thos\\",
    ] {
        assert_eq!(canon(p), want);
    }
    assert_eq!(canon("\\/\\"), "");
    assert_eq!(canon("\\Registry"), "");
    // Only one leading component is dropped.
    assert_eq!(canon("\\Registry\\Registry\\x"), "registry\\x");
}

#[test]
fn canonical_paths_open_the_same_key() {
    let mut r = Registry::new();
    let k = "\\\\Registry\\Machine\\\\Soft\\";
    r.create(k);
    assert!(r.open(&canon(k)));
    assert_eq!(canon(&canon(k)), canon(k));
}

fn report(mods: u8, keys: &[u8]) -> [u8; 8] {
    let mut r = [0u8; 8];
    r[0] = mods;
    r[2..2 + keys.len()].copy_from_slice(keys);
    r
}

#[test]
fn keys_follow_the_german_layout() {
    // Usage 0x1C is the Y key of a US board; a German one has Z there.
    assert_eq!(ascii(0x1C, false, false), b'z');
    assert_eq!(ascii(0x1D, true, false), b'Y');
    assert_eq!(ascii(0x14, false, true), b'@');
    assert_eq!(ascii(0x04, false, false), b'a');
    assert_eq!(ascii(0xFF, false, false), 0);
}

#[test]
fn typed_text_is_read() {
    let mut c = Console::new();
    assert!(!c.has_input());
    assert!(c.wait_for_input(3));
    assert!(c.wait_for_input(5));
    let (echo, woken) = c.feed_report(&report(0, &[0x04]));
    assert_eq!(echo, b"a");
    assert_eq!(woken, vec![3, 5]);
    // The key stays down.
    assert_eq!(c.feed_report(&report(0, &[0x04])).0, b"");
    c.feed_report(&report(0, &[]));
    c.feed_report(&report(2, &[0x05]));
    assert!(c.has_input());
    assert!(!c.wait_for_input(4));
    assert_eq!(c.read(10), b"aB");
    assert_eq!(c.read(10), b"");
}

#[test]
fn backspace_stops_at_what_was_read() {
    let mut c = Console::new();
    c.feed_report(&report(0, &[0x04, 0x05]));
    assert_eq!(c.read(1), b"a");
    c.feed_report(&report(0, &[]));
    assert_eq!(c.feed_report(&report(0, &[0x2A])).0, b"\x08 \x08");
    c.feed_report(&report(0, &[]));
    assert_eq!(c.feed_report(&report(0, &[0x2A])).0, b"");
    assert!(!c.has_input());
}

#[test]
fn echo_can_be_masked() {
    let mut c = Console::new();
    c.set_echo(ECHO_MASKED);
    assert_eq!(c.feed_report(&report(0, &[0x04])).0, b"*");
    c.set_echo(ECHO_NONE);
    assert_eq!(c.feed_report(&report(0, &[0x05])).0, b"");
    assert_eq!(c.read(8), b"ab");
}

#[test]
fn files_in_memory_read_back() {
    let mut fs = RamFs::init();
    let mut t = HandleTable::new();
    assert!(fs.open(&mut t, "/hello").is_none());
    let v = fs.create("/hello");
    assert_eq!(fs.lookup("/hello"), Some(v));
    let w = fs.open(&mut t, "/hello").unwrap();
    assert_eq!(fs.write(&mut t, w, b"hello"), Some(5));
    assert_eq!(fs.write(&mut t, w, b" world"), Some(6));
    let h = fs.open(&mut t, "/hello").unwrap();
    assert_eq!(fs.read(&mut t, h, 4), Some(b"hell".to_vec()));
    assert_eq!(fs.read(&mut t, h, 64), Some(b"o world".to_vec()));
    assert_eq!(fs.read(&mut t, h, 64), Some(vec![]));
    assert!(close(&mut t, h));
    assert!(!close(&mut t, h));
    assert_eq!(fs.read(&mut t, h, 1), None);
    let e = t.insert(Event::new());
    assert_eq!(fs.read(&mut t, e, 1), None);
    assert_eq!(fs.write(&mut t, e, b"x"), None);
    assert!(close(&mut t, e));
    let names: Vec<String> = fs.list().iter().map(|n| n.iter().collect()).collect();
    assert_eq!(names, vec!["/hello"]);
}

#[test]
fn files_are_listed_once_in_byte_order() {
    let made = [
        "/b", "/a", "/b", "/\u{FFFD}", "/\u{10000}", "/\u{7F}", "/\u{80}", "/\u{7FF}",
        "/\u{800}", "/a/x", "", "/ab", "/a",
    ];
    let mut fs = RamFs::init();
    let mut t = HandleTable::new();
    for p in made {
        fs.create(p);
        assert!(fs.lookup(p).is_some());
    }
    let listed = |fs: &RamFs| -> Vec<String> {
        fs.list().iter().map(|n| n.iter().collect()).collect()
    };
    let names = listed(&fs);
    let mut want: Vec<String> = made.iter().map(|p| p.to_string()).collect();
    want.sort_by(|a, b| a.as_bytes().cmp(b.as_bytes()));
    want.dedup();
    assert_eq!(names, want);
    assert_eq!(names.len(), 11);
    let h = fs.open(&mut t, "/a").unwrap();
    assert_eq!(fs.write(&mut t, h, b"text"), Some(4));
    assert_eq!(fs.read(&mut t, h, 4), Some(vec![]));
    assert!(close(&mut t, h));
    assert_eq!(listed(&fs), want);
    assert_eq!(fs.lookup("/c"), None);
}
