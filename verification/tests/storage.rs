use thos::console::Console;
use thos::cred::{
    fallback_rand64, hmac_sha256, load, pbkdf2_hmac_sha256, save, store_exists, Cred, SaveStep,
};
use thos::ext2;
use thos::fat::Fat;
use thos::file::{render_dir, FileTable, Got, Put, EBADF, EINVAL, EPIPE, ESPIPE, PIPE_CAP};
use thos::gpt::{find_esp, find_partition, ESP_TYPE_GUID};
use thos::mm::{init, Entry, FrameAllocator};
use thos::process::Process;
use thos::sys::{list_dir, Caller, Outcome, Sys, UserFrame};
use thos::syscall_fs::sys_getdents64;
use thos::task::Task;
use thos::login::{advance, after_save, establish, first_run_setup, login, name_is_good, Gate, Line, Setup};

fn put(b: &mut [u8], at: usize, v: &[u8]) {
    b[at..at + v.len()].copy_from_slice(v);
}

fn inode(b: &mut [u8], ino: usize, mode: u16, size: u32, blocks: &[u32]) {
    let at = 5 * 1024 + (ino - 1) * 128;
    put(b, at, &mode.to_le_bytes());
    put(b, at + 4, &size.to_le_bytes());
    for (i, n) in blocks.iter().enumerate() {
        put(b, at + 40 + 4 * i, &n.to_le_bytes());
    }
}

fn dir(entries: &[(u32, &str)]) -> Vec<u8> {
    let mut b = Vec::new();
    for (i, (ino, name)) in entries.iter().enumerate() {
        let mut len = 8 + (name.len() + 3) / 4 * 4;
        if i + 1 == entries.len() {
            len = 1024 - b.len();
        }
        let start = b.len();
        b.extend_from_slice(&ino.to_le_bytes());
        b.extend_from_slice(&(len as u16).to_le_bytes());
        b.push(name.len() as u8);
        b.push(0);
        b.extend_from_slice(name.as_bytes());
        b.resize(start + len, 0);
    }
    b
}

/// A volume of 1 KiB blocks: `/etc/motd`, `/big` with an indirect block, and
/// a credential if one is given.
fn volume(cred: Option<&[u8]>) -> Vec<u8> {
    let mut b = vec![0u8; 64 * 1024];
    put(&mut b, 1024 + 20, &1u32.to_le_bytes());
    put(&mut b, 1024 + 40, &64u32.to_le_bytes());
    put(&mut b, 1024 + 56, &0xEF53u16.to_le_bytes());
    put(&mut b, 1024 + 76, &1u32.to_le_bytes());
    put(&mut b, 1024 + 88, &128u16.to_le_bytes());
    put(&mut b, 2048 + 8, &5u32.to_le_bytes());
    inode(&mut b, 2, 0x41ED, 1024, &[20]);
    put(&mut b, 20 * 1024, &dir(&[(2, "."), (2, ".."), (12, "etc"), (14, "big")]));
    inode(&mut b, 12, 0x41ED, 1024, &[21]);
    put(&mut b, 21 * 1024, &dir(&[(12, "."), (2, ".."), (13, "motd"), (15, "thos")]));
    inode(&mut b, 13, 0x81A4, 6, &[22]);
    put(&mut b, 22 * 1024, b"hello\n");
    inode(&mut b, 15, 0x41ED, 1024, &[23]);
    let inside: Vec<(u32, &str)> = match cred {
        Some(_) => vec![(15, "."), (12, ".."), (16, "admin.cred")],
        None => vec![(15, "."), (12, "..")],
    };
    put(&mut b, 23 * 1024, &dir(&inside));
    if let Some(c) = cred {
        inode(&mut b, 16, 0x8180, c.len() as u32, &[24]);
        put(&mut b, 24 * 1024, c);
    }
    // 13 blocks: twelve direct ones and one behind the indirect block 40.
    let blocks: Vec<u32> = (25..37).chain([40]).collect();
    inode(&mut b, 14, 0x81A4, 13 * 1024 - 5, &blocks);
    for n in 25..37usize {
        b[n * 1024..(n + 1) * 1024].fill(n as u8);
    }
    put(&mut b, 40 * 1024, &41u32.to_le_bytes());
    b[41 * 1024..42 * 1024].fill(99);
    b
}

#[test]
fn files_are_read_by_path() {
    let d = volume(None);
    let fs = ext2::open(&d).unwrap();
    assert_eq!((fs.block_size, fs.inode_size, fs.inodes_per_group), (1024, 128, 64));
    assert_eq!(fs.read_path(&d, "/etc/motd"), Ok(Some(b"hello\n".to_vec())));
    assert_eq!(fs.read_path(&d, "etc//motd"), Ok(Some(b"hello\n".to_vec())));
    assert_eq!(fs.read_path(&d, "/etc/nothing"), Ok(None));
    assert_eq!(fs.path_lookup(&d, "/"), Ok(Some(2)));
    assert_eq!(fs.path_lookup(&d, "/etc/motd/x").ok().flatten(), None);
    let i = fs.read_inode(&d, 13).unwrap();
    assert_eq!((i.mode, i.size), (0x81A4, 6));
}

#[test]
fn indirect_blocks_are_followed() {
    let d = volume(None);
    let fs = ext2::open(&d).unwrap();
    let f = fs.read_path(&d, "/big").unwrap().unwrap();
    assert_eq!(f.len(), 13 * 1024 - 5);
    assert_eq!((f[0], f[1024], f[11 * 1024], f[12 * 1024]), (25, 26, 36, 99));
}

#[test]
fn disks_without_a_volume_are_refused() {
    let mut d = volume(None);
    d[1024 + 56] = 0;
    assert_eq!(ext2::open(&d).err(), Some("ext2 magic not found"));
    assert!(ext2::open(&[0u8; 100]).is_err());
}

/// A FAT16 volume with `README.TXT` and `EFI/BOOT/X.EFI`.
fn fat16() -> Vec<u8> {
    let mut b = vec![0u8; 512 * 5000];
    put(&mut b, 11, &512u16.to_le_bytes());
    b[13] = 1;
    put(&mut b, 14, &1u16.to_le_bytes());
    b[16] = 1;
    put(&mut b, 17, &16u16.to_le_bytes());
    put(&mut b, 19, &5000u16.to_le_bytes());
    put(&mut b, 22, &20u16.to_le_bytes());
    put(&mut b, 510, &[0x55, 0xAA]);
    let fat = 512;
    let root = 512 * 21;
    let data = 512 * 22;
    let entry = |name: &[u8; 11], attr: u8, clus: u16, size: u32| {
        let mut e = vec![0u8; 32];
        put(&mut e, 0, name);
        e[11] = attr;
        put(&mut e, 26, &clus.to_le_bytes());
        put(&mut e, 28, &size.to_le_bytes());
        e
    };
    put(&mut b, root, &entry(b"README  TXT", 0x20, 2, 600));
    put(&mut b, root + 32, &entry(b"EFI        ", 0x10, 4, 0));
    // README is clusters 2 and 3.
    put(&mut b, fat + 4, &3u16.to_le_bytes());
    put(&mut b, fat + 6, &0xFFFFu16.to_le_bytes());
    put(&mut b, fat + 8, &0xFFFFu16.to_le_bytes());
    put(&mut b, fat + 10, &0xFFFFu16.to_le_bytes());
    put(&mut b, fat + 12, &0xFFFFu16.to_le_bytes());
    b[data..data + 512].fill(b'a');
    b[data + 512..data + 600].fill(b'b');
    put(&mut b, data + 2 * 512, &entry(b"BOOT       ", 0x10, 5, 0));
    put(&mut b, data + 3 * 512, &entry(b"X       EFI", 0x20, 6, 3));
    put(&mut b, data + 4 * 512, b"efi");
    b
}

#[test]
fn fat_names_ignore_case() {
    let d = fat16();
    let f = Fat::open(&d, 0).unwrap();
    assert!(!f.is_fat32);
    let r = f.read_path(&d, "readme.txt").unwrap().unwrap();
    assert_eq!(r.len(), 600);
    assert_eq!((r[511], r[512]), (b'a', b'b'));
    assert_eq!(f.read_path(&d, "/efi/Boot/x.efi"), Ok(Some(b"efi".to_vec())));
    assert_eq!(f.read_path(&d, "/efi/none"), Ok(None));
    assert!(Fat::open(&[0u8; 512], 0).is_err());
}

#[test]
fn names_that_are_no_text_are_passed_over() {
    let mut d = fat16();
    let root = 512 * 21;
    let second: Vec<u8> = d[root + 32..root + 64].to_vec();
    put(&mut d, root + 64, &second);
    d[root + 32] = 0xFF;
    let f = Fat::open(&d, 0).unwrap();
    assert_eq!(f.read_path(&d, "/efi/Boot/x.efi"), Ok(Some(b"efi".to_vec())));
}

#[test]
fn directories_are_listed() {
    let d = volume(None);
    let fs = ext2::open(&d).unwrap();
    let es = fs.read_dir(&d, 12).unwrap();
    let names: Vec<(u64, u8, &[u8])> = es.iter().map(|e| (e.0, e.1, e.2.as_slice())).collect();
    let want: Vec<(u64, u8, &[u8])> =
        vec![(12, 0, b"."), (2, 0, b".."), (13, 0, b"motd"), (15, 0, b"thos")];
    assert_eq!(names, want);
    assert!(fs.read_dir(&d, 60_000).is_err());
}

#[test]
fn partitions_are_found_by_type() {
    let mut d = vec![0u8; 512 * 40];
    put(&mut d, 512, b"EFI PART");
    put(&mut d, 512 + 72, &2u64.to_le_bytes());
    put(&mut d, 512 + 80, &4u32.to_le_bytes());
    put(&mut d, 512 + 84, &128u32.to_le_bytes());
    assert_eq!(find_esp(&d, 0), Ok(None));
    put(&mut d, 1024 + 128, &ESP_TYPE_GUID);
    put(&mut d, 1024 + 128 + 32, &34u64.to_le_bytes());
    assert_eq!(find_esp(&d, 0), Ok(Some(34)));
    assert_eq!(find_partition(&d, 0, &[9; 16]), Ok(None));
    assert_eq!(find_esp(&d[..512], 0), Err("gpt disk read"));
    d[512] = b'X';
    assert_eq!(find_esp(&d, 0), Ok(None));
}

fn hex(b: &[u8]) -> String {
    b.iter().map(|x| format!("{:02x}", x)).collect()
}

#[test]
fn digests_match_published_vectors() {
    assert_eq!(
        hex(&hmac_sha256(&[0x0b; 20], b"Hi There")),
        "b0344c61d8db38535ca8afceaf0bf12b881dc200c9833da726e9376c2e32cff7"
    );
    // A key longer than a block is hashed first.
    assert_eq!(
        hex(&hmac_sha256(&[0xaa; 131], b"Test Using Larger Than Block-Size Key - Hash Key First")),
        "60e431591ee0b67f0d8a26aacbf5b77f8e0bc6213728c5140546040f0ee37f54"
    );
    assert_eq!(
        hex(&pbkdf2_hmac_sha256(b"password", b"salt", 1)),
        "120fb6cffcf8b32c43e7225256c4f837a86548c92ccc35480805987cb70be17b"
    );
    assert_eq!(
        hex(&pbkdf2_hmac_sha256(b"password", b"salt", 4096)),
        "c5e478d59288c841aa530db6845c4c8d962893a001ce4e11a4963873aa98134a"
    );
}

#[test]
fn own_password_is_accepted() {
    let c = Cred::create("admin", "secret!", (1, 2));
    assert!(c.verify("admin", "secret!"));
}

#[test]
fn wrong_passwords_are_refused() {
    let c = Cred::create("admin", "secret!", (1, 2));
    assert!(!c.verify("admin", "secret?"));
}

#[test]
fn stored_credential_reads_back() {
    let c = Cred::create("admin", "pass word", (3, 4));
    let b = c.serialize();
    let text = String::from_utf8(b.clone()).unwrap();
    assert!(text.starts_with("thos-cred v1\nname=admin\nrounds=200000\nsalt=0300000000000000"));
    let d = Cred::parse(&b).unwrap();
    assert_eq!(d.serialize(), b);
    assert!(Cred::parse(b"thos-cred v2\n").is_none());
    assert!(Cred::parse(&[0xFF]).is_none());
    let disk = volume(Some(&b));
    let fs = ext2::open(&disk).unwrap();
    assert_eq!(store_exists(&fs, &disk), Ok(true));
    let back = match load(&fs, &disk) {
        Ok(Some(c)) => c,
        _ => panic!("load"),
    };
    assert_eq!(back.serialize(), b);
    assert!(matches!(establish(&fs, &disk), Ok(Gate::Name { .. })));
    match login(&back, "admin", "pass word") {
        Some(s) => assert_eq!((s.name.as_str(), s.uid), ("admin", 1000)),
        None => panic!("refused"),
    }
}

#[test]
fn first_start_asks_for_an_administrator() {
    let disk = volume(None);
    let fs = ext2::open(&disk).unwrap();
    assert_eq!(store_exists(&fs, &disk), Ok(false));
    assert!(matches!(establish(&fs, &disk), Ok(Gate::Setup(Setup::Name))));
    let disk = volume(Some(b"garbage"));
    let fs = ext2::open(&disk).unwrap();
    assert!(matches!(establish(&fs, &disk), Ok(Gate::Failed("credential store unreadable"))));
}

#[test]
fn setup_is_followed_by_a_login() {
    let seed = (1, 2);
    let mut g = Gate::Setup(Setup::Name);
    for line in ["root", "secret", "secret"] {
        let (next, said) = advance(g, line, seed);
        assert!(said.is_none());
        g = next;
    }
    let stored = match &g {
        Gate::Save { cred, session } => {
            assert_eq!((session.name.as_str(), session.uid), ("root", 1000));
            cred.serialize()
        }
        _ => panic!("nothing to save"),
    };
    assert!(matches!(after_save(Gate::Failed("x"), Ok(()), None), Gate::Failed("x")));
    let g = after_save(g, Ok(()), Some(stored));
    assert!(matches!(g, Gate::Name { .. }));
    let (g, _) = advance(g, "root", seed);
    let (g, said) = advance(g, "wrong", seed);
    assert_eq!(said, Some("  login incorrect"));
    assert!(matches!(g, Gate::Name { .. }));
    let (g, _) = advance(g, "root", seed);
    match advance(g, "secret", seed).0 {
        Gate::Open(s) => assert_eq!((s.name.as_str(), s.uid), ("root", 1000)),
        _ => panic!("refused"),
    }
}

#[test]
fn setup_asks_until_it_is_right() {
    let (st, e) = first_run_setup(Setup::Name, "");
    assert_eq!(e, Some("  ! 1-32 printable ASCII chars"));
    let (st, e) = first_run_setup(st, "root");
    assert!(e.is_none());
    let (st, e) = first_run_setup(st, "abc");
    assert_eq!(e, Some("  ! at least 4 characters"));
    let (st, _) = first_run_setup(st, "abcd");
    let (st, e) = first_run_setup(st, "abce");
    assert_eq!(e, Some("  ! passwords do not match"));
    let (st, _) = first_run_setup(st, "abcd");
    let (st, e) = first_run_setup(st, "abcd");
    assert!(e.is_none());
    match st {
        Setup::Done { name, password } => assert_eq!((name.as_str(), password.as_str()), ("root", "abcd")),
        _ => panic!("not done"),
    }
    assert!(name_is_good(&['a'; 32]));
    assert!(!name_is_good(&['a'; 33]));
    assert!(!name_is_good(&['\u{e4}']));
}

#[test]
fn typed_lines_take_backspace() {
    let mut l = Line::new();
    for b in b"ab\x08c" {
        assert!(!l.feed(*b));
    }
    assert!(l.feed(b'\n'));
    assert_eq!(l.text(), "ac");
}

#[test]
fn saving_makes_the_directories_first() {
    let c = Cred::parse(
        b"thos-cred v1\nname=a\nrounds=200000\nsalt=00000000000000000000000000000000\nhash=0000000000000000000000000000000000000000000000000000000000000000\n",
    )
    .unwrap();
    assert!(matches!(save(&c, 0, Ok(())), SaveStep::Mkdir("/etc")));
    assert!(matches!(save(&c, 1, Err("already exists")), SaveStep::Mkdir("/etc/thos")));
    assert!(matches!(save(&c, 1, Err("no space")), SaveStep::Failed("no space")));
    match save(&c, 2, Ok(())) {
        SaveStep::Write(p, b) => {
            assert_eq!(p, "/etc/thos/admin.cred");
            assert_eq!(b, c.serialize());
        }
        _ => panic!("write"),
    }
    assert!(matches!(save(&c, 3, Ok(())), SaveStep::Done));
    assert!(matches!(save(&c, 3, Err("already exists")), SaveStep::Failed(_)));
    assert_ne!(fallback_rand64(1, 2), fallback_rand64(1, 3));
}

#[test]
fn pipes_are_first_in_first_out() {
    let mut t = FileTable::new();
    let mut con = Console::new();
    let mut out = Vec::new();
    let (r, w) = t.pipe();
    assert!(matches!(t.read(&mut con, r, 4), Got::Block));
    assert!(matches!(t.write(&mut out, w, b"abc", 0), Put::Done(3)));
    assert!(matches!(t.write(&mut out, w, b"de", 0), Put::Done(2)));
    assert!(matches!(t.read(&mut con, r, 4), Got::Bytes(b) if b == b"abcd"));
    assert!(matches!(t.read(&mut con, r, 4), Got::Bytes(b) if b == b"e"));
    assert!(matches!(t.write(&mut out, r, b"x", 0), Put::Done(EBADF)));
    assert_eq!(t.seek(r, 0, 0), ESPIPE);
    let big = vec![7u8; PIPE_CAP + 10];
    assert!(matches!(t.write(&mut out, w, &big, 0), Put::Block(n) if n == PIPE_CAP as u64));
}

#[test]
fn closed_pipes_end() {
    let mut t = FileTable::new();
    let mut con = Console::new();
    let mut out = Vec::new();
    let (r, w) = t.pipe();
    t.retain(w);
    t.release(w);
    assert!(matches!(t.read(&mut con, r, 1), Got::Block));
    t.release(w);
    assert!(matches!(t.read(&mut con, r, 1), Got::Bytes(b) if b.is_empty()));
    let (r, w) = t.pipe();
    t.release(r);
    assert!(matches!(t.write(&mut out, w, b"x", 0), Put::Done(EPIPE)));
}

#[test]
fn files_in_memory_seek() {
    let mut t = FileTable::new();
    let mut con = Console::new();
    let f = t.add_mem(b"0123456789".to_vec());
    assert!(matches!(t.read(&mut con, f, 4), Got::Bytes(b) if b == b"0123"));
    assert_eq!(t.seek(f, -2, 1), 2);
    assert!(matches!(t.read(&mut con, f, 2), Got::Bytes(b) if b == b"23"));
    assert_eq!(t.seek(f, -1, 2), 9);
    assert_eq!(t.seek(f, -1, 0), -22);
    assert_eq!(t.stat(f).1, 10);
}

#[test]
fn consoles_show_what_is_written() {
    let mut t = FileTable::new();
    let mut out = Vec::new();
    let c = t.add_console(true);
    assert!(matches!(t.write(&mut out, c, b"hi", 0), Put::Done(2)));
    assert_eq!(out, b"hi");
    let k = t.add_keyboard();
    let mut con = Console::new();
    assert!(matches!(t.read(&mut con, k, 1), Got::Block));
}

#[test]
fn directories_are_listed_in_whole_entries() {
    let blob = render_dir(&[(2, 4, b".".to_vec()), (13, 8, b"motd".to_vec())]);
    assert_eq!(blob.len(), 48);
    assert_eq!(&blob[..8], &2u64.to_le_bytes());
    assert_eq!(&blob[16..20], &[24, 0, 4, b'.']);
    let mut t = FileTable::new();
    let d = t.add_dir(blob.clone());
    assert!(matches!(t.getdents64(d, 30), Got::Bytes(b) if b == blob[..24]));
    assert!(matches!(t.getdents64(d, 30), Got::Bytes(b) if b == blob[24..]));
    assert!(matches!(t.getdents64(d, 30), Got::Bytes(b) if b.is_empty()));
}

#[test]
fn slashes_may_be_repeated() {
    let d = volume(None);
    let fs = ext2::open(&d).unwrap();
    for p in ["/etc/motd", "etc/motd", "//etc///motd/", "/etc/motd//"] {
        assert_eq!(fs.path_lookup(&d, p), Ok(Some(13)));
    }
    for p in ["", "/", "///"] {
        assert_eq!(fs.path_lookup(&d, p), Ok(Some(2)));
    }
    assert_eq!(fs.path_lookup(&d, "/etc"), Ok(Some(12)));
    assert_eq!(fs.path_lookup(&d, "/etc/.."), Ok(Some(2)));
    assert_eq!(fs.path_lookup(&d, "/nowhere/motd"), Ok(None));
}

#[test]
fn first_entry_of_a_name_counts() {
    let mut d = volume(None);
    put(&mut d, 21 * 1024, &dir(&[(0, "motd"), (14, "Motd"), (13, "motd"), (15, "motd")]));
    let fs = ext2::open(&d).unwrap();
    assert_eq!(fs.path_lookup(&d, "/etc/motd"), Ok(Some(13)));
    let names: Vec<u64> = fs.read_dir(&d, 12).unwrap().iter().map(|e| e.0).collect();
    assert_eq!(names, vec![14, 13, 15]);
}

#[test]
fn fat_separators_may_be_exchanged() {
    let d = fat16();
    let f = Fat::open(&d, 0).unwrap();
    for p in ["efi/boot/x.efi", "\\EFI\\BOOT\\X.EFI", "//efi\\/Boot//x.efi\\", "/efi/boot\\x.EFI/"] {
        assert_eq!(f.read_path(&d, p), Ok(Some(b"efi".to_vec())));
    }
    for p in ["", "/", "\\/\\"] {
        assert_eq!(f.read_path(&d, p), Ok(None));
    }
    assert_eq!(f.read_path(&d, "/efi/boot"), Ok(None));
    assert_eq!(f.read_path(&d, "/readme.txt/x"), Ok(None));
}

#[test]
fn opened_directories_are_read_back() {
    let mut fa = FrameAllocator::new();
    init(&mut fa, &[Entry { base: 0x10_0000, length: 8 * 4096, usable: true }]);
    let mut space = Process::new(0);
    let buf = space.mmap_anon(&mut fa, 4096).unwrap();
    let d = volume(None);
    let entries = ext2::open(&d).unwrap().read_dir(&d, 12).unwrap();
    let want = render_dir(&entries);
    let mut s = Sys::new(fa, d, 1);
    let mut t = Task::new(&mut s.files, 1, 0, 0, space);
    let frame = UserFrame {
        r15: 0, r14: 0, r13: 0, r12: 0, rbp: 0, rbx: 0, r11: 0, r10: 0, r9: 0, r8: 0, rax: 0,
        rdx: 0, rsi: 0, rdi: 0, rip: 0, rflags: 0x202, rsp: 0, cs: 0x2B, ss: 0x23,
    };
    let c = Caller { frame, tid: 1, fsbase: 0, gsbase: 0, cs: 0x2B, ss: 0x23 };
    assert!(matches!(list_dir(&c, &mut t, &mut s, 12), Outcome::Return(3)));
    let short = want.len() as u64 - 1;
    let first = sys_getdents64(&c, &mut t, &mut s, 3, buf, 30);
    assert!(matches!(first, Outcome::Return(24)));
    assert_eq!(t.load_bytes(buf, 24), Some(want[..24].to_vec()));
    let rest = sys_getdents64(&c, &mut t, &mut s, 3, buf, short);
    assert!(matches!(rest, Outcome::Return(n) if n as usize == want.len() - 24));
    assert_eq!(t.load_bytes(buf, want.len() as u64 - 24), Some(want[24..].to_vec()));
    assert!(matches!(sys_getdents64(&c, &mut t, &mut s, 3, buf, 4096), Outcome::Return(0)));
    assert!(matches!(list_dir(&c, &mut t, &mut s, 12), Outcome::Return(4)));
    let none = sys_getdents64(&c, &mut t, &mut s, 4, buf, 8);
    assert!(matches!(none, Outcome::Return(e) if e == EINVAL));
    let all = sys_getdents64(&c, &mut t, &mut s, 4, buf, 4096);
    assert!(matches!(all, Outcome::Return(n) if n as usize == want.len()));
    assert_eq!(t.load_bytes(buf, want.len() as u64), Some(want));
    assert!(matches!(list_dir(&c, &mut t, &mut s, 0), Outcome::Panic(_)));
}

#[test]
fn password_hashes_are_one_block() {
    for p in ["", "hunter2", "a much longer password than any block of the digest, which is 64 bytes"] {
        assert_eq!(pbkdf2_hmac_sha256(p.as_bytes(), b"salt", 2).len(), 32);
    }
}
