use uefi::proto::device_path::build::media::FilePath;
use uefi::proto::device_path::build::DevicePathBuilder;
use uefi::proto::device_path::DevicePath;
use uefi::CStr16;
use thos::boot::{Choice, Entry, Key, Menu, Node, Turn, append_file_path, boot_order, boot_var_name, collect_nvram, collect_probe, decode_utf16, draw, is_loader_path, is_os_label, known, label_present, parse_config, read_config, read_load_option, real_os_entry, resolve_default, to_units, wcscmp, wcslen, wmemchr};

fn c(s: &str) -> Vec<char> {
    s.chars().collect()
}

fn s(v: &[char]) -> String {
    v.iter().collect()
}

fn node(kind: u8, sub: u8, data: &[u8]) -> Vec<u8> {
    let len = (4 + data.len()) as u16;
    let mut b = vec![kind, sub];
    b.extend_from_slice(&len.to_le_bytes());
    b.extend_from_slice(data);
    b
}

fn wide(t: &str) -> Vec<u8> {
    t.encode_utf16().flat_map(|u| u.to_le_bytes()).collect()
}

const END: [u8; 4] = [0x7F, 0xFF, 4, 0];

/// A hard disk partition and a file on it.
fn disk_path(file: &str) -> Vec<u8> {
    let mut b = node(4, 1, &[0; 38]);
    let mut name = wide(file);
    name.extend_from_slice(&[0, 0]);
    b.extend(node(4, 4, &name));
    b.extend_from_slice(&END);
    b
}

fn option(active: bool, desc: &str, dp: &[u8]) -> Vec<u8> {
    let mut b = (active as u32).to_le_bytes().to_vec();
    b.extend_from_slice(&(dp.len() as u16).to_le_bytes());
    b.extend(wide(desc));
    b.extend_from_slice(&[0, 0]);
    b.extend_from_slice(dp);
    b.extend_from_slice(b"tail");
    b
}

#[test]
fn wide_strings_measure_and_compare() {
    assert_eq!(wcslen(&[0]), 0);
    assert_eq!(wcslen(&[65, 66, 0, 67]), 2);
    assert_eq!(wcscmp(&[65, 0], &[65, 0, 9]), 0);
    assert_eq!(wcscmp(&[65, 0], &[65, 66, 0]), -66);
    assert_eq!(wcscmp(&[0xFFFF, 0], &[0]), 0xFFFF);
    assert_eq!(wmemchr(&[1, 2, 3], 3, 2), None);
    assert_eq!(wmemchr(&[1, 2, 3, 2], 2, 4), Some(1));
}

#[test]
fn utf16_is_shown_as_far_as_the_firmware_can() {
    assert_eq!(s(&decode_utf16(&wide("THOS \u{e4}"))), "THOS \u{e4}");
    // A pair is left out, a lone surrogate is a question mark.
    assert_eq!(s(&decode_utf16(&wide("a\u{1F600}b"))), "ab");
    assert_eq!(s(&decode_utf16(&[0x00, 0xD8, 65, 0, 0x00, 0xDC, 7])), "?A?");
}

#[test]
fn variable_names_are_hexadecimal() {
    assert_eq!(s(&boot_var_name(0)), "Boot0000");
    assert_eq!(s(&boot_var_name(0x1AF9)), "Boot1AF9");
    assert_eq!(s(&boot_var_name(0xFFFF)), "BootFFFF");
    assert_eq!(boot_order(&[1, 0, 0x34, 0x12, 9]), vec![1, 0x1234]);
}

#[test]
fn load_options_are_taken_apart() {
    let dp = disk_path("\\EFI\\debian\\shimx64.efi");
    let (d, p) = read_load_option(&option(true, "Debian", &dp)).unwrap();
    assert_eq!(s(&d), "Debian");
    assert_eq!(p, dp);
    assert!(read_load_option(&option(false, "Debian", &dp)).is_none());
    assert!(read_load_option(&[1, 0, 0, 0, 0]).is_none());
    let mut cut = option(true, "Debian", &dp);
    cut.truncate(30);
    assert!(read_load_option(&cut).is_none());
}

#[test]
fn firmware_programs_are_no_systems() {
    for d in ["", "UEFI QEMU DVD", "THOS Boot 1", "UiApp", "EFI Internal Shell", "Boot Manager Menu", "BootManager", "EnrollDefaultKeys", "Firmware Setup"] {
        assert!(!is_os_label(&c(d)), "{}", d);
    }
    assert!(is_os_label(&c("Debian")));
    assert!(is_os_label(&c("My UEFI disk")));
}

#[test]
fn loaders_have_to_be_on_a_disk() {
    let efi = "\\EFI\\x\\a.efi";
    assert!(real_os_entry(&disk_path(efi), &c("X")));
    assert!(!real_os_entry(&disk_path(efi), &c("Shell")));
    assert!(!real_os_entry(&disk_path("\\vmlinuz"), &c("X")));
    let mut fw = node(4, 7, &[0; 16]);
    fw.extend(disk_path(efi));
    assert!(!real_os_entry(&fw, &c("X")));
    let mut no_disk = node(4, 4, &wide("a.efi"));
    no_disk.extend_from_slice(&END);
    assert!(!real_os_entry(&no_disk, &c("X")));
    // Malformed: no end node, or a node that is too short or too long.
    assert!(!real_os_entry(&disk_path(efi)[..20], &c("X")));
    assert!(!real_os_entry(&[4, 1, 3, 0], &c("X")));
    assert!(!real_os_entry(&[], &c("X")));
}

#[test]
fn loader_paths_are_judged_by_their_nodes() {
    let n = |kind: u8, sub: u8, data: &[u8]| Node { kind, sub, data: data.to_vec() };
    let efi = [0x61u8, 0, 0x2E, 0, 0x65, 0, 0x66, 0, 0x69, 0, 0, 0];
    assert!(is_loader_path(&vec![n(1, 1, &[]), n(4, 1, &[]), n(4, 4, &efi)]));
    assert!(is_loader_path(&vec![n(4, 1, &[]), n(4, 4, &efi[..10])]));
    assert!(!is_loader_path(&vec![n(4, 1, &[]), n(4, 4, &efi[..8])]));
    assert!(!is_loader_path(&vec![n(4, 1, &[]), n(4, 4, &[0x2E, 0, 0x65, 0])]));
    assert!(!is_loader_path(&vec![n(4, 1, &[]), n(4, 4, &efi), n(1, 1, &[])]));
    assert!(!is_loader_path(&vec![n(4, 1, &[]), n(4, 6, &[]), n(4, 4, &efi)]));
    assert!(!is_loader_path(&vec![]));
}

#[test]
fn file_paths_are_appended() {
    let mut vol = node(4, 1, &[7; 38]);
    vol.extend_from_slice(&END);
    let mut want = node(4, 1, &[7; 38]);
    let mut name = wide("\\a");
    name.extend_from_slice(&[0, 0]);
    want.extend(node(4, 4, &name));
    want.extend_from_slice(&END);
    assert_eq!(append_file_path(&vol, &c("\\a")), Some(want));
    assert_eq!(append_file_path(&vol, &c("\u{1F600}")), None);
    assert_eq!(append_file_path(&vol, &c("a\u{0}b")), None);
    assert_eq!(append_file_path(&vol, &vec!['x'; 40_000]), None);
    assert_eq!(append_file_path(&[1, 2], &c("\\a")), None);
    assert_eq!(to_units(&c("\u{e4}")), Some(vec![0xE4, 0]));
}

/// The same path, put together by the firmware crate.
fn built(vol: &[u8], name: &[u16]) -> Option<Vec<u8>> {
    let volume = <&DevicePath>::try_from(vol).ok()?;
    let path_name = CStr16::from_u16_with_nul(name).ok()?;
    let mut buf = Vec::new();
    let mut b = DevicePathBuilder::with_vec(&mut buf);
    for n in volume.node_iter() {
        b = b.push(&n).ok()?;
    }
    let dp = b.push(&FilePath { path_name }).ok()?.finalize().ok()?;
    Some(dp.as_bytes().to_vec())
}

#[test]
fn appended_paths_are_those_of_the_firmware() {
    let one = [node(4, 1, &[7; 38]), END.to_vec()].concat();
    let two = [node(2, 1, &[1, 2, 3, 4, 5, 6, 7, 8]), node(1, 1, &[0, 3]), one.clone()].concat();
    let none = END.to_vec();
    let cut = one[..20].to_vec();
    for vol in [one, two, none, cut, vec![]] {
        for name in ["\\EFI\\thos\\thos.efi", "", "\u{e4}", "a\u{0}b"] {
            let units = to_units(&c(name)).unwrap();
            assert_eq!(append_file_path(&vol, &c(name)), built(&vol, &units));
        }
    }
    let vol = END.to_vec();
    for n in [32_764, 32_765, 40_000] {
        let name = vec!['x'; n];
        let units = to_units(&name).unwrap();
        assert_eq!(append_file_path(&vol, &name), built(&vol, &units));
    }
}

#[test]
fn entries_are_offered_once() {
    let dp = disk_path("\\EFI\\debian\\shimx64.efi");
    let mut out = Vec::new();
    collect_nvram(&mut out, &option(true, "Debian", &dp), &None);
    collect_nvram(&mut out, &option(true, "Debian", &dp), &None);
    collect_nvram(&mut out, &option(true, "Shell", &dp), &None);
    collect_nvram(&mut out, &option(true, "Other", &dp), &Some(dp.clone()));
    assert_eq!(out.len(), 1);
    assert!(out[0].from_nvram);
    assert!(label_present(&out, &c("Debian")));
    let mut vol = node(4, 1, &[0; 38]);
    vol.extend_from_slice(&END);
    for (path, label) in known() {
        collect_probe(&mut out, &vol, path, label, label != "Fedora");
    }
    let labels: Vec<String> = out.iter().map(|e| s(&e.label)).collect();
    assert_eq!(
        labels,
        vec!["Debian", "Windows Boot Manager", "THOS", "systemd-boot", "Debian (GRUB)", "Devuan (GRUB)", "Ubuntu", "Ubuntu (GRUB)", "GRUB"]
    );
    assert!(!out[1].from_nvram);
    assert!(real_os_entry(&out[2].dp, &c("THOS")) == false);
    assert!(real_os_entry(&out[3].dp, &c("systemd-boot")));
}

#[test]
fn configuration_is_read_line_by_line() {
    let (t, d) = parse_config(&c("timeout = 9\r\ndefault=2\nx=1\nnonsense\n"));
    assert_eq!(t, 9);
    assert!(matches!(d, Choice::Index(2)));
    let (t, d) = parse_config(&c("timeout=soon\ndefault = Debian "));
    assert_eq!(t, 5);
    assert!(matches!(d, Choice::Match(m) if s(&m) == "Debian"));
    let (_, d) = parse_config(&c("default=\u{1F600}"));
    assert!(matches!(d, Choice::First));
    let (t, d) = read_config(&None);
    assert_eq!(t, 5);
    assert!(matches!(d, Choice::First));
    let (t, _) = read_config(&Some(b"timeout=0\n\xFF".to_vec()));
    assert_eq!(t, 0);
}

fn entries(labels: &[&str]) -> Vec<Entry> {
    labels.iter().map(|l| Entry { label: c(l), dp: vec![], from_nvram: *l == "B" }).collect()
}

#[test]
fn choices_are_resolved() {
    let e = entries(&["Windows", "Debian GNU", "Debian"]);
    assert_eq!(resolve_default(&e, &Choice::Index(1)), 1);
    assert_eq!(resolve_default(&e, &Choice::Index(9)), 2);
    assert_eq!(resolve_default(&e, &Choice::First), 0);
    assert_eq!(resolve_default(&e, &Choice::Match(c("Debian"))), 1);
    assert_eq!(resolve_default(&e, &Choice::Match(c("debian"))), 0);
}

#[test]
fn countdown_boots_the_selection() {
    let mut m = Menu::new(2, 1);
    assert_eq!(m.countdown(), Some(2));
    for _ in 0..19 {
        assert!(m.turn(Key::Nothing, 3) == Turn { wait_ms: 100, pick: None });
    }
    assert_eq!(m.countdown(), Some(1));
    assert!(m.turn(Key::Nothing, 3) == Turn { wait_ms: 100, pick: Some(1) });
    let mut m = Menu::new(0, 0);
    assert_eq!(m.countdown(), None);
    assert!(m.turn(Key::Nothing, 3) == Turn { wait_ms: 30, pick: None });
    assert_eq!(Menu::new(u64::MAX, 0).ticks, u64::MAX);
}

#[test]
fn keys_move_and_pick() {
    let mut m = Menu::new(5, 0);
    assert!(m.turn(Key::Up, 3) == Turn { wait_ms: 30, pick: None });
    assert_eq!((m.sel, m.counting), (2, false));
    m.turn(Key::Down, 3);
    assert_eq!(m.sel, 0);
    assert!(m.turn(Key::Char('2'), 3) == Turn { wait_ms: 0, pick: Some(2) });
    assert!(m.turn(Key::Char('3'), 3) == Turn { wait_ms: 30, pick: None });
    assert!(m.turn(Key::Char('\r'), 3) == Turn { wait_ms: 0, pick: Some(0) });
    assert!(m.turn(Key::Escape, 3) == Turn { wait_ms: 0, pick: Some(0) });
    let mut m = Menu::new(5, 1);
    m.turn(Key::Char('x'), 3);
    assert!(!m.counting);
}

#[test]
fn screen_is_drawn_when_it_changes() {
    let mut m = Menu::new(5, 0);
    assert!(m.refresh());
    assert!(!m.refresh());
    m.turn(Key::Nothing, 2);
    assert!(!m.refresh());
    m.turn(Key::Down, 2);
    assert!(m.refresh());
}

#[test]
fn screen_shows_the_entries() {
    let e = entries(&["A", "B"]);
    let lines: Vec<String> = draw(&e, 1, Some(4)).iter().map(|l| s(l)).collect();
    assert_eq!(
        lines,
        vec![
            "  THOS boot picker",
            "  ----------------",
            "    0. [disk ] A",
            "  > 1. [nvram] B",
            "",
            "  booting `B` in 4s   (up/down = choose, enter = now)",
        ]
    );
    let lines = draw(&e, 0, None);
    assert_eq!(s(&lines[5]), "  up/down = choose, enter = boot, digit = boot that entry");
}
