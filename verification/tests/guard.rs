use thos::guard::{decode, try_tarnod_exec, ExecEvent, Pending, EVENT_LEN};

#[test]
fn comm_str_stops_at_nul() {
    let mut ev = ExecEvent::zeroed();
    ev.comm[..4].copy_from_slice(b"java");
    assert_eq!(ev.comm_str(), "java");
}

#[test]
fn filename_str_respects_filename_len() {
    let mut ev = ExecEvent::zeroed();
    let path = b"/usr/bin/java";
    ev.filename[..path.len()].copy_from_slice(path);
    ev.filename_len = path.len() as u16;
    assert_eq!(ev.filename_str(), "/usr/bin/java");
}

#[test]
fn zeroed_event_has_empty_strings_where_expected() {
    let ev = ExecEvent::zeroed();
    assert_eq!(ev.comm_str(), "");
    assert_eq!(ev.filename_str(), "");
}

#[test]
fn full_name_without_nul_is_kept() {
    let mut ev = ExecEvent::zeroed();
    ev.comm = *b"0123456789abcdef";
    assert_eq!(ev.comm_str(), "0123456789abcdef");
}

#[test]
fn names_that_are_no_text_are_marked() {
    let mut ev = ExecEvent::zeroed();
    ev.comm[0] = 0xFF;
    assert_eq!(ev.comm_str(), "<invalid-utf8>");
    ev.filename[0] = 0xC3;
    ev.filename_len = 1;
    assert_eq!(ev.filename_str(), "<invalid-utf8>");
}

#[test]
fn closing_nul_of_a_path_is_cut() {
    let mut ev = ExecEvent::zeroed();
    ev.filename[..5].copy_from_slice(b"/sh\0x");
    ev.filename_len = 4;
    assert_eq!(ev.filename_str(), "/sh");
    ev.filename_len = 60_000;
    ev.filename = [b'a'; 128];
    assert_eq!(ev.filename_str().len(), 128);
}

/// A record whose path descriptor is at byte 8.
fn record(at: u16, len: u16, tail: &[u8]) -> Vec<u8> {
    let mut r = vec![0u8; 12];
    r[8..10].copy_from_slice(&at.to_le_bytes());
    r[10..12].copy_from_slice(&len.to_le_bytes());
    r.extend_from_slice(tail);
    r
}

#[test]
fn records_become_events() {
    let r = record(12, 8, b"/bin/ls\0");
    let e = try_tarnod_exec(0x0000_1234_0000_5678, 0x0000_0001_0000_03E8, Some(*b"ls\0\0\0\0\0\0\0\0\0\0\0\0\0\0"), &r)
        .expect("descriptor is there");
    assert_eq!(e.pid, 0x1234);
    assert_eq!(e.uid, 1000);
    assert_eq!(e.comm_str(), "ls");
    assert_eq!(e.filename_len, 8);
    assert_eq!(e.filename_str(), "/bin/ls");
}

#[test]
fn records_too_short_for_a_path_give_nothing() {
    assert!(try_tarnod_exec(0, 0, None, &[0u8; 11]).is_none());
}

#[test]
fn long_paths_are_cut_and_short_records_padded() {
    let long = vec![b'x'; 300];
    let e = try_tarnod_exec(0, 0, None, &record(12, 300, &long)).unwrap();
    assert_eq!(e.filename_len, 128);
    assert!(e.filename.iter().all(|&b| b == b'x'));
    let e = try_tarnod_exec(0, 0, None, &record(12, 10, b"abc")).unwrap();
    assert_eq!(e.filename_len, 10);
    assert_eq!(&e.filename[..4], b"abc\0");
    assert_eq!(e.comm, [0u8; 16]);
}

/// An item as it is passed on.
fn item(pid: u32, name: &[u8]) -> Vec<u8> {
    let mut b = vec![0u8; EVENT_LEN];
    b[0..4].copy_from_slice(&pid.to_le_bytes());
    b[4..8].copy_from_slice(&7u32.to_le_bytes());
    b[8..8 + name.len()].copy_from_slice(name);
    b[24..28].copy_from_slice(b"/bin");
    b[152..154].copy_from_slice(&4u16.to_le_bytes());
    b
}

#[test]
fn items_decode_field_by_field() {
    let e = decode(&item(42, b"sh")).unwrap();
    assert_eq!((e.pid, e.uid, e.filename_len), (42, 7, 4));
    assert_eq!(e.comm_str(), "sh");
    assert_eq!(e.filename_str(), "/bin");
    assert!(decode(&[0u8; 155]).is_none());
}

#[test]
fn no_event_of_a_batch_is_lost() {
    let mut p = Pending::new();
    assert!(p.next().is_none());
    p.take_in(&vec![item(1, b"a"), vec![0u8; 10], item(2, b"b")]);
    p.take_in(&vec![item(3, b"c")]);
    let pids: Vec<u32> = (0..3).map(|_| p.next().unwrap().pid).collect();
    assert_eq!(pids, vec![1, 2, 3]);
    assert!(p.next().is_none());
}
