//! The boot picker: which loaders the firmware knows and the disks hold, the
//! configuration, and the menu.
use vstd::prelude::*;

use crate::bytes;
use crate::scan;
use crate::text;

verus! {

// --- wide strings ---

/// The first place, from `i` on, at which `c` stands.
pub open spec fn unit_at(s: Seq<u16>, c: u16, i: int) -> Option<int>
    decreases s.len() - i,
{
    if i < 0 || i >= s.len() {
        None
    } else if s[i] == c {
        Some(i)
    } else {
        unit_at(s, c, i + 1)
    }
}

/// The length of a NUL-terminated wide string.
pub fn wcslen(s: &[u16]) -> (r: usize)
    requires
        unit_at(s@, 0, 0) is Some,
    ensures
        unit_at(s@, 0, 0) == Some(r as int),
{
    let mut i: usize = 0;
    while i < s.len() && s[i] != 0
        invariant
            i <= s@.len(),
            unit_at(s@, 0, 0) is Some,
            unit_at(s@, 0, 0) == unit_at(s@, 0, i as int),
        decreases s@.len() - i,
    {
        i = i + 1;
    }
    i
}

/// The place of `c` among the first `n` units.
pub fn wmemchr(s: &[u16], c: u16, n: usize) -> (r: Option<usize>)
    requires
        n <= s@.len(),
    ensures
        match unit_at(s@.take(n as int), c, 0) {
            Some(k) => r is Some && r->0 == k,
            None => r is None,
        },
{
    let ghost t = s@.take(n as int);
    let mut i: usize = 0;
    while i < n
        invariant
            i <= n,
            n <= s@.len(),
            t == s@.take(n as int),
            unit_at(t, c, 0) == unit_at(t, c, i as int),
        decreases n - i,
    {
        if s[i] == c {
            return Some(i);
        }
        i = i + 1;
    }
    None
}

/// How two NUL-terminated wide strings differ from `i` on: by their first
/// units that differ, or not at all.
pub open spec fn difference(a: Seq<u16>, b: Seq<u16>, i: int) -> int
    decreases a.len() - i,
{
    if i < 0 || i >= a.len() || i >= b.len() {
        0
    } else if a[i] != b[i] {
        a[i] - b[i]
    } else if a[i] == 0 {
        0
    } else {
        difference(a, b, i + 1)
    }
}

fn differ(a: &[u16], b: &[u16]) -> (r: i32)
    requires
        unit_at(a@, 0, 0) is Some,
        unit_at(b@, 0, 0) is Some,
    ensures
        r == difference(a@, b@, 0),
{
    let mut i: usize = 0;
    while i < a.len() && i < b.len()
        invariant
            i <= a@.len(),
            i <= b@.len(),
            difference(a@, b@, 0) == difference(a@, b@, i as int),
        decreases a@.len() - i,
    {
        if a[i] != b[i] {
            return a[i] as i32 - b[i] as i32;
        }
        if a[i] == 0 {
            return 0;
        }
        i = i + 1;
    }
    0
}

/// Compare two NUL-terminated wide strings.
pub fn wcscmp(a: &[u16], b: &[u16]) -> (r: i32)
    requires
        unit_at(a@, 0, 0) is Some,
        unit_at(b@, 0, 0) is Some,
    ensures
        r == difference(a@, b@, 0),
{
    differ(a, b)
}

/// Strings that compare as equal are equal up to their NUL.
pub proof fn law_no_difference_means_equal(a: Seq<u16>, b: Seq<u16>, i: int)
    requires
        0 <= i,
        unit_at(a, 0, i) is Some,
        unit_at(b, 0, i) is Some,
        difference(a, b, i) == 0,
    ensures
        unit_at(a, 0, i) == unit_at(b, 0, i),
        a.subrange(i, unit_at(a, 0, i)->0) == b.subrange(i, unit_at(b, 0, i)->0),
    decreases a.len() - i,
{
    lemma_unit_at(a, i);
    lemma_unit_at(b, i);
    if a[i] != 0 {
        law_no_difference_means_equal(a, b, i + 1);
        lemma_unit_at(a, i + 1);
        let n = unit_at(a, 0, i)->0;
        assert(a.subrange(i, n) =~= seq![a[i]] + a.subrange(i + 1, n));
        assert(b.subrange(i, n) =~= seq![b[i]] + b.subrange(i + 1, n));
    } else {
        assert(a.subrange(i, i) =~= b.subrange(i, i));
    }
}

proof fn lemma_unit_at(s: Seq<u16>, i: int)
    requires
        0 <= i,
        unit_at(s, 0, i) is Some,
    ensures
        i <= unit_at(s, 0, i)->0 < s.len(),
    decreases s.len() - i,
{
    if s[i] != 0 {
        lemma_unit_at(s, i + 1);
    }
}

// --- UTF-16 ---

/// `std::char::from_u32`: the character of a Unicode scalar value, and none
/// for any other number.
#[verifier::external_body]
pub(crate) fn char_of(v: u32) -> (r: Option<char>)
    ensures
        r is Some == (v < 0xD800 || 0xE000 <= v <= 0x10FFFF),
        r matches Some(c) ==> c == v as char,
{
    std::char::from_u32(v)
}

/// The units of a little-endian string; an odd byte at the end is left out.
pub open spec fn units(b: Seq<u8>) -> Seq<u16> {
    Seq::new((b.len() / 2) as nat, |i: int| bytes::le16(b, 2 * i))
}

pub open spec fn high(u: u16) -> bool {
    0xD800 <= u <= 0xDBFF
}

pub open spec fn low(u: u16) -> bool {
    0xDC00 <= u <= 0xDFFF
}

/// The text of UTF-16 units, from `i` on, as far as the firmware can show it:
/// characters past U+FFFF are left out, and an unpaired surrogate is a
/// question mark.
pub open spec fn firmware_text(u: Seq<u16>, i: int) -> Seq<char>
    decreases u.len() - i,
{
    if i < 0 || i >= u.len() {
        Seq::empty()
    } else if high(u[i]) && i + 1 < u.len() && low(u[i + 1]) {
        firmware_text(u, i + 2)
    } else if high(u[i]) || low(u[i]) {
        seq!['?'] + firmware_text(u, i + 1)
    } else {
        seq![u[i] as char] + firmware_text(u, i + 1)
    }
}

/// Read a little-endian UTF-16 string.
pub fn decode_utf16(b: &[u8]) -> (r: Vec<char>)
    ensures
        r@ == firmware_text(units(b@), 0),
{
    let len: usize = b.len();
    let n: usize = len / 2;
    let ghost u = units(b@);
    let mut r: Vec<char> = Vec::new();
    let mut i: usize = 0;
    assert(r@ + firmware_text(u, 0) =~= firmware_text(u, 0));
    while i < n
        invariant
            i <= n,
            len == b@.len(),
            n == len / 2,
            u == units(b@),
            r@ + firmware_text(u, i as int) == firmware_text(u, 0),
        decreases n - i,
    {
        let v: u16 = bytes::load16(b, 2 * i);
        assert(v == u[i as int]);
        let ghost before = r@;
        if v >= 0xD800 && v <= 0xDFFF {
            if v <= 0xDBFF && i + 1 < n {
                let w: u16 = bytes::load16(b, 2 * (i + 1));
                assert(w == u[i + 1]);
                if w >= 0xDC00 && w <= 0xDFFF {
                    i = i + 2;
                    continue;
                }
            }
            r.push('?');
        } else {
            match char_of(v as u32) {
                Some(c) => {
                    r.push(c);
                },
                None => {},
            }
        }
        assert(r@ + firmware_text(u, i + 1) =~= before + firmware_text(u, i as int));
        i = i + 1;
    }
    assert(r@ =~= firmware_text(u, 0));
    r
}

// --- device paths ---

/// One node of a device path.
pub struct Node {
    pub kind: u8,
    pub sub: u8,
    pub data: Vec<u8>,
}

pub struct Nv {
    pub kind: u8,
    pub sub: u8,
    pub data: Seq<u8>,
}

impl View for Node {
    type V = Nv;

    open spec fn view(&self) -> Nv {
        Nv { kind: self.kind, sub: self.sub, data: self.data@ }
    }
}

pub open spec fn node_views(v: Seq<Node>) -> Seq<Nv> {
    v.map_values(|n: Node| n@)
}

/// The nodes of a device path from `i` on, up to the node that ends it: each
/// begins with its kind, its subkind and its length. Nothing where a node does
/// not fit.
pub open spec fn nodes_from(b: Seq<u8>, i: int) -> Option<Seq<Nv>>
    decreases b.len() - i,
{
    let len = bytes::le16(b, i + 2) as int;
    if i < 0 || i + 4 > b.len() || len < 4 || i + len > b.len() {
        None
    } else if b[i] == 0x7F && b[i + 1] == 0xFF {
        Some(Seq::empty())
    } else {
        match nodes_from(b, i + len) {
            Some(rest) => Some(
                seq![Nv { kind: b[i], sub: b[i + 1], data: b.subrange(i + 4, i + len) }] + rest,
            ),
            None => None,
        }
    }
}

/// `uefi::proto::device_path`: `<&DevicePath>::try_from` fails unless nodes
/// that fit lead up to an end node, and `node_iter` gives the nodes before it,
/// each with its type, its subtype and the data behind its header.
#[verifier::external_body]
pub(crate) fn device_nodes(dp: &[u8]) -> (r: Option<Vec<Node>>)
    ensures
        match nodes_from(dp@, 0) {
            Some(n) => r is Some && node_views(r->0@) == n,
            None => r is None,
        },
{
    let path = <&uefi::proto::device_path::DevicePath>::try_from(dp).ok()?;
    let nodes = path.node_iter().map(
        |n| Node { kind: n.device_type().0, sub: n.sub_type().0, data: n.data().to_vec() },
    );
    Some(nodes.collect())
}

/// A node as bytes: a header of four, and its data.
pub open spec fn node_bytes(n: Nv) -> Seq<u8> {
    seq![n.kind, n.sub] + bytes::bytes16((4 + n.data.len()) as u16) + n.data
}

pub open spec fn all_node_bytes(ns: Seq<Nv>) -> Seq<u8>
    decreases ns.len(),
{
    if ns.len() == 0 {
        Seq::empty()
    } else {
        all_node_bytes(ns.drop_last()) + node_bytes(ns.last())
    }
}

/// Units the firmware takes as a string: one NUL, at the end, and no
/// surrogate.
pub open spec fn firmware_string(u: Seq<u16>) -> bool {
    &&& u.len() > 0
    &&& u.last() == 0
    &&& forall|i: int| 0 <= i < u.len() - 1 ==> #[trigger] u[i] != 0 && !high(u[i]) && !low(u[i])
}

/// The bytes of units, little-endian.
pub open spec fn unit_bytes(u: Seq<u16>) -> Seq<u8> {
    Seq::new(
        2 * u.len(),
        |i: int| bytes::bytes16(u[i / 2])[i % 2],
    )
}

/// A volume's device path with the path of a file behind it; nothing where
/// the volume's is malformed, or the name is none or too long for a node.
pub open spec fn with_file(vol: Seq<u8>, name: Seq<u16>) -> Option<Seq<u8>> {
    match nodes_from(vol, 0) {
        Some(ns) => if firmware_string(name) && 4 + 2 * name.len() <= 0xFFFF {
            Some(
                all_node_bytes(ns.push(Nv { kind: 4, sub: 4, data: unit_bytes(name) })) + seq![
                    0x7Fu8,
                    0xFF,
                    4,
                    0,
                ],
            )
        } else {
            None
        },
        None => None,
    }
}

proof fn lemma_nodes_fit(b: Seq<u8>, i: int)
    ensures
        nodes_from(b, i) matches Some(ns) ==> forall|k: int|
            0 <= k < ns.len() ==> (#[trigger] ns[k]).data.len() <= 0xFFFB,
    decreases b.len() - i,
{
    let len = bytes::le16(b, i + 2) as int;
    if nodes_from(b, i) is Some && !(b[i] == 0x7F && b[i + 1] == 0xFF) {
        lemma_nodes_fit(b, i + len);
        let ns = nodes_from(b, i)->0;
        let rest = nodes_from(b, i + len)->0;
        assert forall|k: int| 0 <= k < ns.len() implies (#[trigger] ns[k]).data.len() <= 0xFFFB by {
            if k > 0 {
                assert(ns[k] == rest[k - 1]);
            }
        }
    }
}

/// Append a node: its header, and its data.
fn put_node(buf: &mut Vec<u8>, n: &Node)
    requires
        n@.data.len() <= 0xFFFB,
    ensures
        final(buf)@ == old(buf)@ + node_bytes(n@),
{
    let len = bytes::to_bytes16((4 + n.data.len()) as u16);
    buf.push(n.kind);
    buf.push(n.sub);
    bytes::extend(buf, len.as_slice());
    bytes::extend(buf, n.data.as_slice());
    assert(buf@ =~= old(buf)@ + node_bytes(n@));
}

fn is_firmware_string(u: &[u16]) -> (r: bool)
    ensures
        r == firmware_string(u@),
{
    let n: usize = u.len();
    if n == 0 || u[n - 1] != 0 {
        return false;
    }
    let mut i: usize = 0;
    while i < n - 1
        invariant
            0 < n,
            i <= n - 1,
            n == u@.len(),
            forall|k: int| 0 <= k < i ==> #[trigger] u@[k] != 0 && !high(u@[k]) && !low(u@[k]),
        decreases n - i,
    {
        if u[i] == 0 || (0xD800 <= u[i] && u[i] <= 0xDFFF) {
            assert(u@[i as int] == 0 || high(u@[i as int]) || low(u@[i as int]));
            return false;
        }
        i = i + 1;
    }
    true
}

fn to_unit_bytes(u: &[u16]) -> (r: Vec<u8>)
    ensures
        r@ == unit_bytes(u@),
{
    let n: usize = u.len();
    let mut r: Vec<u8> = Vec::new();
    let mut i: usize = 0;
    assert(r@ =~= unit_bytes(u@.take(0)));
    while i < n
        invariant
            i <= n,
            n == u@.len(),
            r@ == unit_bytes(u@.take(i as int)),
        decreases n - i,
    {
        let b = bytes::to_bytes16(u[i]);
        bytes::extend(&mut r, b.as_slice());
        i = i + 1;
        assert(r@ =~= unit_bytes(u@.take(i as int)));
    }
    assert(u@.take(n as int) =~= u@);
    r
}

/// A volume's device path with a file-path node behind it, and the node that
/// ends it.
fn build_file_path(vol: &[u8], name: &[u16]) -> (r: Option<Vec<u8>>)
    ensures
        match with_file(vol@, name@) {
            Some(b) => r is Some && r->0@ == b,
            None => r is None,
        },
{
    let nodes = match device_nodes(vol) {
        Some(n) => n,
        None => { return None; },
    };
    if !is_firmware_string(name) || name.len() > 0x7FFD {
        return None;
    }
    let ghost ns = node_views(nodes@);
    proof {
        lemma_nodes_fit(vol@, 0);
    }
    let mut r: Vec<u8> = Vec::new();
    let n: usize = nodes.len();
    let mut i: usize = 0;
    assert(r@ =~= all_node_bytes(ns.take(0)));
    while i < n
        invariant
            i <= n,
            n == nodes@.len(),
            ns == node_views(nodes@),
            forall|k: int| 0 <= k < ns.len() ==> (#[trigger] ns[k]).data.len() <= 0xFFFB,
            r@ == all_node_bytes(ns.take(i as int)),
        decreases n - i,
    {
        assert(ns[i as int] == nodes@[i as int]@);
        put_node(&mut r, &nodes[i]);
        i = i + 1;
        let ghost pre = ns.take(i as int);
        assert(pre.drop_last() =~= ns.take(i - 1));
        assert(pre.last() == ns[i - 1]);
    }
    assert(ns.take(n as int) =~= ns);
    let file = Node { kind: 4, sub: 4, data: to_unit_bytes(name) };
    put_node(&mut r, &file);
    let ghost all = ns.push(file@);
    assert(all.drop_last() =~= ns);
    assert(file@ == (Nv { kind: 4, sub: 4, data: unit_bytes(name@) }));
    let end: [u8; 4] = [0x7F, 0xFF, 4, 0];
    assert(end@ =~= seq![0x7Fu8, 0xFF, 4, 0]);
    bytes::extend(&mut r, &end);
    Some(r)
}

/// The units of a text with its NUL; nothing where a character does not fit.
pub open spec fn wide_name(s: Seq<char>) -> Option<Seq<u16>> {
    if forall|i: int| 0 <= i < s.len() ==> (#[trigger] s[i]) as u32 <= 0xFFFF {
        Some(Seq::new(s.len(), |i: int| s[i] as u16).push(0))
    } else {
        None
    }
}

/// The unit of a character, where one is enough.
fn unit_of(c: char) -> (r: Option<u16>)
    ensures
        r == if c as u32 <= 0xFFFF {
            Some(c as u16)
        } else {
            None
        },
{
    let v: u32 = c as u32;
    if v <= 0xFFFF {
        Some(v as u16)
    } else {
        None
    }
}

/// The units of a text with its NUL.
pub fn to_units(s: &[char]) -> (r: Option<Vec<u16>>)
    ensures
        match wide_name(s@) {
            Some(u) => r is Some && r->0@ == u,
            None => r is None,
        },
{
    let n: usize = s.len();
    let mut r: Vec<u16> = Vec::new();
    let mut i: usize = 0;
    while i < n
        invariant
            i <= n,
            n == s@.len(),
            forall|k: int| 0 <= k < i ==> (#[trigger] s@[k]) as u32 <= 0xFFFF,
            r@ == Seq::new(i as nat, |k: int| s@[k] as u16),
        decreases n - i,
    {
        match unit_of(s[i]) {
            None => {
                assert(!(s@[i as int] as u32 <= 0xFFFF));
                return None;
            },
            Some(v) => {
                r.push(v);
            },
        }
        i = i + 1;
        assert(r@ =~= Seq::new(i as nat, |k: int| s@[k] as u16));
    }
    r.push(0);
    Some(r)
}

/// A volume's device path with a file's path behind it.
pub fn append_file_path(vol: &[u8], path: &[char]) -> (r: Option<Vec<u8>>)
    ensures
        match wide_name(path@) {
            Some(u) => match with_file(vol@, u) {
                Some(b) => r is Some && r->0@ == b,
                None => r is None,
            },
            None => r is None,
        },
{
    match to_units(path) {
        Some(u) => build_file_path(vol, u.as_slice()),
        None => None,
    }
}

// --- entries ---

/// A loader to offer.
pub struct Entry {
    pub label: Vec<char>,
    /// The device path of the loader.
    pub dp: Vec<u8>,
    /// Whether the firmware's own list has it.
    pub from_nvram: bool,
}

#[verifier::ext_equal]
pub struct Ent {
    pub label: Seq<char>,
    pub dp: Seq<u8>,
    pub from_nvram: bool,
}

impl View for Entry {
    type V = Ent;

    open spec fn view(&self) -> Ent {
        Ent { label: self.label@, dp: self.dp@, from_nvram: self.from_nvram }
    }
}

pub open spec fn entry_views(v: Seq<Entry>) -> Seq<Ent> {
    v.map_values(|e: Entry| e@)
}

/// Whether an entry has this label.
pub open spec fn offered(v: Seq<Ent>, label: Seq<char>) -> bool {
    exists|i: int| 0 <= i < v.len() && (#[trigger] v[i]).label == label
}

pub fn label_present(out: &Vec<Entry>, label: &[char]) -> (r: bool)
    ensures
        r == offered(entry_views(out@), label@),
{
    let n: usize = out.len();
    let mut i: usize = 0;
    while i < n
        invariant
            i <= n,
            n == out@.len(),
            forall|k: int| 0 <= k < i ==> (#[trigger] entry_views(out@)[k]).label != label@,
        decreases n - i,
    {
        assert(entry_views(out@)[i as int] == out@[i as int]@);
        if text::same_chars(out[i].label.as_slice(), label) {
            return true;
        }
        i = i + 1;
    }
    false
}

/// The ids in the firmware's boot order.
pub fn boot_order(b: &[u8]) -> (r: Vec<u16>)
    ensures
        r@ == units(b@),
{
    let len: usize = b.len();
    let n: usize = len / 2;
    let mut r: Vec<u16> = Vec::new();
    let mut i: usize = 0;
    while i < n
        invariant
            i <= n,
            len == b@.len(),
            n == len / 2,
            r@ == units(b@).take(i as int),
        decreases n - i,
    {
        r.push(bytes::load16(b, 2 * i));
        i = i + 1;
        assert(r@ =~= units(b@).take(i as int));
    }
    assert(r@ =~= units(b@));
    r
}

/// An upper-case hexadecimal digit.
pub open spec fn hex_digit(v: u16) -> char {
    if v < 10 {
        ((0x30 + v) as u8) as char
    } else {
        ((0x37 + v) as u8) as char
    }
}

fn hex(v: u16) -> (r: char)
    requires
        v < 16,
    ensures
        r == hex_digit(v),
{
    if v < 10 {
        (0x30 + v as u8) as char
    } else {
        (0x37 + v as u8) as char
    }
}

/// The name of the variable that holds a boot entry.
pub fn boot_var_name(id: u16) -> (r: Vec<char>)
    ensures
        r@ == seq![
            'B',
            'o',
            'o',
            't',
            hex_digit(id / 4096),
            hex_digit((id / 256) % 16),
            hex_digit((id / 16) % 16),
            hex_digit(id % 16),
        ],
{
    let r = vec![
        'B',
        'o',
        'o',
        't',
        hex(id / 4096),
        hex((id / 256) % 16),
        hex((id / 16) % 16),
        hex(id % 16),
    ];
    assert(r@ =~= seq![
        'B',
        'o',
        'o',
        't',
        hex_digit(id / 4096),
        hex_digit((id / 256) % 16),
        hex_digit((id / 16) % 16),
        hex_digit(id % 16),
    ]);
    r
}

/// Where the description that starts at 6 ends: at a NUL word or where the
/// data ends.
pub open spec fn desc_end(b: Seq<u8>, i: int) -> int
    decreases b.len() - i,
{
    if 0 <= i && i + 1 < b.len() && !(b[i] == 0 && b[i + 1] == 0) {
        desc_end(b, i + 2)
    } else {
        i
    }
}

/// The description and the device path of a load option; nothing where it is
/// too short, not active, or its device path does not fit.
pub open spec fn load_option(b: Seq<u8>) -> Option<(Seq<char>, Seq<u8>)> {
    let n = bytes::le16(b, 4) as int;
    let end = desc_end(b, 6);
    if b.len() < 6 || bytes::le32(b, 0) & 1 == 0 || end + 2 + n > b.len() {
        None
    } else {
        Some((firmware_text(units(b.subrange(6, end)), 0), b.subrange(end + 2, end + 2 + n)))
    }
}

proof fn lemma_desc_end(b: Seq<u8>, i: int)
    requires
        0 <= i <= b.len(),
    ensures
        i <= desc_end(b, i) <= b.len(),
    decreases b.len() - i,
{
    if i + 1 < b.len() && !(b[i] == 0 && b[i + 1] == 0) {
        lemma_desc_end(b, i + 2);
    }
}

/// Read a load option.
pub fn read_load_option(b: &[u8]) -> (r: Option<(Vec<char>, Vec<u8>)>)
    ensures
        match load_option(b@) {
            Some((d, p)) => r matches Some((x, y)) && x@ == d && y@ == p,
            None => r is None,
        },
{
    let len: usize = b.len();
    if len < 6 {
        return None;
    }
    let attrs: u32 = bytes::load32(b, 0);
    if attrs & 1 == 0 {
        return None;
    }
    let n: usize = bytes::load16(b, 4) as usize;
    let mut end: usize = 6;
    while len - end >= 2 && !(b[end] == 0 && b[end + 1] == 0)
        invariant
            6 <= end <= len,
            len == b@.len(),
            desc_end(b@, 6) == desc_end(b@, end as int),
        decreases len - end,
    {
        end = end + 2;
    }
    proof {
        lemma_desc_end(b@, 6);
    }
    let desc = decode_utf16(vstd::slice::slice_subrange(b, 6, end));
    if len - end < 2 || len - end - 2 < n {
        return None;
    }
    Some((desc, bytes::sub(b, end + 2, end + 2 + n)))
}

/// Whether a description can be that of an installed system: not the
/// firmware's own programs, its automatic entries, or this picker.
pub open spec fn os_label(d: Seq<char>) -> bool {
    &&& d.len() > 0
    &&& !scan::starts(d, "UEFI "@)
    &&& !scan::contained(d, "THOS Boot"@)
    &&& !scan::contained(d, "UiApp"@)
    &&& !scan::contained(d, "Shell"@)
    &&& !scan::contained(d, "Boot Manager"@)
    &&& !scan::contained(d, "BootManager"@)
    &&& !scan::contained(d, "EnrollDefaultKeys"@)
    &&& !scan::contained(d, "Setup"@)
}

fn lacks(d: &[char], t: &str) -> (r: bool)
    ensures
        r == !scan::contained(d@, t@),
{
    let c = text::chars_of(t);
    !scan::contains_text(d, c.as_slice())
}

pub fn is_os_label(d: &[char]) -> (r: bool)
    ensures
        r == os_label(d@),
{
    let uefi = text::chars_of("UEFI ");
    d.len() > 0 && !scan::starts_with(d, uefi.as_slice()) && lacks(d, "THOS Boot") && lacks(
        d,
        "UiApp",
    ) && lacks(d, "Shell") && lacks(d, "Boot Manager") && lacks(d, "BootManager") && lacks(
        d,
        "EnrollDefaultKeys",
    ) && lacks(d, "Setup")
}

/// `.efi` in wide characters.
pub open spec fn efi_suffix() -> Seq<u8> {
    seq![0x2Eu8, 0, 0x65, 0, 0x66, 0, 0x69, 0]
}

/// Whether the wide text of a file path, up to its terminator, ends in `.efi`.
pub open spec fn names_efi(d: Seq<u8>) -> bool {
    let n = desc_end(d, 0);
    n >= 8 && d.subrange(n - 8, n) == efi_suffix()
}

pub open spec fn on_disk(n: Nv) -> bool {
    n.kind == 4 && n.sub == 1
}

pub open spec fn in_firmware(n: Nv) -> bool {
    n.kind == 4 && (n.sub == 6 || n.sub == 7)
}

pub open spec fn efi_file(n: Nv) -> bool {
    n.kind == 4 && n.sub == 4 && names_efi(n.data)
}

/// Whether a device path leads to a loader on a disk: over a partition, to an
/// EFI file at its end, and through nothing that is part of the firmware.
pub open spec fn leads_to_loader(ns: Seq<Nv>) -> bool {
    &&& exists|i: int| 0 <= i < ns.len() && on_disk(#[trigger] ns[i])
    &&& ns.len() > 0 && efi_file(ns.last())
    &&& forall|i: int| 0 <= i < ns.len() ==> !in_firmware(#[trigger] ns[i])
}

fn has_efi(d: &[u8]) -> (r: bool)
    ensures
        r == names_efi(d@),
{
    let len: usize = d.len();
    let mut n: usize = 0;
    while len - n >= 2 && !(d[n] == 0 && d[n + 1] == 0)
        invariant
            n <= len,
            len == d@.len(),
            desc_end(d@, 0) == desc_end(d@, n as int),
        decreases len - n,
    {
        n = n + 2;
    }
    if n < 8 {
        return false;
    }
    let want: [u8; 8] = [0x2E, 0, 0x65, 0, 0x66, 0, 0x69, 0];
    assert(want@ =~= efi_suffix());
    let tail = vstd::slice::slice_subrange(d, n - 8, n);
    bytes::same(tail, want.as_slice())
}

pub fn is_loader_path(ns: &Vec<Node>) -> (r: bool)
    ensures
        r == leads_to_loader(node_views(ns@)),
{
    let n: usize = ns.len();
    let ghost v = node_views(ns@);
    let mut disk: bool = false;
    let mut efi: bool = false;
    let mut i: usize = 0;
    while i < n
        invariant
            i <= n,
            n == ns@.len(),
            v == node_views(ns@),
            disk == exists|k: int| 0 <= k < i && on_disk(#[trigger] v[k]),
            efi == (i > 0 && efi_file(v[i - 1])),
            forall|k: int| 0 <= k < i ==> !in_firmware(#[trigger] v[k]),
        decreases n - i,
    {
        let node = &ns[i];
        assert(v[i as int] == node@);
        if node.kind == 4 {
            if node.sub == 1 {
                disk = true;
            } else if node.sub == 6 || node.sub == 7 {
                assert(in_firmware(v[i as int]));
                return false;
            }
        }
        efi = node.kind == 4 && node.sub == 4 && has_efi(node.data.as_slice());
        i = i + 1;
    }
    disk && efi
}

/// Whether a firmware entry is an installed system's loader.
pub open spec fn os_entry(dp: Seq<u8>, desc: Seq<char>) -> bool {
    os_label(desc) && match nodes_from(dp, 0) {
        Some(ns) => leads_to_loader(ns),
        None => false,
    }
}

pub fn real_os_entry(dp: &[u8], desc: &[char]) -> (r: bool)
    ensures
        r == os_entry(dp@, desc@),
{
    if !is_os_label(desc) {
        return false;
    }
    match device_nodes(dp) {
        Some(ns) => is_loader_path(&ns),
        None => false,
    }
}

/// The entries with what a firmware variable holds added, where it is an
/// installed system's loader that is not offered yet and not this picker.
pub open spec fn with_nvram(out: Seq<Ent>, b: Seq<u8>, own: Option<Seq<u8>>) -> Seq<Ent> {
    match load_option(b) {
        Some((label, dp)) => if own == Some(dp) || offered(out, label) || !os_entry(dp, label) {
            out
        } else {
            out.push(Ent { label, dp, from_nvram: true })
        },
        None => out,
    }
}

/// Add what a firmware variable holds; `own` is this picker's device path.
pub fn collect_nvram(out: &mut Vec<Entry>, b: &[u8], own: &Option<Vec<u8>>)
    ensures
        entry_views(final(out)@) == with_nvram(
            entry_views(old(out)@),
            b@,
            match *own {
                Some(o) => Some(o@),
                None => None,
            },
        ),
{
    match read_load_option(b) {
        None => {},
        Some((label, dp)) => {
            let is_own: bool = match own {
                Some(o) => bytes::same(o.as_slice(), dp.as_slice()),
                None => false,
            };
            if is_own || label_present(out, label.as_slice()) || !real_os_entry(
                dp.as_slice(),
                label.as_slice(),
            ) {
                return;
            }
            let e = Entry { label, dp, from_nvram: true };
            let ghost v = e@;
            out.push(e);
            assert(entry_views(out@) =~= entry_views(old(out)@).push(v));
        },
    }
}

/// The loader paths to look for on every volume, and what to call them. The
/// fallback path is not among them: that is this picker.
pub open spec fn known_loaders() -> Seq<(&'static str, &'static str)> {
    seq![
        ("\\EFI\\Microsoft\\Boot\\bootmgfw.efi", "Windows Boot Manager"),
        ("\\EFI\\thos\\BOOTX64.EFI", "THOS"),
        ("\\EFI\\limine\\BOOTX64.EFI", "THOS"),
        ("\\EFI\\systemd\\systemd-bootx64.efi", "systemd-boot"),
        ("\\EFI\\debian\\shimx64.efi", "Debian"),
        ("\\EFI\\debian\\grubx64.efi", "Debian (GRUB)"),
        ("\\EFI\\devuan\\grubx64.efi", "Devuan (GRUB)"),
        ("\\EFI\\ubuntu\\shimx64.efi", "Ubuntu"),
        ("\\EFI\\ubuntu\\grubx64.efi", "Ubuntu (GRUB)"),
        ("\\EFI\\fedora\\shimx64.efi", "Fedora"),
        ("\\EFI\\grub\\grubx64.efi", "GRUB"),
    ]
}

pub fn known() -> (r: Vec<(&'static str, &'static str)>)
    ensures
        r@ == known_loaders(),
{
    let r = vec![
        ("\\EFI\\Microsoft\\Boot\\bootmgfw.efi", "Windows Boot Manager"),
        ("\\EFI\\thos\\BOOTX64.EFI", "THOS"),
        ("\\EFI\\limine\\BOOTX64.EFI", "THOS"),
        ("\\EFI\\systemd\\systemd-bootx64.efi", "systemd-boot"),
        ("\\EFI\\debian\\shimx64.efi", "Debian"),
        ("\\EFI\\debian\\grubx64.efi", "Debian (GRUB)"),
        ("\\EFI\\devuan\\grubx64.efi", "Devuan (GRUB)"),
        ("\\EFI\\ubuntu\\shimx64.efi", "Ubuntu"),
        ("\\EFI\\ubuntu\\grubx64.efi", "Ubuntu (GRUB)"),
        ("\\EFI\\fedora\\shimx64.efi", "Fedora"),
        ("\\EFI\\grub\\grubx64.efi", "GRUB"),
    ];
    assert(r@ =~= known_loaders());
    r
}

/// The entries with a known loader added, where the volume has the file and
/// the label is not offered yet.
pub open spec fn with_probe(out: Seq<Ent>, vol: Seq<u8>, path: Seq<char>, label: Seq<char>, found: bool) -> Seq<
    Ent,
> {
    if offered(out, label) || !found {
        out
    } else {
        match wide_name(path) {
            Some(u) => match with_file(vol, u) {
                Some(dp) => out.push(Ent { label, dp, from_nvram: false }),
                None => out,
            },
            None => out,
        }
    }
}

/// Add a known loader; `found` says whether the volume has the file.
pub fn collect_probe(out: &mut Vec<Entry>, vol: &[u8], path: &str, label: &str, found: bool)
    ensures
        entry_views(final(out)@) == with_probe(entry_views(old(out)@), vol@, path@, label@, found),
{
    let label = text::chars_of(label);
    if label_present(out, label.as_slice()) || !found {
        return;
    }
    let path = text::chars_of(path);
    match append_file_path(vol, path.as_slice()) {
        Some(dp) => {
            let e = Entry { label, dp, from_nvram: false };
            let ghost v = e@;
            out.push(e);
            assert(entry_views(out@) =~= entry_views(old(out)@).push(v));
        },
        None => {},
    }
}

/// No two entries have the same label.
pub open spec fn labels_differ(v: Seq<Ent>) -> bool {
    forall|i: int, j: int|
        0 <= i < j < v.len() ==> (#[trigger] v[i]).label != (#[trigger] v[j]).label
}

/// Collecting never offers a label twice.
pub proof fn law_labels_stay_distinct(
    out: Seq<Ent>,
    b: Seq<u8>,
    own: Option<Seq<u8>>,
    vol: Seq<u8>,
    path: Seq<char>,
    label: Seq<char>,
    found: bool,
)
    requires
        labels_differ(out),
    ensures
        labels_differ(with_nvram(out, b, own)),
        labels_differ(with_probe(out, vol, path, label, found)),
{
}

// --- configuration ---

/// Which entry to start with.
pub enum Choice {
    Index(usize),
    Match(Vec<char>),
    First,
}

pub enum Chosen {
    Index(usize),
    Match(Seq<char>),
    First,
}

impl View for Choice {
    type V = Chosen;

    open spec fn view(&self) -> Chosen {
        match *self {
            Choice::Index(i) => Chosen::Index(i),
            Choice::Match(s) => Chosen::Match(s@),
            Choice::First => Chosen::First,
        }
    }
}

/// The seconds to wait where nothing is configured.
pub const DEFAULT_TIMEOUT: u64 = 5;

/// Whether the firmware can hold a text: no NUL, and nothing past U+FFFF.
pub open spec fn showable(s: Seq<char>) -> bool {
    forall|i: int| 0 <= i < s.len() ==> 0 < (#[trigger] s[i]) as u32 <= 0xFFFF
}

fn is_showable(s: &[char]) -> (r: bool)
    ensures
        r == showable(s@),
{
    let n: usize = s.len();
    let mut i: usize = 0;
    while i < n
        invariant
            i <= n,
            n == s@.len(),
            forall|k: int| 0 <= k < i ==> 0 < (#[trigger] s@[k]) as u32 <= 0xFFFF,
        decreases n - i,
    {
        let v: u32 = s[i] as u32;
        if v == 0 || v > 0xFFFF {
            assert(!(0 < s@[i as int] as u32 <= 0xFFFF));
            return false;
        }
        i = i + 1;
    }
    true
}

/// What a value of `default` says.
pub open spec fn chosen(v: Seq<char>) -> Chosen {
    match scan::number_upto(v, usize::MAX as nat) {
        Some(i) => Chosen::Index(i as usize),
        None => if showable(v) {
            Chosen::Match(v)
        } else {
            Chosen::First
        },
    }
}

/// The settings after one more line: `timeout` takes a number, `default` an
/// index or part of a label; any other line changes nothing.
pub open spec fn line_read(timeout: u64, d: Chosen, line: Seq<char>) -> (u64, Chosen) {
    let l = text::trimmed(line);
    match text::first_at(l, '=', 0) {
        None => (timeout, d),
        Some(i) => {
            let k = text::trimmed(l.take(i));
            let v = text::trimmed(l.skip(i + 1));
            if k == "timeout"@ {
                match scan::number_upto(v, u64::MAX as nat) {
                    Some(n) => (n as u64, d),
                    None => (timeout, d),
                }
            } else if k == "default"@ {
                (timeout, chosen(v))
            } else {
                (timeout, d)
            }
        },
    }
}

/// The settings after the first `n` lines.
pub open spec fn lines_read(lines: Seq<Seq<char>>, n: int) -> (u64, Chosen)
    decreases n,
{
    if n <= 0 {
        (DEFAULT_TIMEOUT, Chosen::First)
    } else {
        let (t, d) = lines_read(lines, n - 1);
        line_read(t, d, lines[n - 1])
    }
}

/// What a configuration text says.
pub open spec fn configured(t: Seq<char>) -> (u64, Chosen) {
    let lines = scan::cut(t, '\n', '\r');
    lines_read(lines, lines.len() as int)
}

fn choose_of(v: &[char]) -> (r: Choice)
    ensures
        r@ == chosen(v@),
{
    match scan::parse_upto(v, usize::MAX as u64) {
        Some(i) => Choice::Index(i as usize),
        None => {
            if is_showable(v) {
                Choice::Match(text::copy_chars(v))
            } else {
                Choice::First
            }
        },
    }
}

/// Read a configuration text.
pub fn parse_config(t: &[char]) -> (r: (u64, Choice))
    ensures
        (r.0, r.1@) == configured(t@),
{
    let lines = scan::split_at_either(t, '\n', '\r');
    let ghost all = text::texts(lines@);
    let n: usize = lines.len();
    let mut timeout: u64 = DEFAULT_TIMEOUT;
    let mut d = Choice::First;
    let mut i: usize = 0;
    while i < n
        invariant
            i <= n,
            n == lines@.len(),
            all == text::texts(lines@),
            (timeout, d@) == lines_read(all, i as int),
        decreases n - i,
    {
        assert(all[i as int] == lines@[i as int]@);
        let l = text::trim(lines[i].as_slice());
        match text::find_first(l.as_slice(), '=') {
            None => {},
            Some(at) => {
                let len: usize = l.len();
                let key = text::sub_chars(l.as_slice(), 0, at);
                let val = text::sub_chars(l.as_slice(), at + 1, len);
                assert(key@ =~= l@.take(at as int));
                assert(val@ =~= l@.skip(at + 1));
                let k = text::trim(key.as_slice());
                let v = text::trim(val.as_slice());
                if scan::is_word(k.as_slice(), "timeout") {
                    match scan::parse_upto(v.as_slice(), u64::MAX) {
                        Some(s) => {
                            timeout = s;
                        },
                        None => {},
                    }
                } else if scan::is_word(k.as_slice(), "default") {
                    d = choose_of(v.as_slice());
                }
            },
        }
        i = i + 1;
    }
    (timeout, d)
}

/// The settings: those of the configuration file, or the usual ones where
/// there is none.
pub fn read_config(file: &Option<Vec<u8>>) -> (r: (u64, Choice))
    ensures
        (r.0, r.1@) == match *file {
            Some(b) => configured(crate::syscall_fs::lossy(b@)),
            None => (DEFAULT_TIMEOUT, Chosen::First),
        },
{
    match file {
        Some(b) => {
            let s = crate::syscall_fs::lossy_text(b.as_slice());
            let t = text::chars_of(s.as_str());
            parse_config(t.as_slice())
        },
        None => (DEFAULT_TIMEOUT, Choice::First),
    }
}

/// The first label, from `i` on, with `t` in it; 0 where there is none.
pub open spec fn label_match(v: Seq<Ent>, t: Seq<char>, i: int) -> int
    decreases v.len() - i,
{
    if i < 0 || i >= v.len() {
        0
    } else if scan::contained(v[i].label, t) {
        i
    } else {
        label_match(v, t, i + 1)
    }
}

/// The entry a choice names.
pub open spec fn resolved(v: Seq<Ent>, d: Chosen) -> int {
    match d {
        Chosen::Index(i) => if i < v.len() {
            i as int
        } else {
            v.len() - 1
        },
        Chosen::First => 0,
        Chosen::Match(t) => label_match(v, t, 0),
    }
}

pub fn resolve_default(entries: &Vec<Entry>, d: &Choice) -> (r: usize)
    requires
        entries@.len() > 0,
    ensures
        r == resolved(entry_views(entries@), d@),
        r < entries@.len(),
{
    let n: usize = entries.len();
    match d {
        Choice::Index(i) => if *i < n {
            *i
        } else {
            n - 1
        },
        Choice::First => 0,
        Choice::Match(t) => {
            let ghost v = entry_views(entries@);
            let mut i: usize = 0;
            while i < n
                invariant
                    i <= n,
                    n == entries@.len(),
                    n > 0,
                    v == entry_views(entries@),
                    d@ == Chosen::Match(t@),
                    label_match(v, t@, 0) == label_match(v, t@, i as int),
                decreases n - i,
            {
                assert(v[i as int] == entries@[i as int]@);
                if scan::contains_text(entries[i].label.as_slice(), t.as_slice()) {
                    return i;
                }
                i = i + 1;
            }
            0
        },
    }
}

// --- the menu ---

/// What was typed.
#[derive(Clone, Copy)]
pub enum Key {
    Up,
    Down,
    Escape,
    Char(char),
    /// Nothing, or a key without a meaning.
    Nothing,
}

/// The menu between two looks at the keyboard.
#[derive(Clone, Copy)]
pub struct Menu {
    pub sel: usize,
    /// Tenths of a second that are left.
    pub ticks: u64,
    pub counting: bool,
    /// What was last drawn.
    pub shown: Option<(usize, Option<u64>)>,
}

/// What to do next: wait this long, and then boot an entry or look again.
#[derive(Clone, Copy, PartialEq, Eq, Structural)]
pub struct Turn {
    pub wait_ms: u64,
    pub pick: Option<usize>,
}

/// The seconds to show: what is left, rounded up.
pub open spec fn countdown_of(m: Menu) -> Option<u64> {
    if m.counting {
        Some(((m.ticks + 9) / 10) as u64)
    } else {
        None
    }
}

/// The digit a character is.
pub open spec fn digit_of(c: char) -> Option<int> {
    if 0x30 <= c as u32 <= 0x39 {
        Some(c as u32 - 0x30)
    } else {
        None
    }
}

/// The menu after a key, and the entry that was picked, if one was. A key
/// stops the clock.
pub open spec fn keyed(m: Menu, k: Key, n: int) -> (Menu, Option<int>) {
    match k {
        Key::Up => (
            Menu { sel: ((m.sel + n - 1) % n) as usize, counting: false, ..m },
            None,
        ),
        Key::Down => (Menu { sel: ((m.sel + 1) % n) as usize, counting: false, ..m }, None),
        Key::Escape => (m, Some(m.sel as int)),
        Key::Char(c) => if c == '\r' || c == '\n' {
            (m, Some(m.sel as int))
        } else {
            match digit_of(c) {
                Some(d) => if d < n {
                    (m, Some(d))
                } else {
                    (Menu { counting: false, ..m }, None)
                },
                None => (Menu { counting: false, ..m }, None),
            }
        },
        Key::Nothing => (m, None),
    }
}

/// The menu after one look at the keyboard, and what to do next. While the
/// clock runs, a tenth of a second goes by; when it runs out, the selected
/// entry is booted.
pub open spec fn turned(m: Menu, k: Key, n: int) -> (Menu, Turn) {
    let (m2, pick) = keyed(m, k, n);
    match pick {
        Some(i) => (m2, Turn { wait_ms: 0, pick: Some(i as usize) }),
        None => if m2.counting {
            let left = if m2.ticks > 0 {
                (m2.ticks - 1) as u64
            } else {
                0
            };
            (
                Menu { ticks: left, ..m2 },
                Turn {
                    wait_ms: 100,
                    pick: if left == 0 {
                        Some(m2.sel)
                    } else {
                        None
                    },
                },
            )
        } else {
            (m2, Turn { wait_ms: 30, pick: None })
        },
    }
}

impl Menu {
    /// A menu that counts down from `timeout` seconds; 0 waits for a key.
    pub fn new(timeout: u64, sel: usize) -> (r: Self)
        ensures
            r == (Menu {
                sel,
                ticks: if timeout * 10 <= u64::MAX {
                    (timeout * 10) as u64
                } else {
                    u64::MAX
                },
                counting: timeout > 0,
                shown: None,
            }),
    {
        Menu {
            sel,
            ticks: if timeout <= u64::MAX / 10 { timeout * 10 } else { u64::MAX },
            counting: timeout > 0,
            shown: None,
        }
    }

    /// The seconds to show.
    pub fn countdown(&self) -> (r: Option<u64>)
        ensures
            r == countdown_of(*self),
    {
        if self.counting {
            Some(self.ticks / 10 + if self.ticks % 10 == 0 { 0 } else { 1 })
        } else {
            None
        }
    }

    /// Whether the screen has to be drawn again; it then counts as drawn.
    pub fn refresh(&mut self) -> (r: bool)
        ensures
            r == (old(self).shown != Some((old(self).sel, countdown_of(*old(self))))),
            *final(self) == (Menu {
                shown: Some((old(self).sel, countdown_of(*old(self)))),
                ..*old(self)
            }),
    {
        let now = self.countdown();
        let same: bool = match self.shown {
            Some((s, c)) => s == self.sel && match (c, now) {
                (Some(a), Some(b)) => a == b,
                (None, None) => true,
                _ => false,
            },
            None => false,
        };
        self.shown = Some((self.sel, now));
        !same
    }

    /// Take in what was typed; `n` entries are offered.
    pub fn turn(&mut self, k: Key, n: usize) -> (r: Turn)
        requires
            old(self).sel < n,
        ensures
            final(self).sel < n,
            (*final(self), r) == turned(*old(self), k, n as int),
            r.pick matches Some(i) ==> i < n,
    {
        match k {
            Key::Up => {
                proof {
                    let s = self.sel as int;
                    if s == 0 {
                        assert((s + n - 1) % (n as int) == n - 1) by (nonlinear_arith)
                            requires
                                s == 0,
                                n > 0,
                        ;
                    } else {
                        assert((s + n - 1) % (n as int) == s - 1) by (nonlinear_arith)
                            requires
                                0 < s < n,
                        ;
                    }
                }
                self.sel = if self.sel == 0 { n - 1 } else { self.sel - 1 };
                self.counting = false;
            },
            Key::Down => {
                proof {
                    let s = self.sel as int;
                    assert((s + 1) % (n as int) == if s + 1 == n {
                        0
                    } else {
                        s + 1
                    }) by (nonlinear_arith)
                        requires
                            0 <= s < n,
                    ;
                }
                self.sel = if self.sel + 1 == n { 0 } else { self.sel + 1 };
                self.counting = false;
            },
            Key::Escape => {
                return Turn { wait_ms: 0, pick: Some(self.sel) };
            },
            Key::Char(c) => {
                if c == '\r' || c == '\n' {
                    return Turn { wait_ms: 0, pick: Some(self.sel) };
                }
                let v: u32 = c as u32;
                if v >= 0x30 && v <= 0x39 {
                    let d: usize = (v - 0x30) as usize;
                    if d < n {
                        return Turn { wait_ms: 0, pick: Some(d) };
                    }
                }
                self.counting = false;
            },
            Key::Nothing => {},
        }
        if self.counting {
            self.ticks = if self.ticks > 0 { self.ticks - 1 } else { 0 };
            Turn { wait_ms: 100, pick: if self.ticks == 0 { Some(self.sel) } else { None } }
        } else {
            Turn { wait_ms: 30, pick: None }
        }
    }
}

/// The menu left alone.
pub open spec fn left_alone(m: Menu, n: int, turns: nat) -> (Menu, Option<usize>)
    decreases turns,
{
    if turns == 0 {
        (m, None)
    } else {
        let (m2, t) = turned(m, Key::Nothing, n);
        match t.pick {
            Some(i) => (m2, Some(i)),
            None => left_alone(m2, n, (turns - 1) as nat),
        }
    }
}

/// Left alone, the menu boots the selected entry when the time is up, and not
/// a turn before.
pub proof fn law_countdown_boots_the_selection(m: Menu, n: int, turns: nat)
    requires
        m.counting,
        m.ticks > 0,
    ensures
        turns < m.ticks ==> left_alone(m, n, turns).1 is None,
        turns >= m.ticks ==> left_alone(m, n, turns).1 == Some(m.sel),
    decreases turns,
{
    if turns > 0 && m.ticks > 1 {
        let (m2, t) = turned(m, Key::Nothing, n);
        law_countdown_boots_the_selection(m2, n, (turns - 1) as nat);
    }
}

/// One line of the menu.
pub open spec fn entry_line(e: Ent, i: int, sel: int) -> Seq<char> {
    (if i == sel {
        "  > "@
    } else {
        "    "@
    }) + scan::digits(i as nat) + (if e.from_nvram {
        ". [nvram] "@
    } else {
        ". [disk ] "@
    }) + e.label
}

/// The last line of the menu.
pub open spec fn hint_line(label: Seq<char>, countdown: Option<u64>) -> Seq<char> {
    match countdown {
        Some(s) => "  booting `"@ + label + "` in "@ + scan::digits(s as nat)
            + "s   (up/down = choose, enter = now)"@,
        None => "  up/down = choose, enter = boot, digit = boot that entry"@,
    }
}

/// The screen: a heading, the entries, and what can be done.
pub open spec fn screen(v: Seq<Ent>, sel: int, countdown: Option<u64>) -> Seq<Seq<char>> {
    seq!["  THOS boot picker"@, "  ----------------"@] + Seq::new(
        v.len(),
        |i: int| entry_line(v[i], i, sel),
    ) + seq![Seq::<char>::empty(), hint_line(v[sel].label, countdown)]
}

fn append(r: &mut Vec<char>, s: &str)
    ensures
        final(r)@ == old(r)@ + s@,
{
    let c = text::chars_of(s);
    text::extend_chars(r, c.as_slice());
}

/// Lay out the screen.
pub fn draw(entries: &Vec<Entry>, sel: usize, countdown: Option<u64>) -> (r: Vec<Vec<char>>)
    requires
        sel < entries@.len(),
    ensures
        text::texts(r@) == screen(entry_views(entries@), sel as int, countdown),
{
    let n: usize = entries.len();
    let ghost v = entry_views(entries@);
    let mut r: Vec<Vec<char>> = Vec::new();
    r.push(text::chars_of("  THOS boot picker"));
    r.push(text::chars_of("  ----------------"));
    let ghost head = seq!["  THOS boot picker"@, "  ----------------"@];
    let ghost body = Seq::new(v.len(), |i: int| entry_line(v[i], i, sel as int));
    assert(text::texts(r@) =~= head + body.take(0));
    let mut i: usize = 0;
    while i < n
        invariant
            i <= n,
            n == entries@.len(),
            v == entry_views(entries@),
            body == Seq::new(v.len(), |i: int| entry_line(v[i], i, sel as int)),
            text::texts(r@) == head + body.take(i as int),
        decreases n - i,
    {
        let e = &entries[i];
        assert(v[i as int] == e@);
        let mut l: Vec<char> = Vec::new();
        append(&mut l, if i == sel { "  > " } else { "    " });
        let num = scan::to_digits(i as u64);
        text::extend_chars(&mut l, num.as_slice());
        append(&mut l, if e.from_nvram { ". [nvram] " } else { ". [disk ] " });
        text::extend_chars(&mut l, e.label.as_slice());
        assert(l@ =~= entry_line(v[i as int], i as int, sel as int));
        let ghost before = r@;
        let ghost lv = l@;
        r.push(l);
        assert(text::texts(r@) =~= text::texts(before).push(lv));
        i = i + 1;
        assert(text::texts(r@) =~= head + body.take(i as int));
    }
    assert(body.take(n as int) =~= body);
    let mut l: Vec<char> = Vec::new();
    match countdown {
        Some(s) => {
            append(&mut l, "  booting `");
            text::extend_chars(&mut l, entries[sel].label.as_slice());
            append(&mut l, "` in ");
            let num = scan::to_digits(s);
            text::extend_chars(&mut l, num.as_slice());
            append(&mut l, "s   (up/down = choose, enter = now)");
        },
        None => append(&mut l, "  up/down = choose, enter = boot, digit = boot that entry"),
    }
    assert(v[sel as int] == entries@[sel as int]@);
    assert(l@ =~= hint_line(v[sel as int].label, countdown));
    let ghost before = r@;
    let ghost lv = l@;
    r.push(Vec::new());
    r.push(l);
    assert(text::texts(r@) =~= text::texts(before) + seq![Seq::<char>::empty(), lv]);
    assert(text::texts(r@) =~= screen(v, sel as int, countdown));
    r
}

} // verus!
