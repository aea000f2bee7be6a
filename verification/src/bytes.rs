//! Little-endian scalars inside byte sequences.
use vstd::prelude::*;

verus! {

/// The two bytes at `i`, least significant first.
pub open spec fn le16(s: Seq<u8>, i: int) -> u16 {
    (s[i] + 0x100 * s[i + 1]) as u16
}

/// The four bytes at `i`, least significant first.
pub open spec fn le32(s: Seq<u8>, i: int) -> u32 {
    (s[i] + 0x100 * s[i + 1] + 0x1_0000 * s[i + 2] + 0x100_0000 * s[i + 3]) as u32
}

/// The eight bytes at `i`, least significant first.
pub open spec fn le64(s: Seq<u8>, i: int) -> u64 {
    (le32(s, i) + 0x1_0000_0000 * le32(s, i + 4)) as u64
}

/// `v` as two bytes, least significant first.
pub open spec fn bytes16(v: u16) -> Seq<u8> {
    seq![(v % 0x100) as u8, (v / 0x100) as u8]
}

/// `v` as four bytes, least significant first.
pub open spec fn bytes32(v: u32) -> Seq<u8> {
    seq![
        (v % 0x100) as u8,
        (v / 0x100 % 0x100) as u8,
        (v / 0x1_0000 % 0x100) as u8,
        (v / 0x100_0000) as u8,
    ]
}

/// `v` as eight bytes, least significant first.
pub open spec fn bytes64(v: u64) -> Seq<u8> {
    bytes32((v % 0x1_0000_0000) as u32) + bytes32((v / 0x1_0000_0000) as u32)
}

/// `s` with the bytes `b` laid over it from `at` on.
pub open spec fn splice(s: Seq<u8>, at: int, b: Seq<u8>) -> Seq<u8> {
    Seq::new(s.len(), |i: int| if at <= i < at + b.len() { b[i - at] } else { s[i] })
}

/// `n` zero bytes.
pub open spec fn zeros(n: nat) -> Seq<u8> {
    Seq::new(n, |i: int| 0u8)
}

/// What a 16-bit store leaves is what a 16-bit load gives back.
pub proof fn lemma_le16_of_splice(s: Seq<u8>, at: int, v: u16)
    requires
        0 <= at,
        at + 2 <= s.len(),
    ensures
        le16(splice(s, at, bytes16(v)), at) == v,
{
}

/// What a 32-bit store leaves is what a 32-bit load gives back.
pub proof fn lemma_le32_of_splice(s: Seq<u8>, at: int, v: u32)
    requires
        0 <= at,
        at + 4 <= s.len(),
    ensures
        le32(splice(s, at, bytes32(v)), at) == v,
{
}

/// What a 64-bit store leaves is what a 64-bit load gives back.
pub proof fn lemma_le64_of_splice(s: Seq<u8>, at: int, v: u64)
    requires
        0 <= at,
        at + 8 <= s.len(),
    ensures
        le64(splice(s, at, bytes64(v)), at) == v,
{
    let lo: u32 = (v % 0x1_0000_0000) as u32;
    let hi: u32 = (v / 0x1_0000_0000) as u32;
    let t = splice(s, at, bytes64(v));
    let t1 = splice(s, at, bytes32(lo));
    let t2 = splice(s, at + 4, bytes32(hi));
    lemma_le32_of_splice(s, at, lo);
    lemma_le32_of_splice(s, at + 4, hi);
    assert(t.subrange(at, at + 4) =~= t1.subrange(at, at + 4));
    assert(t.subrange(at + 4, at + 8) =~= t2.subrange(at + 4, at + 8));
    lemma_le32_ext(t, t1, at);
    lemma_le32_ext(t, t2, at + 4);
}

/// A 64-bit store changes the eight bytes it goes to and no others: words
/// beside them read as before.
pub proof fn lemma_store64(s: Seq<u8>, at: int, v: u64)
    requires
        0 <= at,
        at + 8 <= s.len(),
    ensures
        splice(s, at, bytes64(v)).len() == s.len(),
        le64(splice(s, at, bytes64(v)), at) == v,
        forall|k: int|
            0 <= k && (k + 8 <= at || at + 8 <= k) && k + 8 <= s.len() ==> #[trigger] le64(
                splice(s, at, bytes64(v)),
                k,
            ) == le64(s, k),
        forall|k: int|
            0 <= k && (k + 4 <= at || at + 8 <= k) && k + 4 <= s.len() ==> #[trigger] le32(
                splice(s, at, bytes64(v)),
                k,
            ) == le32(s, k),
{
    lemma_le64_of_splice(s, at, v);
}

/// A 32-bit load looks at four bytes and no more.
proof fn lemma_le32_ext(s: Seq<u8>, t: Seq<u8>, at: int)
    requires
        0 <= at,
        at + 4 <= s.len(),
        at + 4 <= t.len(),
        s.subrange(at, at + 4) == t.subrange(at, at + 4),
    ensures
        le32(s, at) == le32(t, at),
{
    let a = s.subrange(at, at + 4);
    let b = t.subrange(at, at + 4);
    assert(a[0] == b[0] && a[1] == b[1] && a[2] == b[2] && a[3] == b[3]);
}

/// Read 16 bits; the caller has checked the range.
pub fn load16(b: &[u8], at: usize) -> (r: u16)
    requires
        at + 2 <= b@.len(),
    ensures
        r == le16(b@, at as int),
{
    b[at] as u16 + 0x100 * (b[at + 1] as u16)
}

/// Read 32 bits; the caller has checked the range.
pub fn load32(b: &[u8], at: usize) -> (r: u32)
    requires
        at + 4 <= b@.len(),
    ensures
        r == le32(b@, at as int),
{
    b[at] as u32 + 0x100 * (b[at + 1] as u32) + 0x1_0000 * (b[at + 2] as u32) + 0x100_0000 * (b[at
        + 3] as u32)
}

/// Read 64 bits; the caller has checked the range.
pub fn load64(b: &[u8], at: usize) -> (r: u64)
    requires
        at + 8 <= b@.len(),
    ensures
        r == le64(b@, at as int),
{
    let n: usize = b.len();
    assert(at + 8 <= n);
    let lo: u32 = load32(b, at);
    let hi: u32 = load32(b, at + 4);
    lo as u64 + 0x1_0000_0000 * (hi as u64)
}

/// The two bytes of `v`.
pub fn to_bytes16(v: u16) -> (r: Vec<u8>)
    ensures
        r@ == bytes16(v),
{
    vec![(v % 0x100) as u8, (v / 0x100) as u8]
}

/// The four bytes of `v`.
pub fn to_bytes32(v: u32) -> (r: Vec<u8>)
    ensures
        r@ == bytes32(v),
{
    vec![
        (v % 0x100) as u8,
        (v / 0x100 % 0x100) as u8,
        (v / 0x1_0000 % 0x100) as u8,
        (v / 0x100_0000) as u8,
    ]
}

/// The eight bytes of `v`.
pub fn to_bytes64(v: u64) -> (r: Vec<u8>)
    ensures
        r@ == bytes64(v),
{
    let mut r = to_bytes32((v % 0x1_0000_0000) as u32);
    let hi = to_bytes32((v / 0x1_0000_0000) as u32);
    extend(&mut r, hi.as_slice());
    r
}

/// Lay `b` over `buf` from `at` on.
pub fn put(buf: &mut Vec<u8>, at: usize, b: &[u8])
    requires
        at + b@.len() <= old(buf)@.len(),
    ensures
        final(buf)@ == splice(old(buf)@, at as int, b@),
{
    let n: usize = b.len();
    let total: usize = buf.len();
    let mut i: usize = 0;
    while i < n
        invariant
            i <= n,
            n == b@.len(),
            at + n <= total,
            total == old(buf)@.len(),
            buf@.len() == old(buf)@.len(),
            forall|k: int|
                0 <= k < buf@.len() ==> #[trigger] buf@[k] == if at <= k < at + i {
                    b@[k - at]
                } else {
                    old(buf)@[k]
                },
        decreases n - i,
    {
        buf[at + i] = b[i];
        i = i + 1;
    }
    assert(buf@ =~= splice(old(buf)@, at as int, b@));
}

/// Store 16 bits at `at`.
pub fn put16(buf: &mut Vec<u8>, at: usize, v: u16)
    requires
        at + 2 <= old(buf)@.len(),
    ensures
        final(buf)@ == splice(old(buf)@, at as int, bytes16(v)),
{
    let b = to_bytes16(v);
    put(buf, at, b.as_slice());
}

/// Store 32 bits at `at`.
pub fn put32(buf: &mut Vec<u8>, at: usize, v: u32)
    requires
        at + 4 <= old(buf)@.len(),
    ensures
        final(buf)@ == splice(old(buf)@, at as int, bytes32(v)),
{
    let b = to_bytes32(v);
    put(buf, at, b.as_slice());
}

/// Store 64 bits at `at`.
pub fn put64(buf: &mut Vec<u8>, at: usize, v: u64)
    requires
        at + 8 <= old(buf)@.len(),
    ensures
        final(buf)@ == splice(old(buf)@, at as int, bytes64(v)),
{
    let b = to_bytes64(v);
    put(buf, at, b.as_slice());
}

/// A buffer of `n` zero bytes.
pub fn zeroed(n: usize) -> (r: Vec<u8>)
    ensures
        r@ == zeros(n as nat),
{
    let r: Vec<u8> = vec![0u8; n];
    assert(r@ =~= zeros(n as nat));
    r
}

/// Append `b` to `buf`.
pub fn extend(buf: &mut Vec<u8>, b: &[u8])
    ensures
        final(buf)@ == old(buf)@ + b@,
{
    buf.extend_from_slice(b);
    assert(buf@ =~= old(buf)@ + b@);
}

/// The bytes `b[from..to]` as a fresh buffer.
pub fn sub(b: &[u8], from: usize, to: usize) -> (r: Vec<u8>)
    requires
        from <= to <= b@.len(),
    ensures
        r@ == b@.subrange(from as int, to as int),
{
    let mut r: Vec<u8> = Vec::new();
    let mut i: usize = from;
    while i < to
        invariant
            from <= i <= to <= b@.len(),
            r@ == b@.subrange(from as int, i as int),
        decreases to - i,
    {
        r.push(b[i]);
        i = i + 1;
        assert(r@ =~= b@.subrange(from as int, i as int));
    }
    r
}

/// Whether two byte strings are the same.
pub fn same(a: &[u8], b: &[u8]) -> (r: bool)
    ensures
        r == (a@ == b@),
{
    if a.len() != b.len() {
        return false;
    }
    let n: usize = a.len();
    let mut i: usize = 0;
    while i < n
        invariant
            i <= n,
            n == a@.len(),
            n == b@.len(),
            forall|k: int| 0 <= k < i ==> a@[k] == b@[k],
        decreases n - i,
    {
        if a[i] != b[i] {
            assert(a@[i as int] != b@[i as int]);
            return false;
        }
        i = i + 1;
    }
    assert(a@ =~= b@);
    true
}

} // verus!
