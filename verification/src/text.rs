//! Text as sequences of characters: case folding, splitting, joining, and the
//! way to and from bytes.
use vstd::prelude::*;

verus! {

/// `String::push`: appends one character.
pub assume_specification[ String::push ](s: &mut String, ch: char)
    ensures
        final(s)@ == old(s)@.push(ch),
;

/// `core::str::from_utf8`: the text whose UTF-8 form is `b`, or nothing when
/// `b` is not well-formed UTF-8.
#[verifier::external_body]
pub(crate) fn utf8_text<'a>(b: &'a [u8]) -> (r: Option<&'a str>)
    ensures
        r is Some <==> vstd::utf8::valid_utf8(b@),
        r is Some ==> vstd::utf8::encode_utf8(r->0@) == b@,
{
    core::str::from_utf8(b).ok()
}

/// The characters of `s`, one per slot.
pub fn chars_of(s: &str) -> (r: Vec<char>)
    ensures
        r@ == s@,
{
    let mut r: Vec<char> = Vec::new();
    for c in it: s.chars()
        invariant
            it.seq() == s@,
            r@ == s@.take(it.index() as int),
    {
        r.push(c);
        assert(r@ =~= s@.take(it.index() + 1));
    }
    assert(r@ =~= s@);
    r
}

/// The string made of `v`.
pub fn string_of(v: &[char]) -> (r: String)
    ensures
        r@ == v@,
{
    let mut r: String = String::new();
    let n: usize = v.len();
    let mut i: usize = 0;
    while i < n
        invariant
            i <= n,
            n == v@.len(),
            r@ == v@.take(i as int),
        decreases n - i,
    {
        r.push(v[i]);
        i = i + 1;
        assert(r@ =~= v@.take(i as int));
    }
    assert(r@ =~= v@);
    r
}

/// The ASCII lower-case form of `c`; anything but `A`..`Z` is itself.
pub open spec fn lower(c: char) -> char {
    if 'A' <= c <= 'Z' {
        (c as u32 + 32) as char
    } else {
        c
    }
}

/// The ASCII lower-case form of a byte.
pub open spec fn lower8(b: u8) -> u8 {
    if 0x41 <= b <= 0x5A {
        (b + 32) as u8
    } else {
        b
    }
}

/// `s` with every ASCII capital folded to lower case.
pub open spec fn lowered(s: Seq<char>) -> Seq<char> {
    s.map_values(|c: char| lower(c))
}

pub fn to_lower(c: char) -> (r: char)
    ensures
        r == lower(c),
{
    if 'A' <= c && c <= 'Z' {
        ((c as u8) + 32) as char
    } else {
        c
    }
}

pub fn to_lower8(b: u8) -> (r: u8)
    ensures
        r == lower8(b),
{
    if 0x41 <= b && b <= 0x5A {
        b + 32
    } else {
        b
    }
}

pub fn to_lowered(s: &[char]) -> (r: Vec<char>)
    ensures
        r@ == lowered(s@),
{
    let mut r: Vec<char> = Vec::new();
    let n: usize = s.len();
    let mut i: usize = 0;
    while i < n
        invariant
            i <= n,
            n == s@.len(),
            r@ == lowered(s@).take(i as int),
        decreases n - i,
    {
        r.push(to_lower(s[i]));
        i = i + 1;
        assert(r@ =~= lowered(s@).take(i as int));
    }
    assert(r@ =~= lowered(s@));
    r
}

/// Whether `c` separates path components; a backslash does so only when `back`.
pub open spec fn is_sep(c: char, back: bool) -> bool {
    c == '/' || (back && c == '\\')
}

/// The runs of characters between separators, empty runs included.
pub open spec fn pieces(s: Seq<char>, back: bool) -> Seq<Seq<char>>
    decreases s.len(),
{
    if s.len() == 0 {
        seq![Seq::<char>::empty()]
    } else {
        let p = pieces(s.drop_last(), back);
        if is_sep(s.last(), back) {
            p.push(Seq::empty())
        } else {
            p.drop_last().push(p.last().push(s.last()))
        }
    }
}

/// The texts in `v`.
pub open spec fn texts(v: Seq<Vec<char>>) -> Seq<Seq<char>> {
    v.map_values(|x: Vec<char>| x@)
}

/// The members of `p` that are not empty, in order.
pub open spec fn nonempty(p: Seq<Seq<char>>) -> Seq<Seq<char>>
    decreases p.len(),
{
    if p.len() == 0 {
        Seq::empty()
    } else if p.last().len() == 0 {
        nonempty(p.drop_last())
    } else {
        nonempty(p.drop_last()).push(p.last())
    }
}

/// The members of `p` with `c` between each two.
pub open spec fn join(p: Seq<Seq<char>>, c: char) -> Seq<char>
    decreases p.len(),
{
    if p.len() == 0 {
        Seq::empty()
    } else if p.len() == 1 {
        p[0]
    } else {
        join(p.drop_last(), c).push(c) + p.last()
    }
}

pub proof fn lemma_pieces_nonempty(s: Seq<char>, back: bool)
    ensures
        pieces(s, back).len() >= 1,
    decreases s.len(),
{
    if s.len() > 0 {
        lemma_pieces_nonempty(s.drop_last(), back);
    }
}

/// Cut `s` at every separator.
pub fn split(s: &[char], back: bool) -> (r: Vec<Vec<char>>)
    ensures
        texts(r@) == pieces(s@, back),
        r@.len() >= 1,
{
    let mut r: Vec<Vec<char>> = Vec::new();
    let mut cur: Vec<char> = Vec::new();
    let n: usize = s.len();
    let mut i: usize = 0;
    assert(texts(r@).push(cur@) =~= pieces(s@.take(0), back));
    while i < n
        invariant
            i <= n,
            n == s@.len(),
            texts(r@).push(cur@) == pieces(s@.take(i as int), back),
        decreases n - i,
    {
        let c = s[i];
        let ghost before = texts(r@).push(cur@);
        let ghost pre = s@.take(i + 1);
        assert(pre.drop_last() =~= s@.take(i as int));
        assert(before.drop_last() =~= texts(r@));
        if c == '/' || (back && c == '\\') {
            r.push(cur);
            cur = Vec::new();
            assert(texts(r@) =~= before);
            assert(cur@ =~= Seq::<char>::empty());
        } else {
            cur.push(c);
        }
        i = i + 1;
        assert(texts(r@).push(cur@) =~= pieces(s@.take(i as int), back));
    }
    let ghost before = texts(r@).push(cur@);
    r.push(cur);
    assert(texts(r@) =~= before);
    assert(s@.take(n as int) =~= s@);
    r
}

/// The pieces of `s` that are not empty.
pub fn components_of(s: &[char], back: bool) -> (r: Vec<Vec<char>>)
    ensures
        texts(r@) == nonempty(pieces(s@, back)),
{
    let all = split(s, back);
    let mut r: Vec<Vec<char>> = Vec::new();
    let n: usize = all.len();
    let mut i: usize = 0;
    while i < n
        invariant
            i <= n,
            n == all@.len(),
            texts(r@) == nonempty(texts(all@).take(i as int)),
        decreases n - i,
    {
        let ghost r0 = r@;
        let ghost pre = texts(all@).take(i + 1);
        assert(pre.drop_last() =~= texts(all@).take(i as int));
        assert(pre.last() == all@[i as int]@);
        if all[i].len() > 0 {
            let w = copy_chars(all[i].as_slice());
            r.push(w);
            assert(texts(r@) =~= texts(r0).push(w@));
        }
        i = i + 1;
    }
    assert(texts(all@).take(n as int) =~= texts(all@));
    r
}

/// The members of `p` with `c` between each two.
pub fn join_with(p: &Vec<Vec<char>>, c: char) -> (r: Vec<char>)
    ensures
        r@ == join(texts(p@), c),
{
    let mut r: Vec<char> = Vec::new();
    let n: usize = p.len();
    let mut i: usize = 0;
    while i < n
        invariant
            i <= n,
            n == p@.len(),
            r@ == join(texts(p@).take(i as int), c),
        decreases n - i,
    {
        let ghost pre = texts(p@).take(i + 1);
        assert(pre.drop_last() =~= texts(p@).take(i as int));
        assert(pre.last() == p@[i as int]@);
        if i > 0 {
            r.push(c);
        } else {
            assert(pre[0] == p@[0]@);
        }
        extend_chars(&mut r, p[i].as_slice());
        i = i + 1;
        assert(r@ =~= join(pre, c));
    }
    assert(texts(p@).take(n as int) =~= texts(p@));
    r
}

pub fn extend_chars(r: &mut Vec<char>, s: &[char])
    ensures
        final(r)@ == old(r)@ + s@,
{
    r.extend_from_slice(s);
    assert(r@ =~= old(r)@ + s@);
}

pub fn copy_chars(s: &[char]) -> (r: Vec<char>)
    ensures
        r@ == s@,
{
    let mut r: Vec<char> = Vec::new();
    extend_chars(&mut r, s);
    assert(r@ =~= s@);
    r
}

/// Whether two texts are the same.
pub fn same_chars(a: &[char], b: &[char]) -> (r: bool)
    ensures
        r == (a@ == b@),
{
    if a.len() != b.len() {
        return false;
    }
    let n: usize = a.len();
    let mut i: usize = 0;
    while i < n
        invariant
            i <= n,
            n == a@.len(),
            n == b@.len(),
            forall|k: int| 0 <= k < i ==> a@[k] == b@[k],
        decreases n - i,
    {
        if a[i] != b[i] {
            assert(a@[i as int] != b@[i as int]);
            return false;
        }
        i = i + 1;
    }
    assert(a@ =~= b@);
    true
}

/// The runs of bytes between `sep` bytes, empty runs included.
pub open spec fn pieces8(s: Seq<u8>, sep: u8) -> Seq<Seq<u8>>
    decreases s.len(),
{
    if s.len() == 0 {
        seq![Seq::<u8>::empty()]
    } else {
        let p = pieces8(s.drop_last(), sep);
        if s.last() == sep {
            p.push(Seq::empty())
        } else {
            p.drop_last().push(p.last().push(s.last()))
        }
    }
}

/// The byte strings in `v`.
pub open spec fn texts8(v: Seq<Vec<u8>>) -> Seq<Seq<u8>> {
    v.map_values(|x: Vec<u8>| x@)
}

/// The members of `p` that are not empty, in order.
pub open spec fn nonempty8(p: Seq<Seq<u8>>) -> Seq<Seq<u8>>
    decreases p.len(),
{
    if p.len() == 0 {
        Seq::empty()
    } else if p.last().len() == 0 {
        nonempty8(p.drop_last())
    } else {
        nonempty8(p.drop_last()).push(p.last())
    }
}

/// The runs of `s` between `sep` bytes that are not empty.
pub fn components8(s: &[u8], sep: u8) -> (r: Vec<Vec<u8>>)
    ensures
        texts8(r@) == nonempty8(pieces8(s@, sep)),
{
    let all = split8(s, sep);
    let mut r: Vec<Vec<u8>> = Vec::new();
    let n: usize = all.len();
    let mut i: usize = 0;
    while i < n
        invariant
            i <= n,
            n == all@.len(),
            texts8(r@) == nonempty8(texts8(all@).take(i as int)),
        decreases n - i,
    {
        let ghost r0 = r@;
        let ghost pre = texts8(all@).take(i + 1);
        assert(pre.drop_last() =~= texts8(all@).take(i as int));
        assert(pre.last() == all@[i as int]@);
        if all[i].len() > 0 {
            let w = crate::bytes::sub(all[i].as_slice(), 0, all[i].len());
            assert(w@ =~= all@[i as int]@);
            r.push(w);
            assert(texts8(r@) =~= texts8(r0).push(w@));
        }
        i = i + 1;
    }
    assert(texts8(all@).take(n as int) =~= texts8(all@));
    r
}

/// Cut `s` at every `sep` byte.
pub fn split8(s: &[u8], sep: u8) -> (r: Vec<Vec<u8>>)
    ensures
        texts8(r@) == pieces8(s@, sep),
{
    let mut r: Vec<Vec<u8>> = Vec::new();
    let mut cur: Vec<u8> = Vec::new();
    let n: usize = s.len();
    let mut i: usize = 0;
    assert(texts8(r@).push(cur@) =~= pieces8(s@.take(0), sep));
    while i < n
        invariant
            i <= n,
            n == s@.len(),
            texts8(r@).push(cur@) == pieces8(s@.take(i as int), sep),
        decreases n - i,
    {
        let c: u8 = s[i];
        let ghost before = texts8(r@).push(cur@);
        let ghost pre = s@.take(i + 1);
        assert(pre.drop_last() =~= s@.take(i as int));
        assert(before.drop_last() =~= texts8(r@));
        if c == sep {
            r.push(cur);
            cur = Vec::new();
            assert(texts8(r@) =~= before);
            assert(cur@ =~= Seq::<u8>::empty());
        } else {
            cur.push(c);
        }
        i = i + 1;
        assert(texts8(r@).push(cur@) =~= pieces8(s@.take(i as int), sep));
    }
    let ghost before = texts8(r@).push(cur@);
    r.push(cur);
    assert(texts8(r@) =~= before);
    assert(s@.take(n as int) =~= s@);
    r
}

// --- UTF-16 ---

/// The UTF-16LE bytes of one character.
pub open spec fn wide1(c: char) -> Seq<u8> {
    let v = c as u32;
    if v < 0x10000 {
        crate::bytes::bytes16(v as u16)
    } else {
        crate::bytes::bytes16((0xD800 + (v - 0x10000) / 0x400) as u16) + crate::bytes::bytes16(
            (0xDC00 + (v - 0x10000) % 0x400) as u16,
        )
    }
}

/// The UTF-16LE bytes of `s`.
pub open spec fn wide(s: Seq<char>) -> Seq<u8>
    decreases s.len(),
{
    if s.len() == 0 {
        Seq::empty()
    } else {
        wide(s.drop_last()) + wide1(s.last())
    }
}

/// Encode as UTF-16LE.
pub fn to_wide(s: &[char]) -> (r: Vec<u8>)
    ensures
        r@ == wide(s@),
        r@.len() <= 4 * s@.len(),
{
    let mut r: Vec<u8> = Vec::new();
    let mut i: usize = 0;
    while i < s.len()
        invariant
            i <= s@.len(),
            r@ == wide(s@.take(i as int)),
            r@.len() <= 4 * i,
        decreases s@.len() - i,
    {
        let v: u32 = s[i] as u32;
        if v < 0x10000 {
            let b = crate::bytes::to_bytes16(v as u16);
            crate::bytes::extend(&mut r, b.as_slice());
        } else {
            let hi: u16 = (0xD800 + (v - 0x10000) / 0x400) as u16;
            let lo: u16 = (0xDC00 + (v - 0x10000) % 0x400) as u16;
            let b = crate::bytes::to_bytes16(hi);
            crate::bytes::extend(&mut r, b.as_slice());
            let b2 = crate::bytes::to_bytes16(lo);
            crate::bytes::extend(&mut r, b2.as_slice());
        }
        proof {
            assert(s@.take(i + 1).drop_last() =~= s@.take(i as int));
            assert(r@ =~= wide(s@.take(i as int)) + wide1(s@[i as int]));
        }
        i = i + 1;
    }
    proof {
        assert(s@.take(i as int) =~= s@);
    }
    r
}

// --- numbers and searching ---

/// The number that a run of decimal digits says; none where a character is no
/// digit. The empty text says 0.
pub open spec fn decimal(s: Seq<char>) -> Option<nat>
    decreases s.len(),
{
    if s.len() == 0 {
        Some(0)
    } else if !(0x30 <= s.last() as u32 <= 0x39) {
        None
    } else {
        match decimal(s.drop_last()) {
            Some(v) => Some((v * 10 + (s.last() as u32 - 0x30)) as nat),
            None => None,
        }
    }
}

/// A text that starts with what no number starts with says none; one whose
/// front is already too large stays so.
proof fn lemma_decimal_front(s: Seq<char>, k: int)
    requires
        0 <= k <= s.len(),
    ensures
        decimal(s.take(k)) is None ==> decimal(s) is None,
        decimal(s) is Some ==> decimal(s.take(k)) is Some && decimal(s.take(k))->0 <= decimal(s)->0,
    decreases s.len() - k,
{
    if k == s.len() {
        assert(s.take(k) =~= s);
    } else {
        lemma_decimal_front(s, k + 1);
        assert(s.take(k + 1).drop_last() =~= s.take(k));
    }
}

/// The decimal number `s` says, where it is at most `max`.
pub fn decimal_upto(s: &[char], max: u64) -> (r: Option<u64>)
    requires
        max < 0x1000_0000_0000_0000,
    ensures
        r == match decimal(s@) {
            Some(v) => if v <= max {
                Some(v as u64)
            } else {
                None
            },
            None => None,
        },
{
    let n: usize = s.len();
    let mut v: u64 = 0;
    let mut i: usize = 0;
    while i < n
        invariant
            i <= n,
            n == s@.len(),
            max < 0x1000_0000_0000_0000,
            v <= max,
            decimal(s@.take(i as int)) == Some(v as nat),
        decreases n - i,
    {
        let c: u32 = s[i] as u32;
        proof {
            lemma_decimal_front(s@, i + 1);
            assert(s@.take(i + 1).drop_last() =~= s@.take(i as int));
        }
        if c < 0x30 || c > 0x39 {
            return None;
        }
        let w: u64 = v * 10 + (c - 0x30) as u64;
        if w > max {
            return None;
        }
        v = w;
        i = i + 1;
    }
    assert(s@.take(i as int) =~= s@);
    Some(v)
}

/// What the text says as a 16-bit number: digits, with at most one leading
/// plus sign.
pub open spec fn u16_of(s: Seq<char>) -> Option<u16> {
    let t = if s.len() > 0 && s[0] == '+' {
        s.skip(1)
    } else {
        s
    };
    if t.len() == 0 {
        None
    } else {
        match decimal(t) {
            Some(v) => if v <= 65535 {
                Some(v as u16)
            } else {
                None
            },
            None => None,
        }
    }
}

/// Read a 16-bit number.
pub fn parse_u16(s: &[char]) -> (r: Option<u16>)
    ensures
        r == u16_of(s@),
{
    let n: usize = s.len();
    let t = if n > 0 && s[0] == '+' {
        vstd::slice::slice_subrange(s, 1, n)
    } else {
        s
    };
    proof {
        if n > 0 && s@[0] == '+' {
            assert(t@ =~= s@.skip(1));
        }
    }
    if t.len() == 0 {
        return None;
    }
    match decimal_upto(t, 65535) {
        Some(v) => Some(v as u16),
        None => None,
    }
}

/// The last of the first `n` places that holds `c`.
pub open spec fn last_at(s: Seq<char>, c: char, n: int) -> Option<int>
    decreases n,
{
    if n <= 0 {
        None
    } else if s[n - 1] == c {
        Some(n - 1)
    } else {
        last_at(s, c, n - 1)
    }
}

/// The last place that holds `c`.
pub fn find_last(s: &[char], c: char) -> (r: Option<usize>)
    ensures
        match last_at(s@, c, s@.len() as int) {
            Some(i) => r is Some && r->0 == i && i < s@.len(),
            None => r is None,
        },
{
    let mut n: usize = s.len();
    while n > 0
        invariant
            n <= s@.len(),
            last_at(s@, c, s@.len() as int) == last_at(s@, c, n as int),
        decreases n,
    {
        if s[n - 1] == c {
            return Some(n - 1);
        }
        n = n - 1;
    }
    None
}

// --- splitting and joining undo each other ---

/// Not empty, and without a separator.
pub open spec fn clean(p: Seq<char>, back: bool) -> bool {
    p.len() > 0 && forall|i: int| 0 <= i < p.len() ==> !is_sep(#[trigger] p[i], back)
}

pub open spec fn all_clean(p: Seq<Seq<char>>, back: bool) -> bool {
    forall|k: int| 0 <= k < p.len() ==> clean(#[trigger] p[k], back)
}

proof fn lemma_pieces_append(s: Seq<char>, t: Seq<char>, back: bool)
    requires
        forall|i: int| 0 <= i < t.len() ==> !is_sep(#[trigger] t[i], back),
    ensures
        pieces(s + t, back) == pieces(s, back).drop_last().push(pieces(s, back).last() + t),
    decreases t.len(),
{
    lemma_pieces_nonempty(s, back);
    let p = pieces(s, back);
    if t.len() == 0 {
        assert(s + t =~= s);
        assert(p.last() + t =~= p.last());
        assert(p.drop_last().push(p.last()) =~= p);
    } else {
        let u = t.drop_last();
        assert forall|i: int| 0 <= i < u.len() implies !is_sep(#[trigger] u[i], back) by {
            assert(u[i] == t[i]);
        }
        lemma_pieces_append(s, u, back);
        assert((s + t).drop_last() =~= s + u);
        assert((s + t).last() == t.last());
        assert(!is_sep(t[t.len() - 1], back));
        let q = pieces(s + u, back);
        assert(q.drop_last() =~= p.drop_last());
        assert(q.last().push(t.last()) =~= p.last() + t);
    }
}

/// Joining clean components and splitting the result again gives them back.
pub proof fn law_split_undoes_join(parts: Seq<Seq<char>>, c: char, back: bool)
    requires
        is_sep(c, back),
        all_clean(parts, back),
    ensures
        nonempty(pieces(join(parts, c), back)) == parts,
{
    if parts.len() == 0 {
        let p = pieces(join(parts, c), back);
        assert(p =~= seq![Seq::<char>::empty()]);
        assert(p.drop_last() =~= Seq::<Seq<char>>::empty());
        assert(nonempty(p.drop_last()) =~= Seq::<Seq<char>>::empty());
        assert(parts =~= Seq::<Seq<char>>::empty());
    } else {
        lemma_split_join(parts, c, back);
        lemma_nonempty_same(parts, back);
    }
}

pub proof fn lemma_split_join(parts: Seq<Seq<char>>, c: char, back: bool)
    requires
        parts.len() > 0,
        is_sep(c, back),
        all_clean(parts, back),
    ensures
        pieces(join(parts, c), back) == parts,
    decreases parts.len(),
{
    let last = parts.last();
    assert(clean(parts[parts.len() - 1], back));
    if parts.len() == 1 {
        let e = Seq::<char>::empty();
        lemma_pieces_append(e, last, back);
        assert(e + last =~= last);
        assert(pieces(e, back) =~= seq![e]);
        assert(pieces(last, back) =~= parts);
    } else {
        let front = parts.drop_last();
        assert forall|k: int| 0 <= k < front.len() implies clean(#[trigger] front[k], back) by {
            assert(front[k] == parts[k]);
        }
        lemma_split_join(front, c, back);
        let j = join(front, c);
        assert(j.push(c).drop_last() =~= j);
        let q = pieces(j.push(c), back);
        assert(q =~= front.push(Seq::empty()));
        lemma_pieces_append(j.push(c), last, back);
        assert(q.drop_last() =~= front);
        assert(q.last() + last =~= last);
        assert(front.push(last) =~= parts);
    }
}

proof fn lemma_nonempty_same(parts: Seq<Seq<char>>, back: bool)
    requires
        all_clean(parts, back),
    ensures
        nonempty(parts) == parts,
    decreases parts.len(),
{
    if parts.len() > 0 {
        let front = parts.drop_last();
        assert forall|k: int| 0 <= k < front.len() implies clean(#[trigger] front[k], back) by {
            assert(front[k] == parts[k]);
        }
        lemma_nonempty_same(front, back);
        assert(clean(parts[parts.len() - 1], back));
        assert(front.push(parts.last()) =~= parts);
    } else {
        assert(parts =~= Seq::<Seq<char>>::empty());
    }
}

pub proof fn lemma_pieces_without_seps(s: Seq<char>, back: bool)
    ensures
        forall|k: int, i: int|
            #![trigger pieces(s, back)[k][i]]
            0 <= k < pieces(s, back).len() && 0 <= i < pieces(s, back)[k].len() ==> !is_sep(
                pieces(s, back)[k][i],
                back,
            ),
    decreases s.len(),
{
    if s.len() > 0 {
        let f = s.drop_last();
        lemma_pieces_without_seps(f, back);
        lemma_pieces_nonempty(f, back);
        let p = pieces(f, back);
        let q = pieces(s, back);
        assert forall|k: int, i: int|
            #![trigger q[k][i]]
            0 <= k < q.len() && 0 <= i < q[k].len() implies !is_sep(q[k][i], back) by {
            if is_sep(s.last(), back) {
                if k < p.len() {
                    assert(q[k] == p[k]);
                    assert(!is_sep(p[k][i], back));
                }
            } else if k < p.len() - 1 {
                assert(q[k] == p[k]);
                assert(!is_sep(p[k][i], back));
            } else if i < p.last().len() {
                assert(q[k][i] == p[p.len() - 1][i]);
                assert(!is_sep(p[p.len() - 1][i], back));
            }
        }
    }
}

/// A leading separator adds one empty piece in front.
pub proof fn lemma_pieces_of_rooted(s: Seq<char>, back: bool)
    ensures
        pieces(seq!['/'] + s, back) == seq![Seq::<char>::empty()] + pieces(s, back),
    decreases s.len(),
{
    let r = seq!['/'] + s;
    let e = Seq::<char>::empty();
    if s.len() == 0 {
        assert(r =~= seq!['/']);
        assert(r.drop_last() =~= e);
        assert(pieces(e, back) =~= seq![e]);
        assert(r.last() == '/');
        assert(pieces(r, back) =~= pieces(e, back).push(e));
        assert(pieces(r, back) =~= seq![e, e]);
        assert(s =~= e);
        assert(seq![e] + pieces(s, back) =~= seq![e, e]);
    } else {
        lemma_pieces_of_rooted(s.drop_last(), back);
        lemma_pieces_nonempty(s.drop_last(), back);
        assert(r.drop_last() =~= seq!['/'] + s.drop_last());
        assert(r.last() == s.last());
        assert(pieces(r, back) =~= seq![e] + pieces(s, back));
    }
}

/// The components of any path are clean.
pub proof fn law_components_are_clean(s: Seq<char>, back: bool)
    ensures
        all_clean(nonempty(pieces(s, back)), back),
{
    lemma_pieces_without_seps(s, back);
    lemma_nonempty_clean(pieces(s, back), back);
}

proof fn lemma_nonempty_clean(p: Seq<Seq<char>>, back: bool)
    requires
        forall|k: int, i: int|
            #![trigger p[k][i]]
            0 <= k < p.len() && 0 <= i < p[k].len() ==> !is_sep(p[k][i], back),
    ensures
        all_clean(nonempty(p), back),
    decreases p.len(),
{
    if p.len() > 0 {
        let f = p.drop_last();
        assert forall|k: int, i: int|
            #![trigger f[k][i]]
            0 <= k < f.len() && 0 <= i < f[k].len() implies !is_sep(f[k][i], back) by {
            assert(f[k][i] == p[k][i]);
        }
        lemma_nonempty_clean(f, back);
        assert forall|i: int| 0 <= i < p.last().len() implies !is_sep(
            #[trigger] p.last()[i],
            back,
        ) by {
            assert(p.last()[i] == p[p.len() - 1][i]);
        }
    }
}

/// Whether two paths have the same components.
pub fn same_texts(a: &Vec<Vec<char>>, b: &Vec<Vec<char>>) -> (r: bool)
    ensures
        r == (texts(a@) == texts(b@)),
{
    let n: usize = a.len();
    if n != b.len() {
        assert(texts(a@).len() != texts(b@).len());
        return false;
    }
    let mut i: usize = 0;
    while i < n
        invariant
            i <= n,
            n == a@.len(),
            n == b@.len(),
            forall|k: int| 0 <= k < i ==> a@[k]@ == b@[k]@,
        decreases n - i,
    {
        if !same_chars(a[i].as_slice(), b[i].as_slice()) {
            assert(texts(a@)[i as int] != texts(b@)[i as int]);
            return false;
        }
        i = i + 1;
    }
    assert(texts(a@) =~= texts(b@));
    true
}

/// A white-space character.
pub open spec fn is_space(c: char) -> bool {
    let v = c as u32;
    9 <= v <= 13 || v == 0x20 || v == 0x85 || v == 0xA0 || v == 0x1680 || 0x2000 <= v <= 0x200A || v
        == 0x2028 || v == 0x2029 || v == 0x202F || v == 0x205F || v == 0x3000
}

pub fn is_white(c: char) -> (r: bool)
    ensures
        r == is_space(c),
{
    let v: u32 = c as u32;
    (9 <= v && v <= 13) || v == 0x20 || v == 0x85 || v == 0xA0 || v == 0x1680 || (0x2000 <= v && v
        <= 0x200A) || v == 0x2028 || v == 0x2029 || v == 0x202F || v == 0x205F || v == 0x3000
}

/// `s` without the white space at its end.
pub open spec fn trimmed_end(s: Seq<char>) -> Seq<char>
    decreases s.len(),
{
    if s.len() > 0 && is_space(s.last()) {
        trimmed_end(s.drop_last())
    } else {
        s
    }
}

/// `s` without the white space at its start.
pub open spec fn trimmed_start(s: Seq<char>) -> Seq<char>
    decreases s.len(),
{
    if s.len() > 0 && is_space(s[0]) {
        trimmed_start(s.skip(1))
    } else {
        s
    }
}

/// `s` without the white space around it.
pub open spec fn trimmed(s: Seq<char>) -> Seq<char> {
    trimmed_start(trimmed_end(s))
}

pub fn trim_end(s: &[char]) -> (r: Vec<char>)
    ensures
        r@ == trimmed_end(s@),
{
    let mut n: usize = s.len();
    assert(s@.take(n as int) =~= s@);
    while n > 0 && is_white(s[n - 1])
        invariant
            n <= s@.len(),
            trimmed_end(s@) == trimmed_end(s@.take(n as int)),
        decreases n,
    {
        assert(s@.take(n as int).drop_last() =~= s@.take(n - 1));
        n = n - 1;
    }
    let mut r: Vec<char> = Vec::new();
    let mut i: usize = 0;
    while i < n
        invariant
            i <= n,
            n <= s@.len(),
            r@ == s@.take(i as int),
        decreases n - i,
    {
        r.push(s[i]);
        i = i + 1;
        assert(r@ =~= s@.take(i as int));
    }
    r
}

pub fn trim(s: &[char]) -> (r: Vec<char>)
    ensures
        r@ == trimmed(s@),
{
    let t = trim_end(s);
    let n: usize = t.len();
    let mut i: usize = 0;
    assert(t@.skip(0) =~= t@);
    while i < n && is_white(t[i])
        invariant
            i <= n,
            n == t@.len(),
            trimmed_start(t@) == trimmed_start(t@.skip(i as int)),
        decreases n - i,
    {
        assert(t@.skip(i as int).skip(1) =~= t@.skip(i + 1));
        i = i + 1;
    }
    let mut r: Vec<char> = Vec::new();
    let mut j: usize = i;
    while j < n
        invariant
            i <= j <= n,
            n == t@.len(),
            r@ == t@.subrange(i as int, j as int),
        decreases n - j,
    {
        r.push(t[j]);
        j = j + 1;
        assert(r@ =~= t@.subrange(i as int, j as int));
    }
    assert(r@ =~= t@.skip(i as int));
    r
}

/// The first place of `c` in `s` from `i` on.
pub open spec fn first_at(s: Seq<char>, c: char, i: int) -> Option<int>
    decreases s.len() - i,
{
    if i >= s.len() {
        None
    } else if s[i] == c {
        Some(i)
    } else {
        first_at(s, c, i + 1)
    }
}

pub proof fn lemma_first_at(s: Seq<char>, c: char, i: int)
    requires
        0 <= i,
    ensures
        match first_at(s, c, i) {
            Some(k) => i <= k < s.len() && s[k] == c && forall|j: int| i <= j < k ==> s[j] != c,
            None => forall|j: int| i <= j < s.len() ==> s[j] != c,
        },
    decreases s.len() - i,
{
    if i < s.len() && s[i] != c {
        lemma_first_at(s, c, i + 1);
    }
}

pub fn find_first(s: &[char], c: char) -> (r: Option<usize>)
    ensures
        match first_at(s@, c, 0) {
            Some(k) => r is Some && r->0 == k && k < s@.len(),
            None => r is None,
        },
{
    let n: usize = s.len();
    let mut i: usize = 0;
    while i < n
        invariant
            i <= n,
            n == s@.len(),
            first_at(s@, c, 0) == first_at(s@, c, i as int),
        decreases n - i,
    {
        if s[i] == c {
            return Some(i);
        }
        i = i + 1;
    }
    None
}

pub fn sub_chars(s: &[char], from: usize, to: usize) -> (r: Vec<char>)
    requires
        from <= to <= s@.len(),
    ensures
        r@ == s@.subrange(from as int, to as int),
{
    let mut r: Vec<char> = Vec::new();
    let mut i: usize = from;
    while i < to
        invariant
            from <= i <= to,
            to <= s@.len(),
            r@ == s@.subrange(from as int, i as int),
        decreases to - i,
    {
        r.push(s[i]);
        i = i + 1;
        assert(r@ =~= s@.subrange(from as int, i as int));
    }
    r
}

/// A line without the carriage return at its end.
pub open spec fn without_cr(s: Seq<char>) -> Seq<char> {
    if s.len() > 0 && s.last() == '\r' {
        s.drop_last()
    } else {
        s
    }
}

/// The lines of `s`, without their ends. A carriage return belongs to the end
/// of a line only before a line feed.
pub open spec fn lines(s: Seq<char>) -> Seq<Seq<char>>
    decreases s.len(),
{
    match first_at(s, '\n', 0) {
        None => if s.len() == 0 {
            Seq::empty()
        } else {
            seq![s]
        },
        Some(i) => if 0 <= i < s.len() {
            seq![without_cr(s.take(i))] + lines(s.skip(i + 1))
        } else {
            Seq::empty()
        },
    }
}

pub fn split_lines(s: &[char]) -> (r: Vec<Vec<char>>)
    ensures
        texts(r@) == lines(s@),
{
    let mut r: Vec<Vec<char>> = Vec::new();
    let n: usize = s.len();
    let mut at: usize = 0;
    assert(s@.skip(0) =~= s@);
    assert(texts(r@) + lines(s@) =~= lines(s@));
    while at < n
        invariant
            at <= n,
            n == s@.len(),
            texts(r@) + lines(s@.skip(at as int)) == lines(s@),
        decreases n - at,
    {
        let rest = sub_chars(s, at, n);
        assert(rest@ =~= s@.skip(at as int));
        let ghost r0 = r@;
        match find_first(rest.as_slice(), '\n') {
            None => {
                r.push(rest);
                assert(texts(r@) =~= texts(r0) + seq![rest@]);
                return r;
            },
            Some(i) => {
                let mut line = sub_chars(rest.as_slice(), 0, i);
                assert(line@ =~= rest@.take(i as int));
                if line.len() > 0 && line[line.len() - 1] == '\r' {
                    let ghost l0 = line@;
                    let _cr = line.pop();
                    assert(line@ =~= l0.drop_last());
                }
                let ghost l = line@;
                r.push(line);
                proof {
                    assert(texts(r@) =~= texts(r0).push(l));
                    assert(rest@.skip(i + 1) =~= s@.skip(at + i + 1));
                    assert(texts(r@) + lines(s@.skip(at + i + 1)) =~= texts(r0) + (seq![l] + lines(
                        s@.skip(at + i + 1),
                    )));
                }
                at = at + i + 1;
            },
        }
    }
    assert(s@.skip(at as int).len() == 0);
    assert(lines(s@.skip(at as int)) =~= Seq::empty());
    assert(texts(r@) + lines(s@.skip(at as int)) =~= texts(r@));
    r
}

// --- UTF-8 ---

/// The length of the longest prefix that is valid UTF-8.
pub fn utf8_prefix(b: &[u8]) -> (r: usize)
    ensures
        r <= b@.len(),
        vstd::utf8::valid_utf8(b@.take(r as int)),
        forall|n: int| r < n <= b@.len() ==> !vstd::utf8::valid_utf8(#[trigger] b@.take(n)),
{
    let mut n: usize = b.len();
    while n > 0
        invariant
            n <= b@.len(),
            forall|k: int| n < k <= b@.len() ==> !vstd::utf8::valid_utf8(#[trigger] b@.take(k)),
        decreases n,
    {
        let head = vstd::slice::slice_subrange(b, 0, n);
        assert(head@ =~= b@.take(n as int));
        if utf8_text(head).is_some() {
            return n;
        }
        n = n - 1;
    }
    assert(b@.take(0).len() == 0);
    0
}

} // verus!
