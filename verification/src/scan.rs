//! Searching in texts, and the numbers and words in them.
use vstd::prelude::*;

use crate::text;

verus! {

/// Whether `t` stands in `s` at `i`.
pub open spec fn occurs_at(s: Seq<char>, t: Seq<char>, i: int) -> bool {
    0 <= i && i + t.len() <= s.len() && s.subrange(i, i + t.len()) == t
}

/// The first place, from `i` on, at which `t` stands in `s`.
pub open spec fn found_at(s: Seq<char>, t: Seq<char>, i: int) -> Option<int>
    decreases s.len() + 1 - i,
{
    if i < 0 || i + t.len() > s.len() {
        None
    } else if s.subrange(i, i + t.len()) == t {
        Some(i)
    } else {
        found_at(s, t, i + 1)
    }
}

pub open spec fn contained(s: Seq<char>, t: Seq<char>) -> bool {
    found_at(s, t, 0) is Some
}

pub open spec fn starts(s: Seq<char>, t: Seq<char>) -> bool {
    occurs_at(s, t, 0)
}

pub open spec fn ends(s: Seq<char>, t: Seq<char>) -> bool {
    occurs_at(s, t, s.len() - t.len())
}

/// The place found is the first one; none is found only where there is none.
pub proof fn law_search_finds_the_first(s: Seq<char>, t: Seq<char>, i: int)
    requires
        0 <= i,
    ensures
        match found_at(s, t, i) {
            Some(k) => i <= k && occurs_at(s, t, k) && forall|j: int|
                i <= j < k ==> !#[trigger] occurs_at(s, t, j),
            None => forall|j: int| i <= j ==> !#[trigger] occurs_at(s, t, j),
        },
    decreases s.len() + 1 - i,
{
    if i + t.len() <= s.len() && s.subrange(i, i + t.len()) != t {
        law_search_finds_the_first(s, t, i + 1);
    }
}

/// Whether `t` stands in `s` at `i`.
pub fn stands_at(s: &[char], t: &[char], i: usize) -> (r: bool)
    ensures
        r == occurs_at(s@, t@, i as int),
{
    let n: usize = s.len();
    let m: usize = t.len();
    if i > n || n - i < m {
        return false;
    }
    let mut k: usize = 0;
    while k < m
        invariant
            k <= m,
            n == s@.len(),
            m == t@.len(),
            i + m <= n,
            forall|j: int| 0 <= j < k ==> s@[i + j] == t@[j],
        decreases m - k,
    {
        if s[i + k] != t[k] {
            assert(s@.subrange(i as int, i + m)[k as int] != t@[k as int]);
            return false;
        }
        k = k + 1;
    }
    assert(s@.subrange(i as int, i + m) =~= t@);
    true
}

/// Find `t` in `s`, from `from` on.
pub fn find_text(s: &[char], t: &[char], from: usize) -> (r: Option<usize>)
    ensures
        match found_at(s@, t@, from as int) {
            Some(k) => r is Some && r->0 == k && k + t@.len() <= s@.len(),
            None => r is None,
        },
{
    let n: usize = s.len();
    let m: usize = t.len();
    let mut i: usize = from;
    while i <= n && n - i >= m
        invariant
            n == s@.len(),
            m == t@.len(),
            found_at(s@, t@, from as int) == found_at(s@, t@, i as int),
        decreases n - i,
    {
        if stands_at(s, t, i) {
            return Some(i);
        }
        if i == n {
            assert(found_at(s@, t@, i + 1) is None);
            return None;
        }
        i = i + 1;
    }
    None
}

pub fn contains_text(s: &[char], t: &[char]) -> (r: bool)
    ensures
        r == contained(s@, t@),
{
    find_text(s, t, 0).is_some()
}

pub fn starts_with(s: &[char], t: &[char]) -> (r: bool)
    ensures
        r == starts(s@, t@),
{
    stands_at(s, t, 0)
}

pub fn ends_with(s: &[char], t: &[char]) -> (r: bool)
    ensures
        r == ends(s@, t@),
{
    let n: usize = s.len();
    let m: usize = t.len();
    if m > n {
        return false;
    }
    stands_at(s, t, n - m)
}

/// Whether `s` is the literal `t`.
pub fn is_word(s: &[char], t: &str) -> (r: bool)
    ensures
        r == (s@ == t@),
{
    let c = text::chars_of(t);
    text::same_chars(s, c.as_slice())
}

// --- numbers ---

/// The number a text says: decimal digits, at least one, behind at most one
/// plus sign.
pub open spec fn number(s: Seq<char>) -> Option<nat> {
    let t = if s.len() > 0 && s[0] == '+' {
        s.skip(1)
    } else {
        s
    };
    if t.len() == 0 {
        None
    } else {
        text::decimal(t)
    }
}

/// The number, where it is at most `max`.
pub open spec fn number_upto(s: Seq<char>, max: nat) -> Option<nat> {
    match number(s) {
        Some(v) => if v <= max {
            Some(v)
        } else {
            None
        },
        None => None,
    }
}

proof fn lemma_front(s: Seq<char>, k: int)
    requires
        0 <= k <= s.len(),
    ensures
        text::decimal(s.take(k)) is None ==> text::decimal(s) is None,
        text::decimal(s) is Some ==> text::decimal(s.take(k)) is Some && text::decimal(
            s.take(k),
        )->0 <= text::decimal(s)->0,
    decreases s.len() - k,
{
    if k == s.len() {
        assert(s.take(k) =~= s);
    } else {
        lemma_front(s, k + 1);
        assert(s.take(k + 1).drop_last() =~= s.take(k));
    }
}

/// Read a number of at most `max`.
pub fn parse_upto(s: &[char], max: u64) -> (r: Option<u64>)
    ensures
        match number_upto(s@, max as nat) {
            Some(v) => r is Some && r->0 == v,
            None => r is None,
        },
{
    let n: usize = s.len();
    let t = if n > 0 && s[0] == '+' {
        vstd::slice::slice_subrange(s, 1, n)
    } else {
        s
    };
    proof {
        if n > 0 && s@[0] == '+' {
            assert(t@ =~= s@.skip(1));
        }
    }
    let m: usize = t.len();
    if m == 0 {
        return None;
    }
    let mut v: u64 = 0;
    let mut i: usize = 0;
    while i < m
        invariant
            i <= m,
            m == t@.len(),
            m > 0,
            v <= max,
            number(s@) == text::decimal(t@),
            text::decimal(t@.take(i as int)) == Some(v as nat),
        decreases m - i,
    {
        let c: u32 = t[i] as u32;
        proof {
            lemma_front(t@, i + 1);
            assert(t@.take(i + 1).drop_last() =~= t@.take(i as int));
        }
        if c < 0x30 || c > 0x39 {
            return None;
        }
        let w: u128 = v as u128 * 10 + (c - 0x30) as u128;
        if w > max as u128 {
            return None;
        }
        v = w as u64;
        i = i + 1;
    }
    assert(t@.take(i as int) =~= t@);
    Some(v)
}

/// The decimal digits of a number.
pub open spec fn digits(n: nat) -> Seq<char>
    decreases n,
{
    let last = ((n % 10 + 0x30) as u8) as char;
    if n < 10 {
        seq![last]
    } else {
        digits(n / 10).push(last)
    }
}

/// Write a number in decimal.
pub fn to_digits(n: u64) -> (r: Vec<char>)
    ensures
        r@ == digits(n as nat),
    decreases n,
{
    let last: char = ((n % 10) as u8 + 0x30) as char;
    if n < 10 {
        let r = vec![last];
        assert(r@ =~= digits(n as nat));
        r
    } else {
        let mut r = to_digits(n / 10);
        r.push(last);
        r
    }
}

proof fn lemma_digits_say(n: nat)
    ensures
        text::decimal(digits(n)) == Some(n),
        digits(n).len() > 0,
        digits(n)[0] != '+',
    decreases n,
{
    let last = ((n % 10 + 0x30) as u8) as char;
    if n < 10 {
        assert(digits(n).drop_last() =~= Seq::<char>::empty());
        assert(text::decimal(Seq::<char>::empty()) == Some(0nat));
        assert(digits(n).last() == last);
    } else {
        lemma_digits_say(n / 10);
        assert(digits(n).drop_last() =~= digits(n / 10));
    }
}

/// Reading a written number gives the number back.
pub proof fn law_written_numbers_read_back(n: nat)
    ensures
        number(digits(n)) == Some(n),
{
    lemma_digits_say(n);
}

// --- words ---

/// Where the word or the white space that starts at `i` ends; `white` says
/// which it is.
pub open spec fn word_end(s: Seq<char>, i: int, white: bool) -> int
    decreases s.len() - i,
{
    if 0 <= i < s.len() && text::is_space(s[i]) == white {
        word_end(s, i + 1, white)
    } else {
        i
    }
}

proof fn lemma_word_end(s: Seq<char>, i: int, white: bool)
    requires
        0 <= i <= s.len(),
    ensures
        i <= word_end(s, i, white) <= s.len(),
        i < s.len() && text::is_space(s[i]) == white ==> word_end(s, i, white) > i,
        word_end(s, i, white) < s.len() ==> text::is_space(s[word_end(s, i, white)]) != white,
    decreases s.len() - i,
{
    if i < s.len() && text::is_space(s[i]) == white {
        lemma_word_end(s, i + 1, white);
    }
}

/// The words of `s` from `i` on: what stands between white space.
pub open spec fn words_from(s: Seq<char>, i: int) -> Seq<Seq<char>>
    decreases s.len() - i,
{
    let a = word_end(s, i, true);
    let b = word_end(s, a, false);
    if i < 0 || i > s.len() || a < i || a >= s.len() || b <= a || b > s.len() {
        Seq::empty()
    } else {
        seq![s.subrange(a, b)] + words_from(s, b)
    }
}

pub open spec fn words(s: Seq<char>) -> Seq<Seq<char>> {
    words_from(s, 0)
}

/// Split a text at its white space.
pub fn split_words(s: &[char]) -> (r: Vec<Vec<char>>)
    ensures
        text::texts(r@) == words(s@),
{
    let n: usize = s.len();
    let mut r: Vec<Vec<char>> = Vec::new();
    let mut i: usize = 0;
    assert(text::texts(r@) + words_from(s@, 0) =~= words(s@));
    loop
        invariant
            i <= n,
            n == s@.len(),
            text::texts(r@) + words_from(s@, i as int) == words(s@),
        ensures
            text::texts(r@) == words(s@),
        decreases n - i,
    {
        let ghost i0 = i;
        while i < n && text::is_white(s[i])
            invariant
                i0 <= i <= n,
                n == s@.len(),
                word_end(s@, i0 as int, true) == word_end(s@, i as int, true),
            decreases n - i,
        {
            i = i + 1;
        }
        let a: usize = i;
        while i < n && !text::is_white(s[i])
            invariant
                a <= i <= n,
                n == s@.len(),
                word_end(s@, a as int, false) == word_end(s@, i as int, false),
            decreases n - i,
        {
            i = i + 1;
        }
        proof {
            assert(a == word_end(s@, i0 as int, true));
            assert(i == word_end(s@, a as int, false));
            lemma_word_end(s@, a as int, false);
        }
        if a == n {
            assert(words_from(s@, i0 as int) =~= Seq::<Seq<char>>::empty());
            assert(text::texts(r@) =~= words(s@));
            break;
        }
        let w = text::sub_chars(s, a, i);
        let ghost before = r@;
        r.push(w);
        proof {
            lemma_word_end(s@, i0 as int, true);
            assert(text::texts(r@) =~= text::texts(before).push(w@));
            assert(text::texts(r@) + words_from(s@, i as int) =~= text::texts(before) + words_from(
                s@,
                i0 as int,
            ));
        }
    }
    r
}

// --- pieces ---

/// The pieces of `s` between the characters of two kinds.
pub open spec fn cut(s: Seq<char>, a: char, b: char) -> Seq<Seq<char>>
    decreases s.len(),
{
    if s.len() == 0 {
        seq![s]
    } else if s.last() == a || s.last() == b {
        cut(s.drop_last(), a, b).push(Seq::empty())
    } else {
        let p = cut(s.drop_last(), a, b);
        p.drop_last().push(p.last().push(s.last()))
    }
}

/// Split a text at the characters `a` and `b`.
pub fn split_at_either(s: &[char], a: char, b: char) -> (r: Vec<Vec<char>>)
    ensures
        text::texts(r@) == cut(s@, a, b),
        r@.len() > 0,
{
    let n: usize = s.len();
    let mut r: Vec<Vec<char>> = Vec::new();
    let mut piece: Vec<char> = Vec::new();
    let mut i: usize = 0;
    assert(s@.take(0) =~= Seq::<char>::empty());
    assert(text::texts(r@).push(piece@) =~= cut(s@.take(0), a, b));
    while i < n
        invariant
            i <= n,
            n == s@.len(),
            text::texts(r@).push(piece@) == cut(s@.take(i as int), a, b),
        decreases n - i,
    {
        let c = s[i];
        assert(s@.take(i + 1).drop_last() =~= s@.take(i as int));
        let ghost before = r@;
        let ghost old_piece = piece@;
        if c == a || c == b {
            let mut done: Vec<char> = Vec::new();
            std::mem::swap(&mut done, &mut piece);
            r.push(done);
            assert(text::texts(r@) =~= text::texts(before).push(old_piece));
            assert(piece@ =~= Seq::<char>::empty());
        } else {
            piece.push(c);
            assert(text::texts(before).push(old_piece).drop_last() =~= text::texts(before));
        }
        i = i + 1;
        assert(text::texts(r@).push(piece@) =~= cut(s@.take(i as int), a, b));
    }
    assert(s@.take(n as int) =~= s@);
    let ghost before = r@;
    let ghost last = piece@;
    r.push(piece);
    assert(text::texts(r@) =~= text::texts(before).push(last));
    r
}

} // verus!
