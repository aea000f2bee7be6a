//! What the components of a path depend on: not the kind of separator, nor how
//! many stand together or at the ends.

use vstd::prelude::*;

use crate::text;

verus! {

/// The components of a path.
pub open spec fn parts(s: Seq<char>, back: bool) -> Seq<Seq<char>> {
    text::nonempty(text::pieces(s, back))
}

/// The components in lower case.
pub open spec fn low_parts(s: Seq<char>, back: bool) -> Seq<Seq<char>> {
    parts(s, back).map_values(|p: Seq<char>| text::lowered(p))
}

/// The two differ in the case of their letters and in which separator stands
/// where one stands.
pub open spec fn alike(s: Seq<char>, t: Seq<char>, back: bool) -> bool {
    &&& s.len() == t.len()
    &&& forall|i: int|
        #![trigger s[i]]
        #![trigger t[i]]
        0 <= i < s.len() ==> (text::is_sep(s[i], back) && text::is_sep(t[i], back)) || text::lower(
            s[i],
        ) == text::lower(t[i])
}

/// Every character is a separator.
pub open spec fn blank(s: Seq<char>, back: bool) -> bool {
    forall|i: int| 0 <= i < s.len() ==> text::is_sep(#[trigger] s[i], back)
}

proof fn lemma_nonempty_concat(p: Seq<Seq<char>>, q: Seq<Seq<char>>)
    ensures
        text::nonempty(p + q) == text::nonempty(p) + text::nonempty(q),
    decreases q.len(),
{
    if q.len() == 0 {
        assert(p + q =~= p);
        assert(text::nonempty(p) + text::nonempty(q) =~= text::nonempty(p));
    } else {
        lemma_nonempty_concat(p, q.drop_last());
        assert((p + q).drop_last() =~= p + q.drop_last());
        assert((p + q).last() == q.last());
        assert(text::nonempty(p + q) =~= text::nonempty(p) + text::nonempty(q));
    }
}

proof fn lemma_pieces_at_separator(a: Seq<char>, c: char, b: Seq<char>, back: bool)
    requires
        text::is_sep(c, back),
    ensures
        text::pieces(a.push(c) + b, back) == text::pieces(a, back) + text::pieces(b, back),
    decreases b.len(),
{
    let s = a.push(c) + b;
    if b.len() == 0 {
        assert(s =~= a.push(c));
        assert(s.drop_last() =~= a);
        assert(text::pieces(b, back) =~= seq![Seq::<char>::empty()]);
        assert(text::pieces(s, back) =~= text::pieces(a, back) + text::pieces(b, back));
    } else {
        let f = b.drop_last();
        lemma_pieces_at_separator(a, c, f, back);
        text::lemma_pieces_nonempty(f, back);
        assert(s.drop_last() =~= a.push(c) + f);
        assert(s.last() == b.last());
        assert(text::pieces(s, back) =~= text::pieces(a, back) + text::pieces(b, back));
    }
}

/// A separator parts what comes before it from what comes after it: the
/// components are those of the one side and then those of the other.
pub proof fn law_separator_parts(a: Seq<char>, c: char, b: Seq<char>, back: bool)
    requires
        text::is_sep(c, back),
    ensures
        parts(a.push(c) + b, back) == parts(a, back) + parts(b, back),
{
    lemma_pieces_at_separator(a, c, b, back);
    lemma_nonempty_concat(text::pieces(a, back), text::pieces(b, back));
}

/// A path of separators alone has no component.
pub proof fn law_separators_name_nothing(s: Seq<char>, back: bool)
    requires
        blank(s, back),
    ensures
        parts(s, back) == Seq::<Seq<char>>::empty(),
    decreases s.len(),
{
    let e = Seq::<char>::empty();
    let none = Seq::<Seq<char>>::empty();
    if s.len() == 0 {
        let p = text::pieces(s, back);
        assert(p =~= seq![e]);
        assert(p.drop_last() =~= none);
        assert(text::nonempty(none) =~= none);
        assert(text::nonempty(p) =~= none);
    } else {
        let f = s.drop_last();
        assert forall|i: int| 0 <= i < f.len() implies text::is_sep(#[trigger] f[i], back) by {
            assert(f[i] == s[i]);
        }
        law_separators_name_nothing(f, back);
        assert(text::is_sep(s[s.len() - 1], back));
        assert(s =~= f.push(s.last()) + e);
        law_separator_parts(f, s.last(), e, back);
        law_separators_name_nothing(e, back);
        assert(none + none =~= none);
    }
}

/// Separators may be repeated, and may stand at the ends: more of them change no
/// component.
pub proof fn law_extra_separators_change_nothing(
    a: Seq<char>,
    c: char,
    more: Seq<char>,
    b: Seq<char>,
    back: bool,
)
    requires
        text::is_sep(c, back),
        blank(more, back),
    ensures
        parts(a.push(c) + more + b, back) == parts(a.push(c) + b, back),
        parts(more + a, back) == parts(a, back),
        parts(a + more, back) == parts(a, back),
{
    let none = Seq::<Seq<char>>::empty();
    lemma_front(more, a, back);
    lemma_front(more, b, back);
    law_separator_parts(a, c, b, back);
    assert(a.push(c) + more + b =~= a.push(c) + (more + b));
    law_separator_parts(a, c, more + b, back);
    if more.len() == 0 {
        assert(a + more =~= a);
    } else {
        let m = more.drop_first();
        assert(a + more =~= a.push(more[0]) + m);
        assert forall|i: int| 0 <= i < m.len() implies text::is_sep(#[trigger] m[i], back) by {
            assert(m[i] == more[i + 1]);
        }
        law_separator_parts(a, more[0], m, back);
        law_separators_name_nothing(m, back);
        assert(parts(a, back) + none =~= parts(a, back));
    }
}

proof fn lemma_front(more: Seq<char>, a: Seq<char>, back: bool)
    requires
        blank(more, back),
    ensures
        parts(more + a, back) == parts(a, back),
{
    if more.len() == 0 {
        assert(more + a =~= a);
    } else {
        let m = more.drop_last();
        assert forall|i: int| 0 <= i < m.len() implies text::is_sep(#[trigger] m[i], back) by {
            assert(m[i] == more[i]);
        }
        assert(text::is_sep(more[more.len() - 1], back));
        law_separators_name_nothing(m, back);
        assert(more + a =~= m.push(more.last()) + a);
        law_separator_parts(m, more.last(), a, back);
        assert(Seq::<Seq<char>>::empty() + parts(a, back) =~= parts(a, back));
    }
}

/// A text without a separator, and not empty, is its own one component.
pub proof fn lemma_one_part(p: Seq<char>, back: bool)
    requires
        text::clean(p, back),
    ensures
        parts(p, back) == seq![p],
{
    let one = seq![p];
    assert forall|k: int| 0 <= k < one.len() implies text::clean(#[trigger] one[k], back) by {}
    assert(text::join(one, '/') == p);
    text::law_split_undoes_join(one, '/', back);
}

proof fn lemma_lower_keeps_separators(c: char, d: char, back: bool)
    requires
        text::lower(c) == text::lower(d),
    ensures
        text::is_sep(c, back) == text::is_sep(d, back),
{
}

proof fn lemma_alike_pieces(s: Seq<char>, t: Seq<char>, back: bool)
    requires
        alike(s, t, back),
    ensures
        text::pieces(s, back).len() == text::pieces(t, back).len(),
        forall|k: int|
            0 <= k < text::pieces(s, back).len() ==> text::lowered(
                #[trigger] text::pieces(s, back)[k],
            ) == text::lowered(text::pieces(t, back)[k]),
    decreases s.len(),
{
    if s.len() > 0 {
        let sf = s.drop_last();
        let tf = t.drop_last();
        assert forall|i: int|
            #![trigger sf[i]]
            #![trigger tf[i]]
            0 <= i < sf.len() implies (text::is_sep(sf[i], back) && text::is_sep(tf[i], back))
            || text::lower(sf[i]) == text::lower(tf[i]) by {
            assert(sf[i] == s[i] && tf[i] == t[i]);
        }
        lemma_alike_pieces(sf, tf, back);
        text::lemma_pieces_nonempty(sf, back);
        let p = text::pieces(sf, back);
        let q = text::pieces(tf, back);
        let n = s.len() - 1;
        assert((text::is_sep(s[n], back) && text::is_sep(t[n], back)) || text::lower(s[n])
            == text::lower(t[n]));
        if text::lower(s[n]) == text::lower(t[n]) {
            lemma_lower_keeps_separators(s[n], t[n], back);
        }
        let ps = text::pieces(s, back);
        let pt = text::pieces(t, back);
        assert forall|k: int| 0 <= k < ps.len() implies text::lowered(#[trigger] ps[k])
            == text::lowered(pt[k]) by {
            if text::is_sep(s.last(), back) {
                if k < p.len() {
                    assert(text::lowered(p[k]) == text::lowered(q[k]));
                }
            } else if k < p.len() - 1 {
                assert(text::lowered(p[k]) == text::lowered(q[k]));
            } else {
                assert(text::lowered(p[k]) == text::lowered(q[k]));
                assert(text::lowered(ps[k]) =~= text::lowered(p[k]).push(text::lower(s.last())));
                assert(text::lowered(pt[k]) =~= text::lowered(q[k]).push(text::lower(t.last())));
            }
        }
    }
}

proof fn lemma_alike_nonempty(p: Seq<Seq<char>>, q: Seq<Seq<char>>)
    requires
        p.len() == q.len(),
        forall|k: int| 0 <= k < p.len() ==> text::lowered(#[trigger] p[k]) == text::lowered(q[k]),
    ensures
        text::nonempty(p).map_values(|x: Seq<char>| text::lowered(x)) == text::nonempty(
            q,
        ).map_values(|x: Seq<char>| text::lowered(x)),
    decreases p.len(),
{
    let low = |x: Seq<char>| text::lowered(x);
    if p.len() > 0 {
        let pf = p.drop_last();
        let qf = q.drop_last();
        assert forall|k: int| 0 <= k < pf.len() implies text::lowered(#[trigger] pf[k])
            == text::lowered(qf[k]) by {
            assert(pf[k] == p[k] && qf[k] == q[k]);
        }
        lemma_alike_nonempty(pf, qf);
        let n = p.len() - 1;
        assert(text::lowered(p[n]) == text::lowered(q[n]));
        assert(text::lowered(p[n]).len() == p[n].len());
        assert(text::lowered(q[n]).len() == q[n].len());
        if p.last().len() > 0 {
            assert(text::nonempty(p).map_values(low) =~= text::nonempty(pf).map_values(low).push(
                low(p.last()),
            ));
            assert(text::nonempty(q).map_values(low) =~= text::nonempty(qf).map_values(low).push(
                low(q.last()),
            ));
        }
    } else {
        assert(text::nonempty(p).map_values(low) =~= text::nonempty(q).map_values(low));
    }
}

/// Separators may be exchanged, and letters may stand in either case: the
/// components are the same in lower case.
pub proof fn law_separators_and_case_are_alike(s: Seq<char>, t: Seq<char>, back: bool)
    requires
        alike(s, t, back),
    ensures
        low_parts(s, back) == low_parts(t, back),
{
    lemma_alike_pieces(s, t, back);
    lemma_alike_nonempty(text::pieces(s, back), text::pieces(t, back));
}

// --- paths as bytes ---

/// The components of a path whose separator is `/`.
pub open spec fn parts8(s: Seq<u8>) -> Seq<Seq<u8>> {
    text::nonempty8(text::pieces8(s, 0x2F))
}

proof fn lemma_pieces8_nonempty(s: Seq<u8>)
    ensures
        text::pieces8(s, 0x2F).len() >= 1,
    decreases s.len(),
{
    if s.len() > 0 {
        lemma_pieces8_nonempty(s.drop_last());
    }
}

proof fn lemma_nonempty8_concat(p: Seq<Seq<u8>>, q: Seq<Seq<u8>>)
    ensures
        text::nonempty8(p + q) == text::nonempty8(p) + text::nonempty8(q),
    decreases q.len(),
{
    if q.len() == 0 {
        assert(p + q =~= p);
        assert(text::nonempty8(p) + text::nonempty8(q) =~= text::nonempty8(p));
    } else {
        lemma_nonempty8_concat(p, q.drop_last());
        assert((p + q).drop_last() =~= p + q.drop_last());
        assert((p + q).last() == q.last());
        assert(text::nonempty8(p + q) =~= text::nonempty8(p) + text::nonempty8(q));
    }
}

proof fn lemma_pieces8_at_slash(a: Seq<u8>, b: Seq<u8>)
    ensures
        text::pieces8(a.push(0x2F) + b, 0x2F) == text::pieces8(a, 0x2F) + text::pieces8(b, 0x2F),
    decreases b.len(),
{
    let s = a.push(0x2F) + b;
    if b.len() == 0 {
        assert(s =~= a.push(0x2F));
        assert(s.drop_last() =~= a);
        assert(text::pieces8(b, 0x2F) =~= seq![Seq::<u8>::empty()]);
        assert(text::pieces8(s, 0x2F) =~= text::pieces8(a, 0x2F) + text::pieces8(b, 0x2F));
    } else {
        let f = b.drop_last();
        lemma_pieces8_at_slash(a, f);
        lemma_pieces8_nonempty(f);
        assert(s.drop_last() =~= a.push(0x2F) + f);
        assert(s.last() == b.last());
        assert(text::pieces8(s, 0x2F) =~= text::pieces8(a, 0x2F) + text::pieces8(b, 0x2F));
    }
}

/// A slash parts the bytes of a path as it parts its text.
pub proof fn lemma_slash_parts8(a: Seq<u8>, b: Seq<u8>)
    ensures
        parts8(a.push(0x2F) + b) == parts8(a) + parts8(b),
{
    lemma_pieces8_at_slash(a, b);
    lemma_nonempty8_concat(text::pieces8(a, 0x2F), text::pieces8(b, 0x2F));
}

/// The empty path has no component.
pub proof fn lemma_no_parts8()
    ensures
        parts8(Seq::empty()) == Seq::<Seq<u8>>::empty(),
{
    let p = text::pieces8(Seq::empty(), 0x2F);
    let none = Seq::<Seq<u8>>::empty();
    assert(p =~= seq![Seq::<u8>::empty()]);
    assert(p.drop_last() =~= none);
    assert(text::nonempty8(none) =~= none);
    assert(text::nonempty8(p) =~= none);
}

/// Bytes without a slash, and not empty, are one component.
pub proof fn lemma_one_part8(s: Seq<u8>)
    requires
        s.len() > 0,
        forall|i: int| 0 <= i < s.len() ==> #[trigger] s[i] != 0x2F,
    ensures
        parts8(s) == seq![s],
{
    lemma_one_piece8(s);
    let p = text::pieces8(s, 0x2F);
    assert(p.drop_last() =~= Seq::<Seq<u8>>::empty());
    assert(text::nonempty8(p.drop_last()) =~= Seq::<Seq<u8>>::empty());
    assert(text::nonempty8(p) =~= seq![s]);
}

proof fn lemma_one_piece8(s: Seq<u8>)
    requires
        forall|i: int| 0 <= i < s.len() ==> #[trigger] s[i] != 0x2F,
    ensures
        text::pieces8(s, 0x2F) == seq![s],
    decreases s.len(),
{
    if s.len() == 0 {
        assert(s =~= Seq::<u8>::empty());
    } else {
        let f = s.drop_last();
        assert forall|i: int| 0 <= i < f.len() implies #[trigger] f[i] != 0x2F by {
            assert(f[i] == s[i]);
        }
        lemma_one_piece8(f);
        assert(s[s.len() - 1] != 0x2F);
        assert(f.push(s.last()) =~= s);
        assert(text::pieces8(s, 0x2F) =~= seq![s]);
    }
}

/// The bytes of a text are those of its parts, one after the other.
pub proof fn lemma_utf8_concat(a: Seq<char>, b: Seq<char>)
    ensures
        vstd::utf8::encode_utf8(a + b) == vstd::utf8::encode_utf8(a) + vstd::utf8::encode_utf8(b),
    decreases a.len(),
{
    if a.len() == 0 {
        assert(a + b =~= b);
        assert(vstd::utf8::encode_utf8(a) + vstd::utf8::encode_utf8(b) =~= vstd::utf8::encode_utf8(
            b,
        ));
    } else {
        lemma_utf8_concat(a.drop_first(), b);
        assert((a + b).drop_first() =~= a.drop_first() + b);
        assert((a + b)[0] == a[0]);
        assert(vstd::utf8::encode_utf8(a + b) =~= vstd::utf8::encode_utf8(a)
            + vstd::utf8::encode_utf8(b));
    }
}

proof fn lemma_scalar_bytes(u: u32)
    by (bit_vector)
    requires
        u <= 0x10FFFF,
        u != 0x2F,
    ensures
        vstd::utf8::has_width_1_encoding(u) ==> vstd::utf8::leading_byte_width_1(u) != 0x2F,
        vstd::utf8::leading_byte_width_2(u) != 0x2F,
        vstd::utf8::leading_byte_width_3(u) != 0x2F,
        vstd::utf8::leading_byte_width_4(u) != 0x2F,
        vstd::utf8::last_continuation_byte(u) != 0x2F,
        vstd::utf8::second_last_continuation_byte(u) != 0x2F,
        vstd::utf8::third_last_continuation_byte(u) != 0x2F,
{
}

proof fn lemma_slash_byte(u: u32)
    by (bit_vector)
    requires
        u == 0x2F,
    ensures
        vstd::utf8::has_width_1_encoding(u),
        vstd::utf8::leading_byte_width_1(u) == 0x2F,
{
}

/// A slash is one byte, and no other character's bytes hold it.
pub proof fn lemma_slash_utf8(s: Seq<char>)
    ensures
        vstd::utf8::encode_utf8(seq!['/']) == seq![0x2Fu8],
        (forall|i: int| 0 <= i < s.len() ==> #[trigger] s[i] != '/') ==> (forall|i: int|
            0 <= i < vstd::utf8::encode_utf8(s).len()
                ==> #[trigger] vstd::utf8::encode_utf8(s)[i] != 0x2F),
        s.len() > 0 ==> vstd::utf8::encode_utf8(s).len() > 0,
    decreases s.len(),
{
    lemma_slash_byte('/' as u32);
    let one = seq!['/'];
    assert(one.drop_first() =~= Seq::<char>::empty());
    assert(vstd::utf8::encode_utf8(one.drop_first()) =~= Seq::<u8>::empty());
    assert(one[0] as u32 == 0x2F);
    assert(vstd::utf8::encode_scalar(one[0] as u32) =~= seq![0x2Fu8]);
    assert(vstd::utf8::encode_utf8(one) =~= seq![0x2Fu8]);
    if s.len() > 0 {
        let f = s.drop_first();
        lemma_slash_utf8(f);
        if forall|i: int| 0 <= i < s.len() ==> #[trigger] s[i] != '/' {
            assert forall|i: int| 0 <= i < f.len() implies #[trigger] f[i] != '/' by {
                assert(f[i] == s[i + 1]);
            }
            let u = s[0] as u32;
            assert(s[0] != '/');
            vstd::utf8::char_is_scalar(s[0]);
            vstd::utf8::char_u32_cast(s[0], u);
            vstd::utf8::char_u32_cast('/', '/' as u32);
            lemma_scalar_bytes(u);
            let e = vstd::utf8::encode_scalar(u);
            assert forall|i: int| 0 <= i < e.len() implies #[trigger] e[i] != 0x2F by {}
            let r = vstd::utf8::encode_utf8(f);
            assert forall|i: int|
                0 <= i < vstd::utf8::encode_utf8(s).len() implies #[trigger] vstd::utf8::encode_utf8(
                s,
            )[i] != 0x2F by {
                if i < e.len() {
                    assert(vstd::utf8::encode_utf8(s)[i] == e[i]);
                } else {
                    assert(vstd::utf8::encode_utf8(s)[i] == r[i - e.len()]);
                }
            }
        }
    }
}

} // verus!
