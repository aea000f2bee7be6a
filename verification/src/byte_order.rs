//! Texts in the order of their characters are in the order of their UTF-8 bytes.

use vstd::prelude::*;

verus! {

/// Names before others: by the first character in which they differ.
pub open spec fn before(a: Seq<char>, b: Seq<char>) -> bool
    decreases a.len(),
{
    if b.len() == 0 {
        false
    } else if a.len() == 0 {
        true
    } else if a[0] == b[0] {
        before(a.skip(1), b.skip(1))
    } else {
        (a[0] as int) < (b[0] as int)
    }
}

/// The same of bytes.
pub open spec fn bytes_before(a: Seq<u8>, b: Seq<u8>) -> bool
    decreases a.len(),
{
    if b.len() == 0 {
        false
    } else if a.len() == 0 {
        true
    } else if a[0] == b[0] {
        bytes_before(a.skip(1), b.skip(1))
    } else {
        a[0] < b[0]
    }
}

proof fn lemma_differ_at(a: Seq<u8>, b: Seq<u8>, k: int)
    requires
        0 <= k < a.len(),
        k < b.len(),
        forall|i: int| 0 <= i < k ==> #[trigger] a[i] == b[i],
        a[k] < b[k],
    ensures
        bytes_before(a, b),
    decreases k,
{
    if k > 0 {
        assert(a[0] == b[0]);
        let x = a.skip(1);
        let y = b.skip(1);
        assert forall|i: int| 0 <= i < k - 1 implies #[trigger] x[i] == y[i] by {
            assert(a[i + 1] == b[i + 1]);
        }
        lemma_differ_at(x, y, k - 1);
    }
}

proof fn lemma_same_front(e: Seq<u8>, a: Seq<u8>, b: Seq<u8>)
    ensures
        bytes_before(e + a, e + b) == bytes_before(a, b),
    decreases e.len(),
{
    if e.len() == 0 {
        assert(e + a =~= a);
        assert(e + b =~= b);
    } else {
        lemma_same_front(e.skip(1), a, b);
        assert((e + a).skip(1) =~= e.skip(1) + a);
        assert((e + b).skip(1) =~= e.skip(1) + b);
    }
}

proof fn lemma_leading_bytes(u: u32)
    by (bit_vector)
    requires
        u <= 0x10FFFF,
    ensures
        vstd::utf8::has_width_1_encoding(u) ==> vstd::utf8::leading_byte_width_1(u) < 0x80,
        vstd::utf8::has_width_2_encoding(u) ==> 0xC0 <= vstd::utf8::leading_byte_width_2(u) < 0xE0,
        vstd::utf8::has_width_3_encoding(u) ==> 0xE0 <= vstd::utf8::leading_byte_width_3(u) < 0xF0,
        vstd::utf8::has_width_4_encoding(u) ==> 0xF0 <= vstd::utf8::leading_byte_width_4(u),
{
}

proof fn lemma_first_difference(u: u32, v: u32)
    by (bit_vector)
    requires
        u < v,
        v <= 0x10FFFF,
    ensures
        vstd::utf8::has_width_1_encoding(v) ==> vstd::utf8::leading_byte_width_1(u)
            < vstd::utf8::leading_byte_width_1(v),
        vstd::utf8::has_width_2_encoding(v) ==> vstd::utf8::leading_byte_width_2(u)
            < vstd::utf8::leading_byte_width_2(v) || (vstd::utf8::leading_byte_width_2(u)
            == vstd::utf8::leading_byte_width_2(v) && vstd::utf8::last_continuation_byte(u)
            < vstd::utf8::last_continuation_byte(v)),
        vstd::utf8::has_width_3_encoding(v) ==> vstd::utf8::leading_byte_width_3(u)
            < vstd::utf8::leading_byte_width_3(v) || (vstd::utf8::leading_byte_width_3(u)
            == vstd::utf8::leading_byte_width_3(v) && (
        vstd::utf8::second_last_continuation_byte(u) < vstd::utf8::second_last_continuation_byte(v)
            || (vstd::utf8::second_last_continuation_byte(u)
            == vstd::utf8::second_last_continuation_byte(v)
            && vstd::utf8::last_continuation_byte(u) < vstd::utf8::last_continuation_byte(v)))),
        vstd::utf8::has_width_4_encoding(v) ==> vstd::utf8::leading_byte_width_4(u)
            < vstd::utf8::leading_byte_width_4(v) || (vstd::utf8::leading_byte_width_4(u)
            == vstd::utf8::leading_byte_width_4(v) && (
        vstd::utf8::third_last_continuation_byte(u) < vstd::utf8::third_last_continuation_byte(v)
            || (vstd::utf8::third_last_continuation_byte(u)
            == vstd::utf8::third_last_continuation_byte(v) && (
        vstd::utf8::second_last_continuation_byte(u) < vstd::utf8::second_last_continuation_byte(v)
            || (vstd::utf8::second_last_continuation_byte(u)
            == vstd::utf8::second_last_continuation_byte(v)
            && vstd::utf8::last_continuation_byte(u) < vstd::utf8::last_continuation_byte(v)))))),
{
}

/// The encodings of two characters differ at a byte that both have, and there
/// the lower character has the lower byte.
proof fn lemma_scalars_differ(u: u32, v: u32) -> (k: int)
    requires
        u < v,
        vstd::utf8::is_scalar(u),
        vstd::utf8::is_scalar(v),
    ensures
        0 <= k < vstd::utf8::encode_scalar(u).len(),
        k < vstd::utf8::encode_scalar(v).len(),
        forall|i: int| 0 <= i < k ==> #[trigger] vstd::utf8::encode_scalar(u)[i] == vstd::utf8::encode_scalar(v)[i],
        vstd::utf8::encode_scalar(u)[k] < vstd::utf8::encode_scalar(v)[k],
{
    lemma_leading_bytes(u);
    lemma_leading_bytes(v);
    lemma_first_difference(u, v);
    let a = vstd::utf8::encode_scalar(u);
    let b = vstd::utf8::encode_scalar(v);
    if a[0] < b[0] {
        0
    } else if a[1] < b[1] {
        1
    } else if a[2] < b[2] {
        2
    } else {
        3
    }
}

proof fn lemma_code_point(c: char)
    ensures
        (c as u32) as int == c as int,
{
}

/// A text before another one is before it in the order of their bytes, too.
pub proof fn law_character_order_is_byte_order(a: Seq<char>, b: Seq<char>)
    requires
        before(a, b),
    ensures
        bytes_before(vstd::utf8::encode_utf8(a), vstd::utf8::encode_utf8(b)),
    decreases a.len(),
{
    let x = vstd::utf8::encode_utf8(a);
    let y = vstd::utf8::encode_utf8(b);
    let v = b[0] as u32;
    vstd::utf8::char_is_scalar(b[0]);
    let f = vstd::utf8::encode_scalar(v);
    assert(y == f + vstd::utf8::encode_utf8(b.drop_first()));
    assert(f.len() > 0);
    if a.len() > 0 {
        let u = a[0] as u32;
        vstd::utf8::char_is_scalar(a[0]);
        let e = vstd::utf8::encode_scalar(u);
        assert(x == e + vstd::utf8::encode_utf8(a.drop_first()));
        assert(a.drop_first() =~= a.skip(1));
        assert(b.drop_first() =~= b.skip(1));
        if a[0] == b[0] {
            law_character_order_is_byte_order(a.skip(1), b.skip(1));
            lemma_same_front(e, vstd::utf8::encode_utf8(a.skip(1)), vstd::utf8::encode_utf8(b.skip(1)));
        } else {
            lemma_code_point(a[0]);
            lemma_code_point(b[0]);
            let k = lemma_scalars_differ(u, v);
            assert forall|i: int| 0 <= i < k implies #[trigger] x[i] == y[i] by {
                assert(e[i] == f[i]);
            }
            assert(x[k] == e[k] && y[k] == f[k]);
            lemma_differ_at(x, y, k);
        }
    }
}

} // verus!
