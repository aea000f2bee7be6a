//! The taskbar's clock.
use vstd::prelude::*;

use crate::text;

verus! {

/// Two decimal digits.
pub open spec fn two(n: u32) -> Seq<char> {
    seq![((0x30 + n / 10) as u8) as char, ((0x30 + n % 10) as u8) as char]
}

/// A time of day as `HH:MM:SS`.
pub open spec fn clock_text(h: u32, m: u32, s: u32) -> Seq<char> {
    two(h) + seq![':'] + two(m) + seq![':'] + two(s)
}

fn push_two(r: &mut Vec<char>, n: u32)
    requires
        n < 100,
    ensures
        final(r)@ == old(r)@ + two(n),
{
    r.push((0x30 + (n / 10) as u8) as char);
    r.push((0x30 + (n % 10) as u8) as char);
    assert(r@ =~= old(r)@ + two(n));
}

/// Write a time of day.
pub fn hh_mm_ss(h: u32, m: u32, s: u32) -> (r: String)
    requires
        h < 100,
        m < 100,
        s < 100,
    ensures
        r@ == clock_text(h, m, s),
{
    let mut r: Vec<char> = Vec::new();
    push_two(&mut r, h);
    r.push(':');
    push_two(&mut r, m);
    r.push(':');
    push_two(&mut r, s);
    assert(r@ =~= clock_text(h, m, s));
    text::string_of(r.as_slice())
}

/// Whatever the time, the text has eight characters, with colons third and
/// sixth and digits everywhere else.
pub proof fn law_clock_has_its_shape(h: u32, m: u32, s: u32, i: int)
    requires
        h < 100,
        m < 100,
        s < 100,
        0 <= i < 8,
    ensures
        clock_text(h, m, s).len() == 8,
        i == 2 || i == 5 ==> clock_text(h, m, s)[i] == ':',
        i != 2 && i != 5 ==> '0' <= clock_text(h, m, s)[i] <= '9',
{
}

} // verus!
