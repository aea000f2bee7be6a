//! What the boot picker reads and writes, and what its keys do.
use vstd::prelude::*;

use crate::bits;
use crate::boot;
use crate::boot::{Chosen, Key, Menu};
use crate::bytes;
use crate::scan;

verus! {

spec fn proper(n: boot::Nv) -> bool {
    n.data.len() <= 0xFFFB && !(n.kind == 0x7F && n.sub == 0xFF)
}

proof fn lemma_nodes_proper(b: Seq<u8>, i: int)
    requires
        boot::nodes_from(b, i) is Some,
    ensures
        forall|k: int|
            0 <= k < boot::nodes_from(b, i)->0.len() ==> proper(
                #[trigger] boot::nodes_from(b, i)->0[k],
            ),
    decreases b.len() - i,
{
    let len = bytes::le16(b, i + 2) as int;
    if !(b[i] == 0x7F && b[i + 1] == 0xFF) {
        lemma_nodes_proper(b, i + len);
        let ns = boot::nodes_from(b, i)->0;
        let rest = boot::nodes_from(b, i + len)->0;
        assert forall|k: int| 0 <= k < ns.len() implies proper(#[trigger] ns[k]) by {
            if k > 0 {
                assert(ns[k] == rest[k - 1]);
            }
        }
    }
}

proof fn lemma_front_nodes(ns: Seq<boot::Nv>, k: int)
    requires
        0 <= k <= ns.len(),
    ensures
        boot::all_node_bytes(ns.take(k)).len() <= boot::all_node_bytes(ns).len(),
        boot::all_node_bytes(ns).take(boot::all_node_bytes(ns.take(k)).len() as int)
            == boot::all_node_bytes(ns.take(k)),
    decreases ns.len(),
{
    let all = boot::all_node_bytes(ns);
    if k == ns.len() {
        assert(ns.take(k) =~= ns);
        assert(all.take(all.len() as int) =~= all);
    } else {
        lemma_front_nodes(ns.drop_last(), k);
        assert(ns.drop_last().take(k) =~= ns.take(k));
        let front = boot::all_node_bytes(ns.drop_last());
        let part = boot::all_node_bytes(ns.take(k));
        assert(all == front + boot::node_bytes(ns.last()));
        assert(all.take(part.len() as int) =~= front.take(part.len() as int));
    }
}

proof fn lemma_nodes_read_back(ns: Seq<boot::Nv>, k: int)
    requires
        0 <= k <= ns.len(),
        forall|j: int| 0 <= j < ns.len() ==> proper(#[trigger] ns[j]),
    ensures
        boot::nodes_from(
            boot::all_node_bytes(ns) + seq![0x7Fu8, 0xFF, 4, 0],
            boot::all_node_bytes(ns.take(k)).len() as int,
        ) == Some(ns.skip(k)),
    decreases ns.len() - k,
{
    let b = boot::all_node_bytes(ns) + seq![0x7Fu8, 0xFF, 4, 0];
    let part = boot::all_node_bytes(ns.take(k));
    let o = part.len() as int;
    if k == ns.len() {
        assert(ns.take(k) =~= ns);
        assert(b[o] == 0x7F && b[o + 1] == 0xFF && b[o + 2] == 4 && b[o + 3] == 0);
        assert(ns.skip(k) =~= Seq::empty());
    } else {
        let n = ns[k];
        assert(proper(n));
        lemma_front_nodes(ns, k + 1);
        assert(ns.take(k + 1).drop_last() =~= ns.take(k));
        assert(ns.take(k + 1).last() == n);
        let next = boot::all_node_bytes(ns.take(k + 1));
        assert(next == part + boot::node_bytes(n));
        let len = 4 + n.data.len();
        assert(next.len() == o + len);
        assert forall|j: int| 0 <= j < next.len() implies b[j] == #[trigger] next[j] by {
            assert(boot::all_node_bytes(ns).take(next.len() as int)[j] == next[j]);
        }
        assert(b[o] == next[o] && next[o] == n.kind);
        assert(b[o + 1] == next[o + 1] && next[o + 1] == n.sub);
        assert(b[o + 2] == next[o + 2] && next[o + 2] == len % 0x100);
        assert(b[o + 3] == next[o + 3] && next[o + 3] == len / 0x100);
        assert(bytes::le16(b, o + 2) == len);
        assert(b.subrange(o + 4, o + len) =~= n.data) by {
            assert forall|j: int| 0 <= j < n.data.len() implies #[trigger] b[o + 4 + j]
                == n.data[j] by {
                assert(b[o + 4 + j] == next[o + 4 + j]);
                assert(boot::node_bytes(n)[4 + j] == n.data[j]);
            }
            assert(b.subrange(o + 4, o + len).len() == n.data.len());
            assert forall|j: int| 0 <= j < n.data.len() implies #[trigger] b.subrange(
                o + 4,
                o + len,
            )[j] == n.data[j] by {
                assert(b[o + 4 + j] == n.data[j]);
            }
        }
        lemma_nodes_read_back(ns, k + 1);
        assert(seq![boot::Nv { kind: n.kind, sub: n.sub, data: n.data }] + ns.skip(k + 1)
            =~= ns.skip(k));
    }
}

/// The path to a file on a volume is read back as the nodes of the volume, in
/// order, and one more: a file path with the units of the name.
pub proof fn law_file_path_follows_its_volume(vol: Seq<u8>, name: Seq<u16>)
    requires
        boot::with_file(vol, name) is Some,
    ensures
        ({
            let before = boot::nodes_from(vol, 0)->0;
            let after = boot::nodes_from(boot::with_file(vol, name)->0, 0);
            &&& boot::nodes_from(vol, 0) is Some
            &&& after is Some
            &&& after->0.len() == before.len() + 1
            &&& forall|k: int| 0 <= k < before.len() ==> #[trigger] after->0[k] == before[k]
            &&& after->0.last().kind == 4 && after->0.last().sub == 4
            &&& after->0.last().data.len() == 2 * name.len()
            &&& forall|i: int|
                0 <= i < name.len() ==> after->0.last().data[2 * i] + 0x100
                    * after->0.last().data[2 * i + 1] == #[trigger] name[i]
        }),
{
    let before = boot::nodes_from(vol, 0)->0;
    let file = boot::Nv { kind: 4, sub: 4, data: boot::unit_bytes(name) };
    let ns = before.push(file);
    lemma_nodes_proper(vol, 0);
    assert forall|j: int| 0 <= j < ns.len() implies proper(#[trigger] ns[j]) by {
        if j < before.len() {
            assert(ns[j] == before[j]);
        }
    }
    lemma_nodes_read_back(ns, 0);
    assert(ns.take(0) =~= Seq::empty());
    assert(ns.skip(0) =~= ns);
    assert forall|i: int| 0 <= i < name.len() implies file.data[2 * i] + 0x100 * file.data[2 * i
        + 1] == #[trigger] name[i] by {
        assert((2 * i) / 2 == i && (2 * i) % 2 == 0);
        assert((2 * i + 1) / 2 == i && (2 * i + 1) % 2 == 1);
        assert(file.data[2 * i] == bytes::bytes16(name[i])[0]);
        assert(file.data[2 * i + 1] == bytes::bytes16(name[i])[1]);
    }
}

proof fn lemma_text_of(u: Seq<u16>, i: int)
    requires
        0 <= i <= u.len(),
        forall|k: int| 0 <= k < u.len() ==> !boot::high(#[trigger] u[k]) && !boot::low(u[k]),
    ensures
        boot::firmware_text(u, i).len() == u.len() - i,
        forall|k: int|
            0 <= k < u.len() - i ==> (#[trigger] boot::firmware_text(u, i)[k]) as u32 == u[i + k],
    decreases u.len() - i,
{
    if i < u.len() {
        lemma_text_of(u, i + 1);
        let t = boot::firmware_text(u, i);
        let rest = boot::firmware_text(u, i + 1);
        assert(!boot::high(u[i]) && !boot::low(u[i]));
        assert(t == seq![u[i] as char] + rest);
        assert forall|k: int| 0 <= k < u.len() - i implies (#[trigger] t[k]) as u32 == u[i + k] by {
            if k > 0 {
                assert(t[k] == rest[k - 1]);
            }
        }
    }
}

proof fn lemma_description_ends(b: Seq<u8>, i: int, end: int)
    requires
        0 <= i <= end,
        (end - i) % 2 == 0,
        end + 2 <= b.len(),
        b[end] == 0,
        b[end + 1] == 0,
        forall|k: int|
            i <= k < end && (k - i) % 2 == 0 ==> !(#[trigger] b[k] == 0 && b[k + 1] == 0),
    ensures
        boot::desc_end(b, i) == end,
    decreases end - i,
{
    if i < end {
        assert(!(b[i] == 0 && b[i + 1] == 0));
        assert forall|k: int| i + 2 <= k < end && (k - (i + 2)) % 2 == 0 implies !(#[trigger] b[k]
            == 0 && b[k + 1] == 0) by {
            assert((k - i) % 2 == 0);
        }
        lemma_description_ends(b, i + 2, end);
    }
}

/// An active load option gives the text between its header and the NUL at
/// `end`, and as its device path as many bytes behind it as its header says.
pub proof fn law_load_option_is_read(b: Seq<u8>, end: int)
    requires
        6 <= end,
        end % 2 == 0,
        b[0] % 2 == 1,
        b[end] == 0 && b[end + 1] == 0,
        forall|k: int|
            6 <= k < end && k % 2 == 0 ==> !(#[trigger] b[k] == 0 && b[k + 1] == 0) && !(0xD8
                <= b[k + 1] <= 0xDF),
        end + 2 + b[4] + 0x100 * b[5] <= b.len(),
    ensures
        ({
            let n = b[4] + 0x100 * b[5];
            &&& boot::load_option(b) is Some
            &&& (boot::load_option(b)->0).0.len() == (end - 6) / 2
            &&& forall|i: int|
                0 <= i < (end - 6) / 2 ==> (#[trigger] (boot::load_option(b)->0).0[i]) as u32
                    == b[6 + 2 * i] + 0x100 * b[7 + 2 * i]
            &&& (boot::load_option(b)->0).1.len() == n
            &&& forall|i: int|
                0 <= i < n ==> #[trigger] (boot::load_option(b)->0).1[i] == b[end + 2 + i]
        }),
{
    assert forall|k: int| 6 <= k < end && (k - 6) % 2 == 0 implies !(#[trigger] b[k] == 0 && b[k
        + 1] == 0) by {
        assert(k % 2 == 0);
    }
    lemma_description_ends(b, 6, end);
    let at = bytes::le32(b, 0);
    let b0 = b[0];
    assert(at % 2 == b0 % 2);
    bits::lemma_word(at);
    let d = b.subrange(6, end);
    let u = boot::units(d);
    assert(u.len() == (end - 6) / 2);
    assert forall|k: int| 0 <= k < u.len() implies !boot::high(#[trigger] u[k]) && !boot::low(u[k])
        && u[k] == b[6 + 2 * k] + 0x100 * b[7 + 2 * k] by {
        assert(d[2 * k] == b[6 + 2 * k] && d[2 * k + 1] == b[7 + 2 * k]);
        assert((6 + 2 * k) % 2 == 0);
        let p = 6 + 2 * k;
        assert(!(0xD8 <= b[p + 1] <= 0xDF)) by {
            assert(6 <= p < end && p % 2 == 0);
            let x = b[p];
        }
    }
    lemma_text_of(u, 0);
    let t = boot::firmware_text(u, 0);
    assert forall|i: int| 0 <= i < (end - 6) / 2 implies (#[trigger] t[i]) as u32 == b[6 + 2 * i]
        + 0x100 * b[7 + 2 * i] by {
        assert(u[i] == b[6 + 2 * i] + 0x100 * b[7 + 2 * i]);
        assert(t[i] as u32 == u[0 + i]);
    }
}

/// The arrows go round the entries, one down and one up, and stop the clock.
pub proof fn law_arrows_go_round(m: Menu, n: int)
    requires
        0 <= m.sel < n <= usize::MAX,
    ensures
        ({
            let down = boot::keyed(m, Key::Down, n);
            let up = boot::keyed(m, Key::Up, n);
            &&& down.1 is None && up.1 is None
            &&& !down.0.counting && !up.0.counting
            &&& down.0.sel == if m.sel + 1 == n {
                0
            } else {
                m.sel + 1
            }
            &&& up.0.sel == if m.sel == 0 {
                n - 1
            } else {
                m.sel - 1
            }
        }),
{
    if m.sel + 1 < n {
        vstd::arithmetic::div_mod::lemma_small_mod((m.sel + 1) as nat, n as nat);
    } else {
        vstd::arithmetic::div_mod::lemma_mod_self_0(n);
    }
    if m.sel == 0 {
        vstd::arithmetic::div_mod::lemma_small_mod((n - 1) as nat, n as nat);
    } else {
        vstd::arithmetic::div_mod::lemma_mod_add_multiples_vanish(m.sel - 1, n);
        vstd::arithmetic::div_mod::lemma_small_mod((m.sel - 1) as nat, n as nat);
    }
}

/// Return picks what is selected, a digit picks the entry of that number where
/// there is one, and no key leaves the menu as it is.
pub proof fn law_keys_pick_entries(m: Menu, n: int, c: char)
    ensures
        boot::keyed(m, Key::Char('\r'), n).1 == Some(m.sel as int),
        boot::keyed(m, Key::Char('\n'), n).1 == Some(m.sel as int),
        boot::keyed(m, Key::Escape, n).1 == Some(m.sel as int),
        '0' <= c <= '9' && c as u32 - 48 < n ==> boot::keyed(m, Key::Char(c), n).1 == Some(
            c as u32 - 48,
        ),
        '0' <= c <= '9' && c as u32 - 48 >= n ==> boot::keyed(m, Key::Char(c), n).1 is None
            && !boot::keyed(m, Key::Char(c), n).0.counting,
        boot::keyed(m, Key::Nothing, n) == (m, None::<int>),
{
}

proof fn lemma_label_match(v: Seq<boot::Ent>, t: Seq<char>, i: int, at: int)
    requires
        0 <= i <= at < v.len(),
        scan::contained(v[at].label, t),
        forall|k: int| i <= k < at ==> !scan::contained(#[trigger] v[k].label, t),
    ensures
        boot::label_match(v, t, i) == at,
    decreases at - i,
{
    if i < at {
        assert(!scan::contained(v[i].label, t));
        lemma_label_match(v, t, i + 1, at);
    }
}

/// A default that is a text names the first entry whose label has it; one
/// that is a number names that entry, or the last.
pub proof fn law_default_names_an_entry(v: Seq<boot::Ent>, t: Seq<char>, at: int, i: usize)
    requires
        0 <= at < v.len(),
        scan::contained(v[at].label, t),
        forall|k: int| 0 <= k < at ==> !scan::contained(#[trigger] v[k].label, t),
    ensures
        boot::resolved(v, Chosen::Match(t)) == at,
        i < v.len() ==> boot::resolved(v, Chosen::Index(i)) == i,
        i >= v.len() ==> boot::resolved(v, Chosen::Index(i)) == v.len() - 1,
        boot::resolved(v, Chosen::First) == 0,
{
    lemma_label_match(v, t, 0, at);
}

} // verus!
