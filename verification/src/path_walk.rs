//! How a path is resolved, step by step: from the root or the working
//! directory on, a name leads down, two dots lead up, and one dot leads
//! nowhere.
use vstd::prelude::*;

use crate::nt_names;
use crate::task;
use crate::text;

verus! {

/// `p` and one more component behind it.
pub open spec fn below(p: Seq<char>, n: Seq<char>) -> Seq<char> {
    p.push('/') + n
}

proof fn lemma_pieces_joined(s: Seq<char>, t: Seq<char>)
    ensures
        text::pieces(s.push('/') + t, false) == text::pieces(s, false) + text::pieces(t, false),
    decreases t.len(),
{
    let e = Seq::<char>::empty();
    let r = s.push('/') + t;
    if t.len() == 0 {
        assert(r =~= s.push('/'));
        assert(s.push('/').drop_last() =~= s);
        assert(text::pieces(t, false) =~= seq![e]);
        assert(text::pieces(r, false) =~= text::pieces(s, false) + seq![e]);
    } else {
        lemma_pieces_joined(s, t.drop_last());
        text::lemma_pieces_nonempty(t.drop_last(), false);
        assert(r.drop_last() =~= s.push('/') + t.drop_last());
        assert(r.last() == t.last());
        assert(text::pieces(r, false) =~= text::pieces(s, false) + text::pieces(t, false));
    }
}

proof fn lemma_one_piece(n: Seq<char>)
    requires
        forall|i: int| 0 <= i < n.len() ==> #[trigger] n[i] != '/',
    ensures
        text::pieces(n, false) == seq![n],
    decreases n.len(),
{
    if n.len() > 0 {
        let m = n.drop_last();
        assert forall|i: int| 0 <= i < m.len() implies #[trigger] m[i] != '/' by {
            assert(m[i] == n[i]);
        }
        lemma_one_piece(m);
        assert(n[n.len() - 1] != '/');
        assert(m.push(n.last()) =~= n);
        assert(text::pieces(n, false) =~= seq![n]);
    } else {
        assert(n =~= Seq::empty());
    }
}

proof fn lemma_walk_shifts(acc: Seq<Seq<char>>, a: Seq<Seq<char>>, b: Seq<Seq<char>>, k: int)
    requires
        0 <= k <= b.len(),
    ensures
        task::walked(acc, a + b, a.len() + k) == task::walked(acc, b, k),
    decreases b.len() - k,
{
    if k < b.len() {
        assert((a + b)[a.len() + k] == b[k]);
        lemma_walk_shifts(acc, a, b, k + 1);
        lemma_walk_shifts(acc.push(b[k]), a, b, k + 1);
        lemma_walk_shifts(
            if acc.len() > 0 {
                acc.drop_last()
            } else {
                acc
            },
            a,
            b,
            k + 1,
        );
    }
}

proof fn lemma_walk_goes_on(acc: Seq<Seq<char>>, a: Seq<Seq<char>>, b: Seq<Seq<char>>, i: int)
    requires
        0 <= i <= a.len(),
    ensures
        task::walked(acc, a + b, i) == task::walked(task::walked(acc, a, i), b, 0),
    decreases a.len() - i,
{
    if i < a.len() {
        assert((a + b)[i] == a[i]);
        lemma_walk_goes_on(acc, a, b, i + 1);
        lemma_walk_goes_on(acc.push(a[i]), a, b, i + 1);
        lemma_walk_goes_on(
            if acc.len() > 0 {
                acc.drop_last()
            } else {
                acc
            },
            a,
            b,
            i + 1,
        );
    } else {
        lemma_walk_shifts(acc, a, b, 0);
    }
}

proof fn lemma_below(cwd: Seq<char>, p: Seq<char>, n: Seq<char>)
    requires
        p.len() > 0,
        forall|i: int| 0 <= i < n.len() ==> #[trigger] n[i] != '/',
    ensures
        task::path_parts(cwd, below(p, n)) == task::walked(task::path_parts(cwd, p), seq![n], 0),
{
    lemma_pieces_joined(p, n);
    lemma_one_piece(n);
    let base = if p[0] == '/' {
        Seq::empty()
    } else {
        task::walked(Seq::empty(), text::pieces(cwd, false), 0)
    };
    assert(below(p, n)[0] == p[0]);
    lemma_walk_goes_on(base, text::pieces(p, false), seq![n], 0);
}

proof fn lemma_only_root_is_short(cwd: Seq<char>, p: Seq<char>)
    ensures
        task::resolved(cwd, p).len() == 1 <==> task::path_parts(cwd, p).len() == 0,
        task::path_parts(cwd, p).len() == 0 ==> task::resolved(cwd, p) == seq!['/'],
{
    let parts = task::path_parts(cwd, p);
    task::law_resolved_path_is_clean(cwd, p);
    if parts.len() == 0 {
        assert(text::join(parts, '/') =~= Seq::empty());
        assert(task::resolved(cwd, p) =~= seq!['/']);
    } else if parts.len() == 1 {
        assert(task::plain(parts[0]));
    }
}

/// A plain name behind a path leads to that name below where the path leads.
pub proof fn law_name_leads_down(cwd: Seq<char>, p: Seq<char>, n: Seq<char>)
    requires
        p.len() > 0,
        n.len() > 0,
        n != "."@,
        n != ".."@,
        forall|i: int| 0 <= i < n.len() ==> #[trigger] n[i] != '/',
    ensures
        task::resolved(cwd, below(p, n)) == if task::resolved(cwd, p) == seq!['/'] {
            seq!['/'] + n
        } else {
            task::resolved(cwd, p) + seq!['/'] + n
        },
{
    let a = task::path_parts(cwd, p);
    lemma_below(cwd, p, n);
    lemma_only_root_is_short(cwd, p);
    reveal_with_fuel(task::walked, 3);
    let b = a.push(n);
    assert(task::path_parts(cwd, below(p, n)) == b);
    if a.len() == 0 {
        assert(text::join(b, '/') == n);
        assert(task::resolved(cwd, below(p, n)) =~= seq!['/'] + n);
    } else {
        assert(b.drop_last() =~= a);
        assert(text::join(b, '/') == text::join(a, '/').push('/') + n);
        assert(task::resolved(cwd, p).len() != 1);
        assert(task::resolved(cwd, below(p, n)) =~= task::resolved(cwd, p) + seq!['/'] + n);
    }
}

/// Two dots behind a name lead back to where the name was looked up, and at
/// the root they stay there.
pub proof fn law_two_dots_lead_up(cwd: Seq<char>, p: Seq<char>, n: Seq<char>)
    requires
        p.len() > 0,
        n.len() > 0,
        n != "."@,
        n != ".."@,
        forall|i: int| 0 <= i < n.len() ==> #[trigger] n[i] != '/',
    ensures
        task::resolved(cwd, below(below(p, n), seq!['.', '.'])) == task::resolved(cwd, p),
        task::resolved(cwd, p) == seq!['/'] ==> task::resolved(cwd, below(p, seq!['.', '.']))
            == seq!['/'],
{
    reveal_strlit(".");
    reveal_strlit("..");
    let dots = seq!['.', '.'];
    assert(dots =~= ".."@);
    assert("."@.len() == 1);
    let a = task::path_parts(cwd, p);
    lemma_below(cwd, p, n);
    lemma_below(cwd, below(p, n), dots);
    lemma_below(cwd, p, dots);
    lemma_only_root_is_short(cwd, p);
    lemma_only_root_is_short(cwd, below(p, dots));
    reveal_with_fuel(task::walked, 3);
    assert(a.push(n).drop_last() =~= a);
}

/// One dot, and a slash at the end, change nothing.
pub proof fn law_one_dot_leads_nowhere(cwd: Seq<char>, p: Seq<char>)
    requires
        p.len() > 0,
    ensures
        task::resolved(cwd, below(p, seq!['.'])) == task::resolved(cwd, p),
        task::resolved(cwd, p.push('/')) == task::resolved(cwd, p),
{
    reveal_strlit(".");
    let dot = seq!['.'];
    assert(dot =~= "."@);
    let e = Seq::<char>::empty();
    lemma_below(cwd, p, dot);
    lemma_below(cwd, p, e);
    assert(below(p, e) =~= p.push('/'));
    reveal_with_fuel(task::walked, 3);
}

/// The root is the root, and a path from it leads to the same place wherever
/// one stands.
pub proof fn law_absolute_path_starts_at_the_root(cwd: Seq<char>, other: Seq<char>, p: Seq<char>)
    requires
        p.len() > 0,
        p[0] == '/',
    ensures
        task::resolved(cwd, p) == task::resolved(other, p),
        task::resolved(cwd, seq!['/']) == seq!['/'],
{
    let e = Seq::<char>::empty();
    let root = seq!['/'];
    assert(root =~= e.push('/') + e);
    lemma_pieces_joined(e, e);
    lemma_one_piece(e);
    reveal_with_fuel(task::walked, 3);
    assert(text::pieces(root, false) =~= seq![e, e]);
    assert(task::path_parts(cwd, root) =~= Seq::empty());
    lemma_only_root_is_short(cwd, root);
}

/// Any other path is the same path below the working directory.
pub proof fn law_relative_path_starts_at_the_working_directory(
    cwd: Seq<char>,
    other: Seq<char>,
    p: Seq<char>,
)
    requires
        p.len() == 0 || p[0] != '/',
    ensures
        task::resolved(cwd, p) == task::resolved(other, below(seq!['/'] + cwd, p)),
{
    let e = Seq::<char>::empty();
    let whole = below(seq!['/'] + cwd, p);
    let a = text::pieces(cwd, false);
    let b = text::pieces(p, false);
    lemma_pieces_joined(seq!['/'] + cwd, p);
    text::lemma_pieces_of_rooted(cwd, false);
    assert(whole[0] == '/');
    assert(text::pieces(whole, false) =~= (seq![e] + a) + b);
    lemma_walk_goes_on(Seq::empty(), seq![e] + a, b, 0);
    lemma_walk_goes_on(Seq::empty(), seq![e], a, 0);
    reveal_with_fuel(task::walked, 3);
    assert(task::walked(Seq::empty(), seq![e], 0) == Seq::<Seq<char>>::empty());
}

// --- paths as Windows programs write them ---

proof fn lemma_rooted(c: char, s: Seq<char>)
    requires
        c == '/' || c == '\\',
    ensures
        text::pieces(seq![c] + s, true) == seq![Seq::<char>::empty()] + text::pieces(s, true),
    decreases s.len(),
{
    let r = seq![c] + s;
    let e = Seq::<char>::empty();
    if s.len() == 0 {
        assert(r =~= seq![c]);
        assert(r.drop_last() =~= e);
        assert(text::pieces(e, true) =~= seq![e]);
        assert(r.last() == c);
        assert(text::pieces(r, true) =~= text::pieces(e, true).push(e));
        assert(s =~= e);
        assert(text::pieces(r, true) =~= seq![e] + text::pieces(s, true));
    } else {
        lemma_rooted(c, s.drop_last());
        text::lemma_pieces_nonempty(s.drop_last(), true);
        assert(r.drop_last() =~= seq![c] + s.drop_last());
        assert(r.last() == s.last());
        assert(text::pieces(r, true) =~= seq![e] + text::pieces(s, true));
    }
}

proof fn lemma_empty_in_front(p: Seq<Seq<char>>)
    ensures
        text::nonempty(seq![Seq::<char>::empty()] + p) == text::nonempty(p),
    decreases p.len(),
{
    let e = Seq::<char>::empty();
    let q = seq![e] + p;
    if p.len() == 0 {
        assert(q =~= seq![e]);
        assert(q.drop_last() =~= Seq::<Seq<char>>::empty());
        assert(p =~= Seq::<Seq<char>>::empty());
    } else {
        lemma_empty_in_front(p.drop_last());
        assert(q.drop_last() =~= seq![e] + p.drop_last());
        assert(q.last() == p.last());
    }
}

/// A Windows path with a drive in front, its components behind slashes of
/// either kind, is the same components from the root on.
pub proof fn law_windows_path_is_the_native_one(drive: char, sep: char, parts: Seq<Seq<char>>)
    requires
        'A' <= drive <= 'z',
        sep == '/' || sep == '\\',
        parts.len() > 0,
        text::all_clean(parts, true),
    ensures
        nt_names::native_path(seq![drive, ':', sep] + text::join(parts, sep)) == seq!['/']
            + text::join(parts, '/'),
{
    let j = text::join(parts, sep);
    let win = seq![drive, ':', sep] + j;
    assert(win[0] == drive && win[1] == ':' && win[2] == sep);
    assert(win.skip(2) =~= seq![sep] + j);
    lemma_rooted(sep, j);
    lemma_empty_in_front(text::pieces(j, true));
    text::law_split_undoes_join(parts, sep, true);
}

} // verus!
