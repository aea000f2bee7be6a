//! A configuration registry: one tree of keys with typed values, addressed by
//! a backslash-separated path. Names are compared without regard to ASCII
//! case, and a leading `registry` component is ignored.
use vstd::prelude::*;

use crate::paths;
use crate::text;

verus! {

/// A stored value: a type tag and its bytes.
pub struct Value {
    pub ty: u32,
    pub data: Vec<u8>,
}

struct NamedValue {
    name: Vec<char>,
    value: Value,
}

struct Key {
    path: Vec<Vec<char>>,
    values: Vec<NamedValue>,
}

/// Every key with its path from the root; the root itself has the empty path.
pub struct Registry {
    keys: Vec<Key>,
}

/// A key's values by lower-case name.
pub type Values = Map<Seq<char>, (u32, Seq<u8>)>;

/// What the registry is: the values of each key by its path.
pub type Tree = Map<Seq<Seq<char>>, Values>;

/// The normalised components of a path.
pub open spec fn comps(path: Seq<char>) -> Seq<Seq<char>> {
    let c = text::nonempty(text::pieces(path, true)).map_values(|s: Seq<char>| text::lowered(s));
    if c.len() > 0 && c[0] == "registry"@ {
        c.skip(1)
    } else {
        c
    }
}

/// What a path's handle keeps of it.
pub open spec fn canonical(path: Seq<char>) -> Seq<char> {
    text::join(comps(path), '\\')
}

/// `p` starts with `front`.
pub open spec fn starts_with(p: Seq<Seq<char>>, front: Seq<Seq<char>>) -> bool {
    front.len() <= p.len() && p.take(front.len() as int) == front
}

/// The tree after `p` and its missing ancestors were made.
pub open spec fn made(t: Tree, p: Seq<Seq<char>>) -> Tree {
    Map::new(
        |q: Seq<Seq<char>>| t.contains_key(q) || starts_with(p, q),
        |q: Seq<Seq<char>>|
            if t.contains_key(q) {
                t[q]
            } else {
                Map::empty()
            },
    )
}

/// The tree without `p` and what lies below it.
pub open spec fn pruned(t: Tree, p: Seq<Seq<char>>) -> Tree {
    t.restrict(Set::new(|q: Seq<Seq<char>>| t.contains_key(q) && !starts_with(q, p)))
}

/// Every ancestor of a key is a key, the root among them.
pub open spec fn rooted(t: Tree) -> bool {
    &&& t.contains_key(Seq::empty())
    &&& forall|p: Seq<Seq<char>>, q: Seq<Seq<char>>|
        #![trigger t.contains_key(p), starts_with(p, q)]
        t.contains_key(p) && starts_with(p, q) ==> t.contains_key(q)
}

spec fn path_at(keys: Seq<Key>, i: int) -> Seq<Seq<char>> {
    text::texts(keys[i].path@)
}

spec fn knows(keys: Seq<Key>, p: Seq<Seq<char>>) -> bool {
    exists|i: int| 0 <= i < keys.len() && #[trigger] path_at(keys, i) == p
}

spec fn at(keys: Seq<Key>, p: Seq<Seq<char>>) -> int {
    choose|i: int| 0 <= i < keys.len() && #[trigger] path_at(keys, i) == p
}

spec fn distinct(keys: Seq<Key>) -> bool {
    forall|i: int, j: int|
        0 <= i < j < keys.len() ==> #[trigger] path_at(keys, i) != #[trigger] path_at(keys, j)
}

spec fn name_at(v: Seq<NamedValue>, i: int) -> Seq<char> {
    v[i].name@
}

spec fn has_name(v: Seq<NamedValue>, n: Seq<char>) -> bool {
    exists|i: int| 0 <= i < v.len() && #[trigger] name_at(v, i) == n
}

spec fn named_at(v: Seq<NamedValue>, n: Seq<char>) -> int {
    choose|i: int| 0 <= i < v.len() && #[trigger] name_at(v, i) == n
}

spec fn names_distinct(v: Seq<NamedValue>) -> bool {
    forall|i: int, j: int|
        0 <= i < j < v.len() ==> #[trigger] name_at(v, i) != #[trigger] name_at(v, j)
}

spec fn values_of(v: Seq<NamedValue>) -> Values {
    Map::new(
        |n: Seq<char>| has_name(v, n),
        |n: Seq<char>| (v[named_at(v, n)].value.ty, v[named_at(v, n)].value.data@),
    )
}

spec fn tree_of(keys: Seq<Key>) -> Tree {
    Map::new(
        |p: Seq<Seq<char>>| knows(keys, p),
        |p: Seq<Seq<char>>| values_of(keys[at(keys, p)].values@),
    )
}

impl View for Registry {
    type V = Tree;

    closed spec fn view(&self) -> Tree {
        tree_of(self.keys@)
    }
}

proof fn lemma_at(keys: Seq<Key>, i: int)
    requires
        distinct(keys),
        0 <= i < keys.len(),
    ensures
        knows(keys, path_at(keys, i)),
        at(keys, path_at(keys, i)) == i,
{
    let p = path_at(keys, i);
    let j = at(keys, p);
    assert(path_at(keys, i) == p);
    assert(0 <= j < keys.len() && path_at(keys, j) == p);
}

proof fn lemma_named_at(v: Seq<NamedValue>, i: int)
    requires
        names_distinct(v),
        0 <= i < v.len(),
    ensures
        has_name(v, name_at(v, i)),
        named_at(v, name_at(v, i)) == i,
{
    let n = name_at(v, i);
    let j = named_at(v, n);
    assert(name_at(v, i) == n);
    assert(0 <= j < v.len() && name_at(v, j) == n);
}

/// Pushing a key with a path of its own adds exactly that key.
proof fn lemma_push(keys: Seq<Key>, k: Key)
    requires
        distinct(keys),
        !knows(keys, text::texts(k.path@)),
    ensures
        distinct(keys.push(k)),
        tree_of(keys.push(k)) == tree_of(keys).insert(text::texts(k.path@), values_of(k.values@)),
{
    let p = text::texts(k.path@);
    let more = keys.push(k);
    assert forall|i: int| 0 <= i < keys.len() implies path_at(more, i) == #[trigger] path_at(
        keys,
        i,
    ) by {}
    assert(path_at(more, keys.len() as int) == p);
    assert forall|i: int, j: int| 0 <= i < j < more.len() implies #[trigger] path_at(more, i)
        != #[trigger] path_at(more, j) by {
        assert(path_at(keys, i) == path_at(more, i));
        if j < keys.len() {
            assert(path_at(keys, j) == path_at(more, j));
        }
    }
    let a = tree_of(more);
    let b = tree_of(keys).insert(p, values_of(k.values@));
    assert forall|q: Seq<Seq<char>>| a.contains_key(q) == b.contains_key(q) by {
        if knows(more, q) {
            let i = at(more, q);
            if i < keys.len() {
                assert(path_at(keys, i) == q);
            }
        }
        if knows(keys, q) {
            let i = at(keys, q);
            assert(path_at(more, i) == q);
        }
    }
    assert forall|q: Seq<Seq<char>>| a.contains_key(q) implies a[q] == b[q] by {
        if q == p {
            lemma_at(more, keys.len() as int);
        } else {
            let i = at(more, q);
            assert(i < keys.len());
            assert(path_at(keys, i) == q);
            lemma_at(keys, i);
        }
    }
    assert(a =~= b);
}

/// Replacing a key's values changes exactly that key.
proof fn lemma_replace(keys: Seq<Key>, i: int, k: Key)
    requires
        distinct(keys),
        0 <= i < keys.len(),
        text::texts(k.path@) == path_at(keys, i),
    ensures
        distinct(keys.update(i, k)),
        tree_of(keys.update(i, k)) == tree_of(keys).insert(path_at(keys, i), values_of(k.values@)),
{
    let p = path_at(keys, i);
    let more = keys.update(i, k);
    assert forall|j: int| 0 <= j < keys.len() implies #[trigger] path_at(more, j) == path_at(
        keys,
        j,
    ) by {}
    assert forall|a: int, b: int| 0 <= a < b < more.len() implies #[trigger] path_at(more, a)
        != #[trigger] path_at(more, b) by {
        assert(path_at(keys, a) == path_at(more, a));
        assert(path_at(keys, b) == path_at(more, b));
    }
    let x = tree_of(more);
    let y = tree_of(keys).insert(p, values_of(k.values@));
    assert forall|q: Seq<Seq<char>>| x.contains_key(q) == y.contains_key(q) by {
        if knows(more, q) {
            let j = at(more, q);
            assert(path_at(keys, j) == q);
        }
        if knows(keys, q) {
            let j = at(keys, q);
            assert(path_at(more, j) == q);
        }
        if q == p {
            assert(path_at(more, i) == q);
        }
    }
    assert forall|q: Seq<Seq<char>>| x.contains_key(q) implies x[q] == y[q] by {
        let j = at(more, q);
        assert(path_at(more, j) == q);
        assert(path_at(keys, j) == q);
        lemma_at(keys, j);
        lemma_at(more, j);
        if q == p {
            lemma_at(keys, i);
        }
    }
    assert(x =~= y);
}

/// Setting a value changes exactly that value.
proof fn lemma_set(v: Seq<NamedValue>, w: Seq<NamedValue>, i: int, x: NamedValue)
    requires
        names_distinct(v),
        0 <= i <= v.len(),
        i < v.len() ==> w == v.update(i, x) && x.name@ == v[i].name@,
        i == v.len() ==> w == v.push(x) && !has_name(v, x.name@),
    ensures
        names_distinct(w),
        values_of(w) == values_of(v).insert(x.name@, (x.value.ty, x.value.data@)),
{
    let n = x.name@;
    assert forall|j: int| 0 <= j < v.len() implies #[trigger] name_at(w, j) == name_at(v, j) by {}
    assert(name_at(w, i) == n);
    assert forall|a: int, b: int| 0 <= a < b < w.len() implies #[trigger] name_at(w, a)
        != #[trigger] name_at(w, b) by {
        assert(name_at(v, a) == name_at(w, a));
        if b < v.len() {
            assert(name_at(v, b) == name_at(w, b));
        }
    }
    let p = values_of(w);
    let q = values_of(v).insert(n, (x.value.ty, x.value.data@));
    assert forall|m: Seq<char>| p.contains_key(m) == q.contains_key(m) by {
        if has_name(w, m) {
            let j = named_at(w, m);
            if j < v.len() {
                assert(name_at(v, j) == m);
            }
        }
        if has_name(v, m) {
            let j = named_at(v, m);
            assert(name_at(w, j) == m);
        }
    }
    assert forall|m: Seq<char>| p.contains_key(m) implies p[m] == q[m] by {
        let j = named_at(w, m);
        assert(name_at(w, j) == m);
        lemma_named_at(w, j);
        if m == n {
            lemma_named_at(w, i);
        } else {
            assert(name_at(v, j) == m);
            lemma_named_at(v, j);
        }
    }
    assert(p =~= q);
}

/// Split a path into normalised components.
pub fn components(path: &str) -> (r: Vec<Vec<char>>)
    ensures
        text::texts(r@) == comps(path@),
{
    let chars = crate::text::chars_of(path);
    let parts = crate::text::components_of(chars.as_slice(), true);
    let ghost want = text::nonempty(text::pieces(path@, true)).map_values(
        |s: Seq<char>| text::lowered(s),
    );
    let mut low: Vec<Vec<char>> = Vec::new();
    let n: usize = parts.len();
    let mut i: usize = 0;
    while i < n
        invariant
            i <= n,
            n == parts@.len(),
            text::texts(parts@) == text::nonempty(text::pieces(path@, true)),
            want == text::nonempty(text::pieces(path@, true)).map_values(
                |s: Seq<char>| text::lowered(s),
            ),
            text::texts(low@) =~= want.take(i as int),
        decreases n - i,
    {
        assert(text::texts(parts@)[i as int] == parts@[i as int]@);
        let ghost low0 = low@;
        let w = crate::text::to_lowered(parts[i].as_slice());
        low.push(w);
        i = i + 1;
        assert(text::texts(low@) =~= text::texts(low0).push(w@));
        assert(want.take(i as int) =~= want.take(i - 1).push(w@));
    }
    assert(text::texts(low@) =~= want);
    let reg = crate::text::chars_of("registry");
    if n > 0 {
        assert(text::texts(low@)[0] == low@[0]@);
        if crate::text::same_chars(low[0].as_slice(), reg.as_slice()) {
            let _first = low.remove(0);
            assert(text::texts(low@) =~= want.skip(1));
        }
    }
    low
}

/// The canonical backslash-joined form of `path`: what a key handle stores.
pub fn canon(path: &str) -> (r: String)
    ensures
        r@ == canonical(path@),
{
    let c = components(path);
    let j = crate::text::join_with(&c, '\\');
    crate::text::string_of(j.as_slice())
}

fn has_front(p: &Vec<Vec<char>>, front: &Vec<Vec<char>>) -> (r: bool)
    ensures
        r == starts_with(text::texts(p@), text::texts(front@)),
{
    let n: usize = front.len();
    if n > p.len() {
        return false;
    }
    let mut i: usize = 0;
    while i < n
        invariant
            i <= n,
            n == front@.len(),
            n <= p@.len(),
            forall|k: int| 0 <= k < i ==> p@[k]@ == front@[k]@,
        decreases n - i,
    {
        if !crate::text::same_chars(p[i].as_slice(), front[i].as_slice()) {
            assert(text::texts(p@).take(n as int)[i as int] != text::texts(front@)[i as int]);
            return false;
        }
        i = i + 1;
    }
    assert(text::texts(p@).take(n as int) =~= text::texts(front@));
    true
}

fn front_of(p: &Vec<Vec<char>>, n: usize) -> (r: Vec<Vec<char>>)
    requires
        n <= p@.len(),
    ensures
        text::texts(r@) == text::texts(p@).take(n as int),
{
    let mut r: Vec<Vec<char>> = Vec::new();
    let mut i: usize = 0;
    while i < n
        invariant
            i <= n,
            n <= p@.len(),
            text::texts(r@) =~= text::texts(p@).take(i as int),
        decreases n - i,
    {
        let ghost r0 = r@;
        let w = crate::text::copy_chars(p[i].as_slice());
        r.push(w);
        i = i + 1;
        assert(text::texts(r@) =~= text::texts(r0).push(w@));
    }
    r
}

impl Registry {
    pub closed spec fn wf(self) -> bool {
        &&& distinct(self.keys@)
        &&& forall|i: int| 0 <= i < self.keys@.len() ==> names_distinct(#[trigger] self.keys@[i].values@)
        &&& rooted(self@)
    }

    fn find(&self, p: &Vec<Vec<char>>) -> (r: Option<usize>)
        requires
            self.wf(),
        ensures
            match r {
                Some(i) => i < self.keys@.len() && path_at(self.keys@, i as int) == text::texts(p@)
                    && self@.contains_key(text::texts(p@)) && self@[text::texts(p@)] == values_of(
                    self.keys@[i as int].values@,
                ),
                None => !self@.contains_key(text::texts(p@)),
            },
    {
        let n: usize = self.keys.len();
        let mut i: usize = 0;
        while i < n
            invariant
                i <= n,
                n == self.keys@.len(),
                self.wf(),
                forall|j: int| 0 <= j < i ==> #[trigger] path_at(self.keys@, j) != text::texts(p@),
            decreases n - i,
        {
            if crate::text::same_texts(&self.keys[i].path, p) {
                proof {
                    assert(path_at(self.keys@, i as int) == text::texts(p@));
                    lemma_at(self.keys@, i as int);
                }
                return Some(i);
            }
            assert(path_at(self.keys@, i as int) != text::texts(p@));
            i = i + 1;
        }
        None
    }

    /// Make `p` and its missing ancestors.
    fn make(&mut self, p: &Vec<Vec<char>>)
        requires
            old(self).wf(),
        ensures
            final(self).wf(),
            final(self)@ == made(old(self)@, text::texts(p@)),
    {
        let n: usize = p.len();
        let mut k: usize = 0;
        let ghost full = text::texts(p@);
        let ghost t0 = self@;
        assert(self@ =~= made(t0, full.take(0))) by {
            assert forall|q: Seq<Seq<char>>| starts_with(full.take(0), q) implies t0.contains_key(
                q,
            ) by {
                assert(q =~= Seq::empty());
            }
        }
        while k < n
            invariant
                k <= n,
                n == p@.len(),
                full == text::texts(p@),
                self.wf(),
                rooted(t0),
                self@ == made(t0, full.take(k as int)),
            decreases n - k,
        {
            let q = front_of(p, k + 1);
            let ghost before = self@;
            proof {
                assert forall|x: Seq<Seq<char>>| starts_with(full.take(k + 1), x) implies starts_with(
                    full.take(k as int),
                    x,
                ) || x == full.take(k + 1) by {
                    if x.len() == k + 1 {
                        assert(full.take(k + 1).take(k + 1) =~= full.take(k + 1));
                    } else {
                        assert(full.take(k + 1).take(x.len() as int) =~= full.take(
                            k as int,
                        ).take(x.len() as int));
                    }
                }
                assert forall|x: Seq<Seq<char>>| starts_with(full.take(k as int), x) implies starts_with(
                    full.take(k + 1),
                    x,
                ) by {
                    assert(full.take(k + 1).take(x.len() as int) =~= full.take(k as int).take(
                        x.len() as int,
                    ));
                }
                assert(full.take(k + 1).take(k + 1) =~= full.take(k + 1));
            }
            if self.find(&q).is_none() {
                let key = Key { path: q, values: Vec::new() };
                let ghost keys0 = self.keys@;
                proof {
                    assert(!knows(self.keys@, text::texts(key.path@)));
                    lemma_push(self.keys@, key);
                    assert(values_of(key.values@) =~= Map::empty());
                }
                self.keys.push(key);
                proof {
                    assert(self@ =~= before.insert(full.take(k + 1), Map::empty()));
                    assert forall|i: int| 0 <= i < self.keys@.len() implies names_distinct(
                        #[trigger] self.keys@[i].values@,
                    ) by {
                        if i < keys0.len() {
                            assert(self.keys@[i] == keys0[i]);
                        }
                    }
                }
            }
            proof {
                assert(self@ =~= made(t0, full.take(k + 1)));
                lemma_made_rooted(t0, full.take(k + 1));
            }
            k = k + 1;
        }
        assert(full.take(n as int) =~= full);
    }

    /// A registry with the standard hives.
    pub fn new() -> (r: Self)
        ensures
            r.wf(),
            r@ == hives(),
    {
        let root = Key { path: Vec::new(), values: Vec::new() };
        let ghost e = Seq::<Key>::empty();
        proof {
            lemma_push(e, root);
            assert(values_of(root.values@) =~= Map::empty());
            assert(text::texts(root.path@) =~= Seq::empty());
            assert(tree_of(e) =~= Map::empty());
        }
        let mut keys: Vec<Key> = Vec::new();
        keys.push(root);
        assert(keys@ =~= e.push(root));
        let mut r = Registry { keys };
        assert(r@ == bare());
        assert(rooted(r@)) by {
            assert forall|p: Seq<Seq<char>>, q: Seq<Seq<char>>|
                #![trigger r@.contains_key(p), starts_with(p, q)]
                r@.contains_key(p) && starts_with(p, q) implies r@.contains_key(q) by {
                assert(q =~= Seq::empty());
            }
        }
        let a = components("machine");
        r.make(&a);
        let b = components("user");
        r.make(&b);
        let c = components("machine\\software");
        r.make(&c);
        let d = components("machine\\system");
        r.make(&d);
        r
    }

    /// Create `path` and any missing ancestors. `false` only where it has no
    /// component.
    pub fn create(&mut self, path: &str) -> (r: bool)
        requires
            old(self).wf(),
        ensures
            final(self).wf(),
            r == (comps(path@).len() > 0),
            final(self)@ == if r {
                made(old(self)@, comps(path@))
            } else {
                old(self)@
            },
    {
        let c = components(path);
        assert(c@.len() == comps(path@).len());
        if c.len() == 0 {
            return false;
        }
        self.make(&c);
        true
    }

    /// Whether `path` names a key.
    pub fn open(&self, path: &str) -> (r: bool)
        requires
            self.wf(),
        ensures
            r == self@.contains_key(comps(path@)),
    {
        let c = components(path);
        self.find(&c).is_some()
    }

    /// Set or replace a value of a key. `false` where there is no such key.
    pub fn set_value(&mut self, path: &str, name: &str, ty: u32, data: &[u8]) -> (r: bool)
        requires
            old(self).wf(),
        ensures
            final(self).wf(),
            r == old(self)@.contains_key(comps(path@)),
            final(self)@ == value_set(old(self)@, comps(path@), text::lowered(name@), ty, data@),
    {
        let c = components(path);
        let i: usize = match self.find(&c) {
            Some(i) => i,
            None => {
                return false;
            },
        };
        let chars = crate::text::chars_of(name);
        let low = crate::text::to_lowered(chars.as_slice());
        let mut bytes: Vec<u8> = Vec::new();
        crate::bytes::extend(&mut bytes, data);
        assert(bytes@ =~= data@);
        let x = NamedValue { name: low, value: Value { ty, data: bytes } };
        let ghost keys0 = self.keys@;
        let ghost v0 = self.keys@[i as int].values@;
        let j: usize = find_name(&self.keys[i].values, &x.name);
        if j < self.keys[i].values.len() {
            self.keys[i].values[j] = x;
        } else {
            self.keys[i].values.push(x);
        }
        proof {
            let k = self.keys@[i as int];
            lemma_set(v0, k.values@, j as int, x);
            assert(self.keys@ =~= keys0.update(i as int, k));
            lemma_replace(keys0, i as int, k);
            assert forall|m: int| 0 <= m < self.keys@.len() implies names_distinct(
                #[trigger] self.keys@[m].values@,
            ) by {
                if m != i {
                    assert(self.keys@[m] == keys0[m]);
                }
            }
            let t = old(self)@;
            assert(self@ =~= value_set(t, comps(path@), text::lowered(name@), ty, data@));
            assert forall|p: Seq<Seq<char>>, q: Seq<Seq<char>>|
                #![trigger self@.contains_key(p), starts_with(p, q)]
                self@.contains_key(p) && starts_with(p, q) implies self@.contains_key(q) by {
                assert(t.contains_key(p));
                assert(t.contains_key(q));
            }
        }
        true
    }

    /// A value's type and bytes.
    pub fn query_value(&self, path: &str, name: &str) -> (r: Option<(u32, Vec<u8>)>)
        requires
            self.wf(),
        ensures
            match value_of(self@, comps(path@), text::lowered(name@)) {
                Some(v) => r matches Some((ty, data)) && ty == v.0 && data@ == v.1,
                None => r is None,
            },
    {
        let c = components(path);
        let i: usize = match self.find(&c) {
            Some(i) => i,
            None => {
                return None;
            },
        };
        let chars = crate::text::chars_of(name);
        let low = crate::text::to_lowered(chars.as_slice());
        let v = &self.keys[i].values;
        assert(names_distinct(self.keys@[i as int].values@));
        let j: usize = find_name(v, &low);
        if j < v.len() {
            let mut bytes: Vec<u8> = Vec::new();
            crate::bytes::extend(&mut bytes, v[j].value.data.as_slice());
            proof {
                lemma_named_at(v@, j as int);
                assert(bytes@ =~= v@[j as int].value.data@);
            }
            Some((v[j].value.ty, bytes))
        } else {
            None
        }
    }

    /// Remove a key and what lies below it. `false` where `path` has no
    /// component or names no key.
    #[verifier::loop_isolation(false)]
    pub fn delete_key(&mut self, path: &str) -> (r: bool)
        requires
            old(self).wf(),
        ensures
            final(self).wf(),
            r == (comps(path@).len() > 0 && old(self)@.contains_key(comps(path@))),
            final(self)@ == if r {
                pruned(old(self)@, comps(path@))
            } else {
                old(self)@
            },
    {
        let c = components(path);
        let ghost p = comps(path@);
        assert(c@.len() == p.len());
        if c.len() == 0 {
            return false;
        }
        if self.find(&c).is_none() {
            return false;
        }
        let ghost all = self.keys@;
        let ghost t = self@;
        let mut old_keys: Vec<Key> = Vec::new();
        std::mem::swap(&mut old_keys, &mut self.keys);
        let mut kept: Vec<Key> = Vec::new();
        let ghost mut n: int = all.len() as int;
        while old_keys.len() > 0
            invariant
                0 <= n <= all.len(),
                old_keys@ == all.take(n),
                distinct(kept@),
                forall|j: int|
                    0 <= j < kept@.len() ==> #[trigger] from_tail(all, n, p, kept@[j]),
                forall|i: int|
                    n <= i < all.len() && !starts_with(#[trigger] path_at(all, i), p)
                        ==> kept@.contains(all[i]),
            decreases old_keys@.len(),
        {
            let ghost kept0 = kept@;
            let ghost m = n - 1;
            let k = old_keys.pop().unwrap();
            assert(k == all[m]);
            assert(old_keys@ =~= all.take(m));
            assert forall|j: int| 0 <= j < kept0.len() implies #[trigger] from_tail(
                all,
                m,
                p,
                kept0[j],
            ) by {
                assert(from_tail(all, n, p, kept0[j]));
            }
            if !has_front(&k.path, &c) {
                proof {
                    assert(path_at(all, m) == text::texts(k.path@));
                    assert forall|j: int| 0 <= j < kept0.len() implies #[trigger] path_at(kept0, j)
                        != path_at(all, m) by {
                        assert(from_tail(all, n, p, kept0[j]));
                        let i = choose|i: int| n <= i < all.len() && all[i] == kept0[j];
                        assert(path_at(all, i) == path_at(kept0, j));
                        assert(path_at(all, m) != path_at(all, i));
                    }
                    assert(!knows(kept0, text::texts(k.path@)));
                    lemma_push(kept0, k);
                    assert(from_tail(all, m, p, k)) by {
                        assert(all[m] == k);
                    }
                }
                kept.push(k);
                proof {
                    assert forall|j: int| 0 <= j < kept@.len() implies #[trigger] from_tail(
                        all,
                        m,
                        p,
                        kept@[j],
                    ) by {
                        if j < kept0.len() {
                            assert(kept@[j] == kept0[j]);
                            assert(from_tail(all, m, p, kept0[j]));
                        }
                    }
                    assert forall|i: int|
                        m <= i < all.len() && !starts_with(
                            #[trigger] path_at(all, i),
                            p,
                        ) implies kept@.contains(all[i]) by {
                        if i == m {
                            assert(kept@[kept0.len() as int] == all[i]);
                        } else {
                            assert(kept0.contains(all[i]));
                            let j = choose|j: int| 0 <= j < kept0.len() && kept0[j] == all[i];
                            assert(kept@[j] == all[i]);
                        }
                    }
                }
            } else {
                proof {
                    assert(starts_with(path_at(all, m), p));
                }
            }
            proof {
                n = m;
            }
        }
        self.keys = kept;
        proof {
            assert(n == 0);
            let x = self@;
            let y = pruned(t, p);
            assert forall|q: Seq<Seq<char>>| x.contains_key(q) == y.contains_key(q) by {
                if knows(kept@, q) {
                    let j = at(kept@, q);
                    assert(from_tail(all, n, p, kept@[j]));
                    let i = choose|i: int| 0 <= i < all.len() && all[i] == kept@[j];
                    assert(path_at(all, i) == q);
                }
                if knows(all, q) && !starts_with(q, p) {
                    let i = at(all, q);
                    assert(path_at(all, i) == q);
                    assert(kept@.contains(all[i]));
                    let j = choose|j: int| 0 <= j < kept@.len() && kept@[j] == all[i];
                    assert(path_at(kept@, j) == q);
                }
            }
            assert forall|q: Seq<Seq<char>>| x.contains_key(q) implies x[q] == y[q] by {
                let j = at(kept@, q);
                assert(path_at(kept@, j) == q);
                assert(from_tail(all, n, p, kept@[j]));
                let i = choose|i: int| 0 <= i < all.len() && all[i] == kept@[j];
                assert(path_at(all, i) == q);
                lemma_at(all, i);
            }
            assert(x =~= y);
            assert forall|i: int| 0 <= i < self.keys@.len() implies names_distinct(
                #[trigger] self.keys@[i].values@,
            ) by {
                assert(from_tail(all, n, p, kept@[i]));
            }
            lemma_pruned_rooted(t, p);
        }
        true
    }
}

/// `k` is one of `all` from place `n` on, and does not lie below `p`.
spec fn from_tail(all: Seq<Key>, n: int, p: Seq<Seq<char>>, k: Key) -> bool {
    &&& exists|i: int| n <= i < all.len() && #[trigger] all[i] == k
    &&& !starts_with(text::texts(k.path@), p)
}

fn find_name(v: &Vec<NamedValue>, name: &Vec<char>) -> (j: usize)
    requires
        names_distinct(v@),
    ensures
        j <= v@.len(),
        j < v@.len() ==> v@[j as int].name@ == name@ && has_name(v@, name@),
        j == v@.len() ==> !has_name(v@, name@),
{
    let n: usize = v.len();
    let mut j: usize = 0;
    while j < n
        invariant
            j <= n,
            n == v@.len(),
            forall|i: int| 0 <= i < j ==> #[trigger] name_at(v@, i) != name@,
        decreases n - j,
    {
        if crate::text::same_chars(v[j].name.as_slice(), name.as_slice()) {
            assert(name_at(v@, j as int) == name@);
            return j;
        }
        assert(name_at(v@, j as int) != name@);
        j = j + 1;
    }
    j
}

/// The root alone.
pub open spec fn bare() -> Tree {
    Map::<Seq<Seq<char>>, Values>::empty().insert(Seq::empty(), Map::empty())
}

/// The standard hives.
pub open spec fn hives() -> Tree {
    let t = made(bare(), comps("machine"@));
    let t = made(t, comps("user"@));
    let t = made(t, comps("machine\\software"@));
    made(t, comps("machine\\system"@))
}

/// The tree after a value was set; itself where there is no such key.
pub open spec fn value_set(
    t: Tree,
    p: Seq<Seq<char>>,
    name: Seq<char>,
    ty: u32,
    data: Seq<u8>,
) -> Tree {
    if t.contains_key(p) {
        t.insert(p, t[p].insert(name, (ty, data)))
    } else {
        t
    }
}

pub open spec fn value_of(t: Tree, p: Seq<Seq<char>>, name: Seq<char>) -> Option<(u32, Seq<u8>)> {
    if t.contains_key(p) && t[p].contains_key(name) {
        Some(t[p][name])
    } else {
        None
    }
}

proof fn lemma_made_rooted(t: Tree, p: Seq<Seq<char>>)
    requires
        rooted(t),
    ensures
        rooted(made(t, p)),
{
    let m = made(t, p);
    assert forall|a: Seq<Seq<char>>, b: Seq<Seq<char>>|
        #![trigger m.contains_key(a), starts_with(a, b)]
        m.contains_key(a) && starts_with(a, b) implies m.contains_key(b) by {
        if t.contains_key(a) {
            assert(t.contains_key(b));
        } else {
            assert(p.take(b.len() as int) =~= b) by {
                assert(p.take(a.len() as int).take(b.len() as int) =~= p.take(b.len() as int));
            }
            assert(starts_with(p, b));
        }
    }
}

proof fn lemma_pruned_rooted(t: Tree, p: Seq<Seq<char>>)
    requires
        rooted(t),
        p.len() > 0,
    ensures
        rooted(pruned(t, p)),
{
    let m = pruned(t, p);
    assert forall|a: Seq<Seq<char>>, b: Seq<Seq<char>>|
        #![trigger m.contains_key(a), starts_with(a, b)]
        m.contains_key(a) && starts_with(a, b) implies m.contains_key(b) by {
        assert(t.contains_key(a));
        assert(t.contains_key(b));
        if starts_with(b, p) {
            assert(a.take(p.len() as int) =~= b.take(p.len() as int)) by {
                assert(a.take(b.len() as int).take(p.len() as int) =~= a.take(p.len() as int));
            }
            assert(starts_with(a, p));
        }
    }
}

/// What was set is read back, and no other value changed.
pub proof fn law_query_reads_what_was_set(
    t: Tree,
    p: Seq<Seq<char>>,
    name: Seq<char>,
    ty: u32,
    data: Seq<u8>,
    q: Seq<Seq<char>>,
    other: Seq<char>,
)
    requires
        t.contains_key(p),
    ensures
        value_of(value_set(t, p, name, ty, data), p, name) == Some((ty, data)),
        q != p || other != name ==> value_of(value_set(t, p, name, ty, data), q, other) == value_of(
            t,
            q,
            other,
        ),
{
}

/// A key that was created is there, with every ancestor, and what was there
/// stays as it was.
pub proof fn law_create_keeps_what_was_there(t: Tree, p: Seq<Seq<char>>, q: Seq<Seq<char>>)
    ensures
        made(t, p).contains_key(p),
        starts_with(p, q) ==> made(t, p).contains_key(q),
        t.contains_key(q) ==> made(t, p).contains_key(q) && made(t, p)[q] == t[q],
{
    assert(p.take(p.len() as int) =~= p);
}

/// A key that was deleted is gone with all that lay below it, and nothing else
/// is.
pub proof fn law_delete_removes_the_subtree(t: Tree, p: Seq<Seq<char>>, q: Seq<Seq<char>>)
    ensures
        !pruned(t, p).contains_key(p),
        starts_with(q, p) ==> !pruned(t, p).contains_key(q),
        !starts_with(q, p) ==> pruned(t, p).contains_key(q) == t.contains_key(q),
{
    assert(p.take(p.len() as int) =~= p);
}

proof fn lemma_comps(path: Seq<char>)
    ensures
        comps(path) == {
            let c = paths::low_parts(path, true);
            if c.len() > 0 && c[0] == "registry"@ {
                c.skip(1)
            } else {
                c
            }
        },
{
    assert(paths::low_parts(path, true) =~= text::nonempty(text::pieces(path, true)).map_values(
        |s: Seq<char>| text::lowered(s),
    ));
}

proof fn lemma_comps_clean(path: Seq<char>)
    ensures
        text::all_clean(comps(path), true),
        forall|k: int|
            0 <= k < comps(path).len() ==> text::lowered(#[trigger] comps(path)[k]) == comps(path)[k],
{
    let raw = text::nonempty(text::pieces(path, true));
    let low = raw.map_values(|s: Seq<char>| text::lowered(s));
    let c = comps(path);
    text::law_components_are_clean(path, true);
    assert forall|k: int| 0 <= k < low.len() implies text::clean(#[trigger] low[k], true)
        && text::lowered(low[k]) == low[k] by {
        assert(text::clean(raw[k], true));
        assert forall|i: int| 0 <= i < low[k].len() implies !text::is_sep(
            #[trigger] low[k][i],
            true,
        ) by {
            assert(!text::is_sep(raw[k][i], true));
        }
        assert(text::lowered(text::lowered(raw[k])) =~= text::lowered(raw[k]));
    }
    assert forall|k: int| 0 <= k < c.len() implies text::clean(#[trigger] c[k], true)
        && text::lowered(c[k]) == c[k] by {
        if low.len() > 0 && low[0] == "registry"@ {
            assert(c[k] == low[k + 1]);
        } else {
            assert(c[k] == low[k]);
        }
    }
}

/// A leading `registry` component, in any case and with any separators round
/// it, makes no difference, unless what follows starts with another one.
pub proof fn law_registry_prefix_makes_no_difference(
    front: Seq<char>,
    name: Seq<char>,
    c: char,
    q: Seq<char>,
)
    requires
        paths::blank(front, true),
        text::lowered(name) == "registry"@,
        text::is_sep(c, true),
        ({
            let own = paths::low_parts(q, true);
            own.len() == 0 || own[0] != "registry"@
        }),
    ensures
        comps(front + name.push(c) + q) == comps(q),
        canonical(front + name.push(c) + q) == canonical(q),
{
    reveal_strlit("registry");
    let low = |s: Seq<char>| text::lowered(s);
    let whole = front + name.push(c) + q;
    let word = "registry"@;
    assert(word =~= seq!['r', 'e', 'g', 'i', 's', 't', 'r', 'y']);
    assert(text::lowered(name).len() == name.len());
    assert forall|i: int| 0 <= i < name.len() implies !text::is_sep(#[trigger] name[i], true) by {
        assert(text::lowered(name)[i] == text::lower(name[i]));
        assert(!text::is_sep(word[i], true));
    }
    paths::lemma_one_part(name, true);
    paths::law_extra_separators_change_nothing(name.push(c) + q, c, front, q, true);
    assert(whole =~= front + (name.push(c) + q));
    paths::law_separator_parts(name, c, q, true);
    let own = paths::low_parts(q, true);
    let all = paths::low_parts(whole, true);
    assert(all =~= seq![text::lowered(name)] + own);
    assert(all.skip(1) =~= own);
    lemma_comps(whole);
    lemma_comps(q);
}

/// Letters may stand in either case, and either separator may stand where one
/// stands.
pub proof fn law_case_and_separators_make_no_difference(s: Seq<char>, t: Seq<char>)
    requires
        paths::alike(s, t, true),
    ensures
        comps(s) == comps(t),
        canonical(s) == canonical(t),
{
    paths::law_separators_and_case_are_alike(s, t, true);
    lemma_comps(s);
    lemma_comps(t);
}

/// Separators may be repeated, and may stand at the ends.
pub proof fn law_extra_separators_make_no_difference(
    a: Seq<char>,
    c: char,
    more: Seq<char>,
    b: Seq<char>,
)
    requires
        text::is_sep(c, true),
        paths::blank(more, true),
    ensures
        canonical(a.push(c) + more + b) == canonical(a.push(c) + b),
        canonical(more + a) == canonical(a),
        canonical(a + more) == canonical(a),
{
    paths::law_extra_separators_change_nothing(a, c, more, b, true);
}

/// A path in canonical form: lower case, and components with one backslash
/// between each two.
pub open spec fn in_canonical_form(s: Seq<char>) -> bool {
    &&& text::lowered(s) == s
    &&& forall|i: int| 0 <= i < s.len() ==> #[trigger] s[i] != '/'
    &&& s.len() > 0 ==> s[0] != '\\' && s.last() != '\\'
    &&& forall|i: int, j: int|
        #![trigger s[i], s[j]]
        0 <= i < j < s.len() && s[i] == '\\' && s[j] == '\\' ==> i + 1 < j
}

proof fn lemma_join_form(p: Seq<Seq<char>>)
    requires
        text::all_clean(p, true),
        forall|k: int| 0 <= k < p.len() ==> text::lowered(#[trigger] p[k]) == p[k],
    ensures
        in_canonical_form(text::join(p, '\\')),
        p.len() > 0 ==> text::join(p, '\\').len() > 0,
    decreases p.len(),
{
    let s = text::join(p, '\\');
    if p.len() == 0 {
        assert(text::lowered(s) =~= s);
    } else {
        let l = p.last();
        assert(p[p.len() - 1] == l);
        assert(text::clean(l, true));
        assert forall|i: int| 0 <= i < l.len() implies #[trigger] l[i] != '/' && l[i] != '\\'
            && text::lower(l[i]) == l[i] by {
            assert(!text::is_sep(l[i], true));
            assert(text::lowered(l)[i] == l[i]);
        }
        if p.len() == 1 {
            assert(s == l);
        } else {
            let f = p.drop_last();
            assert forall|k: int| 0 <= k < f.len() implies text::clean(#[trigger] f[k], true)
                && text::lowered(f[k]) == f[k] by {
                assert(f[k] == p[k]);
            }
            lemma_join_form(f);
            let j = text::join(f, '\\');
            assert(s == j.push('\\') + l);
            assert forall|i: int| 0 <= i < s.len() implies #[trigger] s[i] != '/' && text::lower(s[i])
                == s[i] by {
                if i < j.len() {
                    assert(s[i] == j[i]);
                    assert(text::lowered(j)[i] == j[i]);
                } else if i > j.len() {
                    assert(s[i] == l[i - j.len() - 1]);
                }
            }
            assert(s[0] == j[0]);
            assert(s.last() == l[l.len() - 1]);
            assert forall|a: int, b: int|
                #![trigger s[a], s[b]]
                0 <= a < b < s.len() && s[a] == '\\' && s[b] == '\\' implies a + 1 < b by {
                if b < j.len() {
                    assert(s[a] == j[a] && s[b] == j[b]);
                } else if b == j.len() {
                    assert(s[a] == j[a]);
                    assert(j[j.len() - 1] == j.last());
                } else {
                    assert(s[b] == l[b - j.len() - 1]);
                }
            }
            assert(text::lowered(s) =~= s);
        }
    }
}

/// The canonical form of any path is lower case with single backslashes inside,
/// and none at the ends.
pub proof fn law_canonical_paths_are_in_canonical_form(path: Seq<char>)
    ensures
        in_canonical_form(canonical(path)),
{
    lemma_comps_clean(path);
    lemma_join_form(comps(path));
}

/// The canonical form of a path names the same key as the path, and is its own
/// canonical form, unless the path repeats the leading `registry` component.
pub proof fn law_canonical_path_names_the_same_key(path: Seq<char>)
    requires
        comps(path).len() == 0 || comps(path)[0] != "registry"@,
    ensures
        comps(canonical(path)) == comps(path),
        canonical(canonical(path)) == canonical(path),
{
    let c = comps(path);
    lemma_comps_clean(path);
    text::law_split_undoes_join(c, '\\', true);
    let again = c.map_values(|s: Seq<char>| text::lowered(s));
    assert forall|k: int| 0 <= k < c.len() implies #[trigger] again[k] == c[k] by {
        assert(text::lowered(c[k]) == c[k]);
    }
    assert(again =~= c);
}

/// A path with its letters in upper case.
pub open spec fn uppered(s: Seq<char>) -> Seq<char> {
    s.map_values(
        |c: char|
            if 'a' <= c <= 'z' {
                (c as u32 - 32) as char
            } else {
                c
            },
    )
}

/// A path with a slash for every backslash.
pub open spec fn slashed(s: Seq<char>) -> Seq<char> {
    s.map_values(
        |c: char|
            if c == '\\' {
                '/'
            } else {
                c
            },
    )
}

/// A path has one canonical form, with the `\Registry\` prefix or without it, in
/// upper case, with slashes for backslashes, and taken again; unless it starts
/// with a `registry` component of its own.
pub proof fn law_path_has_one_canonical_form(q: Seq<char>)
    requires
        ({
            let own = paths::low_parts(q, true);
            own.len() == 0 || own[0] != "registry"@
        }),
    ensures
        canonical("\\Registry\\"@ + q) == canonical(q),
        canonical(uppered(q)) == canonical(q),
        canonical(slashed(q)) == canonical(q),
        canonical(canonical(q)) == canonical(q),
        in_canonical_form(canonical(q)),
{
    reveal_strlit("\\Registry\\");
    reveal_strlit("registry");
    let name = seq!['R', 'e', 'g', 'i', 's', 't', 'r', 'y'];
    let front = seq!['\\'];
    assert(text::lowered(name) =~= "registry"@);
    assert("\\Registry\\"@ + q =~= front + name.push('\\') + q);
    law_registry_prefix_makes_no_difference(front, name, '\\', q);
    law_case_and_separators_make_no_difference(uppered(q), q);
    law_case_and_separators_make_no_difference(slashed(q), q);
    law_canonical_paths_are_in_canonical_form(q);
    lemma_comps(q);
    law_canonical_path_names_the_same_key(q);
}

} // verus!
