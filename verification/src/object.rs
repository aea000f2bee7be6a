//! The handle table: objects of every kind by handle, handles never reused.
use std::collections::BTreeMap;

use vstd::prelude::*;

use crate::vfs::OpenFile;
use crate::wait::{Event, Mutant, Semaphore};

verus! {

/// An opaque handle. 0 is never valid.
#[derive(Clone, Copy, PartialEq, Eq, Debug, Structural)]
pub struct Handle(pub u32);

/// An executive object.
pub enum Object {
    File(OpenFile),
    Event(Event),
    Semaphore(Semaphore),
    Mutant(Mutant),
}

/// A type of which objects are made.
pub trait Kind: Sized {
    /// The object that a value makes.
    spec fn object(self) -> Object;

    /// What an object holds, asked for at this type; nothing where it was made
    /// of another.
    spec fn held(o: Object) -> Option<Self>;

    /// What an object was made of is what it holds.
    proof fn lemma_held(self)
        ensures
            Self::held(self.object()) == Some(self),
    ;

    fn into_object(self) -> (r: Object)
        ensures
            r == self.object(),
    ;

    fn held_in(o: &Object) -> (r: Option<&Self>)
        ensures
            r == match Self::held(*o) {
                Some(x) => Some(&x),
                None => None,
            },
    ;
}

impl Kind for OpenFile {
    open spec fn object(self) -> Object {
        Object::File(self)
    }

    open spec fn held(o: Object) -> Option<Self> {
        match o {
            Object::File(x) => Some(x),
            _ => None,
        }
    }

    proof fn lemma_held(self) {
    }

    fn into_object(self) -> (r: Object) {
        Object::File(self)
    }

    fn held_in(o: &Object) -> (r: Option<&Self>) {
        match o {
            Object::File(x) => Some(x),
            _ => None,
        }
    }
}

impl Kind for Event {
    open spec fn object(self) -> Object {
        Object::Event(self)
    }

    open spec fn held(o: Object) -> Option<Self> {
        match o {
            Object::Event(x) => Some(x),
            _ => None,
        }
    }

    proof fn lemma_held(self) {
    }

    fn into_object(self) -> (r: Object) {
        Object::Event(self)
    }

    fn held_in(o: &Object) -> (r: Option<&Self>) {
        match o {
            Object::Event(x) => Some(x),
            _ => None,
        }
    }
}

impl Kind for Semaphore {
    open spec fn object(self) -> Object {
        Object::Semaphore(self)
    }

    open spec fn held(o: Object) -> Option<Self> {
        match o {
            Object::Semaphore(x) => Some(x),
            _ => None,
        }
    }

    proof fn lemma_held(self) {
    }

    fn into_object(self) -> (r: Object) {
        Object::Semaphore(self)
    }

    fn held_in(o: &Object) -> (r: Option<&Self>) {
        match o {
            Object::Semaphore(x) => Some(x),
            _ => None,
        }
    }
}

impl Kind for Mutant {
    open spec fn object(self) -> Object {
        Object::Mutant(self)
    }

    open spec fn held(o: Object) -> Option<Self> {
        match o {
            Object::Mutant(x) => Some(x),
            _ => None,
        }
    }

    proof fn lemma_held(self) {
    }

    fn into_object(self) -> (r: Object) {
        Object::Mutant(self)
    }

    fn held_in(o: &Object) -> (r: Option<&Self>) {
        match o {
            Object::Mutant(x) => Some(x),
            _ => None,
        }
    }
}

/// Objects by handle.
pub struct HandleTable {
    map: BTreeMap<u32, Object>,
    next: u32,
}

impl View for HandleTable {
    type V = Map<u32, Object>;

    closed spec fn view(&self) -> Map<u32, Object> {
        self.map@
    }
}

/// What handle `h` yields when asked for at type `T`.
pub open spec fn yielded<T: Kind>(m: Map<u32, Object>, h: u32) -> Option<T> {
    if m.contains_key(h) {
        T::held(m[h])
    } else {
        None
    }
}

impl HandleTable {
    /// Every handle given out lies below the next one, and none is 0.
    pub closed spec fn wf(self) -> bool {
        &&& self.next >= 1
        &&& forall|k: u32| #[trigger] self.map@.contains_key(k) ==> 1 <= k < self.next
        &&& self.map@.dom().finite()
    }

    /// The handle the next object gets.
    pub closed spec fn next_handle(self) -> u32 {
        self.next
    }

    pub fn new() -> (r: Self)
        ensures
            r.wf(),
            r@ == Map::<u32, Object>::empty(),
            r.next_handle() == 1,
    {
        HandleTable { map: BTreeMap::new(), next: 1 }
    }

    /// Whether a handle is left for one more object.
    pub fn has_handle_left(&self) -> (r: bool)
        ensures
            r == (self.next_handle() < u32::MAX),
    {
        self.next < u32::MAX
    }

    /// Enter an object; its handle is one that no object ever had.
    pub fn insert<T: Kind>(&mut self, obj: T) -> (h: Handle)
        requires
            old(self).wf(),
            old(self).next_handle() < u32::MAX,
        ensures
            final(self).wf(),
            h.0 == old(self).next_handle(),
            h.0 != 0,
            !old(self)@.contains_key(h.0),
            final(self)@ == old(self)@.insert(h.0, obj.object()),
            final(self)@.dom().len() == old(self)@.dom().len() + 1,
            final(self).next_handle() == h.0 + 1,
            yielded::<T>(final(self)@, h.0) == Some(obj),
    {
        let id: u32 = self.next;
        self.next = id + 1;
        proof {
            obj.lemma_held();
        }
        self.map.insert(id, obj.into_object());
        Handle(id)
    }

    /// What a handle yields at the type asked for.
    pub fn get<T: Kind>(&self, h: Handle) -> (r: Option<&T>)
        ensures
            r == match yielded::<T>(self@, h.0) {
                Some(x) => Some(&x),
                None => None,
            },
    {
        match self.map.get(&h.0) {
            Some(o) => T::held_in(o),
            None => None,
        }
    }

    /// Drop a handle; whether there was one.
    pub fn close(&mut self, h: Handle) -> (r: bool)
        requires
            old(self).wf(),
        ensures
            final(self).wf(),
            r == old(self)@.contains_key(h.0),
            final(self)@ == old(self)@.remove(h.0),
            r ==> final(self)@.dom().len() == old(self)@.dom().len() - 1,
            !r ==> final(self)@ == old(self)@,
            final(self).next_handle() == old(self).next_handle(),
    {
        let r = self.map.remove(&h.0);
        assert(!old(self)@.contains_key(h.0) ==> self@ =~= old(self)@);
        r.is_some()
    }

    /// Put another object behind a handle.
    pub(crate) fn replace<T: Kind>(&mut self, h: Handle, obj: T)
        requires
            old(self).wf(),
            old(self)@.contains_key(h.0),
        ensures
            final(self).wf(),
            final(self)@ == old(self)@.insert(h.0, obj.object()),
            final(self).next_handle() == old(self).next_handle(),
    {
        let _old = self.map.insert(h.0, obj.into_object());
    }

    /// How many handles are open.
    pub fn len(&self) -> (r: usize)
        requires
            self.wf(),
        ensures
            r == self@.dom().len(),
    {
        self.map.len()
    }
}

/// Enter an object in a table.
pub fn insert<T: Kind>(table: &mut HandleTable, obj: T) -> (h: Handle)
    requires
        old(table).wf(),
        old(table).next_handle() < u32::MAX,
    ensures
        final(table).wf(),
        h.0 == old(table).next_handle(),
        h.0 != 0,
        !old(table)@.contains_key(h.0),
        final(table)@ == old(table)@.insert(h.0, obj.object()),
        final(table)@.dom().len() == old(table)@.dom().len() + 1,
        final(table).next_handle() == h.0 + 1,
        yielded::<T>(final(table)@, h.0) == Some(obj),
{
    table.insert(obj)
}

/// What a handle yields at the type asked for.
pub fn get<T: Kind>(table: &HandleTable, h: Handle) -> (r: Option<&T>)
    ensures
        r == match yielded::<T>(table@, h.0) {
            Some(x) => Some(&x),
            None => None,
        },
{
    table.get(h)
}

/// Drop a handle; whether there was one.
pub fn close(table: &mut HandleTable, h: Handle) -> (r: bool)
    requires
        old(table).wf(),
    ensures
        final(table).wf(),
        r == old(table)@.contains_key(h.0),
        final(table)@ == old(table)@.remove(h.0),
        r ==> final(table)@.dom().len() == old(table)@.dom().len() - 1,
        !r ==> final(table)@ == old(table)@,
        final(table).next_handle() == old(table).next_handle(),
{
    table.close(h)
}

/// How many handles are open.
pub fn open_count(table: &HandleTable) -> (r: usize)
    requires
        table.wf(),
    ensures
        r == table@.dom().len(),
{
    table.len()
}

/// Every open handle was given out before, and none is 0; they can be counted.
pub proof fn law_open_handles_were_given_out(t: HandleTable)
    requires
        t.wf(),
    ensures
        t@.dom().finite(),
        !t@.contains_key(0),
        forall|k: u32| #[trigger] t@.contains_key(k) ==> 1 <= k < t.next_handle(),
{
}

/// A handle is never reused: once closed it stays unknown, whatever is entered
/// after it.
pub proof fn law_handles_are_not_reused<T: Kind>(t: HandleTable, h: u32, obj: T)
    requires
        t.wf(),
        h < t.next_handle(),
        !t@.contains_key(h),
    ensures
        !t@.insert(t.next_handle(), obj.object()).contains_key(h),
{
}

/// Entering an object opens one handle more, which yields that object; every
/// other handle yields what it did.
pub proof fn law_insert_opens_one<T: Kind, U: Kind>(t: HandleTable, obj: T, other: u32)
    requires
        t.wf(),
        other != t.next_handle(),
    ensures
        ({
            let m = t@.insert(t.next_handle(), obj.object());
            &&& m.dom().len() == t@.dom().len() + 1
            &&& yielded::<T>(m, t.next_handle()) == Some(obj)
            &&& yielded::<U>(m, other) == yielded::<U>(t@, other)
        }),
{
    obj.lemma_held();
}

/// Closing a handle that was just given out leaves the table as it was, and
/// the handle yields nothing; every other handle yields what it did.
pub proof fn law_close_undoes_insert<T: Kind, U: Kind>(t: HandleTable, obj: T, other: u32)
    requires
        t.wf(),
        other != t.next_handle(),
    ensures
        ({
            let h = t.next_handle();
            let m = t@.insert(h, obj.object()).remove(h);
            &&& m == t@
            &&& yielded::<T>(m, h) is None
            &&& yielded::<U>(m, other) == yielded::<U>(t@, other)
        }),
{
    assert(t@.insert(t.next_handle(), obj.object()).remove(t.next_handle()) =~= t@);
}

/// An object is found at one type only.
pub proof fn law_object_has_one_kind(m: Map<u32, Object>, h: u32)
    ensures
        yielded::<OpenFile>(m, h) is Some ==> yielded::<Event>(m, h) is None && yielded::<Semaphore>(
            m,
            h,
        ) is None && yielded::<Mutant>(m, h) is None,
        yielded::<Event>(m, h) is Some ==> yielded::<Semaphore>(m, h) is None && yielded::<Mutant>(
            m,
            h,
        ) is None,
        yielded::<Semaphore>(m, h) is Some ==> yielded::<Mutant>(m, h) is None,
        m.contains_key(h) ==> yielded::<OpenFile>(m, h) is Some || yielded::<Event>(m, h) is Some
            || yielded::<Semaphore>(m, h) is Some || yielded::<Mutant>(m, h) is Some,
{
}

} // verus!
