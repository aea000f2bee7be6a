//! First-run setup and login, one line of input at a time.
use vstd::prelude::*;

use crate::cred;
use crate::cred::{Cred, CredView, ADMIN_UID};
use crate::ext2::Ext2;
use crate::text;

verus! {

/// Who is logged in.
pub struct Session {
    pub name: String,
    pub uid: u32,
}

impl View for Session {
    type V = (Seq<char>, u32);

    open spec fn view(&self) -> (Seq<char>, u32) {
        (self.name@, self.uid)
    }
}

/// A line that is being typed at a prompt.
pub struct Line {
    bytes: Vec<u8>,
}

/// A byte typed at a prompt: a line end ends the line, a backspace takes the
/// last byte back.
pub open spec fn typed(line: Seq<u8>, b: u8) -> (Seq<u8>, bool) {
    if b == 0x0A || b == 0x0D {
        (line, true)
    } else if b == 0x08 || b == 0x7F {
        (
            if line.len() > 0 {
                line.drop_last()
            } else {
                line
            },
            false,
        )
    } else {
        (line.push(b), false)
    }
}

impl View for Line {
    type V = Seq<u8>;

    closed spec fn view(&self) -> Seq<u8> {
        self.bytes@
    }
}

impl Line {
    pub fn new() -> (r: Line)
        ensures
            r@ == Seq::<u8>::empty(),
    {
        Line { bytes: Vec::new() }
    }

    /// Take in a byte; whether the line is complete.
    pub fn feed(&mut self, b: u8) -> (done: bool)
        ensures
            (final(self)@, done) == typed(old(self)@, b),
    {
        if b == 0x0A || b == 0x0D {
            return true;
        }
        if b == 0x08 || b == 0x7F {
            if self.bytes.len() > 0 {
                let _last = self.bytes.pop();
            }
            return false;
        }
        self.bytes.push(b);
        false
    }

    /// The text of the line, without the white space around it.
    pub fn text(&self) -> (r: String)
        ensures
            r@ == text::trimmed(crate::syscall_fs::lossy(self@)),
    {
        let s = crate::syscall_fs::lossy_text(self.bytes.as_slice());
        let c = crate::text::chars_of(s.as_str());
        let t = crate::text::trim(c.as_slice());
        crate::text::string_of(t.as_slice())
    }
}

/// A name is 1 to 32 printable ASCII characters without a blank.
pub open spec fn good_name(n: Seq<char>) -> bool {
    0 < n.len() <= 32 && forall|i: int| 0 <= i < n.len() ==> 0x21 <= (#[trigger] n[i]) as int <= 0x7E
}

fn is_graphic(c: char) -> (r: bool)
    ensures
        r == (0x21 <= c as int <= 0x7E),
{
    let v: u32 = c as u32;
    0x21 <= v && v <= 0x7E
}

pub fn name_is_good(n: &[char]) -> (r: bool)
    ensures
        r == good_name(n@),
{
    let len: usize = n.len();
    if len == 0 || len > 32 {
        return false;
    }
    let mut i: usize = 0;
    while i < len
        invariant
            i <= len,
            len == n@.len(),
            forall|j: int| 0 <= j < i ==> 0x21 <= (#[trigger] n@[j]) as int <= 0x7E,
        decreases len - i,
    {
        if !is_graphic(n[i]) {
            assert(!(0x21 <= n@[i as int] as int <= 0x7E));
            return false;
        }
        i = i + 1;
    }
    true
}

/// Where first-run setup stands.
pub enum Setup {
    Name,
    Password { name: String },
    Repeat { name: String, password: String },
    Done { name: String, password: String },
}

#[verifier::ext_equal]
pub enum Sup {
    Name,
    Password(Seq<char>),
    Repeat(Seq<char>, Seq<char>),
    Done(Seq<char>, Seq<char>),
}

impl View for Setup {
    type V = Sup;

    open spec fn view(&self) -> Sup {
        match self {
            Setup::Name => Sup::Name,
            Setup::Password { name } => Sup::Password(name@),
            Setup::Repeat { name, password } => Sup::Repeat(name@, password@),
            Setup::Done { name, password } => Sup::Done(name@, password@),
        }
    }
}

pub const BAD_NAME: &'static str = "  ! 1-32 printable ASCII chars";

pub const TOO_SHORT: &'static str = "  ! at least 4 characters";

pub const NO_MATCH: &'static str = "  ! passwords do not match";

/// A line answered at the current prompt of the setup: the next state, and
/// what to say where the answer was refused.
pub open spec fn answered(st: Sup, line: Seq<char>) -> (Sup, Option<&'static str>) {
    match st {
        Sup::Name => if good_name(line) {
            (Sup::Password(line), None)
        } else {
            (st, Some(BAD_NAME))
        },
        Sup::Password(name) => if vstd::utf8::encode_utf8(line).len() < 4 {
            (st, Some(TOO_SHORT))
        } else {
            (Sup::Repeat(name, line), None)
        },
        Sup::Repeat(name, password) => if line == password {
            (Sup::Done(name, password), None)
        } else {
            (Sup::Password(name), Some(NO_MATCH))
        },
        Sup::Done(_, _) => (st, None),
    }
}

/// Take in an answer of the first-run setup.
pub fn first_run_setup(st: Setup, line: &str) -> (r: (Setup, Option<&'static str>))
    ensures
        (r.0@, r.1) == answered(st@, line@),
{
    let chars = crate::text::chars_of(line);
    match st {
        Setup::Name => if name_is_good(chars.as_slice()) {
            (Setup::Password { name: crate::text::string_of(chars.as_slice()) }, None)
        } else {
            (Setup::Name, Some(BAD_NAME))
        },
        Setup::Password { name } => if line.as_bytes().len() < 4 {
            (Setup::Password { name }, Some(TOO_SHORT))
        } else {
            let password = crate::text::string_of(chars.as_slice());
            (Setup::Repeat { name, password }, None)
        },
        Setup::Repeat { name, password } => {
            let p = crate::text::chars_of(password.as_str());
            if crate::text::same_chars(chars.as_slice(), p.as_slice()) {
                (Setup::Done { name, password }, None)
            } else {
                (Setup::Password { name }, Some(NO_MATCH))
            }
        },
        Setup::Done { name, password } => (Setup::Done { name, password }, None),
    }
}

/// Answer a login attempt: the session it opens, if it is right.
pub fn login(stored: &Cred, name: &str, password: &str) -> (r: Option<Session>)
    ensures
        match r {
            Some(s) => cred::accepts(stored@, name@, password@) && s.name@ == name@ && s.uid
                == ADMIN_UID,
            None => !cred::accepts(stored@, name@, password@),
        },
{
    if stored.verify(name, password) {
        let c = crate::text::chars_of(name);
        Some(Session { name: crate::text::string_of(c.as_slice()), uid: ADMIN_UID })
    } else {
        None
    }
}

impl Setup {
    /// The administrator's session, once the setup is finished.
    pub fn session(&self) -> (r: Option<Session>)
        ensures
            match self@ {
                Sup::Done(name, _) => r matches Some(s) && s@ == (name, ADMIN_UID),
                _ => r is None,
            },
    {
        match self {
            Setup::Done { name, password: _ } => {
                let c = crate::text::chars_of(name.as_str());
                Some(Session { name: crate::text::string_of(c.as_slice()), uid: ADMIN_UID })
            },
            _ => None,
        }
    }
}

/// Where the way to a session stands.
pub enum Gate {
    /// No administrator exists yet.
    Setup(Setup),
    /// An administrator was chosen, with this session; the credential is to be
    /// stored.
    Save { cred: Cred, session: Session },
    /// Ask for the name of the stored administrator.
    Name { stored: Cred },
    /// Ask for the password.
    Password { stored: Cred, name: String },
    /// Logged in.
    Open(Session),
    /// The store is there and cannot be read, or cannot be written.
    Failed(&'static str),
}

pub enum Gv {
    Setup(Sup),
    Save(CredView, (Seq<char>, u32)),
    Name(CredView),
    Password(CredView, Seq<char>),
    Open((Seq<char>, u32)),
    Failed(&'static str),
}

impl View for Gate {
    type V = Gv;

    open spec fn view(&self) -> Gv {
        match self {
            Gate::Setup(st) => Gv::Setup(st@),
            Gate::Save { cred, session } => Gv::Save(cred@, session@),
            Gate::Name { stored } => Gv::Name(stored@),
            Gate::Password { stored, name } => Gv::Password(stored@, name@),
            Gate::Open(s) => Gv::Open(s@),
            Gate::Failed(e) => Gv::Failed(*e),
        }
    }
}

pub const UNREADABLE: &'static str = "credential store unreadable";

pub const INCORRECT: &'static str = "  login incorrect";

/// Where a boot begins: at the setup where there is no store, else at the login
/// against what is stored.
pub open spec fn begun(store: Option<Seq<u8>>) -> Gv {
    match store {
        None => Gv::Setup(Sup::Name),
        Some(b) => logging_in(Some(b)),
    }
}

/// The login against the credential in the store.
pub open spec fn logging_in(store: Option<Seq<u8>>) -> Gv {
    match store {
        Some(b) => match cred::parsed(b) {
            Some(c) => Gv::Name(c),
            None => Gv::Failed(UNREADABLE),
        },
        None => Gv::Failed(UNREADABLE),
    }
}

/// Decide where the boot begins.
pub fn establish(fs: &Ext2, disk: &[u8]) -> (r: Result<Gate, &'static str>)
    ensures
        match cred::store(disk@, *fs) {
            Err(e) => r == Err::<Gate, &'static str>(e),
            Ok(d) => r matches Ok(g) && g@ == begun(d),
        },
{
    match crate::cred::store_exists(fs, disk) {
        Err(e) => Err(e),
        Ok(false) => Ok(Gate::Setup(Setup::Name)),
        Ok(true) => match crate::cred::load(fs, disk) {
            Err(e) => Err(e),
            Ok(Some(c)) => Ok(Gate::Name { stored: c }),
            Ok(None) => Ok(Gate::Failed(UNREADABLE)),
        },
    }
}

/// A line answered where the way stands: where it leads, and what to say where
/// the answer was refused. `seed` salts the credential of a new administrator.
pub open spec fn advanced(g: Gv, line: Seq<char>, seed: (u64, u64)) -> (Gv, Option<&'static str>) {
    match g {
        Gv::Setup(st) => {
            let (next, said) = answered(st, line);
            (
                match next {
                    Sup::Done(name, password) => Gv::Save(
                        cred::created(name, password, seed),
                        (name, ADMIN_UID),
                    ),
                    _ => Gv::Setup(next),
                },
                said,
            )
        },
        Gv::Name(stored) => (Gv::Password(stored, line), None),
        Gv::Password(stored, name) => if cred::accepts(stored, name, line) {
            (Gv::Open((name, ADMIN_UID)), None)
        } else {
            (Gv::Name(stored), Some(INCORRECT))
        },
        _ => (g, None),
    }
}

/// Take in a line.
pub fn advance(g: Gate, line: &str, seed: (u64, u64)) -> (r: (Gate, Option<&'static str>))
    ensures
        (r.0@, r.1) == advanced(g@, line@, seed),
{
    match g {
        Gate::Setup(st) => {
            let (next, said) = first_run_setup(st, line);
            let session = next.session();
            match next {
                Setup::Done { name, password } => {
                    let cred = Cred::create(name.as_str(), password.as_str(), seed);
                    match session {
                        Some(session) => (Gate::Save { cred, session }, said),
                        None => (Gate::Failed(UNREADABLE), said),
                    }
                },
                other => (Gate::Setup(other), said),
            }
        },
        Gate::Name { stored } => {
            let c = crate::text::chars_of(line);
            (Gate::Password { stored, name: crate::text::string_of(c.as_slice()) }, None)
        },
        Gate::Password { stored, name } => match login(&stored, name.as_str(), line) {
            Some(s) => (Gate::Open(s), None),
            None => (Gate::Name { stored }, Some(INCORRECT)),
        },
        other => (other, None),
    }
}

/// The credential was written, or was not: the store is read, and a login
/// against it follows.
pub open spec fn saved(g: Gv, done: Result<(), &'static str>, store: Option<Seq<u8>>) -> Gv {
    match g {
        Gv::Save(_, _) => match done {
            Ok(_) => logging_in(store),
            Err(e) => Gv::Failed(e),
        },
        _ => g,
    }
}

/// Go on once the credential was written; `store` is what the store now holds.
pub fn after_save(g: Gate, done: Result<(), &'static str>, store: Option<Vec<u8>>) -> (r: Gate)
    ensures
        r@ == saved(
            g@,
            done,
            match store {
                Some(b) => Some(b@),
                None => None,
            },
        ),
{
    match g {
        Gate::Save { cred: _, session: _ } => match done {
            Err(e) => Gate::Failed(e),
            Ok(_) => match store {
                None => Gate::Failed(UNREADABLE),
                Some(b) => match Cred::parse(b.as_slice()) {
                    Some(c) => Gate::Name { stored: c },
                    None => Gate::Failed(UNREADABLE),
                },
            },
        },
        other => other,
    }
}

/// A setup runs only where there is no store, so none is ever overwritten.
pub proof fn law_setup_runs_without_a_store_only(store: Option<Seq<u8>>)
    ensures
        begun(store) is Setup <==> store is None,
        begun(store) !is Open,
        begun(store) !is Save,
{
}

/// The answers a setup holds on to are ones it accepted.
pub open spec fn good_answers(st: Sup) -> bool {
    match st {
        Sup::Name => true,
        Sup::Password(name) => good_name(name),
        Sup::Repeat(name, password) => good_name(name) && vstd::utf8::encode_utf8(password).len() >= 4,
        Sup::Done(name, password) => good_name(name) && vstd::utf8::encode_utf8(password).len() >= 4,
    }
}

/// A setup stores nothing before a good name was given and a password of at
/// least 4 bytes was repeated; a line that is refused is asked for again.
pub proof fn law_setup_stores_what_was_repeated(st: Sup, line: Seq<char>, seed: (u64, u64))
    requires
        good_answers(st),
        st !is Done,
    ensures
        good_answers(answered(st, line).0),
        match advanced(Gv::Setup(st), line, seed) {
            (Gv::Save(c, s), said) => {
                &&& st == Sup::Repeat(s.0, line)
                &&& c == cred::created(s.0, line, seed)
                &&& s.1 == 1000
                &&& said is None
            },
            (Gv::Setup(next), said) => said is Some ==> match st {
                Sup::Repeat(name, _) => next == Sup::Password(name),
                _ => next == st,
            },
            _ => false,
        },
{
}

/// The only way to a session is a name and a password that the stored
/// credential accepts; the session is the administrator's.
pub proof fn law_sessions_come_from_a_login(g: Gv, line: Seq<char>, seed: (u64, u64))
    requires
        g !is Open,
    ensures
        advanced(g, line, seed).0 matches Gv::Open(s) ==> (g matches Gv::Password(stored, name)
            && cred::accepts(stored, name, line) && s == (name, ADMIN_UID)),
        ADMIN_UID == 1000,
{
}

/// A finished setup names the administrator, whose session has the user id
/// 1000 and whose credential accepts the password that was repeated; a login
/// follows, and no session before it.
pub proof fn law_setup_is_followed_by_a_login(
    name: Seq<char>,
    password: Seq<char>,
    seed: (u64, u64),
    done: Result<(), &'static str>,
    store: Option<Seq<u8>>,
)
    requires
        good_name(name),
        vstd::utf8::encode_utf8(password).len() >= 4,
    ensures
        ({
            let g = Gv::Setup(Sup::Repeat(name, password));
            let (next, said) = advanced(g, password, seed);
            &&& said is None
            &&& next == Gv::Save(cred::created(name, password, seed), (name, 1000u32))
            &&& cred::accepts(cred::created(name, password, seed), name, password)
            &&& saved(next, done, store) is Name || saved(next, done, store) is Failed
            &&& saved(next, done, store) is Name ==> done is Ok && store is Some
        }),
{
}

/// A name and password that the setup accepts log in afterwards, also once the
/// credential has been saved and read back.
pub proof fn law_setup_leads_to_login(name: Seq<char>, password: Seq<char>, seed: (u64, u64))
    requires
        good_name(name),
        vstd::utf8::encode_utf8(password).len() >= 4,
    ensures
        answered(Sup::Name, name) == (Sup::Password(name), None::<&'static str>),
        answered(Sup::Password(name), password) == (
            Sup::Repeat(name, password),
            None::<&'static str>,
        ),
        answered(Sup::Repeat(name, password), password) == (
            Sup::Done(name, password),
            None::<&'static str>,
        ),
        ({
            let kept = cred::parsed(
                vstd::utf8::encode_utf8(cred::stored_text(cred::created(name, password, seed))),
            );
            kept matches Some(c) && cred::accepts(c, name, password)
        }),
{
    assert forall|i: int| 0 <= i < name.len() implies name[i] != '\n' by {
        assert(name[i] as int >= 0x21);
    }
    assert(name.last() as int >= 0x21);
    cred::law_saved_password_is_accepted(name, password, seed);
}

/// A backspace takes back the byte typed before it.
pub proof fn law_backspace_takes_back(line: Seq<u8>, b: u8)
    requires
        b != 0x0A && b != 0x0D && b != 0x08 && b != 0x7F,
    ensures
        ({
            let (once, _) = typed(line, b);
            typed(once, 0x7F) == (line, false)
        }),
{
    assert(line.push(b).drop_last() =~= line);
}

} // verus!
