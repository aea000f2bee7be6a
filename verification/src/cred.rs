//! The credential store: one administrator, whose password is kept as a
//! PBKDF2-HMAC-SHA-256 hash under a salt.
use sha2::{Digest, Sha256};
use vstd::prelude::*;

use crate::bytes;
use crate::ext2;
use crate::ext2::Ext2;
use crate::text;

verus! {

pub const STORE_DIR: &'static str = "/etc/thos";

pub const STORE_PATH: &'static str = "/etc/thos/admin.cred";

pub const ROUNDS: u32 = 200_000;

/// The administrator's ordinary session is not privileged.
pub const ADMIN_UID: u32 = 1000;

/// The SHA-256 digest of `b`.
pub uninterp spec fn sha256_of(b: Seq<u8>) -> [u8; 32];

/// `sha2`'s `Digest::digest` for `Sha256`: a digest is 32 bytes long, and
/// depends on `b` alone.
#[verifier::external_body]
fn sha256(b: &[u8]) -> (r: [u8; 32])
    ensures
        r@ == sha256_of(b@)@,
{
    Sha256::digest(b).into()
}

/// The key of an HMAC brought to one block.
pub open spec fn key_block(key: Seq<u8>) -> Seq<u8> {
    if key.len() > 64 {
        sha256_of(key)@ + bytes::zeros(32)
    } else {
        key + bytes::zeros((64 - key.len()) as nat)
    }
}

/// `k` with `b` mixed into each byte.
pub open spec fn padded(k: Seq<u8>, b: u8) -> Seq<u8> {
    k.map_values(|x: u8| b ^ x)
}

/// HMAC-SHA-256.
pub open spec fn hmac(key: Seq<u8>, msg: Seq<u8>) -> Seq<u8> {
    let k = key_block(key);
    sha256_of(padded(k, 0x5c) + sha256_of(padded(k, 0x36) + msg)@)@
}

fn pad_with(k: &[u8], b: u8) -> (r: Vec<u8>)
    ensures
        r@ == padded(k@, b),
{
    let mut r: Vec<u8> = Vec::new();
    let n: usize = k.len();
    let mut i: usize = 0;
    while i < n
        invariant
            i <= n,
            n == k@.len(),
            r@ == padded(k@, b).take(i as int),
        decreases n - i,
    {
        r.push(b ^ k[i]);
        i = i + 1;
        assert(r@ =~= padded(k@, b).take(i as int));
    }
    assert(r@ =~= padded(k@, b));
    r
}

pub fn hmac_sha256(key: &[u8], msg: &[u8]) -> (r: [u8; 32])
    ensures
        r@ == hmac(key@, msg@),
{
    let n: usize = key.len();
    let mut k: Vec<u8> = Vec::new();
    if n > 64 {
        let d = sha256(key);
        crate::bytes::extend(&mut k, d.as_slice());
        let z = crate::bytes::zeroed(32);
        crate::bytes::extend(&mut k, z.as_slice());
    } else {
        crate::bytes::extend(&mut k, key);
        let z = crate::bytes::zeroed(64 - n);
        crate::bytes::extend(&mut k, z.as_slice());
    }
    assert(k@ =~= key_block(key@));
    let mut inner = pad_with(k.as_slice(), 0x36);
    crate::bytes::extend(&mut inner, msg);
    let d = sha256(inner.as_slice());
    let mut outer = pad_with(k.as_slice(), 0x5c);
    crate::bytes::extend(&mut outer, d.as_slice());
    sha256(outer.as_slice())
}

/// Two blocks mixed byte by byte.
pub open spec fn mixed(a: Seq<u8>, b: Seq<u8>) -> Seq<u8> {
    Seq::new(a.len(), |i: int| a[i] ^ b[i])
}

/// `n` further rounds on `u`, each mixed into `out`.
pub open spec fn rounds_of(key: Seq<u8>, u: Seq<u8>, out: Seq<u8>, n: nat) -> Seq<u8>
    decreases n,
{
    if n == 0 {
        out
    } else {
        let v = hmac(key, u);
        rounds_of(key, v, mixed(out, v), (n - 1) as nat)
    }
}

/// The first block of PBKDF2-HMAC-SHA-256; no rounds count as one.
pub open spec fn pbkdf2(password: Seq<u8>, salt: Seq<u8>, rounds: u32) -> Seq<u8> {
    let u = hmac(password, salt + seq![0u8, 0, 0, 1]);
    rounds_of(
        password,
        u,
        u,
        if rounds == 0 {
            0
        } else {
            (rounds - 1) as nat
        },
    )
}

proof fn lemma_rounds_len(key: Seq<u8>, u: Seq<u8>, out: Seq<u8>, n: nat)
    ensures
        rounds_of(key, u, out, n).len() == out.len(),
    decreases n,
{
    if n > 0 {
        let v = hmac(key, u);
        lemma_rounds_len(key, v, mixed(out, v), (n - 1) as nat);
    }
}

/// A password's hash is 32 bytes long.
pub proof fn law_hash_is_one_block(password: Seq<u8>, salt: Seq<u8>, rounds: u32)
    ensures
        pbkdf2(password, salt, rounds).len() == 32,
{
    let u = hmac(password, salt + seq![0u8, 0, 0, 1]);
    let n = if rounds == 0 {
        0
    } else {
        (rounds - 1) as nat
    };
    lemma_rounds_len(password, u, u, n);
}

pub fn pbkdf2_hmac_sha256(password: &[u8], salt: &[u8], rounds: u32) -> (r: [u8; 32])
    ensures
        r@ == pbkdf2(password@, salt@, rounds),
{
    let mut block: Vec<u8> = Vec::new();
    crate::bytes::extend(&mut block, salt);
    let one: [u8; 4] = [0, 0, 0, 1];
    crate::bytes::extend(&mut block, one.as_slice());
    assert(block@ =~= salt@ + seq![0u8, 0, 0, 1]);
    let mut u = hmac_sha256(password, block.as_slice());
    let mut out = u;
    let mut left: u32 = if rounds == 0 { 0 } else { rounds - 1 };
    while left > 0
        invariant
            pbkdf2(password@, salt@, rounds) == rounds_of(password@, u@, out@, left as nat),
        decreases left,
    {
        u = hmac_sha256(password, u.as_slice());
        let ghost before = out@;
        let mut i: usize = 0;
        while i < 32
            invariant
                i <= 32,
                before.len() == 32,
                forall|j: int| 0 <= j < i ==> out@[j] == mixed(before, u@)[j],
                forall|j: int| i <= j < 32 ==> out@[j] == before[j],
            decreases 32 - i,
        {
            out[i] = out[i] ^ u[i];
            i = i + 1;
        }
        assert(out@ =~= mixed(before, u@));
        left = left - 1;
    }
    out
}

/// Compare two hashes without stopping early.
fn ct_eq(a: &[u8; 32], b: &[u8; 32]) -> (r: bool)
    ensures
        r == (a@ == b@),
{
    let mut d: u8 = 0;
    let mut i: usize = 0;
    while i < 32
        invariant
            i <= 32,
            d == 0 <==> (forall|j: int| 0 <= j < i ==> a@[j] == b@[j]),
        decreases 32 - i,
    {
        let (x, y) = (a[i], b[i]);
        assert((d | (x ^ y)) == 0 <==> (d == 0 && x == y)) by (bit_vector);
        d = d | (x ^ y);
        i = i + 1;
    }
    assert(d == 0 ==> a@ =~= b@);
    d == 0
}

// --- hexadecimal ---

/// The digit for a value below 16.
pub open spec fn digit(d: int) -> char {
    if d < 10 {
        (48 + d) as char
    } else {
        (87 + d) as char
    }
}

/// The value of a hexadecimal digit of either case.
pub open spec fn hex_value(c: char) -> Option<int> {
    let v = c as int;
    if 48 <= v <= 57 {
        Some(v - 48)
    } else if 97 <= v <= 102 {
        Some(v - 87)
    } else if 65 <= v <= 70 {
        Some(v - 55)
    } else {
        None
    }
}

/// Two digits for each byte.
pub open spec fn hexed(b: Seq<u8>) -> Seq<char> {
    Seq::new(
        2 * b.len(),
        |i: int|
            if i % 2 == 0 {
                digit(b[i / 2] as int / 16)
            } else {
                digit(b[i / 2] as int % 16)
            },
    )
}

/// The `n` bytes that `s` spells, if it is made of just their digits.
pub open spec fn unhexed(s: Seq<char>, n: nat) -> Option<Seq<u8>> {
    if s.len() == 2 * n && forall|i: int| 0 <= i < s.len() ==> hex_value(#[trigger] s[i]) is Some {
        Some(Seq::new(n, |i: int| (hex_value(s[2 * i])->0 * 16 + hex_value(s[2 * i + 1])->0) as u8))
    } else {
        None
    }
}

/// Reading back what was written in digits gives the bytes.
pub proof fn law_hex_round_trip(b: Seq<u8>)
    ensures
        unhexed(hexed(b), b.len()) == Some(b),
{
    let s = hexed(b);
    assert forall|i: int| 0 <= i < s.len() implies hex_value(#[trigger] s[i]) == Some(
        if i % 2 == 0 {
            b[i / 2] as int / 16
        } else {
            b[i / 2] as int % 16
        },
    ) by {}
    let r = Seq::new(
        b.len(),
        |i: int| (hex_value(s[2 * i])->0 * 16 + hex_value(s[2 * i + 1])->0) as u8,
    );
    assert forall|i: int| 0 <= i < b.len() implies r[i] == b[i] by {
        assert(hex_value(s[2 * i]) == Some(b[i] as int / 16));
        assert(hex_value(s[2 * i + 1]) == Some(b[i] as int % 16));
    }
    assert(r =~= b);
}

fn hex_digit(d: u8) -> (r: char)
    requires
        d < 16,
    ensures
        r == digit(d as int),
{
    if d < 10 {
        (48 + d) as char
    } else {
        (87 + d) as char
    }
}

fn hex(b: &[u8]) -> (r: Vec<char>)
    requires
        b@.len() <= 64,
    ensures
        r@ == hexed(b@),
{
    let mut r: Vec<char> = Vec::new();
    let n: usize = b.len();
    let mut i: usize = 0;
    while i < n
        invariant
            i <= n,
            n == b@.len(),
            r@ == hexed(b@).take(2 * i),
        decreases n - i,
    {
        r.push(hex_digit(b[i] / 16));
        r.push(hex_digit(b[i] % 16));
        i = i + 1;
        assert(r@ =~= hexed(b@).take(2 * i));
    }
    assert(r@ =~= hexed(b@));
    r
}

fn digit_value(c: char) -> (r: Option<u8>)
    ensures
        match hex_value(c) {
            Some(v) => r is Some && r->0 == v && v < 16,
            None => r is None,
        },
{
    let v: u32 = c as u32;
    if 48 <= v && v <= 57 {
        Some((v - 48) as u8)
    } else if 97 <= v && v <= 102 {
        Some((v - 87) as u8)
    } else if 65 <= v && v <= 70 {
        Some((v - 55) as u8)
    } else {
        None
    }
}

fn unhex(s: &[char], n: usize) -> (r: Option<Vec<u8>>)
    requires
        n <= 64,
    ensures
        match unhexed(s@, n as nat) {
            Some(b) => r is Some && r->0@ == b,
            None => r is None,
        },
{
    if s.len() != n * 2 {
        return None;
    }
    let mut r: Vec<u8> = Vec::new();
    let mut i: usize = 0;
    while i < n
        invariant
            i <= n,
            n <= 64,
            s@.len() == 2 * n,
            forall|j: int| 0 <= j < 2 * i ==> hex_value(#[trigger] s@[j]) is Some,
            r@ == Seq::new(
                i as nat,
                |k: int| (hex_value(s@[2 * k])->0 * 16 + hex_value(s@[2 * k + 1])->0) as u8,
            ),
        decreases n - i,
    {
        let (h, l) = match (digit_value(s[i * 2]), digit_value(s[i * 2 + 1])) {
            (Some(h), Some(l)) => (h, l),
            _ => { return None; },
        };
        r.push(h * 16 + l);
        i = i + 1;
        assert(r@ =~= Seq::new(
            i as nat,
            |k: int| (hex_value(s@[2 * k])->0 * 16 + hex_value(s@[2 * k + 1])->0) as u8,
        ));
    }
    Some(r)
}

// --- the store ---

/// A stored credential.
pub struct Cred {
    pub name: String,
    salt: [u8; 16],
    hash: [u8; 32],
}

#[verifier::ext_equal]
pub struct CredView {
    pub name: Seq<char>,
    pub salt: Seq<u8>,
    pub hash: Seq<u8>,
}

impl View for Cred {
    type V = CredView;

    closed spec fn view(&self) -> CredView {
        CredView { name: self.name@, salt: self.salt@, hash: self.hash@ }
    }
}

/// The salt made of two random words.
pub open spec fn salt_of(a: u64, b: u64) -> Seq<u8> {
    bytes::bytes64(a) + bytes::bytes64(b)
}

/// The credential of a fresh name and password.
pub open spec fn created(name: Seq<char>, password: Seq<char>, seed: (u64, u64)) -> CredView {
    let salt = salt_of(seed.0, seed.1);
    CredView { name, salt, hash: pbkdf2(vstd::utf8::encode_utf8(password), salt, ROUNDS) }
}

/// The credential lets this name and password in.
pub open spec fn accepts(c: CredView, name: Seq<char>, password: Seq<char>) -> bool {
    name == c.name && pbkdf2(vstd::utf8::encode_utf8(password), c.salt, ROUNDS) == c.hash
}

/// The name and password that a credential was made for get in.
pub proof fn law_own_password_is_accepted(name: Seq<char>, password: Seq<char>, seed: (u64, u64))
    ensures
        accepts(created(name, password, seed), name, password),
{
}

/// They get in with what was saved and read back, too, where the name is one
/// line.
pub proof fn law_saved_password_is_accepted(name: Seq<char>, password: Seq<char>, seed: (u64, u64))
    requires
        forall|i: int| 0 <= i < name.len() ==> name[i] != '\n',
        name.len() > 0 ==> name.last() != '\r',
    ensures
        ({
            let c = created(name, password, seed);
            parsed(vstd::utf8::encode_utf8(stored_text(c))) matches Some(d) && d == c && accepts(
                d,
                name,
                password,
            )
        }),
{
    let c = created(name, password, seed);
    law_hash_is_one_block(vstd::utf8::encode_utf8(password), c.salt, ROUNDS);
    law_store_round_trip(c);
}

/// The file a credential is kept in: a line for each part.
pub open spec fn stored_text(c: CredView) -> Seq<char> {
    "thos-cred v1\nname="@ + c.name + "\nrounds=200000\nsalt="@ + hexed(c.salt) + "\nhash="@ + hexed(
        c.hash,
    ) + "\n"@
}

/// What has been read of a credential so far.
#[verifier::ext_equal]
pub struct Parts {
    pub name: Option<Seq<char>>,
    pub salt: Option<Seq<u8>>,
    pub hash: Option<Seq<u8>>,
}

/// One line taken in; a later line of the same key replaces an earlier one.
pub open spec fn line_read(p: Parts, line: Seq<char>) -> Parts {
    match text::first_at(line, '=', 0) {
        None => p,
        Some(i) => {
            let k = line.take(i);
            let v = line.skip(i + 1);
            if k == "name"@ {
                Parts { name: Some(v), ..p }
            } else if k == "salt"@ {
                Parts { salt: unhexed(v, 16), ..p }
            } else if k == "hash"@ {
                Parts { hash: unhexed(v, 32), ..p }
            } else {
                p
            }
        },
    }
}

/// The lines from `i` on taken in.
pub open spec fn lines_read(p: Parts, lines: Seq<Seq<char>>, i: int) -> Parts
    decreases lines.len() - i,
{
    if i >= lines.len() {
        p
    } else {
        lines_read(line_read(p, lines[i]), lines, i + 1)
    }
}

/// The credential that `t` holds.
pub open spec fn parsed_text(t: Seq<char>) -> Option<CredView> {
    let p = lines_read(Parts { name: None, salt: None, hash: None }, text::lines(t), 0);
    match (p.name, p.salt, p.hash) {
        (Some(name), Some(salt), Some(hash)) => Some(CredView { name, salt, hash }),
        _ => None,
    }
}

pub open spec fn parsed(b: Seq<u8>) -> Option<CredView> {
    if vstd::utf8::valid_utf8(b) {
        parsed_text(vstd::utf8::decode_utf8(b))
    } else {
        None
    }
}

fn add_text(out: &mut Vec<char>, s: &str)
    ensures
        final(out)@ == old(out)@ + s@,
{
    let c = crate::text::chars_of(s);
    crate::text::extend_chars(out, c.as_slice());
}

fn same_as(c: &[char], s: &str) -> (r: bool)
    ensures
        r == (c@ == s@),
{
    let w = crate::text::chars_of(s);
    crate::text::same_chars(c, w.as_slice())
}

fn to_16(v: &Vec<u8>) -> (r: [u8; 16])
    requires
        v@.len() == 16,
    ensures
        r@ == v@,
{
    let mut r: [u8; 16] = [0; 16];
    let mut i: usize = 0;
    while i < 16
        invariant
            i <= 16,
            v@.len() == 16,
            forall|j: int| 0 <= j < i ==> r@[j] == v@[j],
        decreases 16 - i,
    {
        r[i] = v[i];
        i = i + 1;
    }
    assert(r@ =~= v@);
    r
}

fn to_32(v: &Vec<u8>) -> (r: [u8; 32])
    requires
        v@.len() == 32,
    ensures
        r@ == v@,
{
    let mut r: [u8; 32] = [0; 32];
    let mut i: usize = 0;
    while i < 32
        invariant
            i <= 32,
            v@.len() == 32,
            forall|j: int| 0 <= j < i ==> r@[j] == v@[j],
        decreases 32 - i,
    {
        r[i] = v[i];
        i = i + 1;
    }
    assert(r@ =~= v@);
    r
}

impl Cred {
    /// A credential for a fresh name and password, under the salt made of two
    /// random words.
    pub fn create(name: &str, password: &str, seed: (u64, u64)) -> (r: Cred)
        ensures
            r@ == created(name@, password@, seed),
            r@.salt.len() == 16,
            r@.hash.len() == 32,
    {
        let mut s = crate::bytes::to_bytes64(seed.0);
        let t = crate::bytes::to_bytes64(seed.1);
        crate::bytes::extend(&mut s, t.as_slice());
        let salt = to_16(&s);
        let hash = pbkdf2_hmac_sha256(password.as_bytes(), salt.as_slice(), ROUNDS);
        let chars = crate::text::chars_of(name);
        let name = crate::text::string_of(chars.as_slice());
        Cred { name, salt, hash }
    }

    /// Check a login attempt.
    pub fn verify(&self, name: &str, password: &str) -> (r: bool)
        ensures
            r == accepts(self@, name@, password@),
    {
        let got = pbkdf2_hmac_sha256(password.as_bytes(), self.salt.as_slice(), ROUNDS);
        let a = crate::text::chars_of(name);
        let b = crate::text::chars_of(self.name.as_str());
        let name_ok: bool = crate::text::same_chars(a.as_slice(), b.as_slice());
        let hash_ok: bool = ct_eq(&got, &self.hash);
        hash_ok && name_ok
    }

    /// The contents of the file the credential is kept in.
    pub fn serialize(&self) -> (r: Vec<u8>)
        ensures
            r@ == vstd::utf8::encode_utf8(stored_text(self@)),
    {
        let mut t: Vec<char> = Vec::new();
        add_text(&mut t, "thos-cred v1\nname=");
        add_text(&mut t, self.name.as_str());
        add_text(&mut t, "\nrounds=200000\nsalt=");
        let s = hex(self.salt.as_slice());
        crate::text::extend_chars(&mut t, s.as_slice());
        add_text(&mut t, "\nhash=");
        let h = hex(self.hash.as_slice());
        crate::text::extend_chars(&mut t, h.as_slice());
        add_text(&mut t, "\n");
        assert(t@ =~= stored_text(self@));
        let s = crate::text::string_of(t.as_slice());
        let b = s.as_str().as_bytes();
        let r = crate::bytes::sub(b, 0, b.len());
        assert(r@ =~= b@);
        r
    }

    /// Read a credential back.
    pub fn parse(b: &[u8]) -> (r: Option<Cred>)
        ensures
            match parsed(b@) {
                Some(v) => r is Some && r->0@ == v,
                None => r is None,
            },
    {
        let t = match crate::text::utf8_text(b) {
            Some(t) => t,
            None => { return None; },
        };
        proof {
            vstd::utf8::encode_utf8_decode_utf8(t@);
        }
        let chars = crate::text::chars_of(t);
        let lines = crate::text::split_lines(chars.as_slice());
        let mut name: Option<Vec<char>> = None;
        let mut salt: Option<Vec<u8>> = None;
        let mut hash: Option<Vec<u8>> = None;
        let n: usize = lines.len();
        let mut i: usize = 0;
        let ghost ls = text::texts(lines@);
        let ghost p0 = Parts { name: None, salt: None, hash: None };
        let ghost mut p = p0;
        while i < n
            invariant
                i <= n,
                n == lines@.len(),
                ls == text::texts(lines@),
                lines_read(p0, ls, 0) == lines_read(p, ls, i as int),
                match p.name {
                    Some(v) => name is Some && name->0@ == v,
                    None => name is None,
                },
                match p.salt {
                    Some(v) => salt is Some && salt->0@ == v && v.len() == 16,
                    None => salt is None,
                },
                match p.hash {
                    Some(v) => hash is Some && hash->0@ == v && v.len() == 32,
                    None => hash is None,
                },
            decreases n - i,
        {
            assert(ls[i as int] == lines@[i as int]@);
            let line = lines[i].as_slice();
            let len: usize = line.len();
            match crate::text::find_first(line, '=') {
                None => {},
                Some(at) => {
                    let k = crate::text::sub_chars(line, 0, at);
                    let v = crate::text::sub_chars(line, at + 1, len);
                    assert(k@ =~= line@.take(at as int));
                    assert(v@ =~= line@.skip(at + 1));
                    if same_as(k.as_slice(), "name") {
                        name = Some(v);
                    } else if same_as(k.as_slice(), "salt") {
                        salt = unhex(v.as_slice(), 16);
                    } else if same_as(k.as_slice(), "hash") {
                        hash = unhex(v.as_slice(), 32);
                    }
                },
            }
            proof {
                p = line_read(p, ls[i as int]);
            }
            i = i + 1;
        }
        match (name, salt, hash) {
            (Some(n), Some(s), Some(h)) => {
                let name = crate::text::string_of(n.as_slice());
                Some(Cred { name, salt: to_16(&s), hash: to_32(&h) })
            },
            _ => None,
        }
    }
}

proof fn lemma_line_first(a: Seq<char>, rest: Seq<char>)
    requires
        forall|i: int| 0 <= i < a.len() ==> a[i] != '\n',
        a.len() > 0 ==> a.last() != '\r',
    ensures
        text::lines(a.push('\n') + rest) == seq![a] + text::lines(rest),
{
    let s = a.push('\n') + rest;
    text::lemma_first_at(s, '\n', 0);
    let k = text::first_at(s, '\n', 0);
    assert(s[a.len() as int] == '\n');
    assert(k is Some);
    assert(k->0 == a.len()) by {
        if k->0 < a.len() {
            assert(s[k->0] == a[k->0]);
        }
    }
    assert(s.take(a.len() as int) =~= a);
    assert(s.skip(a.len() as int + 1) =~= rest);
}

proof fn lemma_key(key: Seq<char>, v: Seq<char>)
    requires
        key.len() == 4,
        key[0] != '=' && key[1] != '=' && key[2] != '=' && key[3] != '=',
    ensures
        text::first_at(key.push('=') + v, '=', 0) == Some(4int),
        (key.push('=') + v).take(4) == key,
        (key.push('=') + v).skip(5) == v,
{
    reveal_with_fuel(text::first_at, 6);
    let l = key.push('=') + v;
    assert(l[0] == key[0] && l[1] == key[1] && l[2] == key[2] && l[3] == key[3] && l[4] == '=');
    assert(l.take(4) =~= key);
    assert(l.skip(5) =~= v);
}

proof fn lemma_no_newline(b: Seq<u8>)
    ensures
        forall|i: int| 0 <= i < hexed(b).len() ==> (#[trigger] hexed(b)[i]) as int > 13,
{
}

spec fn one_line(a: Seq<char>) -> bool {
    &&& forall|i: int| 0 <= i < a.len() ==> a[i] != '\n'
    &&& a.len() > 0 ==> a.last() != '\r'
}

spec fn ended(a: Seq<char>, rest: Seq<char>) -> Seq<char> {
    a.push('\n') + rest
}

proof fn lemma_five_lines(a: Seq<char>, b: Seq<char>, c: Seq<char>, d: Seq<char>, e: Seq<char>)
    requires
        one_line(a),
        one_line(b),
        one_line(c),
        one_line(d),
        one_line(e),
    ensures
        text::lines(ended(a, ended(b, ended(c, ended(d, ended(e, Seq::empty())))))) == seq![
            a,
            b,
            c,
            d,
            e,
        ],
{
    let t4 = ended(e, Seq::empty());
    let t3 = ended(d, t4);
    let t2 = ended(c, t3);
    let t1 = ended(b, t2);
    lemma_line_first(e, Seq::empty());
    lemma_line_first(d, t4);
    lemma_line_first(c, t3);
    lemma_line_first(b, t2);
    lemma_line_first(a, t1);
    let none = text::lines(Seq::<char>::empty());
    assert(none =~= Seq::<Seq<char>>::empty());
    assert(text::lines(ended(a, t1)) =~= seq![a, b, c, d, e]);
}

spec fn header_line() -> Seq<char> {
    seq!['t', 'h', 'o', 's', '-', 'c', 'r', 'e', 'd', ' ', 'v', '1']
}

spec fn rounds_line() -> Seq<char> {
    seq!['r', 'o', 'u', 'n', 'd', 's', '=', '2', '0', '0', '0', '0', '0']
}

proof fn lemma_literals()
    ensures
        "thos-cred v1\nname="@ == header_line().push('\n') + "name"@.push('='),
        "\nrounds=200000\nsalt="@ == seq!['\n'] + rounds_line().push('\n') + "salt"@.push('='),
        "\nhash="@ == seq!['\n'] + "hash"@.push('='),
        "\n"@ == seq!['\n'],
        "name"@ == seq!['n', 'a', 'm', 'e'],
        "salt"@ == seq!['s', 'a', 'l', 't'],
        "hash"@ == seq!['h', 'a', 's', 'h'],
{
    reveal_strlit("thos-cred v1\nname=");
    reveal_strlit("\nrounds=200000\nsalt=");
    reveal_strlit("\nhash=");
    reveal_strlit("\n");
    reveal_strlit("name");
    reveal_strlit("salt");
    reveal_strlit("hash");
    assert("thos-cred v1\nname="@ =~= header_line().push('\n') + "name"@.push('='));
    assert("\nrounds=200000\nsalt="@ =~= seq!['\n'] + rounds_line().push('\n') + "salt"@.push('='));
    assert("\nhash="@ =~= seq!['\n'] + "hash"@.push('='));
    assert("\n"@ =~= seq!['\n']);
    assert("name"@ =~= seq!['n', 'a', 'm', 'e']);
    assert("salt"@ =~= seq!['s', 'a', 'l', 't']);
    assert("hash"@ =~= seq!['h', 'a', 's', 'h']);
}

proof fn lemma_store_lines(name: Seq<char>, x: Seq<char>, y: Seq<char>)
    requires
        one_line(name),
        one_line(x),
        one_line(y),
    ensures
        text::lines(
            "thos-cred v1\nname="@ + name + "\nrounds=200000\nsalt="@ + x + "\nhash="@ + y
                + "\n"@,
        ) == seq![
            header_line(),
            "name"@.push('=') + name,
            rounds_line(),
            "salt"@.push('=') + x,
            "hash"@.push('=') + y,
        ],
{
    lemma_literals();
    let b = "name"@.push('=') + name;
    let d = "salt"@.push('=') + x;
    let e = "hash"@.push('=') + y;
    assert("thos-cred v1\nname="@ + name + "\nrounds=200000\nsalt="@ + x + "\nhash="@ + y + "\n"@
        =~= ended(
        header_line(),
        ended(b, ended(rounds_line(), ended(d, ended(e, Seq::empty())))),
    ));
    lemma_five_lines(header_line(), b, rounds_line(), d, e);
}

proof fn lemma_plain_lines(p: Parts)
    ensures
        line_read(p, header_line()) == p,
        line_read(p, rounds_line()) == p,
{
    lemma_literals();
    assert(text::first_at(header_line(), '=', 0) is None) by {
        reveal_with_fuel(text::first_at, 14);
    }
    assert(text::first_at(rounds_line(), '=', 0) == Some(6int)) by {
        reveal_with_fuel(text::first_at, 8);
    }
    assert(rounds_line().take(6).len() == 6);
}

/// A credential read back from its file is the one that was saved, whatever
/// its name is made of but line ends.
pub proof fn law_store_round_trip(c: CredView)
    requires
        c.salt.len() == 16,
        c.hash.len() == 32,
        forall|i: int| 0 <= i < c.name.len() ==> c.name[i] != '\n',
        c.name.len() > 0 ==> c.name.last() != '\r',
    ensures
        parsed(vstd::utf8::encode_utf8(stored_text(c))) == Some(c),
{
    let t = stored_text(c);
    let (x, y) = (hexed(c.salt), hexed(c.hash));
    lemma_no_newline(c.salt);
    lemma_no_newline(c.hash);
    lemma_store_lines(c.name, x, y);
    let ls = text::lines(t);
    let p0 = Parts { name: None, salt: None, hash: None };
    let p1 = Parts { name: Some(c.name), ..p0 };
    let p3 = Parts { salt: Some(c.salt), ..p1 };
    let p4 = Parts { hash: Some(c.hash), ..p3 };
    lemma_plain_lines(p0);
    lemma_plain_lines(p1);
    lemma_literals();
    lemma_key("name"@, c.name);
    lemma_key("salt"@, x);
    lemma_key("hash"@, y);
    law_hex_round_trip(c.salt);
    law_hex_round_trip(c.hash);
    assert("salt"@[0] == 's' && "name"@[0] == 'n' && "hash"@[0] == 'h');
    assert(line_read(p0, ls[1]) == p1);
    assert(line_read(p1, ls[3]) == p3);
    assert(line_read(p3, ls[4]) == p4);
    assert(lines_read(p4, ls, 5) == p4);
    assert(lines_read(p3, ls, 4) == p4);
    assert(lines_read(p1, ls, 3) == p4);
    assert(lines_read(p1, ls, 2) == p4);
    assert(lines_read(p0, ls, 1) == p4);
    assert(lines_read(p0, ls, 0) == p4);
    vstd::utf8::encode_utf8_decode_utf8(t);
    vstd::utf8::encode_utf8_valid_utf8(t);
}

/// What the credential file holds.
pub open spec fn store(disk: Seq<u8>, fs: Ext2) -> Result<Option<Seq<u8>>, &'static str> {
    ext2::path_data(disk, fs, vstd::utf8::encode_utf8(STORE_PATH@))
}

/// Whether an administrator has been set up.
pub fn store_exists(fs: &Ext2, disk: &[u8]) -> (r: Result<bool, &'static str>)
    ensures
        r == match store(disk@, *fs) {
            Ok(d) => Ok::<bool, &'static str>(d is Some),
            Err(e) => Err(e),
        },
{
    match fs.read_path(disk, STORE_PATH) {
        Ok(d) => Ok(d.is_some()),
        Err(e) => Err(e),
    }
}

/// The stored credential; nothing where there is none or it cannot be read.
pub fn load(fs: &Ext2, disk: &[u8]) -> (r: Result<Option<Cred>, &'static str>)
    ensures
        match store(disk@, *fs) {
            Err(e) => r == Err::<Option<Cred>, &'static str>(e),
            Ok(None) => r matches Ok(None),
            Ok(Some(b)) => match parsed(b) {
                Some(v) => r matches Ok(Some(c)) && c@ == v,
                None => r matches Ok(None),
            },
        },
{
    match fs.read_path(disk, STORE_PATH) {
        Err(e) => Err(e),
        Ok(None) => Ok(None),
        Ok(Some(b)) => Ok(Cred::parse(b.as_slice())),
    }
}

/// What saving a credential does next.
pub enum SaveStep {
    /// Make this directory; that it is there already is no failure.
    Mkdir(&'static str),
    /// Write this file.
    Write(&'static str, Vec<u8>),
    Done,
    Failed(&'static str),
}

/// A step that went through: one that found its directory there counts.
pub open spec fn went_through(step: u8, last: Result<(), &'static str>) -> bool {
    match last {
        Ok(()) => true,
        Err(e) => 1 <= step <= 2 && e@ == "already exists"@,
    }
}

/// Save a credential: `step` steps were taken, and the last came to `last`.
pub fn save(cred: &Cred, step: u8, last: Result<(), &'static str>) -> (r: SaveStep)
    ensures
        match last {
            Err(e) if step > 0 && !went_through(step, last) => r == SaveStep::Failed(e),
            _ => match step {
                0 => r == SaveStep::Mkdir("/etc"),
                1 => r == SaveStep::Mkdir(STORE_DIR),
                2 => r matches SaveStep::Write(p, b) && p == STORE_PATH && b@
                    == vstd::utf8::encode_utf8(stored_text(cred@)),
                _ => r == SaveStep::Done,
            },
        },
{
    if step > 0 {
        match last {
            Ok(()) => {},
            Err(e) => {
                let c = crate::text::chars_of(e);
                if step > 2 || !same_as(c.as_slice(), "already exists") {
                    return SaveStep::Failed(e);
                }
            },
        }
    }
    if step == 0 {
        SaveStep::Mkdir("/etc")
    } else if step == 1 {
        SaveStep::Mkdir(STORE_DIR)
    } else if step == 2 {
        SaveStep::Write(STORE_PATH, cred.serialize())
    } else {
        SaveStep::Done
    }
}

/// One word of salt from a counter where the processor has no generator: the
/// state, mixed with the time stamp.
pub open spec fn fallback_word(state: u64, stamp: u64) -> u64 {
    let x = state ^ stamp;
    crate::syscall::stirred(
        if x == 0 {
            crate::syscall::RNG_STEP
        } else {
            x
        },
    )
}

/// The next word, which is the next state too.
pub fn fallback_rand64(state: u64, stamp: u64) -> (r: u64)
    ensures
        r == fallback_word(state, stamp),
{
    let x: u64 = state ^ stamp;
    crate::syscall::stir(if x == 0 { crate::syscall::RNG_STEP } else { x })
}

} // verus!
