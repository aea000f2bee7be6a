//! The language model's shell: its commands and settings, the rolling
//! context, the text as it comes out of the model, and the lines exchanged
//! with the translator.
use vstd::prelude::*;

use crate::scan;
use crate::text;

verus! {

// --- the translator's lines ---

/// A character as it stands inside a JSON string; other control characters
/// are left out.
pub open spec fn escaped1(c: char) -> Seq<char> {
    if c == '"' {
        seq!['\\', '"']
    } else if c == '\\' {
        seq!['\\', '\\']
    } else if c == '\n' {
        seq!['\\', 'n']
    } else if c == '\r' {
        seq!['\\', 'r']
    } else if c == '\t' {
        seq!['\\', 't']
    } else if (c as u32) < 0x20 {
        Seq::empty()
    } else {
        seq![c]
    }
}

pub open spec fn escaped(s: Seq<char>) -> Seq<char>
    decreases s.len(),
{
    if s.len() == 0 {
        Seq::empty()
    } else {
        escaped(s.drop_last()) + escaped1(s.last())
    }
}

fn escape_char(out: &mut Vec<char>, c: char)
    ensures
        final(out)@ == old(out)@ + escaped1(c),
{
    let v: u32 = c as u32;
    if c == '"' {
        out.push('\\');
        out.push('"');
    } else if c == '\\' {
        out.push('\\');
        out.push('\\');
    } else if c == '\n' {
        out.push('\\');
        out.push('n');
    } else if c == '\r' {
        out.push('\\');
        out.push('r');
    } else if c == '\t' {
        out.push('\\');
        out.push('t');
    } else if v >= 0x20 {
        out.push(c);
    }
    assert(out@ =~= old(out)@ + escaped1(c));
}

/// A text as it stands inside a JSON string.
pub fn json_escape(s: &[char]) -> (r: Vec<char>)
    ensures
        r@ == escaped(s@),
{
    let n: usize = s.len();
    let mut out: Vec<char> = Vec::new();
    let mut i: usize = 0;
    assert(s@.take(0) =~= Seq::<char>::empty());
    while i < n
        invariant
            i <= n,
            n == s@.len(),
            out@ == escaped(s@.take(i as int)),
        decreases n - i,
    {
        assert(s@.take(i + 1).drop_last() =~= s@.take(i as int));
        escape_char(&mut out, s[i]);
        i = i + 1;
    }
    assert(s@.take(n as int) =~= s@);
    out
}

/// What an escaped character stands for.
pub open spec fn unescaped1(c: char) -> char {
    if c == 'n' {
        '\n'
    } else if c == 't' {
        '\t'
    } else if c == 'r' {
        '\r'
    } else {
        c
    }
}

/// The string that goes on at `i` behind `acc`, up to its closing quote;
/// nothing where it has none.
pub open spec fn string_body(s: Seq<char>, i: int, acc: Seq<char>) -> Option<Seq<char>>
    decreases s.len() - i,
{
    if i < 0 || i >= s.len() {
        None
    } else if s[i] == '"' {
        Some(acc)
    } else if s[i] == '\\' {
        if i + 1 >= s.len() {
            None
        } else {
            string_body(s, i + 2, acc.push(unescaped1(s[i + 1])))
        }
    } else {
        string_body(s, i + 1, acc.push(s[i]))
    }
}

/// The `text` field of an answer.
pub open spec fn answer_text(line: Seq<char>) -> Option<Seq<char>> {
    match scan::found_at(line, "\"text\": \""@, 0) {
        Some(k) => string_body(line, k + 9, Seq::empty()),
        None => None,
    }
}

/// The `text` field of an answer line.
pub fn json_extract_text(line: &[char]) -> (r: Option<Vec<char>>)
    ensures
        match answer_text(line@) {
            Some(t) => r is Some && r->0@ == t,
            None => r is None,
        },
{
    let key = text::chars_of("\"text\": \"");
    proof {
        reveal_strlit("\"text\": \"");
    }
    let n: usize = line.len();
    let start: usize = match scan::find_text(line, key.as_slice(), 0) {
        Some(k) => k + 9,
        None => { return None; },
    };
    let mut out: Vec<char> = Vec::new();
    let mut i: usize = start;
    let ghost want = string_body(line@, start as int, Seq::empty());
    assert(out@ =~= Seq::<char>::empty());
    while i < n
        invariant
            start <= i <= n,
            n == line@.len(),
            want == answer_text(line@),
            want == string_body(line@, i as int, out@),
        decreases n - i,
    {
        let c = line[i];
        if c == '"' {
            return Some(out);
        }
        if c == '\\' {
            if n - i < 2 {
                return None;
            }
            let d = line[i + 1];
            let e = if d == 'n' {
                '\n'
            } else if d == 't' {
                '\t'
            } else if d == 'r' {
                '\r'
            } else {
                d
            };
            out.push(e);
            i = i + 2;
        } else {
            out.push(c);
            i = i + 1;
        }
    }
    None
}

/// A text without the control characters that are not passed on.
pub open spec fn passable(s: Seq<char>) -> bool {
    forall|i: int|
        0 <= i < s.len() ==> (#[trigger] s[i]) as u32 >= 0x20 || s[i] == '\n' || s[i] == '\r' || s[i]
            == '\t'
}

proof fn lemma_escaped_add(a: Seq<char>, b: Seq<char>)
    ensures
        escaped(a + b) == escaped(a) + escaped(b),
    decreases b.len(),
{
    if b.len() == 0 {
        assert(a + b =~= a);
        assert(escaped(a) + escaped(b) =~= escaped(a));
    } else {
        lemma_escaped_add(a, b.drop_last());
        assert((a + b).drop_last() =~= a + b.drop_last());
        assert(escaped(a + b) =~= escaped(a) + escaped(b));
    }
}

proof fn lemma_body(line: Seq<char>, at: int, s: Seq<char>, k: int)
    requires
        0 <= at,
        0 <= k <= s.len(),
        passable(s),
        at + escaped(s).len() < line.len(),
        line.subrange(at, at + escaped(s).len()) == escaped(s),
        line[at + escaped(s).len()] == '"',
    ensures
        string_body(line, at + escaped(s.take(k)).len(), s.take(k)) == Some(s),
    decreases s.len() - k,
{
    if k == s.len() {
        assert(s.take(k) =~= s);
    } else {
        lemma_body(line, at, s, k + 1);
        lemma_next(line, at, s, k);
    }
}

/// The escaped form of the character behind `k` stands where it belongs.
proof fn lemma_next(line: Seq<char>, at: int, s: Seq<char>, k: int)
    requires
        0 <= at,
        0 <= k < s.len(),
        passable(s),
        at + escaped(s).len() < line.len(),
        line.subrange(at, at + escaped(s).len()) == escaped(s),
        string_body(line, at + escaped(s.take(k + 1)).len(), s.take(k + 1)) == Some(s),
    ensures
        string_body(line, at + escaped(s.take(k)).len(), s.take(k)) == Some(s),
{
    let p = escaped(s.take(k)).len() as int;
    let e = escaped1(s[k]);
    let all = line.subrange(at, at + escaped(s).len());
    assert(s.take(k + 1).drop_last() =~= s.take(k));
    assert(s =~= s.take(k + 1) + s.skip(k + 1));
    lemma_escaped_add(s.take(k + 1), s.skip(k + 1));
    assert(escaped(s.take(k + 1)) == escaped(s.take(k)) + e);
    assert(s[k] as u32 >= 0x20 || s[k] == '\n' || s[k] == '\r' || s[k] == '\t');
    assert(1 <= e.len() <= 2);
    assert(line[at + p] == e[0]) by {
        assert(all[p] == line[at + p]);
        assert(escaped(s)[p] == e[0]);
    }
    if e.len() == 2 {
        assert(line[at + p + 1] == e[1]) by {
            assert(all[p + 1] == line[at + p + 1]);
            assert(escaped(s)[p + 1] == e[1]);
        }
    }
    assert(s.take(k + 1) =~= s.take(k).push(s[k]));
}

/// What is escaped into an answer is what is read out of it.
pub proof fn law_answers_read_back(s: Seq<char>)
    requires
        passable(s),
    ensures
        answer_text("{\"text\": \""@ + escaped(s) + "\"}"@) == Some(s),
{
    reveal_strlit("{\"text\": \"");
    reveal_strlit("\"text\": \"");
    reveal_strlit("\"}");
    let key = "\"text\": \""@;
    let head = "{\"text\": \""@;
    let line = head + escaped(s) + "\"}"@;
    assert(line.subrange(1, 10) =~= key);
    assert(line.subrange(0, 9)[0] != key[0]);
    reveal_with_fuel(scan::found_at, 3);
    assert(scan::found_at(line, key, 0) == Some(1int));
    assert(line.subrange(10, 10int + escaped(s).len()) =~= escaped(s));
    lemma_body(line, 10, s, 0);
    assert(s.take(0) =~= Seq::<char>::empty());
}

/// A request to translate.
pub open spec fn request(from: Seq<char>, to: Seq<char>, t: Seq<char>) -> Seq<char> {
    "{\"from\": \""@ + escaped(from) + "\", \"to\": \""@ + escaped(to) + "\", \"text\": \""@
        + escaped(t) + "\"}"@
}

fn append(r: &mut Vec<char>, s: &str)
    ensures
        final(r)@ == old(r)@ + s@,
{
    let c = text::chars_of(s);
    text::extend_chars(r, c.as_slice());
}

/// The line to send for a translation; nothing where the text stays as it is,
/// because the languages are the same or there is nothing but white space.
pub fn translate(from: &[char], to: &[char], t: &[char]) -> (r: Option<Vec<char>>)
    ensures
        if from@ == to@ || text::trimmed(t@).len() == 0 {
            r is None
        } else {
            r is Some && r->0@ == request(from@, to@, t@)
        },
{
    let bare = text::trim(t);
    if text::same_chars(from, to) || bare.len() == 0 {
        return None;
    }
    let mut r: Vec<char> = Vec::new();
    append(&mut r, "{\"from\": \"");
    let a = json_escape(from);
    text::extend_chars(&mut r, a.as_slice());
    append(&mut r, "\", \"to\": \"");
    let b = json_escape(to);
    text::extend_chars(&mut r, b.as_slice());
    append(&mut r, "\", \"text\": \"");
    let c = json_escape(t);
    text::extend_chars(&mut r, c.as_slice());
    append(&mut r, "\"}");
    assert(r@ =~= request(from@, to@, t@));
    Some(r)
}

// --- settings and commands ---

pub struct Settings {
    pub top_k: usize,
    pub max_tokens: usize,
    pub seed: u64,
    /// Stop when the text ends with one of these.
    pub stops: Vec<Vec<char>>,
    /// How many bytes of context the model gets to see.
    pub ctx_bytes: usize,
    /// The language to talk in, if it is not the model's.
    pub lang: Option<Vec<char>>,
}

#[verifier::ext_equal]
pub struct Setting {
    pub top_k: usize,
    pub max_tokens: usize,
    pub seed: u64,
    pub stops: Seq<Seq<char>>,
    pub ctx_bytes: usize,
    pub lang: Option<Seq<char>>,
}

impl View for Settings {
    type V = Setting;

    open spec fn view(&self) -> Setting {
        Setting {
            top_k: self.top_k,
            max_tokens: self.max_tokens,
            seed: self.seed,
            stops: text::texts(self.stops@),
            ctx_bytes: self.ctx_bytes,
            lang: match self.lang {
                Some(l) => Some(l@),
                None => None,
            },
        }
    }
}

impl Settings {
    /// The settings a session starts with.
    pub fn new(seed: u64) -> (r: Self)
        ensures
            r@ == (Setting {
                top_k: 40,
                max_tokens: 400,
                seed,
                stops: Seq::empty(),
                ctx_bytes: 4096,
                lang: None,
            }),
    {
        let r = Settings {
            top_k: 40,
            max_tokens: 400,
            seed,
            stops: Vec::new(),
            ctx_bytes: 4096,
            lang: None,
        };
        assert(text::texts(r.stops@) =~= Seq::<Seq<char>>::empty());
        r
    }
}

/// What a command leaves to do.
pub enum Cmd {
    Help,
    Params,
    /// Set the temperature to what the argument says.
    Temp(Vec<char>),
    /// A number was set, or none that is allowed was given.
    TopK(Option<usize>),
    Tokens(Option<usize>),
    Seed(Option<u64>),
    ShowStops,
    StopsCleared,
    StopsSet,
    Reset,
    MultiLine,
    /// Write the context to this file.
    Save(Vec<char>),
    Reload,
    Train(Vec<char>, Option<Vec<char>>),
    ShowLang,
    LangOff,
    LangSet,
    Quit,
    Unknown(Vec<char>),
}

/// The same, as its texts.
pub enum Todo {
    Help,
    Params,
    Temp(Seq<char>),
    TopK(Option<usize>),
    Tokens(Option<usize>),
    Seed(Option<u64>),
    ShowStops,
    StopsCleared,
    StopsSet,
    Reset,
    MultiLine,
    Save(Seq<char>),
    Reload,
    Train(Seq<char>, Option<Seq<char>>),
    ShowLang,
    LangOff,
    LangSet,
    Quit,
    Unknown(Seq<char>),
}

pub open spec fn text_view(s: Option<Vec<char>>) -> Option<Seq<char>> {
    match s {
        Some(v) => Some(v@),
        None => None,
    }
}

impl View for Cmd {
    type V = Todo;

    open spec fn view(&self) -> Todo {
        match *self {
            Cmd::Help => Todo::Help,
            Cmd::Params => Todo::Params,
            Cmd::Temp(a) => Todo::Temp(a@),
            Cmd::TopK(n) => Todo::TopK(n),
            Cmd::Tokens(n) => Todo::Tokens(n),
            Cmd::Seed(n) => Todo::Seed(n),
            Cmd::ShowStops => Todo::ShowStops,
            Cmd::StopsCleared => Todo::StopsCleared,
            Cmd::StopsSet => Todo::StopsSet,
            Cmd::Reset => Todo::Reset,
            Cmd::MultiLine => Todo::MultiLine,
            Cmd::Save(p) => Todo::Save(p@),
            Cmd::Reload => Todo::Reload,
            Cmd::Train(a, b) => Todo::Train(a@, text_view(b)),
            Cmd::ShowLang => Todo::ShowLang,
            Cmd::LangOff => Todo::LangOff,
            Cmd::LangSet => Todo::LangSet,
            Cmd::Quit => Todo::Quit,
            Cmd::Unknown(n) => Todo::Unknown(n@),
        }
    }
}

/// The number an argument says, where it is between `lo` and `hi`.
pub open spec fn number_in(arg: Seq<char>, lo: nat, hi: nat) -> Option<usize> {
    match scan::number_upto(arg, usize::MAX as nat) {
        Some(v) => if lo <= v <= hi {
            Some(v as usize)
        } else {
            None
        },
        None => None,
    }
}

pub fn set_usize(slot: &mut usize, arg: &[char], lo: usize, hi: usize) -> (r: Option<usize>)
    ensures
        r == number_in(arg@, lo as nat, hi as nat),
        *final(slot) == match r {
            Some(v) => v,
            None => *old(slot),
        },
{
    match scan::parse_upto(arg, usize::MAX as u64) {
        Some(w) => {
            let v: usize = w as usize;
            if lo <= v && v <= hi {
                *slot = v;
                Some(v)
            } else {
                None
            }
        },
        None => None,
    }
}

/// `s` without every `stops` at its front.
pub open spec fn bare_stops(s: Seq<char>) -> Seq<char>
    decreases s.len(),
{
    if s.len() >= 5 && s.take(5) == seq!['s', 't', 'o', 'p', 's'] {
        bare_stops(s.skip(5))
    } else {
        s
    }
}

/// `s` without the quotes at its front.
pub open spec fn unquoted_start(s: Seq<char>) -> Seq<char>
    decreases s.len(),
{
    if s.len() > 0 && s[0] == '"' {
        unquoted_start(s.skip(1))
    } else {
        s
    }
}

/// `s` without the quotes at its end.
pub open spec fn unquoted_end(s: Seq<char>) -> Seq<char>
    decreases s.len(),
{
    if s.len() > 0 && s.last() == '"' {
        unquoted_end(s.drop_last())
    } else {
        s
    }
}

/// `s` with every `\n` that is written as two characters made one.
pub open spec fn with_newlines(s: Seq<char>) -> Seq<char>
    decreases s.len(),
{
    if s.len() == 0 {
        Seq::empty()
    } else if s.len() >= 2 && s[0] == '\\' && s[1] == 'n' {
        seq!['\n'] + with_newlines(s.skip(2))
    } else {
        seq![s[0]] + with_newlines(s.skip(1))
    }
}

/// The stop text a `stops` command gives.
pub open spec fn stop_text(cmd: Seq<char>) -> Seq<char> {
    with_newlines(unquoted_end(unquoted_start(text::trimmed(bare_stops(cmd)))))
}

fn strip_stops(s: &[char]) -> (r: Vec<char>)
    ensures
        r@ == bare_stops(s@),
{
    let n: usize = s.len();
    let word = vec!['s', 't', 'o', 'p', 's'];
    assert(word@ =~= seq!['s', 't', 'o', 'p', 's']);
    let mut i: usize = 0;
    assert(s@.skip(0) =~= s@);
    while scan::stands_at(s, word.as_slice(), i)
        invariant
            i <= n,
            n == s@.len(),
            word@ == seq!['s', 't', 'o', 'p', 's'],
            bare_stops(s@) == bare_stops(s@.skip(i as int)),
        decreases n - i,
    {
        assert(s@.skip(i as int).take(5) =~= s@.subrange(i as int, i + 5));
        assert(s@.skip(i as int).skip(5) =~= s@.skip(i + 5));
        i = i + 5;
    }
    proof {
        let t = s@.skip(i as int);
        if t.len() >= 5 {
            assert(t.take(5) =~= s@.subrange(i as int, i + 5));
        }
    }
    let r = text::sub_chars(s, i, n);
    assert(r@ =~= s@.skip(i as int));
    r
}

fn unquote(s: &[char]) -> (r: Vec<char>)
    ensures
        r@ == unquoted_end(unquoted_start(s@)),
{
    let n: usize = s.len();
    let mut a: usize = 0;
    assert(s@.skip(0) =~= s@);
    while a < n && s[a] == '"'
        invariant
            a <= n,
            n == s@.len(),
            unquoted_start(s@) == unquoted_start(s@.skip(a as int)),
        decreases n - a,
    {
        assert(s@.skip(a as int).skip(1) =~= s@.skip(a + 1));
        a = a + 1;
    }
    let ghost t = s@.skip(a as int);
    assert(t == unquoted_start(s@));
    let mut b: usize = n;
    assert(s@.subrange(a as int, b as int) =~= t);
    while b > a && s[b - 1] == '"'
        invariant
            a <= b <= n,
            n == s@.len(),
            unquoted_end(t) == unquoted_end(s@.subrange(a as int, b as int)),
        decreases b,
    {
        assert(s@.subrange(a as int, b as int).drop_last() =~= s@.subrange(a as int, b - 1));
        b = b - 1;
    }
    text::sub_chars(s, a, b)
}

fn expand_newlines(s: &[char]) -> (r: Vec<char>)
    ensures
        r@ == with_newlines(s@),
{
    let n: usize = s.len();
    let mut r: Vec<char> = Vec::new();
    let mut i: usize = 0;
    assert(s@.skip(0) =~= s@);
    assert(r@ + with_newlines(s@) =~= with_newlines(s@));
    while i < n
        invariant
            i <= n,
            n == s@.len(),
            r@ + with_newlines(s@.skip(i as int)) == with_newlines(s@),
        decreases n - i,
    {
        let ghost before = r@;
        let ghost t = s@.skip(i as int);
        if n - i >= 2 && s[i] == '\\' && s[i + 1] == 'n' {
            r.push('\n');
            assert(t.skip(2) =~= s@.skip(i + 2));
            assert(r@ + with_newlines(s@.skip(i + 2)) =~= before + with_newlines(t));
            i = i + 2;
        } else {
            r.push(s[i]);
            assert(t.skip(1) =~= s@.skip(i + 1));
            assert(r@ + with_newlines(s@.skip(i + 1)) =~= before + with_newlines(t));
            i = i + 1;
        }
    }
    assert(s@.skip(n as int).len() == 0);
    assert(r@ =~= with_newlines(s@));
    r
}

/// Word `i` of a command; empty where there is none.
pub open spec fn word_at(w: Seq<Seq<char>>, i: int) -> Seq<char> {
    if 0 <= i < w.len() {
        w[i]
    } else {
        Seq::empty()
    }
}

/// The settings and the context after a command, and what it leaves to do.
/// `vocab` is the size of the model's vocabulary.
pub open spec fn commanded(cmd: Seq<char>, s: Setting, ctx: Seq<char>, vocab: usize) -> (
    Setting,
    Seq<char>,
    Todo,
) {
    let w = scan::words(cmd);
    let name = word_at(w, 0);
    let arg = word_at(w, 1);
    if name == "help"@ || name == "?"@ {
        (s, ctx, Todo::Help)
    } else if name == "params"@ || name == "info"@ {
        (s, ctx, Todo::Params)
    } else if name == "temp"@ || name == "temperature"@ {
        (s, ctx, Todo::Temp(arg))
    } else if name == "topk"@ || name == "top-k"@ {
        let n = number_in(arg, 1, vocab as nat);
        (
            Setting {
                top_k: match n {
                    Some(v) => v,
                    None => s.top_k,
                },
                ..s
            },
            ctx,
            Todo::TopK(n),
        )
    } else if name == "tokens"@ || name == "max"@ {
        let n = number_in(arg, 1, 8192);
        (
            Setting {
                max_tokens: match n {
                    Some(v) => v,
                    None => s.max_tokens,
                },
                ..s
            },
            ctx,
            Todo::Tokens(n),
        )
    } else if name == "seed"@ {
        match scan::number_upto(arg, u64::MAX as nat) {
            Some(v) => (Setting { seed: v as u64, ..s }, ctx, Todo::Seed(Some(v as u64))),
            None => (s, ctx, Todo::Seed(None)),
        }
    } else if name == "stops"@ {
        if arg.len() == 0 {
            (s, ctx, Todo::ShowStops)
        } else if arg == "none"@ {
            (Setting { stops: Seq::empty(), ..s }, ctx, Todo::StopsCleared)
        } else {
            (Setting { stops: seq![stop_text(cmd)], ..s }, ctx, Todo::StopsSet)
        }
    } else if name == "reset"@ || name == "clear"@ {
        (s, Seq::empty(), Todo::Reset)
    } else if name == "multi"@ {
        (s, ctx, Todo::MultiLine)
    } else if name == "save"@ {
        (
            s,
            ctx,
            Todo::Save(
                if arg.len() == 0 {
                    "thos-shell.transcript.txt"@
                } else {
                    arg
                },
            ),
        )
    } else if name == "reload"@ {
        (s, ctx, Todo::Reload)
    } else if name == "train"@ {
        (
            s,
            ctx,
            Todo::Train(
                arg,
                if w.len() > 2 {
                    Some(w[2])
                } else {
                    None
                },
            ),
        )
    } else if name == "lang"@ {
        if arg.len() == 0 {
            (s, ctx, Todo::ShowLang)
        } else if arg == "off"@ || arg == "en"@ {
            (Setting { lang: None, ..s }, ctx, Todo::LangOff)
        } else {
            (Setting { lang: Some(arg), ..s }, ctx, Todo::LangSet)
        }
    } else if name == "exit"@ || name == "quit"@ || name == "q"@ {
        (s, ctx, Todo::Quit)
    } else {
        (s, ctx, Todo::Unknown(name))
    }
}

fn word(w: &Vec<Vec<char>>, i: usize) -> (r: Vec<char>)
    ensures
        r@ == word_at(text::texts(w@), i as int),
{
    if i < w.len() {
        assert(text::texts(w@)[i as int] == w@[i as int]@);
        text::copy_chars(w[i].as_slice())
    } else {
        let r: Vec<char> = Vec::new();
        assert(r@ =~= Seq::<char>::empty());
        r
    }
}

/// Do what a command, without its slash, says.
#[verifier::rlimit(60)]
#[verifier::spinoff_prover]
pub fn handle_command(cmd: &[char], set: &mut Settings, ctx: &mut Vec<char>, vocab: usize) -> (r: Cmd)
    ensures
        (final(set)@, final(ctx)@, r@) == commanded(cmd@, old(set)@, old(ctx)@, vocab),
{
    let w = scan::split_words(cmd);
    let name = word(&w, 0);
    let arg = word(&w, 1);
    let n = name.as_slice();
    let a = arg.as_slice();
    if scan::is_word(n, "help") || scan::is_word(n, "?") {
        return Cmd::Help;
    }
    if scan::is_word(n, "params") || scan::is_word(n, "info") {
        return Cmd::Params;
    }
    if scan::is_word(n, "temp") || scan::is_word(n, "temperature") {
        return Cmd::Temp(arg);
    }
    if scan::is_word(n, "topk") || scan::is_word(n, "top-k") {
        let v = set_usize(&mut set.top_k, a, 1, vocab);
        return Cmd::TopK(v);
    }
    if scan::is_word(n, "tokens") || scan::is_word(n, "max") {
        let v = set_usize(&mut set.max_tokens, a, 1, 8192);
        return Cmd::Tokens(v);
    }
    if scan::is_word(n, "seed") {
        return match scan::parse_upto(a, u64::MAX) {
            Some(v) => {
                set.seed = v;
                Cmd::Seed(Some(v))
            },
            None => Cmd::Seed(None),
        };
    }
    if scan::is_word(n, "stops") {
        if a.len() == 0 {
            return Cmd::ShowStops;
        }
        if scan::is_word(a, "none") {
            set.stops = Vec::new();
            assert(text::texts(set.stops@) =~= Seq::<Seq<char>>::empty());
            return Cmd::StopsCleared;
        }
        let bare = strip_stops(cmd);
        let t = text::trim(bare.as_slice());
        let q = unquote(t.as_slice());
        let s = expand_newlines(q.as_slice());
        let ghost sv = s@;
        set.stops = vec![s];
        assert(text::texts(set.stops@) =~= seq![sv]);
        return Cmd::StopsSet;
    }
    if scan::is_word(n, "reset") || scan::is_word(n, "clear") {
        *ctx = Vec::new();
        assert(ctx@ =~= Seq::<char>::empty());
        return Cmd::Reset;
    }
    if scan::is_word(n, "multi") {
        return Cmd::MultiLine;
    }
    if scan::is_word(n, "save") {
        if a.len() == 0 {
            return Cmd::Save(text::chars_of("thos-shell.transcript.txt"));
        }
        return Cmd::Save(arg);
    }
    if scan::is_word(n, "reload") {
        return Cmd::Reload;
    }
    if scan::is_word(n, "train") {
        let extra = if w.len() > 2 {
            assert(text::texts(w@)[2] == w@[2]@);
            Some(text::copy_chars(w[2].as_slice()))
        } else {
            None
        };
        return Cmd::Train(arg, extra);
    }
    if scan::is_word(n, "lang") {
        if a.len() == 0 {
            return Cmd::ShowLang;
        }
        if scan::is_word(a, "off") || scan::is_word(a, "en") {
            set.lang = None;
            return Cmd::LangOff;
        }
        set.lang = Some(arg);
        return Cmd::LangSet;
    }
    if scan::is_word(n, "exit") || scan::is_word(n, "quit") || scan::is_word(n, "q") {
        return Cmd::Quit;
    }
    Cmd::Unknown(name)
}

/// What a line of input is.
pub enum Input {
    Empty,
    /// A command, without its slash.
    Command(Vec<char>),
    Text,
}

/// Tell commands from text.
pub fn read_input(line: &[char]) -> (r: Input)
    ensures
        ({
            let t = text::trimmed(line@);
            if t.len() == 0 {
                r is Empty
            } else if t[0] == '/' {
                r matches Input::Command(c) && c@ == t.skip(1)
            } else {
                r is Text
            }
        }),
{
    let t = text::trim(line);
    let n: usize = t.len();
    if n == 0 {
        return Input::Empty;
    }
    if t[0] == '/' {
        let c = text::sub_chars(t.as_slice(), 1, n);
        assert(c@ =~= t@.skip(1));
        return Input::Command(c);
    }
    Input::Text
}

/// Take one line of a multi-line text; true where it is the dot that ends it.
pub fn read_multiline(buf: &mut Vec<char>, line: &[char]) -> (done: bool)
    ensures
        done == (text::trimmed(line@) == "."@),
        final(buf)@ == if done {
            old(buf)@
        } else {
            old(buf)@ + line@ + seq!['\n']
        },
{
    let t = text::trim(line);
    if scan::is_word(t.as_slice(), ".") {
        return true;
    }
    text::extend_chars(buf, line);
    buf.push('\n');
    assert(buf@ =~= old(buf)@ + line@ + seq!['\n']);
    false
}

// --- a turn ---

/// The context with the user's text at its end, each part on lines of its
/// own.
pub open spec fn asked(ctx: Seq<char>, user: Seq<char>) -> Seq<char> {
    let a = if ctx.len() > 0 && ctx.last() != '\n' {
        ctx.push('\n')
    } else {
        ctx
    };
    let b = a + user;
    if b.len() > 0 && b.last() == '\n' {
        b
    } else {
        b.push('\n')
    }
}

pub fn ask(ctx: &mut Vec<char>, user: &[char])
    ensures
        final(ctx)@ == asked(old(ctx)@, user@),
{
    let n: usize = ctx.len();
    if n > 0 && ctx[n - 1] != '\n' {
        ctx.push('\n');
    }
    text::extend_chars(ctx, user);
    let m: usize = ctx.len();
    if m == 0 || ctx[m - 1] != '\n' {
        ctx.push('\n');
    }
    assert(ctx@ =~= asked(old(ctx)@, user@));
}

/// The context after the model's answer.
pub fn answer(ctx: &mut Vec<char>, said: &[char]) -> (r: Vec<char>)
    ensures
        r@ == text::trimmed_end(said@),
        final(ctx)@ == (old(ctx)@ + text::trimmed_end(said@)).push('\n'),
{
    let t = text::trim_end(said);
    text::extend_chars(ctx, t.as_slice());
    ctx.push('\n');
    t
}

/// Whether a byte goes on a character that was begun before it.
pub open spec fn goes_on(b: u8) -> bool {
    0x80 <= b <= 0xBF
}

/// The first byte, from `i` on, that begins a character; 0 where there is
/// none.
pub open spec fn char_start(b: Seq<u8>, i: int) -> int
    decreases b.len() - i,
{
    if i < 0 || i >= b.len() {
        0
    } else if !goes_on(b[i]) {
        i
    } else {
        char_start(b, i + 1)
    }
}

/// Where the part of the context begins that the model gets to see: the last
/// `keep` bytes, less those that go on a character begun before. Where nothing
/// would be left, it is all of the context.
pub fn fed_from(b: &[u8], keep: usize) -> (r: usize)
    ensures
        r == char_start(
            b@,
            if b@.len() > keep {
                b@.len() - keep
            } else {
                0
            },
        ),
        r <= b@.len(),
{
    let n: usize = b.len();
    let want: usize = if n > keep { n - keep } else { 0 };
    let mut i: usize = want;
    while i < n
        invariant
            want <= i <= n,
            n == b@.len(),
            want == if n > keep {
                n - keep
            } else {
                0
            },
            char_start(b@, want as int) == char_start(b@, i as int),
        decreases n - i,
    {
        if !(b[i] >= 0x80 && b[i] <= 0xBF) {
            return i;
        }
        i = i + 1;
    }
    0
}

/// The text as it comes out of the model: what can be shown, and the bytes of
/// a character that is not complete yet.
pub struct Stream {
    pub pending: Vec<u8>,
    pub said: Vec<char>,
}

#[verifier::ext_equal]
pub struct Flow {
    pub pending: Seq<u8>,
    pub said: Seq<char>,
}

impl View for Stream {
    type V = Flow;

    open spec fn view(&self) -> Flow {
        Flow { pending: self.pending@, said: self.said@ }
    }
}

/// The longest prefix that is valid UTF-8.
pub open spec fn is_prefix_len(b: Seq<u8>, n: int) -> bool {
    &&& 0 <= n <= b.len()
    &&& vstd::utf8::valid_utf8(b.take(n))
    &&& forall|k: int| n < k <= b.len() ==> !vstd::utf8::valid_utf8(#[trigger] b.take(k))
}

impl Stream {
    pub fn new() -> (r: Self)
        ensures
            r@ == (Flow { pending: Seq::empty(), said: Seq::empty() }),
    {
        let r = Stream { pending: Vec::new(), said: Vec::new() };
        assert(r@ =~= (Flow { pending: Seq::empty(), said: Seq::empty() }));
        r
    }

    /// Take the bytes of a token; what can be shown now.
    pub fn feed(&mut self, b: &[u8]) -> (r: Vec<char>)
        ensures
            ({
                let all = old(self)@.pending + b@;
                exists|n: int| #[trigger]
                    is_prefix_len(all, n) && r@ == vstd::utf8::decode_utf8(all.take(n))
                        && final(self)@ == (Flow {
                        pending: all.skip(n),
                        said: old(self)@.said + r@,
                    })
            }),
    {
        crate::bytes::extend(&mut self.pending, b);
        let ghost all = old(self)@.pending + b@;
        assert(self.pending@ =~= all);
        let len: usize = self.pending.len();
        let n: usize = text::utf8_prefix(self.pending.as_slice());
        assert(is_prefix_len(all, n as int));
        let head = vstd::slice::slice_subrange(self.pending.as_slice(), 0, n);
        assert(head@ =~= all.take(n as int));
        let r = match text::utf8_text(head) {
            Some(s) => {
                proof {
                    vstd::utf8::encode_utf8_decode_utf8(s@);
                }
                text::chars_of(s)
            },
            None => Vec::new(),
        };
        let rest = crate::bytes::sub(self.pending.as_slice(), n, len);
        assert(rest@ =~= all.skip(n as int));
        self.pending = rest;
        text::extend_chars(&mut self.said, r.as_slice());
        assert(is_prefix_len(all, n as int) && self@ =~= (Flow {
            pending: all.skip(n as int),
            said: old(self)@.said + r@,
        }));
        r
    }

    /// The bytes that never became a character, as far as they can be shown.
    pub fn finish(&mut self) -> (r: Vec<char>)
        ensures
            old(self)@.pending.len() == 0 ==> r@.len() == 0,
            old(self)@.pending.len() > 0 ==> r@ == crate::syscall_fs::lossy(old(self)@.pending),
            final(self)@ == (Flow { pending: Seq::empty(), said: old(self)@.said + r@ }),
    {
        let mut r: Vec<char> = Vec::new();
        if self.pending.len() > 0 {
            let s = crate::syscall_fs::lossy_text(self.pending.as_slice());
            r = text::chars_of(s.as_str());
            text::extend_chars(&mut self.said, r.as_slice());
            self.pending = Vec::new();
        }
        assert(self@ =~= (Flow { pending: Seq::empty(), said: old(self)@.said + r@ }));
        r
    }

    /// Whether the text ends with one of the stops.
    pub fn stopped(&self, stops: &Vec<Vec<char>>) -> (r: bool)
        ensures
            r == exists|i: int|
                0 <= i < stops@.len() && (#[trigger] stops@[i])@.len() > 0 && scan::ends(
                    self@.said,
                    stops@[i]@,
                ),
    {
        let n: usize = stops.len();
        let mut i: usize = 0;
        while i < n
            invariant
                i <= n,
                n == stops@.len(),
                forall|k: int|
                    0 <= k < i ==> !((#[trigger] stops@[k])@.len() > 0 && scan::ends(
                        self@.said,
                        stops@[k]@,
                    )),
            decreases n - i,
        {
            if stops[i].len() > 0 && scan::ends_with(self.said.as_slice(), stops[i].as_slice()) {
                assert(stops@[i as int]@.len() > 0);
                return true;
            }
            i = i + 1;
        }
        false
    }
}

/// There is only one longest valid prefix, so what a token shows is fixed.
pub proof fn law_prefix_is_unique(b: Seq<u8>, m: int, n: int)
    requires
        is_prefix_len(b, m),
        is_prefix_len(b, n),
    ensures
        m == n,
{
    if m < n {
        assert(!vstd::utf8::valid_utf8(b.take(n)));
    } else if n < m {
        assert(!vstd::utf8::valid_utf8(b.take(m)));
    }
}

proof fn lemma_valid_prefix(b: Seq<u8>)
    requires
        vstd::utf8::valid_utf8(b),
    ensures
        is_prefix_len(b, b.len() as int),
{
    assert(b.take(b.len() as int) =~= b);
}

/// Bytes that make whole characters are shown at once, and nothing is held
/// back.
pub proof fn law_whole_characters_are_shown(all: Seq<u8>, n: int)
    requires
        vstd::utf8::valid_utf8(all),
        is_prefix_len(all, n),
    ensures
        n == all.len(),
        vstd::utf8::decode_utf8(all.take(n)) == vstd::utf8::decode_utf8(all),
        all.skip(n).len() == 0,
{
    lemma_valid_prefix(all);
    law_prefix_is_unique(all, n, all.len() as int);
    assert(all.take(n) =~= all);
}

// --- training ---

/// What `/train` leaves to do.
pub enum Train {
    Usage,
    /// Start training in the background, with this configuration if any.
    Start(Option<(Vec<char>, Vec<char>)>),
    /// Start the staged pipeline, for this many hours if any.
    Staged(Vec<char>, Option<Vec<char>>),
    /// Pass a word on to the run with this configuration, if any.
    Control(Vec<char>, Option<Vec<char>>),
    Status,
    Unknown(Vec<char>),
}

pub open spec fn config_path(dir: Seq<char>, stem: Seq<char>) -> Seq<char> {
    dir + "/config/"@ + stem + ".toml"@
}

fn config_file(dir: &[char], stem: &[char]) -> (r: Vec<char>)
    ensures
        r@ == config_path(dir@, stem@),
{
    let mut r = text::copy_chars(dir);
    append(&mut r, "/config/");
    text::extend_chars(&mut r, stem);
    append(&mut r, ".toml");
    r
}

/// Whether `t` is what `/train sub extra` comes to; `dir` is where the
/// training scripts are, and `recent` the run that was last active. Control
/// words go to the run that was named, or else to that one.
pub open spec fn trains(
    t: Train,
    sub: Seq<char>,
    extra: Option<Seq<char>>,
    dir: Seq<char>,
    recent: Option<Seq<char>>,
) -> bool {
    if sub.len() == 0 {
        t is Usage
    } else if sub == "start"@ {
        match extra {
            Some(stem) => t matches Train::Start(Some((c, w))) && c@ == config_path(dir, stem) && w@
                == stem + ".tlm"@,
            None => t matches Train::Start(None),
        }
    } else if sub == "staged"@ {
        t matches Train::Staged(p, h) && p@ == dir + "/staged.sh"@ && text_view(h) == extra
    } else if sub == "stop"@ || sub == "pause"@ || sub == "resume"@ {
        &&& t matches Train::Control(w, c)
        &&& w@ == sub
        &&& text_view(c) == match extra {
            Some(stem) => Some(config_path(dir, stem)),
            None => match recent {
                Some(stem) => Some(config_path(dir, stem)),
                None => None,
            },
        }
    } else if sub == "status"@ {
        t is Status
    } else {
        t matches Train::Unknown(w) && w@ == sub
    }
}

/// What `/train` comes to.
pub fn handle_train(
    sub: &[char],
    extra: &Option<Vec<char>>,
    dir: &[char],
    recent: &Option<Vec<char>>,
) -> (r: Train)
    ensures
        trains(r, sub@, text_view(*extra), dir@, text_view(*recent)),
{
    if sub.len() == 0 {
        return Train::Usage;
    }
    if scan::is_word(sub, "start") {
        return match extra {
            Some(stem) => {
                let mut w = text::copy_chars(stem.as_slice());
                append(&mut w, ".tlm");
                Train::Start(Some((config_file(dir, stem.as_slice()), w)))
            },
            None => Train::Start(None),
        };
    }
    if scan::is_word(sub, "staged") {
        let mut p = text::copy_chars(dir);
        append(&mut p, "/staged.sh");
        let h = match extra {
            Some(h) => Some(text::copy_chars(h.as_slice())),
            None => None,
        };
        return Train::Staged(p, h);
    }
    if scan::is_word(sub, "stop") || scan::is_word(sub, "pause") || scan::is_word(sub, "resume") {
        let c = match extra {
            Some(stem) => Some(config_file(dir, stem.as_slice())),
            None => match recent {
                Some(stem) => Some(config_file(dir, stem.as_slice())),
                None => None,
            },
        };
        return Train::Control(text::copy_chars(sub), c);
    }
    if scan::is_word(sub, "status") {
        return Train::Status;
    }
    Train::Unknown(text::copy_chars(sub))
}

/// The first of the runs that were written last; nothing where there is none.
pub fn most_recent_run(times: &Vec<u128>) -> (r: Option<usize>)
    ensures
        r is None == (times@.len() == 0),
        r matches Some(k) ==> {
            &&& k < times@.len()
            &&& forall|i: int| 0 <= i < times@.len() ==> #[trigger] times@[i] <= times@[k as int]
            &&& forall|i: int| 0 <= i < k ==> #[trigger] times@[i] < times@[k as int]
        },
{
    let n: usize = times.len();
    if n == 0 {
        return None;
    }
    let mut best: usize = 0;
    let mut i: usize = 1;
    while i < n
        invariant
            best < i <= n,
            n == times@.len(),
            forall|k: int| 0 <= k < i ==> #[trigger] times@[k] <= times@[best as int],
            forall|k: int| 0 <= k < best ==> #[trigger] times@[k] < times@[best as int],
        decreases n - i,
    {
        if times[i] > times[best] {
            best = i;
        }
        i = i + 1;
    }
    Some(best)
}

/// How a run stands, by its control file.
pub fn run_state(control: &[char]) -> (r: &'static str)
    ensures
        r@ == if scan::contained(control@, "\"pause\": true"@) {
            "PAUSED"@
        } else if scan::contained(control@, "\"stop\": true"@) {
            "STOP REQUESTED"@
        } else {
            "running"@
        },
{
    let pause = text::chars_of("\"pause\": true");
    let stop = text::chars_of("\"stop\": true");
    if scan::contains_text(control, pause.as_slice()) {
        "PAUSED"
    } else if scan::contains_text(control, stop.as_slice()) {
        "STOP REQUESTED"
    } else {
        "running"
    }
}

/// The fields of a log line, where it has all five: step, training loss,
/// validation loss, learning rate, tokens a second.
pub fn log_fields(line: &[char]) -> (r: Option<Vec<Vec<char>>>)
    ensures
        ({
            let f = scan::cut(line@, ',', ',');
            if f.len() == 5 {
                r is Some && text::texts(r->0@) == f
            } else {
                r is None
            }
        }),
{
    let f = scan::split_at_either(line, ',', ',');
    assert(text::texts(f@).len() == f@.len());
    if f.len() == 5 {
        Some(f)
    } else {
        None
    }
}

// --- the command line ---

/// What the program was started with.
pub struct Args {
    pub weights: Vec<char>,
    pub system: Vec<char>,
    pub lang: Option<Vec<char>>,
}

#[verifier::ext_equal]
pub struct Arguments {
    pub weights: Seq<char>,
    pub system: Seq<char>,
    pub lang: Option<Seq<char>>,
}

impl View for Args {
    type V = Arguments;

    open spec fn view(&self) -> Arguments {
        Arguments {
            weights: self.weights@,
            system: self.system@,
            lang: text_view(self.lang),
        }
    }
}

pub enum Start {
    Run(Args),
    Usage,
    Unknown(Vec<char>),
}

pub enum Started {
    Run(Arguments),
    Usage,
    Unknown(Seq<char>),
}

impl View for Start {
    type V = Started;

    open spec fn view(&self) -> Started {
        match *self {
            Start::Run(a) => Started::Run(a@),
            Start::Usage => Started::Usage,
            Start::Unknown(w) => Started::Unknown(w@),
        }
    }
}

/// The language a word names; `en` and `off` name none.
pub open spec fn language(w: Option<Seq<char>>) -> Option<Seq<char>> {
    match w {
        Some(l) => if l == "en"@ || l == "off"@ {
            None
        } else {
            Some(l)
        },
        None => None,
    }
}

/// The arguments from `i` on, read into `a`. An option whose value is missing
/// gets an empty one.
pub open spec fn args_read(w: Seq<Seq<char>>, i: int, a: Arguments) -> Started
    decreases w.len() + 1 - i,
{
    if i < 0 || i >= w.len() {
        Started::Run(a)
    } else if w[i] == "--weights"@ || w[i] == "--model"@ || w[i] == "-m"@ {
        args_read(w, i + 2, Arguments { weights: word_at(w, i + 1), ..a })
    } else if w[i] == "--system"@ || w[i] == "-s"@ {
        args_read(w, i + 2, Arguments { system: word_at(w, i + 1), ..a })
    } else if w[i] == "--lang"@ || w[i] == "-l"@ {
        args_read(
            w,
            i + 2,
            Arguments {
                lang: language(
                    if i + 1 < w.len() {
                        Some(w[i + 1])
                    } else {
                        None
                    },
                ),
                ..a
            },
        )
    } else if w[i] == "--help"@ || w[i] == "-h"@ {
        Started::Usage
    } else {
        Started::Unknown(w[i])
    }
}

/// Read the command line.
pub fn parse_args(w: &Vec<Vec<char>>) -> (r: Start)
    ensures
        r@ == args_read(
            text::texts(w@),
            0,
            Arguments { weights: Seq::empty(), system: Seq::empty(), lang: None },
        ),
{
    let n: usize = w.len();
    let ghost v = text::texts(w@);
    let mut a = Args { weights: Vec::new(), system: Vec::new(), lang: None };
    let ghost want = args_read(
        v,
        0,
        Arguments { weights: Seq::empty(), system: Seq::empty(), lang: None },
    );
    assert(a@ =~= (Arguments { weights: Seq::empty(), system: Seq::empty(), lang: None }));
    let mut i: usize = 0;
    while i < n
        invariant
            n == w@.len(),
            v == text::texts(w@),
            want == args_read(
                v,
                0,
                Arguments { weights: Seq::empty(), system: Seq::empty(), lang: None },
            ),
            want == args_read(v, i as int, a@),
        decreases n - i,
    {
        assert(v[i as int] == w@[i as int]@);
        let o = w[i].as_slice();
        let next = word(w, i + 1);
        if scan::is_word(o, "--weights") || scan::is_word(o, "--model") || scan::is_word(o, "-m") {
            a.weights = next;
        } else if scan::is_word(o, "--system") || scan::is_word(o, "-s") {
            a.system = next;
        } else if scan::is_word(o, "--lang") || scan::is_word(o, "-l") {
            if i + 1 < n && !scan::is_word(next.as_slice(), "en") && !scan::is_word(
                next.as_slice(),
                "off",
            ) {
                a.lang = Some(next);
            } else {
                a.lang = None;
            }
        } else if scan::is_word(o, "--help") || scan::is_word(o, "-h") {
            return Start::Usage;
        } else {
            return Start::Unknown(text::copy_chars(o));
        }
        if n - i < 2 {
            assert(args_read(v, i + 2, a@) == Started::Run(a@));
            return Start::Run(a);
        }
        i = i + 2;
    }
    Start::Run(a)
}

} // verus!
