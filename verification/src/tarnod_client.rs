//! What the taskbar knows of the `tarnod` daemon.
use vstd::prelude::*;

use crate::text;

verus! {

/// The daemon's status, as far as it was last seen.
#[derive(Clone, Debug)]
pub struct TarnodStatus {
    pub connected: bool,
    pub isolated_cpus: Option<String>,
    pub ebpf_active: Option<bool>,
}

pub open spec fn string_view(s: Option<String>) -> Option<Seq<char>> {
    match s {
        Some(t) => Some(t@),
        None => None,
    }
}

impl Default for TarnodStatus {
    fn default() -> (r: Self)
        ensures
            r == (TarnodStatus { connected: false, isolated_cpus: None, ebpf_active: None }),
    {
        TarnodStatus { connected: false, isolated_cpus: None, ebpf_active: None }
    }
}

/// An answer of the daemon: its data, as JSON, or an error.
pub enum Reply {
    Data(String),
    Error,
}

/// The text that field `key` of the JSON object `json` holds.
pub uninterp spec fn json_str(json: Seq<char>, key: Seq<char>) -> Option<Seq<char>>;

/// The truth value that field `key` of the JSON object `json` holds.
pub uninterp spec fn json_bool(json: Seq<char>, key: Seq<char>) -> Option<bool>;

/// `serde_json::from_str` to a `Value`, `Value::get` and `Value::as_str`: the
/// field's text, or nothing where the text is no JSON object with such a
/// field.
#[verifier::external_body]
pub(crate) fn str_field(json: &str, key: &str) -> (r: Option<String>)
    ensures
        string_view(r) == json_str(json@, key@),
{
    let v: serde_json::Value = serde_json::from_str(json).ok()?;
    v.get(key)?.as_str().map(str::to_string)
}

/// `serde_json::from_str` to a `Value`, `Value::get` and `Value::as_bool`: the
/// field's truth value, or nothing where the text is no JSON object with such
/// a field.
#[verifier::external_body]
pub(crate) fn bool_field(json: &str, key: &str) -> (r: Option<bool>)
    ensures
        r == json_bool(json@, key@),
{
    let v: serde_json::Value = serde_json::from_str(json).ok()?;
    v.get(key)?.as_bool()
}

/// The status of a daemon that answered.
pub fn status_of(cpus: Option<String>, ebpf: Option<bool>) -> (r: TarnodStatus)
    ensures
        r == (TarnodStatus { connected: true, isolated_cpus: cpus, ebpf_active: ebpf }),
{
    TarnodStatus { connected: true, isolated_cpus: cpus, ebpf_active: ebpf }
}

/// The status that the answers to the two questions give. An error leaves its
/// part unknown; the daemon still counts as connected.
pub fn poll_once(gaming: &Reply, security: &Reply) -> (r: TarnodStatus)
    ensures
        r.connected,
        string_view(r.isolated_cpus) == match *gaming {
            Reply::Data(data) => json_str(data@, "isolated_cpus"@),
            Reply::Error => None,
        },
        r.ebpf_active == match *security {
            Reply::Data(data) => json_bool(data@, "ebpf_active"@),
            Reply::Error => None,
        },
{
    let cpus = match gaming {
        Reply::Data(data) => str_field(data.as_str(), "isolated_cpus"),
        Reply::Error => None,
    };
    let ebpf = match security {
        Reply::Data(data) => bool_field(data.as_str(), "ebpf_active"),
        Reply::Error => None,
    };
    status_of(cpus, ebpf)
}

/// Keep the newest status. Where the daemon could not be asked, what was last
/// known stays, but it no longer counts as connected.
pub fn update(status: &mut TarnodStatus, polled: Option<TarnodStatus>)
    ensures
        *final(status) == match polled {
            Some(s) => s,
            None => TarnodStatus { connected: false, ..*old(status) },
        },
{
    match polled {
        Some(s) => {
            *status = s;
        },
        None => {
            status.connected = false;
        },
    }
}

/// Where the daemon listens, unless told otherwise.
pub fn socket_path(told: Option<String>) -> (r: String)
    ensures
        r@ == match told {
            Some(p) => p@,
            None => "/run/tarnod/tarnod.sock"@,
        },
{
    match told {
        Some(p) => p,
        None => {
            let c = text::chars_of("/run/tarnod/tarnod.sock");
            text::string_of(c.as_slice())
        },
    }
}

} // verus!
