//! The aria2 side of downloading: the command line aria2 is launched with, the
//! JSON-RPC calls that are made to it, the HTTP framing of a call, and how a
//! reply is read.
use vstd::prelude::*;
use crate::decimal::{decimal_u64, spec_decimal};
use crate::text::{append, chars_of, find, spec_trim, string_of, trim};

verus! {

/// Lower-case hexadecimal digit.
pub open spec fn is_lower_hex(c: char) -> bool {
    ('0' <= c && c <= '9') || ('a' <= c && c <= 'f')
}

/// The hyphenated lower-case form of a UUID: 36 characters, hyphens at
/// positions 8, 13, 18 and 23, hexadecimal digits elsewhere.
pub open spec fn is_hyphenated_uuid(s: Seq<char>) -> bool {
    &&& s.len() == 36
    &&& forall|i: int|
        0 <= i < 36 ==> if i == 8 || i == 13 || i == 18 || i == 23 {
            #[trigger] s[i] == '-'
        } else {
            is_lower_hex(s[i])
        }
}

/// `uuid::Uuid::new_v4().to_string()`: a random UUID in hyphenated lower-case
/// form. Which UUID comes back is chance; the contract states its form only.
#[verifier::external_body]
fn new_uuid_string() -> (r: String)
    ensures
        is_hyphenated_uuid(r@),
{
    uuid::Uuid::new_v4().to_string()
}

/// A parameter of a JSON-RPC call to aria2.
pub enum RpcParam {
    Str(String),
    Int(i64),
    Array(Vec<RpcParam>),
    /// An object, its members in order.
    Object(Vec<(String, RpcParam)>),
}

/// A JSON-RPC call: the method, its parameters (without the secret token), and
/// the message for a reply that does not hold the call's result.
pub struct RpcCall {
    pub method: String,
    pub params: RpcParam,
    pub fallback_error: String,
}

/// Client side of aria2's RPC: the port it listens on and its secret.
pub struct Aria2Manager {
    port: u16,
    secret: String,
}

fn owned(s: &str) -> (r: String)
    ensures
        r@ == s@,
{
    string_of(&chars_of(s))
}

fn joined(a: &str, b: &str) -> (r: String)
    ensures
        r@ == a@ + b@,
{
    let mut v = chars_of(a);
    let w = chars_of(b);
    append(&mut v, &w);
    string_of(&v)
}

/// The file aria2 keeps its session in.
pub open spec fn spec_session_file(session_dir: Seq<char>) -> Seq<char> {
    session_dir + "/aria2.session"@
}

pub open spec fn clamp_concurrency(max: u16) -> nat {
    if max < 1 {
        1
    } else if max > 10 {
        10
    } else {
        max as nat
    }
}

/// The command line aria2 is started with.
pub open spec fn spec_launch_args(
    port: u16,
    secret: Seq<char>,
    download_dir: Seq<char>,
    session_dir: Seq<char>,
    max_concurrent_downloads: u16,
) -> Seq<Seq<char>> {
    let session_file = spec_session_file(session_dir);
    seq![
        "--enable-rpc"@,
        "--rpc-listen-port="@ + spec_decimal(port as nat),
        "--rpc-listen-all=false"@,
        "--rpc-allow-origin-all=false"@,
        "--rpc-secret="@ + secret,
        "--follow-torrent=mem"@,
        "--bt-metadata-only=false"@,
        "--enable-dht=true"@,
        "--enable-dht6=false"@,
        "--dht-listen-port=6881-6999"@,
        "--dir="@ + download_dir,
        "--file-allocation=none"@,
        "--max-concurrent-downloads="@ + spec_decimal(clamp_concurrency(max_concurrent_downloads)),
        "--max-connection-per-server=16"@,
        "--split=16"@,
        "--min-split-size=1M"@,
        "--disable-ipv6=true"@,
        "--check-certificate=false"@,
        "--quiet=true"@,
        "--no-conf=true"@,
        "--save-session="@ + session_file,
        "--input-file="@ + session_file,
        "--save-session-interval=30"@,
    ]
}

/// The views of a list of strings.
pub open spec fn string_views(v: Seq<String>) -> Seq<Seq<char>> {
    v.map_values(|s: String| s@)
}

/// The parameters of a call as sent: `token:<secret>` first, then the items
/// of an array, or the single other parameter.
pub open spec fn is_authenticated(r: RpcParam, secret: Seq<char>, params: RpcParam) -> bool {
    &&& r matches RpcParam::Array(items)
    &&& items@.len() >= 1
    &&& items@[0] matches RpcParam::Str(t)
    &&& t@ == "token:"@ + secret
    &&& match params {
        RpcParam::Array(ps) => items@.drop_first() == ps@,
        _ => items@.drop_first() == seq![params],
    }
}

/// A list of parameters that are all strings, with the given texts.
pub open spec fn str_params(ps: Seq<RpcParam>, texts: Seq<Seq<char>>) -> bool {
    &&& ps.len() == texts.len()
    &&& forall|i: int| 0 <= i < ps.len() ==> (#[trigger] ps[i] matches RpcParam::Str(s) && s@ == texts[i])
}

/// The parameter `{"dir": dir}`.
pub open spec fn is_dir_object(p: RpcParam, dir: Seq<char>) -> bool {
    &&& p matches RpcParam::Object(members)
    &&& members@.len() == 1
    &&& members@[0].0@ == "dir"@
    &&& members@[0].1 matches RpcParam::Str(d)
    &&& d@ == dir
}

/// The fields that status queries ask aria2 for.
pub open spec fn status_fields() -> Seq<Seq<char>> {
    seq!["status"@, "totalLength"@, "completedLength"@, "downloadSpeed"@, "files"@]
}

/// The fields that list queries ask aria2 for.
pub open spec fn list_fields() -> Seq<Seq<char>> {
    seq!["gid"@, "status"@, "totalLength"@, "completedLength"@, "downloadSpeed"@, "files"@]
}

fn str_list(items: Vec<&str>) -> (r: RpcParam)
    ensures
        r matches RpcParam::Array(ps) && str_params(ps@, items@.map_values(|s: &str| s@)),
{
    let mut ps: Vec<RpcParam> = Vec::new();
    let mut i: usize = 0;
    while i < items.len()
        invariant
            i <= items.len(),
            str_params(ps@, items@.take(i as int).map_values(|s: &str| s@)),
        decreases items.len() - i,
    {
        ps.push(RpcParam::Str(owned(items[i])));
        assert(items@.take(i + 1).map_values(|s: &str| s@) =~= items@.take(i as int).map_values(
            |s: &str| s@,
        ).push(items@[i as int]@));
        i += 1;
    }
    assert(items@.take(items.len() as int) =~= items@);
    RpcParam::Array(ps)
}

fn dir_object(dir: &str) -> (r: RpcParam)
    ensures
        is_dir_object(r, dir@),
{
    let mut members: Vec<(String, RpcParam)> = Vec::new();
    members.push((owned("dir"), RpcParam::Str(owned(dir))));
    RpcParam::Object(members)
}

impl Aria2Manager {
    pub closed spec fn spec_port(&self) -> u16 {
        self.port
    }

    pub closed spec fn spec_secret(&self) -> Seq<char> {
        self.secret@
    }

    /// A client for aria2 on `port`, with a fresh random secret.
    pub fn new(port: u16) -> (r: Aria2Manager)
        ensures
            r.spec_port() == port,
            is_hyphenated_uuid(r.spec_secret()),
    {
        Aria2Manager { port, secret: new_uuid_string() }
    }

    pub fn new_with_secret(port: u16, secret: String) -> (r: Aria2Manager)
        ensures
            r.spec_port() == port,
            r.spec_secret() == secret@,
    {
        Aria2Manager { port, secret }
    }

    pub fn port(&self) -> (r: u16)
        ensures
            r == self.spec_port(),
    {
        self.port
    }

    pub fn set_port(&mut self, port: u16)
        ensures
            final(self).spec_port() == port,
            final(self).spec_secret() == old(self).spec_secret(),
    {
        self.port = port;
    }

    /// A client that talks to the same aria2, with the same port and secret.
    pub fn rpc_client(&self) -> (r: Aria2Manager)
        ensures
            r.spec_port() == self.spec_port(),
            r.spec_secret() == self.spec_secret(),
    {
        Aria2Manager::new_with_secret(self.port, owned(self.secret.as_str()))
    }

    /// Prepares a (re)start of aria2: draws a fresh secret and returns the
    /// command line, with the concurrent-download limit clamped to 1..=10.
    pub fn launch_args(
        &mut self,
        download_dir: &str,
        session_dir: &str,
        max_concurrent_downloads: u16,
    ) -> (r: Vec<String>)
        ensures
            final(self).spec_port() == old(self).spec_port(),
            is_hyphenated_uuid(final(self).spec_secret()),
            string_views(r@) == spec_launch_args(
                final(self).spec_port(),
                final(self).spec_secret(),
                download_dir@,
                session_dir@,
                max_concurrent_downloads,
            ),
    {
        let session_file = joined(session_dir, "/aria2.session");
        self.secret = new_uuid_string();
        let max_concurrent: u16 = if max_concurrent_downloads < 1 {
            1
        } else if max_concurrent_downloads > 10 {
            10
        } else {
            max_concurrent_downloads
        };
        let port_text = string_of(&decimal_u64(self.port as u64));
        let max_text = string_of(&decimal_u64(max_concurrent as u64));
        let mut r: Vec<String> = Vec::new();
        r.push(owned("--enable-rpc"));
        r.push(joined("--rpc-listen-port=", port_text.as_str()));
        r.push(owned("--rpc-listen-all=false"));
        r.push(owned("--rpc-allow-origin-all=false"));
        r.push(joined("--rpc-secret=", self.secret.as_str()));
        r.push(owned("--follow-torrent=mem"));
        r.push(owned("--bt-metadata-only=false"));
        r.push(owned("--enable-dht=true"));
        r.push(owned("--enable-dht6=false"));
        r.push(owned("--dht-listen-port=6881-6999"));
        r.push(joined("--dir=", download_dir));
        r.push(owned("--file-allocation=none"));
        r.push(joined("--max-concurrent-downloads=", max_text.as_str()));
        r.push(owned("--max-connection-per-server=16"));
        r.push(owned("--split=16"));
        r.push(owned("--min-split-size=1M"));
        r.push(owned("--disable-ipv6=true"));
        r.push(owned("--check-certificate=false"));
        r.push(owned("--quiet=true"));
        r.push(owned("--no-conf=true"));
        r.push(joined("--save-session=", session_file.as_str()));
        r.push(joined("--input-file=", session_file.as_str()));
        r.push(owned("--save-session-interval=30"));
        assert(string_views(r@) =~= spec_launch_args(
            self.port,
            self.secret@,
            download_dir@,
            session_dir@,
            max_concurrent_downloads,
        ));
        r
    }

    /// The parameters of a call with the secret token first: `token:<secret>`
    /// followed by the items of an array, or by a single other parameter.
    pub fn authenticated_params(&self, params: RpcParam) -> (r: RpcParam)
        ensures
            is_authenticated(r, self.spec_secret(), params),
    {
        let mut authed: Vec<RpcParam> = Vec::new();
        authed.push(RpcParam::Str(joined("token:", self.secret.as_str())));
        let ghost p = params;
        match params {
            RpcParam::Array(items) => {
                let mut rest = items;
                let ghost all = rest@;
                let mut i: usize = 0;
                let mut tail: Vec<RpcParam> = Vec::new();
                while rest.len() > 0
                    invariant
                        tail@ + rest@ == all,
                    decreases rest.len(),
                {
                    let x = rest.remove(0);
                    tail.push(x);
                    assert(tail@ + rest@ =~= all);
                }
                assert(tail@ =~= all);
                let mut k: usize = 0;
                let ghost first = authed@[0];
                while tail.len() > 0
                    invariant
                        authed@.len() >= 1,
                        authed@[0] == first,
                        authed@.drop_first() + tail@ == all,
                    decreases tail.len(),
                {
                    let x = tail.remove(0);
                    authed.push(x);
                    assert(authed@.drop_first() + tail@ =~= all);
                }
                assert(authed@.drop_first() =~= all);
            },
            other => {
                authed.push(other);
                assert(authed@.drop_first() =~= seq![p]);
            },
        }
        RpcParam::Array(authed)
    }
}


/// The character of a 6-bit value in the standard base64 alphabet (RFC 4648):
/// `A`–`Z`, `a`–`z`, `0`–`9`, `+`, `/`.
pub open spec fn base64_char(v: int) -> char {
    if v < 26 {
        ('A' as int + v) as char
    } else if v < 52 {
        ('a' as int + (v - 26)) as char
    } else if v < 62 {
        ('0' as int + (v - 52)) as char
    } else if v == 62 {
        '+'
    } else {
        '/'
    }
}

/// Standard base64 with padding (RFC 4648): each group of three bytes gives
/// four characters; a last group of one or two bytes is padded with `=`.
pub open spec fn base64_standard(b: Seq<u8>) -> Seq<char>
    decreases b.len(),
{
    if b.len() == 0 {
        Seq::empty()
    } else if b.len() == 1 {
        seq![base64_char(b[0] as int / 4), base64_char((b[0] as int % 4) * 16), '=', '=']
    } else if b.len() == 2 {
        seq![
            base64_char(b[0] as int / 4),
            base64_char((b[0] as int % 4) * 16 + b[1] as int / 16),
            base64_char((b[1] as int % 16) * 4),
            '=',
        ]
    } else {
        seq![
            base64_char(b[0] as int / 4),
            base64_char((b[0] as int % 4) * 16 + b[1] as int / 16),
            base64_char((b[1] as int % 16) * 4 + b[2] as int / 64),
            base64_char(b[2] as int % 64),
        ] + base64_standard(b.skip(3))
    }
}

/// `base64::engine::general_purpose::STANDARD.encode`: the standard alphabet
/// with padding, as `base64_standard` states it.
#[verifier::external_body]
fn base64_encode(bytes: &[u8]) -> (r: String)
    ensures
        r@ == base64_standard(bytes@),
{
    base64::Engine::encode(&base64::engine::general_purpose::STANDARD, bytes)
}

/// The parameters `[[uri]]`.
pub open spec fn is_uri_params(p: RpcParam, uri: Seq<char>) -> bool {
    &&& p matches RpcParam::Array(ps)
    &&& ps@.len() == 1
    &&& ps@[0] matches RpcParam::Array(inner)
    &&& str_params(inner@, seq![uri])
}

/// The parameters `[[uri], {"dir": dir}]`.
pub open spec fn is_uri_dir_params(p: RpcParam, uri: Seq<char>, dir: Seq<char>) -> bool {
    &&& p matches RpcParam::Array(ps)
    &&& ps@.len() == 2
    &&& ps@[0] matches RpcParam::Array(inner)
    &&& str_params(inner@, seq![uri])
    &&& is_dir_object(ps@[1], dir)
}

/// The parameters `[b64, [], {"dir": dir}]`.
pub open spec fn is_torrent_dir_params(p: RpcParam, b64: Seq<char>, dir: Seq<char>) -> bool {
    &&& p matches RpcParam::Array(ps)
    &&& ps@.len() == 3
    &&& ps@[0] matches RpcParam::Str(t)
    &&& t@ == b64
    &&& ps@[1] matches RpcParam::Array(empty)
    &&& empty@.len() == 0
    &&& is_dir_object(ps@[2], dir)
}

fn single_str(s: &str) -> (r: RpcParam)
    ensures
        r matches RpcParam::Array(ps) && str_params(ps@, seq![s@]),
{
    let mut ps: Vec<RpcParam> = Vec::new();
    ps.push(RpcParam::Str(owned(s)));
    assert(str_params(ps@, seq![s@]));
    RpcParam::Array(ps)
}

impl Aria2Manager {
    /// `aria2.addUri` with `[[uri]]`.
    pub fn add_uri_call(uri: &str) -> (r: RpcCall)
        ensures
            r.method@ == "aria2.addUri"@,
            is_uri_params(r.params, uri@),
            r.fallback_error@ == "No GID returned"@,
    {
        let mut ps: Vec<RpcParam> = Vec::new();
        ps.push(single_str(uri));
        RpcCall {
            method: owned("aria2.addUri"),
            params: RpcParam::Array(ps),
            fallback_error: owned("No GID returned"),
        }
    }

    /// `aria2.addUri` with `[[uri], {"dir": dir}]`.
    pub fn add_uri_with_dir_call(uri: &str, dir: &str) -> (r: RpcCall)
        ensures
            r.method@ == "aria2.addUri"@,
            is_uri_dir_params(r.params, uri@, dir@),
            r.fallback_error@ == "No GID returned"@,
    {
        let mut ps: Vec<RpcParam> = Vec::new();
        ps.push(single_str(uri));
        ps.push(dir_object(dir));
        RpcCall {
            method: owned("aria2.addUri"),
            params: RpcParam::Array(ps),
            fallback_error: owned("No GID returned"),
        }
    }

    /// `aria2.addTorrent` with the base64 text of a torrent: `[b64]`.
    pub fn add_torrent_b64_call(b64: &str) -> (r: RpcCall)
        ensures
            r.method@ == "aria2.addTorrent"@,
            r.params matches RpcParam::Array(ps) && str_params(ps@, seq![b64@]),
            r.fallback_error@ == "No GID returned"@,
    {
        RpcCall {
            method: owned("aria2.addTorrent"),
            params: single_str(b64),
            fallback_error: owned("No GID returned"),
        }
    }

    /// `aria2.addTorrent` for the bytes of a torrent file, sent as base64 text:
    /// `[b64]`.
    pub fn add_torrent_bytes_call(bytes: &[u8]) -> (r: RpcCall)
        ensures
            r.method@ == "aria2.addTorrent"@,
            r.params matches RpcParam::Array(ps) && str_params(ps@, seq![base64_standard(bytes@)]),
            r.fallback_error@ == "No GID returned"@,
    {
        let b64 = base64_encode(bytes);
        Self::add_torrent_b64_call(b64.as_str())
    }

    /// `aria2.addTorrent` with `[b64, [], {"dir": dir}]`.
    pub fn add_torrent_b64_with_dir_call(b64: &str, dir: &str) -> (r: RpcCall)
        ensures
            r.method@ == "aria2.addTorrent"@,
            is_torrent_dir_params(r.params, b64@, dir@),
            r.fallback_error@ == "No GID returned"@,
    {
        let mut ps: Vec<RpcParam> = Vec::new();
        ps.push(RpcParam::Str(owned(b64)));
        ps.push(RpcParam::Array(Vec::new()));
        ps.push(dir_object(dir));
        RpcCall {
            method: owned("aria2.addTorrent"),
            params: RpcParam::Array(ps),
            fallback_error: owned("No GID returned"),
        }
    }

    /// `aria2.addTorrent` for the bytes of a torrent file, sent as base64 text.
    pub fn add_torrent_bytes_with_dir_call(bytes: &[u8], dir: &str) -> (r: RpcCall)
        ensures
            r.method@ == "aria2.addTorrent"@,
            is_torrent_dir_params(r.params, base64_standard(bytes@), dir@),
            r.fallback_error@ == "No GID returned"@,
    {
        let b64 = base64_encode(bytes);
        Self::add_torrent_b64_with_dir_call(b64.as_str(), dir)
    }

    /// `aria2.tellStatus` for one download, asking for its status, sizes,
    /// speed and files.
    pub fn tell_status_call(gid: &str) -> (r: RpcCall)
        ensures
            r.method@ == "aria2.tellStatus"@,
            ({
                &&& r.params matches RpcParam::Array(ps)
                &&& ps@.len() == 2
                &&& ps@[0] matches RpcParam::Str(g)
                &&& g@ == gid@
                &&& ps@[1] matches RpcParam::Array(fs)
                &&& str_params(fs@, status_fields())
            }),
    {
        let fields = str_list(
            vec!["status", "totalLength", "completedLength", "downloadSpeed", "files"],
        );
        let mut ps: Vec<RpcParam> = Vec::new();
        ps.push(RpcParam::Str(owned(gid)));
        ps.push(fields);
        RpcCall {
            method: owned("aria2.tellStatus"),
            params: RpcParam::Array(ps),
            fallback_error: owned("Failed to parse status"),
        }
    }

    /// `aria2.tellActive`, asking for the list fields.
    pub fn tell_active_call() -> (r: RpcCall)
        ensures
            r.method@ == "aria2.tellActive"@,
            ({
                &&& r.params matches RpcParam::Array(ps)
                &&& ps@.len() == 1
                &&& ps@[0] matches RpcParam::Array(fs)
                &&& str_params(fs@, list_fields())
            }),
    {
        let fields = str_list(
            vec!["gid", "status", "totalLength", "completedLength", "downloadSpeed", "files"],
        );
        let mut ps: Vec<RpcParam> = Vec::new();
        ps.push(fields);
        RpcCall {
            method: owned("aria2.tellActive"),
            params: RpcParam::Array(ps),
            fallback_error: owned("Failed to parse active download"),
        }
    }

    /// `aria2.tellStopped` from `offset`, at most `num` downloads, asking for
    /// the list fields.
    pub fn tell_stopped_call(offset: i32, num: i32) -> (r: RpcCall)
        ensures
            r.method@ == "aria2.tellStopped"@,
            ({
                &&& r.params matches RpcParam::Array(ps)
                &&& ps@.len() == 3
                &&& ps@[0] == RpcParam::Int(offset as i64)
                &&& ps@[1] == RpcParam::Int(num as i64)
                &&& ps@[2] matches RpcParam::Array(fs)
                &&& str_params(fs@, list_fields())
            }),
    {
        let fields = str_list(
            vec!["gid", "status", "totalLength", "completedLength", "downloadSpeed", "files"],
        );
        let mut ps: Vec<RpcParam> = Vec::new();
        ps.push(RpcParam::Int(offset as i64));
        ps.push(RpcParam::Int(num as i64));
        ps.push(fields);
        RpcCall {
            method: owned("aria2.tellStopped"),
            params: RpcParam::Array(ps),
            fallback_error: owned("Failed to parse stopped download"),
        }
    }

    fn gid_action_call(method: &str, gid: &str, error: &str) -> (r: RpcCall)
        ensures
            r.method@ == method@,
            r.params matches RpcParam::Array(ps) && str_params(ps@, seq![gid@]),
            r.fallback_error@ == error@,
    {
        RpcCall { method: owned(method), params: single_str(gid), fallback_error: owned(error) }
    }

    /// `aria2.pause` of one download.
    pub fn pause_call(gid: &str) -> (r: RpcCall)
        ensures
            r.method@ == "aria2.pause"@,
            r.params matches RpcParam::Array(ps) && str_params(ps@, seq![gid@]),
            r.fallback_error@ == "Failed to pause"@,
    {
        Self::gid_action_call("aria2.pause", gid, "Failed to pause")
    }

    /// `aria2.unpause` of one download.
    pub fn unpause_call(gid: &str) -> (r: RpcCall)
        ensures
            r.method@ == "aria2.unpause"@,
            r.params matches RpcParam::Array(ps) && str_params(ps@, seq![gid@]),
            r.fallback_error@ == "Failed to unpause"@,
    {
        Self::gid_action_call("aria2.unpause", gid, "Failed to unpause")
    }

    /// `aria2.remove` of one download.
    pub fn remove_call(gid: &str) -> (r: RpcCall)
        ensures
            r.method@ == "aria2.remove"@,
            r.params matches RpcParam::Array(ps) && str_params(ps@, seq![gid@]),
            r.fallback_error@ == "Failed to remove"@,
    {
        Self::gid_action_call("aria2.remove", gid, "Failed to remove")
    }

    /// `aria2.forceRemove` of one download.
    pub fn force_remove_call(gid: &str) -> (r: RpcCall)
        ensures
            r.method@ == "aria2.forceRemove"@,
            r.params matches RpcParam::Array(ps) && str_params(ps@, seq![gid@]),
            r.fallback_error@ == "Failed to force remove"@,
    {
        Self::gid_action_call("aria2.forceRemove", gid, "Failed to force remove")
    }

    /// `aria2.removeDownloadResult` of one download.
    pub fn remove_download_result_call(gid: &str) -> (r: RpcCall)
        ensures
            r.method@ == "aria2.removeDownloadResult"@,
            r.params matches RpcParam::Array(ps) && str_params(ps@, seq![gid@]),
            r.fallback_error@ == "Failed to remove download result"@,
    {
        Self::gid_action_call(
            "aria2.removeDownloadResult",
            gid,
            "Failed to remove download result",
        )
    }
}


/// The HTTP request that carries a JSON-RPC body to aria2 on `port`; the
/// content length counts the body's UTF-8 bytes.
pub open spec fn spec_rpc_request(port: u16, body: Seq<char>) -> Seq<char> {
    "POST /jsonrpc HTTP/1.1\r\nHost: 127.0.0.1:"@ + spec_decimal(port as nat)
        + "\r\nContent-Type: application/json\r\nContent-Length: "@ + spec_decimal(
        (vstd::utf8::encode_utf8(body).len() as usize) as nat,
    ) + "\r\nConnection: close\r\n\r\n"@ + body
}

/// Frames a JSON-RPC body as an HTTP request to aria2.
pub fn rpc_request(port: u16, body: &str) -> (r: String)
    ensures
        r@ == spec_rpc_request(port, body@),
{
    let mut v = chars_of("POST /jsonrpc HTTP/1.1\r\nHost: 127.0.0.1:");
    append(&mut v, &decimal_u64(port as u64));
    append(&mut v, &chars_of("\r\nContent-Type: application/json\r\nContent-Length: "));
    let n: usize = body.len();
    append(&mut v, &decimal_u64(n as u64));
    append(&mut v, &chars_of("\r\nConnection: close\r\n\r\n"));
    append(&mut v, &chars_of(body));
    assert(v@ =~= spec_rpc_request(port, body@));
    string_of(&v)
}

/// The blank line between an HTTP response's head and its body.
pub open spec fn header_end() -> Seq<char> {
    "\r\n\r\n"@
}

/// The JSON text of aria2's HTTP response: the body after the first blank
/// line, trimmed; an error when there is no blank line or the body is blank.
pub open spec fn spec_rpc_json(response: Seq<char>) -> Result<Seq<char>, Seq<char>> {
    match crate::text::find_from(response, header_end(), 0) {
        None => Err("aria2 returned an invalid HTTP response"@),
        Some(p) => {
            let j = spec_trim(response.subrange(p + 4, response.len() as int));
            if j.len() == 0 {
                Err("aria2 returned an empty response"@)
            } else {
                Ok(j)
            }
        },
    }
}

pub fn rpc_json(response: &str) -> (r: Result<String, String>)
    ensures
        match r {
            Ok(j) => spec_rpc_json(response@) == Ok::<Seq<char>, Seq<char>>(j@),
            Err(e) => spec_rpc_json(response@) == Err::<Seq<char>, Seq<char>>(e@),
        },
{
    let v = chars_of(response);
    let sep = chars_of("\r\n\r\n");
    proof {
        reveal_strlit("\r\n\r\n");
        crate::text::lemma_find_from(v@, sep@, 0);
        assert(sep@.len() == 4);
    }
    match find(&v, &sep) {
        None => Err(owned("aria2 returned an invalid HTTP response")),
        Some(p) => {
            assert(crate::text::find_from(v@, sep@, 0) == Some(p as int));
            assert(crate::text::occurs_at(v@, sep@, p as int));
            assert(sep@.len() == 4);
            let n = v.len();
            assert(p + 4 <= n);
            let body = crate::text::slice_range(&v, p + 4, n);
            let j = trim(&body);
            if j.len() == 0 {
                Err(owned("aria2 returned an empty response"))
            } else {
                Ok(string_of(&j))
            }
        },
    }
}

/// What `rpc_string_result` reads of a JSON-RPC reply: the `error` member as
/// JSON text, if there is one, and the `result` member, if it is a string.
pub struct RpcReply {
    pub error: Option<String>,
    pub result: Option<String>,
}

/// The string result of a call: an error when aria2 reports one, the result
/// when it is a string, else the call's fallback error.
pub fn rpc_string_result(reply: RpcReply, fallback_error: &str) -> (r: Result<String, String>)
    ensures
        match reply.error {
            Some(e) => r matches Err(m) && m@ == "aria2 RPC error: "@ + e@,
            None => match reply.result {
                Some(s) => r == Ok::<String, String>(s),
                None => r matches Err(m) && m@ == fallback_error@,
            },
        },
{
    match reply.error {
        Some(e) => Err(joined("aria2 RPC error: ", e.as_str())),
        None => match reply.result {
            Some(s) => Ok(s),
            None => Err(owned(fallback_error)),
        },
    }
}

/// One file of a download, as aria2 reports it.
pub struct Aria2File {
    pub path: String,
    pub length: String,
    pub completed_length: String,
    pub selected: String,
    /// The file's URIs, each as JSON text.
    pub uris: Vec<String>,
}

/// A download, as aria2 reports it; sizes and speed are decimal text.
pub struct DownloadStatus {
    pub gid: String,
    pub status: String,
    pub total_length: String,
    pub completed_length: String,
    pub download_speed: String,
    pub files: Vec<Aria2File>,
}


proof fn lemma_find_first(s: Seq<char>, p: Seq<char>, i: int, k: int)
    requires
        0 <= i <= k <= s.len(),
        crate::text::occurs_at(s, p, k),
        forall|m: int| i <= m < k ==> !crate::text::occurs_at(s, p, m),
    ensures
        crate::text::find_from(s, p, i) == Some(k),
    decreases k - i,
{
    if i < k {
        lemma_find_first(s, p, i + 1, k);
    }
}

/// Reading aria2's reply gives back the body it framed: for a response whose
/// head holds no blank line, the JSON text is the body, trimmed.
pub proof fn lemma_rpc_json_reads_framed_body(head: Seq<char>, body: Seq<char>)
    requires
        !crate::text::spec_contains(head + "\r\n\r"@, header_end()),
    ensures
        spec_rpc_json(head + header_end() + body) == (if spec_trim(body).len() == 0 {
            Err::<Seq<char>, Seq<char>>("aria2 returned an empty response"@)
        } else {
            Ok::<Seq<char>, Seq<char>>(spec_trim(body))
        }),
{
    reveal_strlit("\r\n\r\n");
    reveal_strlit("\r\n\r");
    let sep = header_end();
    let full = head + sep + body;
    let h3 = head + "\r\n\r"@;
    assert forall|m: int| 0 <= m < head.len() implies !crate::text::occurs_at(full, sep, m) by {
        if crate::text::occurs_at(full, sep, m) {
            assert(full.subrange(m, m + 4) =~= h3.subrange(m, m + 4));
            assert(crate::text::occurs_at(h3, sep, m));
        }
    }
    assert(full.subrange(head.len() as int, head.len() + 4int) =~= sep);
    lemma_find_first(full, sep, 0, head.len() as int);
    assert(full.subrange(head.len() + 4int, full.len() as int) =~= body);
}

/// Calls carry the secret aria2 was started with: the manager whose launch
/// arguments hold `--rpc-secret=<s>` and `--rpc-listen-port=<port>` sends
/// `token:<s>` first in every call, for the same `s`.
pub proof fn lemma_calls_carry_launch_secret(
    m: Aria2Manager,
    download_dir: Seq<char>,
    session_dir: Seq<char>,
    max_concurrent_downloads: u16,
    params: RpcParam,
    sent: RpcParam,
)
    requires
        is_authenticated(sent, m.spec_secret(), params),
    ensures
        ({
            let args = spec_launch_args(
                m.spec_port(),
                m.spec_secret(),
                download_dir,
                session_dir,
                max_concurrent_downloads,
            );
            &&& args[1] == "--rpc-listen-port="@ + spec_decimal(m.spec_port() as nat)
            &&& args[4].take(13) == "--rpc-secret="@
            &&& sent matches RpcParam::Array(items) && items@[0] matches RpcParam::Str(t) && t@.take(
                6,
            ) == "token:"@ && t@.skip(6) == args[4].skip(13)
        }),
{
    reveal_strlit("--rpc-secret=");
    reveal_strlit("token:");
    let args = spec_launch_args(
        m.spec_port(),
        m.spec_secret(),
        download_dir,
        session_dir,
        max_concurrent_downloads,
    );
    assert(args[4] == "--rpc-secret="@ + m.spec_secret());
    assert(args[4].take(13) =~= "--rpc-secret="@);
    assert(args[4].skip(13) =~= m.spec_secret());
    if let RpcParam::Array(items) = sent {
        if let RpcParam::Str(t) = items@[0] {
            assert(t@.take(6) =~= "token:"@);
            assert(t@.skip(6) =~= m.spec_secret());
        }
    }
}

/// The list queries (`tellActive`, `tellStopped`) ask aria2 for exactly what
/// a download's record is updated from: in this order its GID, its state, its
/// total and completed sizes, its speed and its files.
pub proof fn lemma_list_queries_ask_for_progress(fields: Seq<RpcParam>)
    requires
        str_params(fields, list_fields()),
    ensures
        fields.len() == 6,
        fields[0] matches RpcParam::Str(f) && f@ == "gid"@,
        fields[1] matches RpcParam::Str(f) && f@ == "status"@,
        fields[2] matches RpcParam::Str(f) && f@ == "totalLength"@,
        fields[3] matches RpcParam::Str(f) && f@ == "completedLength"@,
        fields[4] matches RpcParam::Str(f) && f@ == "downloadSpeed"@,
        fields[5] matches RpcParam::Str(f) && f@ == "files"@,
{
    assert(fields[0] matches RpcParam::Str(_));
    assert(fields[1] matches RpcParam::Str(_));
    assert(fields[2] matches RpcParam::Str(_));
    assert(fields[3] matches RpcParam::Str(_));
    assert(fields[4] matches RpcParam::Str(_));
    assert(fields[5] matches RpcParam::Str(_));
}

/// The status query (`tellStatus`) asks aria2 for a download's state, its
/// total and completed sizes, its speed and its files, in this order.
pub proof fn lemma_status_query_asks_for_progress(fields: Seq<RpcParam>)
    requires
        str_params(fields, status_fields()),
    ensures
        fields.len() == 5,
        fields[0] matches RpcParam::Str(f) && f@ == "status"@,
        fields[1] matches RpcParam::Str(f) && f@ == "totalLength"@,
        fields[2] matches RpcParam::Str(f) && f@ == "completedLength"@,
        fields[3] matches RpcParam::Str(f) && f@ == "downloadSpeed"@,
        fields[4] matches RpcParam::Str(f) && f@ == "files"@,
{
    assert(fields[0] matches RpcParam::Str(_));
    assert(fields[1] matches RpcParam::Str(_));
    assert(fields[2] matches RpcParam::Str(_));
    assert(fields[3] matches RpcParam::Str(_));
    assert(fields[4] matches RpcParam::Str(_));
}

/// aria2 runs between one and ten downloads at once: the limit it is
/// launched with is the setting when that lies in 1..=10, else the nearer end.
pub proof fn lemma_concurrency_limit(max_concurrent_downloads: u16)
    ensures
        1 <= clamp_concurrency(max_concurrent_downloads) <= 10,
        1 <= max_concurrent_downloads <= 10 ==> clamp_concurrency(max_concurrent_downloads)
            == max_concurrent_downloads,
        max_concurrent_downloads < 1 ==> clamp_concurrency(max_concurrent_downloads) == 1,
        max_concurrent_downloads > 10 ==> clamp_concurrency(max_concurrent_downloads) == 10,
{
}

} // verus!
