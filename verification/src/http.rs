//! The HTTP/JSON API's own rules that do not touch a socket: limits and
//! defaults, the errors of the server, the mobile provisioning link, which
//! callers a development listener trusts, and the CORS policy.

use vstd::prelude::*;
use crate::text::{
    chars_of, has_prefix, is_ascii_alnum_byte, owned, push_str, str_equals, strip_prefix,
    strip_prefix_vec, texts, contains_text, starts_with, split_chars, split_on,
    lemma_split_on_nonempty, split_once, split_once_vec, string_of, ascii_lowercase, trimmed,
    split_str, ws_tokens, decimal, parse_unsigned, split_text, split_whitespace,
    lemma_split_str_nonempty, trim_bounds, slice_vec, to_ascii_lowercase, substring,
    parse_unsigned_chars, push_decimal, find, find_slice,
};
use crate::routes::{Route, route_matches, route_request,
};

verus! {

pub const MAX_REQUEST_BODY: usize = 4194304;

pub const MAX_REQUEST_HEADER_BYTES: usize = 16384;

pub const MAX_REQUEST_HEADER_COUNT: usize = 100;

pub const DEFAULT_READ_TIMEOUT_SECS: u64 = 10;

pub const DEFAULT_WRITE_TIMEOUT_SECS: u64 = 10;

pub const DEFAULT_REQUEST_DEADLINE_SECS: u64 = 30;

pub const DEFAULT_MAX_CONCURRENT_CONNECTIONS: usize = 64;

pub const SYSTEM_WORKSPACE_ID: &'static str = "system";

pub const SYSTEM_ADMIN_SUBJECT: &'static str = "system_admin";

pub const DEFAULT_WORKSPACE_ID: &'static str = "local-default";

pub const SERVER_DISCOVERY_SCHEMA_VERSION: &'static str = "1.0.0";

pub const DEFAULT_IDEMPOTENCY_RETENTION_SECONDS: u64 = 86400;

pub const MIN_IDEMPOTENCY_RETENTION_SECONDS: u64 = 60;

pub const CORS_ALLOW_METHODS: &'static str = "GET, POST, OPTIONS";

pub const CORS_ALLOW_HEADERS: &'static str =
    "Authorization, Content-Type, Idempotency-Key, Last-Event-ID, Prefer";

pub const CORS_MAX_AGE_SECONDS: &'static str = "600";

/// Errors that can occur while serving the HTTP/JSON API.
#[derive(Debug)]
pub enum ServeError {
    BindFailed(String),
    AcceptFailed(String),
}

impl ServeError {
    pub open spec fn text(&self) -> Seq<char> {
        match self {
            ServeError::BindFailed(msg) => "failed to bind HTTP/JSON API server: "@ + msg@,
            ServeError::AcceptFailed(msg) => "HTTP/JSON API server accept loop failed: "@ + msg@,
        }
    }

    /// The human-readable description of the error, keeping the bind or
    /// accept context.
    pub fn message(&self) -> (s: String)
        ensures
            s@ == self.text(),
    {
        match self {
            ServeError::BindFailed(msg) => {
                let mut s = owned("failed to bind HTTP/JSON API server: ");
                push_str(&mut s, msg.as_str());
                s
            },
            ServeError::AcceptFailed(msg) => {
                let mut s = owned("HTTP/JSON API server accept loop failed: ");
                push_str(&mut s, msg.as_str());
                s
            },
        }
    }
}

/// The retention of recorded idempotent responses: one day by default, and
/// never less than a minute.
pub open spec fn idempotency_retention(value: Option<u64>) -> u64 {
    let v = match value {
        Some(v) => v,
        None => DEFAULT_IDEMPOTENCY_RETENTION_SECONDS,
    };
    if v < MIN_IDEMPOTENCY_RETENTION_SECONDS {
        MIN_IDEMPOTENCY_RETENTION_SECONDS
    } else {
        v
    }
}

pub fn configured_idempotency_retention(value: Option<u64>) -> (r: u64)
    ensures
        r == idempotency_retention(value),
{
    let v = match value {
        Some(v) => v,
        None => DEFAULT_IDEMPOTENCY_RETENTION_SECONDS,
    };
    if v < MIN_IDEMPOTENCY_RETENTION_SECONDS {
        MIN_IDEMPOTENCY_RETENTION_SECONDS
    } else {
        v
    }
}

/// A recorded idempotent response stays while it is at most `retention`
/// seconds old (the retention floored to a minute); a record stamped in the
/// future counts as new.
pub open spec fn idempotency_record_kept(now: u64, stored_at: u64, retention: u64) -> bool {
    let age: int = if now >= stored_at {
        now - stored_at
    } else {
        0
    };
    age <= idempotency_retention(Some(retention))
}

pub fn keep_idempotency_record(now: u64, stored_at: u64, retention: u64) -> (b: bool)
    ensures
        b == idempotency_record_kept(now, stored_at, retention),
{
    now.saturating_sub(stored_at) <= configured_idempotency_retention(Some(retention))
}

/// Upper-case hexadecimal digit.
pub open spec fn upper_hex(d: nat) -> char {
    if d < 10 {
        (48 + d) as char
    } else {
        (55 + d) as char
    }
}

/// Bytes a query value keeps as they are.
pub open spec fn unreserved(b: u8) -> bool {
    is_ascii_alnum_byte(b) || b == 45 || b == 46 || b == 95 || b == 126
}

pub open spec fn encode_query_byte(b: u8) -> Seq<char> {
    if unreserved(b) {
        seq![b as char]
    } else {
        seq!['%', upper_hex((b / 16) as nat), upper_hex((b % 16) as nat)]
    }
}

/// Percent-encoding of the UTF-8 bytes of a query value.
pub open spec fn percent_encoded(bytes: Seq<u8>) -> Seq<char>
    decreases bytes.len(),
{
    if bytes.len() == 0 {
        Seq::empty()
    } else {
        percent_encoded(bytes.drop_last()) + encode_query_byte(bytes.last())
    }
}

fn upper_hex_digit(d: u8) -> (c: char)
    requires
        d < 16,
    ensures
        c == upper_hex(d as nat),
{
    if d < 10 {
        (48 + d) as char
    } else {
        (55 + d) as char
    }
}

/// Percent-encodes a query value byte by byte, keeping ASCII letters,
/// digits and `-._~`.
pub fn percent_encode_query_value(value: &str) -> (s: String)
    ensures
        s@ == percent_encoded(encode_utf8_text(value@)),
{
    let bytes = value.as_bytes();
    let n = bytes.len();
    let mut s = String::new();
    let mut i: usize = 0;
    while i < n
        invariant
            n == bytes@.len(),
            bytes@ == encode_utf8_text(value@),
            i <= n,
            s@ == percent_encoded(bytes@.take(i as int)),
        decreases n - i,
    {
        let b = bytes[i];
        proof {
            assert(bytes@.take(i + 1).drop_last() =~= bytes@.take(i as int));
            assert(bytes@.take(i + 1).last() == b);
        }
        let ghost before = s@;
        let keep = (97 <= b && b <= 122) || (65 <= b && b <= 90) || (48 <= b && b <= 57) || b
            == 45 || b == 46 || b == 95 || b == 126;
        if keep {
            s.push(b as char);
            assert(s@ =~= before + encode_query_byte(b));
        } else {
            s.push('%');
            s.push(upper_hex_digit(b / 16));
            s.push(upper_hex_digit(b % 16));
            assert(s@ =~= before + encode_query_byte(b));
        }
        i = i + 1;
    }
    assert(bytes@.take(n as int) =~= bytes@);
    s
}

pub open spec fn mobile_connect_link(base_url: Seq<char>, workspace: Seq<char>, mode: Seq<char>) -> Seq<char> {
    "traverse://connect?base_url="@ + percent_encoded(encode_utf8_text(base_url))
        + "&workspace_default="@ + percent_encoded(encode_utf8_text(workspace)) + "&auth_mode="@
        + percent_encoded(encode_utf8_text(mode))
}

pub open spec fn encode_utf8_text(s: Seq<char>) -> Seq<u8> {
    vstd::utf8::encode_utf8(s)
}

/// The `traverse://connect` link a mobile client scans to reach this server.
pub fn mobile_connect_url(base_url: &str, workspace_default: &str, auth_mode: &str) -> (s: String)
    ensures
        s@ == mobile_connect_link(base_url@, workspace_default@, auth_mode@),
{
    let mut s = owned("traverse://connect?base_url=");
    let a = percent_encode_query_value(base_url);
    push_str(&mut s, a.as_str());
    push_str(&mut s, "&workspace_default=");
    let b = percent_encode_query_value(workspace_default);
    push_str(&mut s, b.as_str());
    push_str(&mut s, "&auth_mode=");
    let c = percent_encode_query_value(auth_mode);
    push_str(&mut s, c.as_str());
    s
}

} // verus!

verus! {

/// The address of the connected peer.
#[derive(Clone, Copy, Debug, PartialEq, Eq, Structural)]
pub enum PeerIp {
    V4(u8, u8, u8, u8),
    V6(u16, u16, u16, u16, u16, u16, u16, u16),
}

/// `127.0.0.0/8`, or `::1`.
pub open spec fn loopback_peer(ip: PeerIp) -> bool {
    match ip {
        PeerIp::V4(a, _, _, _) => a == 127,
        PeerIp::V6(a, b, c, d, e, f, g, h) => a == 0 && b == 0 && c == 0 && d == 0 && e == 0
            && f == 0 && g == 0 && h == 1,
    }
}

/// The private IPv4 ranges of RFC 1918: `10/8`, `172.16/12`, `192.168/16`.
pub open spec fn rfc1918_peer(ip: PeerIp) -> bool {
    match ip {
        PeerIp::V4(a, b, _, _) => a == 10 || (a == 172 && 16 <= b <= 31) || (a == 192 && b == 168),
        PeerIp::V6(..) => false,
    }
}

pub fn is_loopback(ip: PeerIp) -> (b: bool)
    ensures
        b == loopback_peer(ip),
{
    match ip {
        PeerIp::V4(a, _, _, _) => a == 127,
        PeerIp::V6(a, b, c, d, e, f, g, h) => a == 0 && b == 0 && c == 0 && d == 0 && e == 0 && f
            == 0 && g == 0 && h == 1,
    }
}

pub fn is_rfc1918_private_ip(ip: PeerIp) -> (b: bool)
    ensures
        b == rfc1918_peer(ip),
{
    match ip {
        PeerIp::V4(a, b, _, _) => a == 10 || (a == 172 && 16 <= b && b <= 31) || (a == 192 && b
            == 168),
        PeerIp::V6(..) => false,
    }
}

/// A development listener trusts loopback callers, and `dev-any` also
/// private-network ones; no other auth mode trusts a caller by address.
pub open spec fn trusted_dev_caller(ip: PeerIp, auth_mode: Seq<char>) -> bool {
    if auth_mode == "dev-loopback"@ {
        loopback_peer(ip)
    } else if auth_mode == "dev-any"@ {
        loopback_peer(ip) || rfc1918_peer(ip)
    } else {
        false
    }
}

pub fn is_trusted_dev_caller(ip: PeerIp, auth_mode: &str) -> (b: bool)
    ensures
        b == trusted_dev_caller(ip, auth_mode@),
{
    if str_equals(auth_mode, "dev-loopback") {
        is_loopback(ip)
    } else if str_equals(auth_mode, "dev-any") {
        is_loopback(ip) || is_rfc1918_private_ip(ip)
    } else {
        false
    }
}

pub open spec fn dev_auth_mode(auth_mode: Seq<char>) -> bool {
    auth_mode == "dev-loopback"@ || auth_mode == "dev-any"@
}

/// The development auth modes, `dev-loopback` and `dev-any`.
pub fn is_dev_auth_mode(auth_mode: &str) -> (b: bool)
    ensures
        b == dev_auth_mode(auth_mode@),
{
    str_equals(auth_mode, "dev-loopback") || str_equals(auth_mode, "dev-any")
}

/// The auth mode a listener runs: `dev-any` when asked for, otherwise
/// `dev-loopback` on a loopback address and `bearer-required` elsewhere.
pub open spec fn listener_auth_mode(requested: Option<Seq<char>>, bound_to_loopback: bool) -> Seq<char> {
    if requested == Some("dev-any"@) {
        "dev-any"@
    } else if bound_to_loopback {
        "dev-loopback"@
    } else {
        "bearer-required"@
    }
}

pub fn serve_auth_mode(requested: Option<&str>, bound_to_loopback: bool) -> (m: &'static str)
    ensures
        m@ == listener_auth_mode(crate::routes::opt_str_view(requested), bound_to_loopback),
        dev_auth_mode(m@) == (crate::routes::opt_str_view(requested) == Some("dev-any"@) || bound_to_loopback),
{
    proof {
        reveal_strlit("dev-any");
        reveal_strlit("dev-loopback");
        reveal_strlit("bearer-required");
    }
    let asked_any = match requested {
        Some(r) => str_equals(r, "dev-any"),
        None => false,
    };
    if asked_any {
        "dev-any"
    } else if bound_to_loopback {
        "dev-loopback"
    } else {
        "bearer-required"
    }
}

/// How strictly the runtime treats artifacts.
#[derive(Clone, Copy, Debug, PartialEq, Eq, Structural)]
pub enum RuntimeSecurityPosture {
    /// Local unsigned example artifacts run.
    Development,
    /// Unsigned artifacts are rejected.
    Production,
}

/// The dev auth modes run the development posture; every other mode, the
/// network-facing `bearer-required` among them, the production posture.
pub fn runtime_security_for_auth_mode(auth_mode: &str) -> (p: RuntimeSecurityPosture)
    ensures
        p == (if dev_auth_mode(auth_mode@) {
            RuntimeSecurityPosture::Development
        } else {
            RuntimeSecurityPosture::Production
        }),
{
    if is_dev_auth_mode(auth_mode) {
        RuntimeSecurityPosture::Development
    } else {
        RuntimeSecurityPosture::Production
    }
}

/// A `dev-any` listener answers a caller that is neither loopback nor on a
/// private network with 403 before reading anything else.
pub fn rejects_public_caller(auth_mode: &str, trusted_dev_caller: bool) -> (b: bool)
    ensures
        b == (auth_mode@ == "dev-any"@ && !trusted_dev_caller),
{
    str_equals(auth_mode, "dev-any") && !trusted_dev_caller
}

/// The scheme-less remainder of an `http://` or `https://` origin.
pub open spec fn origin_rest(origin: Seq<char>) -> Option<Seq<char>> {
    match strip_prefix(origin, "http://"@) {
        Some(r) => Some(r),
        None => strip_prefix(origin, "https://"@),
    }
}

/// A browser origin on this machine: `localhost`, `127.0.0.1` or `[::1]`,
/// over http or https, with any port.
pub open spec fn loopback_browser_origin(origin: Seq<char>) -> bool {
    match origin_rest(origin) {
        None => false,
        Some(rest) => match strip_prefix(rest, "[::1]"@) {
            Some(after) => after.len() == 0 || after[0] == ':',
            None => {
                let host = split_on(rest, ':')[0];
                host == "localhost"@ || host == "127.0.0.1"@ || host == "::1"@
            },
        },
    }
}

pub fn is_loopback_browser_origin(origin: &str) -> (b: bool)
    ensures
        b == loopback_browser_origin(origin@),
{
    let o = chars_of(origin);
    let http = chars_of("http://");
    let https = chars_of("https://");
    let rest = match strip_prefix_vec(o.as_slice(), http.as_slice()) {
        Some(r) => r,
        None => match strip_prefix_vec(o.as_slice(), https.as_slice()) {
            Some(r) => r,
            None => {
                return false;
            },
        },
    };
    let bracket = chars_of("[::1]");
    match strip_prefix_vec(rest.as_slice(), bracket.as_slice()) {
        Some(after) => after.len() == 0 || after[0] == ':',
        None => {
            let parts = split_chars(rest.as_slice(), ':');
            proof {
                lemma_split_on_nonempty(rest@, ':');
            }
            let host = crate::text::string_of(parts[0].as_slice());
            str_equals(host.as_str(), "localhost") || str_equals(host.as_str(), "127.0.0.1")
                || str_equals(host.as_str(), "::1")
        },
    }
}

pub open spec fn cors_origin_allowed(origin: Seq<char>, configured: Seq<String>, loopback: bool) -> bool {
    texts(configured).contains(origin) || (loopback && loopback_browser_origin(origin))
}

/// An origin is allowed when it is configured exactly, or, for a trusted
/// local caller, when it is a loopback browser origin.
pub fn is_cors_origin_allowed(origin: &str, configured_origins: &Vec<String>, loopback: bool) -> (b: bool)
    ensures
        b == cors_origin_allowed(origin@, configured_origins@, loopback),
{
    if contains_text(configured_origins, origin) {
        return true;
    }
    loopback && is_loopback_browser_origin(origin)
}

/// One extra response header.
#[derive(Debug, PartialEq, Eq)]
pub struct HeaderLine {
    pub name: String,
    pub value: String,
}

impl View for HeaderLine {
    type V = (Seq<char>, Seq<char>);

    open spec fn view(&self) -> (Seq<char>, Seq<char>) {
        (self.name@, self.value@)
    }
}

pub open spec fn header_line_views(v: Seq<HeaderLine>) -> Seq<(Seq<char>, Seq<char>)> {
    v.map_values(|h: HeaderLine| h@)
}

/// The CORS headers answered to an allowed origin.
pub open spec fn cors_headers_for(origin: Seq<char>) -> Seq<(Seq<char>, Seq<char>)> {
    seq![
        ("Access-Control-Allow-Origin"@, origin),
        ("Vary"@, "Origin"@),
        ("Access-Control-Allow-Methods"@, CORS_ALLOW_METHODS@),
        ("Access-Control-Allow-Headers"@, CORS_ALLOW_HEADERS@),
        ("Access-Control-Max-Age"@, CORS_MAX_AGE_SECONDS@),
    ]
}

fn header_line(name: &str, value: &str) -> (h: HeaderLine)
    ensures
        h@ == (name@, value@),
{
    HeaderLine { name: owned(name), value: owned(value) }
}

/// No headers for a request without `Origin`; the CORS headers for an
/// allowed origin; an error for any other origin.
pub fn cors_response_headers(origin: Option<&str>, configured_origins: &Vec<String>, loopback: bool) -> (r: Result<Vec<HeaderLine>, String>)
    ensures
        match origin {
            None => r matches Ok(h) && h@.len() == 0,
            Some(o) => if cors_origin_allowed(o@, configured_origins@, loopback) {
                r matches Ok(h) && header_line_views(h@) == cors_headers_for(o@)
            } else {
                r matches Err(m) && m@ == "CORS origin is not allowed"@
            },
        },
{
    let Some(origin) = origin else {
        return Ok(Vec::new());
    };
    if !is_cors_origin_allowed(origin, configured_origins, loopback) {
        return Err(owned("CORS origin is not allowed"));
    }
    let mut h: Vec<HeaderLine> = Vec::new();
    h.push(header_line("Access-Control-Allow-Origin", origin));
    h.push(header_line("Vary", "Origin"));
    h.push(header_line("Access-Control-Allow-Methods", CORS_ALLOW_METHODS));
    h.push(header_line("Access-Control-Allow-Headers", CORS_ALLOW_HEADERS));
    h.push(header_line("Access-Control-Max-Age", CORS_MAX_AGE_SECONDS));
    assert(header_line_views(h@) =~= cors_headers_for(origin@));
    Ok(h)
}

} // verus!

verus! {

/// The views of a list of name/value pairs.
pub open spec fn pair_views(v: Seq<(String, String)>) -> Seq<(Seq<char>, Seq<char>)> {
    v.map_values(|p: (String, String)| (p.0@, p.1@))
}

/// The value last stored under `k`.
pub open spec fn lookup(p: Seq<(Seq<char>, Seq<char>)>, k: Seq<char>) -> Option<Seq<char>>
    decreases p.len(),
{
    if p.len() == 0 {
        None
    } else if p.last().0 == k {
        Some(p.last().1)
    } else {
        lookup(p.drop_last(), k)
    }
}

/// The index of the last pair named `k`, or -1.
pub open spec fn key_index(p: Seq<(Seq<char>, Seq<char>)>, k: Seq<char>) -> int
    decreases p.len(),
{
    if p.len() == 0 {
        -1
    } else if p.last().0 == k {
        p.len() - 1
    } else {
        key_index(p.drop_last(), k)
    }
}

/// A map insertion: the value of an existing name is replaced in place, a
/// new name goes at the end.
pub open spec fn upsert_pair(p: Seq<(Seq<char>, Seq<char>)>, k: Seq<char>, v: Seq<char>) -> Seq<(Seq<char>, Seq<char>)> {
    let i = key_index(p, k);
    if i >= 0 {
        p.update(i, (k, v))
    } else {
        p.push((k, v))
    }
}

pub open spec fn distinct_keys(p: Seq<(Seq<char>, Seq<char>)>) -> bool {
    forall|i: int, j: int| 0 <= i < j < p.len() ==> #[trigger] p[i].0 != #[trigger] p[j].0
}

proof fn lemma_key_index(p: Seq<(Seq<char>, Seq<char>)>, k: Seq<char>)
    ensures
        -1 <= key_index(p, k) < p.len(),
        key_index(p, k) >= 0 ==> p[key_index(p, k)].0 == k,
        key_index(p, k) == -1 ==> forall|j: int| 0 <= j < p.len() ==> #[trigger] p[j].0 != k,
        key_index(p, k) >= 0 ==> lookup(p, k) == Some(p[key_index(p, k)].1),
        key_index(p, k) == -1 ==> lookup(p, k) is None,
    decreases p.len(),
{
    if p.len() > 0 && p.last().0 != k {
        lemma_key_index(p.drop_last(), k);
        if key_index(p, k) == -1 {
            assert forall|j: int| 0 <= j < p.len() implies #[trigger] p[j].0 != k by {
                if j < p.len() - 1 {
                    assert(p[j] == p.drop_last()[j]);
                }
            }
        }
    }
}

/// In a map with distinct names, a pair is found at its own index.
proof fn lemma_lookup_distinct(p: Seq<(Seq<char>, Seq<char>)>, i: int)
    requires
        distinct_keys(p),
        0 <= i < p.len(),
    ensures
        lookup(p, p[i].0) == Some(p[i].1),
    decreases p.len(),
{
    if i < p.len() - 1 {
        assert(p.last().0 != p[i].0);
        assert(distinct_keys(p.drop_last()));
        assert(p.drop_last()[i] == p[i]);
        lemma_lookup_distinct(p.drop_last(), i);
    }
}

/// Reading a map after an insertion.
pub proof fn lemma_upsert_lookup(p: Seq<(Seq<char>, Seq<char>)>, k: Seq<char>, v: Seq<char>, q: Seq<char>)
    requires
        distinct_keys(p),
    ensures
        distinct_keys(upsert_pair(p, k, v)),
        lookup(upsert_pair(p, k, v), q) == if q == k {
            Some(v)
        } else {
            lookup(p, q)
        },
{
    lemma_key_index(p, k);
    lemma_key_index(p, q);
    let u = upsert_pair(p, k, v);
    let i = key_index(p, k);
    assert(distinct_keys(u)) by {
        assert forall|a: int, b: int| 0 <= a < b < u.len() implies #[trigger] u[a].0 != #[trigger] u[b].0 by {
            if i >= 0 {
                if a != i && b != i {
                    assert(u[a] == p[a] && u[b] == p[b]);
                } else if a == i {
                    assert(u[b] == p[b]);
                } else {
                    assert(u[a] == p[a]);
                }
            } else {
                if b == p.len() {
                    assert(u[a] == p[a]);
                } else {
                    assert(u[a] == p[a] && u[b] == p[b]);
                }
            }
        }
    }
    lemma_key_index(u, q);
    if q == k {
        if i >= 0 {
            lemma_lookup_distinct(u, i);
        }
    } else {
        let j = key_index(u, q);
        if j >= 0 {
            lemma_lookup_distinct(u, j);
            if i >= 0 {
                assert(j != i);
                assert(u[j] == p[j]);
            } else {
                assert(j < p.len());
                assert(u[j] == p[j]);
            }
            lemma_lookup_distinct(p, j);
        } else {
            assert forall|x: int| 0 <= x < p.len() implies #[trigger] p[x].0 != q by {
                if x != i {
                    assert(u[x] == p[x]);
                }
            }
        }
    }
}

/// Inserts `value` under `name`, replacing an earlier value of that name.
pub fn upsert(pairs: &mut Vec<(String, String)>, name: String, value: String)
    ensures
        pair_views(final(pairs)@) == upsert_pair(pair_views(old(pairs)@), name@, value@),
{
    let ghost p = pair_views(pairs@);
    let mut i: usize = pairs.len();
    assert(p.take(i as int) =~= p);
    while i > 0
        invariant
            i <= pairs@.len(),
            p == pair_views(pairs@),
            p == pair_views(old(pairs)@),
            key_index(p, name@) == key_index(p.take(i as int), name@),
        decreases i,
    {
        proof {
            assert(p.take(i as int).drop_last() =~= p.take(i - 1));
            assert(p.take(i as int).last() == p[i - 1]);
        }
        if str_equals(pairs[i - 1].0.as_str(), name.as_str()) {
            let k = i - 1;
            assert(p[k as int].0 == name@);
            assert(key_index(p, name@) == k);
            pairs.set(k, (name, value));
            assert(pair_views(pairs@) =~= p.update(k as int, (name@, value@)));
            return;
        }
        i = i - 1;
    }
    let ghost before = pairs@;
    pairs.push((name, value));
    assert(pair_views(pairs@) =~= p.push((name@, value@)));
}

/// The value stored under `name`.
pub fn find_value<'a>(pairs: &'a Vec<(String, String)>, name: &str) -> (r: Option<&'a String>)
    ensures
        match r {
            Some(v) => lookup(pair_views(pairs@), name@) == Some(v@),
            None => lookup(pair_views(pairs@), name@) is None,
        },
{
    let ghost p = pair_views(pairs@);
    let mut i: usize = pairs.len();
    assert(p.take(i as int) =~= p);
    while i > 0
        invariant
            i <= pairs@.len(),
            p == pair_views(pairs@),
            lookup(p, name@) == lookup(p.take(i as int), name@),
        decreases i,
    {
        proof {
            assert(p.take(i as int).drop_last() =~= p.take(i - 1));
            assert(p.take(i as int).last() == p[i - 1]);
        }
        if str_equals(pairs[i - 1].0.as_str(), name) {
            return Some(&pairs[i - 1].1);
        }
        i = i - 1;
    }
    None
}

} // verus!

verus! {

/// `k=v` splits at the first `=`; a piece without one is a name with an
/// empty value.
pub open spec fn query_entry(piece: Seq<char>) -> (Seq<char>, Seq<char>) {
    match split_once(piece, "="@) {
        Some((k, v)) => (k, v),
        None => (piece, Seq::empty()),
    }
}

/// The parameters of `&`-separated query pieces; empty pieces are skipped
/// and a repeated name keeps its last value.
pub open spec fn query_params(pieces: Seq<Seq<char>>) -> Seq<(Seq<char>, Seq<char>)>
    decreases pieces.len(),
{
    if pieces.len() == 0 {
        Seq::empty()
    } else {
        let prev = query_params(pieces.drop_last());
        if pieces.last().len() == 0 {
            prev
        } else {
            upsert_pair(prev, query_entry(pieces.last()).0, query_entry(pieces.last()).1)
        }
    }
}

/// The path before the first `?`, and the parameters after it.
pub open spec fn path_and_query(raw: Seq<char>) -> (Seq<char>, Seq<(Seq<char>, Seq<char>)>) {
    match split_once(raw, "?"@) {
        Some((p, q)) => (p, query_params(split_on(q, '&'))),
        None => (raw, Seq::empty()),
    }
}

pub fn parse_path_and_query(raw_path: &str) -> (r: (String, Vec<(String, String)>))
    ensures
        (r.0@, pair_views(r.1@)) == path_and_query(raw_path@),
{
    let raw = chars_of(raw_path);
    let q = chars_of("?");
    let eq = chars_of("=");
    match split_once_vec(raw.as_slice(), q.as_slice()) {
        None => {
            let params: Vec<(String, String)> = Vec::new();
            assert(pair_views(params@) =~= Seq::<(Seq<char>, Seq<char>)>::empty());
            (string_of(raw.as_slice()), params)
        },
        Some((path, query)) => {
            let pieces = split_chars(query.as_slice(), '&');
            let ghost all = split_on(query@, '&');
            let mut params: Vec<(String, String)> = Vec::new();
            let n = pieces.len();
            let mut i: usize = 0;
            assert(all.take(0) =~= Seq::<Seq<char>>::empty());
            while i < n
                invariant
                    n == pieces@.len(),
                    n == all.len(),
                    eq@ == "="@,
                    forall|k: int| 0 <= k < n ==> #[trigger] pieces@[k]@ == all[k],
                    i <= n,
                    pair_views(params@) == query_params(all.take(i as int)),
                decreases n - i,
            {
                proof {
                    assert(all.take(i + 1).drop_last() =~= all.take(i as int));
                    assert(all.take(i + 1).last() == pieces@[i as int]@);
                }
                let piece = &pieces[i];
                if piece.len() > 0 {
                    match split_once_vec(piece.as_slice(), eq.as_slice()) {
                        Some((k, v)) => {
                            upsert(&mut params, string_of(k.as_slice()), string_of(v.as_slice()));
                        },
                        None => {
                            upsert(&mut params, string_of(piece.as_slice()), String::new());
                        },
                    }
                }
                i = i + 1;
            }
            assert(all.take(n as int) =~= all);
            (string_of(path.as_slice()), params)
        },
    }
}

/// The position of the first `\r\n\r\n` in `b`, searching from `i`.
pub open spec fn blank_line_from(b: Seq<u8>, i: int) -> Option<int>
    decreases b.len() - i,
{
    if i < 0 || i + 4 > b.len() {
        None
    } else if b[i] == 13 && b[i + 1] == 10 && b[i + 2] == 13 && b[i + 3] == 10 {
        Some(i)
    } else {
        blank_line_from(b, i + 1)
    }
}

pub proof fn lemma_blank_line_bounds(b: Seq<u8>, i: int)
    ensures
        blank_line_from(b, i) matches Some(j) ==> i <= j && j + 4 <= b.len() && b[j] == 13 && b[j
            + 1] == 10 && b[j + 2] == 13 && b[j + 3] == 10,
    decreases b.len() - i,
{
    if i >= 0 && i + 4 <= b.len() && !(b[i] == 13 && b[i + 1] == 10 && b[i + 2] == 13 && b[i + 3]
        == 10) {
        lemma_blank_line_bounds(b, i + 1);
    }
}

/// The end of the header block: the first `\r\n\r\n`.
pub open spec fn header_end(b: Seq<u8>) -> Option<int> {
    blank_line_from(b, 0)
}

pub fn find_header_end(bytes: &[u8]) -> (r: Option<usize>)
    ensures
        match r {
            Some(i) => header_end(bytes@) == Some(i as int),
            None => header_end(bytes@) is None,
        },
{
    let n = bytes.len();
    if n < 4 {
        return None;
    }
    let mut i: usize = 0;
    while i <= n - 4
        invariant
            n == bytes@.len(),
            n >= 4,
            i <= n - 3,
            header_end(bytes@) == blank_line_from(bytes@, i as int),
        decreases n - i,
    {
        if bytes[i] == 13 && bytes[i + 1] == 10 && bytes[i + 2] == 13 && bytes[i + 3] == 10 {
            return Some(i);
        }
        i = i + 1;
    }
    None
}

/// What a connection knows after reading more header bytes.
#[derive(Clone, Copy, Debug, PartialEq, Eq, Structural)]
pub enum HeaderScan {
    /// More than the header byte limit arrived before the terminator was
    /// accepted.
    TooLarge,
    /// The header block ends at this offset.
    Complete(usize),
    /// No terminator yet.
    Incomplete,
}

/// The check made after each read of the header phase: the size cap is
/// enforced before the terminator is looked for, so a block that completes
/// in the read that pushes it over the cap is still refused.
pub fn scan_header_buffer(buffer: &[u8]) -> (r: HeaderScan)
    ensures
        buffer@.len() > MAX_REQUEST_HEADER_BYTES ==> r is TooLarge,
        buffer@.len() <= MAX_REQUEST_HEADER_BYTES ==> match header_end(buffer@) {
            Some(i) => r == HeaderScan::Complete(i as usize),
            None => r is Incomplete,
        },
{
    if buffer.len() > MAX_REQUEST_HEADER_BYTES {
        return HeaderScan::TooLarge;
    }
    match find_header_end(buffer) {
        Some(i) => HeaderScan::Complete(i),
        None => HeaderScan::Incomplete,
    }
}

} // verus!

verus! {

/// The text `std::str::Utf8Error` displays for bytes that are not UTF-8.
pub uninterp spec fn utf8_error_text(bytes: Seq<u8>) -> Seq<char>;

/// Calls `std::str::from_utf8`: the bytes as text when they are valid UTF-8
/// (std's definition, which vstd's `valid_utf8` states), and otherwise the
/// text of the `Utf8Error`, named `utf8_error_text`.
#[verifier::external_body]
pub(crate) fn utf8_text(bytes: &[u8]) -> (r: Result<String, String>)
    ensures
        match r {
            Ok(s) => vstd::utf8::valid_utf8(bytes@) && s@ == vstd::utf8::decode_utf8(bytes@),
            Err(e) => !vstd::utf8::valid_utf8(bytes@) && e@ == utf8_error_text(bytes@),
        },
{
    match std::str::from_utf8(bytes) {
        Ok(s) => Ok(s.to_string()),
        Err(e) => Err(e.to_string()),
    }
}

/// A header line `name: value`, the name trimmed and lower-cased and the
/// value trimmed; a line without `:` carries no header.
pub open spec fn header_entry(line: Seq<char>) -> Option<(Seq<char>, Seq<char>)> {
    match split_once(line, ":"@) {
        Some((n, v)) => Some((ascii_lowercase(trimmed(n)), trimmed(v))),
        None => None,
    }
}

/// The headers of the lines after the request line, a repeated name
/// keeping its last value; `None` once more than the header count limit of
/// distinct names has been seen.
pub open spec fn parsed_headers(lines: Seq<Seq<char>>) -> Option<Seq<(Seq<char>, Seq<char>)>>
    decreases lines.len(),
{
    if lines.len() == 0 {
        Some(Seq::empty())
    } else {
        match parsed_headers(lines.drop_last()) {
            None => None,
            Some(h) => match header_entry(lines.last()) {
                None => Some(h),
                Some((k, v)) => {
                    let h2 = upsert_pair(h, k, v);
                    if h2.len() > MAX_REQUEST_HEADER_COUNT {
                        None
                    } else {
                        Some(h2)
                    }
                },
            },
        }
    }
}

/// The declared body length: `content-length` when it parses as a `usize`,
/// and zero otherwise.
pub open spec fn declared_content_length(headers: Seq<(Seq<char>, Seq<char>)>) -> nat {
    match lookup(headers, "content-length"@) {
        Some(v) => match parse_unsigned(v, usize::MAX as nat) {
            Some(n) => n,
            None => 0,
        },
        None => 0,
    }
}

pub struct RequestHeadView {
    pub method: Seq<char>,
    pub path: Seq<char>,
    pub query: Seq<(Seq<char>, Seq<char>)>,
    pub headers: Seq<(Seq<char>, Seq<char>)>,
    pub content_length: nat,
}

/// The request line and headers of a request whose header block is `text`.
pub open spec fn request_head(text: Seq<char>) -> Result<RequestHeadView, Seq<char>> {
    let lines = split_str(text, "\r\n"@);
    let words = ws_tokens(lines[0]);
    if words.len() == 0 {
        Err("HTTP request missing method"@)
    } else if words.len() == 1 {
        Err("HTTP request missing path"@)
    } else {
        match parsed_headers(lines.drop_first()) {
            None => Err("HTTP request has too many headers (max 100)"@),
            Some(h) => {
                let cl = declared_content_length(h);
                if cl > MAX_REQUEST_BODY {
                    Err(
                        "HTTP request body too large ("@ + decimal(cl) + " bytes, max 4194304)"@,
                    )
                } else {
                    Ok(
                        RequestHeadView {
                            method: words[0],
                            path: path_and_query(words[1]).0,
                            query: path_and_query(words[1]).1,
                            headers: h,
                            content_length: cl,
                        },
                    )
                }
            },
        }
    }
}

/// The request line and headers of a request.
pub struct RequestHead {
    pub method: String,
    pub path: String,
    pub query: Vec<(String, String)>,
    pub headers: Vec<(String, String)>,
    pub content_length: usize,
}

impl View for RequestHead {
    type V = RequestHeadView;

    open spec fn view(&self) -> RequestHeadView {
        RequestHeadView {
            method: self.method@,
            path: self.path@,
            query: pair_views(self.query@),
            headers: pair_views(self.headers@),
            content_length: self.content_length as nat,
        }
    }
}

proof fn lemma_parsed_headers_stays_none(lines: Seq<Seq<char>>, i: int)
    requires
        0 <= i <= lines.len(),
        parsed_headers(lines.take(i)) is None,
    ensures
        parsed_headers(lines) is None,
    decreases lines.len(),
{
    if i < lines.len() {
        assert(lines.drop_last().take(i) =~= lines.take(i));
        lemma_parsed_headers_stays_none(lines.drop_last(), i);
    } else {
        assert(lines.take(i) =~= lines);
    }
}

fn parse_header_lines(lines: &Vec<Vec<char>>, ghost_lines: Ghost<Seq<Seq<char>>>) -> (r: Option<Vec<(String, String)>>)
    requires
        lines@.len() == ghost_lines@.len() + 1,
        forall|k: int| 0 < k < lines@.len() ==> #[trigger] lines@[k]@ == ghost_lines@[k - 1],
    ensures
        match r {
            Some(h) => parsed_headers(ghost_lines@) == Some(pair_views(h@)),
            None => parsed_headers(ghost_lines@) is None,
        },
{
    let ghost g = ghost_lines@;
    let colon = chars_of(":");
    let mut headers: Vec<(String, String)> = Vec::new();
    let n = lines.len();
    let mut i: usize = 1;
    assert(g.take(0) =~= Seq::<Seq<char>>::empty());
    while i < n
        invariant
            n == lines@.len(),
            n == g.len() + 1,
            g == ghost_lines@,
            colon@ == ":"@,
            forall|k: int| 0 < k < n ==> #[trigger] lines@[k]@ == g[k - 1],
            1 <= i <= n,
            parsed_headers(g.take(i - 1)) == Some(pair_views(headers@)),
        decreases n - i,
    {
        proof {
            assert(g.take(i as int).drop_last() =~= g.take(i - 1));
            assert(g.take(i as int).last() == lines@[i as int]@);
        }
        let line = &lines[i];
        match split_once_vec(line.as_slice(), colon.as_slice()) {
            Some((name, value)) => {
                let (ns, ne) = trim_bounds(name.as_slice());
                let name_trim = slice_vec(name.as_slice(), ns, ne);
                let key = to_ascii_lowercase(name_trim.as_slice());
                let (vs, ve) = trim_bounds(value.as_slice());
                let val = substring(value.as_slice(), vs, ve);
                upsert(&mut headers, key, val);
                if headers.len() > MAX_REQUEST_HEADER_COUNT {
                    proof {
                        assert(parsed_headers(g.take(i as int)) is None);
                        lemma_parsed_headers_stays_none(g, i as int);
                    }
                    return None;
                }
            },
            None => {},
        }
        i = i + 1;
    }
    assert(g.take(n - 1) =~= g);
    Some(headers)
}

/// Parses the header block of a request (the bytes before `\r\n\r\n`):
/// the request line's method and path (split into path and query), the
/// headers, and the declared body length, which must not exceed the body
/// limit.
pub fn parse_request_head(head: &[u8]) -> (r: Result<RequestHead, String>)
    ensures
        !vstd::utf8::valid_utf8(head@) ==> (r matches Err(m) && m@
            == "HTTP request headers not valid UTF-8: "@ + utf8_error_text(head@)),
        vstd::utf8::valid_utf8(head@) ==> match r {
            Ok(h) => request_head(vstd::utf8::decode_utf8(head@)) == Ok::<RequestHeadView, Seq<char>>(h@),
            Err(m) => request_head(vstd::utf8::decode_utf8(head@)) == Err::<RequestHeadView, Seq<char>>(m@),
        },
{
    let text = match utf8_text(head) {
        Ok(t) => t,
        Err(e) => {
            let mut m = owned("HTTP request headers not valid UTF-8: ");
            push_str(&mut m, e.as_str());
            return Err(m);
        },
    };
    let tv = chars_of(text.as_str());
    let crlf = chars_of("\r\n");
    proof {
        reveal_strlit("\r\n");
    }
    let lines = split_text(tv.as_slice(), crlf.as_slice());
    let ghost all = split_str(tv@, crlf@);
    proof {
        lemma_split_str_nonempty(tv@, crlf@);
    }
    let words = split_whitespace(lines[0].as_slice());
    if words.len() == 0 {
        return Err(owned("HTTP request missing method"));
    }
    if words.len() == 1 {
        return Err(owned("HTTP request missing path"));
    }
    let method = string_of(words[0].as_slice());
    let raw_path = string_of(words[1].as_slice());
    let (path, query) = parse_path_and_query(raw_path.as_str());
    proof {
        assert forall|k: int| 0 < k < lines@.len() implies #[trigger] lines@[k]@ == all.drop_first()[k - 1] by {
            assert(all.drop_first()[k - 1] == all[k]);
        }
    }
    let headers = match parse_header_lines(&lines, Ghost(all.drop_first())) {
        Some(h) => h,
        None => {
            return Err(owned("HTTP request has too many headers (max 100)"));
        },
    };
    let content_length: usize = match find_value(&headers, "content-length") {
        Some(v) => {
            let vc = chars_of(v.as_str());
            match parse_unsigned_chars(vc.as_slice(), usize::MAX as u64) {
                Some(n) => n as usize,
                None => 0,
            }
        },
        None => 0,
    };
    if content_length > MAX_REQUEST_BODY {
        let mut m = owned("HTTP request body too large (");
        push_decimal(&mut m, content_length as u64);
        push_str(&mut m, " bytes, max 4194304)");
        return Err(m);
    }
    Ok(RequestHead { method, path, query, headers, content_length })
}

} // verus!

verus! {

/// One parsed HTTP request.
pub struct HttpRequest {
    pub method: String,
    pub path: String,
    pub query: Vec<(String, String)>,
    pub headers: Vec<(String, String)>,
    pub body: Vec<u8>,
}

pub struct HttpRequestView {
    pub method: Seq<char>,
    pub path: Seq<char>,
    pub query: Seq<(Seq<char>, Seq<char>)>,
    pub headers: Seq<(Seq<char>, Seq<char>)>,
    pub body: Seq<u8>,
}

impl View for HttpRequest {
    type V = HttpRequestView;

    open spec fn view(&self) -> HttpRequestView {
        HttpRequestView {
            method: self.method@,
            path: self.path@,
            query: pair_views(self.query@),
            headers: pair_views(self.headers@),
            body: self.body@,
        }
    }
}

impl HttpRequest {
    /// The value of a (lower-case) header name.
    pub fn header(&self, name: &str) -> (r: Option<&String>)
        ensures
            match r {
                Some(v) => lookup(self@.headers, name@) == Some(v@),
                None => lookup(self@.headers, name@) is None,
            },
    {
        find_value(&self.headers, name)
    }

    /// The value of a query parameter.
    pub fn query_param(&self, name: &str) -> (r: Option<&String>)
        ensures
            match r {
                Some(v) => lookup(self@.query, name@) == Some(v@),
                None => lookup(self@.query, name@) is None,
            },
    {
        find_value(&self.query, name)
    }
}

/// The request of a parsed head and the bytes read after it, cut to the
/// declared length.
pub fn request_from_parts(head: RequestHead, body: Vec<u8>) -> (r: HttpRequest)
    ensures
        r@.method == head@.method,
        r@.path == head@.path,
        r@.query == head@.query,
        r@.headers == head@.headers,
        r@.body == (if body@.len() > head.content_length {
            body@.take(head.content_length as int)
        } else {
            body@
        }),
{
    let mut body = body;
    if body.len() > head.content_length {
        body.truncate(head.content_length);
    }
    HttpRequest {
        method: head.method,
        path: head.path,
        query: head.query,
        headers: head.headers,
        body,
    }
}

/// `s.contains(p)`.
pub open spec fn mentions(s: Seq<char>, p: Seq<char>) -> bool {
    find(s, p) is Some
}

/// The status, reason and code answered when reading a request failed,
/// chosen by the wording of the failure.
pub open spec fn read_failure_status(message: Seq<char>) -> (u16, Seq<char>, Seq<char>) {
    if mentions(message, "timed out"@) {
        (408, "Request Timeout"@, "request_timeout"@)
    } else if mentions(message, "too many headers"@) {
        (431, "Request Header Fields Too Large"@, "too_many_headers"@)
    } else if mentions(message, "headers too large"@) {
        (431, "Request Header Fields Too Large"@, "header_too_large"@)
    } else if mentions(message, "too large"@) {
        (413, "Payload Too Large"@, "payload_too_large"@)
    } else {
        (400, "Bad Request"@, "invalid_request"@)
    }
}

fn mentions_text(message: &[char], p: &str) -> (b: bool)
    ensures
        b == mentions(message@, p@),
{
    let pv = chars_of(p);
    find_slice(message, pv.as_slice()).is_some()
}

pub fn classify_read_failure(message: &str) -> (r: (u16, String, String))
    ensures
        (r.0, r.1@, r.2@) == read_failure_status(message@),
{
    let m = chars_of(message);
    if mentions_text(m.as_slice(), "timed out") {
        (408, owned("Request Timeout"), owned("request_timeout"))
    } else if mentions_text(m.as_slice(), "too many headers") {
        (431, owned("Request Header Fields Too Large"), owned("too_many_headers"))
    } else if mentions_text(m.as_slice(), "headers too large") {
        (431, owned("Request Header Fields Too Large"), owned("header_too_large"))
    } else if mentions_text(m.as_slice(), "too large") {
        (413, owned("Payload Too Large"), owned("payload_too_large"))
    } else {
        (400, owned("Bad Request"), owned("invalid_request"))
    }
}

/// The extra header lines, each as `\r\n<name>: <value>`.
pub open spec fn header_lines_text(extra: Seq<(Seq<char>, Seq<char>)>) -> Seq<char>
    decreases extra.len(),
{
    if extra.len() == 0 {
        Seq::empty()
    } else {
        header_lines_text(extra.drop_last()) + "\r\n"@ + extra.last().0 + ": "@ + extra.last().1
    }
}

/// The status line and headers of a response, up to and including the
/// blank line.
pub open spec fn response_head_text(
    status: u16,
    reason: Seq<char>,
    content_type: Seq<char>,
    body_len: nat,
    extra: Seq<(Seq<char>, Seq<char>)>,
) -> Seq<char> {
    "HTTP/1.1 "@ + decimal(status as nat) + " "@ + reason + "\r\nContent-Type: "@ + content_type
        + "\r\nContent-Length: "@ + decimal(body_len) + "\r\nConnection: close"@
        + header_lines_text(extra) + "\r\n\r\n"@
}

fn push_header_lines(s: &mut String, extra: &Vec<HeaderLine>)
    ensures
        final(s)@ == old(s)@ + header_lines_text(header_line_views(extra@)),
{
    let ghost e = header_line_views(extra@);
    let n = extra.len();
    let mut i: usize = 0;
    assert(e.take(0) =~= Seq::<(Seq<char>, Seq<char>)>::empty());
    while i < n
        invariant
            n == extra@.len(),
            e == header_line_views(extra@),
            i <= n,
            s@ == old(s)@ + header_lines_text(e.take(i as int)),
        decreases n - i,
    {
        proof {
            assert(e.take(i + 1).drop_last() =~= e.take(i as int));
            assert(e.take(i + 1).last() == extra@[i as int]@);
        }
        push_str(s, "\r\n");
        push_str(s, extra[i].name.as_str());
        push_str(s, ": ");
        push_str(s, extra[i].value.as_str());
        assert(s@ =~= old(s)@ + header_lines_text(e.take(i + 1)));
        i = i + 1;
    }
    assert(e.take(n as int) =~= e);
}

/// The head of a response: status line, content type, length, `Connection:
/// close`, the extra headers, and the blank line.
pub fn response_head(
    status: u16,
    reason: &str,
    content_type: &str,
    body_len: usize,
    extra: &Vec<HeaderLine>,
) -> (s: String)
    ensures
        s@ == response_head_text(
            status,
            reason@,
            content_type@,
            body_len as nat,
            header_line_views(extra@),
        ),
{
    let mut s = owned("HTTP/1.1 ");
    push_decimal(&mut s, status as u64);
    push_str(&mut s, " ");
    push_str(&mut s, reason);
    push_str(&mut s, "\r\nContent-Type: ");
    push_str(&mut s, content_type);
    push_str(&mut s, "\r\nContent-Length: ");
    push_decimal(&mut s, body_len as u64);
    push_str(&mut s, "\r\nConnection: close");
    push_header_lines(&mut s, extra);
    push_str(&mut s, "\r\n\r\n");
    assert(s@ =~= response_head_text(
        status,
        reason@,
        content_type@,
        body_len as nat,
        header_line_views(extra@),
    ));
    s
}

/// A buffered response with the extra headers placed just before its blank
/// line; a response without extra headers, or without a header block, is
/// left as it is.
pub open spec fn spliced_response(bytes: Seq<u8>, extra: Seq<(Seq<char>, Seq<char>)>) -> Seq<u8> {
    if extra.len() == 0 {
        bytes
    } else {
        match header_end(bytes) {
            None => bytes,
            Some(he) => bytes.take(he) + encode_utf8_text(header_lines_text(extra)) + bytes.skip(
                he,
            ),
        }
    }
}

pub(crate) fn push_bytes(out: &mut Vec<u8>, b: &[u8])
    ensures
        final(out)@ == old(out)@ + b@,
{
    let n = b.len();
    let mut i: usize = 0;
    while i < n
        invariant
            n == b@.len(),
            i <= n,
            out@ == old(out)@ + b@.take(i as int),
        decreases n - i,
    {
        out.push(b[i]);
        assert(out@ =~= old(out)@ + b@.take(i + 1));
        i = i + 1;
    }
    assert(b@.take(n as int) =~= b@);
}

pub fn splice_response_headers(bytes: &[u8], extra: &Vec<HeaderLine>) -> (r: Vec<u8>)
    ensures
        r@ == spliced_response(bytes@, header_line_views(extra@)),
{
    let mut out: Vec<u8> = Vec::new();
    if extra.len() == 0 {
        push_bytes(&mut out, bytes);
        assert(out@ =~= bytes@);
        return out;
    }
    match find_header_end(bytes) {
        None => {
            push_bytes(&mut out, bytes);
            assert(out@ =~= bytes@);
            out
        },
        Some(he) => {
            proof {
                lemma_blank_line_bounds(bytes@, 0);
            }
            let mut lines = String::new();
            push_header_lines(&mut lines, extra);
            push_bytes(&mut out, crate::text::byte_slice(bytes, 0, he).as_slice());
            push_bytes(&mut out, lines.as_str().as_bytes());
            push_bytes(&mut out, crate::text::byte_slice(bytes, he, bytes.len()).as_slice());
            assert(lines@ =~= header_lines_text(header_line_views(extra@)));
            assert(out@ =~= spliced_response(bytes@, header_line_views(extra@)));
            out
        },
    }
}

} // verus!

verus! {

/// An error answered as a problem document.
#[derive(Debug, PartialEq, Eq)]
pub struct ApiError {
    pub status: u16,
    pub reason: String,
    pub code: String,
    pub message: String,
}

pub struct ApiErrorView {
    pub status: u16,
    pub reason: Seq<char>,
    pub code: Seq<char>,
    pub message: Seq<char>,
}

impl View for ApiError {
    type V = ApiErrorView;

    open spec fn view(&self) -> ApiErrorView {
        ApiErrorView {
            status: self.status,
            reason: self.reason@,
            code: self.code@,
            message: self.message@,
        }
    }
}

pub open spec fn api_error(status: u16, reason: Seq<char>, code: Seq<char>, message: Seq<char>) -> ApiErrorView {
    ApiErrorView { status, reason, code, message }
}

pub fn make_api_error(status: u16, reason: &str, code: &str, message: String) -> (e: ApiError)
    ensures
        e@ == api_error(status, reason@, code@, message@),
{
    ApiError { status, reason: owned(reason), code: owned(code), message }
}

/// A 401 with the given code.
pub fn unauthorized(code: &str, message: String) -> (e: ApiError)
    ensures
        e@ == api_error(401, "Unauthorized"@, code@, message@),
{
    make_api_error(401, "Unauthorized", code, message)
}

/// A request with a body whose declared media type is not JSON.
pub open spec fn media_type_refused(method: Seq<char>, body_len: nat, content_type: Option<Seq<char>>) -> bool {
    &&& (method == "POST"@ || method == "PUT"@ || method == "PATCH"@)
    &&& body_len > 0
    &&& match content_type {
        None => false,
        Some(ct) => !crate::text::eq_ignore_ascii_case(
            trimmed(split_on(ct, ';')[0]),
            "application/json"@,
        ),
    }
}

/// A POST, PUT or PATCH with a body is refused with 415 when it declares a
/// media type other than `application/json` (parameters and case aside).
pub fn unsupported_media_type_error(request: &HttpRequest) -> (r: Option<ApiError>)
    ensures
        media_type_refused(
            request@.method,
            request@.body.len(),
            lookup(request@.headers, "content-type"@),
        ) ==> (r matches Some(e) && e@ == api_error(
            415,
            "Unsupported Media Type"@,
            "unsupported_media_type"@,
            "request body content-type must be application/json"@,
        )),
        !media_type_refused(
            request@.method,
            request@.body.len(),
            lookup(request@.headers, "content-type"@),
        ) ==> r is None,
{
    let m = request.method.as_str();
    if !(str_equals(m, "POST") || str_equals(m, "PUT") || str_equals(m, "PATCH"))
        || request.body.len() == 0 {
        return None;
    }
    let content_type = match request.header("content-type") {
        Some(ct) => ct,
        None => {
            return None;
        },
    };
    let ct = chars_of(content_type.as_str());
    let parts = split_chars(ct.as_slice(), ';');
    proof {
        lemma_split_on_nonempty(ct@, ';');
    }
    let (s, e) = trim_bounds(parts[0].as_slice());
    let media = slice_vec(parts[0].as_slice(), s, e);
    let lowered = to_ascii_lowercase(media.as_slice());
    let json = chars_of("application/json");
    let json_lower = to_ascii_lowercase(json.as_slice());
    if str_equals(lowered.as_str(), json_lower.as_str()) {
        return None;
    }
    Some(
        make_api_error(
            415,
            "Unsupported Media Type",
            "unsupported_media_type",
            owned("request body content-type must be application/json"),
        ),
    )
}

} // verus!

verus! {

/// What a connection does with a request it has read.
pub enum ConnectionAction {
    /// A `dev-any` listener refuses a public caller (403).
    RejectPublicCaller,
    /// A CORS preflight from an allowed origin (204 with these headers).
    Preflight(Vec<HeaderLine>),
    /// The origin is not allowed (403 with this message).
    CorsForbidden(String),
    /// No bearer token where one is required (401), with the CORS headers.
    BearerRequired(Vec<HeaderLine>),
    /// The body's media type is refused, with the CORS headers.
    UnsupportedMediaType(ApiError, Vec<HeaderLine>),
    /// The request goes to this handler, with the CORS headers.
    Dispatch(Route, Vec<HeaderLine>),
}

pub open spec fn cors_headers_view(origin: Option<Seq<char>>) -> Seq<(Seq<char>, Seq<char>)> {
    match origin {
        None => Seq::empty(),
        Some(o) => cors_headers_for(o),
    }
}

/// The `Authorization` header carries a bearer token.
pub open spec fn has_bearer(auth: Option<Seq<char>>) -> bool {
    match auth {
        Some(v) => has_prefix(v, "Bearer "@),
        None => false,
    }
}

/// Which of the actions a connection takes, and with which message.
pub enum ActionKind {
    RejectPublicCaller,
    Preflight,
    CorsForbidden(Seq<char>),
    BearerRequired,
    UnsupportedMediaType,
    Dispatch,
}

/// The order of the checks a connection makes: the `dev-any` address
/// check, then preflight, the CORS origin, the bearer token (but for
/// `/healthz`, an unauthenticated listener or a trusted local caller), the
/// media type, and finally the route.
pub open spec fn connection_action_kind(
    request: HttpRequestView,
    auth_mode: Seq<char>,
    allow_unauthenticated: bool,
    allowed_origins: Seq<String>,
    trusted: bool,
) -> ActionKind {
    let origin = lookup(request.headers, "origin"@);
    let origin_ok = match origin {
        None => true,
        Some(o) => cors_origin_allowed(o, allowed_origins, trusted),
    };
    if auth_mode == "dev-any"@ && !trusted {
        ActionKind::RejectPublicCaller
    } else if request.method == "OPTIONS"@ {
        if origin is None {
            ActionKind::CorsForbidden("Origin is not allowed"@)
        } else if !origin_ok {
            ActionKind::CorsForbidden("CORS origin is not allowed"@)
        } else {
            ActionKind::Preflight
        }
    } else if !origin_ok {
        ActionKind::CorsForbidden("CORS origin is not allowed"@)
    } else if request.path != "/healthz"@ && !allow_unauthenticated && !trusted && !has_bearer(
        lookup(request.headers, "authorization"@),
    ) {
        ActionKind::BearerRequired
    } else if media_type_refused(
        request.method,
        request.body.len(),
        lookup(request.headers, "content-type"@),
    ) {
        ActionKind::UnsupportedMediaType
    } else {
        ActionKind::Dispatch
    }
}

/// Decides what a connection does with a request it has read from a caller
/// that is (`trusted`) or is not a trusted local caller.
pub fn connection_action(
    request: &HttpRequest,
    auth_mode: &str,
    allow_unauthenticated: bool,
    allowed_origins: &Vec<String>,
    trusted: bool,
) -> (r: ConnectionAction)
    ensures
        ({
            let kind = connection_action_kind(
                request@,
                auth_mode@,
                allow_unauthenticated,
                allowed_origins@,
                trusted,
            );
            let cors = cors_headers_view(lookup(request@.headers, "origin"@));
            match r {
                ConnectionAction::RejectPublicCaller => kind is RejectPublicCaller,
                ConnectionAction::Preflight(h) => kind is Preflight && header_line_views(h@)
                    == cors,
                ConnectionAction::CorsForbidden(m) => kind == ActionKind::CorsForbidden(m@),
                ConnectionAction::BearerRequired(h) => kind is BearerRequired && header_line_views(
                    h@,
                ) == cors,
                ConnectionAction::UnsupportedMediaType(e, h) => kind is UnsupportedMediaType
                    && header_line_views(h@) == cors && e@ == api_error(
                    415,
                    "Unsupported Media Type"@,
                    "unsupported_media_type"@,
                    "request body content-type must be application/json"@,
                ),
                ConnectionAction::Dispatch(route, h) => kind is Dispatch && header_line_views(h@)
                    == cors && route_matches(request@.method, request@.path, route),
            }
        }),
{
    if rejects_public_caller(auth_mode, trusted) {
        return ConnectionAction::RejectPublicCaller;
    }
    let origin: Option<&str> = match request.header("origin") {
        Some(o) => Some(o.as_str()),
        None => None,
    };
    assert(match origin {
        Some(o) => lookup(request@.headers, "origin"@) == Some(o@),
        None => lookup(request@.headers, "origin"@) is None,
    });
    let cors = cors_response_headers(origin, allowed_origins, trusted);
    if str_equals(request.method.as_str(), "OPTIONS") {
        assert(request@.method == "OPTIONS"@);
        return match cors {
            Ok(h) => {
                assert(header_line_views(h@).len() == h@.len());
                if h.len() == 0 {
                    ConnectionAction::CorsForbidden(owned("Origin is not allowed"))
                } else {
                    ConnectionAction::Preflight(h)
                }
            },
            Err(m) => ConnectionAction::CorsForbidden(m),
        };
    }
    let headers = match cors {
        Ok(h) => h,
        Err(m) => {
            return ConnectionAction::CorsForbidden(m);
        },
    };
    if !str_equals(request.path.as_str(), "/healthz") && !allow_unauthenticated && !trusted {
        let bearer = match request.header("authorization") {
            Some(v) => {
                let vc = chars_of(v.as_str());
                let p = chars_of("Bearer ");
                starts_with(vc.as_slice(), p.as_slice())
            },
            None => false,
        };
        if !bearer {
            return ConnectionAction::BearerRequired(headers);
        }
    }
    if let Some(e) = unsupported_media_type_error(request) {
        return ConnectionAction::UnsupportedMediaType(e, headers);
    }
    let route = route_request(request.method.as_str(), request.path.as_str());
    ConnectionAction::Dispatch(route, headers)
}

} // verus!

verus! {

/// The local development token written to the discovery file:
/// `trv_local_<pid>_<digest>`, the digest being FNV-1a of
/// `<local address>:<seconds>`.
pub open spec fn local_dev_token(pid: u32, local_addr: Seq<char>, now: u64) -> Seq<char> {
    "trv_local_"@ + decimal(pid as nat) + "_"@ + crate::digest::fnv1a64_text(
        encode_utf8_text(local_addr + ":"@ + decimal(now as nat)),
    )
}

pub fn mint_local_dev_token(pid: u32, local_addr: &str, now: u64) -> (s: String)
    ensures
        s@ == local_dev_token(pid, local_addr@, now),
{
    let mut seed = owned(local_addr);
    push_str(&mut seed, ":");
    push_decimal(&mut seed, now);
    let digest = crate::digest::fnv1a64(seed.as_str().as_bytes());
    let mut s = owned("trv_local_");
    push_decimal(&mut s, pid as u64);
    push_str(&mut s, "_");
    push_str(&mut s, digest.as_str());
    assert(s@ =~= local_dev_token(pid, local_addr@, now));
    s
}

} // verus!

verus! {

/// The discovery record a running server writes for local clients.
pub struct ServerDiscovery {
    pub schema_version: String,
    pub base_url: String,
    pub bind_address: String,
    pub health_url: String,
    pub workspace_default: String,
    pub pid: u32,
    pub started_at: String,
    pub auth_mode: String,
    pub mobile_connect_url: String,
    pub local_dev_token: Option<String>,
}

/// The discovery record: the bind address is the base URL without its
/// `http://`, the health URL is the base URL's `/healthz`.
pub fn server_discovery(
    base_url: &str,
    auth_mode: &str,
    mobile_connect_url: &str,
    local_dev_token: Option<&str>,
    pid: u32,
    started_at: &str,
) -> (d: ServerDiscovery)
    ensures
        d.schema_version@ == SERVER_DISCOVERY_SCHEMA_VERSION@,
        d.base_url@ == base_url@,
        d.bind_address@ == (match strip_prefix(base_url@, "http://"@) {
            Some(rest) => rest,
            None => base_url@,
        }),
        d.health_url@ == base_url@ + "/healthz"@,
        d.workspace_default@ == DEFAULT_WORKSPACE_ID@,
        d.pid == pid,
        d.started_at@ == started_at@,
        d.auth_mode@ == auth_mode@,
        d.mobile_connect_url@ == mobile_connect_url@,
        crate::text::opt_view(d.local_dev_token) == crate::routes::opt_str_view(local_dev_token),
{
    let bv = chars_of(base_url);
    let prefix = chars_of("http://");
    let bind_address = match strip_prefix_vec(bv.as_slice(), prefix.as_slice()) {
        Some(rest) => string_of(rest.as_slice()),
        None => owned(base_url),
    };
    let mut health_url = owned(base_url);
    push_str(&mut health_url, "/healthz");
    ServerDiscovery {
        schema_version: owned(SERVER_DISCOVERY_SCHEMA_VERSION),
        base_url: owned(base_url),
        bind_address,
        health_url,
        workspace_default: owned(DEFAULT_WORKSPACE_ID),
        pid,
        started_at: owned(started_at),
        auth_mode: owned(auth_mode),
        mobile_connect_url: owned(mobile_connect_url),
        local_dev_token: match local_dev_token {
            Some(t) => Some(owned(t)),
            None => None,
        },
    }
}

} // verus!
