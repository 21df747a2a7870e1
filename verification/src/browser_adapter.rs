//! The local browser adapter: a development transport that creates browser
//! subscriptions to a runtime outcome and streams each subscription's
//! messages once as server-sent events.

use vstd::prelude::*;
use crate::text::{
    chars_of, decimal_padded, find, find_slice, has_prefix, lemma_split_str_nonempty, opt_view, owned, parse_unsigned, parse_unsigned_chars, push_str, slice_vec, split_once_vec, split_str, split_text, split_whitespace, str_equals, string_of, strip_prefix, strip_prefix_vec, strip_suffix, strip_suffix_vec, substring, to_ascii_lowercase, trim_bounds, ws_tokens,
};
use crate::http::{header_entry, lookup, pair_views, upsert, upsert_pair, utf8_error_text, utf8_text};
use crate::routes::opt_str_view;

verus! {

pub const ADAPTER_KIND: &'static str = "local_browser_subscription_created";

pub const ADAPTER_SCHEMA_VERSION: &'static str = "1.0.0";

pub const ADAPTER_GOVERNING_SPEC: &'static str = "019-local-browser-adapter-transport";

pub const SETUP_ERROR_KIND: &'static str = "local_browser_subscription_setup_error";

pub const STREAM_ERROR_KIND: &'static str = "local_browser_subscription_stream_error";

pub const LISTENING_PREFIX: &'static str = "local browser adapter listening on ";

pub const MAX_ADAPTER_HEADER_BYTES: usize = 65536;

pub const MAX_ADAPTER_BODY_BYTES: usize = 4194304;

pub const REQUEST_BODY_TOO_LARGE: &'static str = "browser adapter request body too large";

pub const SUBSCRIPTIONS_PATH: &'static str = "/local/browser-subscriptions";

pub const SUBSCRIPTION_PREFIX: &'static str = "/local/browser-subscriptions/";

/// What the adapter does with a request.
#[derive(Clone, Copy, Debug, PartialEq, Eq, Structural)]
pub enum BrowserRoute {
    CreateSubscription,
    StreamSubscription,
    NotFound,
}

pub open spec fn browser_route_of(method: Seq<char>, path: Seq<char>) -> BrowserRoute {
    if method == "POST"@ && path == "/local/browser-subscriptions"@ {
        BrowserRoute::CreateSubscription
    } else if method == "GET"@ && has_prefix(path, "/local/browser-subscriptions/"@) {
        BrowserRoute::StreamSubscription
    } else {
        BrowserRoute::NotFound
    }
}

pub fn browser_route(method: &str, path: &str) -> (r: BrowserRoute)
    ensures
        r == browser_route_of(method@, path@),
{
    if str_equals(method, "POST") && str_equals(path, SUBSCRIPTIONS_PATH) {
        return BrowserRoute::CreateSubscription;
    }
    if str_equals(method, "GET") {
        let pv = chars_of(path);
        let prefix = chars_of(SUBSCRIPTION_PREFIX);
        if crate::text::starts_with(pv.as_slice(), prefix.as_slice()) {
            return BrowserRoute::StreamSubscription;
        }
    }
    BrowserRoute::NotFound
}

/// A header value holds `needle` somewhere.
pub open spec fn header_holds(value: Option<Seq<char>>, needle: Seq<char>) -> bool {
    match value {
        Some(v) => find(v, needle) is Some,
        None => false,
    }
}

pub fn header_contains(value: Option<&str>, needle: &str) -> (b: bool)
    ensures
        b == header_holds(opt_str_view(value), needle@),
{
    match value {
        Some(v) => {
            let vv = chars_of(v);
            let nv = chars_of(needle);
            find_slice(vv.as_slice(), nv.as_slice()).is_some()
        },
        None => false,
    }
}

/// The subscription a stream path names:
/// `/local/browser-subscriptions/{id}/stream`.
pub open spec fn stream_id_of(path: Seq<char>) -> Option<Seq<char>> {
    match strip_prefix(path, "/local/browser-subscriptions/"@) {
        Some(tail) => strip_suffix(tail, "/stream"@),
        None => None,
    }
}

pub fn stream_subscription_id(path: &str) -> (r: Option<String>)
    ensures
        opt_view(r) == stream_id_of(path@),
{
    let pv = chars_of(path);
    let prefix = chars_of(SUBSCRIPTION_PREFIX);
    let suffix = chars_of("/stream");
    match strip_prefix_vec(pv.as_slice(), prefix.as_slice()) {
        Some(tail) => match strip_suffix_vec(tail.as_slice(), suffix.as_slice()) {
            Some(id) => Some(string_of(id.as_slice())),
            None => None,
        },
        None => None,
    }
}

pub open spec fn stream_url_of(id: Seq<char>) -> Seq<char> {
    "/local/browser-subscriptions/"@ + id + "/stream"@
}

pub fn stream_url(subscription_id: &str) -> (s: String)
    ensures
        s@ == stream_url_of(subscription_id@),
{
    let mut s = owned(SUBSCRIPTION_PREFIX);
    push_str(&mut s, subscription_id);
    push_str(&mut s, "/stream");
    assert(s@ =~= stream_url_of(subscription_id@));
    s
}

/// Why the runtime refused a subscription request.
#[derive(Clone, Copy, Debug, PartialEq, Eq, Structural)]
pub enum SubscriptionErrorCode {
    InvalidRequest,
    NotFound,
    UnsupportedOperation,
}

/// Status and code answered for a refused subscription.
pub fn subscription_error_status(code: SubscriptionErrorCode) -> (r: (u16, &'static str))
    ensures
        (r.0, r.1@) == (match code {
            SubscriptionErrorCode::InvalidRequest => (400u16, "invalid_request"@),
            SubscriptionErrorCode::NotFound => (404u16, "not_found"@),
            SubscriptionErrorCode::UnsupportedOperation => (400u16, "unsupported_operation"@),
        }),
{
    match code {
        SubscriptionErrorCode::InvalidRequest => (400, "invalid_request"),
        SubscriptionErrorCode::NotFound => (404, "not_found"),
        SubscriptionErrorCode::UnsupportedOperation => (400, "unsupported_operation"),
    }
}

/// The event stream of a subscription: one `traverse_message` event per
/// message, whose data is the message's JSON text.
pub open spec fn stream_body_of(messages: Seq<Seq<char>>) -> Seq<char>
    decreases messages.len(),
{
    if messages.len() == 0 {
        Seq::empty()
    } else {
        stream_body_of(messages.drop_last()) + "event: traverse_message\n"@ + "data: "@
            + messages.last() + "\n\n"@
    }
}

pub fn browser_stream_body(messages: &Vec<String>) -> (s: String)
    ensures
        s@ == stream_body_of(crate::text::texts(messages@)),
{
    let ghost t = crate::text::texts(messages@);
    let mut body = String::new();
    let mut i: usize = 0;
    assert(t.take(0) =~= Seq::<Seq<char>>::empty());
    while i < messages.len()
        invariant
            i <= messages@.len(),
            t == crate::text::texts(messages@),
            body@ == stream_body_of(t.take(i as int)),
        decreases messages.len() - i,
    {
        push_str(&mut body, "event: traverse_message\n");
        push_str(&mut body, "data: ");
        push_str(&mut body, messages[i].as_str());
        push_str(&mut body, "\n\n");
        proof {
            assert(t.take(i + 1).drop_last() =~= t.take(i as int));
            assert(t.take(i + 1).last() == messages@[i as int]@);
            assert(body@ =~= stream_body_of(t.take(i + 1)));
        }
        i = i + 1;
    }
    assert(t.take(i as int) =~= t);
    body
}

/// The subscriptions created and not yet streamed, and how many were
/// created.
pub struct BrowserSubscriptions {
    entries: Vec<(String, Vec<String>)>,
    created: u64,
}

pub struct SubscriptionsView {
    pub entries: Seq<(Seq<char>, Seq<Seq<char>>)>,
    pub created: u64,
}

impl View for BrowserSubscriptions {
    type V = SubscriptionsView;

    closed spec fn view(&self) -> SubscriptionsView {
        SubscriptionsView {
            entries: self.entries@.map_values(|e: (String, Vec<String>)| (e.0@, crate::text::texts(e.1@))),
            created: self.created,
        }
    }
}

/// The messages waiting under a subscription id (the latest stored wins).
pub open spec fn waiting(entries: Seq<(Seq<char>, Seq<Seq<char>>)>, id: Seq<char>) -> Option<Seq<Seq<char>>>
    decreases entries.len(),
{
    if entries.len() == 0 {
        None
    } else if entries.last().0 == id {
        Some(entries.last().1)
    } else {
        waiting(entries.drop_last(), id)
    }
}

/// Subscription ids are `lbs_` and the creation count, four digits at least.
pub open spec fn subscription_id_for(n: nat) -> Seq<char> {
    "lbs_"@ + decimal_padded(n, 4)
}

impl BrowserSubscriptions {
    pub fn new() -> (s: Self)
        ensures
            s@.entries == Seq::<(Seq<char>, Seq<Seq<char>>)>::empty(),
            s@.created == 0,
    {
        let s = BrowserSubscriptions { entries: Vec::new(), created: 0 };
        assert(s@.entries =~= Seq::<(Seq<char>, Seq<Seq<char>>)>::empty());
        s
    }

    /// How many subscriptions were created.
    pub fn created_count(&self) -> (n: u64)
        ensures
            n == self@.created,
    {
        self.created
    }

    /// The id of the next subscription.
    pub fn next_subscription_id(&mut self) -> (id: String)
        requires
            old(self)@.created < u64::MAX,
        ensures
            final(self)@.created == old(self)@.created + 1,
            final(self)@.entries == old(self)@.entries,
            id@ == subscription_id_for(final(self)@.created as nat),
    {
        self.created = self.created + 1;
        let mut id = owned("lbs_");
        crate::app_events::push_decimal_padded(&mut id, self.created, 4);
        assert(id@ =~= subscription_id_for(self.created as nat));
        id
    }

    /// Creates a subscription holding `messages` and returns its id.
    pub fn create(&mut self, messages: Vec<String>) -> (id: String)
        requires
            old(self)@.created < u64::MAX,
        ensures
            final(self)@.created == old(self)@.created + 1,
            id@ == subscription_id_for(final(self)@.created as nat),
            final(self)@.entries == old(self)@.entries.push((id@, crate::text::texts(messages@))),
    {
        let id = self.next_subscription_id();
        let ghost before = self@.entries;
        let ghost mv = crate::text::texts(messages@);
        self.entries.push((id.clone(), messages));
        assert(self@.entries =~= before.push((id@, mv)));
        id
    }

    /// Takes the messages of a subscription out: a subscription streams once.
    pub fn take(&mut self, id: &str) -> (r: Option<Vec<String>>)
        ensures
            match r {
                Some(m) => waiting(old(self)@.entries, id@) == Some(crate::text::texts(m@)),
                None => waiting(old(self)@.entries, id@) is None,
            },
            waiting(final(self)@.entries, id@) is None,
            forall|k: Seq<char>| k != id@ ==> #[trigger] waiting(final(self)@.entries, k) == waiting(old(self)@.entries, k),
            final(self)@.created == old(self)@.created,
    {
        let ghost e0 = self@.entries;
        let mut kept: Vec<(String, Vec<String>)> = Vec::new();
        let mut found: Option<Vec<String>> = None;
        let mut old_entries: Vec<(String, Vec<String>)> = Vec::new();
        std::mem::swap(&mut old_entries, &mut self.entries);
        let ghost ev = old_entries@.map_values(|e: (String, Vec<String>)| (e.0@, crate::text::texts(e.1@)));
        assert(ev == e0);
        let mut i: usize = 0;
        assert(ev.take(0) =~= Seq::<(Seq<char>, Seq<Seq<char>>)>::empty());
        while i < old_entries.len()
            invariant
                i <= old_entries@.len(),
                ev == old_entries@.map_values(|e: (String, Vec<String>)| (e.0@, crate::text::texts(e.1@))),
                kept@.map_values(|e: (String, Vec<String>)| (e.0@, crate::text::texts(e.1@)))
                    == without_id(ev.take(i as int), id@),
                match found {
                    Some(m) => waiting(ev.take(i as int), id@) == Some(crate::text::texts(m@)),
                    None => waiting(ev.take(i as int), id@) is None,
                },
            decreases old_entries.len() - i,
        {
            let e = &old_entries[i];
            proof {
                assert(ev.take(i + 1).drop_last() =~= ev.take(i as int));
                assert(ev.take(i + 1).last() == (e.0@, crate::text::texts(e.1@)));
            }
            if str_equals(e.0.as_str(), id) {
                found = Some(copy_texts(&e.1));
            } else {
                let ghost before = kept@.map_values(|e: (String, Vec<String>)| (e.0@, crate::text::texts(e.1@)));
                kept.push((e.0.clone(), copy_texts(&e.1)));
                assert(kept@.map_values(|e: (String, Vec<String>)| (e.0@, crate::text::texts(e.1@)))
                    =~= before.push((e.0@, crate::text::texts(e.1@))));
            }
            i = i + 1;
        }
        assert(ev.take(i as int) =~= ev);
        self.entries = kept;
        proof {
            lemma_without_id(ev, id@);
        }
        found
    }
}

fn copy_texts(v: &Vec<String>) -> (r: Vec<String>)
    ensures
        crate::text::texts(r@) == crate::text::texts(v@),
{
    let mut r: Vec<String> = Vec::new();
    let mut i: usize = 0;
    while i < v.len()
        invariant
            i <= v@.len(),
            crate::text::texts(r@) == crate::text::texts(v@).take(i as int),
        decreases v.len() - i,
    {
        let ghost before = crate::text::texts(r@);
        r.push(v[i].clone());
        assert(crate::text::texts(r@) =~= before.push(v@[i as int]@));
        i = i + 1;
        assert(crate::text::texts(r@) =~= crate::text::texts(v@).take(i as int));
    }
    assert(crate::text::texts(v@).take(i as int) =~= crate::text::texts(v@));
    r
}

/// The entries other than those under `id`.
pub open spec fn without_id(entries: Seq<(Seq<char>, Seq<Seq<char>>)>, id: Seq<char>) -> Seq<(Seq<char>, Seq<Seq<char>>)>
    decreases entries.len(),
{
    if entries.len() == 0 {
        Seq::empty()
    } else if entries.last().0 == id {
        without_id(entries.drop_last(), id)
    } else {
        without_id(entries.drop_last(), id).push(entries.last())
    }
}

pub proof fn lemma_without_id(entries: Seq<(Seq<char>, Seq<Seq<char>>)>, id: Seq<char>)
    ensures
        waiting(without_id(entries, id), id) is None,
        forall|k: Seq<char>| k != id ==> #[trigger] waiting(without_id(entries, id), k) == waiting(entries, k),
    decreases entries.len(),
{
    if entries.len() > 0 {
        lemma_without_id(entries.drop_last(), id);
        let r = without_id(entries.drop_last(), id);
        if entries.last().0 != id {
            assert(without_id(entries, id) == r.push(entries.last()));
            assert(r.push(entries.last()).drop_last() =~= r);
            assert(r.push(entries.last()).last() == entries.last());
        } else {
            assert(without_id(entries, id) == r);
        }
        assert forall|k: Seq<char>| k != id implies #[trigger] waiting(without_id(entries, id), k) == waiting(entries, k) by {
            assert(waiting(r, k) == waiting(entries.drop_last(), k));
        }
    }
}

/// A subscription's messages are streamed once: taking them right after the
/// subscription was created gives them back, and taking them again gives
/// nothing.
pub proof fn lemma_created_subscription_streams_once(
    entries: Seq<(Seq<char>, Seq<Seq<char>>)>,
    id: Seq<char>,
    messages: Seq<Seq<char>>,
)
    ensures
        waiting(entries.push((id, messages)), id) == Some(messages),
        waiting(without_id(entries.push((id, messages)), id), id) is None,
{
    assert(entries.push((id, messages)).last() == (id, messages));
    lemma_without_id(entries.push((id, messages)), id);
}

/// The request line and headers of an adapter request.
pub struct AdapterHead {
    pub method: String,
    pub path: String,
    pub headers: Vec<(String, String)>,
    pub content_length: usize,
}

pub struct AdapterHeadView {
    pub method: Seq<char>,
    pub path: Seq<char>,
    pub headers: Seq<(Seq<char>, Seq<char>)>,
    pub content_length: nat,
}

impl View for AdapterHead {
    type V = AdapterHeadView;

    open spec fn view(&self) -> AdapterHeadView {
        AdapterHeadView {
            method: self.method@,
            path: self.path@,
            headers: pair_views(self.headers@),
            content_length: self.content_length as nat,
        }
    }
}

/// The headers of the lines after the request line; a repeated name keeps
/// its last value.
pub open spec fn adapter_headers(lines: Seq<Seq<char>>) -> Seq<(Seq<char>, Seq<char>)>
    decreases lines.len(),
{
    if lines.len() == 0 {
        Seq::empty()
    } else {
        let h = adapter_headers(lines.drop_last());
        match header_entry(lines.last()) {
            Some((k, v)) => upsert_pair(h, k, v),
            None => h,
        }
    }
}

/// The head of an adapter request whose header block is `text`; the body
/// may not exceed 4 MiB.
pub open spec fn adapter_head(text: Seq<char>) -> Result<AdapterHeadView, Seq<char>> {
    let lines = split_str(text, "\r\n"@);
    let words = ws_tokens(lines[0]);
    if words.len() == 0 {
        Err("browser adapter request missing method"@)
    } else if words.len() == 1 {
        Err("browser adapter request missing path"@)
    } else {
        let h = adapter_headers(lines.drop_first());
        let cl: nat = match lookup(h, "content-length"@) {
            Some(v) => match parse_unsigned(v, usize::MAX as nat) {
                Some(n) => n,
                None => 0,
            },
            None => 0,
        };
        if cl > MAX_ADAPTER_BODY_BYTES {
            Err("browser adapter request body too large"@)
        } else {
            Ok(AdapterHeadView { method: words[0], path: words[1], headers: h, content_length: cl })
        }
    }
}

fn adapter_header_lines(lines: &Vec<Vec<char>>, ghost_lines: Ghost<Seq<Seq<char>>>) -> (h: Vec<(String, String)>)
    requires
        lines@.len() == ghost_lines@.len() + 1,
        forall|k: int| 0 < k < lines@.len() ==> #[trigger] lines@[k]@ == ghost_lines@[k - 1],
    ensures
        pair_views(h@) == adapter_headers(ghost_lines@),
{
    let ghost g = ghost_lines@;
    let colon = chars_of(":");
    let mut headers: Vec<(String, String)> = Vec::new();
    let n = lines.len();
    let mut i: usize = 1;
    assert(g.take(0) =~= Seq::<Seq<char>>::empty());
    while i < n
        invariant
            n == lines@.len(),
            n == g.len() + 1,
            g == ghost_lines@,
            colon@ == ":"@,
            forall|k: int| 0 < k < n ==> #[trigger] lines@[k]@ == g[k - 1],
            1 <= i <= n,
            adapter_headers(g.take(i - 1)) == pair_views(headers@),
        decreases n - i,
    {
        proof {
            assert(g.take(i as int).drop_last() =~= g.take(i - 1));
            assert(g.take(i as int).last() == lines@[i as int]@);
        }
        let line = &lines[i];
        match split_once_vec(line.as_slice(), colon.as_slice()) {
            Some((name, value)) => {
                let (ns, ne) = trim_bounds(name.as_slice());
                let name_trim = slice_vec(name.as_slice(), ns, ne);
                let key = to_ascii_lowercase(name_trim.as_slice());
                let (vs, ve) = trim_bounds(value.as_slice());
                let val = substring(value.as_slice(), vs, ve);
                upsert(&mut headers, key, val);
            },
            None => {},
        }
        i = i + 1;
    }
    assert(g.take(n - 1) =~= g);
    headers
}

/// Parses the header block of an adapter request (the bytes before
/// `\r\n\r\n`).
pub fn parse_adapter_head(head: &[u8]) -> (r: Result<AdapterHead, String>)
    ensures
        !vstd::utf8::valid_utf8(head@) ==> (r matches Err(m) && m@
            == "browser adapter request headers were not valid UTF-8: "@ + utf8_error_text(head@)),
        vstd::utf8::valid_utf8(head@) ==> match r {
            Ok(h) => adapter_head(vstd::utf8::decode_utf8(head@)) == Ok::<AdapterHeadView, Seq<char>>(h@),
            Err(m) => adapter_head(vstd::utf8::decode_utf8(head@)) == Err::<AdapterHeadView, Seq<char>>(m@),
        },
{
    let text = match utf8_text(head) {
        Ok(t) => t,
        Err(e) => {
            let mut m = owned("browser adapter request headers were not valid UTF-8: ");
            push_str(&mut m, e.as_str());
            return Err(m);
        },
    };
    let tv = chars_of(text.as_str());
    let crlf = chars_of("\r\n");
    proof {
        reveal_strlit("\r\n");
    }
    let lines = split_text(tv.as_slice(), crlf.as_slice());
    let ghost all = split_str(tv@, crlf@);
    proof {
        lemma_split_str_nonempty(tv@, crlf@);
    }
    let words = split_whitespace(lines[0].as_slice());
    if words.len() == 0 {
        return Err(owned("browser adapter request missing method"));
    }
    if words.len() == 1 {
        return Err(owned("browser adapter request missing path"));
    }
    let method = string_of(words[0].as_slice());
    let path = string_of(words[1].as_slice());
    proof {
        assert forall|k: int| 0 < k < lines@.len() implies #[trigger] lines@[k]@ == all.drop_first()[k - 1] by {
            assert(all.drop_first()[k - 1] == all[k]);
        }
    }
    let headers = adapter_header_lines(&lines, Ghost(all.drop_first()));
    let content_length: usize = match crate::http::find_value(&headers, "content-length") {
        Some(v) => {
            let vc = chars_of(v.as_str());
            match parse_unsigned_chars(vc.as_slice(), usize::MAX as u64) {
                Some(n) => n as usize,
                None => 0,
            }
        },
        None => 0,
    };
    if content_length > MAX_ADAPTER_BODY_BYTES {
        return Err(owned(REQUEST_BODY_TOO_LARGE));
    }
    Ok(AdapterHead { method, path, headers, content_length })
}


/// The adapter's answer to a request, before it is written out: a failure
/// with its status line and error fields, a created subscription, or the
/// event stream of a subscription.
pub enum AdapterReply {
    Failure { status: u16, reason: String, kind: String, code: String, message: String },
    Created { subscription_id: String, stream_url: String },
    EventStream { body: String },
}

pub enum AdapterReplyView {
    Failure { status: u16, reason: Seq<char>, kind: Seq<char>, code: Seq<char>, message: Seq<char> },
    Created { subscription_id: Seq<char>, stream_url: Seq<char> },
    EventStream { body: Seq<char> },
}

impl View for AdapterReply {
    type V = AdapterReplyView;

    open spec fn view(&self) -> AdapterReplyView {
        match self {
            AdapterReply::Failure { status, reason, kind, code, message } => AdapterReplyView::Failure {
                status: *status,
                reason: reason@,
                kind: kind@,
                code: code@,
                message: message@,
            },
            AdapterReply::Created { subscription_id, stream_url } => AdapterReplyView::Created {
                subscription_id: subscription_id@,
                stream_url: stream_url@,
            },
            AdapterReply::EventStream { body } => AdapterReplyView::EventStream { body: body@ },
        }
    }
}

fn adapter_failure(status: u16, reason: &str, kind: &str, code: &str, message: String) -> (r: AdapterReply)
    ensures
        r@ == (AdapterReplyView::Failure { status, reason: reason@, kind: kind@, code: code@, message: message@ }),
{
    AdapterReply::Failure { status, reason: owned(reason), kind: owned(kind), code: owned(code), message }
}

/// The answer to `GET /local/browser-subscriptions/{id}/stream`: the accept
/// header must ask for an event stream, the path must end in `/stream`, and
/// the subscription must still wait to be streamed.
pub open spec fn stream_reply_of(
    entries: Seq<(Seq<char>, Seq<Seq<char>>)>,
    path: Seq<char>,
    accept: Option<Seq<char>>,
) -> AdapterReplyView {
    if !header_holds(accept, "text/event-stream"@) {
        AdapterReplyView::Failure {
            status: 400,
            reason: "bad request"@,
            kind: STREAM_ERROR_KIND@,
            code: "invalid_request"@,
            message: "accept must include text/event-stream"@,
        }
    } else {
        match stream_id_of(path) {
            None => AdapterReplyView::Failure {
                status: 404,
                reason: "not found"@,
                kind: STREAM_ERROR_KIND@,
                code: "not_found"@,
                message: "requested browser adapter stream was not found"@,
            },
            Some(id) => match waiting(entries, id) {
                None => AdapterReplyView::Failure {
                    status: 404,
                    reason: "not found"@,
                    kind: STREAM_ERROR_KIND@,
                    code: "not_found"@,
                    message: "subscription_id "@ + id + " was not found"@,
                },
                Some(m) => AdapterReplyView::EventStream { body: stream_body_of(m) },
            },
        }
    }
}

/// Answers a stream request.  The subscription it streams is taken out, so
/// it streams once; any other request leaves the subscriptions as they were.
pub fn handle_stream_request(subs: &mut BrowserSubscriptions, path: &str, headers: &Vec<(String, String)>) -> (r: AdapterReply)
    ensures
        r@ == stream_reply_of(old(subs)@.entries, path@, lookup(pair_views(headers@), "accept"@)),
        final(subs)@.created == old(subs)@.created,
        match (header_holds(lookup(pair_views(headers@), "accept"@), "text/event-stream"@), stream_id_of(path@)) {
            (true, Some(id)) => waiting(final(subs)@.entries, id) is None && forall|k: Seq<char>|
                k != id ==> #[trigger] waiting(final(subs)@.entries, k) == waiting(old(subs)@.entries, k),
            _ => final(subs)@ == old(subs)@,
        },
{
    let accept = match crate::http::find_value(headers, "accept") {
        Some(v) => Some(v.as_str()),
        None => None,
    };
    if !header_contains(accept, "text/event-stream") {
        return adapter_failure(400, "bad request", STREAM_ERROR_KIND, "invalid_request",
            owned("accept must include text/event-stream"));
    }
    let id = match stream_subscription_id(path) {
        Some(id) => id,
        None => {
            return adapter_failure(404, "not found", STREAM_ERROR_KIND, "not_found",
                owned("requested browser adapter stream was not found"));
        },
    };
    match subs.take(id.as_str()) {
        Some(messages) => AdapterReply::EventStream { body: browser_stream_body(&messages) },
        None => {
            let mut message = owned("subscription_id ");
            push_str(&mut message, id.as_str());
            push_str(&mut message, " was not found");
            assert(message@ =~= "subscription_id "@ + id@ + " was not found"@);
            adapter_failure(404, "not found", STREAM_ERROR_KIND, "not_found", message)
        },
    }
}

/// What became of a create-subscription body: it did not parse (the parse
/// error's text), the runtime refused the subscription request, or the
/// runtime's messages for it, each as JSON text.
pub enum SubscriptionSetup {
    Unparsed(String),
    Refused(SubscriptionErrorCode, String),
    Messages(Vec<String>),
}

/// The answer to `POST /local/browser-subscriptions`, and the messages that
/// a created subscription holds.
pub open spec fn create_reply_of(content_type: Option<Seq<char>>, setup: SubscriptionSetup, created: nat) -> AdapterReplyView {
    if !header_holds(content_type, "application/json"@) {
        AdapterReplyView::Failure {
            status: 400,
            reason: "bad request"@,
            kind: SETUP_ERROR_KIND@,
            code: "invalid_request"@,
            message: "content-type must equal application/json"@,
        }
    } else {
        match setup {
            SubscriptionSetup::Unparsed(e) => AdapterReplyView::Failure {
                status: 400,
                reason: "bad request"@,
                kind: SETUP_ERROR_KIND@,
                code: "invalid_request"@,
                message: "failed to parse create-subscription request: "@ + e@,
            },
            SubscriptionSetup::Refused(code, message) => AdapterReplyView::Failure {
                status: match code {
                    SubscriptionErrorCode::NotFound => 404,
                    _ => 400,
                },
                reason: "error"@,
                kind: SETUP_ERROR_KIND@,
                code: match code {
                    SubscriptionErrorCode::InvalidRequest => "invalid_request"@,
                    SubscriptionErrorCode::NotFound => "not_found"@,
                    SubscriptionErrorCode::UnsupportedOperation => "unsupported_operation"@,
                },
                message: message@,
            },
            SubscriptionSetup::Messages(_) => AdapterReplyView::Created {
                subscription_id: subscription_id_for(created + 1),
                stream_url: stream_url_of(subscription_id_for(created + 1)),
            },
        }
    }
}

/// A create request is accepted when its content type is JSON and the
/// runtime gave messages for it.
pub open spec fn create_accepted(content_type: Option<Seq<char>>, setup: SubscriptionSetup) -> bool {
    header_holds(content_type, "application/json"@) && setup is Messages
}

/// Answers a create-subscription request.  An accepted request stores its
/// messages under the next subscription id; any other request leaves the
/// subscriptions as they were.
pub fn handle_create_subscription(
    subs: &mut BrowserSubscriptions,
    headers: &Vec<(String, String)>,
    setup: SubscriptionSetup,
) -> (r: AdapterReply)
    requires
        old(subs)@.created < u64::MAX,
    ensures
        r@ == create_reply_of(lookup(pair_views(headers@), "content-type"@), setup, old(subs)@.created as nat),
        create_accepted(lookup(pair_views(headers@), "content-type"@), setup) ==> {
            &&& final(subs)@.created == old(subs)@.created + 1
            &&& final(subs)@.entries == old(subs)@.entries.push((
                subscription_id_for(final(subs)@.created as nat),
                crate::text::texts(setup->Messages_0@),
            ))
        },
        !create_accepted(lookup(pair_views(headers@), "content-type"@), setup) ==> final(subs)@ == old(subs)@,
{
    let content_type = match crate::http::find_value(headers, "content-type") {
        Some(v) => Some(v.as_str()),
        None => None,
    };
    if !header_contains(content_type, "application/json") {
        return adapter_failure(400, "bad request", SETUP_ERROR_KIND, "invalid_request",
            owned("content-type must equal application/json"));
    }
    match setup {
        SubscriptionSetup::Unparsed(e) => {
            let mut message = owned("failed to parse create-subscription request: ");
            push_str(&mut message, e.as_str());
            assert(message@ =~= "failed to parse create-subscription request: "@ + e@);
            adapter_failure(400, "bad request", SETUP_ERROR_KIND, "invalid_request", message)
        },
        SubscriptionSetup::Refused(code, message) => {
            let (status, code_text) = subscription_error_status(code);
            adapter_failure(status, "error", SETUP_ERROR_KIND, code_text, message)
        },
        SubscriptionSetup::Messages(messages) => {
            let subscription_id = subs.create(messages);
            let url = stream_url(subscription_id.as_str());
            AdapterReply::Created { subscription_id, stream_url: url }
        },
    }
}

/// The stream URL of a subscription names that subscription.
pub proof fn lemma_stream_url_names_subscription(id: Seq<char>)
    ensures
        stream_id_of(stream_url_of(id)) == Some(id),
{
    let p = "/local/browser-subscriptions/"@;
    let q = "/stream"@;
    let u = stream_url_of(id);
    assert(u.take(p.len() as int) =~= p);
    let tail = u.skip(p.len() as int);
    assert(tail =~= id + q);
    assert(tail.skip(tail.len() - q.len()) =~= q);
    assert(tail.take(tail.len() - q.len()) =~= id);
}

/// A subscription streams once: right after it was created with `messages`,
/// a stream request on the URL the creation answered, asking for an event
/// stream, answers those messages; once they were taken, the same request
/// is answered 404.
pub proof fn lemma_created_subscription_answers_its_stream_once(
    entries: Seq<(Seq<char>, Seq<Seq<char>>)>,
    created: nat,
    messages: Seq<Seq<char>>,
    accept: Option<Seq<char>>,
)
    requires
        header_holds(accept, "text/event-stream"@),
    ensures
        ({
            let id = subscription_id_for(created + 1);
            let after = entries.push((id, messages));
            &&& stream_reply_of(after, stream_url_of(id), accept)
                == (AdapterReplyView::EventStream { body: stream_body_of(messages) })
            &&& stream_reply_of(without_id(after, id), stream_url_of(id), accept) matches AdapterReplyView::Failure {
                status,
                ..
            } && status == 404
        }),
{
    let id = subscription_id_for(created + 1);
    lemma_stream_url_names_subscription(id);
    lemma_created_subscription_streams_once(entries, id, messages);
}

} // verus!
