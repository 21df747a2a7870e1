//! Reading a request off a connection, one chunk of bytes at a time: the
//! header block is collected up to its size cap and its first blank line,
//! its head is parsed, and the body is collected up to its declared length
//! or the end of the stream.  The caller does the reading and the clock;
//! each reader decides what the bytes received so far amount to.

use vstd::prelude::*;
use crate::http::{
    header_end, blank_line_from, lemma_blank_line_bounds, parse_request_head, push_bytes,
    request_from_parts, utf8_error_text, HttpRequest, HttpRequestView, RequestHead,
    RequestHeadView, request_head, MAX_REQUEST_HEADER_BYTES,
};
use crate::browser_adapter::{adapter_head, parse_adapter_head, AdapterHead, AdapterHeadView, MAX_ADAPTER_HEADER_BYTES};
use crate::text::{byte_slice, owned};

verus! {

/// Appending bytes keeps the first blank line where it was.
pub proof fn lemma_header_end_stable(b: Seq<u8>, c: Seq<u8>)
    requires
        header_end(b) is Some,
    ensures
        header_end(b + c) == header_end(b),
{
    let i = header_end(b)->0;
    lemma_blank_line_bounds(b, 0);
    lemma_blank_line_extends(b, c, 0, i);
}

proof fn lemma_blank_line_extends(b: Seq<u8>, c: Seq<u8>, j: int, i: int)
    requires
        0 <= j <= i,
        blank_line_from(b, j) == Some(i),
    ensures
        blank_line_from(b + c, j) == Some(i),
    decreases i - j,
{
    lemma_blank_line_bounds(b, j);
    let bc = b + c;
    assert(bc[j] == b[j] && bc[j + 1] == b[j + 1] && bc[j + 2] == b[j + 2] && bc[j + 3] == b[j + 3]);
    if j < i {
        lemma_blank_line_extends(b, c, j + 1, i);
    }
}

/// The bytes after the blank line at `end`, cut to the declared length.
pub open spec fn body_of(received: Seq<u8>, end: int, content_length: nat) -> Seq<u8> {
    let rest = received.skip(end + 4);
    if rest.len() > content_length {
        rest.take(content_length as int)
    } else {
        rest
    }
}

/// The head an HTTP/JSON API request's header bytes give.
pub open spec fn api_head_of(bytes: Seq<u8>) -> Result<RequestHeadView, Seq<char>> {
    if !vstd::utf8::valid_utf8(bytes) {
        Err("HTTP request headers not valid UTF-8: "@ + utf8_error_text(bytes))
    } else {
        request_head(vstd::utf8::decode_utf8(bytes))
    }
}

pub open spec fn request_view(h: RequestHeadView, body: Seq<u8>) -> HttpRequestView {
    HttpRequestView { method: h.method, path: h.path, query: h.query, headers: h.headers, body }
}

/// What a reader answers to a chunk.
pub enum ReadProgress<R> {
    /// More bytes are needed.
    More,
    /// The request cannot be read (the failure's text).
    Failed(String),
    /// The request, complete.
    Done(R),
}

/// Reads an HTTP/JSON API request.
pub struct ApiRequestReader {
    received: Vec<u8>,
    head: Option<RequestHead>,
    end: usize,
    finished: bool,
}

pub struct ApiReaderView {
    /// Every byte received so far.
    pub received: Seq<u8>,
    /// The parsed head, once the header block is complete.
    pub head: Option<RequestHeadView>,
    /// Where the blank line after the header block starts.
    pub end: nat,
    /// A request was answered or refused; nothing more is read.
    pub finished: bool,
}

impl View for ApiRequestReader {
    type V = ApiReaderView;

    closed spec fn view(&self) -> ApiReaderView {
        ApiReaderView {
            received: self.received@,
            head: match self.head {
                Some(h) => Some(h@),
                None => None,
            },
            end: self.end as nat,
            finished: self.finished,
        }
    }
}

impl ApiRequestReader {
    /// The header block is complete and the body is being read.
    pub fn reading_body(&self) -> (b: bool)
        ensures
            b == (self@.head is Some),
    {
        self.head.is_some()
    }

    /// How many bytes were received.
    pub fn received_len(&self) -> (n: usize)
        ensures
            n == self@.received.len(),
    {
        self.received.len()
    }

    /// A reader is consistent: before its head, no blank line was received;
    /// after it, the head is that of the bytes before the first blank line,
    /// and fewer body bytes than declared have arrived.
    pub closed spec fn wf(&self) -> bool {
        &&& self.received@.len() <= usize::MAX
        &&& self.finished || match self.head {
            None => header_end(self.received@) is None,
            Some(h) => {
                &&& header_end(self.received@) == Some(self.end as int)
                &&& api_head_of(self.received@.take(self.end as int)) == Ok::<RequestHeadView, Seq<char>>(h@)
                &&& self.received@.skip(self.end + 4).len() < h.content_length
            },
        }
    }

    pub fn new() -> (r: Self)
        ensures
            r.wf(),
            r@.received == Seq::<u8>::empty(),
            r@.head is None,
            !r@.finished,
    {
        let r = ApiRequestReader { received: Vec::new(), head: None, end: 0, finished: false };
        assert(r.received@ =~= Seq::<u8>::empty());
        r
    }

    /// Takes the next chunk read off the connection; an empty chunk is the
    /// end of the stream.  While the header block is incomplete, the size
    /// cap is enforced on everything received before the blank line is
    /// looked for; a complete block is parsed; a request is done when its
    /// declared body has arrived or the stream ended, its body being what
    /// followed the first blank line, cut to the declared length.
    pub fn feed(&mut self, chunk: &[u8]) -> (r: ReadProgress<HttpRequest>)
        requires
            old(self).wf(),
            !old(self)@.finished,
            old(self)@.received.len() + chunk@.len() <= usize::MAX,
        ensures
            final(self).wf(),
            ({
                let all = old(self)@.received + chunk@;
                match old(self)@.head {
                    None => if chunk@.len() == 0 {
                        r matches ReadProgress::Failed(m) && m@ == "HTTP request missing \\r\\n\\r\\n header terminator"@
                    } else if all.len() > MAX_REQUEST_HEADER_BYTES {
                        r matches ReadProgress::Failed(m) && m@ == "HTTP request headers too large"@
                    } else {
                        match header_end(all) {
                            None => r is More && final(self)@.received == all && final(self)@.head is None
                                && !final(self)@.finished,
                            Some(i) => match api_head_of(all.take(i)) {
                                Err(m) => r matches ReadProgress::Failed(x) && x@ == m,
                                Ok(h) => if all.skip(i + 4).len() >= h.content_length {
                                    r matches ReadProgress::Done(q) && q@ == request_view(h, body_of(all, i, h.content_length))
                                } else {
                                    r is More && final(self)@.received == all && final(self)@.head == Some(h)
                                        && !final(self)@.finished
                                },
                            },
                        }
                    },
                    Some(h) => match header_end(all) {
                        Some(i) => if chunk@.len() == 0 || all.skip(i + 4).len() >= h.content_length {
                            r matches ReadProgress::Done(q) && q@ == request_view(h, body_of(all, i, h.content_length))
                                && h == api_head_of(all.take(i))->Ok_0
                        } else {
                            r is More && final(self)@.received == all && final(self)@.head == Some(h)
                                && !final(self)@.finished
                        },
                        None => false,
                    },
                }
            }),
            !(r is More) ==> final(self)@.finished,
    {
        let ghost before = self.received@;
        if self.head.is_none() && chunk.len() == 0 {
            self.finished = true;
            return ReadProgress::Failed(owned("HTTP request missing \\r\\n\\r\\n header terminator"));
        }
        push_bytes(&mut self.received, chunk);
        let ghost all = self.received@;
        assert(all == before + chunk@);
        if self.head.is_none() {
            if self.received.len() > MAX_REQUEST_HEADER_BYTES {
                self.finished = true;
                return ReadProgress::Failed(owned("HTTP request headers too large"));
            }
            let end = match crate::http::find_header_end(self.received.as_slice()) {
                None => return ReadProgress::More,
                Some(i) => i,
            };
            proof {
                lemma_blank_line_bounds(all, 0);
            }
            let head_bytes = byte_slice(self.received.as_slice(), 0, end);
            assert(head_bytes@ =~= all.take(end as int));
            let head = match parse_request_head(head_bytes.as_slice()) {
                Err(m) => {
                    self.finished = true;
                    return ReadProgress::Failed(m);
                },
                Ok(h) => h,
            };
            assert(api_head_of(all.take(end as int)) == Ok::<RequestHeadView, Seq<char>>(head@));
            self.end = end;
            self.head = Some(head);
        } else {
            proof {
                lemma_header_end_stable(before, chunk@);
                lemma_blank_line_bounds(before, 0);
                assert(all.take(self.end as int) =~= before.take(self.end as int));
            }
        }
        let end = self.end;
        proof {
            lemma_blank_line_bounds(all, 0);
        }
        let rest_len = self.received.len() - (end + 4);
        assert(all.skip(end + 4).len() == rest_len);
        let cl = match &self.head {
            Some(h) => h.content_length,
            None => 0,
        };
        if chunk.len() == 0 || rest_len >= cl {
            let body = byte_slice(self.received.as_slice(), end + 4, self.received.len());
            assert(body@ =~= all.skip(end + 4));
            let mut head: Option<RequestHead> = None;
            std::mem::swap(&mut head, &mut self.head);
            self.finished = true;
            match head {
                Some(h) => {
                    let q = request_from_parts(h, body);
                    return ReadProgress::Done(q);
                },
                None => {
                    return ReadProgress::More;
                },
            }
        }
        ReadProgress::More
    }
}

/// The head a browser adapter request's header bytes give.
pub open spec fn adapter_head_of(bytes: Seq<u8>) -> Result<AdapterHeadView, Seq<char>> {
    if !vstd::utf8::valid_utf8(bytes) {
        Err("browser adapter request headers were not valid UTF-8: "@ + utf8_error_text(bytes))
    } else {
        adapter_head(vstd::utf8::decode_utf8(bytes))
    }
}

/// A browser adapter request: its request line, headers and body.
pub struct AdapterRequest {
    pub method: String,
    pub path: String,
    pub headers: Vec<(String, String)>,
    pub body: Vec<u8>,
}

pub struct AdapterRequestView {
    pub method: Seq<char>,
    pub path: Seq<char>,
    pub headers: Seq<(Seq<char>, Seq<char>)>,
    pub body: Seq<u8>,
}

impl View for AdapterRequest {
    type V = AdapterRequestView;

    open spec fn view(&self) -> AdapterRequestView {
        AdapterRequestView {
            method: self.method@,
            path: self.path@,
            headers: crate::http::pair_views(self.headers@),
            body: self.body@,
        }
    }
}

pub open spec fn adapter_request_view(h: AdapterHeadView, body: Seq<u8>) -> AdapterRequestView {
    AdapterRequestView { method: h.method, path: h.path, headers: h.headers, body }
}

fn adapter_request(h: AdapterHead, body: Vec<u8>) -> (r: AdapterRequest)
    ensures
        r@ == adapter_request_view(h@, if body@.len() > h.content_length {
            body@.take(h.content_length as int)
        } else {
            body@
        }),
{
    let mut body = body;
    if body.len() > h.content_length {
        body.truncate(h.content_length);
    }
    AdapterRequest { method: h.method, path: h.path, headers: h.headers, body }
}

/// Reads a local browser adapter request.
pub struct AdapterRequestReader {
    received: Vec<u8>,
    head: Option<AdapterHead>,
    end: usize,
    finished: bool,
}

pub struct AdapterReaderView {
    /// Every byte received so far.
    pub received: Seq<u8>,
    /// The parsed head, once the header block is complete.
    pub head: Option<AdapterHeadView>,
    /// Where the blank line after the header block starts.
    pub end: nat,
    /// A request was answered or refused; nothing more is read.
    pub finished: bool,
}

impl View for AdapterRequestReader {
    type V = AdapterReaderView;

    closed spec fn view(&self) -> AdapterReaderView {
        AdapterReaderView {
            received: self.received@,
            head: match self.head {
                Some(h) => Some(h@),
                None => None,
            },
            end: self.end as nat,
            finished: self.finished,
        }
    }
}

impl AdapterRequestReader {
    /// The header block is complete and the body is being read.
    pub fn reading_body(&self) -> (b: bool)
        ensures
            b == (self@.head is Some),
    {
        self.head.is_some()
    }

    /// How many bytes were received.
    pub fn received_len(&self) -> (n: usize)
        ensures
            n == self@.received.len(),
    {
        self.received.len()
    }

    /// A reader is consistent: before its head, no blank line was received;
    /// after it, the head is that of the bytes before the first blank line,
    /// and fewer body bytes than declared have arrived.
    pub closed spec fn wf(&self) -> bool {
        &&& self.received@.len() <= usize::MAX
        &&& self.finished || match self.head {
            None => header_end(self.received@) is None,
            Some(h) => {
                &&& header_end(self.received@) == Some(self.end as int)
                &&& adapter_head_of(self.received@.take(self.end as int)) == Ok::<AdapterHeadView, Seq<char>>(h@)
                &&& self.received@.skip(self.end + 4).len() < h.content_length
            },
        }
    }

    pub fn new() -> (r: Self)
        ensures
            r.wf(),
            r@.received == Seq::<u8>::empty(),
            r@.head is None,
            !r@.finished,
    {
        let r = AdapterRequestReader { received: Vec::new(), head: None, end: 0, finished: false };
        assert(r.received@ =~= Seq::<u8>::empty());
        r
    }

    /// Takes the next chunk read off the connection; an empty chunk is the
    /// end of the stream.  While the header block is incomplete, the size
    /// cap is enforced on everything received before the blank line is
    /// looked for; a complete block is parsed; a request is done when its
    /// declared body has arrived or the stream ended, its body being what
    /// followed the first blank line, cut to the declared length.
    pub fn feed(&mut self, chunk: &[u8]) -> (r: ReadProgress<AdapterRequest>)
        requires
            old(self).wf(),
            !old(self)@.finished,
            old(self)@.received.len() + chunk@.len() <= usize::MAX,
        ensures
            final(self).wf(),
            ({
                let all = old(self)@.received + chunk@;
                match old(self)@.head {
                    None => if chunk@.len() == 0 {
                        r matches ReadProgress::Failed(m) && m@ == "browser adapter request missing header terminator"@
                    } else if all.len() > MAX_ADAPTER_HEADER_BYTES {
                        r matches ReadProgress::Failed(m) && m@ == "browser adapter request too large"@
                    } else {
                        match header_end(all) {
                            None => r is More && final(self)@.received == all && final(self)@.head is None
                                && !final(self)@.finished,
                            Some(i) => match adapter_head_of(all.take(i)) {
                                Err(m) => r matches ReadProgress::Failed(x) && x@ == m,
                                Ok(h) => if all.skip(i + 4).len() >= h.content_length {
                                    r matches ReadProgress::Done(q) && q@ == adapter_request_view(h, body_of(all, i, h.content_length))
                                } else {
                                    r is More && final(self)@.received == all && final(self)@.head == Some(h)
                                        && !final(self)@.finished
                                },
                            },
                        }
                    },
                    Some(h) => match header_end(all) {
                        Some(i) => if chunk@.len() == 0 || all.skip(i + 4).len() >= h.content_length {
                            r matches ReadProgress::Done(q) && q@ == adapter_request_view(h, body_of(all, i, h.content_length))
                                && h == adapter_head_of(all.take(i))->Ok_0
                        } else {
                            r is More && final(self)@.received == all && final(self)@.head == Some(h)
                                && !final(self)@.finished
                        },
                        None => false,
                    },
                }
            }),
            !(r is More) ==> final(self)@.finished,
    {
        let ghost before = self.received@;
        if self.head.is_none() && chunk.len() == 0 {
            self.finished = true;
            return ReadProgress::Failed(owned("browser adapter request missing header terminator"));
        }
        push_bytes(&mut self.received, chunk);
        let ghost all = self.received@;
        assert(all == before + chunk@);
        if self.head.is_none() {
            if self.received.len() > MAX_ADAPTER_HEADER_BYTES {
                self.finished = true;
                return ReadProgress::Failed(owned("browser adapter request too large"));
            }
            let end = match crate::http::find_header_end(self.received.as_slice()) {
                None => return ReadProgress::More,
                Some(i) => i,
            };
            proof {
                lemma_blank_line_bounds(all, 0);
            }
            let head_bytes = byte_slice(self.received.as_slice(), 0, end);
            assert(head_bytes@ =~= all.take(end as int));
            let head = match parse_adapter_head(head_bytes.as_slice()) {
                Err(m) => {
                    self.finished = true;
                    return ReadProgress::Failed(m);
                },
                Ok(h) => h,
            };
            assert(adapter_head_of(all.take(end as int)) == Ok::<AdapterHeadView, Seq<char>>(head@));
            self.end = end;
            self.head = Some(head);
        } else {
            proof {
                lemma_header_end_stable(before, chunk@);
                lemma_blank_line_bounds(before, 0);
                assert(all.take(self.end as int) =~= before.take(self.end as int));
            }
        }
        let end = self.end;
        proof {
            lemma_blank_line_bounds(all, 0);
        }
        let rest_len = self.received.len() - (end + 4);
        assert(all.skip(end + 4).len() == rest_len);
        let cl = match &self.head {
            Some(h) => h.content_length,
            None => 0,
        };
        if chunk.len() == 0 || rest_len >= cl {
            let body = byte_slice(self.received.as_slice(), end + 4, self.received.len());
            assert(body@ =~= all.skip(end + 4));
            let mut head: Option<AdapterHead> = None;
            std::mem::swap(&mut head, &mut self.head);
            self.finished = true;
            match head {
                Some(h) => {
                    let q = adapter_request(h, body);
                    return ReadProgress::Done(q);
                },
                None => {
                    return ReadProgress::More;
                },
            }
        }
        ReadProgress::More
    }
}

} // verus!
