//! The request head: decoding it from the shared buffer, and what a decoded
//! request reports about itself.
use bytes::BytesMut;
use vstd::prelude::*;
use vstd::utf8::is_ascii_chars;

use crate::body::{BodyReader, ReaderState};
use crate::buffer::{advance_by, pending, pending_bytes};
use crate::content_length::{content_length_from, content_length_of, is_content_length_name, parse_decimal};

verus! {

/// The number of header slots that one decode offers the parser.
pub const MAX_HEADERS: usize = 16;

#[verifier::external_type_specification]
#[verifier::external_body]
pub struct ExParseError(httparse::Error);

/// One header of a request: its name and its raw value.
#[derive(Debug)]
pub struct Header {
    pub name: String,
    pub value: Vec<u8>,
}

impl View for Header {
    type V = (Seq<char>, Seq<u8>);

    open spec fn view(&self) -> (Seq<char>, Seq<u8>) {
        (self.name@, self.value@)
    }
}

/// What a request head holds, as mathematical values.
pub struct RequestView {
    pub method: Seq<char>,
    pub path: Seq<char>,
    pub version: u8,
    pub headers: Seq<(Seq<char>, Seq<u8>)>,
}

/// What the head parser makes of a run of unread bytes.
pub enum HeadParse {
    /// The bytes end before the head does.
    Partial,
    /// The bytes hold a whole head, of `len` bytes.
    Complete { len: nat, head: RequestView },
    /// The bytes break the request grammar.
    Invalid,
}

/// What `httparse::Request::parse` makes of `buf`, with sixteen header slots.
pub uninterp spec fn head_parse_of(buf: Seq<u8>) -> HeadParse;

/// A head as the parser hands it out: at most `MAX_HEADERS` headers, each
/// with an ASCII name.
pub open spec fn head_is_parsed(v: RequestView) -> bool {
    &&& v.headers.len() <= MAX_HEADERS
    &&& forall|i: int| 0 <= i < v.headers.len() ==> is_ascii_chars(#[trigger] v.headers[i].0)
}

/// The unread bytes that a decode leaves behind: past the head when the
/// head is complete, all of them otherwise.
pub open spec fn decode_leaves(buf: Seq<u8>) -> Seq<u8> {
    match head_parse_of(buf) {
        HeadParse::Complete { len, .. } => buf.skip(len as int),
        _ => buf,
    }
}

/// The unread bytes of a buffer, empty at first, into which `chunks` arrive
/// one after another, with a decode after every chunk but the last.
pub open spec fn fed(chunks: Seq<Seq<u8>>) -> Seq<u8>
    decreases chunks.len(),
{
    if chunks.len() == 0 {
        Seq::empty()
    } else if chunks.len() == 1 {
        chunks[0]
    } else {
        decode_leaves(fed(chunks.drop_last())) + chunks.last()
    }
}

/// Where every decode before the last chunk finds the head incomplete, the
/// buffer ends up holding the whole byte sequence, so the final decode yields
/// what one decode of the sequence in one piece yields.
pub proof fn lemma_chunked_decode(chunks: Seq<Seq<u8>>)
    requires
        forall|i: int| 1 <= i < chunks.len() ==> head_parse_of(#[trigger] fed(chunks.take(i))) is Partial,
    ensures
        fed(chunks) == chunks.flatten(),
        head_parse_of(fed(chunks)) == head_parse_of(chunks.flatten()),
        decode_leaves(fed(chunks)) == decode_leaves(chunks.flatten()),
    decreases chunks.len(),
{
    chunks.lemma_flatten_and_flatten_alt_are_equivalent();
    if chunks.len() == 1 {
        chunks.lemma_flatten_one_element();
    } else if chunks.len() >= 2 {
        let init = chunks.drop_last();
        assert forall|i: int| 1 <= i < init.len() implies head_parse_of(
            #[trigger] fed(init.take(i)),
        ) is Partial by {
            assert(init.take(i) =~= chunks.take(i));
        }
        lemma_chunked_decode(init);
        assert(chunks.take(init.len() as int) =~= init);
        init.lemma_flatten_and_flatten_alt_are_equivalent();
    }
}

/// A decoded request head.
#[derive(Debug)]
pub struct Request {
    method: String,
    path: String,
    version: u8,
    headers: Vec<Header>,
}

/// Why a request could not be decoded or its body not be opened.
#[derive(Debug)]
pub enum RequestError {
    /// The head breaks the request grammar.
    Malformed(httparse::Error),
    /// A `content-length` header whose value is not a decimal `usize`.
    InvalidContentLength,
}

impl Request {
    pub closed spec fn view(&self) -> RequestView {
        RequestView {
            method: self.method@,
            path: self.path@,
            version: self.version,
            headers: self.headers@.map_values(|h: Header| h@),
        }
    }

    #[verifier::type_invariant]
    closed spec fn inv(&self) -> bool {
        head_is_parsed(self.view())
    }

    /// The request method, such as `GET`.
    pub fn method(&self) -> (r: &str)
        ensures
            r@ == self.view().method,
    {
        self.method.as_str()
    }

    /// The request target, such as `/hello`.
    pub fn path(&self) -> (r: &str)
        ensures
            r@ == self.view().path,
    {
        self.path.as_str()
    }

    /// The minor version: `1` for `HTTP/1.1`.
    pub fn version(&self) -> (r: u8)
        ensures
            r == self.view().version,
    {
        self.version
    }

    /// A short description of the request: `<HTTP Request METHOD PATH>`.
    pub fn describe(&self) -> (r: String)
        ensures
            r@ == "<HTTP Request "@ + self.view().method + " "@ + self.view().path + ">"@,
    {
        let mut s = String::from_str("<HTTP Request ");
        s.append(self.method.as_str());
        s.append(" ");
        s.append(self.path.as_str());
        s.append(">");
        s
    }

    /// The headers, in the order in which they came.
    pub fn headers(&self) -> (r: &[Header])
        ensures
            r@.map_values(|h: Header| h@) == self.view().headers,
    {
        self.headers.as_slice()
    }

    /// The body length that the headers declare: the value of the first
    /// `content-length` header (any case), 0 when there is none.
    pub fn content_length(&self) -> (r: Result<usize, RequestError>)
        ensures
            match content_length_of(self.view().headers) {
                Some(n) => r matches Ok(m) && m == n,
                None => r matches Err(RequestError::InvalidContentLength),
            },
    {
        proof {
            use_type_invariant(self);
        }
        let ghost hs = self.view().headers;
        let mut i: usize = 0;
        while i < self.headers.len()
            invariant
                hs == self.view().headers,
                hs.len() == self.headers@.len(),
                head_is_parsed(self.view()),
                content_length_from(hs, i as int) == content_length_of(hs),
            decreases self.headers.len() - i,
        {
            let h = &self.headers[i];
            assert(hs[i as int] == h@);
            assert(is_ascii_chars(hs[i as int].0));
            if is_content_length_name(h.name.as_str()) {
                return match parse_decimal(h.value.as_slice()) {
                    Some(n) => Ok(n),
                    None => Err(RequestError::InvalidContentLength),
                };
            }
            i = i + 1;
        }
        Ok(0)
    }

    /// Hands the request over to a reader of its body, bounded by the declared
    /// body length.
    pub fn body(self) -> (r: Result<BodyReader, RequestError>)
        ensures
            match content_length_of(self.view().headers) {
                Some(n) => r matches Ok(b) && b@ == (ReaderState { limit: n as nat, total: 0 }),
                None => r matches Err(RequestError::InvalidContentLength),
            },
    {
        match self.content_length() {
            Ok(n) => Ok(BodyReader::new(n)),
            Err(e) => Err(e),
        }
    }
}

/// Relies on `httparse::Request::parse` with sixteen header slots: its answer
/// on `buf`, copied out of the borrowed views. The offset of a complete head
/// lies within `buf`, and header names are ASCII tokens.
#[verifier::external_body]
fn parse_head(buf: &[u8]) -> (r: Result<Option<(usize, Request)>, httparse::Error>)
    ensures
        match head_parse_of(buf@) {
            HeadParse::Partial => r matches Ok(None),
            HeadParse::Invalid => r is Err,
            HeadParse::Complete { len, head } => r matches Ok(Some((n, req)))
                && n == len && req.view() == head && len <= buf@.len()
                && head_is_parsed(head),
        },
{
    let mut slots = [httparse::EMPTY_HEADER; MAX_HEADERS];
    let mut req = httparse::Request::new(&mut slots);
    let len = match req.parse(buf)? {
        httparse::Status::Partial => return Ok(None),
        httparse::Status::Complete(len) => len,
    };
    let headers = req.headers.iter().map(|h| Header { name: h.name.to_string(), value: h.value.to_vec() });
    Ok(Some((len, Request {
        method: req.method.unwrap().to_string(),
        path: req.path.unwrap().to_string(),
        version: req.version.unwrap(),
        headers: headers.collect(),
    })))
}

/// Decodes a request head from the unread bytes of `req_buf`. `Ok(None)`:
/// the head is not complete yet, and nothing was consumed. On success the
/// read cursor stands on the first byte after the head.
pub fn decode(req_buf: &mut BytesMut) -> (r: Result<Option<Request>, RequestError>)
    ensures
        pending(*final(req_buf)) == decode_leaves(pending(*old(req_buf))),
        match head_parse_of(pending(*old(req_buf))) {
            HeadParse::Partial => r matches Ok(None),
            HeadParse::Invalid => r matches Err(RequestError::Malformed(_)),
            HeadParse::Complete { len, head } => r matches Ok(Some(req)) && req.view() == head,
        },
{
    let parsed = parse_head(pending_bytes(req_buf));
    match parsed {
        Err(e) => Err(RequestError::Malformed(e)),
        Ok(None) => Ok(None),
        Ok(Some((len, req))) => {
            advance_by(req_buf, len);
            Ok(Some(req))
        },
    }
}

} // verus!
