//! The request: a request line, header lines up to a blank line, and a
//! body whose length the `Content-Length` header declares.

use crate::bytes::after_first_line;
use crate::bytes::bytes_eq;
use crate::bytes::find;
use crate::bytes::first_line;
use crate::bytes::index_of;
use crate::bytes::last_part_start;
use crate::bytes::lemma_after_first_line;
use crate::bytes::lemma_first_line_join;
use crate::bytes::lemma_index_of;
use crate::bytes::lemma_split_last;
use crate::bytes::lemma_split_len;
use crate::bytes::next_line;
use crate::bytes::split;
use crate::bytes::COLON;
use crate::bytes::LF;
use crate::bytes::SPACE;
use crate::error::Error;
use crate::headers::lookup;
use crate::headers::put;
use crate::headers::Headers;
use crate::http::method::Method;
use crate::http::method::MethodView;
use crate::number::number_usize;
use crate::number::parse_usize;
use crate::text::cut;
use crate::text::lemma_cut_is_valid;
use crate::text::lossy_text;
use crate::text::trim;
use crate::text::trimmed;
use crate::text::utf8_lossy;
use crate::text::utf8_text;
use vstd::prelude::*;
use vstd::slice::slice_subrange;
use vstd::slice::slice_to_vec;
use vstd::string::StringExecFns;
use vstd::utf8::decode_utf8;
use vstd::utf8::encode_utf8;
use vstd::utf8::valid_utf8;

verus! {

/// The bytes of the one protocol version that is taken.
pub open spec fn version_bytes() -> Seq<u8> {
    encode_utf8("HTTP/1.1"@)
}

/// What a request line says: the method that its first token names and its
/// second token, the location. The line is parted at every single space;
/// it needs three tokens at least, and the last one must be the version.
pub open spec fn start_line(line: Seq<u8>) -> Result<(MethodView, Seq<char>), Error> {
    let parts = split(line, SPACE);
    if parts.len() < 3 {
        Err(Error::MalformedRequestLine)
    } else if parts.last() != version_bytes() {
        Err(Error::InvalidHttpVersion)
    } else {
        Ok((MethodView::of(decode_utf8(parts[0])), decode_utf8(parts[1])))
    }
}

/// What a header line says: the name before its first colon and the value
/// behind it, both without the whitespace around them.
pub open spec fn header_line(line: Seq<u8>) -> Result<(Seq<char>, Seq<char>), Error> {
    let colon = index_of(line, COLON);
    if 0 <= colon < line.len() {
        Ok((trim(decode_utf8(line.take(colon))), trim(decode_utf8(line.skip(colon + 1)))))
    } else {
        Err(Error::MalformedHeader)
    }
}

/// The header lines at the start of `s`, set one after the other on top of
/// `fields`, up to the blank line that ends them or to the end of `s`.
/// Gives the fields, whether the blank line was there, and what follows it.
pub open spec fn parse_headers(s: Seq<u8>, fields: Seq<(Seq<char>, Seq<char>)>) -> Result<
    (Seq<(Seq<char>, Seq<char>)>, bool, Seq<u8>),
    Error,
>
    decreases s.len(),
{
    if s.len() == 0 {
        Ok((fields, false, s))
    } else {
        let line = first_line(s);
        if line.len() == 0 {
            Ok((fields, true, after_first_line(s)))
        } else if !valid_utf8(line) {
            Err(Error::InvalidEncoding)
        } else {
            match header_line(line) {
                Err(e) => Err(e),
                Ok((key, value)) => parse_headers(after_first_line(s), put(fields, key, value)),
            }
        }
    }
}

/// The head of a request as plain values.
pub struct HeadView {
    pub method: MethodView,
    pub location: Seq<char>,
    pub headers: Seq<(Seq<char>, Seq<char>)>,
    /// Whether the blank line that ends the head was there.
    pub complete: bool,
    /// What follows the head.
    pub rest: Seq<u8>,
}

/// The head of the request that `s` starts with. Blank lines before the
/// request line are passed over. A text with no request line at all, empty
/// or of blank lines only, reads as a `GET` of the empty location.
pub open spec fn parse_head(s: Seq<u8>) -> Result<HeadView, Error>
    decreases s.len(),
{
    if s.len() == 0 {
        Ok(
            HeadView {
                method: MethodView::Get,
                location: Seq::empty(),
                headers: Seq::empty(),
                complete: false,
                rest: s,
            },
        )
    } else {
        let line = first_line(s);
        if line.len() == 0 {
            parse_head(after_first_line(s))
        } else if !valid_utf8(line) {
            Err(Error::InvalidEncoding)
        } else {
            match start_line(line) {
                Err(e) => Err(e),
                Ok((method, location)) => head_from(method, location, after_first_line(s)),
            }
        }
    }
}

/// The head whose request line gave `method` and `location` and whose
/// header lines start `s`.
pub open spec fn head_from(method: MethodView, location: Seq<char>, s: Seq<u8>) -> Result<
    HeadView,
    Error,
> {
    head_with(method, location, parse_headers(s, Seq::empty()))
}

/// The head whose request line gave `method` and `location` and whose
/// header lines gave `fields`.
pub open spec fn head_with(
    method: MethodView,
    location: Seq<char>,
    fields: Result<(Seq<(Seq<char>, Seq<char>)>, bool, Seq<u8>), Error>,
) -> Result<HeadView, Error> {
    match fields {
        Err(e) => Err(e),
        Ok((headers, complete, rest)) => Ok(
            HeadView { method, location, headers, complete, rest },
        ),
    }
}

/// The length that `headers` declare for the body: the number that
/// `Content-Length` holds, and 0 where there is no such header.
pub open spec fn declared_length(headers: Seq<(Seq<char>, Seq<char>)>) -> Result<usize, Error> {
    match lookup(headers, "Content-Length"@) {
        None => Ok(0usize),
        Some(value) => match number_usize(value) {
            Some(length) => Ok(length),
            None => Err(Error::InvalidContentLength),
        },
    }
}

/// The body of a declared `length` out of what follows the head: none for
/// a length of 0, else the first `length` bytes, or all there are where
/// there are fewer.
pub open spec fn body_of(length: usize, rest: Seq<u8>) -> Option<Seq<u8>> {
    if length == 0 {
        None
    } else if length <= rest.len() {
        Some(rest.take(length as int))
    } else {
        Some(rest)
    }
}

/// A request as plain values.
pub struct RequestView {
    pub method: MethodView,
    pub location: Seq<char>,
    pub headers: Seq<(Seq<char>, Seq<char>)>,
    pub body: Option<Seq<u8>>,
}

impl RequestView {
    /// Whether the body goes with the headers: there is a body exactly
    /// when the headers declare a length that is not 0, and the body is no
    /// longer than that.
    pub open spec fn framed(self) -> bool {
        match declared_length(self.headers) {
            Err(_) => false,
            Ok(length) => match self.body {
                None => length == 0,
                Some(body) => 0 < length && body.len() <= length,
            },
        }
    }
}

/// The request that `s` starts with.
pub open spec fn parse(s: Seq<u8>) -> Result<RequestView, Error> {
    match parse_head(s) {
        Err(e) => Err(e),
        Ok(head) => match declared_length(head.headers) {
            Err(e) => Err(e),
            Ok(length) => Ok(
                RequestView {
                    method: head.method,
                    location: head.location,
                    headers: head.headers,
                    body: body_of(length, head.rest),
                },
            ),
        },
    }
}

/// What a stream must still give before the request that it starts can be
/// read.
#[derive(Debug, Clone, Copy, PartialEq, Eq, Structural)]
pub enum Missing {
    /// One more line of the head.
    Line,
    /// This many bytes of the body.
    Bytes(usize),
    /// Nothing: the request is all there, or is known to be refused.
    Nothing,
}

/// What is missing after `s` was received.
pub open spec fn missing_after(s: Seq<u8>) -> Missing {
    match parse_head(s) {
        Err(_) => Missing::Nothing,
        Ok(head) => if !head.complete {
            Missing::Line
        } else {
            match declared_length(head.headers) {
                Ok(length) if length > head.rest.len() => Missing::Bytes(
                    (length - head.rest.len()) as usize,
                ),
                _ => Missing::Nothing,
            }
        },
    }
}

/// What `parse_start_line` returns, as plain values.
pub open spec fn start_line_view(r: Result<(Method, String), Error>) -> Result<
    (MethodView, Seq<char>),
    Error,
> {
    match r {
        Ok((method, location)) => Ok((method@, location@)),
        Err(e) => Err(e),
    }
}

/// What `parse_header_line` returns, as plain values.
pub open spec fn header_line_view(r: Result<(String, String), Error>) -> Result<
    (Seq<char>, Seq<char>),
    Error,
> {
    match r {
        Ok((key, value)) => Ok((key@, value@)),
        Err(e) => Err(e),
    }
}

/// Reads the request line: returns method and location.
pub fn parse_start_line(line: String) -> (r: Result<(Method, String), Error>)
    ensures
        start_line_view(r) == start_line(encode_utf8(line@)),
{
    let text: &str = line.as_str();
    let bytes: &[u8] = text.as_bytes();
    let n: usize = bytes.len();
    assert(bytes@.skip(0) =~= bytes@);
    proof {
        lemma_index_of(bytes@, SPACE);
    }
    let first: usize = find(bytes, 0, SPACE);
    if first == n {
        return Err(Error::MalformedRequestLine);
    }
    let ghost behind_first = bytes@.skip(first + 1);
    proof {
        lemma_index_of(behind_first, SPACE);
    }
    let second: usize = find(bytes, first + 1, SPACE);
    if second == n {
        assert(split(behind_first, SPACE) =~= seq![behind_first]);
        return Err(Error::MalformedRequestLine);
    }
    let ghost behind_second = bytes@.skip(second + 1);
    assert(behind_second =~= behind_first.skip(second - first));
    let from: usize = last_part_start(bytes, second + 1, SPACE);
    let ghost parts = split(bytes@, SPACE);
    proof {
        assert forall|j: int| from - second - 1 <= j < behind_second.len() implies behind_second[j]
            != SPACE by {
            assert(behind_second[j] == bytes@[j + second + 1]);
        }
        lemma_split_len(behind_second, SPACE);
        lemma_split_last(behind_second, SPACE, from - second - 1);
        assert(behind_second.skip(from - second - 1) =~= bytes@.skip(from as int));
        assert(index_of(behind_first, SPACE) == second - first - 1);
        assert(behind_first.skip(second - first) == behind_second);
        assert(split(behind_first, SPACE) == seq![behind_first.take(second - first - 1)] + split(
            behind_second,
            SPACE,
        ));
        assert(index_of(bytes@, SPACE) == first);
        assert(parts == seq![bytes@.take(first as int)] + split(behind_first, SPACE));
        assert(parts.last() == bytes@.skip(from as int));
        assert(parts[0] == bytes@.take(first as int));
        assert(parts[1] =~= bytes@.subrange(first + 1, second as int));
    }
    let version: &[u8] = slice_subrange(bytes, from, n);
    assert(version@ =~= bytes@.skip(from as int));
    if !bytes_eq(version, "HTTP/1.1".as_bytes()) {
        return Err(Error::InvalidHttpVersion);
    }
    let method = Method::from_token(cut(text, 0, first));
    let location = String::from_str(cut(text, first + 1, second));
    assert(bytes@.subrange(0, first as int) =~= bytes@.take(first as int));
    Ok((method, location))
}

/// Reads a header line: returns name and value.
pub fn parse_header_line(line: String) -> (r: Result<(String, String), Error>)
    ensures
        header_line_view(r) == header_line(encode_utf8(line@)),
{
    let text: &str = line.as_str();
    let bytes: &[u8] = text.as_bytes();
    let n: usize = bytes.len();
    assert(bytes@.skip(0) =~= bytes@);
    proof {
        lemma_index_of(bytes@, COLON);
    }
    let colon: usize = find(bytes, 0, COLON);
    if colon == n {
        return Err(Error::MalformedHeader);
    }
    let key = String::from_str(trimmed(cut(text, 0, colon)));
    let value = String::from_str(trimmed(cut(text, colon + 1, n)));
    assert(bytes@.subrange(0, colon as int) =~= bytes@.take(colon as int));
    assert(bytes@.subrange(colon + 1, n as int) =~= bytes@.skip(colon + 1));
    Ok((key, value))
}

/// A request that was received.
#[derive(Debug)]
pub struct Request {
    method: Method,
    location: String,
    headers: Headers,
    body: Option<Vec<u8>>,
}

impl View for Request {
    type V = RequestView;

    closed spec fn view(&self) -> RequestView {
        RequestView {
            method: self.method@,
            location: self.location@,
            headers: self.headers@,
            body: match self.body {
                Some(bytes) => Some(bytes@),
                None => None,
            },
        }
    }
}

/// The head of a request, and how much of the stream it takes.
struct Head {
    method: Method,
    location: String,
    headers: Headers,
    complete: bool,
    length: usize,
}

impl Head {
    /// Whether this is the head `v`, read from `stream`.
    spec fn is(&self, stream: Seq<u8>, v: HeadView) -> bool {
        &&& self.method@ == v.method
        &&& self.location@ == v.location
        &&& self.headers@ == v.headers
        &&& self.complete == v.complete
        &&& self.length <= stream.len()
        &&& stream.skip(self.length as int) == v.rest
    }
}

/// Reads the line of `stream` from `from` to `to` as text.
fn line_text(stream: &[u8], from: usize, to: usize) -> (r: Result<String, Error>)
    requires
        from <= to <= stream.len(),
    ensures
        match r {
            Ok(line) => valid_utf8(stream@.subrange(from as int, to as int)) && encode_utf8(line@)
                == stream@.subrange(from as int, to as int),
            Err(e) => !valid_utf8(stream@.subrange(from as int, to as int)) && e
                == Error::InvalidEncoding,
        },
{
    match utf8_text(slice_subrange(stream, from, to)) {
        Some(text) => Ok(String::from_str(text)),
        None => Err(Error::InvalidEncoding),
    }
}

/// Reads the head that `stream` starts with.
fn read_head(stream: &[u8]) -> (r: Result<Head, Error>)
    ensures
        match r {
            Ok(head) => parse_head(stream@) matches Ok(v) && head.is(stream@, v),
            Err(e) => parse_head(stream@) == Err::<HeadView, Error>(e),
        },
{
    let n: usize = stream.len();
    let mut pos: usize = 0;
    let mut start: Option<(Method, String)> = None;
    assert(stream@.skip(0) =~= stream@);
    while pos < n && start.is_none()
        invariant
            pos <= n,
            n == stream@.len(),
            start is None ==> parse_head(stream@) == parse_head(stream@.skip(pos as int)),
            start matches Some(found) ==> parse_head(stream@) == head_from(
                found.0@,
                found.1@,
                stream@.skip(pos as int),
            ),
        decreases n - pos,
    {
        let (end, next) = next_line(stream, pos);
        if end > pos {
            // parse starting line
            let line = match line_text(stream, pos, end) {
                Ok(line) => line,
                Err(e) => {
                    return Err(e);
                },
            };
            match parse_start_line(line) {
                Ok(found) => {
                    start = Some(found);
                },
                Err(e) => {
                    return Err(e);
                },
            }
        }
        pos = next;
    }
    let (method, location) = match start {
        Some(found) => found,
        None => {
            return Ok(
                Head {
                    method: Method::Get,
                    location: String::new(),
                    headers: Headers::new(),
                    complete: false,
                    length: n,
                },
            );
        },
    };
    let ghost wanted = parse_headers(stream@.skip(pos as int), Seq::empty());
    let mut headers = Headers::new();
    let mut complete: bool = false;
    // parse lines until one is empty
    while pos < n && !complete
        invariant
            pos <= n,
            n == stream@.len(),
            parse_head(stream@) == head_with(method@, location@, wanted),
            !complete ==> wanted == parse_headers(stream@.skip(pos as int), headers@),
            complete ==> wanted == Ok::<(Seq<(Seq<char>, Seq<char>)>, bool, Seq<u8>), Error>(
                (headers@, true, stream@.skip(pos as int)),
            ),
        decreases n - pos,
    {
        let (end, next) = next_line(stream, pos);
        if end == pos {
            complete = true;
        } else {
            let line = match line_text(stream, pos, end) {
                Ok(line) => line,
                Err(e) => {
                    return Err(e);
                },
            };
            match parse_header_line(line) {
                Ok((key, val)) => {
                    headers.insert(key, val);
                },
                Err(e) => {
                    return Err(e);
                },
            }
        }
        pos = next;
    }
    Ok(Head { method, location, headers, complete, length: pos })
}

/// Reads the length that `headers` declare for the body.
fn read_length(headers: &Headers) -> (r: Result<usize, Error>)
    ensures
        r == declared_length(headers@),
{
    match headers.get("Content-Length") {
        None => Ok(0),
        Some(value) => match parse_usize(value.as_str()) {
            Some(length) => Ok(length),
            None => Err(Error::InvalidContentLength),
        },
    }
}

impl Request {
    #[verifier::type_invariant]
    spec fn body_is_framed(&self) -> bool {
        self@.framed()
    }

    /// Read request from the bytes of an incoming stream and return the
    /// assembled request. The body is cut to its declared length, or to
    /// what is there: no byte is read behind it.
    pub fn from_stream(stream: &[u8]) -> (r: Result<Request, Error>)
        ensures
            match r {
                Ok(req) => parse(stream@) == Ok::<RequestView, Error>(req@),
                Err(e) => parse(stream@) == Err::<RequestView, Error>(e),
            },
    {
        let head = match read_head(stream) {
            Ok(head) => head,
            Err(e) => {
                return Err(e);
            },
        };
        // Read body if Content-Length > 0
        let length: usize = match read_length(&head.headers) {
            Ok(length) => length,
            Err(e) => {
                return Err(e);
            },
        };
        let ghost rest = stream@.skip(head.length as int);
        let body: Option<Vec<u8>> = if length == 0 {
            None
        } else if length <= stream.len() - head.length {
            let bytes = slice_to_vec(slice_subrange(stream, head.length, head.length + length));
            assert(bytes@ =~= rest.take(length as int));
            Some(bytes)
        } else {
            let bytes = slice_to_vec(slice_subrange(stream, head.length, stream.len()));
            assert(bytes@ =~= rest);
            Some(bytes)
        };
        Ok(Request { method: head.method, location: head.location, headers: head.headers, body })
    }

    /// Tells what a stream that gave `received` so far must still give
    /// before `from_stream` can read the request: whoever reads the stream
    /// asks after every line.
    pub fn missing(received: &[u8]) -> (m: Missing)
        ensures
            m == missing_after(received@),
    {
        let head = match read_head(received) {
            Ok(head) => head,
            Err(_) => {
                return Missing::Nothing;
            },
        };
        if !head.complete {
            return Missing::Line;
        }
        match read_length(&head.headers) {
            Ok(length) => {
                if length > received.len() - head.length {
                    Missing::Bytes(length - (received.len() - head.length))
                } else {
                    Missing::Nothing
                }
            },
            Err(_) => Missing::Nothing,
        }
    }

    /// The method that the request line names.
    pub fn method(&self) -> (method: &Method)
        ensures
            method@ == self@.method,
    {
        &self.method
    }

    /// The request target, as it was received.
    pub fn location(&self) -> (location: &String)
        ensures
            location@ == self@.location,
    {
        &self.location
    }

    /// The value of the header named `key`, as it was received: names are
    /// not folded to one case.
    pub fn header(&self, key: &String) -> (value: Option<&String>)
        ensures
            match value {
                Some(v) => lookup(self@.headers, key@) == Some(v@),
                None => lookup(self@.headers, key@).is_none(),
            },
    {
        self.headers.get(key.as_str())
    }

    /// The body as text, with whatever is not valid UTF-8 replaced.
    pub fn body(&self) -> (text: Option<String>)
        ensures
            match text {
                Some(t) => self@.body matches Some(bytes) && t@ == lossy_text(bytes),
                None => self@.body.is_none(),
            },
    {
        match &self.body {
            Some(bytes) => Some(utf8_lossy(bytes.as_slice())),
            None => None,
        }
    }

    /// The body, which goes with the headers: see `framed`.
    pub fn body_bytes(&self) -> (bytes: Option<&Vec<u8>>)
        ensures
            match bytes {
                Some(b) => self@.body == Some(b@),
                None => self@.body.is_none(),
            },
            self@.framed(),
    {
        proof {
            use_type_invariant(self);
        }
        self.body.as_ref()
    }
}

/// What follows the header lines is the tail of the text.
pub proof fn lemma_fields_rest_is_tail(s: Seq<u8>, fields: Seq<(Seq<char>, Seq<char>)>)
    ensures
        parse_headers(s, fields) matches Ok(found) ==> found.2.len() <= s.len() && found.2
            == s.skip(s.len() - found.2.len()),
    decreases s.len(),
{
    if s.len() == 0 {
        assert(s.skip(0) =~= s);
    } else {
        lemma_after_first_line(s);
        let after = after_first_line(s);
        let line = first_line(s);
        if line.len() != 0 && valid_utf8(line) {
            if let Ok((key, value)) = header_line(line) {
                lemma_fields_rest_is_tail(after, put(fields, key, value));
                if let Ok(found) = parse_headers(s, fields) {
                    assert(after.skip(after.len() - found.2.len()) =~= s.skip(
                        s.len() - found.2.len(),
                    ));
                }
            }
        }
    }
}

/// What follows the head is the tail of the stream.
pub proof fn lemma_rest_is_tail(s: Seq<u8>)
    ensures
        parse_head(s) matches Ok(head) ==> head.rest.len() <= s.len() && head.rest == s.skip(
            s.len() - head.rest.len(),
        ),
    decreases s.len(),
{
    if s.len() == 0 {
        assert(s.skip(0) =~= s);
    } else {
        lemma_after_first_line(s);
        let after = after_first_line(s);
        let line = first_line(s);
        if line.len() == 0 {
            lemma_rest_is_tail(after);
        } else {
            lemma_fields_rest_is_tail(after, Seq::empty());
        }
        if let Ok(head) = parse_head(s) {
            assert(after.skip(after.len() - head.rest.len()) =~= s.skip(s.len() - head.rest.len()));
        }
    }
}

/// A request that declares a length that is not 0, and has exactly as many
/// bytes behind its head, is read with those bytes as its body: the last
/// `length` bytes of the stream, each as it was.
pub proof fn lemma_declared_body_is_read(s: Seq<u8>, length: usize)
    requires
        length > 0,
        parse_head(s) matches Ok(head) && declared_length(head.headers) == Ok::<usize, Error>(
            length,
        ) && head.rest.len() == length,
    ensures
        parse(s) matches Ok(req) && req.body == Some(s.skip(s.len() - length)),
{
    lemma_rest_is_tail(s);
    let head = parse_head(s)->Ok_0;
    assert(head.rest.take(length as int) =~= head.rest);
}

/// Header lines that a blank line ends are read the same whatever follows
/// them.
pub proof fn lemma_ended_fields_are_stable(
    s: Seq<u8>,
    fields: Seq<(Seq<char>, Seq<char>)>,
    more: Seq<u8>,
)
    requires
        parse_headers(s, fields) matches Ok(found) && found.1,
    ensures
        parse_headers(s + more, fields) == Ok::<
            (Seq<(Seq<char>, Seq<char>)>, bool, Seq<u8>),
            Error,
        >((parse_headers(s, fields)->Ok_0.0, true, parse_headers(s, fields)->Ok_0.2 + more)),
    decreases s.len(),
{
    assert(s.len() > 0);
    lemma_index_of(s, LF);
    lemma_after_first_line(s);
    let line = first_line(s);
    let after = after_first_line(s);
    if line.len() == 0 {
        assert(index_of(s, LF) < s.len());
        lemma_first_line_join(s, more);
    } else {
        let (key, value) = header_line(line)->Ok_0;
        let set = put(fields, key, value);
        assert(parse_headers(s, fields) == parse_headers(after, set));
        if index_of(s, LF) < s.len() {
            lemma_first_line_join(s, more);
            lemma_ended_fields_are_stable(after, set, more);
            assert(parse_headers(s + more, fields) == parse_headers(after + more, set));
        } else {
            assert(after.len() == 0);
            assert(!parse_headers(after, set)->Ok_0.1);
        }
    }
}

/// A head that its blank line ends is read the same whatever follows it.
pub proof fn lemma_ended_head_is_stable(s: Seq<u8>, more: Seq<u8>)
    requires
        parse_head(s) matches Ok(head) && head.complete,
    ensures
        parse_head(s + more) == Ok::<HeadView, Error>(
            HeadView { rest: parse_head(s)->Ok_0.rest + more, ..parse_head(s)->Ok_0 },
        ),
    decreases s.len(),
{
    assert(s.len() > 0);
    lemma_index_of(s, LF);
    lemma_after_first_line(s);
    let line = first_line(s);
    let after = after_first_line(s);
    if index_of(s, LF) < s.len() {
        lemma_first_line_join(s, more);
        if line.len() == 0 {
            lemma_ended_head_is_stable(after, more);
        } else {
            let (method, location) = start_line(line)->Ok_0;
            assert(parse_head(s) == head_from(method, location, after));
            lemma_ended_fields_are_stable(after, Seq::empty(), more);
            assert(parse_head(s + more) == head_from(method, location, after + more));
        }
    } else {
        assert(after.len() == 0);
        assert(line.len() > 0);
        assert(!parse_headers(after, Seq::empty())->Ok_0.1);
    }
}

/// A head with its blank line, a declared length that is not 0, and a body
/// of exactly that length behind it: the request is read with that body,
/// byte for byte, and with the method, location and headers of the head.
pub proof fn lemma_body_behind_head_is_read(head: Seq<u8>, body: Seq<u8>, length: usize)
    requires
        length > 0,
        body.len() == length,
        parse_head(head) matches Ok(h) && h.complete && h.rest.len() == 0 && declared_length(
            h.headers,
        ) == Ok::<usize, Error>(length),
    ensures
        ({
            let h = parse_head(head)->Ok_0;
            parse(head + body) == Ok::<RequestView, Error>(
                RequestView {
                    method: h.method,
                    location: h.location,
                    headers: h.headers,
                    body: Some(body),
                },
            )
        }),
{
    lemma_ended_head_is_stable(head, body);
    let h = parse_head(head)->Ok_0;
    let whole = parse_head(head + body)->Ok_0;
    assert(whole.rest == body) by {
        assert(h.rest + body =~= body);
    }
    assert(body_of(length, body) == Some(body)) by {
        assert(body.take(length as int) =~= body);
    }
}

/// The first line of `s` that is not blank: its request line. Empty where
/// `s` has none.
pub open spec fn request_line(s: Seq<u8>) -> Seq<u8>
    decreases s.len(),
{
    if s.len() == 0 {
        Seq::empty()
    } else if first_line(s).len() == 0 {
        request_line(after_first_line(s))
    } else {
        first_line(s)
    }
}

/// The verb of a request line: its first token.
pub open spec fn verb_bytes(line: Seq<u8>) -> Seq<u8> {
    split(line, SPACE)[0]
}

/// A request line is refused for the number of its tokens or for its
/// version, never for its verb: a verb that is none of the four known ones
/// gives the method `Unknown` with the text of that verb, whose bytes are
/// the bytes of the verb on the line.
pub proof fn lemma_unknown_verb_is_read(line: Seq<u8>)
    requires
        valid_utf8(line),
        !MethodView::known(decode_utf8(verb_bytes(line))),
    ensures
        start_line(line) is Err <==> split(line, SPACE).len() < 3 || split(line, SPACE).last()
            != version_bytes(),
        start_line(line) matches Ok(found) ==> found.0 == MethodView::Unknown(
            decode_utf8(verb_bytes(line)),
        ),
        encode_utf8(decode_utf8(verb_bytes(line))) == verb_bytes(line),
{
    lemma_index_of(line, SPACE);
    let first = index_of(line, SPACE);
    assert(line.take(line.len() as int) =~= line);
    assert(verb_bytes(line) == line.take(first));
    lemma_cut_is_valid(line, 0, first);
    assert(line.subrange(0, first) =~= line.take(first));
    vstd::utf8::decode_utf8_encode_utf8(verb_bytes(line));
}

/// A request that is read has the method that the verb of its request line
/// names: `Unknown` with the text of that verb where it is none of the
/// four known ones.
pub proof fn lemma_request_keeps_unknown_verb(s: Seq<u8>)
    requires
        request_line(s).len() > 0,
        parse(s) is Ok,
        !MethodView::known(decode_utf8(verb_bytes(request_line(s)))),
    ensures
        parse(s)->Ok_0.method == MethodView::Unknown(decode_utf8(verb_bytes(request_line(s)))),
        encode_utf8(decode_utf8(verb_bytes(request_line(s)))) == verb_bytes(request_line(s)),
    decreases s.len(),
{
    if s.len() > 0 {
        lemma_after_first_line(s);
        if first_line(s).len() == 0 {
            lemma_request_keeps_unknown_verb(after_first_line(s));
        } else {
            lemma_unknown_verb_is_read(first_line(s));
        }
    }
}

/// Once the head has its blank line and nothing is missing, the request is
/// read the same whatever else the stream gives: no byte behind the
/// declared length is looked at.
pub proof fn lemma_nothing_missing_is_final(s: Seq<u8>, more: Seq<u8>)
    requires
        parse_head(s) matches Ok(head) && head.complete,
        missing_after(s) == Missing::Nothing,
    ensures
        parse(s + more) == parse(s),
        missing_after(s + more) == Missing::Nothing,
{
    lemma_ended_head_is_stable(s, more);
    let head = parse_head(s)->Ok_0;
    if let Ok(length) = declared_length(head.headers) {
        if length > 0 {
            assert((head.rest + more).take(length as int) =~= head.rest.take(length as int));
        }
    }
}

/// Once the head has its blank line and some bytes of the body are
/// missing, that many bytes more complete the request: its body is what
/// followed the head and those bytes.
pub proof fn lemma_missing_bytes_complete(s: Seq<u8>, more: Seq<u8>, count: usize)
    requires
        parse_head(s) matches Ok(head) && head.complete,
        missing_after(s) == Missing::Bytes(count),
        more.len() == count,
    ensures
        missing_after(s + more) == Missing::Nothing,
        parse(s + more) matches Ok(req) && req.body == Some(parse_head(s)->Ok_0.rest + more),
{
    lemma_ended_head_is_stable(s, more);
    let head = parse_head(s)->Ok_0;
    let length = declared_length(head.headers)->Ok_0;
    assert((head.rest + more).take(length as int) =~= head.rest + more);
}

/// Every request that is read has a body that goes with its headers.
pub proof fn lemma_parse_is_framed(s: Seq<u8>)
    ensures
        parse(s) matches Ok(req) ==> req.framed(),
{
}

} // verus!
