//! The response: status and headers are held back until the first body
//! write, which sends them ahead of the body. From then on they are closed.

use crate::error::Error;
use crate::headers::put;
use crate::headers::Headers;
use crate::http::status::reason_phrase;
use crate::http::status::status_reason;
use crate::http::status::DEFAULT_STATUS;
use crate::http::status::STATUS_LIMIT;
use crate::number::decimal;
use crate::number::push_decimal;
use vstd::prelude::*;
use vstd::string::StringExecFns;
use vstd::utf8::encode_utf8;

verus! {

/// The status line for `status`, with its line end.
pub open spec fn status_line(status: u32) -> Seq<char> {
    "HTTP/1.1"@ + " "@ + decimal(status as nat) + " "@ + reason_phrase(status) + "\r\n"@
}

/// One header field as a line, with its line end.
pub open spec fn field_line(field: (Seq<char>, Seq<char>)) -> Seq<char> {
    field.0 + ": "@ + field.1 + "\r\n"@
}

/// The lines of `fields`, in their order.
pub open spec fn field_lines(fields: Seq<(Seq<char>, Seq<char>)>) -> Seq<char>
    decreases fields.len(),
{
    if fields.len() == 0 {
        Seq::empty()
    } else {
        field_lines(fields.drop_last()) + field_line(fields.last())
    }
}

/// What goes ahead of the body: the status line, the header fields and the
/// blank line that ends them.
pub open spec fn head_text(status: u32, fields: Seq<(Seq<char>, Seq<char>)>) -> Seq<char> {
    status_line(status) + field_lines(fields) + "\r\n"@
}

/// The bytes of `head_text`.
pub open spec fn head_bytes(status: u32, fields: Seq<(Seq<char>, Seq<char>)>) -> Seq<u8> {
    encode_utf8(head_text(status, fields))
}

/// A response as plain values.
pub struct ResponseView {
    pub status: u32,
    pub headers: Seq<(Seq<char>, Seq<char>)>,
    /// Whether status and headers were sent, and so are closed.
    pub dirty: bool,
    /// Every byte sent so far.
    pub sink: Seq<u8>,
}

/// A call on a response.
pub enum Call {
    Status(u32),
    Header(Seq<char>, Seq<char>),
    Write(Seq<u8>),
}

impl ResponseView {
    /// A response that nothing was done to yet, over what `sink` holds.
    pub open spec fn fresh(sink: Seq<u8>) -> ResponseView {
        ResponseView {
            status: DEFAULT_STATUS,
            headers: seq![("Content-Type"@, "text/plain"@)],
            dirty: false,
            sink,
        }
    }

    /// What a call to set the status to `status` returns.
    pub open spec fn status_outcome(self, status: u32) -> Result<(), Error> {
        if self.dirty {
            Err(Error::AlreadyFlushed)
        } else if status >= STATUS_LIMIT {
            Err(Error::InvalidStatusCode)
        } else {
            Ok(())
        }
    }

    /// The response after a call to set the status to `status`.
    pub open spec fn with_status(self, status: u32) -> ResponseView {
        if self.status_outcome(status).is_ok() {
            ResponseView { status, ..self }
        } else {
            self
        }
    }

    /// What a call to set a header returns.
    pub open spec fn header_outcome(self) -> Result<(), Error> {
        if self.dirty {
            Err(Error::AlreadyFlushed)
        } else {
            Ok(())
        }
    }

    /// The response after a call to set header `key` to `value`.
    pub open spec fn with_header(self, key: Seq<char>, value: Seq<char>) -> ResponseView {
        if self.dirty {
            self
        } else {
            ResponseView { headers: put(self.headers, key, value), ..self }
        }
    }

    /// What a write of `body` sends: the head first if it was not sent
    /// yet, then `body`.
    pub open spec fn sent_by_write(self, body: Seq<u8>) -> Seq<u8> {
        if self.dirty {
            body
        } else {
            head_bytes(self.status, self.headers) + body
        }
    }

    /// The response after a write of `body`.
    pub open spec fn with_write(self, body: Seq<u8>) -> ResponseView {
        ResponseView { dirty: true, sink: self.sink + self.sent_by_write(body), ..self }
    }

    /// The response after `call`.
    pub open spec fn after(self, call: Call) -> ResponseView {
        match call {
            Call::Status(status) => self.with_status(status),
            Call::Header(key, value) => self.with_header(key, value),
            Call::Write(body) => self.with_write(body),
        }
    }

    /// What `call` returns to its caller, but for the count of a write.
    pub open spec fn outcome(self, call: Call) -> Result<(), Error> {
        match call {
            Call::Status(status) => self.status_outcome(status),
            Call::Header(_, _) => self.header_outcome(),
            Call::Write(_) => Ok(()),
        }
    }

    /// The response after `calls`, one after the other.
    pub open spec fn after_all(self, calls: Seq<Call>) -> ResponseView
        decreases calls.len(),
    {
        if calls.len() == 0 {
            self
        } else {
            self.after_all(calls.drop_last()).after(calls.last())
        }
    }
}

/// A response that writes to a buffer in memory.
#[derive(Debug)]
pub struct Response {
    status: u32,
    headers: Headers,
    dirty: bool,
    socket: Vec<u8>,
}

impl View for Response {
    type V = ResponseView;

    closed spec fn view(&self) -> ResponseView {
        ResponseView {
            status: self.status,
            headers: self.headers@,
            dirty: self.dirty,
            sink: self.socket@,
        }
    }
}

/// Builds the head for `status` and `headers`.
fn head_of(status: u32, headers: &Headers) -> (head: String)
    ensures
        head@ == head_text(status, headers@),
{
    let mut head = String::new();
    head.append("HTTP/1.1");
    head.append(" ");
    push_decimal(&mut head, status);
    head.append(" ");
    head.append(status_reason(status));
    head.append("\r\n");
    assert(head@ =~= status_line(status));
    let n: usize = headers.len();
    let mut i: usize = 0;
    assert(headers@.take(0) =~= Seq::<(Seq<char>, Seq<char>)>::empty());
    while i < n
        invariant
            i <= n,
            n == headers@.len(),
            head@ == status_line(status) + field_lines(headers@.take(i as int)),
        decreases n - i,
    {
        let (key, val) = headers.entry(i);
        head.append(key.as_str());
        head.append(": ");
        head.append(val.as_str());
        head.append("\r\n");
        proof {
            let done = headers@.take(i + 1);
            assert(done.drop_last() =~= headers@.take(i as int));
            assert(done.last() == headers@[i as int]);
            assert(head@ =~= status_line(status) + field_lines(done));
        }
        i += 1;
    }
    assert(headers@.take(n as int) =~= headers@);
    head.append("\r\n");
    head
}

impl Response {
    #[verifier::type_invariant]
    spec fn status_in_range(&self) -> bool {
        self.status < STATUS_LIMIT
    }

    /// Construct a new response which writes to socket.
    pub fn for_stream(socket: Vec<u8>) -> (resp: Response)
        ensures
            resp@ == ResponseView::fresh(socket@),
    {
        let mut headers = Headers::new();
        headers.insert("Content-Type".to_string(), "text/plain".to_string());
        let resp = Response { status: DEFAULT_STATUS, headers, dirty: false, socket };
        assert(resp@.headers =~= seq![("Content-Type"@, "text/plain"@)]);
        resp
    }

    /// Set the specified status. A response whose head was sent refuses
    /// with `AlreadyFlushed`; otherwise a code of 600 or more is refused
    /// with `InvalidStatusCode`. A refusal changes nothing. There is no
    /// lower bound: a code of 0 is taken.
    pub fn status(&mut self, status: u32) -> (r: Result<(), Error>)
        ensures
            r == old(self)@.status_outcome(status),
            final(self)@ == old(self)@.with_status(status),
            final(self)@.status < STATUS_LIMIT,
    {
        proof {
            use_type_invariant(&*self);
        }
        if self.dirty {
            return Err(Error::AlreadyFlushed);
        } else if status >= STATUS_LIMIT {
            return Err(Error::InvalidStatusCode);
        }
        self.status = status;
        Ok(())
    }

    /// Set the specified header. A response whose head was sent refuses
    /// with `AlreadyFlushed` and changes nothing.
    pub fn header(&mut self, key: String, val: String) -> (r: Result<(), Error>)
        ensures
            r == old(self)@.header_outcome(),
            final(self)@ == old(self)@.with_header(key@, val@),
    {
        proof {
            use_type_invariant(&*self);
        }
        if self.dirty {
            return Err(Error::AlreadyFlushed);
        }
        let mut headers = Headers::new();
        core::mem::swap(&mut self.headers, &mut headers);
        headers.insert(key, val);
        core::mem::swap(&mut self.headers, &mut headers);
        Ok(())
    }

    /// Sends `buf`, after the head where this is the first write, and
    /// returns the number of bytes sent by this call. The first write
    /// closes status and headers.
    pub fn write(&mut self, buf: &[u8]) -> (written: usize)
        ensures
            final(self)@ == old(self)@.with_write(buf@),
            written == old(self)@.sent_by_write(buf@).len(),
    {
        proof {
            use_type_invariant(&*self);
        }
        let mut socket: Vec<u8> = Vec::new();
        core::mem::swap(&mut self.socket, &mut socket);
        let before: usize = socket.len();
        if !self.dirty {
            // Send headers
            let head = head_of(self.status, &self.headers);
            socket.extend_from_slice(head.as_str().as_bytes());
            self.dirty = true;
        }
        // Send buffer
        socket.extend_from_slice(buf);
        let written: usize = socket.len() - before;
        core::mem::swap(&mut self.socket, &mut socket);
        assert(self@.sink =~= old(self)@.sink + old(self)@.sent_by_write(buf@));
        written
    }

    /// Nothing is held back between a write and the buffer: there is
    /// nothing to flush.
    pub fn flush(&mut self)
        ensures
            final(self)@ == old(self)@,
    {
    }

    /// The status that the head carries, or will carry.
    pub fn code(&self) -> (status: u32)
        ensures
            status == self@.status,
            status < STATUS_LIMIT,
    {
        proof {
            use_type_invariant(self);
        }
        self.status
    }

    /// Whether the head was sent.
    pub fn is_dirty(&self) -> (dirty: bool)
        ensures
            dirty == self@.dirty,
    {
        self.dirty
    }

    /// Every byte sent so far.
    pub fn sent(&self) -> (bytes: &Vec<u8>)
        ensures
            bytes@ == self@.sink,
    {
        &self.socket
    }

    /// Gives the buffer back, with every byte sent.
    pub fn into_stream(self) -> (socket: Vec<u8>)
        ensures
            socket@ == self@.sink,
    {
        self.socket
    }
}

/// The bodies of the writes among `calls`, one after the other.
pub open spec fn bodies(calls: Seq<Call>) -> Seq<u8>
    decreases calls.len(),
{
    if calls.len() == 0 {
        Seq::empty()
    } else {
        bodies(calls.drop_last()) + match calls.last() {
            Call::Write(body) => body,
            _ => Seq::empty(),
        }
    }
}

/// Once the head was sent it stays sent.
pub proof fn lemma_dirty_stays(start: ResponseView, calls: Seq<Call>)
    requires
        start.dirty,
    ensures
        start.after_all(calls).dirty,
    decreases calls.len(),
{
    if calls.len() > 0 {
        lemma_dirty_stays(start, calls.drop_last());
    }
}

/// A response that was never written to has sent nothing: whatever status
/// and headers were set, not one byte has left, and the head is still open.
pub proof fn lemma_no_write_sends_nothing(start: ResponseView, calls: Seq<Call>)
    requires
        !start.dirty,
        forall|i: int| 0 <= i < calls.len() ==> !(calls[i] is Write),
    ensures
        start.after_all(calls).sink == start.sink,
        !start.after_all(calls).dirty,
        bodies(calls) == Seq::<u8>::empty(),
    decreases calls.len(),
{
    if calls.len() > 0 {
        let earlier = calls.drop_last();
        assert forall|i: int| 0 <= i < earlier.len() implies !(earlier[i] is Write) by {
            assert(earlier[i] == calls[i]);
        }
        lemma_no_write_sends_nothing(start, earlier);
        assert(!(calls.last() is Write));
    }
}

/// A response that was written to has sent one head and then the bodies of
/// all its writes, in the order of the calls. The head is the one for the
/// status and the headers as they stood at the first write, call `first`, and
/// they stand so ever after.
pub proof fn lemma_one_head_then_bodies(start: ResponseView, calls: Seq<Call>, first: int)
    requires
        !start.dirty,
        0 <= first < calls.len(),
        calls[first] is Write,
        forall|i: int| 0 <= i < first ==> !(calls[i] is Write),
    ensures
        ({
            let open = start.after_all(calls.take(first));
            let closed = start.after_all(calls);
            &&& closed.dirty
            &&& closed.status == open.status
            &&& closed.headers == open.headers
            &&& closed.sink == start.sink + head_bytes(open.status, open.headers) + bodies(calls)
        }),
    decreases calls.len(),
{
    let earlier = calls.drop_last();
    let open = start.after_all(calls.take(first));
    if first == calls.len() - 1 {
        assert(earlier =~= calls.take(first));
        assert forall|i: int| 0 <= i < earlier.len() implies !(earlier[i] is Write) by {
            assert(earlier[i] == calls[i]);
        }
        lemma_no_write_sends_nothing(start, earlier);
        assert(start.after_all(calls).sink =~= start.sink + head_bytes(open.status, open.headers)
            + bodies(calls));
    } else {
        assert(earlier.take(first) =~= calls.take(first));
        assert(earlier[first] == calls[first]);
        assert forall|i: int| 0 <= i < first implies !(earlier[i] is Write) by {
            assert(earlier[i] == calls[i]);
        }
        lemma_one_head_then_bodies(start, earlier, first);
        assert(start.after_all(calls).sink =~= start.sink + head_bytes(open.status, open.headers)
            + bodies(calls));
    }
}

/// After a write, every call that sets the status or a header fails with
/// `AlreadyFlushed` and leaves the response as it was.
pub proof fn lemma_closed_after_write(start: ResponseView, calls: Seq<Call>, w: int, c: int)
    requires
        0 <= w < c < calls.len(),
        calls[w] is Write,
        calls[c] is Status || calls[c] is Header,
    ensures
        ({
            let before = start.after_all(calls.take(c));
            &&& before.outcome(calls[c]) == Err::<(), Error>(Error::AlreadyFlushed)
            &&& before.after(calls[c]) == before
        }),
{
    let upto = calls.take(w + 1);
    assert(upto.drop_last() =~= calls.take(w));
    assert(upto.last() == calls[w]);
    let written = start.after_all(upto);
    assert(written.dirty);
    lemma_after_all_joins(start, upto, calls.subrange(w + 1, c));
    assert(upto + calls.subrange(w + 1, c) =~= calls.take(c));
    lemma_dirty_stays(written, calls.subrange(w + 1, c));
}

/// Calls made one run after another are the calls of the two runs joined.
pub proof fn lemma_after_all_joins(start: ResponseView, a: Seq<Call>, b: Seq<Call>)
    ensures
        start.after_all(a + b) == start.after_all(a).after_all(b),
    decreases b.len(),
{
    if b.len() == 0 {
        assert(a + b =~= a);
    } else {
        lemma_after_all_joins(start, a, b.drop_last());
        assert((a + b).drop_last() =~= a + b.drop_last());
        assert((a + b).last() == b.last());
    }
}

} // verus!
