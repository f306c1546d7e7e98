use vstd::prelude::*;

verus! {

/// What can go wrong while a request is read, a response is prepared, or a
/// job is handed to the pool.
#[derive(Debug, Clone, Copy, PartialEq, Eq, Structural)]
pub enum Error {
    /// The request line has fewer than three tokens.
    MalformedRequestLine,
    /// The request line has three tokens or more, and the last one is not
    /// `HTTP/1.1`.
    InvalidHttpVersion,
    /// A header line holds no colon.
    MalformedHeader,
    /// The value of `Content-Length` is not a decimal number that fits a
    /// `usize`.
    InvalidContentLength,
    /// A status code of 600 or more was asked for.
    InvalidStatusCode,
    /// Status or headers were changed after the first write.
    AlreadyFlushed,
    /// A job was scheduled on a pool that has been shut down.
    PoolClosed,
    /// A line of the request head is not valid UTF-8.
    InvalidEncoding,
}

impl Error {
    /// The text that describes this error.
    pub open spec fn text(self) -> Seq<char> {
        match self {
            Error::MalformedRequestLine => "protocol not HTTP"@,
            Error::InvalidHttpVersion => "invalid HTTP version"@,
            Error::MalformedHeader => "malformed HTTP header"@,
            Error::InvalidContentLength => "invalid content length"@,
            Error::InvalidStatusCode => "invalid status code"@,
            Error::AlreadyFlushed => "status already written to client"@,
            Error::PoolClosed => "attempting to use pool that was shutdown"@,
            Error::InvalidEncoding => "stream did not contain valid UTF-8"@,
        }
    }

    /// A short description, for logs.
    pub fn message(&self) -> (s: &'static str)
        ensures
            s@ == self.text(),
    {
        match self {
            Error::MalformedRequestLine => "protocol not HTTP",
            Error::InvalidHttpVersion => "invalid HTTP version",
            Error::MalformedHeader => "malformed HTTP header",
            Error::InvalidContentLength => "invalid content length",
            Error::InvalidStatusCode => "invalid status code",
            Error::AlreadyFlushed => "status already written to client",
            Error::PoolClosed => "attempting to use pool that was shutdown",
            Error::InvalidEncoding => "stream did not contain valid UTF-8",
        }
    }
}

} // verus!
