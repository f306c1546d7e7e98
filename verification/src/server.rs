//! What becomes of one connection: its bytes are read as a request, and
//! the request goes to the handler with a response to fill, or, where it
//! cannot be read, the response is the fixed answer to a bad request.

use crate::error::Error;
use crate::http::request::parse;
use crate::http::request::Request;
use crate::http::request::RequestView;
use crate::http::response::Response;
use crate::http::response::ResponseView;
use crate::http::status::BAD_REQUEST;
use vstd::prelude::*;

verus! {

/// The number of workers that serve connections.
pub const WORKERS: usize = 8;

/// A server for one address.
pub struct Server {
    addr: String,
}

impl View for Server {
    type V = Seq<char>;

    closed spec fn view(&self) -> Seq<char> {
        self.addr@
    }
}

/// What to do with a connection.
pub enum Dispatch {
    /// The request was read: hand it to the handler with this response,
    /// which nothing was written to yet.
    Handle(Request, Response),
    /// The request could not be read, for this reason: the response holds
    /// the answer, written in full.
    Reject(Error, Response),
}

/// The response that answers a request that could not be read: status 400
/// and an empty body, written over what `sink` holds.
pub open spec fn rejection(sink: Seq<u8>) -> ResponseView {
    ResponseView::fresh(sink).with_status(BAD_REQUEST).with_write(Seq::empty())
}

impl Server {
    /// A server for the address `addr`.
    pub fn new(addr: String) -> (server: Server)
        ensures
            server@ == addr@,
    {
        Server { addr }
    }

    /// The address to listen on.
    pub fn addr(&self) -> (addr: &String)
        ensures
            addr@ == self@,
    {
        &self.addr
    }

    /// Decides what to do with a connection that gave `stream` and that
    /// takes the answer into `socket`.
    pub fn dispatch(stream: &[u8], socket: Vec<u8>) -> (dispatch: Dispatch)
        ensures
            match dispatch {
                Dispatch::Handle(req, res) => parse(stream@) == Ok::<RequestView, Error>(req@)
                    && res@ == ResponseView::fresh(socket@),
                Dispatch::Reject(error, res) => parse(stream@) == Err::<RequestView, Error>(error)
                    && res@ == rejection(socket@),
            },
    {
        let req = Request::from_stream(stream);
        let mut res = Response::for_stream(socket);
        match req {
            Err(error) => {
                res.status(BAD_REQUEST).unwrap();
                res.write(&[]);
                Dispatch::Reject(error, res)
            },
            Ok(req) => Dispatch::Handle(req, res),
        }
    }
}

/// The answer to a request that could not be read is one head, for status
/// 400 and the one header that a new response has, and nothing behind it.
pub proof fn lemma_rejection_is_one_head(sink: Seq<u8>)
    ensures
        rejection(sink).dirty,
        rejection(sink).status == BAD_REQUEST,
        rejection(sink).sink == sink + crate::http::response::head_bytes(
            BAD_REQUEST,
            seq![("Content-Type"@, "text/plain"@)],
        ),
{
    let head = crate::http::response::head_bytes(
        BAD_REQUEST,
        seq![("Content-Type"@, "text/plain"@)],
    );
    assert(head + Seq::<u8>::empty() =~= head);
}

} // verus!
