//! Status codes and their reason phrases.

use vstd::prelude::*;

verus! {

/// The status that a new response starts with.
pub const DEFAULT_STATUS: u32 = 200;

/// The status that answers a request that could not be read.
pub const BAD_REQUEST: u32 = 400;

/// Every status code is below this bound.
pub const STATUS_LIMIT: u32 = 600;

/// The reason phrase that goes with `status` on the status line. A code that
/// the table does not hold reads `Unknown Status`.
pub open spec fn reason_phrase(status: u32) -> Seq<char> {
    match status {
        100u32 => "Continue"@,
        101u32 => "Switching Protocols"@,
        200u32 => "OK"@,
        201u32 => "Created"@,
        202u32 => "Accepted"@,
        203u32 => "Non-Authoritative Information"@,
        204u32 => "No Content"@,
        205u32 => "Reset Content"@,
        206u32 => "Partial Content"@,
        300u32 => "Multiple Choices"@,
        301u32 => "Moved Permanently"@,
        302u32 => "Found"@,
        303u32 => "See Other"@,
        304u32 => "Not Modified"@,
        305u32 => "Use Proxy"@,
        307u32 => "Temporary Redirect"@,
        400u32 => "Bad Request"@,
        401u32 => "Unauthorized"@,
        402u32 => "Payment Required"@,
        403u32 => "Forbidden"@,
        404u32 => "Not Found"@,
        405u32 => "Method Not Allowed"@,
        406u32 => "Not Acceptable"@,
        407u32 => "Proxy Authentication Required"@,
        408u32 => "Request Time-out"@,
        409u32 => "Conflict"@,
        410u32 => "Gone"@,
        411u32 => "Length Required"@,
        412u32 => "Precondition Failed"@,
        413u32 => "Request Entity Too Large"@,
        414u32 => "Request-URI Too Large"@,
        415u32 => "Unsupported Media Type"@,
        416u32 => "Requested range not satisfiable"@,
        417u32 => "Expectation Failed"@,
        418u32 => "I'm a teapot"@,
        500u32 => "Internal Server Error"@,
        501u32 => "Not Implemented"@,
        502u32 => "Bad Gateway"@,
        503u32 => "Service Unavailable"@,
        504u32 => "Gateway Time-out"@,
        505u32 => "HTTP Version not supported"@,
        _ => "Unknown Status"@,
    }
}

/// Looks up the reason phrase of `status`.
pub fn status_reason(status: u32) -> (reason: &'static str)
    ensures
        reason@ == reason_phrase(status),
{
    match status {
        // information
        100 => "Continue",
        101 => "Switching Protocols",
        // success
        200 => "OK",
        201 => "Created",
        202 => "Accepted",
        203 => "Non-Authoritative Information",
        204 => "No Content",
        205 => "Reset Content",
        206 => "Partial Content",
        // redirection
        300 => "Multiple Choices",
        301 => "Moved Permanently",
        302 => "Found",
        303 => "See Other",
        304 => "Not Modified",
        305 => "Use Proxy",
        307 => "Temporary Redirect",
        // client error
        400 => "Bad Request",
        401 => "Unauthorized",
        402 => "Payment Required",
        403 => "Forbidden",
        404 => "Not Found",
        405 => "Method Not Allowed",
        406 => "Not Acceptable",
        407 => "Proxy Authentication Required",
        408 => "Request Time-out",
        409 => "Conflict",
        410 => "Gone",
        411 => "Length Required",
        412 => "Precondition Failed",
        413 => "Request Entity Too Large",
        414 => "Request-URI Too Large",
        415 => "Unsupported Media Type",
        416 => "Requested range not satisfiable",
        417 => "Expectation Failed",
        418 => "I'm a teapot",
        // server error
        500 => "Internal Server Error",
        501 => "Not Implemented",
        502 => "Bad Gateway",
        503 => "Service Unavailable",
        504 => "Gateway Time-out",
        505 => "HTTP Version not supported",
        // other
        _ => "Unknown Status",
    }
}

} // verus!
