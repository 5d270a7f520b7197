//! One connection's decision path: what the server writes back for one raw
//! buffer read from a socket. Reading the buffer and writing the reply are
//! I/O and stay with the caller; everything between them is here.
use crate::http::{spec_parse, HttpRequest};
use crate::response::{
    byte_len, default_headers, set_header_spec, spec_serialize, HttpResponse, ResponseModel,
};
use crate::router::{dispatch_model, Handler, Router};
use crate::text::dec_digits;
use vstd::prelude::*;

verus! {

/// Model of the response served when the buffer does not parse as a
/// request.
pub open spec fn bad_request_model() -> ResponseModel {
    ResponseModel {
        status: 400,
        status_text: "BAD REQUEST"@,
        headers: set_header_spec(
            default_headers(),
            "Content-Length"@,
            dec_digits(byte_len("<h1>400 - Bad Request</h1>"@)),
        ),
        body: "<h1>400 - Bad Request</h1>"@,
    }
}

/// The serialized reply for one raw buffer: the dispatched handler's
/// response when the buffer parses, the fixed bad-request response when it
/// does not.
pub open spec fn respond_model<H: Handler>(
    rs: Seq<(crate::http::HttpMethod, Seq<char>, H)>,
    input: Seq<char>,
) -> Seq<char> {
    match spec_parse(input) {
        Ok(req) => spec_serialize(dispatch_model(rs, req)),
        Err(_) => spec_serialize(bad_request_model()),
    }
}

/// Serves one connection's buffer: parse, dispatch, serialize. A buffer
/// that fails to parse is answered with the fixed bad-request reply.
pub fn respond<H: Handler>(router: &Router<H>, input: &str) -> (out: String)
    requires
        router.wf(),
    ensures
        out@ == respond_model(router@, input@),
{
    match HttpRequest::parse(input) {
        Ok(request) => {
            let response = router.handle(&request);
            response.to_string()
        },
        Err(_) => {
            let response = HttpResponse::bad_request().with_body(
                String::from_str("<h1>400 - Bad Request</h1>"),
            );
            proof {
                assert(response@ == bad_request_model());
            }
            response.to_string()
        },
    }
}

} // verus!
