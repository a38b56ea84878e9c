//! The HTTP answer of the proxy server: the neighbour table as JSON.

use vstd::prelude::*;
use vstd::utf8::encode_utf8;

use crate::text::{decimal, push_decimal};

verus! {

/// The HTTP response that carries the JSON text `json`; the length header
/// counts its UTF-8 bytes.
pub open spec fn json_response_text(json: Seq<char>) -> Seq<char> {
    "HTTP/1.1 200 OK\r\n"@ + "Content-Type: application/json\r\n"@ + "Content-Length: "@ + decimal(
        encode_utf8(json).len(),
    ) + "\r\n"@ + "Connection: close\r\n"@ + "Access-Control-Allow-Origin: *\r\n"@ + "\r\n"@
        + json
}

/// The HTTP response that carries the JSON text `json`.
pub fn json_response(json: &String) -> (r: String)
    ensures
        r@ == json_response_text(json@),
{
    let mut r = String::new();
    r.append("HTTP/1.1 200 OK\r\n");
    r.append("Content-Type: application/json\r\n");
    r.append("Content-Length: ");
    let n = json.as_str().as_bytes().len();
    push_decimal(&mut r, n as u64);
    r.append("\r\n");
    r.append("Connection: close\r\n");
    r.append("Access-Control-Allow-Origin: *\r\n");
    r.append("\r\n");
    r.append(json.as_str());
    r
}

} // verus!
