//! HTTP reply values and the JSON envelopes the gateway answers with.
//!
//! Every operation ends in an `HttpReply`: a status code, a body, and a flag
//! saying whether the body is raw object bytes (`application/octet-stream`)
//! rather than a JSON envelope. Successes are status 200; every logical or
//! provider failure is status 400 with the body
//! `{"success":false,"error":"..."}`.

use vstd::prelude::*;
use vstd::string::*;

verus! {

/// A complete HTTP response value, ready for the transport layer to send.
pub struct HttpReply {
    /// HTTP status code: 200 on success, 400 on any failure.
    pub status: u16,
    /// Response body bytes.
    pub body: Vec<u8>,
    /// True when the body is raw object bytes and should be sent with
    /// content type `application/octet-stream`; false for JSON envelopes.
    pub octet_stream: bool,
}

/// The specification-level image of an `HttpReply`.
pub struct ReplyView {
    pub status: u16,
    pub body: Seq<u8>,
    pub octet_stream: bool,
}

impl DeepView for HttpReply {
    type V = ReplyView;

    open spec fn deep_view(&self) -> ReplyView {
        ReplyView { status: self.status, body: self.body@, octet_stream: self.octet_stream }
    }
}

/// The JSON string literal (quotes and escapes included) that serde_json
/// produces for a given character sequence. The encoding depends on the
/// characters alone, so it is only named here; `json_quote` below produces it.
pub uninterp spec fn json_quoted(s: Seq<char>) -> Seq<u8>;

/// Relies on serde_json::to_vec on a `&str`: the returned bytes are the JSON
/// string literal for `s`, determined by the characters of `s` alone.
/// Serializing a string slice never fails.
#[verifier::external_body]
fn json_quote(s: &str) -> (r: Vec<u8>)
    ensures
        r@ == json_quoted(s@),
{
    match serde_json::to_vec(s) {
        Ok(v) => v,
        Err(_) => Vec::new(),
    }
}

/// Appends every byte of `s` to `v`, in order.
fn push_bytes(v: &mut Vec<u8>, s: &[u8])
    ensures
        final(v)@ == old(v)@ + s@,
{
    v.extend_from_slice(s);
}

/// The body of the envelope reporting a plain success: `{"success":true}`.
pub open spec fn success_body() -> Seq<u8> {
    "{\"success\":true}".spec_bytes()
}

/// The body of the failure envelope carrying the error text `msg`:
/// `{"success":false,"error":<msg as a JSON string>}`.
pub open spec fn error_body(msg: Seq<char>) -> Seq<u8> {
    "{\"success\":false,\"error\":".spec_bytes() + json_quoted(msg) + "}".spec_bytes()
}

/// The status-200 reply whose body is the plain success envelope.
pub fn success_reply() -> (r: HttpReply)
    ensures
        r.status == 200,
        r.body@ == success_body(),
        !r.octet_stream,
{
    let s: &str = "{\"success\":true}";
    let body = s.as_bytes_vec();
    HttpReply { status: 200, body, octet_stream: false }
}

/// The status-400 reply whose body is the failure envelope for `msg`.
pub fn error_reply(msg: &str) -> (r: HttpReply)
    ensures
        r.status == 400,
        r.body@ == error_body(msg@),
        !r.octet_stream,
{
    let prefix: &str = "{\"success\":false,\"error\":";
    let mut body = prefix.as_bytes_vec();
    let quoted = json_quote(msg);
    push_bytes(&mut body, quoted.as_slice());
    let close: &str = "}";
    push_bytes(&mut body, close.as_bytes());
    HttpReply { status: 400, body, octet_stream: false }
}

/// The body of the envelope reporting a boolean fact under a named field:
/// `{"success":true,<field as a JSON string>:true}` (or `false`).
pub open spec fn bool_field_body(field: Seq<char>, value: bool) -> Seq<u8> {
    "{\"success\":true,".spec_bytes() + json_quoted(field) + ":".spec_bytes() + (if value {
        "true".spec_bytes()
    } else {
        "false".spec_bytes()
    }) + "}".spec_bytes()
}

/// The status-200 reply whose body reports `value` under `field`, as the
/// existence checks answer.
pub fn bool_field_reply(field: &str, value: bool) -> (r: HttpReply)
    ensures
        r.status == 200,
        r.body@ == bool_field_body(field@, value),
        !r.octet_stream,
{
    let prefix: &str = "{\"success\":true,";
    let mut body = prefix.as_bytes_vec();
    let quoted = json_quote(field);
    push_bytes(&mut body, quoted.as_slice());
    let colon: &str = ":";
    push_bytes(&mut body, colon.as_bytes());
    if value {
        let t: &str = "true";
        push_bytes(&mut body, t.as_bytes());
    } else {
        let f: &str = "false";
        push_bytes(&mut body, f.as_bytes());
    }
    let close: &str = "}";
    push_bytes(&mut body, close.as_bytes());
    HttpReply { status: 200, body, octet_stream: false }
}

/// The reply a container-existence check ends in: the provider's boolean
/// under `container_exists`, or its error in the failure envelope.
pub fn container_exists_reply(result: Result<bool, String>) -> (r: HttpReply)
    ensures
        match result {
            Ok(b) => r.status == 200 && r.body@ == bool_field_body("container_exists"@, b)
                && !r.octet_stream,
            Err(e) => r.status == 400 && r.body@ == error_body(e@) && !r.octet_stream,
        },
{
    match result {
        Ok(b) => bool_field_reply("container_exists", b),
        Err(e) => error_reply(e.as_str()),
    }
}

/// The reply an object-existence check ends in: the provider's boolean under
/// `object_exists`, or its error in the failure envelope.
pub fn object_exists_reply(result: Result<bool, String>) -> (r: HttpReply)
    ensures
        match result {
            Ok(b) => r.status == 200 && r.body@ == bool_field_body("object_exists"@, b)
                && !r.octet_stream,
            Err(e) => r.status == 400 && r.body@ == error_body(e@) && !r.octet_stream,
        },
{
    match result {
        Ok(b) => bool_field_reply("object_exists", b),
        Err(e) => error_reply(e.as_str()),
    }
}

/// The reply a container creation ends in: the plain success envelope, or
/// the provider's error in the failure envelope.
pub fn create_container_reply(result: Result<(), String>) -> (r: HttpReply)
    ensures
        match result {
            Ok(_) => r.status == 200 && r.body@ == success_body() && !r.octet_stream,
            Err(e) => r.status == 400 && r.body@ == error_body(e@) && !r.octet_stream,
        },
{
    match result {
        Ok(_) => success_reply(),
        Err(e) => error_reply(e.as_str()),
    }
}

/// The reply a metadata or listing pass-through ends in: the provider's
/// already-serialized payload forwarded as the body, or its error in the
/// failure envelope. Serves the object/container info, listing and batch
/// removal operations, which add no local state of their own.
pub fn metadata_reply(result: Result<Vec<u8>, String>) -> (r: HttpReply)
    ensures
        match result {
            Ok(payload) => r.status == 200 && r.body@ == payload@ && !r.octet_stream,
            Err(e) => r.status == 400 && r.body@ == error_body(e@) && !r.octet_stream,
        },
{
    match result {
        Ok(payload) => HttpReply { status: 200, body: payload, octet_stream: false },
        Err(e) => error_reply(e.as_str()),
    }
}

/// The reply to `echo`: the request body handed straight back.
pub fn echo_reply(body: Vec<u8>) -> (r: HttpReply)
    ensures
        r.status == 200,
        r.body@ == body@,
        !r.octet_stream,
{
    HttpReply { status: 200, body, octet_stream: false }
}

/// The error text for an operation no table entry matched.
pub open spec fn not_impl_msg(method: Seq<char>, op: Seq<char>) -> Seq<char> {
    method + " operator \""@ + op + "\" not implemented"@
}

/// The status-400 reply naming an unknown operation.
pub fn not_implemented_reply(method: &str, op: &str) -> (r: HttpReply)
    ensures
        r.status == 400,
        r.body@ == error_body(not_impl_msg(method@, op@)),
        !r.octet_stream,
{
    let mut msg = method.to_owned();
    msg.append(" operator \"");
    msg.append(op);
    msg.append("\" not implemented");
    error_reply(msg.as_str())
}

/// The status-400 reply for an HTTP method the gateway does not handle.
pub fn bad_method_reply() -> (r: HttpReply)
    ensures
        r.status == 400,
        r.body@ == error_body("cannot handle method"@),
        !r.octet_stream,
{
    error_reply("cannot handle method")
}

} // verus!
