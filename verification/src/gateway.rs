//! The gateway's request dispatch.
//!
//! One inbound request -- method, path, query string -- is turned into a
//! plan: either an immediate reply (unhandled method, unknown operation), or
//! the one storage-provider call to make, with every argument already
//! extracted. Missing parameters fall back to sentinel defaults rather than
//! failing; the batch removals collect every value whose key begins with
//! `container` or `name`, so that suffix-renamed repeats (`container1`,
//! `container2`) all count. The unverified shell only performs the named
//! call and feeds the provider's result back into the reply builders.

use vstd::prelude::*;
use crate::query::{
    lookup, parse_query_string, parse_usize, prefix_values, query_pairs, spec_parse_usize,
    strings_view, QueryParams,
};
use crate::reply::{
    bad_method_reply, error_body, not_impl_msg, not_implemented_reply, HttpReply, ReplyView,
};
use crate::router::{route, spec_route, str_eq, OpView, Operation};

verus! {

/// The chunk size an upload uses when the request names none (or names one
/// that does not parse or is zero): large enough to move data efficiently,
/// small enough to respect the runtime's message-size ceiling.
pub const DEFAULT_CHUNK_SIZE: usize = 262144;

/// What is to be done for one request: answer at once, or make the one named
/// provider call with the given arguments and shape its result into a reply.
pub enum RequestPlan {
    /// No provider call is needed: answer with this reply.
    Immediate(HttpReply),
    /// Create the named container.
    CreateContainer { container: String },
    /// Ask whether the named container exists.
    ContainerExists { container: String },
    /// Ask whether the named object exists.
    ObjectExists { container: String, name: String },
    /// Fetch the named object's metadata.
    GetObjectInfo { container: String, name: String },
    /// Fetch the named container's metadata.
    GetContainerInfo { container: String },
    /// List all containers.
    ListContainers,
    /// List the objects of the named container.
    ListObjects { container: String },
    /// Remove the named containers.
    RemoveContainers { containers: Vec<String> },
    /// Remove the named objects from the named container.
    RemoveObjects { container: String, names: Vec<String> },
    /// Fetch the named object synchronously.
    Download { container: String, name: String },
    /// Fetch the named object via asynchronous chunk callbacks.
    AsyncDownload { container: String, name: String },
    /// Upload the request body as the named object, split into chunks of the
    /// given size, after checking the container exists.
    Upload { container: String, name: String, chunk_size: usize },
    /// Hand the request body straight back.
    Echo,
}

/// The specification-level image of a `RequestPlan`.
pub enum PlanView {
    Immediate(ReplyView),
    CreateContainer { container: Seq<char> },
    ContainerExists { container: Seq<char> },
    ObjectExists { container: Seq<char>, name: Seq<char> },
    GetObjectInfo { container: Seq<char>, name: Seq<char> },
    GetContainerInfo { container: Seq<char> },
    ListContainers,
    ListObjects { container: Seq<char> },
    RemoveContainers { containers: Seq<Seq<char>> },
    RemoveObjects { container: Seq<char>, names: Seq<Seq<char>> },
    Download { container: Seq<char>, name: Seq<char> },
    AsyncDownload { container: Seq<char>, name: Seq<char> },
    Upload { container: Seq<char>, name: Seq<char>, chunk_size: usize },
    Echo,
}

impl DeepView for RequestPlan {
    type V = PlanView;

    open spec fn deep_view(&self) -> PlanView {
        match self {
            RequestPlan::Immediate(rep) => PlanView::Immediate(rep.deep_view()),
            RequestPlan::CreateContainer { container } => PlanView::CreateContainer {
                container: container@,
            },
            RequestPlan::ContainerExists { container } => PlanView::ContainerExists {
                container: container@,
            },
            RequestPlan::ObjectExists { container, name } => PlanView::ObjectExists {
                container: container@,
                name: name@,
            },
            RequestPlan::GetObjectInfo { container, name } => PlanView::GetObjectInfo {
                container: container@,
                name: name@,
            },
            RequestPlan::GetContainerInfo { container } => PlanView::GetContainerInfo {
                container: container@,
            },
            RequestPlan::ListContainers => PlanView::ListContainers,
            RequestPlan::ListObjects { container } => PlanView::ListObjects {
                container: container@,
            },
            RequestPlan::RemoveContainers { containers } => PlanView::RemoveContainers {
                containers: strings_view(containers@),
            },
            RequestPlan::RemoveObjects { container, names } => PlanView::RemoveObjects {
                container: container@,
                names: strings_view(names@),
            },
            RequestPlan::Download { container, name } => PlanView::Download {
                container: container@,
                name: name@,
            },
            RequestPlan::AsyncDownload { container, name } => PlanView::AsyncDownload {
                container: container@,
                name: name@,
            },
            RequestPlan::Upload { container, name, chunk_size } => PlanView::Upload {
                container: container@,
                name: name@,
                chunk_size: *chunk_size,
            },
            RequestPlan::Echo => PlanView::Echo,
        }
    }
}

/// The value under `key`, or `default` when the key is absent.
pub open spec fn spec_param_or(
    ps: Seq<(Seq<char>, Seq<char>)>,
    key: Seq<char>,
    default: Seq<char>,
) -> Seq<char> {
    match lookup(ps, key) {
        Some(v) => v,
        None => default,
    }
}

/// The container a request names, or the sentinel `container`.
pub open spec fn spec_container_arg(ps: Seq<(Seq<char>, Seq<char>)>) -> Seq<char> {
    spec_param_or(ps, "container"@, "container"@)
}

/// The object a request names, or the sentinel `file.txt`.
pub open spec fn spec_name_arg(ps: Seq<(Seq<char>, Seq<char>)>) -> Seq<char> {
    spec_param_or(ps, "name"@, "file.txt"@)
}

/// The chunk size a request names, when it parses and is at least 1; the
/// default otherwise.
pub open spec fn spec_chunk_size_arg(ps: Seq<(Seq<char>, Seq<char>)>) -> usize {
    match lookup(ps, "chunk_size"@) {
        Some(v) => match spec_parse_usize(v) {
            Some(n) => if n >= 1 {
                n as usize
            } else {
                DEFAULT_CHUNK_SIZE
            },
            None => DEFAULT_CHUNK_SIZE,
        },
        None => DEFAULT_CHUNK_SIZE,
    }
}

/// The plan a request resolves to: the routing table applied to the path,
/// the arguments drawn from the query string. Total over all inputs.
pub open spec fn spec_plan(method: Seq<char>, path: Seq<char>, qs: Seq<char>) -> PlanView {
    if method != "GET"@ && method != "POST"@ && method != "DELETE"@ {
        PlanView::Immediate(
            ReplyView { status: 400, body: error_body("cannot handle method"@), octet_stream: false },
        )
    } else {
        let ps = query_pairs(qs);
        match spec_route(method, path) {
            OpView::CreateContainer => PlanView::CreateContainer {
                container: spec_container_arg(ps),
            },
            OpView::Upload => PlanView::Upload {
                container: spec_container_arg(ps),
                name: spec_name_arg(ps),
                chunk_size: spec_chunk_size_arg(ps),
            },
            OpView::Download => PlanView::Download {
                container: spec_container_arg(ps),
                name: spec_name_arg(ps),
            },
            OpView::AsyncDownload => PlanView::AsyncDownload {
                container: spec_container_arg(ps),
                name: spec_name_arg(ps),
            },
            OpView::ListContainers => PlanView::ListContainers,
            OpView::ListObjects => PlanView::ListObjects { container: spec_container_arg(ps) },
            OpView::ContainerExists => PlanView::ContainerExists {
                container: spec_container_arg(ps),
            },
            OpView::ObjectExists => PlanView::ObjectExists {
                container: spec_container_arg(ps),
                name: spec_name_arg(ps),
            },
            OpView::GetObjectInfo => PlanView::GetObjectInfo {
                container: spec_container_arg(ps),
                name: spec_name_arg(ps),
            },
            OpView::GetContainerInfo => PlanView::GetContainerInfo {
                container: spec_container_arg(ps),
            },
            OpView::RemoveContainers => PlanView::RemoveContainers {
                containers: prefix_values(ps, "container"@),
            },
            OpView::RemoveObjects => PlanView::RemoveObjects {
                container: spec_container_arg(ps),
                names: prefix_values(ps, "name"@),
            },
            OpView::Echo => PlanView::Echo,
            OpView::Unknown(name) => PlanView::Immediate(
                ReplyView {
                    status: 400,
                    body: error_body(not_impl_msg(method, name)),
                    octet_stream: false,
                },
            ),
        }
    }
}

/// The value under `key` in `q`, or `default` when the key is absent.
fn param_or(q: &QueryParams, key: &str, default: &str) -> (r: String)
    ensures
        r@ == spec_param_or(q@, key@, default@),
{
    match q.get(key) {
        Some(v) => v.clone(),
        None => default.to_owned(),
    }
}

/// The chunk size `q` names, when it parses and is at least 1; the default
/// otherwise.
fn chunk_size_arg(q: &QueryParams) -> (r: usize)
    ensures
        r == spec_chunk_size_arg(q@),
{
    match q.get("chunk_size") {
        Some(v) => match parse_usize(v.as_str()) {
            Some(n) => if n >= 1 {
                n
            } else {
                DEFAULT_CHUNK_SIZE
            },
            None => DEFAULT_CHUNK_SIZE,
        },
        None => DEFAULT_CHUNK_SIZE,
    }
}

/// Resolves one request to its plan: an immediate 400 reply for an unhandled
/// method or an unknown operation, else the one provider call to make, with
/// the container, object, batch and chunk-size arguments already extracted
/// from the query string.
pub fn plan_request(method: &str, path: &str, query_string: &str) -> (r: RequestPlan)
    ensures
        r.deep_view() == spec_plan(method@, path@, query_string@),
{
    if !(str_eq(method, "GET") || str_eq(method, "POST") || str_eq(method, "DELETE")) {
        return RequestPlan::Immediate(bad_method_reply());
    }
    let q = parse_query_string(query_string);
    match route(method, path) {
        Operation::CreateContainer => RequestPlan::CreateContainer {
            container: param_or(&q, "container", "container"),
        },
        Operation::Upload => RequestPlan::Upload {
            container: param_or(&q, "container", "container"),
            name: param_or(&q, "name", "file.txt"),
            chunk_size: chunk_size_arg(&q),
        },
        Operation::Download => RequestPlan::Download {
            container: param_or(&q, "container", "container"),
            name: param_or(&q, "name", "file.txt"),
        },
        Operation::AsyncDownload => RequestPlan::AsyncDownload {
            container: param_or(&q, "container", "container"),
            name: param_or(&q, "name", "file.txt"),
        },
        Operation::ListContainers => RequestPlan::ListContainers,
        Operation::ListObjects => RequestPlan::ListObjects {
            container: param_or(&q, "container", "container"),
        },
        Operation::ContainerExists => RequestPlan::ContainerExists {
            container: param_or(&q, "container", "container"),
        },
        Operation::ObjectExists => RequestPlan::ObjectExists {
            container: param_or(&q, "container", "container"),
            name: param_or(&q, "name", "file.txt"),
        },
        Operation::GetObjectInfo => RequestPlan::GetObjectInfo {
            container: param_or(&q, "container", "container"),
            name: param_or(&q, "name", "file.txt"),
        },
        Operation::GetContainerInfo => RequestPlan::GetContainerInfo {
            container: param_or(&q, "container", "container"),
        },
        Operation::RemoveContainers => RequestPlan::RemoveContainers {
            containers: q.values_with_key_prefix("container"),
        },
        Operation::RemoveObjects => RequestPlan::RemoveObjects {
            container: param_or(&q, "container", "container"),
            names: q.values_with_key_prefix("name"),
        },
        Operation::Echo => RequestPlan::Echo,
        Operation::Unknown(name) => RequestPlan::Immediate(
            not_implemented_reply(method, name.as_str()),
        ),
    }
}

} // verus!
