//! Request routing.
//!
//! The final non-empty segment of the request path names the operation; the
//! HTTP method and that name together select one of a fixed set of
//! operations. Anything unmatched routes to `Unknown`, which is a normal
//! negative result (answered with a structured 400 reply), never a failure of
//! the router itself.

use vstd::prelude::*;
use vstd::string::*;

verus! {

/// One of the gateway's operations, as resolved from a request.
pub enum Operation {
    CreateContainer,
    Upload,
    Download,
    AsyncDownload,
    ListContainers,
    ListObjects,
    ContainerExists,
    ObjectExists,
    GetObjectInfo,
    GetContainerInfo,
    RemoveContainers,
    RemoveObjects,
    Echo,
    /// An operation name that no table entry matched, kept for the reply.
    Unknown(String),
}

/// The specification-level image of an `Operation`.
pub enum OpView {
    CreateContainer,
    Upload,
    Download,
    AsyncDownload,
    ListContainers,
    ListObjects,
    ContainerExists,
    ObjectExists,
    GetObjectInfo,
    GetContainerInfo,
    RemoveContainers,
    RemoveObjects,
    Echo,
    Unknown(Seq<char>),
}

impl DeepView for Operation {
    type V = OpView;

    open spec fn deep_view(&self) -> OpView {
        match self {
            Operation::CreateContainer => OpView::CreateContainer,
            Operation::Upload => OpView::Upload,
            Operation::Download => OpView::Download,
            Operation::AsyncDownload => OpView::AsyncDownload,
            Operation::ListContainers => OpView::ListContainers,
            Operation::ListObjects => OpView::ListObjects,
            Operation::ContainerExists => OpView::ContainerExists,
            Operation::ObjectExists => OpView::ObjectExists,
            Operation::GetObjectInfo => OpView::GetObjectInfo,
            Operation::GetContainerInfo => OpView::GetContainerInfo,
            Operation::RemoveContainers => OpView::RemoveContainers,
            Operation::RemoveObjects => OpView::RemoveObjects,
            Operation::Echo => OpView::Echo,
            Operation::Unknown(name) => OpView::Unknown(name@),
        }
    }
}

/// Index just after the last `/` in `p`, or 0 if `p` has none: where the
/// final run of non-`/` characters starts.
pub open spec fn suffix_start(p: Seq<char>) -> int
    decreases p.len(),
{
    if p.len() == 0 {
        0
    } else if p[p.len() - 1] == '/' {
        p.len() as int
    } else {
        suffix_start(p.drop_last())
    }
}

/// The final non-empty segment of a `/`-separated path, or the empty
/// sequence when the path has no non-empty segment.
pub open spec fn last_nonempty_segment(p: Seq<char>) -> Seq<char>
    decreases p.len(),
{
    if p.len() == 0 {
        p
    } else if p[p.len() - 1] == '/' {
        last_nonempty_segment(p.drop_last())
    } else {
        p.subrange(suffix_start(p), p.len() as int)
    }
}

pub proof fn lemma_suffix_start_at(s: Seq<char>, b: int)
    requires
        0 <= b <= s.len(),
        forall|k: int| b <= k < s.len() ==> s[k] != '/',
        b > 0 ==> s[b - 1] == '/',
    ensures
        suffix_start(s) == b,
    decreases s.len(),
{
    if s.len() == 0 {
    } else if b == s.len() {
    } else {
        assert(s[s.len() - 1] != '/');
        let t = s.drop_last();
        lemma_suffix_start_at(t, b);
    }
}

/// The operation that `method` and the final path segment of `path` resolve
/// to. The routing table, in one place.
pub open spec fn spec_route(method: Seq<char>, path: Seq<char>) -> OpView {
    let name = last_nonempty_segment(path);
    if method == "GET"@ {
        if name == "container_exists"@ {
            OpView::ContainerExists
        } else if name == "object_exists"@ {
            OpView::ObjectExists
        } else if name == "get_object_info"@ {
            OpView::GetObjectInfo
        } else if name == "get_container_info"@ {
            OpView::GetContainerInfo
        } else if name == "list_containers"@ {
            OpView::ListContainers
        } else if name == "list_objects"@ {
            OpView::ListObjects
        } else if name == "download"@ {
            OpView::Download
        } else if name == "async_dl"@ {
            OpView::AsyncDownload
        } else {
            OpView::Unknown(name)
        }
    } else if method == "POST"@ {
        if name == "create_container"@ {
            OpView::CreateContainer
        } else if name == "upload"@ {
            OpView::Upload
        } else if name == "echo"@ {
            OpView::Echo
        } else {
            OpView::Unknown(name)
        }
    } else if method == "DELETE"@ {
        if name == "remove_containers"@ {
            OpView::RemoveContainers
        } else if name == "remove_objects"@ {
            OpView::RemoveObjects
        } else {
            OpView::Unknown(name)
        }
    } else {
        OpView::Unknown(name)
    }
}

/// Whether two string slices hold the same characters.
pub fn str_eq(a: &str, b: &str) -> (r: bool)
    ensures
        r == (a@ == b@),
{
    let an = a.unicode_len();
    let bn = b.unicode_len();
    if an != bn {
        return false;
    }
    let mut i: usize = 0;
    while i < an
        invariant
            an == a@.len(),
            an == b@.len(),
            i <= an,
            forall|m: int| 0 <= m < i ==> a@[m] == b@[m],
        decreases an - i,
    {
        if a.get_char(i) != b.get_char(i) {
            return false;
        }
        i += 1;
    }
    proof {
        assert(a@ =~= b@);
    }
    true
}

/// The final non-empty segment of `path`, the operation name of a request.
pub fn last_path_segment(path: &str) -> (r: String)
    ensures
        r@ == last_nonempty_segment(path@),
{
    let n = path.unicode_len();
    // Strip trailing slashes.
    let mut e: usize = n;
    proof {
        assert(path@.subrange(0, n as int) =~= path@);
    }
    while e > 0 && path.get_char(e - 1) == '/'
        invariant
            n == path@.len(),
            e <= n,
            last_nonempty_segment(path@.subrange(0, e as int)) == last_nonempty_segment(path@),
        decreases e,
    {
        proof {
            let q = path@.subrange(0, e as int);
            assert(q[q.len() - 1] == path@[e - 1]);
            assert(q.drop_last() =~= path@.subrange(0, e - 1));
        }
        e -= 1;
    }
    let ghost q = path@.subrange(0, e as int);
    if e == 0 {
        proof {
            assert(q =~= Seq::<char>::empty());
            assert(last_nonempty_segment(q) == q);
        }
        let r = String::new();
        proof {
            assert(r@ =~= last_nonempty_segment(path@));
        }
        return r;
    }
    // Walk back over the final segment to its start.
    let mut b: usize = e;
    while b > 0 && path.get_char(b - 1) != '/'
        invariant
            n == path@.len(),
            b <= e <= n,
            forall|k: int| b <= k < e ==> path@[k] != '/',
        decreases b,
    {
        b -= 1;
    }
    proof {
        assert forall|k: int| b <= k < q.len() implies q[k] != '/' by {
            assert(q[k] == path@[k]);
        }
        if b > 0 {
            assert(q[b - 1] == path@[b - 1]);
        }
        lemma_suffix_start_at(q, b as int);
        assert(q[q.len() - 1] == path@[e - 1]);
        assert(q[q.len() - 1] != '/');
        assert(last_nonempty_segment(q) == q.subrange(b as int, e as int));
        assert(q.subrange(b as int, e as int) =~= path@.subrange(b as int, e as int));
    }
    let seg = path.substring_char(b, e);
    seg.to_owned()
}

/// Resolves `method` and `path` to an operation: the routing table applied
/// to the final non-empty path segment. Total: anything unmatched yields
/// `Unknown` with that segment as its name.
pub fn route(method: &str, path: &str) -> (op: Operation)
    ensures
        op.deep_view() == spec_route(method@, path@),
{
    let name = last_path_segment(path);
    if str_eq(method, "GET") {
        if str_eq(name.as_str(), "container_exists") {
            Operation::ContainerExists
        } else if str_eq(name.as_str(), "object_exists") {
            Operation::ObjectExists
        } else if str_eq(name.as_str(), "get_object_info") {
            Operation::GetObjectInfo
        } else if str_eq(name.as_str(), "get_container_info") {
            Operation::GetContainerInfo
        } else if str_eq(name.as_str(), "list_containers") {
            Operation::ListContainers
        } else if str_eq(name.as_str(), "list_objects") {
            Operation::ListObjects
        } else if str_eq(name.as_str(), "download") {
            Operation::Download
        } else if str_eq(name.as_str(), "async_dl") {
            Operation::AsyncDownload
        } else {
            Operation::Unknown(name)
        }
    } else if str_eq(method, "POST") {
        if str_eq(name.as_str(), "create_container") {
            Operation::CreateContainer
        } else if str_eq(name.as_str(), "upload") {
            Operation::Upload
        } else if str_eq(name.as_str(), "echo") {
            Operation::Echo
        } else {
            Operation::Unknown(name)
        }
    } else if str_eq(method, "DELETE") {
        if str_eq(name.as_str(), "remove_containers") {
            Operation::RemoveContainers
        } else if str_eq(name.as_str(), "remove_objects") {
            Operation::RemoveObjects
        } else {
            Operation::Unknown(name)
        }
    } else {
        Operation::Unknown(name)
    }
}

} // verus!
