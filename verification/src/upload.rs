//! The chunked upload engine.
//!
//! An upload splits the request body into consecutive chunks of at most
//! `chunk_size` bytes. The final chunk (and only it) carries `is_last`;
//! sequence numbers count up from 0 with no gaps; a chunk's `offset` is the
//! byte position where its payload starts in the body. The target container
//! must be known to exist before a session opens: a missing container fails
//! fast, before any chunk exists to be sent. Chunks are handed out strictly
//! in order, one at a time; on a provider-reported failure the driver simply
//! stops asking, so nothing after the failed chunk is ever sent.

use vstd::prelude::*;
use crate::reply::{error_reply, error_body, HttpReply};

verus! {

/// One bounded slice of an object's bytes, sent as a unit.
pub struct Chunk {
    /// Container the object lives in.
    pub container_id: String,
    /// Object the bytes belong to.
    pub object_id: String,
    /// This chunk's slice of the body.
    pub bytes: Vec<u8>,
    /// Position of the chunk among its siblings, counting from 0.
    pub sequence: u64,
    /// Byte position in the body where this chunk's slice starts.
    pub offset: u64,
    /// True exactly on the final chunk of the upload.
    pub is_last: bool,
}

/// The slices an upload of `body` with chunk size `cs` is split into: full
/// `cs`-byte slices, in order, the remainder (or an empty body) as the final
/// slice. An empty body still yields one (empty) slice, so that even an
/// empty upload sends a chunk carrying `is_last`.
pub open spec fn spec_chunks(body: Seq<u8>, cs: nat) -> Seq<Seq<u8>>
    decreases body.len(),
    when cs >= 1
{
    if body.len() <= cs {
        seq![body]
    } else {
        seq![body.subrange(0, cs as int)] + spec_chunks(
            body.subrange(cs as int, body.len() as int),
            cs,
        )
    }
}

/// What it means for `chunks` to be the upload plan for `body` into
/// `container`/`object` with chunk size `cs`: the payloads are exactly
/// `spec_chunks(body, cs)`, sequence numbers count up from 0, each offset is
/// the sum of the payload lengths before it, and `is_last` marks exactly the
/// final chunk.
pub open spec fn is_chunk_plan(
    chunks: Seq<Chunk>,
    container: Seq<char>,
    object: Seq<char>,
    body: Seq<u8>,
    cs: nat,
) -> bool {
    let parts = spec_chunks(body, cs);
    &&& chunks.len() == parts.len()
    &&& forall|i: int| 0 <= i < chunks.len() ==> (#[trigger] chunks[i]).container_id@ == container
    &&& forall|i: int| 0 <= i < chunks.len() ==> (#[trigger] chunks[i]).object_id@ == object
    &&& forall|i: int| 0 <= i < chunks.len() ==> (#[trigger] chunks[i]).bytes@ == parts[i]
    &&& forall|i: int| 0 <= i < chunks.len() ==> (#[trigger] chunks[i]).sequence == i
    &&& forall|i: int| 0 <= i < chunks.len() ==> (#[trigger] chunks[i]).offset == i * cs
    &&& forall|i: int| 0 <= i < chunks.len() ==> ((#[trigger] chunks[i]).is_last <==> i + 1
        == chunks.len())
}

/// The slices of an upload plan put back together are the body; every slice
/// but the last holds exactly `cs` bytes, and the last holds the remainder:
/// at most `cs` bytes, and at least one when the body is not empty. The
/// chunk count is thereby pinned: the smallest number of `cs`-byte chunks
/// that covers the body.
pub proof fn lemma_spec_chunks_shape(body: Seq<u8>, cs: nat)
    requires
        cs >= 1,
    ensures
        spec_chunks(body, cs).len() >= 1,
        spec_chunks(body, cs).flatten() == body,
        forall|i: int| 0 <= i < spec_chunks(body, cs).len() - 1 ==> (#[trigger] spec_chunks(
            body,
            cs,
        )[i]).len() == cs,
        spec_chunks(body, cs).last().len() <= cs,
        body.len() > 0 ==> spec_chunks(body, cs).last().len() >= 1,
        body.len() > 0 ==> (spec_chunks(body, cs).len() - 1) * cs < body.len() <= spec_chunks(
            body,
            cs,
        ).len() * cs,
    decreases body.len(),
{
    let parts = spec_chunks(body, cs);
    if body.len() <= cs {
        assert(parts == seq![body]);
        assert(parts.drop_first() =~= Seq::<Seq<u8>>::empty());
        assert(Seq::<Seq<u8>>::empty().flatten() =~= Seq::<u8>::empty());
        assert(parts.flatten() =~= body);
        assert(0 * cs == 0) by (nonlinear_arith);
        assert(1 * cs == cs) by (nonlinear_arith);
    } else {
        let head = body.subrange(0, cs as int);
        let rest = body.subrange(cs as int, body.len() as int);
        lemma_spec_chunks_shape(rest, cs);
        assert(parts[0] == head);
        assert(parts.drop_first() =~= spec_chunks(rest, cs));
        assert(parts.flatten() == head + spec_chunks(rest, cs).flatten());
        assert(head + rest =~= body);
        assert(parts.last() == spec_chunks(rest, cs).last());
        assert forall|i: int| 0 <= i < parts.len() - 1 implies (#[trigger] parts[i]).len()
            == cs by {
            if i > 0 {
                assert(parts[i] == spec_chunks(rest, cs)[i - 1]);
            }
        }
        let k = spec_chunks(rest, cs).len();
        assert((k - 1) * cs < rest.len() <= k * cs);
        assert(k * cs == (k - 1) * cs + cs) by (nonlinear_arith);
        assert((k + 1) * cs == k * cs + cs) by (nonlinear_arith);
        assert(parts.len() == k + 1);
        assert((parts.len() - 1) * cs < body.len() <= parts.len() * cs);
    }
}

/// Splits `body` into the chunks of one upload of `object` into `container`.
pub fn split_chunks(container_id: &str, object_id: &str, body: &[u8], chunk_size: usize) -> (r:
    Vec<Chunk>)
    requires
        chunk_size >= 1,
    ensures
        is_chunk_plan(r@, container_id@, object_id@, body@, chunk_size as nat),
{
    let len = body.len();
    let mut out: Vec<Chunk> = Vec::new();
    let mut pos: usize = 0;
    let mut done = false;
    proof {
        assert(out@.len() == 0);
        assert(0 * chunk_size == 0) by (nonlinear_arith);
        assert(body@.subrange(0, len as int) =~= body@);
        assert(out@.map_values(|c: Chunk| c.bytes@) =~= Seq::<Seq<u8>>::empty());
        assert(Seq::<Seq<u8>>::empty() + spec_chunks(body@, chunk_size as nat) =~= spec_chunks(
            body@,
            chunk_size as nat,
        ));
    }
    while !done
        invariant
            chunk_size >= 1,
            len == body@.len(),
            pos <= len,
            !done ==> pos == out@.len() * chunk_size,
            !done ==> spec_chunks(body@, chunk_size as nat) =~= out@.map_values(
                |c: Chunk| c.bytes@,
            ) + spec_chunks(body@.subrange(pos as int, len as int), chunk_size as nat),
            done ==> out@.len() >= 1 && spec_chunks(body@, chunk_size as nat) =~= out@.map_values(
                |c: Chunk| c.bytes@,
            ),
            forall|i: int| 0 <= i < out@.len() ==> (#[trigger] out@[i]).container_id@
                == container_id@,
            forall|i: int| 0 <= i < out@.len() ==> (#[trigger] out@[i]).object_id@ == object_id@,
            forall|i: int| 0 <= i < out@.len() ==> (#[trigger] out@[i]).sequence == i,
            forall|i: int| 0 <= i < out@.len() ==> (#[trigger] out@[i]).offset == i * chunk_size,
            !done ==> forall|i: int| 0 <= i < out@.len() ==> !(#[trigger] out@[i]).is_last,
            done ==> forall|i: int| 0 <= i < out@.len() ==> ((#[trigger] out@[i]).is_last <==> i + 1
                == out@.len()),
        decreases len - pos + (if done { 0int } else { 1int }),
    {
        let ghost rest = body@.subrange(pos as int, len as int);
        let ghost out_before = out@;
        let is_last = len - pos <= chunk_size;
        let end = if is_last {
            len
        } else {
            pos + chunk_size
        };
        let mut piece: Vec<u8> = Vec::new();
        piece.extend_from_slice(&body[pos..end]);
        proof {
            assert(piece@ =~= body@.subrange(pos as int, end as int));
        }
        let chunk = Chunk {
            container_id: container_id.to_owned(),
            object_id: object_id.to_owned(),
            bytes: piece,
            sequence: (out.len() as u64),
            offset: (pos as u64),
            is_last,
        };
        out.push(chunk);
        proof {
            assert(out@.map_values(|c: Chunk| c.bytes@) =~= out_before.map_values(
                |c: Chunk| c.bytes@,
            ).push(body@.subrange(pos as int, end as int)));
            if is_last {
                assert(spec_chunks(rest, chunk_size as nat) =~= seq![rest]);
                assert(out@.map_values(|c: Chunk| c.bytes@) =~= out_before.map_values(
                    |c: Chunk| c.bytes@,
                ) + seq![rest]);
            } else {
                let rest2 = body@.subrange(end as int, len as int);
                assert(rest.subrange(chunk_size as int, rest.len() as int) =~= rest2);
                assert(rest.subrange(0, chunk_size as int) =~= body@.subrange(
                    pos as int,
                    end as int,
                ));
                assert(spec_chunks(rest, chunk_size as nat) =~= seq![
                    body@.subrange(pos as int, end as int),
                ] + spec_chunks(rest2, chunk_size as nat));
                assert((out_before.len() + 1) * chunk_size == out_before.len() * chunk_size
                    + chunk_size) by (nonlinear_arith);
            }
        }
        if is_last {
            done = true;
        } else {
            pos = end;
        }
    }
    proof {
        lemma_spec_chunks_shape(body@, chunk_size as nat);
    }
    out
}

/// One in-flight upload: the not-yet-handed-out chunks of its plan.
pub struct UploadSession {
    chunks: Vec<Chunk>,
    next: usize,
}

impl UploadSession {
    /// The full upload plan this session was opened with.
    pub closed spec fn plan(self) -> Seq<Chunk> {
        self.chunks@
    }

    /// How many chunks have been handed out so far.
    pub closed spec fn sent(self) -> nat {
        self.next as nat
    }

    pub open spec fn wf(self) -> bool {
        self.sent() <= self.plan().len()
    }

    /// Opens an upload session, or fails fast when the target container does
    /// not exist: then no session -- and so no chunk -- ever comes to be, and
    /// the caller gets the failure reply to answer with.
    pub fn begin(
        container_exists: bool,
        container_id: &str,
        object_id: &str,
        body: &[u8],
        chunk_size: usize,
    ) -> (r: Result<UploadSession, HttpReply>)
        requires
            chunk_size >= 1,
        ensures
            match r {
                Ok(s) => container_exists && s.wf() && s.sent() == 0 && is_chunk_plan(
                    s.plan(),
                    container_id@,
                    object_id@,
                    body@,
                    chunk_size as nat,
                ),
                Err(rep) => !container_exists && rep.status == 400 && rep.body@ == error_body(
                    "container does not exist"@,
                ) && !rep.octet_stream,
            },
    {
        if !container_exists {
            return Err(error_reply("container does not exist"));
        }
        let chunks = split_chunks(container_id, object_id, body, chunk_size);
        Ok(UploadSession { chunks, next: 0 })
    }

    /// Hands out the next chunk of the plan, in strictly increasing sequence
    /// order, or `None` once every chunk has been handed out.
    pub fn next_chunk(&mut self) -> (r: Option<Chunk>)
        requires
            old(self).wf(),
        ensures
            final(self).wf(),
            final(self).plan() == old(self).plan(),
            match r {
                Some(c) => {
                    &&& old(self).sent() < old(self).plan().len()
                    &&& final(self).sent() == old(self).sent() + 1
                    &&& c.container_id@ == old(self).plan()[old(self).sent() as int].container_id@
                    &&& c.object_id@ == old(self).plan()[old(self).sent() as int].object_id@
                    &&& c.bytes@ == old(self).plan()[old(self).sent() as int].bytes@
                    &&& c.sequence == old(self).plan()[old(self).sent() as int].sequence
                    &&& c.offset == old(self).plan()[old(self).sent() as int].offset
                    &&& c.is_last == old(self).plan()[old(self).sent() as int].is_last
                },
                None => old(self).sent() == old(self).plan().len() && final(self).sent() == old(
                    self,
                ).sent(),
            },
    {
        if self.next >= self.chunks.len() {
            return None;
        }
        let c = &self.chunks[self.next];
        let mut bytes: Vec<u8> = Vec::new();
        bytes.extend_from_slice(c.bytes.as_slice());
        proof {
            assert(bytes@ =~= self.chunks@[self.next as int].bytes@);
        }
        let out = Chunk {
            container_id: c.container_id.clone(),
            object_id: c.object_id.clone(),
            bytes,
            sequence: c.sequence,
            offset: c.offset,
            is_last: c.is_last,
        };
        self.next += 1;
        Some(out)
    }

    /// How many chunks remain to be handed out.
    pub fn remaining(&self) -> (r: usize)
        requires
            self.wf(),
        ensures
            r == self.plan().len() - self.sent(),
    {
        self.chunks.len() - self.next
    }
}

} // verus!
