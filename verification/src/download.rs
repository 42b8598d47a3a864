//! Download handling.
//!
//! A synchronous download forwards the provider's bytes as the HTTP body. An
//! asynchronous download registers a handle keyed by (container, object);
//! the provider then delivers the payload through chunk callbacks that are
//! appended strictly in order to the handle's buffer until a chunk marked
//! `is_last` completes and retires the handle. In-order means the chunk's
//! byte offset equals the bytes already received: offsets count 0, |b0|,
//! |b0|+|b1|, ... A callback that matches no handle, or arrives out of
//! order, is dropped without effect rather than reordered: callbacks arrive
//! outside their request's lifetime and must never fail the gateway.

use vstd::prelude::*;
use crate::reply::{error_body, error_reply, HttpReply};

verus! {

/// The reply a synchronous download ends in: the object's bytes as an
/// `application/octet-stream` body on success; a failure envelope when the
/// provider reported an error or returned no initial chunk.
pub fn download_reply(result: Result<Option<Vec<u8>>, String>) -> (r: HttpReply)
    ensures
        match result {
            Ok(chunk) => match chunk {
                Some(bytes) => r.status == 200 && r.body@ == bytes@ && r.octet_stream,
                None => r.status == 400 && r.body@ == error_body("no initial chunk"@)
                    && !r.octet_stream,
            },
            Err(e) => r.status == 400 && r.body@ == error_body(e@) && !r.octet_stream,
        },
{
    match result {
        Ok(chunk) => match chunk {
            Some(bytes) => HttpReply { status: 200, body: bytes, octet_stream: true },
            None => error_reply("no initial chunk"),
        },
        Err(e) => error_reply(e.as_str()),
    }
}

/// The initial reply an asynchronous download ends in. Here a missing
/// initial chunk is a normal case, not an error: the payload arrives through
/// the chunk callbacks, so the initial response is simply empty. Only a
/// provider-reported error yields the failure envelope.
pub fn async_download_reply(result: Result<Option<Vec<u8>>, String>) -> (r: HttpReply)
    ensures
        match result {
            Ok(chunk) => match chunk {
                Some(bytes) => r.status == 200 && r.body@ == bytes@ && r.octet_stream,
                None => r.status == 200 && r.body@ == Seq::<u8>::empty() && r.octet_stream,
            },
            Err(e) => r.status == 400 && r.body@ == error_body(e@) && !r.octet_stream,
        },
{
    match result {
        Ok(chunk) => match chunk {
            Some(bytes) => HttpReply { status: 200, body: bytes, octet_stream: true },
            None => HttpReply { status: 200, body: Vec::new(), octet_stream: true },
        },
        Err(e) => error_reply(e.as_str()),
    }
}

/// The specification-level image of one outstanding download handle: its key
/// and the bytes received so far. The next chunk expected is the one whose
/// offset equals `data.len()`.
pub struct HandleView {
    pub container: Seq<char>,
    pub object: Seq<char>,
    pub data: Seq<u8>,
}

/// Whether some handle in `es` is keyed by (`c`, `o`).
pub open spec fn dl_has(es: Seq<HandleView>, c: Seq<char>, o: Seq<char>) -> bool {
    exists|i: int| 0 <= i < es.len() && es[i].container == c && es[i].object == o
}

/// Index of the first handle keyed by (`c`, `o`) (meaningful only when
/// `dl_has(es, c, o)`).
pub open spec fn dl_index(es: Seq<HandleView>, c: Seq<char>, o: Seq<char>) -> int
    decreases es.len(),
{
    if es.len() == 0 {
        0
    } else if es[0].container == c && es[0].object == o {
        0
    } else {
        1 + dl_index(es.drop_first(), c, o)
    }
}

/// No two handles share a key.
pub open spec fn dl_distinct(es: Seq<HandleView>) -> bool {
    forall|i: int, j: int| 0 <= i < j < es.len() ==> !(es[i].container == es[j].container
        && es[i].object == es[j].object)
}

/// What one chunk callback does to the outstanding handles.
pub enum SpecOutcome {
    /// No handle is keyed by the callback's (container, object).
    NoMatch,
    /// The offset was not the next expected one; the chunk was dropped.
    OutOfOrder,
    /// The payload was appended; the download stays outstanding.
    Appended,
    /// The final payload, reassembled in order; the handle is retired.
    Completed(Seq<u8>),
}

/// The transition one chunk callback makes: the handles afterwards, and what
/// became of the chunk. A callback that matches nothing, or arrives out of
/// order, leaves the handles unchanged.
pub open spec fn spec_receive(
    es: Seq<HandleView>,
    c: Seq<char>,
    o: Seq<char>,
    offset: u64,
    bytes: Seq<u8>,
    is_last: bool,
) -> (Seq<HandleView>, SpecOutcome) {
    if !dl_has(es, c, o) {
        (es, SpecOutcome::NoMatch)
    } else {
        let i = dl_index(es, c, o);
        let h = es[i];
        if offset != h.data.len() {
            (es, SpecOutcome::OutOfOrder)
        } else if is_last {
            (es.remove(i), SpecOutcome::Completed(h.data + bytes))
        } else {
            (
                es.update(
                    i,
                    HandleView { container: h.container, object: h.object, data: h.data + bytes },
                ),
                SpecOutcome::Appended,
            )
        }
    }
}

/// What `DownloadRegistry::receive_chunk` reports back to the callback's
/// invoker. Every case is a normal result: the invoker never gets an error.
pub enum ChunkOutcome {
    /// The callback matched no outstanding download; it was ignored.
    NoMatch,
    /// The offset was not the next expected one; the chunk was dropped
    /// rather than reordered.
    OutOfOrder,
    /// The payload was appended to the download's buffer.
    Appended,
    /// The callback carried `is_last`: the fully reassembled object.
    Completed(Vec<u8>),
}

impl DeepView for ChunkOutcome {
    type V = SpecOutcome;

    open spec fn deep_view(&self) -> SpecOutcome {
        match self {
            ChunkOutcome::NoMatch => SpecOutcome::NoMatch,
            ChunkOutcome::OutOfOrder => SpecOutcome::OutOfOrder,
            ChunkOutcome::Appended => SpecOutcome::Appended,
            ChunkOutcome::Completed(d) => SpecOutcome::Completed(d@),
        }
    }
}

/// One outstanding asynchronous download.
struct DownloadHandle {
    container_id: String,
    object_id: String,
    data: Vec<u8>,
}

/// The outstanding asynchronous downloads, keyed by (container, object).
/// One registry serves the whole gateway: handles outlive the request that
/// started them, until their final chunk arrives.
pub struct DownloadRegistry {
    entries: Vec<DownloadHandle>,
}

impl View for DownloadRegistry {
    type V = Seq<HandleView>;

    closed spec fn view(&self) -> Seq<HandleView> {
        Seq::new(
            self.entries@.len(),
            |i: int|
                HandleView {
                    container: self.entries@[i].container_id@,
                    object: self.entries@[i].object_id@,
                    data: self.entries@[i].data@,
                },
        )
    }
}

proof fn lemma_dl_index_at(es: Seq<HandleView>, c: Seq<char>, o: Seq<char>, idx: int)
    requires
        0 <= idx < es.len(),
        es[idx].container == c,
        es[idx].object == o,
        forall|m: int| 0 <= m < idx ==> !(es[m].container == c && es[m].object == o),
    ensures
        dl_index(es, c, o) == idx,
    decreases idx,
{
    if idx != 0 {
        let t = es.drop_first();
        assert(t[idx - 1] == es[idx]);
        assert forall|m: int| 0 <= m < idx - 1 implies !(t[m].container == c && t[m].object
            == o) by {
            assert(t[m] == es[m + 1]);
        }
        lemma_dl_index_at(t, c, o, idx - 1);
    }
}

/// With distinct keys, the handle `dl_index` points at is the only one with
/// its key.
pub proof fn lemma_dl_index_unique(es: Seq<HandleView>, c: Seq<char>, o: Seq<char>)
    requires
        dl_distinct(es),
        dl_has(es, c, o),
    ensures
        0 <= dl_index(es, c, o) < es.len(),
        es[dl_index(es, c, o)].container == c,
        es[dl_index(es, c, o)].object == o,
        forall|m: int| 0 <= m < es.len() && m != dl_index(es, c, o) ==> !(es[m].container == c
            && es[m].object == o),
    decreases es.len(),
{
    let w = choose|i: int| 0 <= i < es.len() && es[i].container == c && es[i].object == o;
    if es[0].container == c && es[0].object == o {
        assert(dl_index(es, c, o) == 0);
    } else {
        let t = es.drop_first();
        assert(t[w - 1] == es[w]);
        assert(dl_has(t, c, o));
        assert forall|i: int, j: int| 0 <= i < j < t.len() implies !(t[i].container
            == t[j].container && t[i].object == t[j].object) by {
            assert(t[i] == es[i + 1] && t[j] == es[j + 1]);
        }
        lemma_dl_index_unique(t, c, o);
        let r = dl_index(es, c, o);
        assert(es[r] == t[r - 1]);
        assert forall|m: int| 0 <= m < es.len() && m != r implies !(es[m].container == c
            && es[m].object == o) by {
            if m > 0 {
                assert(t[m - 1] == es[m]);
            }
        }
    }
}

impl DownloadRegistry {
    /// Handles never share a key.
    pub open spec fn wf(self) -> bool {
        dl_distinct(self@)
    }

    /// A registry with no outstanding downloads.
    pub fn new() -> (r: DownloadRegistry)
        ensures
            r@ =~= Seq::<HandleView>::empty(),
            r.wf(),
    {
        DownloadRegistry { entries: Vec::new() }
    }

    /// Index of the first entry keyed by (`c`, `o`), if any.
    fn find(&self, container_id: &str, object_id: &str) -> (r: Option<usize>)
        ensures
            match r {
                Some(i) => i < self@.len() && self@[i as int].container == container_id@
                    && self@[i as int].object == object_id@ && dl_has(
                    self@,
                    container_id@,
                    object_id@,
                ) && dl_index(self@, container_id@, object_id@) == i,
                None => !dl_has(self@, container_id@, object_id@),
            },
    {
        let mut i: usize = 0;
        while i < self.entries.len()
            invariant
                i <= self.entries@.len(),
                forall|m: int| 0 <= m < i ==> !(self@[m].container == container_id@
                    && self@[m].object == object_id@),
            decreases self.entries@.len() - i,
        {
            if crate::router::str_eq(self.entries[i].container_id.as_str(), container_id)
                && crate::router::str_eq(self.entries[i].object_id.as_str(), object_id) {
                proof {
                    lemma_dl_index_at(self@, container_id@, object_id@, i as int);
                }
                return Some(i);
            }
            i += 1;
        }
        None
    }

    /// Registers a fresh handle for (`container_id`, `object_id`), with an
    /// empty buffer expecting offset 0. Starting a download that is already
    /// outstanding restarts it: the old handle is replaced.
    pub fn begin(&mut self, container_id: String, object_id: String)
        requires
            old(self).wf(),
        ensures
            final(self).wf(),
            ({
                let fresh = HandleView {
                    container: container_id@,
                    object: object_id@,
                    data: Seq::empty(),
                };
                final(self)@ == if dl_has(old(self)@, container_id@, object_id@) {
                    old(self)@.update(dl_index(old(self)@, container_id@, object_id@), fresh)
                } else {
                    old(self)@.push(fresh)
                }
            }),
    {
        let ghost before = self@;
        let fresh = DownloadHandle { container_id, object_id, data: Vec::new() };
        match self.find(fresh.container_id.as_str(), fresh.object_id.as_str()) {
            Some(i) => {
                proof {
                    lemma_dl_index_unique(before, fresh.container_id@, fresh.object_id@);
                }
                self.entries.remove(i);
                self.entries.insert(i, fresh);
                proof {
                    let after = before.update(i as int, HandleView {
                        container: before[i as int].container,
                        object: before[i as int].object,
                        data: Seq::empty(),
                    });
                    assert(self@ =~= after);
                    assert forall|a: int, b: int| 0 <= a < b < after.len() implies !(
                    after[a].container == after[b].container && after[a].object
                        == after[b].object) by {
                        assert(after[a].container == before[a].container && after[a].object
                            == before[a].object);
                        assert(after[b].container == before[b].container && after[b].object
                            == before[b].object);
                    }
                }
            },
            None => {
                self.entries.push(fresh);
                proof {
                    let fresh_v = HandleView {
                        container: self.entries@.last().container_id@,
                        object: self.entries@.last().object_id@,
                        data: Seq::empty(),
                    };
                    assert(self@ =~= before.push(fresh_v));
                    let after = before.push(fresh_v);
                    assert forall|a: int, b: int| 0 <= a < b < after.len() implies !(
                    after[a].container == after[b].container && after[a].object
                        == after[b].object) by {
                        if b == before.len() {
                            assert(after[a] == before[a]);
                            assert(!(0 <= a < before.len() && before[a].container
                                == fresh_v.container && before[a].object == fresh_v.object));
                        } else {
                            assert(after[a] == before[a] && after[b] == before[b]);
                        }
                    }
                }
            },
        }
    }

    /// Applies one provider chunk callback: exactly the `spec_receive`
    /// transition. A callback for an unknown or already-retired handle, or
    /// whose offset is not the bytes already received, is a no-op apart from
    /// its reported outcome.
    #[verifier::rlimit(60)]
    pub fn receive_chunk(
        &mut self,
        container_id: &str,
        object_id: &str,
        offset: u64,
        bytes: &[u8],
        is_last: bool,
    ) -> (r: ChunkOutcome)
        requires
            old(self).wf(),
        ensures
            final(self).wf(),
            (final(self)@, r.deep_view()) == spec_receive(
                old(self)@,
                container_id@,
                object_id@,
                offset,
                bytes@,
                is_last,
            ),
    {
        let ghost before = self@;
        match self.find(container_id, object_id) {
            None => ChunkOutcome::NoMatch,
            Some(i) => {
                proof {
                    lemma_dl_index_unique(before, container_id@, object_id@);
                }
                if offset != self.entries[i].data.len() as u64 {
                    ChunkOutcome::OutOfOrder
                } else if is_last {
                    let ghost entries_before = self.entries@;
                    let mut h = self.entries.remove(i);
                    h.data.extend_from_slice(bytes);
                    proof {
                        entries_before.remove_ensures(i as int);
                        before.remove_ensures(i as int);
                        let after = before.remove(i as int);
                        assert forall|m: int| 0 <= m < after.len() implies self@[m] == after[m] by {
                            if m < i as int {
                                assert(self.entries@[m] == entries_before[m]);
                                assert(after[m] == before[m]);
                            } else {
                                assert(self.entries@[m] == entries_before[m + 1]);
                                assert(after[m] == before[m + 1]);
                            }
                        }
                        assert(self@ =~= after);
                        assert(h.data@ == before[i as int].data + bytes@);
                        let after2 = before.remove(i as int);
                        assert forall|a: int, b: int| 0 <= a < b < after2.len() implies !(
                        after2[a].container == after2[b].container && after2[a].object
                            == after2[b].object) by {
                            let a0 = if a < i as int {
                                a
                            } else {
                                a + 1
                            };
                            let b0 = if b < i as int {
                                b
                            } else {
                                b + 1
                            };
                            assert(after2[a] == before[a0] && after2[b] == before[b0]);
                        }
                    }
                    ChunkOutcome::Completed(h.data)
                } else {
                    let ghost entries_before = self.entries@;
                    let mut h = self.entries.remove(i);
                    h.data.extend_from_slice(bytes);
                    let ghost entries_mid = self.entries@;
                    let ghost h_final = h;
                    self.entries.insert(i, h);
                    proof {
                        entries_before.remove_ensures(i as int);
                        entries_mid.insert_ensures(i as int, h_final);
                        let old_h = before[i as int];
                        let after = before.update(i as int, HandleView {
                            container: old_h.container,
                            object: old_h.object,
                            data: old_h.data + bytes@,
                        });
                        assert forall|m: int| 0 <= m < after.len() implies self@[m] == after[m] by {
                            if m < i as int {
                                assert(self.entries@[m] == entries_mid[m]);
                                assert(entries_mid[m] == entries_before[m]);
                            } else if m == i as int {
                                assert(self.entries@[m] == h_final);
                                assert(h_final.data@ == old_h.data + bytes@);
                            } else {
                                assert(self.entries@[m] == entries_mid[m - 1]);
                                assert(entries_mid[m - 1] == entries_before[m]);
                            }
                        }
                        assert(self@ =~= after);
                        assert forall|a: int, b: int| 0 <= a < b < after.len() implies !(
                        after[a].container == after[b].container && after[a].object
                            == after[b].object) by {
                            assert(after[a].container == before[a].container && after[a].object
                                == before[a].object);
                            assert(after[b].container == before[b].container && after[b].object
                                == before[b].object);
                        }
                    }
                    ChunkOutcome::Appended
                }
            },
        }
    }

    /// How many downloads are outstanding.
    pub fn outstanding(&self) -> (r: usize)
        ensures
            r == self@.len(),
    {
        self.entries.len()
    }
}

/// An in-order delivery of three chunks -- each offset the bytes already
/// received, `is_last` on the final one -- reassembles the concatenation of
/// the three payloads and retires the handle: afterwards its key matches
/// nothing, so a late callback for it is a no-op.
pub proof fn lemma_in_order_delivery_reassembles(
    es: Seq<HandleView>,
    c: Seq<char>,
    o: Seq<char>,
    b0: Seq<u8>,
    b1: Seq<u8>,
    b2: Seq<u8>,
    o1: u64,
    o2: u64,
)
    requires
        dl_distinct(es),
        dl_has(es, c, o),
        es[dl_index(es, c, o)].data == Seq::<u8>::empty(),
        o1 == b0.len(),
        o2 == b0.len() + b1.len(),
    ensures
        ({
            let (es1, r1) = spec_receive(es, c, o, 0, b0, false);
            let (es2, r2) = spec_receive(es1, c, o, o1, b1, false);
            let (es3, r3) = spec_receive(es2, c, o, o2, b2, true);
            &&& r1 == SpecOutcome::Appended
            &&& r2 == SpecOutcome::Appended
            &&& r3 == SpecOutcome::Completed(b0 + b1 + b2)
            &&& !dl_has(es3, c, o)
            &&& spec_receive(es3, c, o, 0, b2, true) == (es3, SpecOutcome::NoMatch)
        }),
{
    let i = dl_index(es, c, o);
    lemma_dl_index_unique(es, c, o);
    let (es1, r1) = spec_receive(es, c, o, 0, b0, false);
    lemma_update_same_key(es, c, o, es1);
    lemma_dl_index_unique(es1, c, o);
    let (es2, r2) = spec_receive(es1, c, o, o1, b1, false);
    lemma_update_same_key(es1, c, o, es2);
    lemma_dl_index_unique(es2, c, o);
    let (es3, r3) = spec_receive(es2, c, o, o2, b2, true);
    assert(Seq::<u8>::empty() + b0 =~= b0);
    assert(es2[dl_index(es2, c, o)].data == b0 + b1);
    assert(r3 == SpecOutcome::Completed(b0 + b1 + b2));
    assert forall|m: int| 0 <= m < es3.len() implies !(es3[m].container == c && es3[m].object
        == o) by {
        let m0 = if m < i {
            m
        } else {
            m + 1
        };
        assert(es3[m] == es2[m0]);
        assert(es2[m0].container == es[m0].container && es2[m0].object == es[m0].object);
    }
}

/// Updating the handle at a key's index with a handle of the same key keeps
/// every key where it was, so the key stays present at the same index and
/// stays distinct.
proof fn lemma_update_same_key(es: Seq<HandleView>, c: Seq<char>, o: Seq<char>, es2: Seq<HandleView>)
    requires
        dl_distinct(es),
        dl_has(es, c, o),
        es2.len() == es.len(),
        es2[dl_index(es, c, o)].container == c,
        es2[dl_index(es, c, o)].object == o,
        forall|m: int| 0 <= m < es.len() && m != dl_index(es, c, o) ==> es2[m] == es[m],
    ensures
        dl_distinct(es2),
        dl_has(es2, c, o),
        dl_index(es2, c, o) == dl_index(es, c, o),
{
    let i = dl_index(es, c, o);
    lemma_dl_index_unique(es, c, o);
    assert forall|a: int, b: int| 0 <= a < b < es2.len() implies !(es2[a].container
        == es2[b].container && es2[a].object == es2[b].object) by {
        if a != i && b != i {
            assert(es2[a] == es[a] && es2[b] == es[b]);
        } else if a == i {
            assert(es2[b] == es[b]);
            assert(!(es[b].container == c && es[b].object == o));
        } else {
            assert(es2[a] == es[a]);
            assert(!(es[a].container == c && es[a].object == o));
        }
    }
    assert(dl_has(es2, c, o));
    assert forall|m: int| 0 <= m < i implies !(es2[m].container == c && es2[m].object == o) by {
        assert(es2[m] == es[m]);
    }
    lemma_dl_index_at(es2, c, o, i);
}

} // verus!
