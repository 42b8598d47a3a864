use blobstore_gateway::download::{
    async_download_reply, download_reply, ChunkOutcome, DownloadRegistry,
};
use blobstore_gateway::upload::{split_chunks, UploadSession};

#[test]
fn split_120_bytes_at_50_gives_three_chunks() {
    let body: Vec<u8> = (0..120u8).collect();
    let chunks = split_chunks("c", "f", &body, 50);

    assert_eq!(chunks.len(), 3);
    assert_eq!(chunks[0].bytes.len(), 50);
    assert_eq!(chunks[1].bytes.len(), 50);
    assert_eq!(chunks[2].bytes.len(), 20);
    assert_eq!(chunks[0].sequence, 0);
    assert_eq!(chunks[1].sequence, 1);
    assert_eq!(chunks[2].sequence, 2);
    assert_eq!(chunks[0].offset, 0);
    assert_eq!(chunks[1].offset, 50);
    assert_eq!(chunks[2].offset, 100);
    assert!(!chunks[0].is_last);
    assert!(!chunks[1].is_last);
    assert!(chunks[2].is_last);

    let mut glued: Vec<u8> = Vec::new();
    for c in &chunks {
        assert_eq!(c.container_id.as_str(), "c");
        assert_eq!(c.object_id.as_str(), "f");
        glued.extend_from_slice(&c.bytes);
    }
    assert_eq!(glued, body);
}

#[test]
fn split_exact_multiple_has_no_ragged_tail() {
    let body = vec![7u8; 100];
    let chunks = split_chunks("c", "f", &body, 50);
    assert_eq!(chunks.len(), 2);
    assert_eq!(chunks[0].bytes.len(), 50);
    assert_eq!(chunks[1].bytes.len(), 50);
    assert!(chunks[1].is_last);
}

#[test]
fn split_empty_body_still_sends_a_last_chunk() {
    let chunks = split_chunks("c", "f", &[], 50);
    assert_eq!(chunks.len(), 1);
    assert_eq!(chunks[0].bytes.len(), 0);
    assert_eq!(chunks[0].sequence, 0);
    assert!(chunks[0].is_last);
}

#[test]
fn upload_session_hands_chunks_out_in_order() {
    let body: Vec<u8> = (0..120u8).collect();
    let mut session = match UploadSession::begin(true, "c", "f", &body, 50) {
        Ok(s) => s,
        Err(_) => panic!("a session must open on an existing container"),
    };
    assert_eq!(session.remaining(), 3);

    let mut seen: Vec<u8> = Vec::new();
    let mut expect_seq: u64 = 0;
    while let Some(chunk) = session.next_chunk() {
        assert_eq!(chunk.sequence, expect_seq);
        assert_eq!(chunk.is_last, expect_seq == 2);
        seen.extend_from_slice(&chunk.bytes);
        expect_seq += 1;
    }
    assert_eq!(expect_seq, 3);
    assert_eq!(seen, body);
    assert_eq!(session.remaining(), 0);
    assert!(session.next_chunk().is_none());
}

#[test]
fn upload_to_missing_container_sends_nothing_and_fails() {
    let body = vec![1u8; 120];
    match UploadSession::begin(false, "c", "f", &body, 50) {
        Ok(_) => panic!("a session must not open on a missing container"),
        Err(rep) => {
            assert_eq!(rep.status, 400);
            assert_eq!(
                rep.body,
                b"{\"success\":false,\"error\":\"container does not exist\"}"
            );
        }
    }
}

#[test]
fn download_reply_forwards_bytes_as_octet_stream() {
    let rep = download_reply(Ok(Some(vec![9, 8, 7])));
    assert_eq!(rep.status, 200);
    assert!(rep.octet_stream);
    assert_eq!(rep.body, vec![9, 8, 7]);
}

#[test]
fn download_reply_wraps_provider_errors() {
    let rep = download_reply(Err("no such object".to_string()));
    assert_eq!(rep.status, 400);
    assert!(!rep.octet_stream);
    assert_eq!(rep.body, b"{\"success\":false,\"error\":\"no such object\"}");

    let rep = download_reply(Ok(None));
    assert_eq!(rep.status, 400);
    assert_eq!(rep.body, b"{\"success\":false,\"error\":\"no initial chunk\"}");
}

#[test]
fn async_initial_reply_without_inline_chunk_is_empty_success() {
    // For an asynchronous download the payload may arrive entirely through
    // callbacks: a missing initial chunk is a normal, empty 200 response.
    let rep = async_download_reply(Ok(None));
    assert_eq!(rep.status, 200);
    assert!(rep.octet_stream);
    assert!(rep.body.is_empty());

    let rep = async_download_reply(Ok(Some(vec![1, 2])));
    assert_eq!(rep.status, 200);
    assert!(rep.octet_stream);
    assert_eq!(rep.body, vec![1, 2]);

    let rep = async_download_reply(Err("offline".to_string()));
    assert_eq!(rep.status, 400);
    assert!(!rep.octet_stream);
    assert_eq!(rep.body, b"{\"success\":false,\"error\":\"offline\"}");
}

#[test]
fn async_download_reassembles_chunks_zero_one_two() {
    // Three one-byte chunks whose markers run [0, 1, 2], in order, with
    // `is_last` on chunk 2.
    let mut reg = DownloadRegistry::new();
    reg.begin("c".to_string(), "f".to_string());
    assert_eq!(reg.outstanding(), 1);

    assert!(matches!(reg.receive_chunk("c", "f", 0, b"x", false), ChunkOutcome::Appended));
    assert!(matches!(reg.receive_chunk("c", "f", 1, b"y", false), ChunkOutcome::Appended));
    match reg.receive_chunk("c", "f", 2, b"z", true) {
        ChunkOutcome::Completed(data) => assert_eq!(data, b"xyz"),
        _ => panic!("expected completion on the last chunk"),
    }
    assert_eq!(reg.outstanding(), 0);

    // The handle is retired: a late callback for it is a no-op.
    assert!(matches!(reg.receive_chunk("c", "f", 3, b"zz", true), ChunkOutcome::NoMatch));
}

#[test]
fn async_download_reassembles_at_byte_offsets() {
    let mut reg = DownloadRegistry::new();
    reg.begin("c".to_string(), "f".to_string());

    assert!(matches!(reg.receive_chunk("c", "f", 0, b"aaa", false), ChunkOutcome::Appended));
    assert!(matches!(reg.receive_chunk("c", "f", 3, b"bb", false), ChunkOutcome::Appended));
    match reg.receive_chunk("c", "f", 5, b"c", true) {
        ChunkOutcome::Completed(data) => assert_eq!(data, b"aaabbc"),
        _ => panic!("expected completion on the last chunk"),
    }
    assert_eq!(reg.outstanding(), 0);
}

#[test]
fn async_download_drops_out_of_order_chunks() {
    let mut reg = DownloadRegistry::new();
    reg.begin("c".to_string(), "f".to_string());

    assert!(matches!(reg.receive_chunk("c", "f", 2, b"bb", false), ChunkOutcome::OutOfOrder));
    assert_eq!(reg.outstanding(), 1);
    assert!(matches!(reg.receive_chunk("c", "f", 0, b"aa", false), ChunkOutcome::Appended));
    assert!(matches!(reg.receive_chunk("c", "f", 0, b"aa", false), ChunkOutcome::OutOfOrder));
    match reg.receive_chunk("c", "f", 2, b"bb", true) {
        ChunkOutcome::Completed(data) => assert_eq!(data, b"aabb"),
        _ => panic!("expected completion"),
    }
}

#[test]
fn orphan_chunk_callback_is_a_no_op() {
    let mut reg = DownloadRegistry::new();
    assert!(matches!(reg.receive_chunk("c", "f", 0, b"x", false), ChunkOutcome::NoMatch));
    assert_eq!(reg.outstanding(), 0);
}

#[test]
fn restarting_a_download_replaces_its_handle() {
    let mut reg = DownloadRegistry::new();
    reg.begin("c".to_string(), "f".to_string());
    assert!(matches!(reg.receive_chunk("c", "f", 0, b"old", false), ChunkOutcome::Appended));

    // Starting the same download again resets the buffer and the expected
    // sequence number.
    reg.begin("c".to_string(), "f".to_string());
    assert_eq!(reg.outstanding(), 1);
    match reg.receive_chunk("c", "f", 0, b"new", true) {
        ChunkOutcome::Completed(data) => assert_eq!(data, b"new"),
        _ => panic!("expected completion"),
    }
}
