use meshshare::engine::FileTransfer;
use meshshare::error::DeskShareError;
use meshshare::session::{ChunkOutcome, FileChunk, TransferStatus};

fn sample_data(len: usize) -> Vec<u8> {
    (0..len).map(|i| (i % 251) as u8).collect()
}

fn share_on(ft: &mut FileTransfer, name: &str, data: &[u8]) -> Vec<u8> {
    ft.share_file(name.to_string(), data.to_vec(), "origin-peer".to_string(), 1700000000)
        .expect("share_file failed")
}

/// Move the manifest of `hash` from one engine to another, as a manifest
/// fetch from a peer would.
fn copy_manifest(from: &FileTransfer, to: &mut FileTransfer, hash: &[u8]) {
    let mut found = false;
    for m in from.get_shared_files() {
        if m.hash == hash {
            to.publish_manifest(m).expect("publish_manifest failed");
            found = true;
            break;
        }
    }
    assert!(found, "manifest not found on source engine");
}

fn chunk_digests_of(ft: &FileTransfer, hash: &[u8]) -> Vec<Vec<u8>> {
    for m in ft.get_shared_files() {
        if m.hash == hash {
            return m.chunks;
        }
    }
    panic!("manifest not found");
}

#[test]
fn test_share_and_download_round_trip() {
    let mut ft = FileTransfer::with_chunk_size(1024);
    let data = sample_data(10_000);
    let digest = share_on(&mut ft, "notes.txt", &data);

    let expected = blake3::hash(&data);
    assert_eq!(digest.as_slice(), expected.as_bytes());

    let handle = ft.download_file(&digest, "/tmp/notes-copy.txt".to_string());
    assert!(handle.is_ok());
    assert_eq!(ft.transfer_status(&digest), Some(TransferStatus::Completed));

    let out = ft.assembled_output(&digest).expect("no assembled output");
    assert_eq!(out, data);
    assert_eq!(blake3::hash(&out).as_bytes(), digest.as_slice());
}

#[test]
fn test_empty_file_round_trip() {
    let mut ft = FileTransfer::with_chunk_size(64);
    let digest = share_on(&mut ft, "empty.bin", &[]);
    assert_eq!(digest.as_slice(), blake3::hash(&[]).as_bytes());

    ft.download_file(&digest, "/tmp/empty-copy.bin".to_string()).expect("download failed");
    assert_eq!(ft.transfer_status(&digest), Some(TransferStatus::Completed));
    assert_eq!(ft.assembled_output(&digest).expect("no output"), Vec::<u8>::new());
}

#[test]
fn test_idempotent_publish() {
    let mut ft = FileTransfer::with_chunk_size(256);
    let data = sample_data(1000);
    let d1 = share_on(&mut ft, "doc.bin", &data);
    let chunks_before = chunk_digests_of(&ft, &d1);
    let catalog_len_before = ft.get_shared_files().len();

    let d2 = share_on(&mut ft, "doc.bin", &data);
    assert_eq!(d1, d2);
    assert_eq!(ft.get_shared_files().len(), catalog_len_before);
    assert_eq!(chunk_digests_of(&ft, &d1), chunks_before);
}

#[test]
fn test_duplicate_manifest_conflict() {
    let mut ft = FileTransfer::with_chunk_size(256);
    let data = sample_data(1000);
    let digest = share_on(&mut ft, "doc.bin", &data);

    let mut forged = ft.get_shared_files().into_iter().find(|m| m.hash == digest).unwrap();
    forged.chunks.reverse();
    let r = ft.publish_manifest(forged);
    assert_eq!(r, Err(DeskShareError::DuplicateManifest));
}

#[test]
fn test_chunk_digest_binds_index() {
    // The same 1024-byte block at chunk index 0 and chunk index 1 is
    // published under two different chunk digests.
    let block: Vec<u8> = vec![0xabu8; 1024];
    let mut data = block.clone();
    data.extend_from_slice(&block);

    let mut ft = FileTransfer::with_chunk_size(1024);
    let digest = share_on(&mut ft, "twin.bin", &data);
    let chunks = chunk_digests_of(&ft, &digest);
    assert_eq!(chunks.len(), 2);
    assert_ne!(chunks[0], chunks[1]);
}

#[test]
fn test_out_of_order_arrival() {
    // Five chunks delivered in reverse order still complete with correctly
    // assembled output.
    let mut origin = FileTransfer::with_chunk_size(4);
    let data = sample_data(18);
    let digest = share_on(&mut origin, "five.bin", &data);
    let chunks = chunk_digests_of(&origin, &digest);
    assert_eq!(chunks.len(), 5);

    let mut peer = FileTransfer::with_chunk_size(4);
    copy_manifest(&origin, &mut peer, &digest);
    peer.start_download(&digest, "/tmp/five-copy.bin".to_string()).expect("start failed");
    assert_eq!(peer.transfer_status(&digest), Some(TransferStatus::InProgress));

    for index in [4usize, 3, 2, 1, 0] {
        let (_, bytes) = origin
            .handle_chunk_request(&chunks[index], &"peer-b".to_string())
            .expect("origin lacks chunk");
        let outcome = peer.on_chunk_received(&digest, index, bytes);
        if index == 0 {
            assert_eq!(outcome, ChunkOutcome::Completed);
        } else {
            assert_eq!(outcome, ChunkOutcome::Accepted);
        }
    }
    assert_eq!(peer.transfer_status(&digest), Some(TransferStatus::Completed));
    assert_eq!(peer.assembled_output(&digest).expect("no output"), data);
}

#[test]
fn test_corrupt_chunk_retry_alternate_peer() {
    let mut origin = FileTransfer::with_chunk_size(64);
    let data = sample_data(40);
    let digest = share_on(&mut origin, "one.bin", &data);
    let chunks = chunk_digests_of(&origin, &digest);
    assert_eq!(chunks.len(), 1);

    let mut peer = FileTransfer::with_chunk_size(64);
    copy_manifest(&origin, &mut peer, &digest);
    peer.record_peer(&digest, "peer-a".to_string());
    peer.record_peer(&digest, "peer-b".to_string());
    peer.start_download(&digest, "/tmp/one-copy.bin".to_string()).expect("start failed");

    let first_source = peer.next_source(&digest, 0).expect("no source");
    assert_eq!(first_source, "peer-a");

    let (_, good) = origin.handle_chunk_request(&chunks[0], &"peer".to_string()).unwrap();
    let mut corrupt = good.clone();
    corrupt[0] ^= 0x01;

    let outcome = peer.on_chunk_received(&digest, 0, corrupt);
    assert_eq!(outcome, ChunkOutcome::Rejected);

    // Exactly one retry, against the other candidate.
    let retry_source = peer.next_source(&digest, 0).expect("no source");
    assert_eq!(retry_source, "peer-b");
    assert_ne!(first_source, retry_source);

    let outcome = peer.on_chunk_received(&digest, 0, good);
    assert_eq!(outcome, ChunkOutcome::Completed);
    assert_eq!(peer.assembled_output(&digest).expect("no output"), data);
}

#[test]
fn test_corrupt_chunk_retry_budget_exhausted() {
    let mut origin = FileTransfer::with_chunk_size(64);
    let data = sample_data(40);
    let digest = share_on(&mut origin, "one.bin", &data);
    let chunks = chunk_digests_of(&origin, &digest);

    let mut peer = FileTransfer::with_chunk_size(64);
    copy_manifest(&origin, &mut peer, &digest);
    peer.start_download(&digest, "/tmp/one-copy.bin".to_string()).expect("start failed");

    let (_, good) = origin.handle_chunk_request(&chunks[0], &"peer".to_string()).unwrap();
    let mut corrupt = good.clone();
    corrupt[0] ^= 0x01;

    assert_eq!(peer.on_chunk_received(&digest, 0, corrupt.clone()), ChunkOutcome::Rejected);
    assert_eq!(peer.on_chunk_received(&digest, 0, corrupt.clone()), ChunkOutcome::Rejected);
    assert_eq!(peer.on_chunk_received(&digest, 0, corrupt), ChunkOutcome::Failed);
    assert_eq!(peer.transfer_status(&digest), Some(TransferStatus::Failed));

    // Past the terminal state even a good chunk changes nothing.
    assert_eq!(peer.on_chunk_received(&digest, 0, good), ChunkOutcome::Ignored);
}

#[test]
fn test_duplicate_delivery() {
    let mut origin = FileTransfer::with_chunk_size(8);
    let data = sample_data(20);
    let digest = share_on(&mut origin, "dup.bin", &data);
    let chunks = chunk_digests_of(&origin, &digest);
    assert_eq!(chunks.len(), 3);

    let mut peer = FileTransfer::with_chunk_size(8);
    copy_manifest(&origin, &mut peer, &digest);
    peer.start_download(&digest, "/tmp/dup-copy.bin".to_string()).expect("start failed");

    let (_, bytes0) = origin.handle_chunk_request(&chunks[0], &"p".to_string()).unwrap();
    assert_eq!(peer.on_chunk_received(&digest, 0, bytes0.clone()), ChunkOutcome::Accepted);
    let progress_once = peer.get_transfer_progress();
    let entry_once = progress_once.iter().find(|e| e.file_hash == hex::encode(&digest)).unwrap();
    let bytes_once = entry_once.bytes_transferred;

    assert_eq!(peer.on_chunk_received(&digest, 0, bytes0), ChunkOutcome::Ignored);
    let progress_twice = peer.get_transfer_progress();
    let entry_twice = progress_twice.iter().find(|e| e.file_hash == hex::encode(&digest)).unwrap();
    assert_eq!(entry_twice.bytes_transferred, bytes_once);
    assert!(entry_twice.percentage <= 100);
}

#[test]
fn test_cancellation() {
    let mut origin = FileTransfer::with_chunk_size(8);
    let data = sample_data(20);
    let digest = share_on(&mut origin, "cancel.bin", &data);
    let chunks = chunk_digests_of(&origin, &digest);

    let mut peer = FileTransfer::with_chunk_size(8);
    copy_manifest(&origin, &mut peer, &digest);
    peer.start_download(&digest, "/tmp/cancel-copy.bin".to_string()).expect("start failed");

    let (_, bytes0) = origin.handle_chunk_request(&chunks[0], &"p".to_string()).unwrap();
    assert_eq!(peer.on_chunk_received(&digest, 0, bytes0), ChunkOutcome::Accepted);

    assert_eq!(peer.cancel_download(&digest), Ok(()));
    assert_eq!(peer.transfer_status(&digest), Some(TransferStatus::Failed));

    // No further chunk arrival mutates the session.
    let (_, bytes1) = origin.handle_chunk_request(&chunks[1], &"p".to_string()).unwrap();
    assert_eq!(peer.on_chunk_received(&digest, 1, bytes1), ChunkOutcome::Ignored);
    assert_eq!(peer.transfer_status(&digest), Some(TransferStatus::Failed));

    // Cancelling a terminal session is an idempotent no-op.
    assert_eq!(peer.cancel_download(&digest), Ok(()));
}

#[test]
fn test_concrete_scenario() {
    // A 2.5 MB file with the default 1 MB chunk size: three chunks of
    // 1 MB, 1 MB and 0.5 MB.
    let total: usize = 2_621_440;
    let mut origin = FileTransfer::new();
    let data = sample_data(total);
    let digest = share_on(&mut origin, "big.bin", &data);
    let chunks = chunk_digests_of(&origin, &digest);
    assert_eq!(chunks.len(), 3);

    let mut peer = FileTransfer::new();
    copy_manifest(&origin, &mut peer, &digest);
    peer.start_download(&digest, "/tmp/big-copy.bin".to_string()).expect("start failed");

    let mut sizes = Vec::new();
    for index in 0..3usize {
        let (_, bytes) = origin.handle_chunk_request(&chunks[index], &"p".to_string()).unwrap();
        sizes.push(bytes.len());
        peer.on_chunk_received(&digest, index, bytes);
    }
    assert_eq!(sizes, vec![1_048_576, 1_048_576, 524_288]);

    assert_eq!(peer.transfer_status(&digest), Some(TransferStatus::Completed));
    let progress = peer.get_transfer_progress();
    let entry = progress.iter().find(|e| e.file_hash == hex::encode(&digest)).unwrap();
    assert_eq!(entry.bytes_transferred, 2_621_440);
    assert_eq!(entry.total_bytes, 2_621_440);
    assert_eq!(entry.percentage, 100);
    assert_eq!(entry.percentage as f64, 100.0);
    assert_eq!(peer.assembled_output(&digest).expect("no output"), data);
}

#[test]
fn test_deliver_chunk_record() {
    let mut origin = FileTransfer::with_chunk_size(16);
    let data = sample_data(16);
    let digest = share_on(&mut origin, "rec.bin", &data);
    let chunks = chunk_digests_of(&origin, &digest);

    let mut peer = FileTransfer::with_chunk_size(16);
    copy_manifest(&origin, &mut peer, &digest);
    peer.start_download(&digest, "/tmp/rec-copy.bin".to_string()).expect("start failed");

    let (chunk_hash, bytes) = origin.handle_chunk_request(&chunks[0], &"p".to_string()).unwrap();
    let record = FileChunk { chunk_hash, data: bytes, index: 0, file_hash: digest.clone() };
    assert_eq!(peer.deliver_chunk(record), ChunkOutcome::Completed);
    assert_eq!(peer.assembled_output(&digest).expect("no output"), data);
}

#[test]
fn test_manifest_not_found() {
    let mut ft = FileTransfer::new();
    let unknown = vec![0u8; 32];
    let r = ft.download_file(&unknown, "/tmp/nowhere".to_string());
    assert_eq!(r, Err(DeskShareError::ManifestNotFound));
}

#[test]
fn test_cancel_unknown_session() {
    let mut ft = FileTransfer::new();
    let unknown = vec![0u8; 32];
    assert_eq!(ft.cancel_download(&unknown), Err(DeskShareError::SessionNotFound));
}

#[test]
fn test_handle_chunk_request_unknown_chunk() {
    let mut ft = FileTransfer::with_chunk_size(64);
    let data = sample_data(100);
    let digest = share_on(&mut ft, "served.bin", &data);
    let chunks = chunk_digests_of(&ft, &digest);

    let (served_digest, served_bytes) =
        ft.handle_chunk_request(&chunks[0], &"asker".to_string()).expect("chunk missing");
    assert_eq!(served_digest, chunks[0]);
    assert_eq!(served_bytes, data[0..64].to_vec());

    let unknown = vec![1u8; 32];
    assert_eq!(
        ft.handle_chunk_request(&unknown, &"asker".to_string()),
        Err(DeskShareError::ChunkNotFound)
    );
}

#[test]
fn test_redownload_is_noop() {
    let mut ft = FileTransfer::with_chunk_size(128);
    let data = sample_data(500);
    let digest = share_on(&mut ft, "again.bin", &data);
    let first = ft.download_file(&digest, "/tmp/a".to_string()).unwrap();
    let second = ft.download_file(&digest, "/tmp/b".to_string()).unwrap();
    assert_eq!(first, second);
}

#[test]
fn test_upload_progress_entry() {
    let mut ft = FileTransfer::with_chunk_size(128);
    let data = sample_data(500);
    let digest = share_on(&mut ft, "up.bin", &data);

    let progress = ft.get_transfer_progress();
    let entry = progress.iter().find(|e| e.file_hash == hex::encode(&digest)).unwrap();
    assert_eq!(entry.status, TransferStatus::Completed);
    assert_eq!(entry.percentage, 100);
    assert_eq!(entry.total_bytes, 500);
    assert_eq!(entry.file_name, "up.bin");
}
