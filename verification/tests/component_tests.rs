use meshshare::digest::{bytes_to_hex, chunk_digest, compute_digest, u64_to_le_bytes};
use meshshare::error::DeskShareError;
use meshshare::peers::select_source;
use meshshare::session::compute_percentage;
use meshshare::store::ChunkStore;

#[test]
fn test_compute_digest_matches_blake3() {
    let data = b"hello mesh".to_vec();
    let ours = compute_digest(&data);
    let theirs = blake3::hash(&data);
    assert_eq!(ours.as_slice(), theirs.as_bytes());
    assert_eq!(ours.len(), 32);
}

#[test]
fn test_chunk_digest_formula() {
    // The chunk digest hashes the index in little-endian before the
    // payload.
    let payload = b"chunk payload".to_vec();
    let index: u64 = 7;
    let ours = chunk_digest(index, &payload);

    let mut hasher = blake3::Hasher::new();
    hasher.update(&index.to_le_bytes());
    hasher.update(&payload);
    let theirs = hasher.finalize();
    assert_eq!(ours.as_slice(), theirs.as_bytes());
}

#[test]
fn test_chunk_digest_differs_by_index() {
    let payload = vec![0x5au8; 100];
    assert_ne!(chunk_digest(0, &payload), chunk_digest(1, &payload));
}

#[test]
fn test_u64_le_bytes_exact() {
    let bytes = u64_to_le_bytes(0x0102030405060708);
    assert_eq!(bytes, vec![0x08, 0x07, 0x06, 0x05, 0x04, 0x03, 0x02, 0x01]);
    assert_eq!(u64_to_le_bytes(0), vec![0u8; 8]);
}

#[test]
fn test_bytes_to_hex_matches_hex_crate() {
    let data = vec![0xbe, 0xef, 0x00, 0x0f, 0x10];
    assert_eq!(bytes_to_hex(&data), hex::encode(&data));
    assert_eq!(bytes_to_hex(&[0xbe, 0xef]), "beef");
    assert_eq!(bytes_to_hex(&[]), "");
}

#[test]
fn test_percentage_values() {
    assert_eq!(compute_percentage(50, 200), 25);
    assert_eq!(compute_percentage(0, 200), 0);
    assert_eq!(compute_percentage(200, 200), 100);
    assert_eq!(compute_percentage(0, 0), 100);
    assert_eq!(compute_percentage(1, 3), 33);
}

#[test]
fn test_chunk_store_put_get() {
    let mut store = ChunkStore::new();
    let digest = chunk_digest(0, &b"abc".to_vec());
    assert!(!store.contains(&digest));
    assert_eq!(store.get(&digest), None);

    assert_eq!(store.put(digest.clone(), b"abc".to_vec()), Ok(true));
    assert!(store.contains(&digest));
    assert_eq!(store.get(&digest), Some(b"abc".to_vec()));

    // Identical re-insertion is a no-op.
    assert_eq!(store.put(digest.clone(), b"abc".to_vec()), Ok(false));
    assert_eq!(store.get(&digest), Some(b"abc".to_vec()));

    // A different payload under the same digest is an integrity fault and
    // leaves the store unchanged.
    assert_eq!(
        store.put(digest.clone(), b"xyz".to_vec()),
        Err(DeskShareError::IntegrityCheckFailed)
    );
    assert_eq!(store.get(&digest), Some(b"abc".to_vec()));
}

#[test]
fn test_select_source_round_robin() {
    let peers: Vec<String> =
        vec!["alpha".to_string(), "beta".to_string(), "gamma".to_string()];
    assert_eq!(select_source(&peers, 0), Some("alpha".to_string()));
    assert_eq!(select_source(&peers, 1), Some("beta".to_string()));
    assert_eq!(select_source(&peers, 2), Some("gamma".to_string()));
    assert_eq!(select_source(&peers, 3), Some("alpha".to_string()));
    let none: Vec<String> = Vec::new();
    assert_eq!(select_source(&none, 0), None);
}

#[test]
fn test_demote_moves_peer_to_back() {
    let mut ft = meshshare::engine::FileTransfer::with_chunk_size(64);
    let data = vec![9u8; 10];
    let digest = ft
        .share_file("d.bin".to_string(), data, "alpha".to_string(), 0)
        .expect("share failed");
    ft.record_peer(&digest, "beta".to_string());
    ft.record_peer(&digest, "gamma".to_string());
    assert_eq!(
        ft.candidates(&digest),
        vec!["alpha".to_string(), "beta".to_string(), "gamma".to_string()]
    );

    ft.demote_peer(&digest, &"alpha".to_string());
    assert_eq!(
        ft.candidates(&digest),
        vec!["beta".to_string(), "gamma".to_string(), "alpha".to_string()]
    );

    // Demoting an unknown peer changes nothing.
    ft.demote_peer(&digest, &"delta".to_string());
    assert_eq!(
        ft.candidates(&digest),
        vec!["beta".to_string(), "gamma".to_string(), "alpha".to_string()]
    );
}

#[test]
fn test_next_requests_round_robin_and_limit() {
    // Twenty 1-byte chunks, two peers: the batch is capped at the
    // candidate count and spreads indices across the peers.
    let mut origin = meshshare::engine::FileTransfer::with_chunk_size(1);
    let data: Vec<u8> = (0..20u8).collect();
    let digest = origin
        .share_file("many.bin".to_string(), data, "src".to_string(), 0)
        .expect("share failed");

    let mut peer = meshshare::engine::FileTransfer::with_chunk_size(1);
    for m in origin.get_shared_files() {
        if m.hash == digest {
            peer.publish_manifest(m).expect("publish failed");
        }
    }
    peer.record_peer(&digest, "p0".to_string());
    peer.record_peer(&digest, "p1".to_string());
    peer.start_download(&digest, "/tmp/many".to_string()).expect("start failed");

    let batch = peer.next_requests(&digest);
    assert_eq!(
        batch,
        vec![(0usize, "p0".to_string()), (1usize, "p1".to_string())]
    );

    // With many candidates known before the download starts, the batch is
    // capped at the concurrency limit.
    let mut crowd = meshshare::engine::FileTransfer::with_chunk_size(1);
    for m in origin.get_shared_files() {
        if m.hash == digest {
            crowd.publish_manifest(m).expect("publish failed");
        }
    }
    for t in 0..12u32 {
        crowd.record_peer(&digest, format!("p{}", t));
    }
    crowd.start_download(&digest, "/tmp/crowd".to_string()).expect("start failed");
    let batch = crowd.next_requests(&digest);
    assert_eq!(batch.len(), 8);
    for (slot, (index, source)) in batch.iter().enumerate() {
        assert_eq!(*index, slot);
        assert_eq!(*source, format!("p{}", slot % 12));
    }

    // No session, no requests.
    let unknown = vec![3u8; 32];
    assert!(peer.next_requests(&unknown).is_empty());
}

#[test]
fn test_availability_record_remove() {
    let mut ft = meshshare::engine::FileTransfer::with_chunk_size(64);
    let data = vec![1u8, 2, 3];
    let digest = ft
        .share_file("tiny.bin".to_string(), data, "self".to_string(), 0)
        .expect("share failed");

    // Sharing records the origin peer.
    assert_eq!(ft.candidates(&digest), vec!["self".to_string()]);

    ft.record_peer(&digest, "other".to_string());
    ft.record_peer(&digest, "other".to_string());
    assert_eq!(ft.candidates(&digest), vec!["self".to_string(), "other".to_string()]);

    ft.remove_peer(&digest, &"self".to_string());
    assert_eq!(ft.candidates(&digest), vec!["other".to_string()]);

    ft.remove_peer(&digest, &"missing".to_string());
    assert_eq!(ft.candidates(&digest), vec!["other".to_string()]);
}
