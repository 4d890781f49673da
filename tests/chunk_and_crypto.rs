use sls::chunk::{Chunk, Segment, SegmentBuilder};
use sls::config::Config;
use sls::crypto::{CryptoSession, EphemeralKeyPair};
use sls::multipath::PathManager;

#[test]
fn test_chunk_serialization() {
    let chunk = Chunk::new(1, 0, 10, 0, 10000, vec![1, 2, 3, 4, 5], 0, false, 0);

    let bytes = chunk.to_bytes();
    let restored = Chunk::from_bytes(&bytes).unwrap();

    assert_eq!(chunk.header.segment_id, restored.header.segment_id);
    assert_eq!(chunk.header.chunk_id, restored.header.chunk_id);
    assert_eq!(chunk.data, restored.data);
}

#[test]
fn test_segment_assembly() {
    let builder = SegmentBuilder::new(100);
    let data: Vec<u8> = (0..250).map(|i| i as u8).collect();
    let chunks = builder.split_into_chunks(1, &data, 0, 0);

    assert_eq!(chunks.len(), 3);

    let mut segment = Segment::new_for_receive(1, 250, 3, 0);

    for chunk in &chunks {
        segment.insert_chunk(chunk);
    }

    assert!(segment.is_complete());
    assert_eq!(segment.into_data().as_slice(), data.as_slice());
}

#[test]
fn test_key_exchange() {
    let alice = EphemeralKeyPair::generate();
    let bob = EphemeralKeyPair::generate();

    let alice_public = alice.public_key_bytes();
    let bob_public = bob.public_key_bytes();

    let alice_shared = alice.compute_shared_secret(&bob_public);
    let bob_shared = bob.compute_shared_secret(&alice_public);

    assert_eq!(alice_shared, bob_shared);
}

#[test]
fn test_encrypt_decrypt() {
    let alice_keypair = EphemeralKeyPair::generate();
    let bob_keypair = EphemeralKeyPair::generate();

    let alice_public = alice_keypair.public_key_bytes();
    let bob_public = bob_keypair.public_key_bytes();

    let mut alice_session = CryptoSession::establish(alice_keypair, bob_public);
    let bob_session = CryptoSession::establish(bob_keypair, alice_public);

    let plaintext = b"Hello, SLS Protocol! This is encrypted data.";
    let segment_id = 1u64;

    let encrypted = alice_session.encrypt(segment_id, plaintext).unwrap();
    let decrypted = bob_session.decrypt(&encrypted).unwrap();

    assert_eq!(plaintext.as_slice(), decrypted.as_slice());
}

#[test]
fn test_large_segment_encryption() {
    let alice_keypair = EphemeralKeyPair::generate();
    let bob_keypair = EphemeralKeyPair::generate();

    let alice_public = alice_keypair.public_key_bytes();
    let bob_public = bob_keypair.public_key_bytes();

    let mut alice_session = CryptoSession::establish(alice_keypair, bob_public);
    let bob_session = CryptoSession::establish(bob_keypair, alice_public);

    let plaintext: Vec<u8> = (0..65536).map(|i| (i % 256) as u8).collect();

    let encrypted = alice_session.encrypt(1, &plaintext).unwrap();
    let decrypted = bob_session.decrypt(&encrypted).unwrap();

    assert_eq!(plaintext, decrypted);
}

#[test]
fn test_path_manager_single_nic() {
    let config = Config::default();
    let manager = PathManager::new(config, 0);
    assert_eq!(manager.nic_count(), 0);
}

#[test]
fn test_nic_selection() {
    let config = Config::default();
    let mut manager = PathManager::new(config, 0);
    assert!(manager.select_nic_for_chunk().is_none());
}

#[test]
fn chunk_frame_layout_is_little_endian() {
    let chunk = Chunk::new(0x0102, 3, 4, 2400, 5000, vec![9, 8, 7], 1, true, 77);
    let bytes = chunk.to_bytes();
    assert_eq!(&bytes[0..2], &[40, 0]);
    assert_eq!(&bytes[2..10], &0x0102u64.to_le_bytes());
    assert_eq!(bytes[2 + 27], 1);
    assert_eq!(&bytes[42..], &[9, 8, 7]);
    assert_eq!(bytes.len(), 45);
    assert_eq!(chunk.header.crc32, crc32fast::hash(&[9, 8, 7]));
    assert_ne!(chunk.header.crc32, 0);
}

#[test]
fn chunk_decode_rejects_short_input() {
    assert!(Chunk::from_bytes(&[]).is_none());
    assert!(Chunk::from_bytes(&[40]).is_none());
    assert!(Chunk::from_bytes(&[40, 0, 1, 2]).is_none());
    let mut bad_flag = Chunk::new(1, 0, 1, 0, 1, vec![5], 0, false, 0).to_bytes();
    bad_flag[2 + 27] = 7;
    assert!(Chunk::from_bytes(&bad_flag).is_none());
}

#[test]
fn chunk_decode_tolerates_longer_header() {
    let chunk = Chunk::new(5, 1, 2, 1200, 1300, vec![1, 2, 3], 0, false, 0);
    let bytes = chunk.to_bytes();
    let mut longer = vec![44, 0];
    longer.extend_from_slice(&bytes[2..42]);
    longer.extend_from_slice(&[0, 0, 0, 0]);
    longer.extend_from_slice(&[1, 2, 3]);
    let back = Chunk::from_bytes(&longer).unwrap();
    assert_eq!(back.header, chunk.header);
    assert_eq!(back.data, vec![1, 2, 3]);
}

#[test]
fn corrupted_chunk_never_counts() {
    let builder = SegmentBuilder::new(100);
    let data: Vec<u8> = (0..250).map(|i| (i * 3) as u8).collect();
    let mut chunks = builder.split_into_chunks(1, &data, 0, 0);
    let mut segment = Segment::new_for_receive(1, 250, 3, 0);
    chunks[1].data[0] ^= 0xff;
    assert!(!chunks[1].verify_crc());
    assert!(!segment.insert_chunk(&chunks[1]));
    assert_eq!(segment.received_count, 0);
    assert_eq!(segment.missing_chunk_ids(), vec![0, 1, 2]);
}

#[test]
fn duplicate_chunk_is_idempotent() {
    let builder = SegmentBuilder::new(100);
    let data: Vec<u8> = (0..250).map(|i| (i * 7) as u8).collect();
    let chunks = builder.split_into_chunks(9, &data, 0, 0);
    let mut segment = Segment::new_for_receive(9, 250, 3, 0);
    assert!(segment.insert_chunk(&chunks[2]));
    let snapshot = segment.data.clone();
    assert!(!segment.insert_chunk(&chunks[2]));
    assert_eq!(segment.received_count, 1);
    assert_eq!(segment.data, snapshot);
    assert_eq!(segment.missing_chunk_ids(), vec![0, 1]);
    assert_eq!(segment.receive_ratio(), 333_333);
    let out_of_range = Chunk::new(9, 7, 3, 700, 250, vec![1], 0, false, 0);
    assert!(!segment.insert_chunk(&out_of_range));
}

#[test]
fn split_sizes_follow_ceiling_rule() {
    let builder = SegmentBuilder::new(1200);
    let data = vec![0xabu8; 65536];
    let chunks = builder.split_into_chunks(3, &data, 0, 0);
    assert_eq!(chunks.len(), 55);
    assert_eq!(chunks[54].header.offset, 54 * 1200);
    assert_eq!(chunks[54].header.data_len as u32, 65536 - 54 * 1200);
    assert!(chunks.iter().all(|c| c.header.total_chunks == 55 && c.header.segment_size == 65536));
    assert!(builder.split_into_chunks(3, &[], 0, 0).is_empty());
}

#[test]
fn redundant_copies_are_distinct_and_marked() {
    let builder = SegmentBuilder::new(1200);
    let data = vec![1u8; 65536];
    let chunks = builder.split_into_chunks(1, &data, 0, 0);
    let extra = builder.create_redundant_chunks(&chunks, 200_000);
    assert_eq!(extra.len(), 11);
    let mut ids: Vec<u32> = extra.iter().map(|c| c.header.chunk_id).collect();
    ids.sort();
    ids.dedup();
    assert_eq!(ids.len(), 11);
    assert!(extra.iter().all(|c| c.header.is_redundant && c.verify_crc()));
    assert_eq!(builder.create_redundant_chunks(&chunks, 5_000_000).len(), 55);
    assert_eq!(builder.create_redundant_chunks(&chunks, 0).len(), 0);
}

#[test]
fn nonces_differ_per_seal() {
    let a = EphemeralKeyPair::generate();
    let b = EphemeralKeyPair::generate();
    let bp = b.public_key_bytes();
    let mut s = CryptoSession::establish(a, bp);
    let x = s.encrypt(4, b"same").unwrap();
    let y = s.encrypt(4, b"same").unwrap();
    assert_eq!(&x[0..8], &4u64.to_le_bytes());
    assert_eq!(&x[8..12], &0u32.to_le_bytes());
    assert_eq!(&y[8..12], &1u32.to_le_bytes());
    assert_ne!(&x[0..12], &y[0..12]);
    assert_eq!(x.len(), 12 + 4 + 16);
}

#[test]
fn tampered_seal_is_rejected() {
    let a = EphemeralKeyPair::generate();
    let b = EphemeralKeyPair::generate();
    let (ap, bp) = (a.public_key_bytes(), b.public_key_bytes());
    let mut sa = CryptoSession::establish(a, bp);
    let sb = CryptoSession::establish(b, ap);
    let mut sealed = sa.encrypt(2, &[7u8; 100]).unwrap();
    assert_eq!(sb.decrypt_expecting(&sealed, 100).unwrap(), vec![7u8; 100]);
    assert!(sb.decrypt_expecting(&sealed, 99).is_err());
    sealed[40] ^= 1;
    assert!(sb.decrypt(&sealed).is_err());
    assert!(sb.decrypt(&[0u8; 27]).is_err());
}

#[test]
fn static_key_pairs_agree() {
    let a = sls::crypto::KeyPair::generate();
    let b = sls::crypto::KeyPair::generate();
    let ab = a.compute_shared_secret(&b.public_key_bytes());
    let ba = b.compute_shared_secret(a.public_key());
    assert_eq!(ab, ba);
    assert_eq!(ab, a.compute_shared_secret(&b.public_key_bytes()));
    assert_ne!(a.public_key_bytes(), b.public_key_bytes());
}

#[test]
fn default_session_opens_its_own_seals() {
    let mut s = CryptoSession::default();
    let sealed = s.encrypt(3, b"local").unwrap();
    assert_eq!(s.decrypt(&sealed).unwrap(), b"local".to_vec());
}

#[test]
fn any_delivery_order_reassembles() {
    let builder = SegmentBuilder::new(100);
    let data: Vec<u8> = (0..950).map(|i| (i * 13 % 251) as u8).collect();
    let chunks = builder.split_into_chunks(2, &data, 0, 0);
    let mut segment = Segment::new_for_receive(2, 950, chunks.len() as u32, 0);
    for k in [9usize, 3, 3, 0, 8, 9, 1, 2, 7, 4, 6, 5, 0] {
        segment.insert_chunk(&chunks[k]);
    }
    assert!(segment.is_complete());
    assert_eq!(segment.received_count, 10);
    assert_eq!(segment.into_data(), data);
}
