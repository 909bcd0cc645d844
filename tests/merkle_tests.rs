use bankai_client::assembly::{assemble_batch_inputs, commit_batch};
use bankai_client::error::Error;
use bankai_client::job::Job;
use bankai_client::status::{JobStatus, JobType};
use bankai_client::hex::hash_to_hex;
use bankai_client::merkle::batch_commitment;
use bankai_client::store::DatabaseManager;
use starknet_crypto::{poseidon_hash, Felt};

fn h(a: &[u8; 32], b: &[u8; 32]) -> [u8; 32] {
    poseidon_hash(Felt::from_bytes_be(a), Felt::from_bytes_be(b)).to_bytes_be()
}

fn leaf(n: u8) -> [u8; 32] {
    let mut r = [0u8; 32];
    r[31] = n;
    r[0] = 0x01;
    r
}

#[test]
fn three_leaves_are_padded_to_four() {
    let leaves = vec![leaf(1), leaf(2), leaf(3)];
    let c = batch_commitment(&leaves);
    let zero = [0u8; 32];
    let left = h(&leaf(1), &leaf(2));
    let right = h(&leaf(3), &zero);
    assert_eq!(c.root, h(&left, &right));
    assert_ne!(c.root, leaf(1));
    assert_eq!(c.paths.len(), 3);
    assert_eq!(c.paths[0], vec![leaf(2), right]);
    assert_eq!(c.paths[1], vec![leaf(1), right]);
    assert_eq!(c.paths[2], vec![zero, left]);
}

#[test]
fn single_leaf_has_one_sibling() {
    let c = batch_commitment(&vec![leaf(9)]);
    assert_eq!(c.root, h(&leaf(9), &[0u8; 32]));
    assert_eq!(c.paths, vec![vec![[0u8; 32]]]);
}

#[test]
fn every_path_folds_to_the_root() {
    let leaves: Vec<[u8; 32]> = (0..32u8).map(leaf).collect();
    let c = batch_commitment(&leaves);
    for (i, path) in c.paths.iter().enumerate() {
        assert_eq!(path.len(), 5);
        let mut acc = leaves[i];
        let mut idx = i;
        for sib in path {
            acc = if idx % 2 == 0 { h(&acc, sib) } else { h(sib, &acc) };
            idx /= 2;
        }
        assert_eq!(acc, c.root);
    }
    // re-running over the same roots gives the same commitment
    let again = batch_commitment(&leaves);
    assert_eq!(again.root, c.root);
    assert_eq!(again.paths, c.paths);
}

#[test]
fn hex_text_of_a_hash() {
    let mut v = [0u8; 32];
    v[0] = 0xab;
    v[31] = 0x0f;
    let text = hash_to_hex(&v);
    assert_eq!(text.len(), 66);
    assert_eq!(text, format!("0xab{}0f", "0".repeat(60)));
}

#[test]
fn batch_paths_are_stored_once_per_epoch() {
    let mut db = DatabaseManager::new();
    let leaves = vec![leaf(1), leaf(2), leaf(3)];
    let c = commit_batch(&mut db, 11, &leaves);
    for (i, path) in c.paths.iter().enumerate() {
        let stored = db.get_merkle_paths_for_epoch(11 + i as u64);
        let expected: Vec<String> = path.iter().map(hash_to_hex).collect();
        assert_eq!(stored, expected);
    }
    assert_eq!(db.merkle_paths.len(), 6);
    // assembling the same batch again keeps the rows as they are
    commit_batch(&mut db, 11, &leaves);
    assert_eq!(db.merkle_paths.len(), 6);
    assert!(db.get_merkle_paths_for_epoch(14).is_empty());
}

#[test]
fn batch_assembly_stores_paths_then_moves_on() {
    let mut db = DatabaseManager::new();
    db.create_job(Job {
        job_id: 1,
        job_type: JobType::EpochBatchUpdate,
        job_status: JobStatus::Created,
        slot: 13 * 32,
        batch_range_begin_epoch: Some(11),
        batch_range_end_epoch: Some(13),
    })
    .unwrap();
    // the roots must cover the range
    assert!(matches!(assemble_batch_inputs(&mut db, 1, &vec![leaf(1), leaf(2)]), Err(Error::DatabaseError(_))));
    assert!(db.merkle_paths.is_empty());
    assert!(assemble_batch_inputs(&mut db, 2, &vec![leaf(1)]).is_err());
    let leaves = vec![leaf(1), leaf(2), leaf(3)];
    let c = assemble_batch_inputs(&mut db, 1, &leaves).unwrap();
    assert_eq!(db.fetch_job_status(1), Some(JobStatus::FetchedProof));
    for epoch in 11..=13u64 {
        let rows = db.get_merkle_paths_for_epoch(epoch);
        assert_eq!(rows.len(), 2);
        let expected: Vec<String> = c.paths[(epoch - 11) as usize].iter().map(hash_to_hex).collect();
        assert_eq!(rows, expected);
    }
    // the step is done once
    assert!(assemble_batch_inputs(&mut db, 1, &leaves).is_err());
    assert_eq!(db.merkle_paths.len(), 6);
}
