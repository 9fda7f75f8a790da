use erasure_coding::{branches, branch_hash, obtain_chunks, BlockData, Error, Extrinsic};

fn keccak(data: &[u8]) -> Vec<u8> {
    <keccak_hasher::KeccakHasher as hash_db::Hasher>::hash(data).to_vec()
}

fn ten_chunks() -> Vec<Vec<u8>> {
    let block_data = BlockData(vec![2; 256]);
    obtain_chunks(10, &block_data, &Extrinsic { outgoing_messages: Vec::new() }).unwrap()
}

fn collect_proofs(chunks: Vec<Vec<u8>>) -> (Vec<u8>, Vec<Vec<Vec<u8>>>) {
    let mut b = branches(chunks);
    let root = b.root();
    let mut proofs = Vec::new();
    while let Some((proof, _chunk)) = b.next() {
        proofs.push(proof);
    }
    (root, proofs)
}

#[test]
fn construct_valid_branches() {
    let chunks = ten_chunks();

    assert_eq!(chunks.len(), 10);

    let (root, proofs) = collect_proofs(chunks.clone());

    assert_eq!(proofs.len(), 10);

    for (i, proof) in proofs.into_iter().enumerate() {
        assert_eq!(branch_hash(&root, &proof, i).unwrap(), keccak(&chunks[i]));
    }
}

#[test]
fn branches_hand_chunks_back_in_order() {
    let chunks = ten_chunks();
    let mut b = branches(chunks.clone());
    let mut seen = Vec::new();
    while let Some((_proof, chunk)) = b.next() {
        seen.push(chunk);
    }
    assert_eq!(seen, chunks);
}

#[test]
fn branch_out_of_bounds_index_is_rejected() {
    let chunks = ten_chunks();
    let (root, proofs) = collect_proofs(chunks);
    assert!(matches!(
        branch_hash(&root, &proofs[0], 10),
        Err(Error::BranchOutOfBounds)
    ));
}

#[test]
fn tampered_proof_never_verifies_a_forged_chunk() {
    let chunks = ten_chunks();
    let (root, proofs) = collect_proofs(chunks.clone());

    // flip one byte in each node of one proof in turn
    for node_idx in 0..proofs[3].len() {
        let mut tampered = proofs[3].clone();
        tampered[node_idx][0] ^= 0x01;
        match branch_hash(&root, &tampered, 3) {
            Ok(h) => assert_eq!(h, keccak(&chunks[3])),
            Err(_) => {},
        }
    }
}

#[test]
fn tampered_root_is_rejected() {
    let chunks = ten_chunks();
    let (root, proofs) = collect_proofs(chunks);
    let mut wrong_root = root.clone();
    wrong_root[0] ^= 0x01;
    assert!(matches!(
        branch_hash(&wrong_root, &proofs[0], 0),
        Err(Error::InvalidBranchProof)
    ));
    assert!(matches!(
        branch_hash(&vec![0u8; 16], &proofs[0], 0),
        Err(Error::InvalidBranchProof)
    ));
}

#[test]
fn swapped_proofs_never_verify_a_forged_chunk() {
    let chunks = ten_chunks();
    let (root, proofs) = collect_proofs(chunks.clone());
    for i in 0..10usize {
        let other = (i + 1) % 10;
        match branch_hash(&root, &proofs[other], i) {
            Ok(h) => assert_eq!(h, keccak(&chunks[i])),
            Err(_) => {},
        }
    }
}

#[test]
fn empty_proof_is_rejected() {
    let chunks = ten_chunks();
    let (root, _proofs) = collect_proofs(chunks);
    assert!(matches!(
        branch_hash(&root, &Vec::new(), 0),
        Err(Error::InvalidBranchProof)
    ));
}

#[test]
fn equal_chunk_lists_give_equal_roots() {
    let chunks = ten_chunks();
    let (root_a, _) = collect_proofs(chunks.clone());
    let (root_b, _) = collect_proofs(chunks.clone());
    assert_eq!(root_a, root_b);

    let mut other = chunks.clone();
    other[0][4] ^= 0x01;
    let (root_c, _) = collect_proofs(other);
    assert_ne!(root_a, root_c);
}
