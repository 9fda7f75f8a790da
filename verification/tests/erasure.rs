use erasure_coding::{
    obtain_chunks, reconstruct, code_params, BlockData, Error, Extrinsic, MAX_VALIDATORS,
};

fn empty_extrinsic() -> Extrinsic {
    Extrinsic { outgoing_messages: Vec::new() }
}

fn indexed(chunks: &[Vec<u8>], indices: &[usize]) -> Vec<(Vec<u8>, usize)> {
    indices.iter().map(|&i| (chunks[i].clone(), i)).collect()
}

#[test]
fn field_order_is_right_size() {
    assert_eq!(MAX_VALIDATORS, 65536);
    assert_eq!(
        <reed_solomon_erasure::galois_16::Field as reed_solomon_erasure::Field>::ORDER,
        65536
    );
}

#[test]
fn round_trip_block_data() {
    let block_data = BlockData((0..255).collect());
    let ex = empty_extrinsic();
    let chunks = obtain_chunks(10, &block_data, &ex).unwrap();

    assert_eq!(chunks.len(), 10);

    // any 4 chunks should work.
    let reconstructed = reconstruct(10, &indexed(&chunks, &[1, 4, 6, 9])).unwrap();

    assert_eq!(reconstructed, (block_data, ex));
}

#[test]
fn parameters_partition_the_validator_count() {
    for n in [1usize, 2, 3, 4, 7, 10, 100, 65536] {
        let p = code_params(n).unwrap();
        assert_eq!(p.data_shards + p.parity_shards, n);
        assert!(p.data_shards >= 1);
        assert!(p.data_shards <= (n + 2) / 3 + 1);
    }
    let p = code_params(10).unwrap();
    assert_eq!(p.data_shards, 4);
    assert_eq!(p.parity_shards, 6);
}

#[test]
fn chunks_have_uniform_even_length() {
    let block_data = BlockData((0..100).collect());
    for n in [1usize, 2, 4, 10, 33] {
        let chunks = obtain_chunks(n, &block_data, &empty_extrinsic()).unwrap();
        assert_eq!(chunks.len(), n);
        let len = chunks[0].len();
        assert_eq!(len % 2, 0);
        for c in &chunks {
            assert_eq!(c.len(), len);
        }
    }
}

#[test]
fn framing_and_encoding_are_bit_exact() {
    // SCALE: the encoding of (vec![2; 256], vec![]) opens with the
    // compact length 256, i.e. bytes 0x01 0x04, and the whole payload is
    // 259 bytes, so the single data shard starts with 259 little-endian.
    let block_data = BlockData(vec![2; 256]);
    let chunks = obtain_chunks(1, &block_data, &empty_extrinsic()).unwrap();
    assert_eq!(chunks.len(), 1);
    let c = &chunks[0];
    assert_eq!(&c[0..4], &[3, 1, 0, 0]);
    assert_eq!(c[4], 0x01);
    assert_eq!(c[5], 0x04);
    assert_eq!(c[6], 2);
    assert_eq!(c.len(), 264);
}

#[test]
fn parity_shards_are_not_left_blank() {
    let block_data = BlockData(vec![2; 256]);
    let chunks = obtain_chunks(10, &block_data, &empty_extrinsic()).unwrap();
    let zeroed = vec![0u8; chunks[5].len()];
    assert_ne!(chunks[5], zeroed);
}

#[test]
fn make_shards_for_frames_the_payload() {
    let p = code_params(10).unwrap();
    assert_eq!(p.shard_len(10), 3);
    let shards = p.make_shards_for(&vec![1, 2, 3, 4, 5]);
    assert_eq!(shards.len(), 10);
    assert_eq!(shards[0], vec![2, 0, 0, 0, 1, 2]);
    assert_eq!(shards[1], vec![2, 0, 0, 0, 3, 4]);
    assert_eq!(shards[2], vec![1, 0, 0, 0, 5, 0]);
    assert_eq!(shards[3], vec![0, 0, 0, 0, 0, 0]);
    for s in &shards[4..] {
        assert_eq!(*s, vec![0u8; 6]);
    }
}

#[test]
fn empty_validator_set_is_rejected() {
    let block_data = BlockData(vec![1, 2, 3]);
    assert!(matches!(
        obtain_chunks(0, &block_data, &empty_extrinsic()),
        Err(Error::EmptyValidators)
    ));
    assert!(matches!(reconstruct(0, &Vec::new()), Err(Error::EmptyValidators)));
}

#[test]
fn oversized_validator_set_is_rejected() {
    let block_data = BlockData(vec![1, 2, 3]);
    assert!(matches!(
        obtain_chunks(65537, &block_data, &empty_extrinsic()),
        Err(Error::TooManyValidators)
    ));
    assert!(matches!(reconstruct(65537, &Vec::new()), Err(Error::TooManyValidators)));
}

#[test]
fn single_validator_round_trips() {
    let block_data = BlockData((0..77).collect());
    let ex = empty_extrinsic();
    let chunks = obtain_chunks(1, &block_data, &ex).unwrap();
    assert_eq!(chunks.len(), 1);
    let reconstructed = reconstruct(1, &indexed(&chunks, &[0])).unwrap();
    assert_eq!(reconstructed, (block_data, ex));
}

#[test]
fn too_few_chunks_are_rejected() {
    // data_shards(4) == 2, so one chunk cannot suffice.
    let block_data = BlockData((0..40).collect());
    let chunks = obtain_chunks(4, &block_data, &empty_extrinsic()).unwrap();
    assert!(matches!(
        reconstruct(4, &indexed(&chunks, &[0])),
        Err(Error::NotEnoughChunks)
    ));
}

#[test]
fn truncated_chunk_is_rejected_as_non_uniform() {
    let block_data = BlockData((0..255).collect());
    let chunks = obtain_chunks(10, &block_data, &empty_extrinsic()).unwrap();
    let mut truncated = chunks[0].clone();
    truncated.pop();
    let input = vec![
        (chunks[1].clone(), 1),
        (chunks[4].clone(), 4),
        (chunks[6].clone(), 6),
        (truncated, 0),
    ];
    assert!(matches!(reconstruct(10, &input), Err(Error::NonUniformChunks)));
}

#[test]
fn odd_length_first_chunk_is_rejected_as_uneven() {
    let block_data = BlockData((0..255).collect());
    let chunks = obtain_chunks(10, &block_data, &empty_extrinsic()).unwrap();
    let mut truncated = chunks[0].clone();
    truncated.pop();
    let input = vec![
        (truncated, 0),
        (chunks[1].clone(), 1),
        (chunks[4].clone(), 4),
        (chunks[6].clone(), 6),
    ];
    assert!(matches!(reconstruct(10, &input), Err(Error::UnevenLength)));
}

#[test]
fn out_of_bounds_chunk_index_is_rejected() {
    let block_data = BlockData((0..255).collect());
    let chunks = obtain_chunks(10, &block_data, &empty_extrinsic()).unwrap();
    let input = vec![(chunks[0].clone(), 10)];
    assert!(matches!(
        reconstruct(10, &input),
        Err(Error::ChunkIndexOutOfBounds(10, 10))
    ));
}

#[test]
fn zero_length_chunks_are_rejected() {
    let input = vec![(Vec::new(), 0), (Vec::new(), 1)];
    assert!(matches!(reconstruct(2, &input), Err(Error::NonUniformChunks)));
}

#[test]
fn garbage_chunks_fail_with_bad_payload() {
    // a single data shard whose length prefix claims far more than the
    // shard holds
    let input = vec![(vec![0xff; 6], 0), (vec![0xff; 6], 1)];
    assert!(matches!(reconstruct(2, &input), Err(Error::BadPayload)));
}

#[test]
fn any_large_enough_chunk_subset_round_trips() {
    let block_data = BlockData((0..201).collect());
    let ex = empty_extrinsic();
    let chunks = obtain_chunks(7, &block_data, &ex).unwrap();
    // data_shards(7) == 3
    for subset in [
        vec![0usize, 1, 2],
        vec![4, 5, 6],
        vec![0, 3, 6],
        vec![2, 3, 4, 5],
        vec![0, 1, 2, 3, 4, 5, 6],
    ] {
        let reconstructed = reconstruct(7, &indexed(&chunks, &subset)).unwrap();
        assert_eq!(reconstructed.0, block_data);
        assert_eq!(reconstructed.1, ex);
    }
}
