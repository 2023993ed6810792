use ordiknots::techniques::chained_op_return::decode::{
    decode_chunks, extract_chunk_from_tx, extract_op_return_data, has_continuation_output,
    last_scan_height, parse_chunk_payload, sort_chunks_by_index, spends_continuation,
    collect_chain, ChainDecodeError,
};
use ordiknots::techniques::chained_op_return::detect::detect;
use ordiknots::techniques::chained_op_return::encode::{
    chunk_data, chunk_scripts, plan_chain, ChainPlanError, Chunk, ChunkingError, CHUNK_TAG,
    FIRST_CHUNK_MAX_DATA, MAX_DATA_PER_CHUNK,
};
use ordiknots::utils::transaction::{spends_output, OutPointData, TxData};

#[test]
fn encode_test_chunk_encoding() {
    let chunk = Chunk {
        index: 0,
        total_chunks: 3,
        file_size: Some(200),
        data: vec![0xDE, 0xAD, 0xBE, 0xEF],
    };

    let encoded = chunk.encode();
    assert_eq!(&encoded[0..3], b"IMG");
    assert_eq!(encoded[3], 0);
    assert_eq!(encoded[4], 3);
    assert_eq!(u16::from_le_bytes([encoded[5], encoded[6]]), 200);
    assert_eq!(&encoded[7..], &[0xDE, 0xAD, 0xBE, 0xEF]);
}

#[test]
fn test_chunk_size_constants() {
    assert_eq!(MAX_DATA_PER_CHUNK, 35);
    assert_eq!(FIRST_CHUNK_MAX_DATA, 33);
}

#[test]
fn decode_test_extract_op_return_data() {
    let script_bytes = vec![0x6a, 0x04, 0xDE, 0xAD, 0xBE, 0xEF];
    let script = bitcoin::ScriptBuf::from_bytes(script_bytes);

    let data = extract_op_return_data(script.as_bytes()).unwrap();
    assert_eq!(data, vec![0xDE, 0xAD, 0xBE, 0xEF]);
}

#[test]
fn extract_op_return_data_push_variants() {
    // OP_PUSHDATA1
    assert_eq!(extract_op_return_data(&[0x6a, 0x4c, 0x02, 0x01, 0x02]), Some(vec![0x01, 0x02]));
    // OP_PUSHDATA2: two length bytes, then the data
    assert_eq!(extract_op_return_data(&[0x6a, 0x4d, 0x02, 0x00, 0x09, 0x08]), Some(vec![0x09, 0x08]));
    // OP_PUSHDATA4: four length bytes, then the data
    assert_eq!(
        extract_op_return_data(&[0x6a, 0x4e, 0x01, 0x00, 0x00, 0x00, 0x07]),
        Some(vec![0x07])
    );
    assert_eq!(extract_op_return_data(&[0x6a, 0x4d, 0x02, 0x00, 0x09]), None);
    // empty push
    assert_eq!(extract_op_return_data(&[0x6a, 0x00]), Some(vec![]));
    // failures
    assert_eq!(extract_op_return_data(&[]), None);
    assert_eq!(extract_op_return_data(&[0x6a]), None);
    assert_eq!(extract_op_return_data(&[0x51, 0x01, 0x00]), None);
    assert_eq!(extract_op_return_data(&[0x6a, 0x4c]), None);
    assert_eq!(extract_op_return_data(&[0x6a, 0x4d, 0x01]), None);
    assert_eq!(extract_op_return_data(&[0x6a, 0x4e, 0x01, 0x00, 0x00]), None);
    assert_eq!(extract_op_return_data(&[0x6a, 0x4f]), None);
    assert_eq!(extract_op_return_data(&[0x6a, 0x03, 0x01]), None);
}

#[test]
fn op_return_script_round_trip_through_bitcoin() {
    for len in [0usize, 1, 40, 75, 76, 255] {
        let data: Vec<u8> = (0..len).map(|i| i as u8).collect();
        let push = bitcoin::script::PushBytesBuf::try_from(data.clone()).unwrap();
        let script = bitcoin::ScriptBuf::new_op_return(push);
        assert_eq!(extract_op_return_data(script.as_bytes()), Some(data));
    }
}

#[test]
fn chunk_data_small_file() {
    let data = vec![7u8; 10];
    let chunks = chunk_data(&data).unwrap();
    assert_eq!(chunks.len(), 1);
    assert_eq!(chunks[0].index, 0);
    assert_eq!(chunks[0].total_chunks, 1);
    assert_eq!(chunks[0].file_size, Some(10));
    assert_eq!(chunks[0].data, data);
}

#[test]
fn chunk_data_empty_file() {
    let chunks = chunk_data(&[]).unwrap();
    assert_eq!(chunks.len(), 1);
    assert_eq!(chunks[0].file_size, Some(0));
    assert!(chunks[0].data.is_empty());
}

#[test]
fn chunk_data_pads_short_last_chunk() {
    // 33 + 35 + 5 bytes: three chunks, the last padded to 30 bytes
    let data: Vec<u8> = (0..73u32).map(|i| (i + 1) as u8).collect();
    let chunks = chunk_data(&data).unwrap();
    assert_eq!(chunks.len(), 3);
    assert_eq!(chunks[0].data.len(), 33);
    assert_eq!(chunks[1].data.len(), 35);
    assert_eq!(chunks[2].data.len(), 30);
    assert_eq!(&chunks[2].data[..5], &data[68..]);
    assert!(chunks[2].data[5..].iter().all(|b| *b == 0));
    assert_eq!(chunks[1].index, 1);
    assert_eq!(chunks[2].index, 2);
    assert!(chunks.iter().all(|c| c.total_chunks == 3));
    assert_eq!(chunks[1].file_size, None);
}

#[test]
fn chunk_data_errors() {
    assert_eq!(chunk_data(&vec![0u8; 65536]).unwrap_err(), ChunkingError::FileTooLarge);
    // 33 + 254 * 35 bytes fit in 255 chunks; one more byte needs 256
    let max = 33 + 254 * 35;
    assert_eq!(chunk_data(&vec![1u8; max]).unwrap().len(), 255);
    assert_eq!(chunk_data(&vec![1u8; max + 1]).unwrap_err(), ChunkingError::TooManyChunks(256));
}

#[test]
fn chunks_decode_back_to_file() {
    for len in [0usize, 1, 33, 34, 68, 69, 100, 500] {
        let data: Vec<u8> = (0..len).map(|i| (i % 251) as u8).collect();
        let chunks = chunk_data(&data).unwrap();
        assert_eq!(decode_chunks(chunks).unwrap(), data);
    }
}

#[test]
fn scripts_read_back_with_encoder_tag() {
    let data: Vec<u8> = (0..100u32).map(|i| (i * 3) as u8).collect();
    let scripts = chunk_scripts(&data).unwrap();
    let chunks = chunk_data(&data).unwrap();
    assert_eq!(scripts.len(), chunks.len());
    let mut decoded = Vec::new();
    for (script, chunk) in scripts.iter().zip(chunks.iter()) {
        assert_eq!(script[0], 0x6a);
        let payload = extract_op_return_data(script).unwrap();
        assert_eq!(payload, chunk.encode());
        decoded.push(parse_chunk_payload(&payload, &CHUNK_TAG).unwrap());
    }
    assert_eq!(decode_chunks(decoded).unwrap(), data);
}

#[test]
fn encoded_chunks_are_extracted_and_detected() {
    let data: Vec<u8> = (0..100u8).collect();
    let scripts = chunk_scripts(&data).unwrap();
    let mut chunks = Vec::new();
    for script in &scripts {
        let tx = TxData { output_scripts: vec![script.clone(), vec![0x00, 0x14]], input_witnesses: vec![] };
        assert!(detect(&tx));
        chunks.push(extract_chunk_from_tx(&tx).unwrap());
    }
    assert_eq!(decode_chunks(chunks).unwrap(), data);
    let marker = TxData {
        output_scripts: vec![vec![0x6a, 0x06, 0x34, 0x34, 0x34, 0x01, 0x02, 0xAA]],
        input_witnesses: vec![],
    };
    assert_eq!(extract_chunk_from_tx(&marker).unwrap_err(), ChainDecodeError::InvalidPrefix);
}

#[test]
fn long_push_round_trip_through_bitcoin() {
    for len in [255usize, 256, 300, 70_000] {
        let data: Vec<u8> = (0..len).map(|i| (i % 251) as u8).collect();
        let push = bitcoin::script::PushBytesBuf::try_from(data.clone()).unwrap();
        let script = bitcoin::ScriptBuf::new_op_return(push);
        assert_eq!(extract_op_return_data(script.as_bytes()), Some(data));
    }
}

#[test]
fn parse_chunk_payload_errors() {
    let prefix = [0x34u8, 0x34, 0x34];
    assert_eq!(parse_chunk_payload(&[0x34, 0x34], &prefix).unwrap_err(), ChainDecodeError::DataTooSmall(2));
    assert_eq!(
        parse_chunk_payload(&[0x34, 0x35, 0x34, 1, 2], &prefix).unwrap_err(),
        ChainDecodeError::InvalidPrefix
    );
    assert_eq!(
        parse_chunk_payload(&[0x34, 0x34, 0x34, 0, 2, 9], &prefix).unwrap_err(),
        ChainDecodeError::FirstChunkTooSmall(6)
    );
    let first = parse_chunk_payload(&[0x34, 0x34, 0x34, 0, 2, 0x2c, 0x01, 9, 8], &prefix).unwrap();
    assert_eq!(first.index, 0);
    assert_eq!(first.total_chunks, 2);
    assert_eq!(first.file_size, Some(300));
    assert_eq!(first.data, vec![9, 8]);
    let later = parse_chunk_payload(&[0x34, 0x34, 0x34, 1, 2, 7], &prefix).unwrap();
    assert_eq!(later.file_size, None);
    assert_eq!(later.data, vec![7]);
}

fn chunk(index: u8, total: u8, size: Option<u16>, data: &[u8]) -> Chunk {
    Chunk { index, total_chunks: total, file_size: size, data: data.to_vec() }
}

#[test]
fn decode_chunks_sorts_by_index() {
    let chunks = vec![chunk(0, 3, Some(5), &[1, 2]), chunk(2, 3, None, &[5, 0]), chunk(1, 3, None, &[3, 4])];
    assert_eq!(decode_chunks(chunks).unwrap(), vec![1, 2, 3, 4, 5]);
}

#[test]
fn sort_keeps_order_of_equal_indices() {
    let chunks = vec![chunk(1, 9, None, &[1]), chunk(0, 9, None, &[2]), chunk(1, 8, None, &[3])];
    let sorted = sort_chunks_by_index(chunks);
    assert_eq!(sorted.iter().map(|c| c.data[0]).collect::<Vec<_>>(), vec![2, 1, 3]);
}

#[test]
fn decode_chunks_errors() {
    assert_eq!(decode_chunks(vec![]).unwrap_err(), ChainDecodeError::NoChunks);
    assert_eq!(
        decode_chunks(vec![chunk(0, 2, Some(1), &[1])]).unwrap_err(),
        ChainDecodeError::MissingChunks { announced: 2, found: 1 }
    );
    assert_eq!(
        decode_chunks(vec![chunk(1, 1, None, &[1])]).unwrap_err(),
        ChainDecodeError::MissingFileSize
    );
    assert_eq!(
        decode_chunks(vec![chunk(0, 2, Some(2), &[1]), chunk(0, 2, None, &[1])]).unwrap_err(),
        ChainDecodeError::MissingChunkIndex(1)
    );
    assert_eq!(
        decode_chunks(vec![chunk(0, 2, Some(2), &[1]), chunk(1, 3, None, &[1])]).unwrap_err(),
        ChainDecodeError::InconsistentTotal(1)
    );
    assert_eq!(
        decode_chunks(vec![chunk(0, 1, Some(9), &[1, 2])]).unwrap_err(),
        ChainDecodeError::IncompleteData { file_size: 9, got: 2 }
    );
}

#[test]
fn extract_chunk_from_tx_cases() {
    let no_op_return = TxData { output_scripts: vec![vec![0x51]], input_witnesses: vec![] };
    assert_eq!(extract_chunk_from_tx(&no_op_return).unwrap_err(), ChainDecodeError::NoOpReturnOutput);
    let bad_push = TxData { output_scripts: vec![vec![0x00], vec![0x6a, 0x50]], input_witnesses: vec![] };
    assert_eq!(extract_chunk_from_tx(&bad_push).unwrap_err(), ChainDecodeError::ExtractFailed);
    let good = TxData {
        output_scripts: vec![vec![0x51], vec![0x6a, 0x06, 0x49, 0x4d, 0x47, 0x01, 0x02, 0xAA]],
        input_witnesses: vec![],
    };
    let c = extract_chunk_from_tx(&good).unwrap();
    assert_eq!((c.index, c.total_chunks, c.file_size, c.data), (1, 2, None, vec![0xAA]));
}

#[test]
fn continuation_output_detection() {
    let one = TxData { output_scripts: vec![vec![0x6a, 0x00]], input_witnesses: vec![] };
    assert!(!has_continuation_output(&one));
    let two = TxData { output_scripts: vec![vec![0x6a, 0x00], vec![0x00, 0x14]], input_witnesses: vec![] };
    assert!(has_continuation_output(&two));
    let op_return_second = TxData { output_scripts: vec![vec![0x00], vec![0x6a]], input_witnesses: vec![] };
    assert!(!has_continuation_output(&op_return_second));
}

#[test]
fn detect_marked_op_return() {
    let marked = TxData { output_scripts: vec![vec![0x00], vec![0x6a, 0x04, 0x34, 0x34, 0x34, 0x00]], input_witnesses: vec![] };
    assert!(detect(&marked));
    let image = TxData { output_scripts: vec![vec![0x6a, 0x03, 0x49, 0x4d, 0x47]], input_witnesses: vec![] };
    assert!(detect(&image));
    let other = TxData { output_scripts: vec![vec![0x6a, 0x03, 0x49, 0x4d, 0x48]], input_witnesses: vec![] };
    assert!(!detect(&other));
    let short = TxData { output_scripts: vec![vec![0x6a, 0x02, 0x34, 0x34]], input_witnesses: vec![] };
    assert!(!detect(&short));
}

#[test]
fn plan_chain_amounts() {
    let single = plan_chain(1, 5000).unwrap();
    assert_eq!(single.first_continuation, None);
    assert_eq!(single.first_change, 4000);
    assert!(single.next_amounts.is_empty());

    let three = plan_chain(3, 20_000).unwrap();
    assert_eq!(three.first_continuation, Some(10_000));
    assert_eq!(three.first_change, 9_000);
    assert_eq!(three.next_amounts, vec![9_000, 8_000]);

    assert_eq!(plan_chain(10, 11_000).unwrap().next_amounts.last(), Some(&1_000));
    assert_eq!(plan_chain(11, 11_999).unwrap_err(), ChainPlanError::InsufficientFunds);
    let eleven = plan_chain(11, 12_000).unwrap();
    assert_eq!(eleven.first_continuation, Some(11_000));
    assert_eq!(eleven.next_amounts.last(), Some(&1_000));
    assert_eq!(plan_chain(2, 10_999).unwrap_err(), ChainPlanError::InsufficientFunds);
    let long = plan_chain(25, 30_000).unwrap();
    assert_eq!(long.first_continuation, Some(25_000));
    assert_eq!(long.first_change, 4_000);
    assert_eq!(long.next_amounts.len(), 24);
    assert_eq!(long.next_amounts[0], 24_000);
    assert_eq!(long.next_amounts[23], 1_000);
    assert_eq!(plan_chain(25, 25_999).unwrap_err(), ChainPlanError::InsufficientFunds);
}

#[test]
fn spender_is_found_by_its_continuation_input() {
    let txid = vec![7u8; 32];
    let other = vec![8u8; 32];
    let inputs = vec![
        OutPointData { txid: other.clone(), vout: 1 },
        OutPointData { txid: txid.clone(), vout: 1 },
    ];
    assert!(spends_continuation(&inputs, &txid));
    assert!(!spends_continuation(&inputs[..1], &txid));
    let change_only = vec![OutPointData { txid: txid.clone(), vout: 0 }];
    assert!(!spends_continuation(&change_only, &txid));
    assert!(spends_output(&change_only, &txid, 0));
    assert!(!spends_output(&change_only, &txid[..31], 0));
    assert!(!spends_continuation(&[], &txid));
}

#[test]
fn scan_window_is_capped_at_a_hundred_blocks() {
    assert_eq!(last_scan_height(10, 50), 50);
    assert_eq!(last_scan_height(10, 110), 110);
    assert_eq!(last_scan_height(10, 500), 110);
    assert_eq!(last_scan_height(10, 5), 5);
}

fn chain_txs(scripts: &[Vec<u8>], upto: usize) -> Vec<TxData> {
    // every transaction has a second output: a continuation, or change on the last
    scripts[..upto]
        .iter()
        .map(|s| TxData { output_scripts: vec![s.clone(), vec![0x00, 0x14, 0x01]], input_witnesses: vec![] })
        .collect()
}

#[test]
fn walking_a_chain_collects_its_chunks() {
    let data: Vec<u8> = (0..200u8).collect();
    let scripts = chunk_scripts(&data).unwrap();
    let n = scripts.len();
    let chunks = collect_chain(&chain_txs(&scripts, n)).unwrap();
    assert_eq!(chunks.len(), n);
    assert_eq!(decode_chunks(chunks).unwrap(), data);
    // a walk whose spender is not found stops with the chunks so far
    let partial = collect_chain(&chain_txs(&scripts, 2)).unwrap();
    assert_eq!(partial.len(), 2);
    assert_eq!(decode_chunks(partial).unwrap_err(), ChainDecodeError::MissingChunks { announced: n as u8, found: 2 });
}
