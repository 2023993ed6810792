use ordiknots::techniques::chained_op_return::decode::{decode_chunks, extract_op_return_data, ChainDecodeError};
use ordiknots::tx_creator::image_decoder::{collect_image_chain, decode_image_chunks, extract_chunk_from_tx, walk_image_step};
use ordiknots::tx_creator::image_encoder::{
    chunk_image_data, image_chunk_scripts, ImageChunk, ImageChunkError, MAX_DATA_PER_CHUNK, METADATA_SIZE,
};
use ordiknots::tx_creator::p2wsh_decoder::{
    decode_fake_pubkeys, decode_p2wsh_witness, extract_fake_pubkeys_from_script, P2wshDecodeError,
};
use ordiknots::tx_creator::p2wsh_multisig::{funding_change, spend_output_amount, witness_script_for_data};
use ordiknots::tx_creator::tx_builder::{message_change, plan_image_chain, select_largest_utxo, ImageChainError};
use ordiknots::techniques::p2wsh_fake_multisig::encode::{spending_witness, P2wshEncodeError};
use ordiknots::utils::transaction::TxData;

#[test]
fn image_encoder_test_chunk_encoding() {
    let chunk = ImageChunk {
        index: 0,
        total_chunks: 3,
        data: vec![0xDE, 0xAD, 0xBE, 0xEF],
    };

    let encoded = chunk.encode();
    assert_eq!(&encoded[0..3], b"IMG");
    assert_eq!(encoded[3], 0);
    assert_eq!(encoded[4], 3);
    assert_eq!(&encoded[5..], &[0xDE, 0xAD, 0xBE, 0xEF]);
}

#[test]
fn test_chunk_size() {
    // Verify our constants are correct
    assert_eq!(MAX_DATA_PER_CHUNK, 75);
    assert_eq!(METADATA_SIZE + MAX_DATA_PER_CHUNK, 80);
}

#[test]
fn image_decoder_test_extract_op_return_data() {
    // Create a simple OP_RETURN script: OP_RETURN OP_PUSH4 0xDEADBEEF
    let script_bytes = vec![0x6a, 0x04, 0xDE, 0xAD, 0xBE, 0xEF];
    let script = bitcoin::ScriptBuf::from_bytes(script_bytes);

    let data = extract_op_return_data(script.as_bytes()).unwrap();
    assert_eq!(data, vec![0xDE, 0xAD, 0xBE, 0xEF]);
}

#[test]
fn test_parse_first_chunk() {
    // First chunk with file size: "IMG" + index(0) + total(3) + size(200) + data
    let mut data = vec![b'I', b'M', b'G', 0, 3];
    data.extend_from_slice(&200u16.to_le_bytes());
    data.extend_from_slice(&[0xDE, 0xAD]);

    let script = bitcoin::ScriptBuf::new_op_return(&bitcoin::script::PushBytesBuf::try_from(data).unwrap());
    let extracted = extract_op_return_data(script.as_bytes()).unwrap();

    assert_eq!(&extracted[0..3], b"IMG");
    assert_eq!(extracted[3], 0);
    assert_eq!(extracted[4], 3);
    assert_eq!(u16::from_le_bytes([extracted[5], extracted[6]]), 200);
    assert_eq!(&extracted[7..], &[0xDE, 0xAD]);
}

#[test]
fn test_decode_fake_pubkeys() {
    // Create some fake pubkeys with known data
    let fake_pubkeys = vec![
        vec![0x02, 0xDE, 0xAD, 0xBE, 0xEF, 0x00, 0x00, 0x00, 0x00, 0x00, 0x00, 0x00, 0x00,
             0x00, 0x00, 0x00, 0x00, 0x00, 0x00, 0x00, 0x00, 0x00, 0x00, 0x00, 0x00, 0x00,
             0x00, 0x00, 0x00, 0x00, 0x00, 0x00, 0x00],
        vec![0x03, 0xCA, 0xFE, 0xBA, 0xBE, 0x00, 0x00, 0x00, 0x00, 0x00, 0x00, 0x00, 0x00,
             0x00, 0x00, 0x00, 0x00, 0x00, 0x00, 0x00, 0x00, 0x00, 0x00, 0x00, 0x00, 0x00,
             0x00, 0x00, 0x00, 0x00, 0x00, 0x00, 0x00],
    ];

    let data = decode_fake_pubkeys(&fake_pubkeys).unwrap();

    // Should extract the data bytes (after trimming trailing nulls)
    assert_eq!(&data[0..4], &[0xDE, 0xAD, 0xBE, 0xEF]);
    assert_eq!(&data[32..36], &[0xCA, 0xFE, 0xBA, 0xBE]);
}

#[test]
fn decode_fake_pubkeys_errors_and_trimming() {
    assert_eq!(
        decode_fake_pubkeys(&[vec![0x02; 32]]).unwrap_err(),
        P2wshDecodeError::InvalidPubkeyLength { index: 0, len: 32 }
    );
    let mut bad_prefix = vec![0x04u8];
    bad_prefix.extend(vec![1u8; 32]);
    assert_eq!(
        decode_fake_pubkeys(&[vec![0x02; 33], bad_prefix]).unwrap_err(),
        P2wshDecodeError::InvalidPubkeyPrefix { index: 1, prefix: 0x04 }
    );
    let mut zeros = vec![0x02u8];
    zeros.extend(vec![0u8; 32]);
    assert_eq!(decode_fake_pubkeys(&[zeros]).unwrap(), vec![0]);
    assert_eq!(decode_fake_pubkeys(&[]).unwrap(), Vec::<u8>::new());
}

#[test]
fn extract_fake_pubkeys_errors() {
    assert_eq!(extract_fake_pubkeys_from_script(&[]).unwrap_err(), P2wshDecodeError::ScriptTooShort);
    assert_eq!(extract_fake_pubkeys_from_script(&[0x51, 0x52, 0xae]).unwrap_err(), P2wshDecodeError::NoPubkeys);
    assert_eq!(extract_fake_pubkeys_from_script(&[0x51, 0x05, 0x01]).unwrap_err(), P2wshDecodeError::PushBeyondScript);
    assert_eq!(
        extract_fake_pubkeys_from_script(&[0x51, 0x01, 0x07, 0x4c]).unwrap_err(),
        P2wshDecodeError::UnexpectedOpcode(0x4c)
    );
    assert_eq!(
        extract_fake_pubkeys_from_script(&[0x51, 0x01, 0x07, 0x02, 0x08, 0x09, 0x52, 0xae]).unwrap(),
        vec![vec![0x08, 0x09]]
    );
}

#[test]
fn p2wsh_witness_round_trip() {
    let real = vec![0x02u8; 33];
    let data: Vec<u8> = (1..=200u32).map(|i| i as u8).collect();
    let script = witness_script_for_data(&data, &real).unwrap();
    let tx = TxData { output_scripts: vec![], input_witnesses: vec![vec![vec![], vec![0x30], script]] };
    assert_eq!(decode_p2wsh_witness(&tx).unwrap(), data);
}

#[test]
fn p2wsh_witness_errors() {
    let none = TxData { output_scripts: vec![], input_witnesses: vec![] };
    assert_eq!(decode_p2wsh_witness(&none).unwrap_err(), P2wshDecodeError::NoInputs);
    let empty = TxData { output_scripts: vec![], input_witnesses: vec![vec![]] };
    assert_eq!(decode_p2wsh_witness(&empty).unwrap_err(), P2wshDecodeError::NoWitness);
    let short = TxData { output_scripts: vec![], input_witnesses: vec![vec![vec![], vec![]]] };
    assert_eq!(decode_p2wsh_witness(&short).unwrap_err(), P2wshDecodeError::WitnessTooShort(2));
    assert_eq!(
        witness_script_for_data(&vec![0u8; 609], &[0x02; 33]).unwrap_err(),
        P2wshEncodeError::DataTooLarge(609)
    );
}

#[test]
fn funding_change_amounts() {
    assert_eq!(funding_change(101_000), Ok(0));
    assert_eq!(funding_change(200_000), Ok(99_000));
    assert_eq!(
        funding_change(100_999),
        Err(P2wshEncodeError::InsufficientFunds { required: 101_000, available: 100_999 })
    );
}

#[test]
fn image_chunks_keep_count_to_one_byte() {
    let chunks = chunk_image_data(&vec![1u8; 151]).unwrap();
    assert_eq!(chunks.len(), 3);
    assert_eq!(chunks[2].data.len(), 1);
    assert!(chunks.iter().all(|c| c.total_chunks == 3));
    assert_eq!(chunk_image_data(&[]).unwrap_err(), ImageChunkError::FileEmpty);
    let full = chunk_image_data(&vec![0u8; 75 * 255]).unwrap();
    assert_eq!(full.len(), 255);
    assert_eq!(full[254].index, 254);
    assert_eq!(chunk_image_data(&vec![0u8; 75 * 256]).unwrap_err(), ImageChunkError::FileEmpty);
    let wrapped = chunk_image_data(&vec![0u8; 19_201]).unwrap();
    assert_eq!(wrapped.len(), 257);
    assert_eq!(wrapped[256].index, 0);
    assert_eq!(wrapped[0].total_chunks, 1);
}

#[test]
fn image_decoder_reads_image_tag() {
    let chunk = ImageChunk { index: 1, total_chunks: 2, data: vec![5, 6] };
    let payload = chunk.encode();
    let mut script = vec![0x6a, payload.len() as u8];
    script.extend(payload);
    let tx = TxData { output_scripts: vec![script], input_witnesses: vec![] };
    let c = extract_chunk_from_tx(&tx).unwrap();
    assert_eq!((c.index, c.total_chunks, c.data), (1, 2, vec![5, 6]));
    // a first image chunk carries no file size: all its bytes are data
    let first = ImageChunk { index: 0, total_chunks: 1, data: vec![1, 0, 9, 8] };
    let payload = first.encode();
    let mut script = vec![0x6a, payload.len() as u8];
    script.extend(payload);
    let tx = TxData { output_scripts: vec![script], input_witnesses: vec![] };
    let c = extract_chunk_from_tx(&tx).unwrap();
    assert_eq!(c.file_size, None);
    assert_eq!(decode_image_chunks(vec![c]).unwrap(), vec![1, 0, 9, 8]);
    let empty = TxData { output_scripts: vec![], input_witnesses: vec![] };
    assert_eq!(extract_chunk_from_tx(&empty).unwrap_err(), ChainDecodeError::NoOpReturnOutput);
}

#[test]
fn image_chain_plan() {
    let plan = plan_image_chain(4, 0, 50_000).unwrap();
    assert_eq!(plan.first_continuation, Some(10_000));
    assert_eq!(plan.first_change, 39_000);
    assert_eq!(plan.next_continuations, vec![Some(9_000), Some(8_000), None]);
    assert_eq!(plan_image_chain(1, 0, 1_000).unwrap().next_continuations, Vec::<Option<u64>>::new());
    assert_eq!(plan_image_chain(2, 0, 10_999).err(), Some(ImageChainError::InsufficientFunds));
    assert_eq!(plan_image_chain(3, 9_500, 20_499).err(), Some(ImageChainError::InsufficientFunds));
    assert_eq!(plan_image_chain(3, 9_500, 40_000).err(), Some(ImageChainError::InsufficientContinuation));
    let two = plan_image_chain(2, 9_500, 20_500).unwrap();
    assert_eq!(two.first_change, 0);
    assert_eq!(two.next_continuations, vec![None]);
    let twelve = plan_image_chain(12, 0, 20_000).unwrap();
    assert_eq!(twelve.next_continuations[9], Some(0));
    assert_eq!(twelve.next_continuations[10], None);
    assert_eq!(plan_image_chain(13, 0, 20_000).err(), Some(ImageChainError::InsufficientContinuation));
}

#[test]
fn largest_utxo_first_among_equals() {
    assert_eq!(select_largest_utxo(&[]), None);
    assert_eq!(select_largest_utxo(&[5, 9, 9, 1]), Some(1));
}

#[test]
fn spending_witness_reveals_the_data() {
    let data: Vec<u8> = (1..=100u8).collect();
    let mut key = vec![0x02];
    key.extend_from_slice(&[0x11; 32]);
    let script = witness_script_for_data(&data, &key).unwrap();
    let signature = vec![0x30, 0x44, 0x01];
    let witness = spending_witness(&signature, &script);
    assert_eq!(witness, vec![vec![], signature.clone(), script.clone()]);
    let tx = TxData { output_scripts: vec![], input_witnesses: vec![witness] };
    assert_eq!(decode_p2wsh_witness(&tx), Ok(data));
}

#[test]
fn message_change_pays_amount_and_fee() {
    assert_eq!(message_change(546, 10_000), Some(8_454));
    assert_eq!(message_change(0, 1_000), Some(0));
    assert_eq!(message_change(0, 999), None);
    assert_eq!(message_change(546, 1_545), None);
}

#[test]
fn image_chain_round_trip() {
    for len in [1usize, 75, 76, 1000] {
        let data: Vec<u8> = (0..len).map(|i| (i * 7 % 256) as u8).collect();
        let chunks = chunk_image_data(&data).unwrap();
        let mut read = Vec::new();
        for chunk in chunks.iter().rev() {
            let push = bitcoin::script::PushBytesBuf::try_from(chunk.encode()).unwrap();
            let script = bitcoin::ScriptBuf::new_op_return(push).into_bytes();
            let tx = TxData { output_scripts: vec![script], input_witnesses: vec![] };
            read.push(extract_chunk_from_tx(&tx).unwrap());
        }
        assert_eq!(decode_image_chunks(read).unwrap(), data);
    }
    assert_eq!(decode_image_chunks(vec![]).unwrap_err(), ChainDecodeError::NoChunks);
}

#[test]
fn p2wsh_witness_round_trip_with_nineteen_keys() {
    let real = vec![0x02u8; 33];
    let data: Vec<u8> = (0..608u32).map(|i| (i % 255 + 1) as u8).collect();
    let script = witness_script_for_data(&data, &real).unwrap();
    let n = script.len();
    assert_eq!(&script[n - 3..], &[0x01, 20, 0xae]);
    assert_eq!(extract_fake_pubkeys_from_script(&script).unwrap().len(), 19);
    let tx = TxData { output_scripts: vec![], input_witnesses: vec![vec![vec![], vec![0x30], script]] };
    assert_eq!(decode_p2wsh_witness(&tx).unwrap(), data);
}

#[test]
fn spend_output_pays_the_fee() {
    assert_eq!(spend_output_amount(100_000), Some(99_000));
    assert_eq!(spend_output_amount(1_000), Some(0));
    assert_eq!(spend_output_amount(999), None);
}

#[test]
fn image_walk_steps_until_the_last_chunk() {
    let data: Vec<u8> = (0..160u8).collect();
    let chunks = chunk_image_data(&data).unwrap();
    let mut collected = Vec::new();
    for (k, chunk) in chunks.iter().enumerate() {
        let push = bitcoin::script::PushBytesBuf::try_from(chunk.encode()).unwrap();
        let mut outputs = vec![bitcoin::ScriptBuf::new_op_return(push).into_bytes()];
        if k + 1 < chunks.len() {
            outputs.push(vec![0x00, 0x14]);
        }
        let tx = TxData { output_scripts: outputs, input_witnesses: vec![] };
        assert_eq!(walk_image_step(&mut collected, &tx), Ok(k + 1 < chunks.len()));
    }
    assert_eq!(decode_image_chunks(collected).unwrap(), data);
    let mut none = Vec::new();
    let bare = TxData { output_scripts: vec![vec![0x51]], input_witnesses: vec![] };
    assert_eq!(walk_image_step(&mut none, &bare), Err(ChainDecodeError::NoOpReturnOutput));
    assert!(none.is_empty());
}

#[test]
fn image_chain_scripts_walk_back_to_the_file() {
    let data: Vec<u8> = (0..400u32).map(|i| (i % 256) as u8).collect();
    let scripts = image_chunk_scripts(&data).unwrap();
    let chunks = chunk_image_data(&data).unwrap();
    assert_eq!(scripts.len(), chunks.len());
    for (script, chunk) in scripts.iter().zip(chunks.iter()) {
        let push = bitcoin::script::PushBytesBuf::try_from(chunk.encode()).unwrap();
        assert_eq!(script, &bitcoin::ScriptBuf::new_op_return(push).into_bytes());
    }
    // every transaction keeps a continuation output, as the planned chain does
    let txs: Vec<TxData> = scripts
        .iter()
        .map(|s| TxData { output_scripts: vec![s.clone(), vec![0x00, 0x14]], input_witnesses: vec![] })
        .collect();
    let collected = collect_image_chain(&txs).unwrap();
    assert_eq!(decode_image_chunks(collected).unwrap(), data);
    assert_eq!(image_chunk_scripts(&[]).unwrap_err(), ImageChunkError::FileEmpty);
}
