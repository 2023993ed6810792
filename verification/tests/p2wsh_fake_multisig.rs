use ordiknots::techniques::p2wsh_fake_multisig::detect::detect;
use ordiknots::techniques::p2wsh_fake_multisig::encode::{
    build_multisig_witnessscript, build_witness_scripts, calculate_inputs_needed,
    encode_data_as_fake_pubkeys, funding_target, plan_funding, spending_change,
    spending_vouts, spending_witness, split_data_for_inputs, validate_transaction_weight, P2wshEncodeError,
    MAX_DATA_CAPACITY,
};
use ordiknots::techniques::p2wsh_fake_multisig::decode::decode_witnesses;
use ordiknots::techniques::ORDIKNOT_PREFIX;
use ordiknots::tx_creator::p2wsh_decoder::{extract_fake_pubkeys_from_script, P2wshDecodeError};
use ordiknots::utils::transaction::{calculate_fee_from_weight, TxData};

#[test]
fn test_calculate_inputs_needed() {
    // Empty data
    assert_eq!(calculate_inputs_needed(0), 1);

    // Small data (fits in one input with prefix)
    assert_eq!(calculate_inputs_needed(100), 1);
    assert_eq!(calculate_inputs_needed(605), 1);

    // Just over one input
    assert_eq!(calculate_inputs_needed(606), 2);

    // Multiple inputs
    assert_eq!(calculate_inputs_needed(605 + 608), 2);
    assert_eq!(calculate_inputs_needed(605 + 609), 3);

    // Large data
    assert_eq!(calculate_inputs_needed(2000), 4);
}

#[test]
fn test_split_data_for_inputs_single_chunk() {
    let data = vec![0xAB; 100];
    let chunks = split_data_for_inputs(&data);

    assert_eq!(chunks.len(), 1);
    assert_eq!(chunks[0].len(), 100 + ORDIKNOT_PREFIX.len());
    assert_eq!(&chunks[0][..ORDIKNOT_PREFIX.len()], &ORDIKNOT_PREFIX[..]);
    assert_eq!(&chunks[0][ORDIKNOT_PREFIX.len()..], &data[..]);
}

#[test]
fn test_split_data_for_inputs_multiple_chunks() {
    // 1500 bytes should split into 3 chunks
    let data = vec![0xAB; 1500];
    let chunks = split_data_for_inputs(&data);

    assert_eq!(chunks.len(), 3);

    // First chunk: prefix + 605 bytes
    assert_eq!(chunks[0].len(), 605 + ORDIKNOT_PREFIX.len());
    assert_eq!(&chunks[0][..ORDIKNOT_PREFIX.len()], &ORDIKNOT_PREFIX[..]);

    // Second chunk: 608 bytes (no prefix)
    assert_eq!(chunks[1].len(), 608);

    // Third chunk: remaining bytes
    assert_eq!(chunks[2].len(), 1500 - 605 - 608);

    // Verify data integrity (excluding prefix)
    let mut reconstructed = Vec::new();
    reconstructed.extend_from_slice(&chunks[0][ORDIKNOT_PREFIX.len()..]);
    reconstructed.extend_from_slice(&chunks[1]);
    reconstructed.extend_from_slice(&chunks[2]);

    assert_eq!(reconstructed, data);
}

#[test]
fn test_split_data_at_boundary() {
    // Exactly 605 bytes should be a single chunk
    let data = vec![0xCD; 605];
    let chunks = split_data_for_inputs(&data);

    assert_eq!(chunks.len(), 1);
    assert_eq!(chunks[0].len(), 605 + ORDIKNOT_PREFIX.len());

    // 606 bytes should split into 2 chunks
    let data = vec![0xCD; 606];
    let chunks = split_data_for_inputs(&data);

    assert_eq!(chunks.len(), 2);
    assert_eq!(chunks[0].len(), 605 + ORDIKNOT_PREFIX.len());
    assert_eq!(chunks[1].len(), 1);
}

#[test]
fn split_count_matches_inputs_needed() {
    for len in [0usize, 1, 605, 606, 1213, 1214, 3000] {
        let data: Vec<u8> = (0..len).map(|i| (i % 200) as u8).collect();
        let chunks = split_data_for_inputs(&data);
        assert_eq!(chunks.len(), calculate_inputs_needed(len));
        let joined: Vec<u8> = chunks.concat();
        assert_eq!(&joined[..3], b"444");
        assert_eq!(&joined[3..], &data[..]);
    }
    assert_eq!(MAX_DATA_CAPACITY, 605);
}

#[test]
fn fake_pubkeys_layout() {
    let mut data = vec![0x80u8];
    data.extend(vec![0x11u8; 32]);
    let keys = encode_data_as_fake_pubkeys(&data).unwrap();
    assert_eq!(keys.len(), 2);
    assert_eq!(keys[0][0], 0x03);
    assert_eq!(&keys[0][1..], &data[..32]);
    assert_eq!(keys[1][0], 0x02);
    assert_eq!(keys[1][1], 0x11);
    assert!(keys[1][2..].iter().all(|b| *b == 0));
    assert!(keys.iter().all(|k| k.len() == 33));
    assert!(encode_data_as_fake_pubkeys(&[]).unwrap().is_empty());
}

#[test]
fn witness_script_bytes() {
    let real = vec![0x02u8; 33];
    let fakes = vec![vec![0x03u8; 33], vec![0x02u8; 33]];
    let script = build_multisig_witnessscript(&real, &fakes).unwrap();
    let expected = bitcoin::script::Builder::new()
        .push_opcode(bitcoin::opcodes::all::OP_PUSHNUM_1)
        .push_slice(<[u8; 33]>::try_from(real.as_slice()).unwrap())
        .push_slice(<[u8; 33]>::try_from(fakes[0].as_slice()).unwrap())
        .push_slice(<[u8; 33]>::try_from(fakes[1].as_slice()).unwrap())
        .push_opcode(bitcoin::opcodes::all::OP_PUSHNUM_3)
        .push_opcode(bitcoin::opcodes::all::OP_CHECKMULTISIG)
        .into_bytes();
    assert_eq!(script, expected);
    assert_eq!(script[0], 0x51);
    assert_eq!(script[1], 33);
    assert_eq!(script[script.len() - 2], 0x53);
    assert_eq!(script[script.len() - 1], 0xae);
}

#[test]
fn witness_script_with_seventeen_keys_pushes_count() {
    let real = vec![0x02u8; 33];
    let fakes = vec![vec![0x02u8; 33]; 16];
    let script = build_multisig_witnessscript(&real, &fakes).unwrap();
    let n = script.len();
    assert_eq!(&script[n - 3..], &[0x01, 17, 0xae]);
    // the pushed count is no key
    let read = extract_fake_pubkeys_from_script(&script).unwrap();
    assert_eq!(read, fakes);
}

#[test]
fn witness_script_too_many_keys() {
    let real = vec![0x02u8; 33];
    let fakes = vec![vec![0x02u8; 33]; 20];
    assert_eq!(
        build_multisig_witnessscript(&real, &fakes).unwrap_err(),
        P2wshEncodeError::TooManyPubkeys(21)
    );
}

#[test]
fn witness_scripts_per_input() {
    let real = vec![0x02u8; 33];
    let data = vec![0x41u8; 700];
    let scripts = build_witness_scripts(&data, &real).unwrap();
    assert_eq!(scripts.len(), 2);
    let first = extract_fake_pubkeys_from_script(&scripts[0]).unwrap();
    // 608 bytes of prefix and data: 19 fake keys
    assert_eq!(first.len(), 19);
    assert_eq!(&first[0][1..4], b"444");
}

#[test]
fn weight_limit() {
    assert_eq!(validate_transaction_weight(400_000), Ok(()));
    assert_eq!(validate_transaction_weight(400_001), Err(P2wshEncodeError::WeightTooHigh(400_001)));
}

#[test]
fn fee_from_weight_rounds_up() {
    assert_eq!(calculate_fee_from_weight(0, 5), 0);
    assert_eq!(calculate_fee_from_weight(1, 5), 5);
    assert_eq!(calculate_fee_from_weight(400, 2), 200);
    assert_eq!(calculate_fee_from_weight(401, 2), 202);
}

#[test]
fn funding_amounts() {
    assert_eq!(funding_target(2, 10), 546 * 2 + 1000);
    let plan = plan_funding(3, 500, 300, 10_000).unwrap();
    assert_eq!(plan.output_amounts, vec![1046, 546, 546]);
    assert_eq!(plan.change, 10_000 - (546 * 3 + 500 + 300));
    assert_eq!(
        plan_funding(1, 500, 300, 1000).err(),
        Some(P2wshEncodeError::InsufficientFunds { required: 1346, available: 1000 })
    );
    assert_eq!(spending_change(&[1046, 546], 400), Ok(1192));
    assert_eq!(
        spending_change(&[100], 400),
        Err(P2wshEncodeError::InsufficientFunds { required: 400, available: 100 })
    );
}

#[test]
fn detect_marked_witness_script() {
    let script = vec![0x51, 0x03, 0x34, 0x34, 0x34, 0xae];
    let tx = TxData { output_scripts: vec![], input_witnesses: vec![vec![vec![], vec![1], script.clone()]] };
    assert!(detect(&tx));
    let short = TxData { output_scripts: vec![], input_witnesses: vec![vec![vec![], script]] };
    assert!(!detect(&short));
    let unmarked = TxData { output_scripts: vec![], input_witnesses: vec![vec![vec![], vec![], vec![0x34, 0x34, 0x35]]] };
    assert!(!detect(&unmarked));
    let none = TxData { output_scripts: vec![], input_witnesses: vec![] };
    assert!(!detect(&none));
}

#[test]
fn every_input_decodes_to_the_data() {
    let real = vec![0x02u8; 33];
    for len in [0usize, 1, 605, 606, 700, 1500, 2000] {
        let data: Vec<u8> = (0..len).map(|i| (i % 250 + 1) as u8).collect();
        let scripts = build_witness_scripts(&data, &real).unwrap();
        let witnesses = scripts.iter().map(|s| spending_witness(&[0x30, 0x01], s)).collect();
        let tx = TxData { output_scripts: vec![], input_witnesses: witnesses };
        assert_eq!(decode_witnesses(&tx).unwrap(), data);
    }
}

#[test]
fn witness_decode_errors() {
    let none = TxData { output_scripts: vec![], input_witnesses: vec![] };
    assert_eq!(decode_witnesses(&none).unwrap_err(), P2wshDecodeError::NoInputs);
    let mut key = vec![0x02u8];
    key.extend_from_slice(b"abc");
    key.extend(vec![0u8; 29]);
    let unmarked = vec![0x51, 33].into_iter().chain(vec![0x02; 33]).chain(vec![33]).chain(key).chain(vec![0x52, 0xae]).collect::<Vec<u8>>();
    let tx = TxData { output_scripts: vec![], input_witnesses: vec![vec![vec![], vec![1], unmarked]] };
    assert_eq!(decode_witnesses(&tx).unwrap_err(), P2wshDecodeError::MissingPrefix);
    let bare = TxData { output_scripts: vec![], input_witnesses: vec![vec![vec![], vec![1], vec![0x51]], vec![]] };
    assert_eq!(decode_witnesses(&bare).unwrap_err(), P2wshDecodeError::NoPubkeys);
    let empty = TxData { output_scripts: vec![], input_witnesses: vec![vec![]] };
    assert_eq!(decode_witnesses(&empty).unwrap_err(), P2wshDecodeError::NoWitness);
}

#[test]
fn spending_inputs_take_each_output_in_order() {
    assert_eq!(spending_vouts(3), vec![0, 1, 2]);
    assert_eq!(spending_vouts(0), Vec::<u32>::new());
}
