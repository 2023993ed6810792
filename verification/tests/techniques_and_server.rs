use ordiknots::server::{detect_image_mime, html_escape, is_image, order_newest_first, printable_count, short_txid};
use ordiknots::techniques::{detect_technique, technique_from_lowercase, TechniqueError, TechniqueType};
use ordiknots::tx_creator::techniques::TechniqueType as CreatorTechniqueType;
use ordiknots::utils::network::{chain_name, parse_network, validate_network, NetworkError, NetworkKind};
use ordiknots::utils::transaction::TxData;
use ordiknots::utils::wallet::{select_largest_utxo, select_utxos_by_amount};

#[test]
fn technique_names_parse() {
    assert_eq!(TechniqueType::from_str("chained-op-return"), Ok(TechniqueType::ChainedOpReturn));
    assert_eq!(TechniqueType::from_str("op_return"), Ok(TechniqueType::ChainedOpReturn));
    assert_eq!(TechniqueType::from_str("OP-RETURN"), Ok(TechniqueType::ChainedOpReturn));
    assert_eq!(TechniqueType::from_str("P2WSH"), Ok(TechniqueType::P2wshFakeMultisig));
    assert_eq!(TechniqueType::from_str("multisig"), Ok(TechniqueType::P2wshFakeMultisig));
    assert_eq!(
        TechniqueType::from_str("inscription"),
        Err(TechniqueError::UnknownTechnique(String::from("inscription")))
    );
    assert_eq!(CreatorTechniqueType::from_str("p2wsh-fake-multisig"), Ok(TechniqueType::P2wshFakeMultisig));
    // the Kelvin sign lowercases to 'k'
    assert_eq!(TechniqueType::from_str("p2wsh-fa\u{212A}e-multisig"), Ok(TechniqueType::P2wshFakeMultisig));
}

#[test]
fn technique_names_and_codes() {
    for t in [TechniqueType::ChainedOpReturn, TechniqueType::P2wshFakeMultisig] {
        assert_eq!(technique_from_lowercase(&t.as_str().to_string()), Some(t));
        assert_eq!(TechniqueType::from_db_code(t.db_code()), Some(t));
    }
    assert_eq!(TechniqueType::ChainedOpReturn.as_str(), "chained-op-return");
    assert_eq!(TechniqueType::P2wshFakeMultisig.as_str(), "p2wsh-fake-multisig");
    assert_eq!(TechniqueType::ChainedOpReturn.db_code(), 1);
    assert_eq!(TechniqueType::P2wshFakeMultisig.db_code(), 2);
    assert_eq!(TechniqueType::from_db_code(0), None);
    assert_eq!(TechniqueType::from_db_code(3), None);
}

#[test]
fn detect_technique_order() {
    let chained = TxData { output_scripts: vec![vec![0x6a, 0x03, 0x34, 0x34, 0x34]], input_witnesses: vec![] };
    assert_eq!(detect_technique(&chained), Some(TechniqueType::ChainedOpReturn));
    let p2wsh = TxData {
        output_scripts: vec![vec![0x00]],
        input_witnesses: vec![vec![vec![], vec![1], vec![0x51, 0x03, 0x34, 0x34, 0x34]]],
    };
    assert_eq!(detect_technique(&p2wsh), Some(TechniqueType::P2wshFakeMultisig));
    let plain = TxData { output_scripts: vec![vec![0x00]], input_witnesses: vec![vec![]] };
    assert_eq!(detect_technique(&plain), None);
}

#[test]
fn image_signatures() {
    assert!(is_image(&[0x89, 0x50, 0x4E, 0x47, 0x0D]));
    assert!(is_image(&[0xFF, 0xD8, 0xFF, 0xE0]));
    assert!(is_image(b"GIF89a..."));
    assert!(is_image(b"GIF87a"));
    assert!(!is_image(b"GIF8"));
    assert!(is_image(b"RIFF\x00\x00\x00\x00WEBPVP8"));
    assert!(!is_image(b"RIFF\x00\x00\x00\x00WEBP"));
    assert!(!is_image(&[0x89, 0x50, 0x4E]));
    assert!(!is_image(b"hello world"));
}

#[test]
fn image_mime_types() {
    assert_eq!(detect_image_mime(&[0x89, 0x50, 0x4E, 0x47]), "image/png");
    assert_eq!(detect_image_mime(&[0xFF, 0xD8, 0xFF]), "image/jpeg");
    assert_eq!(detect_image_mime(b"GIF"), "image/gif");
    assert_eq!(detect_image_mime(b"XXXX\x00\x00\x00\x00WEBPx"), "image/webp");
    assert_eq!(detect_image_mime(b"text"), "application/octet-stream");
}

#[test]
fn printable_bytes() {
    assert_eq!(printable_count(b"hello\n\t\r"), 8);
    assert_eq!(printable_count(&[0x00, 0x7F, 0x1F, 0x20, 0x7E]), 2);
    assert_eq!(printable_count(&[]), 0);
}

#[test]
fn html_escaping() {
    assert_eq!(html_escape("<a href=\"x\">Tom & Jerry's</a>"), "&lt;a href=&quot;x&quot;&gt;Tom &amp; Jerry&#x27;s&lt;/a&gt;");
    assert_eq!(html_escape("plain ü"), "plain ü");
    assert_eq!(html_escape("&amp;"), "&amp;amp;");
}

#[test]
fn networks() {
    assert_eq!(parse_network("bitcoin"), Ok(NetworkKind::Bitcoin));
    assert_eq!(parse_network("regtest"), Ok(NetworkKind::Regtest));
    assert_eq!(parse_network("testnet"), Err(NetworkError::InvalidNetwork));
    assert_eq!(chain_name(NetworkKind::Bitcoin), "main");
    assert_eq!(chain_name(NetworkKind::Other), "unknown");
    assert_eq!(validate_network(NetworkKind::Regtest, "regtest"), Ok(()));
    assert_eq!(validate_network(NetworkKind::Signet, "regtest"), Err(NetworkError::WrongNetwork));
}

#[test]
fn utxo_selection() {
    assert_eq!(select_largest_utxo(&[]), None);
    assert_eq!(select_largest_utxo(&[5, 9, 9, 1]), Some(2));
    assert_eq!(select_utxos_by_amount(&[5, 9, 9], 10), Some((2, 14)));
    assert_eq!(select_utxos_by_amount(&[5, 9, 9], 0), Some((0, 0)));
    assert_eq!(select_utxos_by_amount(&[5, 9, 9], 24), None);
}

#[test]
fn gallery_lists_newest_first() {
    assert_eq!(order_newest_first(&[5, 9, 5, 7, 9]), vec![1, 4, 3, 0, 2]);
    assert_eq!(order_newest_first(&[]), Vec::<usize>::new());
}

#[test]
fn txids_are_shortened_for_display() {
    let txid = "0123456789abcdef0123456789abcdef";
    assert_eq!(short_txid(txid), "01234567...89abcdef");
    assert_eq!(short_txid("0123456789abcdef"), "0123456789abcdef");
    assert_eq!(short_txid(""), "");
}
