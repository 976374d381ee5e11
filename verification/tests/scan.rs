use keyscan::hex::{from_hex, to_hex};
use keyscan::index::AddressIndex;
use keyscan::keys::{derive_key_material, generate_key_material, KeyMaterial};
use keyscan::record::{format_batch, format_record, parse_log};
use keyscan::scanner::{worker_count, Scanner};

fn test_km(tag: u8, address: &str) -> KeyMaterial {
    let mut secret = vec![0u8; 31];
    secret.push(tag);
    KeyMaterial {
        secret,
        wif: format!("Kwif{}", tag).into_bytes(),
        pubkey: format!("02pubkey{}", tag).into_bytes(),
        address: address.as_bytes().to_vec(),
    }
}

#[test]
fn hex_encodes_exact_value() {
    let v = vec![0xabu8, 0x00, 0xff, 0x17];
    assert_eq!(to_hex(&v), b"ab00ff17".to_vec());
    assert_eq!(to_hex(&Vec::new()), Vec::<u8>::new());
}

#[test]
fn hex_round_trip() {
    let v = vec![0u8, 1, 2, 3, 254, 255, 16, 32];
    let h = to_hex(&v);
    assert_eq!(from_hex(&h), Some(v));
}

#[test]
fn hex_rejects_malformed_text() {
    assert_eq!(from_hex(&b"abc".to_vec()), None);
    assert_eq!(from_hex(&b"zz".to_vec()), None);
    assert_eq!(from_hex(&b"AB".to_vec()), None);
    assert_eq!(from_hex(&Vec::new()), Some(Vec::new()));
}

#[test]
fn derivation_of_key_one_matches_known_values() {
    let mut secret = vec![0u8; 31];
    secret.push(1);
    let km = derive_key_material(secret.clone());
    assert_eq!(km.secret, secret);
    assert_eq!(
        km.wif,
        b"KwDiBf89QgGbjEhKnhXJuH7LrciVrZi3qYjgd9M7rFU73sVHnoWn".to_vec()
    );
    assert_eq!(
        km.pubkey,
        b"0279be667ef9dcbbac55a06295ce870b07029bfcdb2dce28d959f2815b16f81798".to_vec()
    );
    assert_eq!(km.address, b"1BgGZ9tcN4rm9KBzDn7KprQz87SZ26SAMH".to_vec());
}

#[test]
fn derivation_is_deterministic() {
    let mut secret = vec![0u8; 31];
    secret.push(42);
    let a = derive_key_material(secret.clone());
    let b = derive_key_material(secret);
    assert_eq!(a.secret, b.secret);
    assert_eq!(a.wif, b.wif);
    assert_eq!(a.pubkey, b.pubkey);
    assert_eq!(a.address, b.address);
}

#[test]
fn generated_key_material_is_well_formed() {
    let km = generate_key_material();
    assert!(km.is_wf());
    assert_eq!(km.secret.len(), 32);
    assert!(!km.address.is_empty());
}

#[test]
fn index_membership_follows_inputs() {
    let mut index = AddressIndex::new();
    let batch1: Vec<Vec<u8>> = vec![b"addr-a".to_vec(), b"addr-b".to_vec()];
    let batch2: Vec<Vec<u8>> = vec![b"addr-b".to_vec(), b"addr-c".to_vec()];
    index.insert_all(&batch1);
    index.insert_all(&batch2);
    assert!(index.contains(&b"addr-a".to_vec()));
    assert!(index.contains(&b"addr-b".to_vec()));
    assert!(index.contains(&b"addr-c".to_vec()));
    assert!(!index.contains(&b"addr-d".to_vec()));
    assert_eq!(index.len(), 3);
}

#[test]
fn index_rebuild_order_is_irrelevant() {
    let mut one = AddressIndex::new();
    let mut two = AddressIndex::new();
    one.insert_all(&vec![b"x".to_vec(), b"y".to_vec(), b"z".to_vec()]);
    two.insert_all(&vec![b"z".to_vec(), b"x".to_vec()]);
    two.insert_all(&vec![b"y".to_vec(), b"x".to_vec()]);
    for a in [&b"x"[..], &b"y"[..], &b"z"[..], &b"w"[..]] {
        assert_eq!(one.contains(&a.to_vec()), two.contains(&a.to_vec()));
    }
    assert_eq!(one.len(), two.len());
}

#[test]
fn empty_index_never_matches() {
    let index = AddressIndex::new();
    assert_eq!(index.len(), 0);
    assert!(!index.contains(&b"1BoatSLRHtKNngkdXEeobR76b53LETtpyT".to_vec()));
    let mut scanner = Scanner::new(4, 3).unwrap();
    for tag in 0..9u8 {
        let out = scanner.step(test_km(tag, "somewhere"), &index);
        assert!(out.flush.is_none());
    }
    assert_eq!(scanner.count, 9);
    assert!(scanner.take_batch().is_none());
}

#[test]
fn record_round_trip_single() {
    let km = test_km(7, "1BoatSLRHtKNngkdXEeobR76b53LETtpyT");
    let bytes = format_record(&km);
    let parsed = parse_log(&bytes).expect("well-formed record must parse");
    assert_eq!(parsed.len(), 1);
    assert_eq!(parsed[0].secret, km.secret);
    assert_eq!(parsed[0].wif, km.wif);
    assert_eq!(parsed[0].pubkey, km.pubkey);
    assert_eq!(parsed[0].address, km.address);
}

#[test]
fn record_layout_is_line_oriented() {
    let km = test_km(9, "addr-nine");
    let bytes = format_record(&km);
    let text = String::from_utf8(bytes).unwrap();
    let lines: Vec<&str> = text.split('\n').collect();
    assert_eq!(lines.len(), 6);
    let mut hex_line = String::new();
    for _ in 0..63 {
        hex_line.push('0');
    }
    hex_line.push('9');
    assert_eq!(lines[0], hex_line);
    assert_eq!(lines[1], "Kwif9");
    assert_eq!(lines[2], "02pubkey9");
    assert_eq!(lines[3], "addr-nine");
    assert_eq!(lines[4], "");
    assert_eq!(lines[5], "");
}

#[test]
fn matching_address_yields_exactly_one_record() {
    let target = "1BoatSLRHtKNngkdXEeobR76b53LETtpyT";
    let mut index = AddressIndex::new();
    index.insert_all(&vec![target.as_bytes().to_vec()]);
    let mut scanner = Scanner::new(10, 2).unwrap();
    let hit = test_km(1, target);
    let out1 = scanner.step(hit, &index);
    assert!(out1.flush.is_none());
    assert!(!out1.report);
    let out2 = scanner.step(test_km(2, "no-match"), &index);
    assert!(out2.report);
    let batch = out2.flush.expect("boundary with a buffered match must flush");
    assert_eq!(batch.len(), 1);
    let log = format_batch(&batch);
    let parsed = parse_log(&log).unwrap();
    assert_eq!(parsed.len(), 1);
    let mut secret = vec![0u8; 31];
    secret.push(1);
    assert_eq!(parsed[0].secret, secret);
    assert_eq!(to_hex(&parsed[0].secret), log[..64].to_vec());
    assert_eq!(parsed[0].address, target.as_bytes().to_vec());
}

#[test]
fn eight_serialized_flushes_stay_whole() {
    let mut log: Vec<u8> = Vec::new();
    let mut expected: Vec<KeyMaterial> = Vec::new();
    for tag in 0..8u8 {
        let km = test_km(tag, &format!("target-{}", tag));
        let batch = vec![km];
        let bytes = format_batch(&batch);
        log.extend_from_slice(&bytes);
        expected.extend(batch);
    }
    let parsed = parse_log(&log).expect("eight whole blocks must parse");
    assert_eq!(parsed.len(), 8);
    for (got, want) in parsed.iter().zip(expected.iter()) {
        assert_eq!(got.secret, want.secret);
        assert_eq!(got.wif, want.wif);
        assert_eq!(got.pubkey, want.pubkey);
        assert_eq!(got.address, want.address);
    }
}

#[test]
fn batch_fills_to_bound_and_flushes() {
    let mut index = AddressIndex::new();
    index.insert_all(&vec![b"t".to_vec()]);
    let mut scanner = Scanner::new(3, 1000).unwrap();
    assert!(scanner.step(test_km(1, "t"), &index).flush.is_none());
    assert!(scanner.step(test_km(2, "t"), &index).flush.is_none());
    let out = scanner.step(test_km(3, "t"), &index);
    let batch = out.flush.expect("a full batch must flush");
    assert_eq!(batch.len(), 3);
    assert!(scanner.take_batch().is_none());
}

#[test]
fn interval_with_no_matches_reports_without_flushing() {
    let index = AddressIndex::new();
    let mut scanner = Scanner::new(4, 8).unwrap();
    for tag in 0..8u8 {
        let out = scanner.step(test_km(tag, "never"), &index);
        assert!(out.flush.is_none());
        assert_eq!(out.report, tag == 7);
    }
}

#[test]
fn take_batch_hands_over_pending_matches() {
    let mut index = AddressIndex::new();
    index.insert_all(&vec![b"t".to_vec()]);
    let mut scanner = Scanner::new(10, 1000).unwrap();
    scanner.step(test_km(5, "t"), &index);
    let batch = scanner.take_batch().expect("a buffered match must be handed over");
    assert_eq!(batch.len(), 1);
    assert_eq!(batch[0].address, b"t".to_vec());
    assert!(scanner.take_batch().is_none());
}

#[test]
fn scanner_rejects_zero_configuration() {
    assert!(Scanner::new(0, 5).is_none());
    assert!(Scanner::new(5, 0).is_none());
    assert!(Scanner::new(1, 1).is_some());
}

#[test]
fn parse_log_rejects_corrupt_text() {
    assert_eq!(parse_log(&b"junk".to_vec()).map(|b| b.len()), None);
    let km = test_km(3, "addr");
    let mut bytes = format_record(&km);
    bytes.pop();
    assert!(parse_log(&bytes).is_none());
    assert_eq!(parse_log(&Vec::new()).map(|b| b.len()), Some(0));
}

#[test]
fn key_material_with_newline_or_short_secret_is_rejected() {
    let mut km = test_km(1, "addr");
    assert!(km.is_wf());
    km.wif.push(10);
    assert!(!km.is_wf());
    km.wif.pop();
    assert!(km.is_wf());
    km.secret.pop();
    assert!(!km.is_wf());
}

#[test]
fn single_insert_deduplicates() {
    let mut index = AddressIndex::new();
    index.insert(b"a".to_vec());
    index.insert(b"a".to_vec());
    index.insert(b"b".to_vec());
    assert_eq!(index.len(), 2);
    assert!(index.contains(&b"a".to_vec()));
    assert!(index.contains(&b"b".to_vec()));
}

#[test]
fn worker_count_prefers_override() {
    assert_eq!(worker_count(Some(3), 8), 3);
    assert_eq!(worker_count(None, 8), 8);
    assert_eq!(worker_count(Some(0), 8), 8);
    assert_eq!(worker_count(None, 0), 1);
}
