use safenode::codec::{decode_pair, encode_pair, SignedSpend};
use safenode::hashing::{address_to_filepath, dbc_address, DbcAddress};
use safenode::node::{parse_xor_name, Client, FilesCmds, Node};
use safenode::spends::{content_differs, is_double_spend_pair, Error, SpendStorage};
use safenode::store::{bytes_eq, FileStore};

fn spend_of(id: u8, dst: u8) -> SignedSpend {
    SignedSpend {
        dbc_id: vec![id; 48],
        dst_tx_hash: vec![dst; 32],
        tx: vec![dst, 1, 2, 3],
        signature: vec![9; 96],
    }
}

fn address_of(spend: &SignedSpend) -> DbcAddress {
    dbc_address(&spend.dbc_id)
}

#[test]
fn write_and_read_100_spends() {
    let number_of_spends = 100;
    let mut storage = SpendStorage::new();
    let spends: Vec<SignedSpend> = (0..number_of_spends).map(|i| spend_of(i as u8, 1)).collect();
    assert_eq!(spends.len(), number_of_spends);
    for spend in spends {
        storage.try_add(&spend, true).expect("Failed to write spend.");
        let read_spend = storage.get(&address_of(&spend)).expect("Failed to read spend.");
        assert_eq!(spend.to_bytes(), read_spend.to_bytes());
    }
}

#[test]
fn adding_spend_is_idempotent() {
    let mut storage = SpendStorage::new();
    let spend = spend_of(1, 1);
    storage.try_add(&spend, true).expect("First spend should be added.");
    storage.try_add(&spend, true).expect("The exact same spend should be added.");
    let read_spend = storage.get(&address_of(&spend)).expect("Should contain a spend.");
    assert_eq!(read_spend.to_bytes(), spend.to_bytes());
}

#[test]
fn double_spend_attempt_is_detected() {
    let mut storage = SpendStorage::new();
    let spend = spend_of(1, 1);
    storage.try_add(&spend, true).expect("First spend should be added.");

    // Same id and source, another destination transaction.
    let mut tampered_spend = spend.clone();
    tampered_spend.dst_tx_hash = vec![2; 32];
    tampered_spend.tx = vec![2, 1, 2, 3];

    match storage.try_add(&tampered_spend, true) {
        Ok(_) => panic!("Double spend should not be allowed."),
        Err(Error::DoubleSpendAttempt { new, existing }) => {
            assert_eq!(new.to_bytes(), tampered_spend.to_bytes());
            assert_eq!(existing.to_bytes(), spend.to_bytes());
        }
        Err(other) => panic!("Unexpected error: {:?}", other),
    }

    match storage.try_add(&spend, true) {
        Ok(_) => panic!("Double spend should not be allowed."),
        Err(Error::AlreadyMarkedAsDoubleSpend(address)) => {
            assert_eq!(address_of(&spend), address);
        }
        Err(other) => panic!("Unexpected error: {:?}", other),
    }
    match storage.try_add(&tampered_spend, true) {
        Ok(_) => panic!("Double spend should not be allowed."),
        Err(Error::AlreadyMarkedAsDoubleSpend(address)) => {
            assert_eq!(address_of(&spend), address);
        }
        Err(other) => panic!("Unexpected error: {:?}", other),
    }
}

#[test]
fn tampered_spend_scenario_hides_valid_entry() {
    let mut storage = SpendStorage::new();
    let s1 = spend_of(4, 1);
    let mut s2 = s1.clone();
    s2.dst_tx_hash = vec![3; 32];
    let x = address_of(&s1);

    storage.try_add(&s1, true).unwrap();
    assert_eq!(storage.get(&x), Ok(s1.clone()));

    assert_eq!(
        storage.try_add(&s2, true),
        Err(Error::DoubleSpendAttempt { new: Box::new(s2.clone()), existing: Box::new(s1.clone()) })
    );
    assert_eq!(storage.get(&x), Err(Error::SpendNotFound(x.clone())));
    assert_eq!(storage.try_add(&s1, true), Err(Error::AlreadyMarkedAsDoubleSpend(x.clone())));
    assert_eq!(storage.try_add(&s2, true), Err(Error::AlreadyMarkedAsDoubleSpend(x.clone())));
}

#[test]
fn conflict_in_reverse_order_reaches_same_state() {
    let a = spend_of(5, 1);
    let mut b = a.clone();
    b.tx = vec![8, 8];
    let x = address_of(&a);

    let mut first = SpendStorage::new();
    first.try_add(&a, true).unwrap();
    assert_eq!(
        first.try_add(&b, true),
        Err(Error::DoubleSpendAttempt { new: Box::new(b.clone()), existing: Box::new(a.clone()) })
    );
    let mut second = SpendStorage::new();
    second.try_add(&b, true).unwrap();
    assert_eq!(
        second.try_add(&a, true),
        Err(Error::DoubleSpendAttempt { new: Box::new(a.clone()), existing: Box::new(b.clone()) })
    );
    for storage in [&mut first, &mut second] {
        assert_eq!(storage.get(&x), Err(Error::SpendNotFound(x.clone())));
        assert_eq!(storage.try_add(&a, true), Err(Error::AlreadyMarkedAsDoubleSpend(x.clone())));
        assert_eq!(storage.try_add(&b, true), Err(Error::AlreadyMarkedAsDoubleSpend(x.clone())));
    }
}

#[test]
fn reported_double_spend_of_different_ids_is_refused() {
    let mut storage = SpendStorage::new();
    let a = spend_of(6, 1);
    let b = spend_of(7, 2);
    assert_eq!(
        storage.try_add_double(&a, &b),
        Err(Error::NotADoubleSpendAttempt(Box::new(a.clone()), Box::new(b.clone())))
    );
    // Nothing was written: both can still be added as valid spends.
    storage.try_add(&a, true).unwrap();
    storage.try_add(&b, true).unwrap();
}

#[test]
fn reported_double_spend_of_equal_spends_is_refused() {
    let mut storage = SpendStorage::new();
    let a = spend_of(6, 1);
    storage.try_add(&a, true).unwrap();
    assert_eq!(
        storage.try_add_double(&a, &a.clone()),
        Err(Error::NotADoubleSpendAttempt(Box::new(a.clone()), Box::new(a.clone())))
    );
    assert_eq!(storage.get(&address_of(&a)), Ok(a.clone()));
}

#[test]
fn reported_double_spend_marks_asset() {
    let mut storage = SpendStorage::new();
    let a = spend_of(8, 1);
    let mut b = a.clone();
    b.signature = vec![1; 96];
    let x = address_of(&a);
    storage.try_add(&a, true).unwrap();
    assert_eq!(storage.try_add_double(&a, &b), Ok(()));
    assert_eq!(storage.get(&x), Err(Error::SpendNotFound(x.clone())));
    assert_eq!(storage.try_add(&a, true), Err(Error::AlreadyMarkedAsDoubleSpend(x.clone())));
    // Reporting it again is a no-op.
    assert_eq!(storage.try_add_double(&b, &a), Ok(()));
    assert_eq!(storage.validate(&b, true), Err(Error::AlreadyMarkedAsDoubleSpend(x)));
}

#[test]
fn unverified_spend_is_not_stored() {
    let mut storage = SpendStorage::new();
    let a = spend_of(9, 1);
    let x = address_of(&a);
    assert_eq!(storage.try_add(&a, false), Err(Error::InvalidSignature(x.clone())));
    assert_eq!(storage.get(&x), Err(Error::SpendNotFound(x.clone())));
    assert_eq!(storage.validate(&a, true), Ok(()));
    assert_eq!(storage.get(&x), Err(Error::SpendNotFound(x)));
}

#[test]
fn spend_encoding_is_length_prefixed() {
    let spend = SignedSpend { dbc_id: vec![1, 2], dst_tx_hash: vec![], tx: vec![3], signature: vec![] };
    let mut expected = vec![2, 0, 0, 0, 0, 0, 0, 0, 1, 2];
    expected.extend_from_slice(&[0; 8]);
    expected.extend_from_slice(&[1, 0, 0, 0, 0, 0, 0, 0, 3]);
    expected.extend_from_slice(&[0; 8]);
    assert_eq!(spend.to_bytes(), expected);

    let mut trailing = expected.clone();
    trailing.push(42);
    assert_eq!(SignedSpend::from_bytes(&trailing), Some(spend));
    assert_eq!(SignedSpend::from_bytes(&expected[..expected.len() - 1]), None);
    assert_eq!(SignedSpend::from_bytes(&[]), None);
}

#[test]
fn evidence_pair_round_trips() {
    let a = spend_of(1, 1);
    let b = spend_of(1, 2);
    let bytes = encode_pair(&a, &b);
    assert_eq!(bytes.len(), a.to_bytes().len() + b.to_bytes().len());
    assert_eq!(decode_pair(&bytes), Some((a.clone(), b)));
    assert_eq!(decode_pair(&a.to_bytes()), None);
}

#[test]
fn address_is_sha3_of_id() {
    let address = dbc_address(&[]);
    assert_eq!(
        hex_string(&address.name),
        "a7ffc6f8bf1ed76651c14756a061d662f580ff4de43b49fa82d80a4b80f8434a"
    );
    assert_ne!(dbc_address(&[1]), dbc_address(&[2]));
}

#[test]
fn filepath_shards_by_leading_bytes() {
    let mut name = vec![0u8; 32];
    name[0] = 0xab;
    name[1] = 0x0f;
    name[31] = 0x10;
    let path = address_to_filepath(&DbcAddress { name: name.clone() });
    assert_eq!(path, vec!["ab".to_string(), "0f".to_string(), hex_string(&name)]);
    assert!(path[2].starts_with("ab0f00"));
    assert!(path[2].ends_with("0010"));
}

#[test]
fn file_store_put_get_remove() {
    let mut store = FileStore::new();
    assert_eq!(store.get(&[1]), None);
    store.put(vec![1], vec![10]);
    store.put(vec![2], vec![20]);
    store.put(vec![1], vec![11]);
    assert_eq!(store.get(&[1]), Some(vec![11]));
    assert!(store.contains(&[2]));
    store.remove(&[2]);
    assert!(!store.contains(&[2]));
    store.remove(&[3]);
    assert_eq!(store.get(&[1]), Some(vec![11]));
    assert!(bytes_eq(&[1, 2], &[1, 2]));
    assert!(!bytes_eq(&[1, 2], &[1]));
}

#[test]
fn client_wraps_node() {
    let mut node = Node::new();
    let spend = spend_of(3, 3);
    node.spend_storage().try_add(&spend, true).unwrap();
    assert_eq!(node.spend_storage().get(&address_of(&spend)), Ok(spend));
    let _client = Client::new(node);
    let cmd = FilesCmds::Download { file_name: None, file_addr: Some("00".to_string()) };
    assert!(matches!(cmd, FilesCmds::Download { file_name: None, .. }));
}

fn hex_string(bytes: &[u8]) -> String {
    bytes.iter().map(|b| format!("{:02x}", b)).collect()
}

#[test]
fn file_address_must_be_32_hex_bytes() {
    let lower = "0f".repeat(32);
    assert_eq!(parse_xor_name(lower.as_bytes()), Some(vec![0x0f; 32]));
    let upper = "AB".repeat(32);
    assert_eq!(parse_xor_name(upper.as_bytes()), Some(vec![0xab; 32]));
    assert_eq!(parse_xor_name("0f".repeat(31).as_bytes()), None);
    assert_eq!(parse_xor_name(format!("{}0", lower).as_bytes()), None);
    assert_eq!(parse_xor_name("zz".repeat(32).as_bytes()), None);
}

#[test]
fn restored_entries_must_decode_to_their_address() {
    let mut storage = SpendStorage::new();
    let a = spend_of(11, 1);
    let x = address_of(&a);
    let other = address_of(&spend_of(12, 1));
    assert!(!storage.restore_valid(other.name.clone(), a.to_bytes()));
    let mut truncated = a.to_bytes();
    truncated.pop();
    assert!(!storage.restore_valid(x.name.clone(), truncated));
    assert_eq!(storage.get(&x), Err(Error::SpendNotFound(x.clone())));
    assert!(storage.restore_valid(x.name.clone(), a.to_bytes()));
    assert_eq!(storage.get(&x), Ok(a.clone()));
    assert_eq!(storage.valid_entries(), vec![(x.name.clone(), a.to_bytes())]);
}

#[test]
fn restored_evidence_replaces_valid_entry() {
    let mut storage = SpendStorage::new();
    let a = spend_of(13, 1);
    let mut b = a.clone();
    b.tx = vec![0];
    let x = address_of(&a);
    storage.try_add(&a, true).unwrap();
    assert!(!storage.restore_double(x.name.clone(), a.to_bytes()));
    assert!(storage.restore_double(x.name.clone(), encode_pair(&a, &b)));
    assert_eq!(storage.get(&x), Err(Error::SpendNotFound(x.clone())));
    assert!(!storage.restore_valid(x.name.clone(), a.to_bytes()));
    assert_eq!(storage.try_add(&b, true), Err(Error::AlreadyMarkedAsDoubleSpend(x.clone())));
    assert_eq!(storage.double_entries(), vec![(x.name.clone(), encode_pair(&a, &b))]);
    assert!(storage.valid_entries().is_empty());
}

#[test]
fn redelivered_spend_is_accepted_without_a_new_check() {
    let mut storage = SpendStorage::new();
    let a = spend_of(14, 1);
    storage.try_add(&a, true).unwrap();
    assert_eq!(storage.validate(&a, false), Ok(()));
    assert_eq!(storage.try_add(&a, false), Ok(()));
    assert_eq!(storage.get(&address_of(&a)), Ok(a.clone()));
    assert_eq!(storage.valid_entry_bytes(&address_of(&a)), Some(a.to_bytes()));
    assert_eq!(storage.double_entry_bytes(&address_of(&a)), None);
}

#[test]
fn evidence_is_kept_as_first_filed() {
    let mut storage = SpendStorage::new();
    let a = spend_of(15, 1);
    let mut b = a.clone();
    b.tx = vec![1];
    let mut c = a.clone();
    c.tx = vec![2];
    let x = address_of(&a);
    assert_eq!(storage.try_add_double(&a, &b), Ok(()));
    assert_eq!(storage.try_add_double(&a, &c), Ok(()));
    assert!(!storage.restore_double(x.name.clone(), encode_pair(&b, &c)));
    assert_eq!(storage.double_entry_bytes(&x), Some(encode_pair(&a, &b)));
}

#[test]
fn conflict_checks_on_given_hashes() {
    assert!(content_differs(&[1, 2], &[1, 3]));
    assert!(!content_differs(&[1, 2], &[1, 2]));
    assert!(is_double_spend_pair(&[7], &[1], &[7], &[2]));
    assert!(!is_double_spend_pair(&[7], &[1], &[8], &[2]));
    assert!(!is_double_spend_pair(&[7], &[1], &[7], &[1]));
}
