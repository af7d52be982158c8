use ckb_capsule::config::lock::{
    Lock, LockAuthority, LockError, MultisigLock, Script, ScriptHashType,
};
use ckb_capsule::config::multisig::MultisigConfig;
use ckb_capsule::deployment::migration::{
    MigrationError, MigrationRecord, MigrationState, OutPoint,
};
use ckb_capsule::tool::multisig::MultisigError;

fn record(name: &str, seed: u8, index: u32) -> MigrationRecord {
    MigrationRecord { name: name.to_string(), out_point: OutPoint { tx_hash: [seed; 32], index } }
}

fn two_records() -> MigrationState {
    MigrationState {
        sequence: 0x0102_0304_0506_0708,
        records: vec![record("ab", 0x11, 0x0a0b_0c0d), record("", 0x22, 1)],
    }
}

fn two_records_bytes() -> Vec<u8> {
    let mut bytes = vec![8, 7, 6, 5, 4, 3, 2, 1, 2, 0, 0, 0];
    bytes.extend_from_slice(&[2, 0, 0, 0, b'a', b'b']);
    bytes.extend_from_slice(&[0x11; 32]);
    bytes.extend_from_slice(&[0x0d, 0x0c, 0x0b, 0x0a]);
    bytes.extend_from_slice(&[0, 0, 0, 0]);
    bytes.extend_from_slice(&[0x22; 32]);
    bytes.extend_from_slice(&[1, 0, 0, 0]);
    bytes
}

fn policy(first_n: u8, n: u8) -> MultisigLock {
    MultisigLock {
        code_hash: [0x5c; 32],
        hash_type: ScriptHashType::Type,
        format_version: 0,
        require_first_n_keys: first_n,
        require_n_keys: n,
        pubkey_hash_list: (0u8..3).map(|k| vec![k; 20]).collect(),
    }
}

#[test]
fn store_is_written_field_by_field() {
    assert_eq!(two_records().to_bytes(), Ok(two_records_bytes()));
}

#[test]
fn empty_store_is_its_header() {
    assert_eq!(MigrationState::new().to_bytes(), Ok(vec![0; 12]));
    assert_eq!(MigrationState::from_bytes(&[0; 12]), Ok(MigrationState::new()));
}

#[test]
fn store_is_read_back() {
    assert_eq!(MigrationState::from_bytes(&two_records_bytes()), Ok(two_records()));
    let state = MigrationState::new()
        .append(&[record("vault", 1, 0), record("größe/引数", 2, u32::MAX)])
        .unwrap()
        .append(&[record("vault", 3, 9)])
        .unwrap();
    let bytes = state.to_bytes().unwrap();
    let back = MigrationState::from_bytes(&bytes).unwrap();
    assert_eq!(back, state);
    assert_eq!(back.get("vault"), Some(OutPoint { tx_hash: [3; 32], index: 9 }));
    assert_eq!(back.get("größe/引数"), Some(OutPoint { tx_hash: [2; 32], index: u32::MAX }));
}

#[test]
fn truncated_store_is_corrupt() {
    let bytes = two_records_bytes();
    for cut in 0..bytes.len() {
        assert_eq!(
            MigrationState::from_bytes(&bytes[..cut]),
            Err(MigrationError::MigrationCorrupt)
        );
    }
}

#[test]
fn trailing_bytes_make_the_store_corrupt() {
    let mut bytes = two_records_bytes();
    bytes.push(0);
    assert_eq!(MigrationState::from_bytes(&bytes), Err(MigrationError::MigrationCorrupt));
    assert_eq!(MigrationState::from_bytes(&[0; 13]), Err(MigrationError::MigrationCorrupt));
}

#[test]
fn wrong_count_makes_the_store_corrupt() {
    let mut fewer = two_records_bytes();
    fewer[8] = 1;
    assert_eq!(MigrationState::from_bytes(&fewer), Err(MigrationError::MigrationCorrupt));
    let mut more = two_records_bytes();
    more[8] = 3;
    assert_eq!(MigrationState::from_bytes(&more), Err(MigrationError::MigrationCorrupt));
    let mut huge = two_records_bytes();
    huge[11] = 0xff;
    assert_eq!(MigrationState::from_bytes(&huge), Err(MigrationError::MigrationCorrupt));
}

#[test]
fn name_that_is_not_utf8_makes_the_store_corrupt() {
    let mut bytes = two_records_bytes();
    bytes[16] = 0xff;
    assert_eq!(MigrationState::from_bytes(&bytes), Err(MigrationError::MigrationCorrupt));
    let mut cut = two_records_bytes();
    cut[16] = 0xc3;
    cut[17] = b'b';
    assert_eq!(MigrationState::from_bytes(&cut), Err(MigrationError::MigrationCorrupt));
}

#[test]
fn wrong_name_length_makes_the_store_corrupt() {
    let mut bytes = two_records_bytes();
    bytes[12] = 3;
    assert_eq!(MigrationState::from_bytes(&bytes), Err(MigrationError::MigrationCorrupt));
    let mut far = two_records_bytes();
    far[15] = 0xff;
    assert_eq!(MigrationState::from_bytes(&far), Err(MigrationError::MigrationCorrupt));
}

#[test]
fn authority_is_exactly_one_of_two() {
    let raw = Script { code_hash: [1; 32], hash_type: ScriptHashType::Data, args: vec![1, 2, 3] };
    let both = Lock { raw: Some(raw.clone()), multisig: Some(policy(1, 2)) };
    assert_eq!(both.authority(), Err(LockError::ConflictingLocks));
    let neither = Lock { raw: None, multisig: None };
    assert_eq!(neither.authority(), Err(LockError::MissingLock));
    let only_raw = Lock { raw: Some(raw.clone()), multisig: None };
    assert_eq!(only_raw.authority(), Ok(LockAuthority::RawScript(raw.clone())));
    let only_policy = Lock { raw: None, multisig: Some(policy(1, 2)) };
    assert_eq!(only_policy.authority(), Ok(LockAuthority::MultisigPolicy(policy(1, 2))));
}

#[test]
fn authority_resolves_to_its_script() {
    let raw = Script { code_hash: [1; 32], hash_type: ScriptHashType::Data, args: vec![1, 2, 3] };
    assert_eq!(LockAuthority::RawScript(raw.clone()).resolve(), Ok(raw));
    let script = LockAuthority::MultisigPolicy(policy(1, 2)).resolve().unwrap();
    assert_eq!(script.code_hash, [0x5c; 32]);
    assert_eq!(script.hash_type, ScriptHashType::Type);
    assert_eq!(script.args, policy(1, 2).script_hash().unwrap().to_vec());
    assert_eq!(
        LockAuthority::MultisigPolicy(policy(3, 2)).resolve(),
        Err(LockError::PolicyInconsistent)
    );
}

#[test]
fn signatures_are_collected_until_complete() {
    let mut session = MultisigConfig { transaction: Vec::new(), lock: policy(1, 2), signatures: Vec::new() };
    assert!(!session.is_complete());
    assert_eq!(session.add_signature(vec![1; 65]), Ok(()));
    assert!(!session.is_complete());
    assert_eq!(session.add_signature(vec![2; 65]), Ok(()));
    assert!(session.is_complete());
    assert_eq!(session.signatures, vec![vec![1; 65], vec![2; 65]]);
    assert_eq!(
        session.add_signature(vec![3; 65]),
        Err(MultisigError::SignatureCountMismatch { expected: 2, actual: 2 })
    );
    assert_eq!(session.signatures.len(), 2);
}

#[test]
fn collected_signature_must_have_65_bytes() {
    let mut session = MultisigConfig { transaction: Vec::new(), lock: policy(1, 2), signatures: Vec::new() };
    assert_eq!(session.add_signature(vec![1; 65]), Ok(()));
    assert_eq!(
        session.add_signature(vec![1; 64]),
        Err(MultisigError::SignatureLengthMismatch { index: 1, length: 64 })
    );
    assert_eq!(
        session.add_signature(vec![1; 66]),
        Err(MultisigError::SignatureLengthMismatch { index: 1, length: 66 })
    );
    assert_eq!(
        session.add_signature(Vec::new()),
        Err(MultisigError::SignatureLengthMismatch { index: 1, length: 0 })
    );
    assert_eq!(session.signatures, vec![vec![1; 65]]);
}
