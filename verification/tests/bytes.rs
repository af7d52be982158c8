use ckb_capsule::bytes::{
    append_bytes, append_length_prefixed, append_zeros, le_bytes_of, le_value_of,
};
use ckb_capsule::config::{Deployment, Lock, MultisigLock, ScriptHashType};

#[test]
fn numbers_are_written_least_significant_byte_first() {
    assert_eq!(le_bytes_of(0x0102_0304_0506_0708, 8), vec![8, 7, 6, 5, 4, 3, 2, 1]);
    assert_eq!(le_bytes_of(16, 4), vec![16, 0, 0, 0]);
    assert_eq!(le_bytes_of(0x1_0000_0001, 4), vec![1, 0, 0, 0]);
    assert_eq!(le_bytes_of(u64::MAX, 8), vec![0xff; 8]);
    assert_eq!(le_bytes_of(300, 1), vec![44]);
    assert_eq!(le_bytes_of(300, 0), Vec::<u8>::new());
    assert_eq!(le_bytes_of(1, 9), vec![1, 0, 0, 0, 0, 0, 0, 0, 0]);
}

#[test]
fn numbers_are_read_least_significant_byte_first() {
    assert_eq!(le_value_of(&[8, 7, 6, 5, 4, 3, 2, 1]), 0x0102_0304_0506_0708);
    assert_eq!(le_value_of(&[16, 0, 0, 0]), 16);
    assert_eq!(le_value_of(&[0xff; 8]), u64::MAX);
    assert_eq!(le_value_of(&[]), 0);
    assert_eq!(le_value_of(&[0, 1]), 256);
}

#[test]
fn numbers_are_read_back() {
    for n in [0u64, 1, 255, 256, 65_535, 0xdead_beef, u64::MAX] {
        assert_eq!(le_value_of(&le_bytes_of(n, 8)), n);
    }
}

#[test]
fn bytes_are_appended() {
    let mut out = vec![1, 2];
    append_bytes(&mut out, &[3, 4, 5]);
    append_bytes(&mut out, &[]);
    assert_eq!(out, vec![1, 2, 3, 4, 5]);
    append_zeros(&mut out, 3);
    append_zeros(&mut out, 0);
    assert_eq!(out, vec![1, 2, 3, 4, 5, 0, 0, 0]);
}

#[test]
fn items_stand_behind_their_length() {
    let mut out = vec![9];
    append_length_prefixed(&mut out, &[7, 7, 7]);
    assert_eq!(out, vec![9, 3, 0, 0, 0, 0, 0, 0, 0, 7, 7, 7]);
    append_length_prefixed(&mut out, &[]);
    assert_eq!(out, vec![9, 3, 0, 0, 0, 0, 0, 0, 0, 7, 7, 7, 0, 0, 0, 0, 0, 0, 0, 0]);
}

#[test]
fn blank_values_are_empty() {
    let lock = MultisigLock::default();
    assert_eq!(lock.code_hash, [0; 32]);
    assert_eq!(lock.hash_type, ScriptHashType::Data);
    assert_eq!(lock.format_version, 0);
    assert_eq!(lock.require_first_n_keys, 0);
    assert_eq!(lock.require_n_keys, 0);
    assert!(lock.pubkey_hash_list.is_empty());
    assert_eq!(lock.to_multisig_script(), Ok(vec![0, 0, 0, 0]));
    assert_eq!(Lock::default(), Lock { raw: None, multisig: None });
    let deployment = Deployment::default();
    assert_eq!(deployment.lock, Lock::default());
    assert!(deployment.cells.is_empty());
    assert!(deployment.dep_groups.is_empty());
    assert_eq!(ScriptHashType::default(), ScriptHashType::Data);
}
