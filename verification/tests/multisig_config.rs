use ckb_capsule::config::lock::{MultisigLock, ScriptHashType};
use ckb_capsule::config::multisig::MultisigConfig;
use ckb_capsule::tool::multisig::{
    calculate_multisig_tx_message, DraftTransaction, MultisigError, SIGNATURE_SIZE,
};
use ckb_capsule::tool::witness::WitnessArgs;
use ckb_types::bytes::Bytes;
use ckb_types::packed;
use ckb_types::prelude::{Builder, Entity, Pack, Unpack};

fn lock() -> MultisigLock {
    MultisigLock {
        code_hash: [0x5c; 32],
        hash_type: ScriptHashType::Type,
        format_version: 0,
        require_first_n_keys: 2,
        require_n_keys: 3,
        pubkey_hash_list: (0u8..5).map(|k| vec![k + 1; 20]).collect(),
    }
}

fn input(seed: u8, index: u32) -> packed::CellInput {
    let hash: packed::Byte32 = [seed; 32].pack();
    packed::CellInput::new(packed::OutPoint::new(hash, index), 0)
}

fn witness_with_types() -> Bytes {
    packed::WitnessArgs::new_builder()
        .lock(Some(Bytes::from(vec![9u8, 9])).pack())
        .input_type(Some(Bytes::from(vec![1u8, 2, 3])).pack())
        .build()
        .as_bytes()
}

fn transaction(inputs: u8, witnesses: Vec<Bytes>) -> packed::Transaction {
    let mut builder = packed::Transaction::default().as_advanced_builder();
    for k in 0..inputs {
        builder = builder.input(input(k + 1, k as u32));
    }
    for witness in witnesses {
        builder = builder.witness(witness.pack());
    }
    builder.build().data()
}

fn config(tx: &packed::Transaction, signatures: Vec<Vec<u8>>) -> MultisigConfig {
    MultisigConfig { transaction: tx.as_bytes().to_vec(), lock: lock(), signatures }
}

fn draft_of(tx: &packed::Transaction) -> DraftTransaction {
    let tx = tx.clone().into_view();
    DraftTransaction {
        hash: tx.hash().unpack(),
        input_count: tx.inputs().len(),
        witnesses: tx.witnesses().into_iter().map(|w| w.raw_data().to_vec()).collect(),
    }
}

fn message_by_streaming_hasher(tx: &packed::Transaction, lock: &MultisigLock) -> [u8; 32] {
    let tx = tx.clone().into_view();
    let mut hasher = ckb_hash::new_blake2b();
    hasher.update(&tx.hash().raw_data());
    let first = match tx.witnesses().get(0) {
        Some(witness) => packed::WitnessArgs::new_unchecked(witness.unpack()),
        None => packed::WitnessArgs::default(),
    };
    let placeholder = vec![0u8; lock.pubkey_hash_list.len() * SIGNATURE_SIZE];
    let blanked = first.as_builder().lock(Some(Bytes::from(placeholder)).pack()).build();
    hasher.update(&(blanked.as_bytes().len() as u64).to_le_bytes());
    hasher.update(&blanked.as_bytes());
    for n in 1..std::cmp::max(tx.witnesses().len(), tx.inputs().len()) {
        let witness: Bytes = tx.witnesses().get(n).unwrap_or_default().unpack();
        hasher.update(&(witness.len() as u64).to_le_bytes());
        hasher.update(&witness);
    }
    let mut message = [0u8; 32];
    hasher.finalize(&mut message);
    message
}

fn three_signatures() -> Vec<Vec<u8>> {
    (0u8..3).map(|k| vec![0xb0 + k; SIGNATURE_SIZE]).collect()
}

#[test]
fn draft_is_read_from_the_encoded_transaction() {
    let tx = transaction(2, vec![witness_with_types(), Bytes::from(vec![4u8, 5])]);
    let expected = calculate_multisig_tx_message(&draft_of(&tx), &lock()).unwrap();
    assert_eq!(config(&tx, Vec::new()).message(), Ok(expected));
}

#[test]
fn message_is_what_a_streaming_hasher_gives() {
    let cases = vec![
        transaction(2, vec![witness_with_types()]),
        transaction(1, vec![witness_with_types(), Bytes::new(), Bytes::from(vec![7u8; 40])]),
        transaction(3, Vec::new()),
        transaction(0, Vec::new()),
        transaction(2, vec![packed::WitnessArgs::default().as_bytes(), Bytes::from(vec![1u8])]),
    ];
    for tx in cases.iter() {
        assert_eq!(config(tx, Vec::new()).message(), Ok(message_by_streaming_hasher(tx, &lock())));
    }
}

#[test]
fn message_depends_on_the_transaction() {
    let one = transaction(2, vec![witness_with_types()]);
    let other = transaction(3, vec![witness_with_types()]);
    assert_ne!(config(&one, Vec::new()).message(), config(&other, Vec::new()).message());
}

#[test]
fn message_refuses_bytes_that_are_no_transaction() {
    let broken = MultisigConfig { transaction: vec![1, 2, 3], lock: lock(), signatures: Vec::new() };
    assert_eq!(broken.message(), Err(MultisigError::MalformedTransaction));
    let empty = MultisigConfig { transaction: Vec::new(), lock: lock(), signatures: Vec::new() };
    assert_eq!(empty.message(), Err(MultisigError::MalformedTransaction));
}

#[test]
fn signed_transaction_carries_the_signatures() {
    let tx = transaction(2, vec![witness_with_types(), Bytes::from(vec![4u8, 5])]);
    let encoded = config(&tx, three_signatures()).signed_transaction().unwrap();
    let signed = packed::Transaction::from_slice(&encoded).unwrap().into_view();
    assert_eq!(signed.hash(), tx.clone().into_view().hash());
    assert_eq!(signed.inputs().len(), 2);
    assert_eq!(signed.witnesses().len(), 2);
    assert_eq!(signed.witnesses().get(1).unwrap().raw_data().to_vec(), vec![4u8, 5]);
    let first = signed.witnesses().get(0).unwrap().raw_data().to_vec();
    let args = WitnessArgs::from_slice(&first).unwrap();
    let mut payload = lock().to_multisig_script().unwrap();
    for signature in three_signatures() {
        payload.extend_from_slice(&signature);
    }
    assert_eq!(args.lock, Some(payload));
    assert_eq!(args.input_type, Some(vec![1, 2, 3]));
    assert_eq!(args.output_type, None);
}

#[test]
fn signed_transaction_has_the_message_of_the_draft() {
    let tx = transaction(2, vec![witness_with_types(), Bytes::from(vec![4u8, 5])]);
    let message = config(&tx, Vec::new()).message().unwrap();
    let encoded = config(&tx, three_signatures()).signed_transaction().unwrap();
    let again = MultisigConfig { transaction: encoded, lock: lock(), signatures: Vec::new() };
    assert_eq!(again.message(), Ok(message));
}

#[test]
fn signature_length_is_reported_before_the_transaction() {
    let broken = MultisigConfig {
        transaction: vec![1, 2, 3],
        lock: lock(),
        signatures: vec![vec![0; 65], vec![0; 66]],
    };
    assert_eq!(
        broken.signed_transaction(),
        Err(MultisigError::SignatureLengthMismatch { index: 1, length: 66 })
    );
    let sized = MultisigConfig { transaction: vec![1, 2, 3], lock: lock(), signatures: three_signatures() };
    assert_eq!(sized.signed_transaction(), Err(MultisigError::MalformedTransaction));
}

#[test]
fn signing_needs_as_many_signatures_as_required() {
    let tx = transaction(2, vec![witness_with_types()]);
    let mut two = three_signatures();
    two.pop();
    assert_eq!(
        config(&tx, two).signed_transaction(),
        Err(MultisigError::SignatureCountMismatch { expected: 3, actual: 2 })
    );
}

#[test]
fn witness_arguments_match_the_ledger_encoding() {
    let args = WitnessArgs {
        lock: Some(vec![9, 9]),
        input_type: Some(vec![1, 2, 3]),
        output_type: None,
    };
    assert_eq!(args.to_bytes().unwrap(), witness_with_types().to_vec());
    assert_eq!(WitnessArgs::from_slice(&witness_with_types()), Some(args));
    assert_eq!(
        WitnessArgs::empty().to_bytes().unwrap(),
        packed::WitnessArgs::default().as_bytes().to_vec()
    );
    let full = WitnessArgs {
        lock: Some(Vec::new()),
        input_type: None,
        output_type: Some(vec![7; 300]),
    };
    let bytes = full.to_bytes().unwrap();
    assert_eq!(bytes.len(), 16 + 4 + 4 + 300);
    assert_eq!(WitnessArgs::from_slice(&bytes), Some(full));
}

#[test]
fn witness_arguments_refuse_broken_framing() {
    assert_eq!(WitnessArgs::from_slice(&[]), None);
    assert_eq!(WitnessArgs::from_slice(&[16, 0, 0, 0]), None);
    let good = witness_with_types().to_vec();
    let mut longer = good.clone();
    longer.push(0);
    assert_eq!(WitnessArgs::from_slice(&longer), None);
    let mut offsets = good.clone();
    offsets[8] = 30;
    assert_eq!(WitnessArgs::from_slice(&offsets), None);
    let mut field = good.clone();
    field[16] = 3;
    assert_eq!(WitnessArgs::from_slice(&field), None);
    let mut first = good;
    first[4] = 12;
    assert_eq!(WitnessArgs::from_slice(&first), None);
}
