use ckb_capsule::config::lock::{
    Lock, LockError, MultisigLock, Script, ScriptHashType,
};
use ckb_capsule::tool::multisig::{
    calculate_multisig_tx_message, calculate_tx_message, put_lock_on_tx,
    put_signatures_on_multisig_tx, DraftTransaction, MultisigError, SIGNATURE_SIZE,
};
use ckb_capsule::tool::witness::WitnessArgs;

fn five_hashes() -> Vec<Vec<u8>> {
    (0u8..5).map(|k| vec![k + 1; 20]).collect()
}

fn policy(first_n: u8, n: u8, hashes: Vec<Vec<u8>>) -> MultisigLock {
    MultisigLock {
        code_hash: [0x5c; 32],
        hash_type: ScriptHashType::Type,
        format_version: 0,
        require_first_n_keys: first_n,
        require_n_keys: n,
        pubkey_hash_list: hashes,
    }
}

fn empty_witness() -> Vec<u8> {
    vec![16, 0, 0, 0, 16, 0, 0, 0, 16, 0, 0, 0, 16, 0, 0, 0]
}

fn draft(input_count: usize, witnesses: Vec<Vec<u8>>) -> DraftTransaction {
    let mut hash = [0u8; 32];
    for (i, byte) in hash.iter_mut().enumerate() {
        *byte = i as u8;
    }
    DraftTransaction { hash, input_count, witnesses }
}

fn three_signatures() -> Vec<Vec<u8>> {
    (0u8..3).map(|k| vec![0xa0 + k; SIGNATURE_SIZE]).collect()
}

#[test]
fn encodes_header_then_hashes() {
    let script = policy(2, 3, five_hashes()).to_multisig_script().unwrap();
    assert_eq!(script.len(), 4 + 5 * 20);
    assert_eq!(&script[..4], &[0, 2, 3, 5]);
    for k in 0..5 {
        assert_eq!(&script[4 + 20 * k..24 + 20 * k], &[k as u8 + 1; 20][..]);
    }
}

#[test]
fn encodes_empty_policy() {
    let script = policy(0, 0, Vec::new()).to_multisig_script().unwrap();
    assert_eq!(script, vec![0, 0, 0, 0]);
}

#[test]
fn encodes_255_hashes_and_refuses_256() {
    let many: Vec<Vec<u8>> = (0..255).map(|k| vec![k as u8; 20]).collect();
    let script = policy(1, 1, many.clone()).to_multisig_script().unwrap();
    assert_eq!(script.len(), 4 + 255 * 20);
    assert_eq!(script[3], 255);
    let mut more = many;
    more.push(vec![0; 20]);
    assert_eq!(
        policy(1, 1, more).to_multisig_script(),
        Err(LockError::PolicyTooLarge { count: 256 })
    );
}

#[test]
fn refuses_first_hash_of_wrong_length() {
    let mut hashes = five_hashes();
    hashes[1] = vec![7; 19];
    hashes[3] = vec![7; 21];
    assert_eq!(
        policy(2, 3, hashes).to_multisig_script(),
        Err(LockError::PubkeyHashLength { index: 1, length: 19 })
    );
}

#[test]
fn refuses_thresholds_out_of_order() {
    assert_eq!(
        policy(4, 3, five_hashes()).to_multisig_script(),
        Err(LockError::PolicyInconsistent)
    );
    assert_eq!(
        policy(2, 6, five_hashes()).to_multisig_script(),
        Err(LockError::PolicyInconsistent)
    );
    assert!(policy(5, 5, five_hashes()).to_multisig_script().is_ok());
}

#[test]
fn too_large_is_reported_before_hash_length() {
    let mut hashes: Vec<Vec<u8>> = (0..256).map(|_| vec![0; 20]).collect();
    hashes[0] = vec![0; 3];
    assert_eq!(
        policy(9, 1, hashes).to_multisig_script(),
        Err(LockError::PolicyTooLarge { count: 256 })
    );
}

#[test]
fn policy_round_trips_through_its_encoding() {
    let lock = policy(2, 3, five_hashes());
    let script = lock.to_multisig_script().unwrap();
    let back = MultisigLock::from_multisig_script(lock.code_hash, lock.hash_type, &script);
    assert_eq!(back, Ok(lock));
}

#[test]
fn decoding_refuses_bad_framing() {
    let code = [0u8; 32];
    assert_eq!(
        MultisigLock::from_multisig_script(code, ScriptHashType::Data, &[0, 0, 0]),
        Err(LockError::MalformedScript { length: 3 })
    );
    let mut script = policy(2, 3, five_hashes()).to_multisig_script().unwrap();
    script.pop();
    assert_eq!(
        MultisigLock::from_multisig_script(code, ScriptHashType::Data, &script),
        Err(LockError::MalformedScript { length: 103 })
    );
    let mut bad = vec![0u8, 2, 1, 1];
    bad.extend_from_slice(&[9; 20]);
    assert_eq!(
        MultisigLock::from_multisig_script(code, ScriptHashType::Data, &bad),
        Err(LockError::PolicyInconsistent)
    );
}

#[test]
fn script_hash_is_head_of_ledger_hash() {
    let hash = policy(2, 3, five_hashes()).script_hash().unwrap();
    assert_eq!(
        hash,
        [31, 205, 27, 205, 125, 114, 51, 17, 21, 102, 179, 220, 117, 140, 2, 202, 17, 128, 48, 107]
    );
}

#[test]
fn script_hash_is_the_same_each_time() {
    let lock = policy(2, 3, five_hashes());
    assert_eq!(lock.script_hash(), lock.script_hash());
    assert_eq!(lock.script_hash(), lock.clone().script_hash());
}

#[test]
fn script_hash_changes_with_one_hash_byte() {
    let mut hashes = five_hashes();
    hashes[2][19] = 4;
    let changed = policy(2, 3, hashes).script_hash().unwrap();
    assert_eq!(
        changed,
        [61, 205, 189, 153, 152, 183, 34, 133, 215, 210, 46, 166, 241, 89, 32, 214, 85, 85, 234, 167]
    );
    assert_ne!(changed, policy(2, 3, five_hashes()).script_hash().unwrap());
}

#[test]
fn multisig_lock_becomes_script_with_hash_as_args() {
    let lock = policy(2, 3, five_hashes());
    let hash = lock.script_hash().unwrap();
    let script = lock.clone().try_into().unwrap();
    assert_eq!(
        script,
        Script { code_hash: lock.code_hash, hash_type: ScriptHashType::Type, args: hash.to_vec() }
    );
}

#[test]
fn lock_resolves_to_exactly_one_script() {
    let raw = Script { code_hash: [1; 32], hash_type: ScriptHashType::Data, args: vec![1, 2, 3] };
    let multisig = policy(2, 3, five_hashes());
    let both = Lock { raw: Some(raw.clone()), multisig: Some(multisig.clone()) };
    assert_eq!(both.try_into(), Err(LockError::ConflictingLocks));
    let neither = Lock { raw: None, multisig: None };
    assert_eq!(neither.try_into(), Err(LockError::MissingLock));
    let only_raw = Lock { raw: Some(raw.clone()), multisig: None };
    assert_eq!(only_raw.try_into(), Ok(raw));
    let only_multisig = Lock { raw: None, multisig: Some(multisig.clone()) };
    assert_eq!(only_multisig.try_into(), multisig.try_into());
    let broken = Lock { raw: None, multisig: Some(policy(3, 2, five_hashes())) };
    assert_eq!(broken.try_into(), Err(LockError::PolicyInconsistent));
}

#[test]
fn message_of_two_inputs_and_one_witness() {
    let tx = draft(2, vec![empty_witness()]);
    let lock = policy(2, 3, five_hashes());
    let message = calculate_multisig_tx_message(&tx, &lock).unwrap();
    assert_eq!(
        message,
        [
            26, 161, 4, 6, 17, 46, 34, 131, 164, 204, 1, 111, 28, 252, 80, 60,
            190, 201, 135, 164, 168, 20, 244, 205, 208, 129, 237, 11, 219, 5, 65, 153
        ]
    );
    assert_eq!(calculate_multisig_tx_message(&tx, &lock), Ok(message));
}

#[test]
fn message_treats_absent_witnesses_as_empty() {
    let lock = policy(2, 3, five_hashes());
    let absent = calculate_multisig_tx_message(&draft(2, Vec::new()), &lock).unwrap();
    let given = calculate_multisig_tx_message(&draft(2, vec![empty_witness()]), &lock).unwrap();
    let padded =
        calculate_multisig_tx_message(&draft(2, vec![empty_witness(), Vec::new()]), &lock).unwrap();
    assert_eq!(absent, given);
    assert_eq!(given, padded);
}

#[test]
fn message_covers_witnesses_beyond_the_inputs() {
    let lock = policy(2, 3, five_hashes());
    let witness = vec![29, 0, 0, 0, 16, 0, 0, 0, 22, 0, 0, 0, 29, 0, 0, 0, 2, 0, 0, 0, 9, 9, 3, 0,
        0, 0, 1, 2, 3];
    let tx = draft(1, vec![witness, Vec::new(), vec![7, 8]]);
    assert_eq!(
        calculate_multisig_tx_message(&tx, &lock).unwrap(),
        [
            85, 16, 36, 186, 76, 178, 189, 96, 1, 229, 62, 36, 215, 77, 207, 230,
            29, 91, 204, 49, 199, 32, 107, 54, 190, 223, 244, 238, 202, 68, 67, 135
        ]
    );
}

#[test]
fn message_changes_with_a_later_witness() {
    let lock = policy(2, 3, five_hashes());
    let one = draft(2, vec![empty_witness(), vec![1, 2, 3]]);
    let other = draft(2, vec![empty_witness(), vec![1, 2, 4]]);
    assert_ne!(
        calculate_multisig_tx_message(&one, &lock).unwrap(),
        calculate_multisig_tx_message(&other, &lock).unwrap()
    );
}

#[test]
fn message_does_not_change_with_the_signatures() {
    let lock = policy(2, 3, five_hashes());
    let tx = draft(2, vec![empty_witness(), vec![1, 2, 3]]);
    let message = calculate_multisig_tx_message(&tx, &lock).unwrap();
    let signed = put_signatures_on_multisig_tx(&tx, &lock, &three_signatures()).unwrap();
    assert_eq!(calculate_multisig_tx_message(&signed, &lock), Ok(message));
    let mut others = three_signatures();
    others[2][64] = 1;
    let resigned = put_signatures_on_multisig_tx(&tx, &lock, &others).unwrap();
    assert_ne!(resigned.witnesses[0], signed.witnesses[0]);
    assert_eq!(calculate_multisig_tx_message(&resigned, &lock), Ok(message));
}

#[test]
fn message_refuses_bad_policy_and_bad_witness() {
    let tx = draft(1, vec![empty_witness()]);
    assert_eq!(
        calculate_multisig_tx_message(&tx, &policy(3, 2, five_hashes())),
        Err(MultisigError::Lock(LockError::PolicyInconsistent))
    );
    let lock = policy(2, 3, five_hashes());
    assert_eq!(
        calculate_multisig_tx_message(&draft(1, vec![Vec::new()]), &lock),
        Err(MultisigError::MalformedWitness)
    );
    let mut cut = empty_witness();
    cut[0] = 17;
    assert_eq!(
        calculate_multisig_tx_message(&draft(1, vec![cut]), &lock),
        Err(MultisigError::MalformedWitness)
    );
}

#[test]
fn three_signatures_fill_the_first_witness() {
    let lock = policy(2, 3, five_hashes());
    let tx = draft(2, vec![empty_witness()]);
    let signed = put_signatures_on_multisig_tx(&tx, &lock, &three_signatures()).unwrap();
    assert_eq!(signed.hash, tx.hash);
    assert_eq!(signed.input_count, 2);
    assert_eq!(signed.witnesses.len(), 2);
    assert_eq!(signed.witnesses[1], Vec::<u8>::new());
    let first = &signed.witnesses[0];
    assert_eq!(first.len(), 16 + 4 + 104 + 3 * 65);
    assert_eq!(
        &first[..24],
        &[63, 1, 0, 0, 16, 0, 0, 0, 63, 1, 0, 0, 63, 1, 0, 0, 43, 1, 0, 0, 0, 2, 3, 5]
    );
    let args = WitnessArgs::from_slice(first).unwrap();
    let payload = args.lock.unwrap();
    let script = lock.to_multisig_script().unwrap();
    assert_eq!(payload.len(), script.len() + 3 * 65);
    assert_eq!(&payload[..104], &script[..]);
    assert_eq!(&payload[104..169], &[0xa0; 65][..]);
    assert_eq!(&payload[169..234], &[0xa1; 65][..]);
    assert_eq!(&payload[234..], &[0xa2; 65][..]);
    assert_eq!(args.input_type, None);
    assert_eq!(args.output_type, None);
}

#[test]
fn signing_keeps_the_other_fields_and_witnesses() {
    let lock = policy(1, 1, five_hashes());
    let witness = vec![29, 0, 0, 0, 16, 0, 0, 0, 22, 0, 0, 0, 29, 0, 0, 0, 2, 0, 0, 0, 9, 9, 3, 0,
        0, 0, 1, 2, 3];
    let tx = draft(1, vec![witness, vec![5], vec![6, 7]]);
    let signed = put_signatures_on_multisig_tx(&tx, &lock, &[vec![1; 65]]).unwrap();
    assert_eq!(signed.witnesses.len(), 3);
    assert_eq!(signed.witnesses[1], vec![5]);
    assert_eq!(signed.witnesses[2], vec![6, 7]);
    let args = WitnessArgs::from_slice(&signed.witnesses[0]).unwrap();
    assert_eq!(args.input_type, Some(vec![1, 2, 3]));
    assert_eq!(args.output_type, None);
    assert_eq!(args.lock.unwrap().len(), 104 + 65);
}

#[test]
fn signing_without_witnesses_makes_the_first() {
    let lock = policy(0, 0, Vec::new());
    let signed = put_signatures_on_multisig_tx(&draft(0, Vec::new()), &lock, &[]).unwrap();
    assert_eq!(signed.witnesses.len(), 1);
    let args = WitnessArgs::from_slice(&signed.witnesses[0]).unwrap();
    assert_eq!(args.lock, Some(vec![0, 0, 0, 0]));
}

#[test]
fn signature_of_wrong_length_is_refused() {
    let lock = policy(2, 3, five_hashes());
    let tx = draft(2, vec![empty_witness()]);
    let mut short = three_signatures();
    short[1].pop();
    assert_eq!(
        put_signatures_on_multisig_tx(&tx, &lock, &short),
        Err(MultisigError::SignatureLengthMismatch { index: 1, length: 64 })
    );
    let mut long = three_signatures();
    long[2].push(0);
    assert_eq!(
        put_signatures_on_multisig_tx(&tx, &lock, &long),
        Err(MultisigError::SignatureLengthMismatch { index: 2, length: 66 })
    );
}

#[test]
fn signature_length_is_looked_at_first() {
    let tx = draft(2, vec![Vec::new()]);
    let bad_policy = policy(9, 1, five_hashes());
    assert_eq!(
        put_signatures_on_multisig_tx(&tx, &bad_policy, &[vec![0; 1]]),
        Err(MultisigError::SignatureLengthMismatch { index: 0, length: 1 })
    );
}

#[test]
fn signature_count_must_be_what_the_policy_requires() {
    let lock = policy(2, 3, five_hashes());
    let tx = draft(2, vec![empty_witness()]);
    let mut two = three_signatures();
    two.pop();
    assert_eq!(
        put_signatures_on_multisig_tx(&tx, &lock, &two),
        Err(MultisigError::SignatureCountMismatch { expected: 3, actual: 2 })
    );
    let mut four = three_signatures();
    four.push(vec![0; 65]);
    assert_eq!(
        put_signatures_on_multisig_tx(&tx, &lock, &four),
        Err(MultisigError::SignatureCountMismatch { expected: 3, actual: 4 })
    );
}

#[test]
fn signing_refuses_bad_policy_and_bad_witness() {
    let tx = draft(2, vec![empty_witness()]);
    assert_eq!(
        put_signatures_on_multisig_tx(&tx, &policy(3, 2, five_hashes()), &three_signatures()),
        Err(MultisigError::Lock(LockError::PolicyInconsistent))
    );
    let lock = policy(2, 3, five_hashes());
    assert_eq!(
        put_signatures_on_multisig_tx(&draft(2, vec![vec![1, 2]]), &lock, &three_signatures()),
        Err(MultisigError::MalformedWitness)
    );
}

#[test]
fn message_with_the_placeholder_is_the_cosigners_message() {
    let lock = policy(2, 3, five_hashes());
    let tx = draft(2, vec![empty_witness(), vec![1, 2, 3]]);
    assert_eq!(
        calculate_tx_message(&tx, vec![0; 5 * 65]),
        calculate_multisig_tx_message(&tx, &lock)
    );
    assert_ne!(
        calculate_tx_message(&tx, vec![0; 3 * 65]),
        calculate_multisig_tx_message(&tx, &lock)
    );
    assert_ne!(
        calculate_tx_message(&tx, vec![1; 5 * 65]),
        calculate_multisig_tx_message(&tx, &lock)
    );
}

#[test]
fn installed_lock_does_not_change_the_message() {
    let tx = draft(2, vec![empty_witness(), vec![1, 2, 3]]);
    let message = calculate_tx_message(&tx, vec![0; 65]).unwrap();
    let locked = put_lock_on_tx(&tx, vec![7; 65]).unwrap();
    assert_eq!(WitnessArgs::from_slice(&locked.witnesses[0]).unwrap().lock, Some(vec![7; 65]));
    assert_eq!(locked.witnesses[1], vec![1, 2, 3]);
    assert_eq!(calculate_tx_message(&locked, vec![0; 65]), Ok(message));
    assert_eq!(
        put_lock_on_tx(&draft(1, vec![vec![9]]), vec![7; 65]),
        Err(MultisigError::MalformedWitness)
    );
    assert_eq!(
        calculate_tx_message(&draft(1, vec![vec![9]]), vec![0; 65]),
        Err(MultisigError::MalformedWitness)
    );
}
