//! The message that the cosigners of a multisig lock sign, and the witness
//! that carries their signatures.

use crate::bytes::{
    append_bytes,
    append_length_prefixed,
    append_zeros,
    byte_strings,
    lemma_headed_stream_injective,
    lemma_length_prefixed_all_front,
    length_prefixed,
    length_prefixed_all,
    zeros,
};
use crate::config::lock::{LockError, MultisigLock, MultisigLockView};
use crate::hash::{blake2b_256, blake2b_256_digest};
use crate::tool::witness::{
    lemma_encoding_len,
    lemma_witness_round_trip,
    witness_fields,
    witness_framed,
    WitnessArgs,
    WitnessArgsView,
};
use vstd::prelude::*;
use vstd::slice::slice_to_vec;

verus! {

/// Number of bytes in one signature: 64 of the signature proper and one to
/// recover the key.
pub const SIGNATURE_SIZE: usize = 65;

/// Why a message could not be computed or signatures could not be installed.
#[derive(Clone, Copy, Debug, PartialEq, Eq, Structural)]
pub enum MultisigError {
    /// The policy cannot be encoded.
    Lock(LockError),
    /// The signature at `index` has `length` bytes, not 65.
    SignatureLengthMismatch { index: usize, length: usize },
    /// The policy asks for `expected` signatures and `actual` were given.
    SignatureCountMismatch { expected: usize, actual: usize },
    /// The first witness is not the encoding of witness arguments.
    MalformedWitness,
    /// The first witness would be larger than its encoding can state.
    WitnessTooLarge,
    /// The bytes are not the encoding of a transaction.
    MalformedTransaction,
}

/// What signing needs of a transaction: its hash, which does not cover the
/// witnesses, the number of its inputs, and its witnesses.
#[derive(Clone, Debug, PartialEq, Eq)]
pub struct DraftTransaction {
    pub hash: [u8; 32],
    pub input_count: usize,
    pub witnesses: Vec<Vec<u8>>,
}

/// What a [`DraftTransaction`] holds.
pub struct DraftTransactionView {
    pub hash: Seq<u8>,
    pub input_count: nat,
    pub witnesses: Seq<Seq<u8>>,
}

impl View for DraftTransaction {
    type V = DraftTransactionView;

    open spec fn view(&self) -> DraftTransactionView {
        DraftTransactionView {
            hash: self.hash@,
            input_count: self.input_count as nat,
            witnesses: byte_strings(self.witnesses@),
        }
    }
}

impl DraftTransactionView {
    /// The witness at `index`, empty where the transaction has none there.
    pub open spec fn witness_or_empty(self, index: int) -> Seq<u8> {
        if 0 <= index < self.witnesses.len() {
            self.witnesses[index]
        } else {
            Seq::empty()
        }
    }

    /// Number of places that hold an input or a witness.
    pub open spec fn slots(self) -> nat {
        if self.witnesses.len() > self.input_count {
            self.witnesses.len()
        } else {
            self.input_count
        }
    }

    /// The arguments of the first witness: none where the transaction has no
    /// witness, `None` where its first witness does not encode any.
    pub open spec fn first_witness(self) -> Option<WitnessArgsView> {
        if self.witnesses.len() == 0 {
            Some(WitnessArgsView::empty())
        } else if witness_framed(self.witnesses[0]) {
            Some(witness_fields(self.witnesses[0]))
        } else {
            None
        }
    }

    /// The witnesses of all places but the first, empty where absent.
    pub open spec fn later_witnesses(self) -> Seq<Seq<u8>> {
        Seq::new(
            if self.slots() > 0 {
                (self.slots() - 1) as nat
            } else {
                0
            },
            |i: int| self.witness_or_empty(i + 1),
        )
    }
}

/// The first witness of `tx` with `lock` as its lock.
pub open spec fn first_witness_with(tx: DraftTransactionView, lock: Seq<u8>) -> WitnessArgsView
    recommends
        tx.first_witness() is Some,
{
    tx.first_witness().unwrap().with_lock(lock)
}

/// The bytes that are hashed into a message: the transaction's hash, the
/// first witness with `lock` as its lock behind its length, then every later
/// witness behind its length.
pub open spec fn message_preimage(tx: DraftTransactionView, lock: Seq<u8>) -> Seq<u8>
    recommends
        tx.first_witness() is Some,
{
    tx.hash + length_prefixed(first_witness_with(tx, lock).encoding()) + length_prefixed_all(
        tx.later_witnesses(),
    )
}

/// The message of `tx` when `lock` stands in for what unlocks its first input.
pub open spec fn message_digest(tx: DraftTransactionView, lock: Seq<u8>) -> Seq<u8>
    recommends
        tx.first_witness() is Some,
{
    blake2b_256_digest(message_preimage(tx, lock))
}

/// The transaction with `lock` installed in its first witness. It has a
/// witness for each of its places, and at least one; the witnesses after the
/// first are those it had, empty where it had none.
pub open spec fn with_first_lock(tx: DraftTransactionView, lock: Seq<u8>) -> DraftTransactionView
    recommends
        tx.first_witness() is Some,
{
    DraftTransactionView {
        hash: tx.hash,
        input_count: tx.input_count,
        witnesses: seq![first_witness_with(tx, lock).encoding()] + tx.later_witnesses(),
    }
}

/// The lock that stands in for the signatures while the message is
/// computed: 65 zero bytes for each key of the policy.
pub open spec fn placeholder_lock(policy: MultisigLockView) -> Seq<u8> {
    zeros(policy.pubkey_hash_list.len() * SIGNATURE_SIZE as nat)
}

/// The first witness with the placeholder as its lock.
pub open spec fn blanked_first_witness(
    tx: DraftTransactionView,
    policy: MultisigLockView,
) -> WitnessArgsView
    recommends
        tx.first_witness() is Some,
{
    first_witness_with(tx, placeholder_lock(policy))
}

/// The bytes that are hashed into the message that the cosigners sign.
pub open spec fn signing_preimage(tx: DraftTransactionView, policy: MultisigLockView) -> Seq<u8>
    recommends
        tx.first_witness() is Some,
{
    message_preimage(tx, placeholder_lock(policy))
}

/// The message that every cosigner signs.
pub open spec fn signing_message(tx: DraftTransactionView, policy: MultisigLockView) -> Seq<u8>
    recommends
        tx.first_witness() is Some,
{
    message_digest(tx, placeholder_lock(policy))
}

/// The message can be computed: the policy can be encoded, the first
/// witness encodes arguments, and with the placeholder as its lock it is not
/// too large.
pub open spec fn message_owed(tx: DraftTransactionView, policy: MultisigLockView) -> bool {
    &&& policy.valid()
    &&& tx.first_witness() is Some
    &&& blanked_first_witness(tx, policy).fits()
}

/// `error` is the reason for which the message cannot be computed. The
/// policy is looked at first, then the first witness.
pub open spec fn message_refused(
    tx: DraftTransactionView,
    policy: MultisigLockView,
    error: MultisigError,
) -> bool {
    match error {
        MultisigError::Lock(error) => policy.rejected_with(error),
        MultisigError::MalformedWitness => {
            &&& policy.valid()
            &&& tx.first_witness() is None
        },
        MultisigError::WitnessTooLarge => {
            &&& policy.valid()
            &&& tx.first_witness() is Some
            &&& !blanked_first_witness(tx, policy).fits()
        },
        _ => false,
    }
}

/// The arguments of the first witness of `tx`.
fn first_witness_args(tx: &DraftTransaction) -> (result: Option<WitnessArgs>)
    ensures
        match result {
            Some(args) => tx@.first_witness() == Some(args@),
            None => tx@.first_witness() is None,
        },
{
    if tx.witnesses.len() == 0 {
        Some(WitnessArgs::empty())
    } else {
        assert(tx@.witnesses[0] == tx.witnesses@[0]@);
        WitnessArgs::from_slice(tx.witnesses[0].as_slice())
    }
}

/// Number of places of `tx` that hold an input or a witness.
fn slot_count(tx: &DraftTransaction) -> (slots: usize)
    ensures
        slots == tx@.slots(),
{
    if tx.witnesses.len() > tx.input_count {
        tx.witnesses.len()
    } else {
        tx.input_count
    }
}

/// The witness of `tx` at `index`, empty where it has none there.
fn witness_or_empty(tx: &DraftTransaction, index: usize) -> (witness: Vec<u8>)
    ensures
        witness@ == tx@.witness_or_empty(index as int),
{
    if index < tx.witnesses.len() {
        assert(tx@.witnesses[index as int] == tx.witnesses@[index as int]@);
        slice_to_vec(tx.witnesses[index].as_slice())
    } else {
        Vec::new()
    }
}

/// Computes the message of `tx` when `lock` stands in for what unlocks its
/// first input: the digest of the transaction's hash, of its first witness
/// with `lock` as its lock, and of every later witness.
pub fn calculate_tx_message(tx: &DraftTransaction, lock: Vec<u8>) -> (result: Result<
    [u8; 32],
    MultisigError,
>)
    ensures
        match result {
            Ok(message) => {
                &&& tx@.first_witness() is Some
                &&& first_witness_with(tx@, lock@).fits()
                &&& message@ == message_digest(tx@, lock@)
            },
            Err(MultisigError::MalformedWitness) => tx@.first_witness() is None,
            Err(MultisigError::WitnessTooLarge) => {
                &&& tx@.first_witness() is Some
                &&& !first_witness_with(tx@, lock@).fits()
            },
            Err(_) => false,
        },
{
    let first_witness = match first_witness_args(tx) {
        Some(args) => args,
        None => {
            return Err(MultisigError::MalformedWitness);
        },
    };
    let blanked = WitnessArgs {
        lock: Some(lock),
        input_type: first_witness.input_type,
        output_type: first_witness.output_type,
    };
    assert(blanked@ == first_witness_with(tx@, lock@));
    let first_bytes = match blanked.to_bytes() {
        Some(bytes) => bytes,
        None => {
            return Err(MultisigError::WitnessTooLarge);
        },
    };
    let mut preimage: Vec<u8> = Vec::new();
    append_bytes(&mut preimage, tx.hash.as_slice());
    append_length_prefixed(&mut preimage, first_bytes.as_slice());
    let ghost head = preimage@;
    let ghost later = tx@.later_witnesses();
    let slots: usize = slot_count(tx);
    let mut n: usize = 1;
    proof {
        assert(later.subrange(0, 0) =~= Seq::<Seq<u8>>::empty());
        assert(head + length_prefixed_all(later.subrange(0, 0)) =~= head);
    }
    while n < slots
        invariant
            1 <= n,
            slots == tx@.slots(),
            later == tx@.later_witnesses(),
            n <= slots || n == 1,
            preimage@ == head + length_prefixed_all(later.subrange(0, n - 1)),
        decreases slots - n,
    {
        let witness = witness_or_empty(tx, n);
        proof {
            let done = later.subrange(0, n - 1);
            let next = later.subrange(0, n as int);
            assert(next.drop_last() =~= done);
            assert(next.last() == witness@);
            assert(head + (length_prefixed_all(done) + length_prefixed(witness@)) =~= (head
                + length_prefixed_all(done)) + length_prefixed(witness@));
        }
        append_length_prefixed(&mut preimage, witness.as_slice());
        n = n + 1;
    }
    assert(later.subrange(0, n - 1) =~= later);
    Ok(blake2b_256(preimage.as_slice()))
}

/// Installs `lock` in the first witness of `tx` as what unlocks its first
/// input. The other arguments of that witness and the other witnesses stay
/// as they are; a place without a witness gets an empty one.
pub fn put_lock_on_tx(tx: &DraftTransaction, lock: Vec<u8>) -> (result: Result<
    DraftTransaction,
    MultisigError,
>)
    ensures
        match result {
            Ok(locked) => {
                &&& tx@.first_witness() is Some
                &&& first_witness_with(tx@, lock@).fits()
                &&& locked@ == with_first_lock(tx@, lock@)
            },
            Err(MultisigError::MalformedWitness) => tx@.first_witness() is None,
            Err(MultisigError::WitnessTooLarge) => {
                &&& tx@.first_witness() is Some
                &&& !first_witness_with(tx@, lock@).fits()
            },
            Err(_) => false,
        },
{
    let first_witness = match first_witness_args(tx) {
        Some(args) => args,
        None => {
            return Err(MultisigError::MalformedWitness);
        },
    };
    let locked = WitnessArgs {
        lock: Some(lock),
        input_type: first_witness.input_type,
        output_type: first_witness.output_type,
    };
    assert(locked@ == first_witness_with(tx@, lock@));
    let first_bytes = match locked.to_bytes() {
        Some(bytes) => bytes,
        None => {
            return Err(MultisigError::WitnessTooLarge);
        },
    };
    let ghost later = tx@.later_witnesses();
    let ghost first = first_bytes@;
    let mut witnesses: Vec<Vec<u8>> = Vec::new();
    witnesses.push(first_bytes);
    let slots: usize = slot_count(tx);
    let mut n: usize = 1;
    assert(byte_strings(witnesses@) =~= seq![first] + later.subrange(0, 0));
    while n < slots
        invariant
            1 <= n,
            slots == tx@.slots(),
            later == tx@.later_witnesses(),
            n <= slots || n == 1,
            byte_strings(witnesses@) == seq![first] + later.subrange(0, n - 1),
        decreases slots - n,
    {
        let witness = witness_or_empty(tx, n);
        let ghost before = byte_strings(witnesses@);
        witnesses.push(witness);
        assert(byte_strings(witnesses@) =~= before.push(witness@));
        assert(before.push(witness@) =~= seq![first] + later.subrange(0, n as int));
        n = n + 1;
    }
    assert(later.subrange(0, n - 1) =~= later);
    Ok(DraftTransaction { hash: tx.hash, input_count: tx.input_count, witnesses })
}

/// Computes the message that the cosigners of `multisig_lock` sign to spend
/// the first input of `tx`. The policy must be one that can be encoded; of
/// the policy the message depends only through the number of its keys.
pub fn calculate_multisig_tx_message(tx: &DraftTransaction, multisig_lock: &MultisigLock) -> (result:
    Result<[u8; 32], MultisigError>)
    ensures
        match result {
            Ok(message) => {
                &&& message_owed(tx@, multisig_lock@)
                &&& message@ == signing_message(tx@, multisig_lock@)
            },
            Err(error) => message_refused(tx@, multisig_lock@, error),
        },
{
    if let Err(error) = multisig_lock.to_multisig_script() {
        return Err(MultisigError::Lock(error));
    }
    let mut lock_without_sig: Vec<u8> = Vec::new();
    let sig_len: usize = multisig_lock.pubkey_hash_list.len() * SIGNATURE_SIZE;
    append_zeros(&mut lock_without_sig, sig_len);
    assert(lock_without_sig@ =~= placeholder_lock(multisig_lock@));
    calculate_tx_message(tx, lock_without_sig)
}

/// Every signature has 65 bytes.
pub open spec fn signatures_sized(signatures: Seq<Seq<u8>>) -> bool {
    forall|i: int| 0 <= i < signatures.len() ==> (#[trigger] signatures[i]).len() == SIGNATURE_SIZE
}

/// The lock that unlocks the first input: the encoded policy, then the
/// signatures in their order.
pub open spec fn unlock_payload(policy: MultisigLockView, signatures: Seq<Seq<u8>>) -> Seq<u8> {
    policy.multisig_script() + signatures.flatten()
}

/// The first witness with the signatures installed as its lock.
pub open spec fn signed_first_witness(
    tx: DraftTransactionView,
    policy: MultisigLockView,
    signatures: Seq<Seq<u8>>,
) -> WitnessArgsView
    recommends
        tx.first_witness() is Some,
{
    first_witness_with(tx, unlock_payload(policy, signatures))
}

/// The transaction with the signatures installed in its first witness.
pub open spec fn signed_transaction(
    tx: DraftTransactionView,
    policy: MultisigLockView,
    signatures: Seq<Seq<u8>>,
) -> DraftTransactionView
    recommends
        tx.first_witness() is Some,
{
    with_first_lock(tx, unlock_payload(policy, signatures))
}

/// The signature at `index` is the first that has not 65 bytes, and it has
/// `length` bytes.
pub open spec fn first_missized_at(signatures: Seq<Seq<u8>>, index: usize, length: usize) -> bool {
    &&& index < signatures.len()
    &&& length == signatures[index as int].len()
    &&& length != SIGNATURE_SIZE
    &&& forall|j: int| 0 <= j < index ==> (#[trigger] signatures[j]).len() == SIGNATURE_SIZE
}

/// The signatures can be installed: each has 65 bytes, the policy can be
/// encoded and requires as many as there are, the first witness encodes
/// arguments, and with the signatures as its lock it is not too large.
pub open spec fn signing_owed(
    tx: DraftTransactionView,
    policy: MultisigLockView,
    signatures: Seq<Seq<u8>>,
) -> bool {
    &&& signatures_sized(signatures)
    &&& policy.valid()
    &&& signatures.len() == policy.require_n_keys
    &&& tx.first_witness() is Some
    &&& signed_first_witness(tx, policy, signatures).fits()
}

/// `error` is the reason for which the signatures cannot be installed. The
/// lengths of the signatures are looked at first, in their order; then the
/// policy, the number of signatures, and the first witness.
pub open spec fn signing_refused(
    tx: DraftTransactionView,
    policy: MultisigLockView,
    signatures: Seq<Seq<u8>>,
    error: MultisigError,
) -> bool {
    match error {
        MultisigError::SignatureLengthMismatch { index, length } => first_missized_at(
            signatures,
            index,
            length,
        ),
        MultisigError::Lock(error) => {
            &&& signatures_sized(signatures)
            &&& policy.rejected_with(error)
        },
        MultisigError::SignatureCountMismatch { expected, actual } => {
            &&& signatures_sized(signatures)
            &&& policy.valid()
            &&& expected == policy.require_n_keys
            &&& actual == signatures.len()
            &&& expected != actual
        },
        MultisigError::MalformedWitness => {
            &&& signatures_sized(signatures)
            &&& policy.valid()
            &&& signatures.len() == policy.require_n_keys
            &&& tx.first_witness() is None
        },
        MultisigError::WitnessTooLarge => {
            &&& signatures_sized(signatures)
            &&& policy.valid()
            &&& signatures.len() == policy.require_n_keys
            &&& tx.first_witness() is Some
            &&& !signed_first_witness(tx, policy, signatures).fits()
        },
        MultisigError::MalformedTransaction => false,
    }
}

/// The index and the length of the first signature that has not 65 bytes.
pub(crate) fn first_missized_signature(signatures: &[Vec<u8>]) -> (result: Option<(usize, usize)>)
    ensures
        match result {
            Some((index, length)) => first_missized_at(byte_strings(signatures@), index, length),
            None => signatures_sized(byte_strings(signatures@)),
        },
{
    let mut i: usize = 0;
    while i < signatures.len()
        invariant
            i <= signatures@.len(),
            forall|j: int| 0 <= j < i ==> (#[trigger] signatures@[j])@.len() == SIGNATURE_SIZE,
        decreases signatures@.len() - i,
    {
        let length: usize = signatures[i].len();
        if length != SIGNATURE_SIZE {
            return Some((i, length));
        }
        i = i + 1;
    }
    None
}

/// Installs the signatures of the cosigners in the first witness of `tx`.
///
/// The signatures are looked at first: each must have 65 bytes. Then the
/// policy must be one that can be encoded, and there must be as many
/// signatures as it requires.
pub fn put_signatures_on_multisig_tx(
    tx: &DraftTransaction,
    multisig_lock: &MultisigLock,
    signatures: &[Vec<u8>],
) -> (result: Result<DraftTransaction, MultisigError>)
    ensures
        match result {
            Ok(signed) => {
                &&& signing_owed(tx@, multisig_lock@, byte_strings(signatures@))
                &&& signed@ == signed_transaction(tx@, multisig_lock@, byte_strings(signatures@))
            },
            Err(error) => signing_refused(tx@, multisig_lock@, byte_strings(signatures@), error),
        },
{
    let ghost sigs = byte_strings(signatures@);
    if let Some((index, length)) = first_missized_signature(signatures) {
        return Err(MultisigError::SignatureLengthMismatch { index, length });
    }
    let mut unlock_args = match multisig_lock.to_multisig_script() {
        Ok(script) => script,
        Err(error) => {
            return Err(MultisigError::Lock(error));
        },
    };
    let expected: usize = multisig_lock.require_n_keys as usize;
    if signatures.len() != expected {
        return Err(MultisigError::SignatureCountMismatch { expected, actual: signatures.len() });
    }
    let ghost script = unlock_args@;
    let mut i: usize = 0;
    proof {
        assert(sigs.subrange(0, 0) =~= Seq::<Seq<u8>>::empty());
        assert(script + sigs.subrange(0, 0).flatten() =~= script);
    }
    while i < signatures.len()
        invariant
            i <= signatures@.len(),
            sigs == byte_strings(signatures@),
            unlock_args@ == script + sigs.subrange(0, i as int).flatten(),
        decreases signatures@.len() - i,
    {
        proof {
            let done = sigs.subrange(0, i as int);
            done.lemma_flatten_push(sigs[i as int]);
            assert(done.push(sigs[i as int]) =~= sigs.subrange(0, i + 1));
            assert(script + (done.flatten() + sigs[i as int]) =~= (script + done.flatten())
                + sigs[i as int]);
        }
        append_bytes(&mut unlock_args, signatures[i].as_slice());
        i = i + 1;
    }
    assert(sigs.subrange(0, signatures@.len() as int) =~= sigs);
    put_lock_on_tx(tx, unlock_args)
}

impl DraftTransactionView {
    /// Every witness has a length that eight bytes can state, as the
    /// witnesses of every transaction in memory have.
    pub open spec fn sized(self) -> bool {
        forall|i: int| 0 <= i < self.witnesses.len() ==> (#[trigger] self.witnesses[i]).len() <= u64::MAX
    }

    /// The transaction with `witness` at `index` in place of the one it has there.
    pub open spec fn with_witness(self, index: int, witness: Seq<u8>) -> DraftTransactionView
        recommends
            0 <= index < self.witnesses.len(),
    {
        DraftTransactionView {
            hash: self.hash,
            input_count: self.input_count,
            witnesses: self.witnesses.update(index, witness),
        }
    }
}

/// The message does not depend on the lock of the first witness: two
/// transactions with the same hash and the same later witnesses, whose first
/// witnesses carry the same arguments for the type scripts, have the same
/// message. In particular the message of one transaction is always the same.
pub proof fn lemma_message_ignores_first_lock(
    first: DraftTransactionView,
    second: DraftTransactionView,
    lock: Seq<u8>,
)
    requires
        first.hash == second.hash,
        first.later_witnesses() == second.later_witnesses(),
        first.first_witness() is Some,
        second.first_witness() is Some,
        first.first_witness().unwrap().input_type == second.first_witness().unwrap().input_type,
        first.first_witness().unwrap().output_type == second.first_witness().unwrap().output_type,
    ensures
        message_preimage(first, lock) == message_preimage(second, lock),
        message_digest(first, lock) == message_digest(second, lock),
{
    assert(first_witness_with(first, lock) == first_witness_with(second, lock));
}

/// Installing a lock does not change the message: whatever is installed in
/// the first witness of a transaction, the message of the transaction is
/// what it was.
pub proof fn lemma_message_ignores_installed_lock(
    tx: DraftTransactionView,
    installed: Seq<u8>,
    lock: Seq<u8>,
)
    requires
        tx.first_witness() is Some,
        first_witness_with(tx, installed).fits(),
    ensures
        with_first_lock(tx, installed).first_witness() == Some(first_witness_with(tx, installed)),
        message_preimage(with_first_lock(tx, installed), lock) == message_preimage(tx, lock),
        message_digest(with_first_lock(tx, installed), lock) == message_digest(tx, lock),
{
    let locked = with_first_lock(tx, installed);
    lemma_witness_round_trip(first_witness_with(tx, installed));
    assert(locked.witnesses[0] == first_witness_with(tx, installed).encoding());
    assert(locked.later_witnesses() =~= tx.later_witnesses()) by {
        assert(locked.slots() == if tx.slots() > 0 {
            tx.slots()
        } else {
            1
        });
        assert forall|i: int| 0 <= i < tx.later_witnesses().len() implies (
        #[trigger] locked.later_witnesses()[i]) == tx.later_witnesses()[i] by {
            assert(locked.witnesses[i + 1] == tx.later_witnesses()[i]);
        }
    }
    lemma_message_ignores_first_lock(locked, tx, lock);
}

/// Installing signatures does not change the message that the cosigners
/// sign: whatever signatures are installed in a transaction, the message of
/// the signed transaction is the message of the draft.
pub proof fn lemma_message_ignores_signatures(
    tx: DraftTransactionView,
    policy: MultisigLockView,
    signatures: Seq<Seq<u8>>,
)
    requires
        tx.first_witness() is Some,
        signed_first_witness(tx, policy, signatures).fits(),
    ensures
        signed_transaction(tx, policy, signatures).first_witness() == Some(
            signed_first_witness(tx, policy, signatures),
        ),
        signing_preimage(signed_transaction(tx, policy, signatures), policy) == signing_preimage(
            tx,
            policy,
        ),
        signing_message(signed_transaction(tx, policy, signatures), policy) == signing_message(
            tx,
            policy,
        ),
{
    lemma_message_ignores_installed_lock(
        tx,
        unlock_payload(policy, signatures),
        placeholder_lock(policy),
    );
}

/// The bytes that are hashed into the message tell the transaction's hash,
/// its first witness as it is hashed, and each of its later witnesses: two
/// transactions of which the message hashes the same bytes agree on all three.
pub proof fn lemma_message_preimage_injective(
    first: DraftTransactionView,
    second: DraftTransactionView,
    lock: Seq<u8>,
)
    requires
        first.hash.len() == second.hash.len(),
        first.sized(),
        second.sized(),
        first.first_witness() is Some,
        second.first_witness() is Some,
        first_witness_with(first, lock).fits(),
        first_witness_with(second, lock).fits(),
        message_preimage(first, lock) == message_preimage(second, lock),
    ensures
        first.hash == second.hash,
        first_witness_with(first, lock).encoding() == first_witness_with(second, lock).encoding(),
        first.later_witnesses() == second.later_witnesses(),
{
    let head_a = first_witness_with(first, lock).encoding();
    let head_b = first_witness_with(second, lock).encoding();
    let all_a = seq![head_a] + first.later_witnesses();
    let all_b = seq![head_b] + second.later_witnesses();
    lemma_encoding_len(first_witness_with(first, lock));
    lemma_encoding_len(first_witness_with(second, lock));
    assert(length_prefixed_all(all_a) == length_prefixed(head_a) + length_prefixed_all(
        first.later_witnesses(),
    )) by {
        lemma_length_prefixed_all_front(all_a);
        assert(all_a.drop_first() =~= first.later_witnesses());
    }
    assert(length_prefixed_all(all_b) == length_prefixed(head_b) + length_prefixed_all(
        second.later_witnesses(),
    )) by {
        lemma_length_prefixed_all_front(all_b);
        assert(all_b.drop_first() =~= second.later_witnesses());
    }
    assert(message_preimage(first, lock) =~= first.hash + length_prefixed_all(all_a));
    assert(message_preimage(second, lock) =~= second.hash + length_prefixed_all(all_b));
    lemma_headed_stream_injective(first.hash, all_a, second.hash, all_b);
    assert(all_a[0] == all_b[0]);
    assert(all_a.drop_first() =~= first.later_witnesses());
    assert(all_b.drop_first() =~= second.later_witnesses());
}

/// Changing a witness after the first changes the bytes that are hashed into
/// the message.
pub proof fn lemma_later_witness_changes_preimage(
    tx: DraftTransactionView,
    lock: Seq<u8>,
    index: int,
    witness: Seq<u8>,
)
    requires
        tx.sized(),
        witness.len() <= u64::MAX,
        tx.first_witness() is Some,
        first_witness_with(tx, lock).fits(),
        1 <= index < tx.witnesses.len(),
        witness != tx.witnesses[index],
    ensures
        message_preimage(tx.with_witness(index, witness), lock) != message_preimage(tx, lock),
{
    let changed = tx.with_witness(index, witness);
    assert(changed.first_witness() == tx.first_witness());
    if message_preimage(changed, lock) == message_preimage(tx, lock) {
        lemma_message_preimage_injective(changed, tx, lock);
        assert(changed.later_witnesses()[index - 1] == changed.witness_or_empty(index));
        assert(tx.later_witnesses()[index - 1] == tx.witness_or_empty(index));
    }
}

/// A signature that has not 65 bytes is refused, wherever it stands and
/// whatever else is given: the signatures cannot be installed, and the only
/// error that reports it is that of the length of a signature.
pub proof fn lemma_missized_signature_refused(
    tx: DraftTransactionView,
    policy: MultisigLockView,
    signatures: Seq<Seq<u8>>,
    index: int,
    error: MultisigError,
)
    requires
        0 <= index < signatures.len(),
        signatures[index].len() != SIGNATURE_SIZE,
    ensures
        !signing_owed(tx, policy, signatures),
        signing_refused(tx, policy, signatures, error) ==> error is SignatureLengthMismatch,
{
}

} // verus!
