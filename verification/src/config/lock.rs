//! The lock that guards deployed cells: a raw script or a multisig policy.

use crate::bytes::{append_bytes, byte_strings, lemma_flatten_blocks};
use crate::hash::{blake2b_256, blake2b_256_digest};
use vstd::prelude::*;
use vstd::slice::{slice_subrange, slice_to_vec};

verus! {

/// Number of bytes in one public-key hash of a multisig policy.
pub const PUBKEY_HASH_SIZE: usize = 20;

/// Largest number of public-key hashes that a multisig policy can hold.
pub const MAX_PUBKEY_HASHES: usize = 255;

/// Number of bytes in the arguments of a multisig lock script.
pub const SCRIPT_HASH_SIZE: usize = 20;

/// How a script's code hash is matched against the cells of the ledger.
#[derive(Clone, Copy, Debug, PartialEq, Eq, Structural)]
pub enum ScriptHashType {
    /// The hash of the code cell's data.
    Data,
    /// The hash of the code cell's type script.
    Type,
}

/// Why a lock could not be turned into a script.
#[derive(Clone, Copy, Debug, PartialEq, Eq, Structural)]
pub enum LockError {
    /// The policy lists more public-key hashes than one byte can count.
    PolicyTooLarge { count: usize },
    /// The public-key hash at `index` has `length` bytes, not twenty.
    PubkeyHashLength { index: usize, length: usize },
    /// The thresholds do not satisfy `first_n <= n <= number of hashes`.
    PolicyInconsistent,
    /// The bytes are not the encoding of any policy.
    MalformedScript { length: usize },
    /// Both a raw script and a multisig policy were given.
    ConflictingLocks,
    /// Neither a raw script nor a multisig policy was given.
    MissingLock,
}

/// A lock script of the ledger.
#[derive(Clone, Debug, PartialEq, Eq)]
pub struct Script {
    pub code_hash: [u8; 32],
    pub hash_type: ScriptHashType,
    pub args: Vec<u8>,
}

/// What a [`Script`] holds.
pub struct ScriptView {
    pub code_hash: Seq<u8>,
    pub hash_type: ScriptHashType,
    pub args: Seq<u8>,
}

impl View for Script {
    type V = ScriptView;

    open spec fn view(&self) -> ScriptView {
        ScriptView { code_hash: self.code_hash@, hash_type: self.hash_type, args: self.args@ }
    }
}

/// A multisig policy: `require_n_keys` of the listed keys must sign, among
/// them the first `require_first_n_keys`.
#[derive(Clone, Debug, PartialEq, Eq)]
pub struct MultisigLock {
    pub code_hash: [u8; 32],
    pub hash_type: ScriptHashType,
    pub format_version: u8,
    pub require_first_n_keys: u8,
    pub require_n_keys: u8,
    pub pubkey_hash_list: Vec<Vec<u8>>,
}

/// What a [`MultisigLock`] holds.
pub struct MultisigLockView {
    pub code_hash: Seq<u8>,
    pub hash_type: ScriptHashType,
    pub format_version: u8,
    pub require_first_n_keys: u8,
    pub require_n_keys: u8,
    pub pubkey_hash_list: Seq<Seq<u8>>,
}

impl View for MultisigLock {
    type V = MultisigLockView;

    open spec fn view(&self) -> MultisigLockView {
        MultisigLockView {
            code_hash: self.code_hash@,
            hash_type: self.hash_type,
            format_version: self.format_version,
            require_first_n_keys: self.require_first_n_keys,
            require_n_keys: self.require_n_keys,
            pubkey_hash_list: byte_strings(self.pubkey_hash_list@),
        }
    }
}

impl Default for ScriptHashType {
    fn default() -> (hash_type: ScriptHashType)
        ensures
            hash_type == ScriptHashType::Data,
    {
        ScriptHashType::Data
    }
}

impl Default for MultisigLock {
    /// The policy of a blank file: no key, and none required.
    fn default() -> (lock: MultisigLock)
        ensures
            lock@.code_hash == Seq::new(32, |i: int| 0u8),
            lock@.hash_type == ScriptHashType::Data,
            lock@.format_version == 0,
            lock@.require_first_n_keys == 0,
            lock@.require_n_keys == 0,
            lock@.pubkey_hash_list == Seq::<Seq<u8>>::empty(),
            lock@.valid(),
    {
        let lock = MultisigLock {
            code_hash: [0u8; 32],
            hash_type: ScriptHashType::Data,
            format_version: 0,
            require_first_n_keys: 0,
            require_n_keys: 0,
            pubkey_hash_list: Vec::new(),
        };
        assert(lock@.code_hash =~= Seq::new(32, |i: int| 0u8));
        assert(lock@.pubkey_hash_list =~= Seq::<Seq<u8>>::empty());
        lock
    }
}

impl MultisigLockView {
    /// The policy can be encoded: at most 255 hashes, each of twenty bytes,
    /// and thresholds in order.
    pub open spec fn valid(self) -> bool {
        &&& self.pubkey_hash_list.len() <= MAX_PUBKEY_HASHES
        &&& forall|i: int|
            0 <= i < self.pubkey_hash_list.len() ==> (#[trigger] self.pubkey_hash_list[i]).len()
                == PUBKEY_HASH_SIZE
        &&& self.require_first_n_keys <= self.require_n_keys
        &&& self.require_n_keys <= self.pubkey_hash_list.len()
    }

    /// `error` is the reason for which the policy cannot be encoded. The size
    /// of the list is looked at first, then the hashes in their order, then the
    /// thresholds.
    pub open spec fn rejected_with(self, error: LockError) -> bool {
        let hashes = self.pubkey_hash_list;
        match error {
            LockError::PolicyTooLarge { count } => {
                &&& hashes.len() > MAX_PUBKEY_HASHES
                &&& count == hashes.len()
            },
            LockError::PubkeyHashLength { index, length } => {
                &&& hashes.len() <= MAX_PUBKEY_HASHES
                &&& index < hashes.len()
                &&& length == hashes[index as int].len()
                &&& length != PUBKEY_HASH_SIZE
                &&& forall|j: int| 0 <= j < index ==> (#[trigger] hashes[j]).len() == PUBKEY_HASH_SIZE
            },
            LockError::PolicyInconsistent => {
                &&& hashes.len() <= MAX_PUBKEY_HASHES
                &&& forall|j: int|
                    0 <= j < hashes.len() ==> (#[trigger] hashes[j]).len() == PUBKEY_HASH_SIZE
                &&& !(self.require_first_n_keys <= self.require_n_keys && self.require_n_keys
                    <= hashes.len())
            },
            _ => false,
        }
    }

    /// The arguments of the multisig script: the format version, the two
    /// thresholds and the number of hashes, one byte each, then the hashes.
    pub open spec fn multisig_script(self) -> Seq<u8> {
        seq![
            self.format_version,
            self.require_first_n_keys,
            self.require_n_keys,
            self.pubkey_hash_list.len() as u8,
        ] + self.pubkey_hash_list.flatten()
    }

    /// The first twenty bytes of the ledger's hash of the multisig script.
    pub open spec fn script_hash(self) -> Seq<u8> {
        blake2b_256_digest(self.multisig_script()).subrange(0, SCRIPT_HASH_SIZE as int)
    }

    /// The lock script of the policy: its code, with the script hash as arguments.
    pub open spec fn script(self) -> ScriptView {
        ScriptView { code_hash: self.code_hash, hash_type: self.hash_type, args: self.script_hash() }
    }
}

/// `script` has the length that its fourth byte announces.
pub open spec fn multisig_script_framed(script: Seq<u8>) -> bool {
    &&& script.len() >= 4
    &&& script.len() == 4 + PUBKEY_HASH_SIZE * (script[3] as int)
}

/// The policy that `script` spells, under the given code.
pub open spec fn multisig_script_policy(
    code_hash: Seq<u8>,
    hash_type: ScriptHashType,
    script: Seq<u8>,
) -> MultisigLockView {
    MultisigLockView {
        code_hash,
        hash_type,
        format_version: script[0],
        require_first_n_keys: script[1],
        require_n_keys: script[2],
        pubkey_hash_list: Seq::new(
            script[3] as nat,
            |i: int| script.subrange(4 + PUBKEY_HASH_SIZE * i, 4 + PUBKEY_HASH_SIZE * i + PUBKEY_HASH_SIZE),
        ),
    }
}

impl MultisigLock {
    /// Encodes the policy as the arguments of the multisig script.
    pub fn to_multisig_script(&self) -> (result: Result<Vec<u8>, LockError>)
        ensures
            match result {
                Ok(script) => self@.valid() && script@ == self@.multisig_script(),
                Err(error) => self@.rejected_with(error),
            },
    {
        let count: usize = self.pubkey_hash_list.len();
        if count > MAX_PUBKEY_HASHES {
            return Err(LockError::PolicyTooLarge { count });
        }
        let n: u8 = count as u8;
        let mut args: Vec<u8> = Vec::new();
        args.push(self.format_version);
        args.push(self.require_first_n_keys);
        args.push(self.require_n_keys);
        args.push(n);
        let ghost header = args@;
        let ghost hashes = self@.pubkey_hash_list;
        let mut i: usize = 0;
        proof {
            assert(hashes.subrange(0, 0) =~= Seq::<Seq<u8>>::empty());
            assert(header + hashes.subrange(0, 0).flatten() =~= header);
        }
        while i < count
            invariant
                i <= count <= MAX_PUBKEY_HASHES,
                count == self.pubkey_hash_list.len(),
                hashes == byte_strings(self.pubkey_hash_list@),
                args@ == header + hashes.subrange(0, i as int).flatten(),
                forall|j: int| 0 <= j < i ==> (#[trigger] hashes[j]).len() == PUBKEY_HASH_SIZE,
            decreases count - i,
        {
            let pubkey_hash = &self.pubkey_hash_list[i];
            let length: usize = pubkey_hash.len();
            assert(hashes.len() == count && hashes[i as int] == pubkey_hash@);
            if length != PUBKEY_HASH_SIZE {
                return Err(LockError::PubkeyHashLength { index: i, length });
            }
            proof {
                let done = hashes.subrange(0, i as int);
                done.lemma_flatten_push(hashes[i as int]);
                assert(done.push(hashes[i as int]) =~= hashes.subrange(0, i + 1));
                assert(header + (done.flatten() + hashes[i as int]) =~= (header + done.flatten())
                    + hashes[i as int]);
            }
            append_bytes(&mut args, pubkey_hash.as_slice());
            i = i + 1;
        }
        assert(hashes.subrange(0, count as int) =~= hashes);
        if self.require_first_n_keys > self.require_n_keys || self.require_n_keys > n {
            return Err(LockError::PolicyInconsistent);
        }
        Ok(args)
    }

    /// Reads a policy back from the arguments of a multisig script, for the
    /// given code.
    pub fn from_multisig_script(
        code_hash: [u8; 32],
        hash_type: ScriptHashType,
        script: &[u8],
    ) -> (result: Result<MultisigLock, LockError>)
        ensures
            match result {
                Ok(lock) => {
                    &&& multisig_script_framed(script@)
                    &&& lock@ == multisig_script_policy(code_hash@, hash_type, script@)
                    &&& lock@.valid()
                },
                Err(LockError::MalformedScript { length }) => {
                    &&& !multisig_script_framed(script@)
                    &&& length == script@.len()
                },
                Err(LockError::PolicyInconsistent) => {
                    &&& multisig_script_framed(script@)
                    &&& !multisig_script_policy(code_hash@, hash_type, script@).valid()
                },
                Err(_) => false,
            },
    {
        let length: usize = script.len();
        if length < 4 {
            return Err(LockError::MalformedScript { length });
        }
        let count: usize = script[3] as usize;
        if length != 4 + PUBKEY_HASH_SIZE * count {
            return Err(LockError::MalformedScript { length });
        }
        let ghost policy = multisig_script_policy(code_hash@, hash_type, script@);
        let mut pubkey_hash_list: Vec<Vec<u8>> = Vec::new();
        let mut i: usize = 0;
        while i < count
            invariant
                i <= count <= MAX_PUBKEY_HASHES,
                count == script@[3],
                script@.len() == 4 + PUBKEY_HASH_SIZE * count,
                policy == multisig_script_policy(code_hash@, hash_type, script@),
                pubkey_hash_list@.len() == i,
                forall|j: int|
                    0 <= j < i ==> (#[trigger] pubkey_hash_list@[j])@ == policy.pubkey_hash_list[j],
            decreases count - i,
        {
            let start: usize = 4 + PUBKEY_HASH_SIZE * i;
            let pubkey_hash = slice_to_vec(slice_subrange(script, start, start + PUBKEY_HASH_SIZE));
            pubkey_hash_list.push(pubkey_hash);
            i = i + 1;
        }
        let lock = MultisigLock {
            code_hash,
            hash_type,
            format_version: script[0],
            require_first_n_keys: script[1],
            require_n_keys: script[2],
            pubkey_hash_list,
        };
        assert(lock@.pubkey_hash_list =~= policy.pubkey_hash_list);
        if lock.require_first_n_keys > lock.require_n_keys || lock.require_n_keys > script[3] {
            return Err(LockError::PolicyInconsistent);
        }
        Ok(lock)
    }

    /// The twenty bytes by which the ledger knows the policy: the head of the
    /// hash of its encoding.
    pub fn script_hash(&self) -> (result: Result<[u8; 20], LockError>)
        ensures
            match result {
                Ok(hash) => self@.valid() && hash@ == self@.script_hash(),
                Err(error) => self@.rejected_with(error),
            },
    {
        let script = self.to_multisig_script()?;
        let digest = blake2b_256(script.as_slice());
        let mut hash: [u8; 20] = [0u8; 20];
        let mut i: usize = 0;
        while i < SCRIPT_HASH_SIZE
            invariant
                i <= SCRIPT_HASH_SIZE,
                forall|j: int| 0 <= j < i ==> hash@[j] == digest@[j],
            decreases SCRIPT_HASH_SIZE - i,
        {
            hash[i] = digest[i];
            i = i + 1;
        }
        assert(hash@ =~= digest@.subrange(0, SCRIPT_HASH_SIZE as int));
        Ok(hash)
    }

    /// The lock script of the policy.
    pub fn try_into(self) -> (result: Result<Script, LockError>)
        ensures
            match result {
                Ok(script) => self@.valid() && script@ == self@.script(),
                Err(error) => self@.rejected_with(error),
            },
    {
        let hash = self.script_hash()?;
        let mut args: Vec<u8> = Vec::new();
        append_bytes(&mut args, hash.as_slice());
        assert(args@ =~= hash@);
        Ok(Script { code_hash: self.code_hash, hash_type: self.hash_type, args })
    }
}

/// A policy that can be encoded is read back from its encoding.
pub proof fn lemma_policy_round_trip(policy: MultisigLockView)
    requires
        policy.valid(),
    ensures
        multisig_script_framed(policy.multisig_script()),
        multisig_script_policy(policy.code_hash, policy.hash_type, policy.multisig_script())
            == policy,
{
    let hashes = policy.pubkey_hash_list;
    let flat = hashes.flatten();
    let script = policy.multisig_script();
    let width = PUBKEY_HASH_SIZE as nat;
    lemma_flatten_blocks(hashes, width);
    assert(flat.len() == PUBKEY_HASH_SIZE * hashes.len()) by (nonlinear_arith)
        requires
            flat.len() == hashes.len() * width,
            width == PUBKEY_HASH_SIZE,
    ;
    let back = multisig_script_policy(policy.code_hash, policy.hash_type, script);
    assert(back.pubkey_hash_list.len() == hashes.len());
    assert forall|i: int| 0 <= i < hashes.len() implies back.pubkey_hash_list[i] == hashes[i] by {
        assert(PUBKEY_HASH_SIZE * i == i * width) by (nonlinear_arith)
            requires
                width == PUBKEY_HASH_SIZE,
        ;
        assert(0 <= i * width && i * width + width <= hashes.len() * width) by (nonlinear_arith)
            requires
                0 <= i < hashes.len(),
        ;
        assert(script.subrange(4 + i * width, 4 + i * width + width) =~= flat.subrange(
            i * width,
            i * width + width,
        ));
    }
    assert(back.pubkey_hash_list =~= hashes);
}

/// Well-framed bytes are the encoding of the policy read from them, and of
/// no other: what is read accepts nothing but encodings.
pub proof fn lemma_script_canonical(code_hash: Seq<u8>, hash_type: ScriptHashType, script: Seq<u8>)
    requires
        multisig_script_framed(script),
    ensures
        multisig_script_policy(code_hash, hash_type, script).multisig_script() == script,
{
    let policy = multisig_script_policy(code_hash, hash_type, script);
    let hashes = policy.pubkey_hash_list;
    let flat = hashes.flatten();
    let width = PUBKEY_HASH_SIZE as nat;
    lemma_flatten_blocks(hashes, width);
    assert(flat.len() == script.len() - 4) by (nonlinear_arith)
        requires
            flat.len() == hashes.len() * width,
            width == PUBKEY_HASH_SIZE,
            hashes.len() == script[3],
            script.len() == 4 + PUBKEY_HASH_SIZE * (script[3] as int),
    ;
    assert forall|k: int| 0 <= k < flat.len() implies flat[k] == script[4 + k] by {
        let i = k / (width as int);
        let r = k % (width as int);
        assert(k == i * width + r && 0 <= r < width && 0 <= i < hashes.len()) by (nonlinear_arith)
            requires
                i == k / (width as int),
                r == k % (width as int),
                width == 20,
                0 <= k < hashes.len() * width,
        ;
        let block = flat.subrange(i * width, i * width + width);
        assert(block == hashes[i]);
        assert(block[r] == flat[i * width + r]);
        assert(PUBKEY_HASH_SIZE * i == i * width) by (nonlinear_arith)
            requires
                width == PUBKEY_HASH_SIZE,
        ;
        assert(hashes[i][r] == script[4 + PUBKEY_HASH_SIZE * i + r]);
    }
    assert(policy.multisig_script() =~= script);
}

/// Two policies that can be encoded, for the same code, have the same
/// encoding only if they are the same policy.
pub proof fn lemma_multisig_script_injective(first: MultisigLockView, second: MultisigLockView)
    requires
        first.valid(),
        second.valid(),
        first.code_hash == second.code_hash,
        first.hash_type == second.hash_type,
        first.multisig_script() == second.multisig_script(),
    ensures
        first == second,
{
    lemma_policy_round_trip(first);
    lemma_policy_round_trip(second);
}

/// The script hash of a policy is a function of its encoding alone, and so of
/// the policy: equal policies have equal script hashes.
pub proof fn lemma_script_hash_deterministic(first: MultisigLockView, second: MultisigLockView)
    requires
        first.multisig_script() == second.multisig_script(),
    ensures
        first.script_hash() == second.script_hash(),
{
}

/// The lock of a deployment: a raw script, or a multisig policy from which
/// the script is derived. Exactly one of the two is to be given.
#[derive(Clone, Debug, PartialEq, Eq)]
pub struct Lock {
    pub raw: Option<Script>,
    pub multisig: Option<MultisigLock>,
}

/// What a [`Lock`] holds.
pub struct LockView {
    pub raw: Option<ScriptView>,
    pub multisig: Option<MultisigLockView>,
}

impl View for Lock {
    type V = LockView;

    open spec fn view(&self) -> LockView {
        LockView {
            raw: match self.raw {
                Some(script) => Some(script@),
                None => None,
            },
            multisig: match self.multisig {
                Some(policy) => Some(policy@),
                None => None,
            },
        }
    }
}

/// Who may spend the deployed cells: the owner of a script given as it is,
/// or the cosigners of a multisig policy.
#[derive(Clone, Debug, PartialEq, Eq)]
pub enum LockAuthority {
    RawScript(Script),
    MultisigPolicy(MultisigLock),
}

/// What a [`LockAuthority`] holds.
pub enum LockAuthorityView {
    RawScript(ScriptView),
    MultisigPolicy(MultisigLockView),
}

impl View for LockAuthority {
    type V = LockAuthorityView;

    open spec fn view(&self) -> LockAuthorityView {
        match *self {
            LockAuthority::RawScript(script) => LockAuthorityView::RawScript(script@),
            LockAuthority::MultisigPolicy(policy) => LockAuthorityView::MultisigPolicy(policy@),
        }
    }
}

impl Default for Lock {
    /// The lock of a blank file, which names no authority yet.
    fn default() -> (lock: Lock)
        ensures
            lock@.raw is None,
            lock@.multisig is None,
    {
        Lock { raw: None, multisig: None }
    }
}

impl LockView {
    /// The authority that the lock names, or the error for which it names none.
    pub open spec fn authority(self) -> Result<LockAuthorityView, LockError> {
        match (self.raw, self.multisig) {
            (Some(_), Some(_)) => Err(LockError::ConflictingLocks),
            (Some(raw), None) => Ok(LockAuthorityView::RawScript(raw)),
            (None, Some(policy)) => Ok(LockAuthorityView::MultisigPolicy(policy)),
            (None, None) => Err(LockError::MissingLock),
        }
    }
}

impl LockAuthority {
    /// The lock script of the authority: the raw script itself, or the
    /// script of the multisig policy.
    pub fn resolve(self) -> (result: Result<Script, LockError>)
        ensures
            match self@ {
                LockAuthorityView::RawScript(raw) => result matches Ok(script) && script@ == raw,
                LockAuthorityView::MultisigPolicy(policy) => match result {
                    Ok(script) => policy.valid() && script@ == policy.script(),
                    Err(error) => policy.rejected_with(error),
                },
            },
    {
        match self {
            LockAuthority::RawScript(raw) => Ok(raw),
            LockAuthority::MultisigPolicy(policy) => policy.try_into(),
        }
    }
}

impl Lock {
    /// The authority that the lock names. A lock that gives both a raw
    /// script and a multisig policy, or neither, is refused.
    pub fn authority(self) -> (result: Result<LockAuthority, LockError>)
        ensures
            match result {
                Ok(authority) => self@.authority() == Ok::<LockAuthorityView, LockError>(authority@),
                Err(error) => self@.authority() == Err::<LockAuthorityView, LockError>(error),
            },
    {
        match (self.raw, self.multisig) {
            (Some(_), Some(_)) => Err(LockError::ConflictingLocks),
            (Some(raw), None) => Ok(LockAuthority::RawScript(raw)),
            (None, Some(policy)) => Ok(LockAuthority::MultisigPolicy(policy)),
            (None, None) => Err(LockError::MissingLock),
        }
    }

    /// The lock script: the raw script where one is given, else the script of
    /// the multisig policy. A lock that gives both, or neither, is refused.
    pub fn try_into(self) -> (result: Result<Script, LockError>)
        ensures
            match (self@.raw, self@.multisig) {
                (Some(_), Some(_)) => result matches Err(LockError::ConflictingLocks),
                (Some(raw), None) => result matches Ok(script) && script@ == raw,
                (None, Some(policy)) => match result {
                    Ok(script) => policy.valid() && script@ == policy.script(),
                    Err(error) => policy.rejected_with(error),
                },
                (None, None) => result matches Err(LockError::MissingLock),
            },
    {
        match self.authority() {
            Ok(authority) => authority.resolve(),
            Err(error) => Err(error),
        }
    }
}

} // verus!
