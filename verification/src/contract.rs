//! The claim state machine and root governance: per-account
//! claimed/unclaimed lifecycle gated on proof verification, and the
//! owner-gated replacement of the trusted root.
//!
//! The host supplies the caller's identity and performs the actual value
//! transfer; a successful [`AirdropContract::claim`] returns the parsed
//! amount that is owed to the caller.
use vstd::prelude::*;

use crate::amount::{decimal_value_of, is_decimal, parse_amount};
use crate::bytes::{bytes_eq, copy_bytes};
use crate::encoding::{encode_of, encode_record, MAX_FIELD_LEN};
use crate::merkle::{verify, verify_of, ProofStep};

verus! {

/// Why an operation was declined. Every rejection leaves the contract
/// state exactly as it was.
#[derive(Clone, Copy, PartialEq, Eq, Structural, Debug)]
pub enum AirdropError {
    /// Initialization was attempted while contract state already exists
    /// (raised by the host shell, never by the core itself).
    AlreadyInitialized,
    /// The amount is not a well-formed decimal numeral that fits in 128
    /// bits.
    InvalidAmount,
    /// The proof did not verify, or the account has already claimed. The
    /// two causes are merged on purpose, so that an outside observer
    /// cannot enumerate who is in the allocation list.
    Unauthorized,
    /// A governance operation was attempted by an account other than the
    /// owner.
    Forbidden,
}

/// An entitlement record: an account and the amount it may claim, both as
/// byte strings.
pub struct AirdropInfo {
    pub address: Vec<u8>,
    pub amount: Vec<u8>,
}

impl AirdropInfo {
    /// The canonical leaf bytes this record is committed under.
    pub fn encode(&self) -> (bytes: Vec<u8>)
        requires
            self.address@.len() <= MAX_FIELD_LEN,
            self.amount@.len() <= MAX_FIELD_LEN,
        ensures
            bytes@ == encode_of(self.address@, self.amount@),
    {
        encode_record(&self.address, &self.amount)
    }
}

/// The contract state: the owner, the set of accounts that have already
/// claimed, and the trusted Merkle root.
pub struct AirdropContract {
    owner: Vec<u8>,
    claimed: Vec<Vec<u8>>,
    root_hash: Vec<u8>,
}

impl AirdropContract {
    /// The account that may rotate the root.
    pub closed spec fn owner_of(self) -> Seq<u8> {
        self.owner@
    }

    /// The trusted root digest.
    pub closed spec fn root_of(self) -> Seq<u8> {
        self.root_hash@
    }

    /// Whether `account` has already claimed successfully.
    pub closed spec fn is_claimed(self, account: Seq<u8>) -> bool {
        exists|i: int| 0 <= i < self.claimed@.len() && self.claimed@[i]@ == account
    }

    /// When a claim is admissible: the account has not claimed yet and
    /// the presented path proves its record under the trusted root.
    pub open spec fn can_claim_of(
        self,
        account: Seq<u8>,
        amount: Seq<u8>,
        path: Seq<ProofStep>,
    ) -> bool {
        &&& !self.is_claimed(account)
        &&& verify_of(self.root_of(), encode_of(account, amount), path)
    }

    /// A fresh contract: the given owner and trusted root, and no account
    /// claimed yet. The host shell must refuse to initialize twice.
    pub fn new(owner: Vec<u8>, root_hash: Vec<u8>) -> (contract: AirdropContract)
        ensures
            contract.owner_of() == owner@,
            contract.root_of() == root_hash@,
            forall|account: Seq<u8>| !contract.is_claimed(account),
    {
        AirdropContract { owner, claimed: Vec::new(), root_hash }
    }

    /// The initialization entry point: a fresh contract for the given
    /// owner and root, refused if contract state already exists (the host
    /// reports whether it does). Initialization is not idempotent.
    pub fn init(
        state_exists: bool,
        owner: Vec<u8>,
        root_hash: Vec<u8>,
    ) -> (outcome: Result<AirdropContract, AirdropError>)
        ensures
            state_exists ==> outcome == Result::<AirdropContract, AirdropError>::Err(
                AirdropError::AlreadyInitialized,
            ),
            !state_exists ==> {
                &&& outcome is Ok
                &&& outcome.unwrap().owner_of() == owner@
                &&& outcome.unwrap().root_of() == root_hash@
                &&& forall|account: Seq<u8>| !outcome.unwrap().is_claimed(account)
            },
    {
        if state_exists {
            Err(AirdropError::AlreadyInitialized)
        } else {
            Ok(AirdropContract::new(owner, root_hash))
        }
    }

    /// Rebuilds in-memory state from what the host's persistent store
    /// holds: the owner, the accounts already recorded as claimed, and the
    /// trusted root.
    pub fn restore(
        owner: Vec<u8>,
        claimed: Vec<Vec<u8>>,
        root_hash: Vec<u8>,
    ) -> (contract: AirdropContract)
        ensures
            contract.owner_of() == owner@,
            contract.root_of() == root_hash@,
            forall|account: Seq<u8>|
                contract.is_claimed(account) <==> exists|i: int|
                    0 <= i < claimed@.len() && claimed@[i]@ == account,
    {
        let ghost persisted = claimed@;
        let contract = AirdropContract { owner, claimed, root_hash };
        proof {
            assert forall|account: Seq<u8>|
                contract.is_claimed(account) <==> exists|i: int|
                    0 <= i < persisted.len() && persisted[i]@ == account by {
                if contract.is_claimed(account) {
                    let i = choose|i: int|
                        0 <= i < contract.claimed@.len() && contract.claimed@[i]@ == account;
                    assert(0 <= i < persisted.len() && persisted[i]@ == account);
                }
                if exists|i: int| 0 <= i < persisted.len() && persisted[i]@ == account {
                    let i = choose|i: int| 0 <= i < persisted.len() && persisted[i]@ == account;
                    assert(contract.claimed@[i]@ == account);
                }
            }
        }
        contract
    }

    /// Whether `account` is recorded as having claimed.
    fn contains(&self, account_id: &Vec<u8>) -> (found: bool)
        ensures
            found == self.is_claimed(account_id@),
    {
        let mut i: usize = 0;
        while i < self.claimed.len()
            invariant
                i <= self.claimed@.len(),
                forall|j: int| 0 <= j < i ==> self.claimed@[j]@ != account_id@,
            decreases self.claimed@.len() - i,
        {
            if bytes_eq(&self.claimed[i], account_id) {
                return true;
            }
            i += 1;
        }
        false
    }

    /// Checks the record `(account_id, amount)` against the trusted root.
    fn verify(&self, account_id: &Vec<u8>, amount: &Vec<u8>, path: &Vec<ProofStep>) -> (ok: bool)
        requires
            account_id@.len() <= MAX_FIELD_LEN,
            amount@.len() <= MAX_FIELD_LEN,
        ensures
            ok == verify_of(self.root_of(), encode_of(account_id@, amount@), path@),
    {
        let leaf = encode_record(account_id, amount);
        verify(&self.root_hash, &leaf, path)
    }

    /// Whether `account_id` could claim `amount` with `path` right now.
    /// Read-only; an already-claimed account is refused before any hash
    /// work is done.
    pub fn can_claim(
        &self,
        account_id: &Vec<u8>,
        amount: &Vec<u8>,
        path: &Vec<ProofStep>,
    ) -> (ok: bool)
        requires
            account_id@.len() <= MAX_FIELD_LEN,
            amount@.len() <= MAX_FIELD_LEN,
        ensures
            ok == self.can_claim_of(account_id@, amount@, path@),
    {
        if self.contains(account_id) {
            false
        } else {
            self.verify(account_id, amount, path)
        }
    }

    /// A claim by `account_id` (the caller's own identity, supplied by the
    /// host). On success the account is marked claimed and the parsed
    /// amount to transfer is returned; every failure leaves the state
    /// untouched. An inadmissible claim is `Unauthorized`; an admissible
    /// one whose amount is not a well-formed numeral is `InvalidAmount`.
    pub fn claim(
        &mut self,
        account_id: &Vec<u8>,
        amount: &Vec<u8>,
        path: &Vec<ProofStep>,
    ) -> (outcome: Result<u128, AirdropError>)
        requires
            account_id@.len() <= MAX_FIELD_LEN,
            amount@.len() <= MAX_FIELD_LEN,
        ensures
            !old(self).can_claim_of(account_id@, amount@, path@) ==> outcome == Result::<
                u128,
                AirdropError,
            >::Err(AirdropError::Unauthorized) && *final(self) == *old(self),
            old(self).can_claim_of(account_id@, amount@, path@) && !(is_decimal(amount@)
                && decimal_value_of(amount@) <= u128::MAX) ==> outcome == Result::<
                u128,
                AirdropError,
            >::Err(AirdropError::InvalidAmount) && *final(self) == *old(self),
            old(self).can_claim_of(account_id@, amount@, path@) && is_decimal(amount@)
                && decimal_value_of(amount@) <= u128::MAX ==> {
                &&& outcome == Result::<u128, AirdropError>::Ok(
                    decimal_value_of(amount@) as u128,
                )
                &&& final(self).owner_of() == old(self).owner_of()
                &&& final(self).root_of() == old(self).root_of()
                &&& forall|account: Seq<u8>|
                    final(self).is_claimed(account) <==> (old(self).is_claimed(account)
                        || account == account_id@)
            },
    {
        if !self.can_claim(account_id, amount, path) {
            return Err(AirdropError::Unauthorized);
        }
        let value = match parse_amount(amount) {
            Some(v) => v,
            None => {
                return Err(AirdropError::InvalidAmount);
            },
        };
        let entry = copy_bytes(account_id);
        self.claimed.push(entry);
        proof {
            assert forall|account: Seq<u8>|
                self.is_claimed(account) <==> (old(self).is_claimed(account) || account
                    == account_id@) by {
                let n = old(self).claimed@.len() as int;
                if self.is_claimed(account) {
                    let i = choose|i: int|
                        0 <= i < self.claimed@.len() && self.claimed@[i]@ == account;
                    if i < n {
                        assert(old(self).claimed@[i]@ == account);
                    }
                }
                if old(self).is_claimed(account) {
                    let i = choose|i: int|
                        0 <= i < old(self).claimed@.len() && old(self).claimed@[i]@ == account;
                    assert(self.claimed@[i]@ == account);
                }
                if account == account_id@ {
                    assert(self.claimed@[n]@ == account);
                }
            }
        }
        Ok(value)
    }

    /// Replaces the trusted root to start a new round. Only the owner may
    /// do so; anyone else is refused and nothing changes. The claimed set
    /// is never touched: accounts that claimed under the old root stay
    /// claimed under the new one.
    pub fn change_root_hash(
        &mut self,
        caller: &Vec<u8>,
        root_hash: Vec<u8>,
    ) -> (outcome: Result<(), AirdropError>)
        ensures
            caller@ != old(self).owner_of() ==> outcome == Result::<(), AirdropError>::Err(
                AirdropError::Forbidden,
            ) && *final(self) == *old(self),
            caller@ == old(self).owner_of() ==> {
                &&& outcome == Result::<(), AirdropError>::Ok(())
                &&& final(self).root_of() == root_hash@
                &&& final(self).owner_of() == old(self).owner_of()
                &&& forall|account: Seq<u8>|
                    final(self).is_claimed(account) == old(self).is_claimed(account)
            },
    {
        if !bytes_eq(caller, &self.owner) {
            return Err(AirdropError::Forbidden);
        }
        self.root_hash = root_hash;
        proof {
            assert forall|account: Seq<u8>|
                self.is_claimed(account) == old(self).is_claimed(account) by {
                if self.is_claimed(account) {
                    let i = choose|i: int|
                        0 <= i < self.claimed@.len() && self.claimed@[i]@ == account;
                    assert(old(self).claimed@[i]@ == account);
                }
                if old(self).is_claimed(account) {
                    let i = choose|i: int|
                        0 <= i < old(self).claimed@.len() && old(self).claimed@[i]@ == account;
                    assert(self.claimed@[i]@ == account);
                }
            }
        }
        Ok(())
    }

    /// The trusted root digest. Read-only and open to anyone.
    pub fn get_root_hash(&self) -> (digest: Vec<u8>)
        ensures
            digest@ == self.root_of(),
    {
        copy_bytes(&self.root_hash)
    }
}

/// Claimed is terminal: once an account is marked claimed, no amount and
/// no path make it admissible again, so a second claim is always refused
/// as `Unauthorized` and can never trigger a second transfer.
pub proof fn lemma_claimed_is_terminal(
    contract: AirdropContract,
    account: Seq<u8>,
    amount: Seq<u8>,
    path: Seq<ProofStep>,
)
    requires
        contract.is_claimed(account),
    ensures
        !contract.can_claim_of(account, amount, path),
{
}

} // verus!
