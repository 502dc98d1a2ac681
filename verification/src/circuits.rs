use vstd::prelude::*;

use crate::account::{Account, DepositWithdraw, Transaction};
use crate::crypto::{PublicKey, Signature};
use crate::field::FieldValue;
use crate::tree::InclusionProof;

verus! {

/// How many transition slots each circuit carries; shorter batches are padded
/// with disabled no-op slots.
pub const BATCH_SIZE: usize = 16;

/// One processed deposit or withdrawal: the transaction, the account it
/// found, and the inclusion proof of that account against the chained root.
pub struct DepositWithdrawTransition {
    pub enabled: bool,
    pub tx: DepositWithdraw,
    pub before: Account,
    pub proof: InclusionProof,
}

impl DepositWithdrawTransition {
    /// A disabled slot: it asserts nothing and changes nothing.
    pub fn noop() -> (r: Self)
        ensures
            !r.enabled,
    {
        DepositWithdrawTransition {
            enabled: false,
            tx: DepositWithdraw { index: 0, pub_key: PublicKey::null(), amount: 0 },
            before: Account::default(),
            proof: InclusionProof { siblings: Vec::new() },
        }
    }
}

/// One processed transfer: the pre-states and inclusion proofs of the source
/// (captured before its debit) and of the destination (captured after the
/// debit, before its credit).
pub struct Transition {
    pub enabled: bool,
    pub tx: Transaction,
    pub src_before: Account,
    pub src_proof: InclusionProof,
    pub dst_before: Account,
    pub dst_proof: InclusionProof,
}

impl Transition {
    /// A disabled slot: it asserts nothing and changes nothing.
    pub fn noop() -> (r: Self)
        ensures
            !r.enabled,
    {
        Transition {
            enabled: false,
            tx: Transaction {
                nonce: 0,
                src_index: 0,
                dst_index: 0,
                dst_pub_key: PublicKey::null(),
                amount: 0,
                fee: 0,
                sig: Signature::empty(),
            },
            src_before: Account::default(),
            src_proof: InclusionProof { siblings: Vec::new() },
            dst_before: Account::default(),
            dst_proof: InclusionProof { siblings: Vec::new() },
        }
    }
}

/// A fixed-capacity, order-preserving batch of transfer transitions, padded
/// with disabled slots.
pub struct TransitionBatch {
    pub slots: Vec<Transition>,
}

impl TransitionBatch {
    /// Pads the given transitions with disabled no-op slots up to the batch
    /// capacity, keeping their order.
    pub fn new(transitions: Vec<Transition>) -> (r: Self)
        requires
            transitions@.len() <= BATCH_SIZE,
        ensures
            r.slots@.len() == BATCH_SIZE,
            forall|i: int| 0 <= i < transitions@.len() ==> r.slots@[i] == transitions@[i],
            forall|i: int|
                transitions@.len() <= i < BATCH_SIZE ==> !(#[trigger] r.slots@[i]).enabled,
    {
        let ghost ts0 = transitions@;
        let mut slots = transitions;
        while slots.len() < BATCH_SIZE
            invariant
                slots@.len() <= BATCH_SIZE,
                forall|i: int| 0 <= i < ts0.len() ==> slots@[i] == ts0[i],
                ts0.len() <= slots@.len(),
                forall|i: int|
                    ts0.len() <= i < slots@.len() ==> !(#[trigger] slots@[i]).enabled,
            decreases BATCH_SIZE - slots@.len(),
        {
            slots.push(Transition::noop());
        }
        TransitionBatch { slots }
    }
}

/// A fixed-capacity, order-preserving batch of deposit/withdraw transitions,
/// padded with disabled slots.
pub struct DepositWithdrawTransitionBatch {
    pub slots: Vec<DepositWithdrawTransition>,
}

impl DepositWithdrawTransitionBatch {
    /// Pads the given transitions with disabled no-op slots up to the batch
    /// capacity, keeping their order.
    pub fn new(transitions: Vec<DepositWithdrawTransition>) -> (r: Self)
        requires
            transitions@.len() <= BATCH_SIZE,
        ensures
            r.slots@.len() == BATCH_SIZE,
            forall|i: int| 0 <= i < transitions@.len() ==> r.slots@[i] == transitions@[i],
            forall|i: int|
                transitions@.len() <= i < BATCH_SIZE ==> !(#[trigger] r.slots@[i]).enabled,
    {
        let ghost ts0 = transitions@;
        let mut slots = transitions;
        while slots.len() < BATCH_SIZE
            invariant
                slots@.len() <= BATCH_SIZE,
                forall|i: int| 0 <= i < ts0.len() ==> slots@[i] == ts0[i],
                ts0.len() <= slots@.len(),
                forall|i: int|
                    ts0.len() <= i < slots@.len() ==> !(#[trigger] slots@[i]).enabled,
            decreases BATCH_SIZE - slots@.len(),
        {
            slots.push(DepositWithdrawTransition::noop());
        }
        DepositWithdrawTransitionBatch { slots }
    }
}

/// The two fixed circuit shapes.
#[derive(Clone, Copy, Debug, PartialEq, Eq, Structural)]
pub enum CircuitKind {
    Update,
    DepositWithdraw,
}

/// A succinct proof, as the backend serialized it.
#[derive(Clone, Debug)]
pub struct Proof {
    pub data: Vec<u8>,
}

/// The proving backend: an opaque capability that builds the constraints of
/// one circuit kind over public inputs `(oldRoot, auxData, newRoot)` and a
/// padded private witness, produces a proof, and checks a proof against the
/// fixed verifying key of that kind. Nothing is assumed of it: callers state
/// what holds whatever it returns.
pub trait ProofBackend {
    /// Produce a proof for the transfer circuit.
    fn prove_update(
        &self,
        old_root: &FieldValue,
        aux: &FieldValue,
        new_root: &FieldValue,
        witness: &TransitionBatch,
    ) -> Proof;

    /// Produce a proof for the deposit/withdraw circuit.
    fn prove_deposit_withdraw(
        &self,
        old_root: &FieldValue,
        aux: &FieldValue,
        new_root: &FieldValue,
        witness: &DepositWithdrawTransitionBatch,
    ) -> Proof;

    /// Check a proof against the verifying key of the given circuit kind and
    /// the public inputs.
    fn verify(
        &self,
        kind: CircuitKind,
        old_root: &FieldValue,
        aux: &FieldValue,
        new_root: &FieldValue,
        proof: &Proof,
    ) -> bool;
}

} // verus!
