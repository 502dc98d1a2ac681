use zoro::account::{Account, DepositWithdraw, Transaction};
use zoro::bank::{Bank, BankError};
use zoro::circuits::{
    CircuitKind, DepositWithdrawTransitionBatch, Proof, ProofBackend, TransitionBatch,
};
use zoro::crypto::{PrivateKey, PublicKey, Signature};
use zoro::FieldValue;

fn fv(x: u64) -> FieldValue {
    FieldValue { l0: x, l1: 0, l2: 0, l3: 0 }
}

fn encode(kind: u8, a: &FieldValue, b: &FieldValue, c: &FieldValue) -> Vec<u8> {
    let mut out = vec![kind];
    for v in [a, b, c] {
        out.extend_from_slice(&v.l0.to_le_bytes());
        out.extend_from_slice(&v.l1.to_le_bytes());
        out.extend_from_slice(&v.l2.to_le_bytes());
        out.extend_from_slice(&v.l3.to_le_bytes());
    }
    out
}

/// A backend that binds the proof bytes to the public inputs, so the
/// self-check in the bank really compares what was proved with what is
/// claimed.
struct BindingBackend;

impl ProofBackend for BindingBackend {
    fn prove_update(
        &self,
        old_root: &FieldValue,
        aux: &FieldValue,
        new_root: &FieldValue,
        _witness: &TransitionBatch,
    ) -> Proof {
        Proof { data: encode(0, old_root, aux, new_root) }
    }

    fn prove_deposit_withdraw(
        &self,
        old_root: &FieldValue,
        aux: &FieldValue,
        new_root: &FieldValue,
        _witness: &DepositWithdrawTransitionBatch,
    ) -> Proof {
        Proof { data: encode(1, old_root, aux, new_root) }
    }

    fn verify(
        &self,
        kind: CircuitKind,
        old_root: &FieldValue,
        aux: &FieldValue,
        new_root: &FieldValue,
        proof: &Proof,
    ) -> bool {
        let tag = match kind {
            CircuitKind::Update => 0,
            CircuitKind::DepositWithdraw => 1,
        };
        proof.data == encode(tag, old_root, aux, new_root)
    }
}

/// A backend whose self-check always rejects.
struct RejectingBackend;

impl ProofBackend for RejectingBackend {
    fn prove_update(
        &self,
        _old_root: &FieldValue,
        _aux: &FieldValue,
        _new_root: &FieldValue,
        _witness: &TransitionBatch,
    ) -> Proof {
        Proof { data: Vec::new() }
    }

    fn prove_deposit_withdraw(
        &self,
        _old_root: &FieldValue,
        _aux: &FieldValue,
        _new_root: &FieldValue,
        _witness: &DepositWithdrawTransitionBatch,
    ) -> Proof {
        Proof { data: Vec::new() }
    }

    fn verify(
        &self,
        _kind: CircuitKind,
        _old_root: &FieldValue,
        _aux: &FieldValue,
        _new_root: &FieldValue,
        _proof: &Proof,
    ) -> bool {
        false
    }
}

fn dw(index: u64, pub_key: PublicKey, amount: i64) -> DepositWithdraw {
    DepositWithdraw { index, pub_key, amount }
}

#[test]
fn scenario_deposit_then_withdraw() {
    let (k0, _sk0) = PrivateKey::generate(&fv(11), &fv(12));
    let mut bank = Bank::new(BindingBackend, 3);
    let r0 = bank.root();

    let (_, cs1, p1) = bank
        .deposit_withdraw(&vec![dw(0, k0, 200)])
        .expect("deposit should commit");
    assert_eq!(bank.get_account(0).balance, 200);
    assert_eq!(bank.get_account(0).nonce, 0);
    let r1 = bank.root();
    assert_eq!(cs1.root, r1.root);
    assert_ne!(r0.root, r1.root);
    assert!(BindingBackend.verify(CircuitKind::DepositWithdraw, &r0.root, &fv(0), &r1.root, &p1));

    let (_, cs2, p2) = bank
        .deposit_withdraw(&vec![dw(0, k0, -50)])
        .expect("withdraw should commit");
    assert_eq!(bank.get_account(0).balance, 150);
    let r2 = bank.root();
    assert_eq!(cs2.root, r2.root);
    assert_ne!(r1.root, r2.root);

    // The proof is bound to its declared public inputs: flipping one bit of
    // any of the three, or one byte of the proof, must fail verification.
    assert!(BindingBackend.verify(CircuitKind::DepositWithdraw, &r1.root, &fv(0), &r2.root, &p2));
    let mut bad_old = r1.root;
    bad_old.l0 ^= 1;
    assert!(!BindingBackend.verify(CircuitKind::DepositWithdraw, &bad_old, &fv(0), &r2.root, &p2));
    let mut bad_aux = fv(0);
    bad_aux.l2 ^= 1 << 17;
    assert!(!BindingBackend.verify(CircuitKind::DepositWithdraw, &r1.root, &bad_aux, &r2.root, &p2));
    let mut bad_new = r2.root;
    bad_new.l3 ^= 1 << 63;
    assert!(!BindingBackend.verify(CircuitKind::DepositWithdraw, &r1.root, &fv(0), &bad_new, &p2));
    let mut bad_proof = p2.clone();
    bad_proof.data[5] ^= 0xff;
    assert!(!BindingBackend.verify(
        CircuitKind::DepositWithdraw,
        &r1.root,
        &fv(0),
        &r2.root,
        &bad_proof
    ));
}

#[test]
fn scenario_transfer_and_replay() {
    let (k0, sk0) = PrivateKey::generate(&fv(21), &fv(22));
    let (k1, _sk1) = PrivateKey::generate(&fv(23), &fv(24));
    let mut bank = Bank::new(BindingBackend, 3);
    bank.deposit_withdraw(&vec![dw(0, k0, 500)]).expect("funding deposit");

    let mut tx = Transaction {
        nonce: 0,
        src_index: 0,
        dst_index: 1,
        dst_pub_key: k1,
        amount: 200,
        fee: 1,
        sig: Signature::empty(),
    };
    tx.sign(&sk0);

    bank.change_state(&vec![tx]).expect("transfer should commit");
    let src = bank.get_account(0);
    assert_eq!(src.balance, 299);
    assert_eq!(src.nonce, 1);
    let dst = bank.get_account(1);
    assert_eq!(dst.balance, 200);
    assert_eq!(dst.nonce, 0);
    assert_eq!(dst.address, k1);

    // Replaying the identical transaction (still nonce 0) is rejected.
    let replay = bank.change_state(&vec![tx]);
    assert!(matches!(replay, Err(BankError::InvalidNonce)));
    assert_eq!(bank.get_account(0).balance, 299);
}

#[test]
fn scenario_partial_batch_commits_nothing() {
    let (k0, _) = PrivateKey::generate(&fv(31), &fv(32));
    let (k1, _) = PrivateKey::generate(&fv(33), &fv(34));
    let mut bank = Bank::new(BindingBackend, 3);
    bank.deposit_withdraw(&vec![dw(0, k0, 100)]).expect("funding deposit");
    let r = bank.root();

    // A batch with one overdraft among otherwise valid operations.
    let batch = vec![dw(1, k1, 50), dw(0, k0, -30), dw(0, k0, -500)];
    let e = bank.deposit_withdraw(&batch);
    assert!(matches!(e, Err(BankError::BalanceInsufficient)));
    assert_eq!(bank.root().root, r.root);
    assert_eq!(bank.get_account(0).balance, 100);
    assert_eq!(bank.get_account(1).balance, 0);
}

#[test]
fn deposit_balances_follow_signed_sums() {
    let (k0, _) = PrivateKey::generate(&fv(41), &fv(42));
    let (k1, _) = PrivateKey::generate(&fv(43), &fv(44));
    let mut bank = Bank::new(BindingBackend, 3);
    let batch = vec![dw(0, k0, 70), dw(1, k1, 30), dw(0, k0, -20), dw(0, k0, 5)];
    bank.deposit_withdraw(&batch).expect("batch should commit");
    assert_eq!(bank.get_account(0).balance, 55);
    assert_eq!(bank.get_account(1).balance, 30);
    let mut balances = bank.balances();
    balances.sort();
    assert_eq!(balances, vec![(0, 55), (1, 30)]);

    // The committed root is exactly the root recomputed from the final leaf
    // contents: a fresh tree holding the same accounts reproduces it.
    let mut fresh = zoro::tree::MerkleStateTree::new(3);
    fresh.set(0, bank.get_account(0));
    fresh.set(1, bank.get_account(1));
    assert_eq!(fresh.root(), bank.root().root);
}

#[test]
fn bound_key_conflict_is_rejected() {
    let (k0, _) = PrivateKey::generate(&fv(51), &fv(52));
    let (k1, _) = PrivateKey::generate(&fv(53), &fv(54));
    let mut bank = Bank::new(BindingBackend, 3);
    bank.deposit_withdraw(&vec![dw(4, k0, 10)]).expect("bind key");
    let r = bank.root();
    let e = bank.deposit_withdraw(&vec![dw(4, k1, 10)]);
    assert!(matches!(e, Err(BankError::InvalidPublicKey)));
    assert_eq!(bank.root().root, r.root);
    // The same key may keep depositing.
    bank.deposit_withdraw(&vec![dw(4, k0, 10)]).expect("same key deposits");
    assert_eq!(bank.get_account(4).balance, 20);
}

#[test]
fn wrong_signer_is_rejected() {
    let (k0, _sk0) = PrivateKey::generate(&fv(61), &fv(62));
    let (k1, sk1) = PrivateKey::generate(&fv(63), &fv(64));
    let mut bank = Bank::new(BindingBackend, 3);
    bank.deposit_withdraw(&vec![dw(0, k0, 100)]).expect("funding deposit");
    let r = bank.root();

    let mut tx = Transaction {
        nonce: 0,
        src_index: 0,
        dst_index: 1,
        dst_pub_key: k1,
        amount: 10,
        fee: 0,
        sig: Signature::empty(),
    };
    tx.sign(&sk1);
    let e = bank.change_state(&vec![tx]);
    assert!(matches!(e, Err(BankError::InvalidSignature)));
    assert_eq!(bank.root().root, r.root);
}

#[test]
fn transfer_overdraft_is_rejected() {
    let (k0, sk0) = PrivateKey::generate(&fv(71), &fv(72));
    let (k1, _) = PrivateKey::generate(&fv(73), &fv(74));
    let mut bank = Bank::new(BindingBackend, 3);
    bank.deposit_withdraw(&vec![dw(0, k0, 100)]).expect("funding deposit");

    let mut tx = Transaction {
        nonce: 0,
        src_index: 0,
        dst_index: 1,
        dst_pub_key: k1,
        amount: 100,
        fee: 1,
        sig: Signature::empty(),
    };
    tx.sign(&sk0);
    let e = bank.change_state(&vec![tx]);
    assert!(matches!(e, Err(BankError::BalanceInsufficient)));
    assert_eq!(bank.get_account(0).balance, 100);
}

#[test]
fn failed_self_check_reports_cannot_prove() {
    let (k0, _) = PrivateKey::generate(&fv(81), &fv(82));
    let mut bank = Bank::new(RejectingBackend, 3);
    let r = bank.root();
    let e = bank.deposit_withdraw(&vec![dw(0, k0, 10)]);
    assert!(matches!(e, Err(BankError::CannotProve)));
    assert_eq!(bank.root().root, r.root);
    assert_eq!(bank.get_account(0).balance, 0);
}

#[test]
fn delta_names_exactly_the_changed_slots() {
    let (k0, _) = PrivateKey::generate(&fv(91), &fv(92));
    let (k1, _) = PrivateKey::generate(&fv(93), &fv(94));
    let mut bank = Bank::new(BindingBackend, 3);
    bank.deposit_withdraw(&vec![dw(2, k0, 40)]).expect("first deposit");
    let (delta, cs, _) = bank
        .deposit_withdraw(&vec![dw(2, k0, 0), dw(7, k1, 9)])
        .expect("second batch");
    // Slot 2 got amount zero with its already-bound key: unchanged. Slot 7 is new.
    let keys: Vec<u64> = delta.entries.iter().map(|e| e.0).collect();
    assert_eq!(keys, vec![7]);
    assert_eq!(delta.entries[0].1, Account {
        nonce: 0,
        balance: 9,
        address: k1,
    }
    .hash());
    assert_eq!(cs.size, 2);
}

#[test]
fn empty_batch_commits_without_changes() {
    let mut bank = Bank::new(BindingBackend, 3);
    let r = bank.root();
    let (delta, cs, _) = bank.deposit_withdraw(&vec![]).expect("empty batch");
    assert!(delta.entries.is_empty());
    assert_eq!(cs.root, r.root);
    assert_eq!(cs.size, 0);
}

#[test]
fn transfer_to_self_costs_the_fee() {
    let (k0, sk0) = PrivateKey::generate(&fv(101), &fv(102));
    let mut bank = Bank::new(BindingBackend, 3);
    bank.deposit_withdraw(&vec![dw(0, k0, 100)]).expect("funding deposit");

    let mut tx = Transaction {
        nonce: 0,
        src_index: 0,
        dst_index: 0,
        dst_pub_key: k0,
        amount: 30,
        fee: 2,
        sig: Signature::empty(),
    };
    tx.sign(&sk0);
    bank.change_state(&vec![tx]).expect("self transfer");
    let acc = bank.get_account(0);
    // The debit of amount plus fee lands first, then the credit of the amount.
    assert_eq!(acc.balance, 98);
    assert_eq!(acc.nonce, 1);
    assert_eq!(acc.address, k0);
}
