use vstd::prelude::*;

use crate::account::{account_at, Account, DepositWithdraw, Transaction};
use crate::circuits::{
    CircuitKind, DepositWithdrawTransition, DepositWithdrawTransitionBatch, Proof, ProofBackend,
    Transition, TransitionBatch, BATCH_SIZE,
};
use crate::field::FieldValue;
use crate::tree::{pow4, MerkleStateTree};

verus! {

/// Why a batch was rejected. The first four abort validation and leave the
/// canonical store untouched; the last reports a proof that failed the
/// engine's own check after a valid batch, and also leaves the store
/// untouched.
#[derive(Clone, Copy, Debug, PartialEq, Eq, Structural)]
pub enum BankError {
    BalanceInsufficient,
    InvalidNonce,
    InvalidSignature,
    InvalidPublicKey,
    CannotProve,
}

/// The succinct `(root, size)` summary of the ledger.
pub struct CompressedState {
    pub root: FieldValue,
    pub size: u64,
}

/// The minimal write-set of a committed batch: each changed slot with its new
/// leaf commitment.
pub struct StateDelta {
    pub entries: Vec<(u64, FieldValue)>,
}

/// What a correct delta says of the step from `m0` to `m1`: its slots are
/// unique, each named slot changed and carries the new leaf commitment, and
/// every changed slot is named.
pub open spec fn delta_ok(d: Seq<(u64, FieldValue)>, m0: Map<nat, Account>, m1: Map<
    nat,
    Account,
>) -> bool {
    &&& forall|i: int, j: int| 0 <= i < j < d.len() ==> (#[trigger] d[i]).0 != (#[trigger] d[j]).0
    &&& forall|i: int|
        0 <= i < d.len() ==> account_at(m1, (#[trigger] d[i]).0 as nat) != account_at(
            m0,
            d[i].0 as nat,
        ) && d[i].1.value() == account_at(m1, d[i].0 as nat).hash_spec()
    &&& forall|j: nat|
        account_at(m1, j) != #[trigger] account_at(m0, j) ==> exists|i: int|
            0 <= i < d.len() && (#[trigger] d[i]).0 as nat == j
}

/// The error one deposit/withdraw raises against a state, if any: a bound key
/// that differs from the transaction's, or a withdrawal past the balance.
pub open spec fn dw_step_err(m: Map<nat, Account>, tx: DepositWithdraw) -> Option<BankError> {
    let acc = account_at(m, tx.index as nat);
    if !acc.address.is_null_spec() && acc.address != tx.pub_key {
        Some(BankError::InvalidPublicKey)
    } else if acc.balance + tx.amount < 0 {
        Some(BankError::BalanceInsufficient)
    } else {
        None
    }
}

/// The machine limit one applied deposit must meet: the credited balance
/// still fits a word.
pub open spec fn dw_step_fits(m: Map<nat, Account>, tx: DepositWithdraw) -> bool {
    account_at(m, tx.index as nat).balance + tx.amount <= u64::MAX
}

/// One deposit/withdraw applied: the key is bound, the balance moves by the
/// signed amount, the nonce stays.
pub open spec fn dw_apply1(m: Map<nat, Account>, tx: DepositWithdraw) -> Map<nat, Account> {
    let acc = account_at(m, tx.index as nat);
    m.insert(
        tx.index as nat,
        Account {
            nonce: acc.nonce,
            balance: (acc.balance + tx.amount) as u64,
            address: tx.pub_key,
        },
    )
}

/// The first error a deposit/withdraw batch raises, processed strictly in
/// order against the chained state, if any.
pub open spec fn dw_batch_err(m: Map<nat, Account>, txs: Seq<DepositWithdraw>) -> Option<BankError>
    decreases txs.len(),
{
    if txs.len() == 0 {
        None
    } else if dw_step_err(m, txs[0]) is Some {
        dw_step_err(m, txs[0])
    } else {
        dw_batch_err(dw_apply1(m, txs[0]), txs.drop_first())
    }
}

/// The state after a deposit/withdraw batch, stopping at the first error.
pub open spec fn dw_batch_apply(m: Map<nat, Account>, txs: Seq<DepositWithdraw>) -> Map<
    nat,
    Account,
>
    decreases txs.len(),
{
    if txs.len() == 0 || dw_step_err(m, txs[0]) is Some {
        m
    } else {
        dw_batch_apply(dw_apply1(m, txs[0]), txs.drop_first())
    }
}

/// Whether every applied step of the batch stays within machine limits.
pub open spec fn dw_batch_fits(m: Map<nat, Account>, txs: Seq<DepositWithdraw>) -> bool
    decreases txs.len(),
{
    if txs.len() == 0 || dw_step_err(m, txs[0]) is Some {
        true
    } else {
        dw_step_fits(m, txs[0]) && dw_batch_fits(dw_apply1(m, txs[0]), txs.drop_first())
    }
}

/// A batch changes no slot it does not address.
pub proof fn lemma_dw_untouched(m: Map<nat, Account>, txs: Seq<DepositWithdraw>, j: nat)
    requires
        forall|i: int| 0 <= i < txs.len() ==> (#[trigger] txs[i]).index as nat != j,
    ensures
        account_at(dw_batch_apply(m, txs), j) == account_at(m, j),
    decreases txs.len(),
{
    if txs.len() > 0 && dw_step_err(m, txs[0]) is None {
        assert(forall|i: int|
            0 <= i < txs.drop_first().len() ==> (#[trigger] txs.drop_first()[i]).index as nat
                != j);
        lemma_dw_untouched(dw_apply1(m, txs[0]), txs.drop_first(), j);
    }
}

/// The signed sum of the batch's amounts aimed at one slot.
pub open spec fn dw_signed_sum(txs: Seq<DepositWithdraw>, j: nat) -> int
    decreases txs.len(),
{
    if txs.len() == 0 {
        0
    } else {
        (if txs[0].index as nat == j {
            txs[0].amount as int
        } else {
            0
        }) + dw_signed_sum(txs.drop_first(), j)
    }
}

/// For a batch that validates in full, each slot's final balance is its
/// starting balance plus the signed sum of the amounts aimed at it, applied
/// in order. Balances are unsigned words, so no intermediate or final balance
/// is ever negative.
pub proof fn lemma_dw_balance_is_signed_sum(m: Map<nat, Account>, txs: Seq<DepositWithdraw>, j: nat)
    requires
        dw_batch_err(m, txs) is None,
        dw_batch_fits(m, txs),
    ensures
        account_at(dw_batch_apply(m, txs), j).balance == account_at(m, j).balance + dw_signed_sum(
            txs,
            j,
        ),
    decreases txs.len(),
{
    if txs.len() > 0 {
        lemma_dw_balance_is_signed_sum(dw_apply1(m, txs[0]), txs.drop_first(), j);
    }
}

/// The error one transfer raises against a state, if any: a stale nonce, a
/// signature that fails under the source's key, or funds short of amount
/// plus fee.
pub open spec fn cs_step_err(m: Map<nat, Account>, tx: Transaction) -> Option<BankError> {
    let src = account_at(m, tx.src_index as nat);
    if tx.nonce != src.nonce {
        Some(BankError::InvalidNonce)
    } else if !tx.sig_ok_spec(src.address) {
        Some(BankError::InvalidSignature)
    } else if src.balance < tx.amount + tx.fee {
        Some(BankError::BalanceInsufficient)
    } else {
        None
    }
}

/// The machine limits one applied transfer must meet: the source's nonce can
/// still increment and the destination's credited balance fits a word.
pub open spec fn cs_step_fits(m: Map<nat, Account>, tx: Transaction) -> bool {
    let src = account_at(m, tx.src_index as nat);
    let m1 = m.insert(
        tx.src_index as nat,
        Account {
            nonce: (src.nonce + 1) as u64,
            balance: (src.balance - tx.amount - tx.fee) as u64,
            address: src.address,
        },
    );
    let dst = account_at(m1, tx.dst_index as nat);
    src.nonce < u64::MAX && dst.balance + tx.amount <= u64::MAX
}

/// One transfer applied: the source is debited amount plus fee and its nonce
/// increments; then the destination is credited the amount, binding the
/// transaction's destination key if the slot had none.
pub open spec fn cs_apply1(m: Map<nat, Account>, tx: Transaction) -> Map<nat, Account> {
    let src = account_at(m, tx.src_index as nat);
    let m1 = m.insert(
        tx.src_index as nat,
        Account {
            nonce: (src.nonce + 1) as u64,
            balance: (src.balance - tx.amount - tx.fee) as u64,
            address: src.address,
        },
    );
    let dst = account_at(m1, tx.dst_index as nat);
    let bound = if dst.address.is_null_spec() {
        tx.dst_pub_key
    } else {
        dst.address
    };
    m1.insert(
        tx.dst_index as nat,
        Account { nonce: dst.nonce, balance: (dst.balance + tx.amount) as u64, address: bound },
    )
}

/// The first error a transfer batch raises, processed strictly in order
/// against the chained state, if any.
pub open spec fn cs_batch_err(m: Map<nat, Account>, txs: Seq<Transaction>) -> Option<BankError>
    decreases txs.len(),
{
    if txs.len() == 0 {
        None
    } else if cs_step_err(m, txs[0]) is Some {
        cs_step_err(m, txs[0])
    } else {
        cs_batch_err(cs_apply1(m, txs[0]), txs.drop_first())
    }
}

/// The state after a transfer batch, stopping at the first error.
pub open spec fn cs_batch_apply(m: Map<nat, Account>, txs: Seq<Transaction>) -> Map<nat, Account>
    decreases txs.len(),
{
    if txs.len() == 0 || cs_step_err(m, txs[0]) is Some {
        m
    } else {
        cs_batch_apply(cs_apply1(m, txs[0]), txs.drop_first())
    }
}

/// Whether every applied step of the batch stays within machine limits.
pub open spec fn cs_batch_fits(m: Map<nat, Account>, txs: Seq<Transaction>) -> bool
    decreases txs.len(),
{
    if txs.len() == 0 || cs_step_err(m, txs[0]) is Some {
        true
    } else {
        cs_step_fits(m, txs[0]) && cs_batch_fits(cs_apply1(m, txs[0]), txs.drop_first())
    }
}

/// A transfer batch changes no slot it addresses neither as source nor as
/// destination.
pub proof fn lemma_cs_untouched(m: Map<nat, Account>, txs: Seq<Transaction>, j: nat)
    requires
        forall|i: int|
            0 <= i < txs.len() ==> (#[trigger] txs[i]).src_index as nat != j
                && txs[i].dst_index as nat != j,
    ensures
        account_at(cs_batch_apply(m, txs), j) == account_at(m, j),
    decreases txs.len(),
{
    if txs.len() > 0 && cs_step_err(m, txs[0]) is None {
        assert(forall|i: int|
            0 <= i < txs.drop_first().len() ==> (#[trigger] txs.drop_first()[i]).src_index as nat
                != j && txs.drop_first()[i].dst_index as nat != j);
        lemma_cs_untouched(cs_apply1(m, txs[0]), txs.drop_first(), j);
    }
}

/// Scans a delta under construction for a slot.
fn delta_contains(entries: &Vec<(u64, FieldValue)>, idx: u64) -> (r: bool)
    ensures
        r == exists|i: int| 0 <= i < entries@.len() && (#[trigger] entries@[i]).0 == idx,
{
    let mut i: usize = 0;
    while i < entries.len()
        invariant
            i <= entries@.len(),
            forall|j: int| 0 <= j < i ==> (#[trigger] entries@[j]).0 != idx,
        decreases entries@.len() - i,
    {
        if entries[i].0 == idx {
            return true;
        }
        i = i + 1;
    }
    false
}

/// Diffs the mirror against the canonical state over the touched slots,
/// yielding the minimal write-set of the batch.
fn export_delta(pre: &MerkleStateTree, post: &MerkleStateTree, touched: &Vec<u64>) -> (r:
    StateDelta)
    requires
        pre.wf(),
        post.wf(),
        forall|j: nat|
            account_at(post.accounts(), j) != #[trigger] account_at(pre.accounts(), j)
                ==> exists|i: int| 0 <= i < touched@.len() && (#[trigger] touched@[i]) as nat == j,
    ensures
        delta_ok(r.entries@, pre.accounts(), post.accounts()),
{
    let mut entries: Vec<(u64, FieldValue)> = Vec::new();
    let mut k: usize = 0;
    while k < touched.len()
        invariant
            pre.wf(),
            post.wf(),
            k <= touched@.len(),
            forall|i: int, j: int|
                0 <= i < j < entries@.len() ==> (#[trigger] entries@[i]).0 != (
                #[trigger] entries@[j]).0,
            forall|i: int|
                0 <= i < entries@.len() ==> account_at(
                    post.accounts(),
                    (#[trigger] entries@[i]).0 as nat,
                ) != account_at(pre.accounts(), entries@[i].0 as nat) && entries@[i].1.value()
                    == account_at(post.accounts(), entries@[i].0 as nat).hash_spec(),
            forall|t: int|
                0 <= t < k && account_at(post.accounts(), (#[trigger] touched@[t]) as nat)
                    != account_at(pre.accounts(), touched@[t] as nat) ==> exists|i: int|
                    0 <= i < entries@.len() && (#[trigger] entries@[i]).0 == touched@[t],
        decreases touched@.len() - k,
    {
        let idx = touched[k];
        let had = delta_contains(&entries, idx);
        let ghost entries0 = entries@;
        if !had {
            let a0 = pre.get(idx);
            let a1 = post.get(idx);
            if !(a0 == a1) {
                let h = a1.hash();
                entries.push((idx, h));
            }
        }
        proof {
            assert forall|t: int|
                0 <= t < k + 1 && account_at(post.accounts(), (#[trigger] touched@[t]) as nat)
                    != account_at(pre.accounts(), touched@[t] as nat) implies exists|i: int|
                0 <= i < entries@.len() && (#[trigger] entries@[i]).0 == touched@[t] by {
                if t < k {
                    let i = choose|i: int|
                        0 <= i < entries0.len() && (#[trigger] entries0[i]).0 == touched@[t];
                    assert(entries@[i].0 == touched@[t]);
                } else {
                    if had {
                        let i = choose|i: int|
                            0 <= i < entries0.len() && (#[trigger] entries0[i]).0 == idx;
                        assert(entries@[i].0 == idx);
                    } else {
                        assert(entries@[entries@.len() - 1].0 == idx);
                    }
                }
            }
        }
        k = k + 1;
    }
    StateDelta { entries }
}

/// The off-chain ledger: a proving backend held for the process's lifetime
/// and the canonical account tree.
pub struct Bank<B: ProofBackend> {
    backend: B,
    tree: MerkleStateTree,
}

impl<B: ProofBackend> Bank<B> {
    pub closed spec fn wf(self) -> bool {
        self.tree.wf()
    }

    /// The ledger's account contents.
    pub closed spec fn accounts(self) -> Map<nat, Account> {
        self.tree.accounts()
    }

    pub closed spec fn depth_spec(self) -> nat {
        self.tree.depth_spec()
    }

    pub closed spec fn root_spec(self) -> nat {
        self.tree.root_spec()
    }

    pub closed spec fn size_spec(self) -> nat {
        self.tree.size_spec()
    }

    /// A fresh ledger of the given depth, driven by the given backend.
    pub fn new(backend: B, depth: usize) -> (r: Self)
        requires
            depth <= 31,
        ensures
            r.wf(),
            r.depth_spec() == depth,
            r.accounts() == Map::<nat, Account>::empty(),
    {
        Bank { backend, tree: MerkleStateTree::new(depth) }
    }

    /// The account standing at a slot.
    pub fn get_account(&self, index: u64) -> (r: Account)
        requires
            self.wf(),
        ensures
            r == account_at(self.accounts(), index as nat),
    {
        self.tree.get(index)
    }

    /// Every touched slot with its balance: sound and complete for the
    /// ledger's domain.
    pub fn balances(&self) -> (r: Vec<(u64, u64)>)
        requires
            self.wf(),
        ensures
            r@.len() == self.size_spec(),
            forall|i: int|
                0 <= i < r@.len() ==> self.accounts().dom().contains(
                    (#[trigger] r@[i]).0 as nat,
                ) && r@[i].1 == account_at(self.accounts(), r@[i].0 as nat).balance,
            forall|j: nat|
                self.accounts().dom().contains(j) ==> exists|i: int|
                    0 <= i < r@.len() && ((#[trigger] r@[i]).0 as nat) == j,
    {
        self.tree.balances()
    }

    /// The current `(root, size)` summary.
    pub fn root(&self) -> (r: CompressedState)
        requires
            self.wf(),
        ensures
            r.root.value() == self.root_spec(),
            r.size == self.size_spec(),
    {
        let root = self.tree.root();
        let size = self.tree.size();
        CompressedState { root, size: size as u64 }
    }

    /// Applies one batch of deposits and withdrawals atomically: validates
    /// and mutates a mirror in order, proves the transition, self-checks the
    /// proof, and only then commits. On any error the canonical store is
    /// untouched.
    pub fn deposit_withdraw(&mut self, txs: &Vec<DepositWithdraw>) -> (r: Result<
        (StateDelta, CompressedState, Proof),
        BankError,
    >)
        requires
            old(self).wf(),
            txs@.len() <= BATCH_SIZE,
            dw_batch_fits(old(self).accounts(), txs@),
            forall|i: int|
                0 <= i < txs@.len() ==> ((#[trigger] txs@[i]).index as nat) < pow4(
                    old(self).depth_spec(),
                ),
        ensures
            final (self).wf(),
            final (self).depth_spec() == old(self).depth_spec(),
            r is Err ==> final (self).accounts() == old(self).accounts() && final (
            self).root_spec() == old(self).root_spec() && final (self).size_spec() == old(
                self,
            ).size_spec(),
            dw_batch_err(old(self).accounts(), txs@) matches Some(e) ==> r == Result::<
                (StateDelta, CompressedState, Proof),
                BankError,
            >::Err(e),
            dw_batch_err(old(self).accounts(), txs@) is None && r is Err ==> r->Err_0
                == BankError::CannotProve,
            r is Ok ==> dw_batch_err(old(self).accounts(), txs@) is None && final (
            self).accounts() == dw_batch_apply(old(self).accounts(), txs@) && (
            r->Ok_0).1.root.value() == final (self).root_spec() && (r->Ok_0).1.size == final (
            self).size_spec() && delta_ok(
                (r->Ok_0).0.entries@,
                old(self).accounts(),
                final (self).accounts(),
            ),
    {
        let ghost m0 = self.tree.accounts();
        let old_root = self.tree.root();
        let mut mirror = self.tree.mirror();
        let mut transitions: Vec<DepositWithdrawTransition> = Vec::new();
        let mut touched: Vec<u64> = Vec::new();
        let mut k: usize = 0;
        proof {
            assert(txs@.skip(0) =~= txs@);
        }
        while k < txs.len()
            invariant
                *self == *old(self),
                self.wf(),
                m0 == self.tree.accounts(),
                mirror.wf(),
                mirror.depth_spec() == self.tree.depth_spec(),
                k <= txs@.len(),
                txs@.len() <= BATCH_SIZE,
                transitions@.len() == k,
                touched@.len() == k,
                forall|i: int| 0 <= i < k ==> (#[trigger] touched@[i]) == txs@[i].index,
                forall|i: int|
                    0 <= i < txs@.len() ==> ((#[trigger] txs@[i]).index as nat) < pow4(
                        self.tree.depth_spec(),
                    ),
                dw_batch_err(m0, txs@) == dw_batch_err(mirror.accounts(), txs@.skip(k as int)),
                dw_batch_apply(m0, txs@) == dw_batch_apply(mirror.accounts(), txs@.skip(k as int)),
                dw_batch_fits(mirror.accounts(), txs@.skip(k as int)),
            decreases txs@.len() - k,
        {
            let ghost rest = txs@.skip(k as int);
            proof {
                assert(rest[0] == txs@[k as int]);
                assert(rest.drop_first() =~= txs@.skip(k as int + 1));
            }
            let ghost mk = mirror.accounts();
            let tx = txs[k];
            let acc = mirror.get(tx.index);
            if !acc.address.is_null() && !(tx.pub_key == acc.address) {
                return Err(BankError::InvalidPublicKey);
            }
            let new_balance: u64 = if tx.amount < 0 {
                let w = (-(tx.amount as i128)) as u64;
                proof {
                    assert(w == -(tx.amount as int));
                }
                if acc.balance < w {
                    return Err(BankError::BalanceInsufficient);
                }
                acc.balance - w
            } else {
                proof {
                    assert(dw_step_err(mk, tx) is None);
                    assert(dw_step_fits(mk, tx));
                }
                acc.balance + (tx.amount as u64)
            };
            let proof_inc = mirror.prove(tx.index);
            let updated = Account { nonce: acc.nonce, balance: new_balance, address: tx.pub_key };
            proof {
                assert(dw_step_err(mk, tx) is None);
                assert(new_balance as int == acc.balance + tx.amount);
                assert(dw_apply1(mk, tx) =~= mk.insert(tx.index as nat, updated));
            }
            mirror.set(tx.index, updated);
            transitions.push(
                DepositWithdrawTransition { enabled: true, tx, before: acc, proof: proof_inc },
            );
            touched.push(tx.index);
            k = k + 1;
        }
        proof {
            assert(txs@.skip(txs@.len() as int) =~= Seq::<DepositWithdraw>::empty());
            assert(mirror.accounts() == dw_batch_apply(m0, txs@));
            assert forall|j: nat|
                account_at(mirror.accounts(), j) != #[trigger] account_at(
                    self.tree.accounts(),
                    j,
                ) implies exists|i: int|
                0 <= i < touched@.len() && (#[trigger] touched@[i]) as nat == j by {
                if forall|i: int| 0 <= i < txs@.len() ==> (#[trigger] txs@[i]).index as nat != j {
                    lemma_dw_untouched(m0, txs@, j);
                } else {
                    let i = choose|i: int|
                        0 <= i < txs@.len() && (#[trigger] txs@[i]).index as nat == j;
                    assert(touched@[i] as nat == j);
                }
            }
        }
        let delta = export_delta(&self.tree, &mirror, &touched);
        let size = mirror.size();
        let new_root = mirror.root();
        let batch = DepositWithdrawTransitionBatch::new(transitions);
        let aux = FieldValue::zero();
        let p = self.backend.prove_deposit_withdraw(&old_root, &aux, &new_root, &batch);
        if self.backend.verify(CircuitKind::DepositWithdraw, &old_root, &aux, &new_root, &p) {
            self.tree = mirror;
            Ok((delta, CompressedState { root: new_root, size: size as u64 }, p))
        } else {
            Err(BankError::CannotProve)
        }
    }

    /// Applies one batch of signed transfers atomically: validates and
    /// mutates a mirror in order, proves the transition, self-checks the
    /// proof, and only then commits. On any error the canonical store is
    /// untouched.
    pub fn change_state(&mut self, txs: &Vec<Transaction>) -> (r: Result<
        (StateDelta, CompressedState, Proof),
        BankError,
    >)
        requires
            old(self).wf(),
            txs@.len() <= BATCH_SIZE,
            cs_batch_fits(old(self).accounts(), txs@),
            forall|i: int|
                0 <= i < txs@.len() ==> ((#[trigger] txs@[i]).src_index as nat) < pow4(
                    old(self).depth_spec(),
                ) && (txs@[i].dst_index as nat) < pow4(old(self).depth_spec()),
        ensures
            final (self).wf(),
            final (self).depth_spec() == old(self).depth_spec(),
            r is Err ==> final (self).accounts() == old(self).accounts() && final (
            self).root_spec() == old(self).root_spec() && final (self).size_spec() == old(
                self,
            ).size_spec(),
            cs_batch_err(old(self).accounts(), txs@) matches Some(e) ==> r == Result::<
                (StateDelta, CompressedState, Proof),
                BankError,
            >::Err(e),
            cs_batch_err(old(self).accounts(), txs@) is None && r is Err ==> r->Err_0
                == BankError::CannotProve,
            r is Ok ==> cs_batch_err(old(self).accounts(), txs@) is None && final (
            self).accounts() == cs_batch_apply(old(self).accounts(), txs@) && (
            r->Ok_0).1.root.value() == final (self).root_spec() && (r->Ok_0).1.size == final (
            self).size_spec() && delta_ok(
                (r->Ok_0).0.entries@,
                old(self).accounts(),
                final (self).accounts(),
            ),
    {
        let ghost m0 = self.tree.accounts();
        let old_root = self.tree.root();
        let mut mirror = self.tree.mirror();
        let mut transitions: Vec<Transition> = Vec::new();
        let mut touched: Vec<u64> = Vec::new();
        let mut k: usize = 0;
        proof {
            assert(txs@.skip(0) =~= txs@);
        }
        while k < txs.len()
            invariant
                *self == *old(self),
                self.wf(),
                m0 == self.tree.accounts(),
                mirror.wf(),
                mirror.depth_spec() == self.tree.depth_spec(),
                k <= txs@.len(),
                txs@.len() <= BATCH_SIZE,
                transitions@.len() == k,
                touched@.len() == 2 * k,
                forall|i: int|
                    0 <= i < k ==> (#[trigger] touched@[2 * i]) == txs@[i].src_index && touched@[2
                        * i + 1] == txs@[i].dst_index,
                forall|i: int|
                    0 <= i < txs@.len() ==> ((#[trigger] txs@[i]).src_index as nat) < pow4(
                        self.tree.depth_spec(),
                    ) && (txs@[i].dst_index as nat) < pow4(self.tree.depth_spec()),
                cs_batch_err(m0, txs@) == cs_batch_err(mirror.accounts(), txs@.skip(k as int)),
                cs_batch_apply(m0, txs@) == cs_batch_apply(mirror.accounts(), txs@.skip(k as int)),
                cs_batch_fits(mirror.accounts(), txs@.skip(k as int)),
            decreases txs@.len() - k,
        {
            let ghost rest = txs@.skip(k as int);
            proof {
                assert(rest[0] == txs@[k as int]);
                assert(rest.drop_first() =~= txs@.skip(k as int + 1));
            }
            let ghost mk = mirror.accounts();
            let tx = txs[k];
            let src = mirror.get(tx.src_index);
            if tx.nonce != src.nonce {
                return Err(BankError::InvalidNonce);
            }
            if !tx.verify(&src.address) {
                return Err(BankError::InvalidSignature);
            }
            if (src.balance as u128) < (tx.amount as u128) + (tx.fee as u128) {
                return Err(BankError::BalanceInsufficient);
            }
            proof {
                assert(cs_step_err(mk, tx) is None);
                assert(cs_step_fits(mk, tx));
            }
            let src_proof = mirror.prove(tx.src_index);
            let debited = Account {
                nonce: src.nonce + 1,
                balance: src.balance - tx.amount - tx.fee,
                address: src.address,
            };
            mirror.set(tx.src_index, debited);
            let dst = mirror.get(tx.dst_index);
            let dst_proof = mirror.prove(tx.dst_index);
            let bound = if dst.address.is_null() {
                tx.dst_pub_key
            } else {
                dst.address
            };
            let credited = Account {
                nonce: dst.nonce,
                balance: dst.balance + tx.amount,
                address: bound,
            };
            proof {
                assert(mirror.accounts() == mk.insert(tx.src_index as nat, debited));
                assert(cs_apply1(mk, tx) =~= mirror.accounts().insert(tx.dst_index as nat, credited));
            }
            mirror.set(tx.dst_index, credited);
            transitions.push(
                Transition {
                    enabled: true,
                    tx,
                    src_before: src,
                    src_proof,
                    dst_before: dst,
                    dst_proof,
                },
            );
            let ghost touched0 = touched@;
            touched.push(tx.src_index);
            touched.push(tx.dst_index);
            proof {
                assert forall|i: int|
                    0 <= i < k + 1 implies (#[trigger] touched@[2 * i]) == txs@[i].src_index
                    && touched@[2 * i + 1] == txs@[i].dst_index by {
                    if i < k {
                        assert(touched@[2 * i] == touched0[2 * i]);
                        assert(touched@[2 * i + 1] == touched0[2 * i + 1]);
                    } else {
                        assert(touched@[2 * i] == tx.src_index);
                        assert(touched@[2 * i + 1] == tx.dst_index);
                    }
                }
            }
            k = k + 1;
        }
        proof {
            assert(txs@.skip(txs@.len() as int) =~= Seq::<Transaction>::empty());
            assert(mirror.accounts() == cs_batch_apply(m0, txs@));
            assert forall|j: nat|
                account_at(mirror.accounts(), j) != #[trigger] account_at(
                    self.tree.accounts(),
                    j,
                ) implies exists|i: int|
                0 <= i < touched@.len() && (#[trigger] touched@[i]) as nat == j by {
                if forall|i: int|
                    0 <= i < txs@.len() ==> (#[trigger] txs@[i]).src_index as nat != j
                        && txs@[i].dst_index as nat != j {
                    lemma_cs_untouched(m0, txs@, j);
                } else {
                    let i = choose|i: int|
                        0 <= i < txs@.len() && ((#[trigger] txs@[i]).src_index as nat == j
                            || txs@[i].dst_index as nat == j);
                    assert(touched@[2 * i] == txs@[i].src_index);
                    if txs@[i].src_index as nat == j {
                        assert(touched@[2 * i] as nat == j);
                    } else {
                        assert(touched@[2 * i + 1] as nat == j);
                    }
                }
            }
        }
        let delta = export_delta(&self.tree, &mirror, &touched);
        let size = mirror.size();
        let new_root = mirror.root();
        let batch = TransitionBatch::new(transitions);
        let aux = FieldValue::zero();
        let p = self.backend.prove_update(&old_root, &aux, &new_root, &batch);
        if self.backend.verify(CircuitKind::Update, &old_root, &aux, &new_root, &p) {
            self.tree = mirror;
            Ok((delta, CompressedState { root: new_root, size: size as u64 }, p))
        } else {
            Err(BankError::CannotProve)
        }
    }
}

} // verus!

