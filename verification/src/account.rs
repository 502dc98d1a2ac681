use vstd::prelude::*;

use crate::crypto::{
    eddsa_verify, field_order, mimc_hash, mimc_hash_spec, reduce, sig_valid_of, PrivateKey,
    PublicKey, Signature,
};
use crate::field::FieldValue;

verus! {

/// One ledger leaf: the account's replay counter, funds, and bound key.
#[derive(Clone, Copy, Debug, PartialEq, Eq, Structural)]
pub struct Account {
    pub nonce: u64,
    pub balance: u64,
    pub address: PublicKey,
}

impl Account {
    /// The state of a leaf that was never touched.
    pub open spec fn default_spec() -> Account {
        Account { nonce: 0, balance: 0, address: PublicKey::null_spec() }
    }

    /// The value committed for this account's leaf.
    pub open spec fn hash_spec(self) -> nat {
        mimc_hash_spec(
            seq![
                self.nonce as nat,
                self.balance as nat,
                self.address.x_val(),
                if self.address.odd_spec() {
                    1nat
                } else {
                    0nat
                },
            ],
        )
    }

    /// Hashes the account's fields into its leaf commitment.
    pub fn hash(&self) -> (r: FieldValue)
        ensures
            r.value() == self.hash_spec(),
            r.value() < field_order(),
    {
        let mut inp: Vec<FieldValue> = Vec::new();
        inp.push(FieldValue::from_u64(self.nonce));
        inp.push(FieldValue::from_u64(self.balance));
        inp.push(self.address.x_field());
        inp.push(FieldValue::from_u64(if self.address.odd_bit() {
            1
        } else {
            0
        }));
        let r = mimc_hash(&inp);
        proof {
            let vals = inp@.map_values(|v: FieldValue| v.value());
            let want = seq![
                self.nonce as nat,
                self.balance as nat,
                self.address.x_val(),
                if self.address.odd_spec() {
                    1nat
                } else {
                    0nat
                },
            ];
            assert(vals =~= want);
        }
        r
    }
}

impl Default for Account {
    fn default() -> (r: Self)
        ensures
            r == Self::default_spec(),
    {
        Account { nonce: 0, balance: 0, address: PublicKey::null() }
    }
}

/// The account standing at a slot: the stored leaf, or the default account
/// for a slot that was never touched.
pub open spec fn account_at(m: Map<nat, Account>, i: nat) -> Account {
    if m.dom().contains(i) {
        m[i]
    } else {
        Account::default_spec()
    }
}

/// A deposit (positive amount) or withdrawal (negative amount) against one
/// slot, authorized outside this ledger.
#[derive(Clone, Copy, Debug)]
pub struct DepositWithdraw {
    pub index: u64,
    pub pub_key: PublicKey,
    pub amount: i64,
}

/// A signed transfer between two slots.
#[derive(Clone, Copy, Debug)]
pub struct Transaction {
    pub nonce: u64,
    pub src_index: u64,
    pub dst_index: u64,
    pub dst_pub_key: PublicKey,
    pub amount: u64,
    pub fee: u64,
    pub sig: Signature,
}

impl Transaction {
    /// The message a transfer's signature covers: every field that names the
    /// parties and the amounts, so none can be reshaped in flight.
    pub open spec fn hash_field_spec(self) -> nat {
        mimc_hash_spec(
            seq![
                self.nonce as nat,
                self.src_index as nat,
                self.dst_index as nat,
                self.dst_pub_key.x_val(),
                if self.dst_pub_key.odd_spec() {
                    1nat
                } else {
                    0nat
                },
                self.amount as nat,
                self.fee as nat,
            ],
        )
    }

    /// Whether this transfer's signature verifies under the given key.
    pub open spec fn sig_ok_spec(self, pk: PublicKey) -> bool {
        sig_valid_of(
            reduce(pk.x_val()),
            pk.odd_spec(),
            reduce(self.hash_field_spec()),
            reduce(self.sig.rx_val()),
            reduce(self.sig.ry_val()),
            reduce(self.sig.s_val()),
        )
    }

    /// Hashes the transfer's signable fields.
    pub fn hash(&self) -> (r: FieldValue)
        ensures
            r.value() == self.hash_field_spec(),
            r.value() < field_order(),
    {
        let mut inp: Vec<FieldValue> = Vec::new();
        inp.push(FieldValue::from_u64(self.nonce));
        inp.push(FieldValue::from_u64(self.src_index));
        inp.push(FieldValue::from_u64(self.dst_index));
        inp.push(self.dst_pub_key.x_field());
        inp.push(FieldValue::from_u64(if self.dst_pub_key.odd_bit() {
            1
        } else {
            0
        }));
        inp.push(FieldValue::from_u64(self.amount));
        inp.push(FieldValue::from_u64(self.fee));
        let r = mimc_hash(&inp);
        proof {
            let vals = inp@.map_values(|v: FieldValue| v.value());
            let want = seq![
                self.nonce as nat,
                self.src_index as nat,
                self.dst_index as nat,
                self.dst_pub_key.x_val(),
                if self.dst_pub_key.odd_spec() {
                    1nat
                } else {
                    0nat
                },
                self.amount as nat,
                self.fee as nat,
            ];
            assert(vals =~= want);
        }
        r
    }

    /// Checks the transfer's signature under the given key.
    pub fn verify(&self, pk: &PublicKey) -> (r: bool)
        ensures
            r == self.sig_ok_spec(*pk),
    {
        let h = self.hash();
        proof {
            vstd::arithmetic::div_mod::lemma_small_mod(h.value(), field_order());
        }
        eddsa_verify(pk, &h, &self.sig)
    }

    /// Signs the transfer under the given key, leaving every other field as
    /// it stands.
    pub fn sign(&mut self, sk: &PrivateKey)
        ensures
            final (self).nonce == old(self).nonce,
            final (self).src_index == old(self).src_index,
            final (self).dst_index == old(self).dst_index,
            final (self).dst_pub_key == old(self).dst_pub_key,
            final (self).amount == old(self).amount,
            final (self).fee == old(self).fee,
    {
        let h = self.hash();
        self.sig = sk.sign(&h);
    }
}

} // verus!
