use vstd::prelude::*;

use vstd::arithmetic::div_mod::lemma_div_denominator;

use crate::account::{account_at, Account};
use crate::crypto::{field_order, mimc_hash, mimc_hash_spec};
use crate::field::FieldValue;

verus! {

/// 4 to the `n`: the capacity of a quad subtree of height `n`.
pub open spec fn pow4(n: nat) -> nat
    decreases n,
{
    if n == 0 {
        1
    } else {
        4 * pow4((n - 1) as nat)
    }
}

proof fn lemma_pow4_mono(a: nat, b: nat)
    requires
        a <= b,
    ensures
        pow4(a) <= pow4(b),
    decreases b,
{
    if a < b && b > 0 {
        lemma_pow4_mono(a, (b - 1) as nat);
    }
}

proof fn lemma_pow4_pos(n: nat)
    ensures
        pow4(n) >= 1,
    decreases n,
{
    if n > 0 {
        lemma_pow4_pos((n - 1) as nat);
    }
}

proof fn lemma_pow4_fits(n: nat)
    requires
        n <= 31,
    ensures
        pow4(n) <= 0x4000000000000000,
{
    lemma_pow4_mono(n, 31);
    assert(pow4(31) == 0x4000000000000000) by {
        reveal_with_fuel(pow4, 32);
    };
}

/// The account map held by a list of slot entries; a later entry for a slot
/// would shadow an earlier one, though well-formed trees keep slots unique.
pub open spec fn map_of(s: Seq<(u64, Account)>) -> Map<nat, Account>
    decreases s.len(),
{
    if s.len() == 0 {
        Map::empty()
    } else {
        map_of(s.drop_last()).insert(s.last().0 as nat, s.last().1)
    }
}

pub open spec fn keys_unique(s: Seq<(u64, Account)>) -> bool {
    forall|i: int, j: int| 0 <= i < j < s.len() ==> (#[trigger] s[i]).0 != (#[trigger] s[j]).0
}

proof fn lemma_map_of_found(s: Seq<(u64, Account)>, i: int)
    requires
        keys_unique(s),
        0 <= i < s.len(),
    ensures
        map_of(s).dom().contains(s[i].0 as nat),
        map_of(s)[s[i].0 as nat] == s[i].1,
    decreases s.len(),
{
    if i == s.len() - 1 {
    } else {
        assert(s[i] == s.drop_last()[i]);
        lemma_map_of_found(s.drop_last(), i);
        assert(s[i].0 != s.last().0);
    }
}

proof fn lemma_map_of_absent(s: Seq<(u64, Account)>, k: u64)
    requires
        forall|i: int| 0 <= i < s.len() ==> (#[trigger] s[i]).0 != k,
    ensures
        !map_of(s).dom().contains(k as nat),
    decreases s.len(),
{
    if s.len() > 0 {
        lemma_map_of_absent(s.drop_last(), k);
        assert(s.last() == s[s.len() - 1]);
    }
}

proof fn lemma_map_of_dom(s: Seq<(u64, Account)>, j: nat)
    requires
        forall|i: int| 0 <= i < s.len() ==> ((#[trigger] s[i]).0 as nat) != j,
    ensures
        !map_of(s).dom().contains(j),
    decreases s.len(),
{
    if s.len() > 0 {
        lemma_map_of_dom(s.drop_last(), j);
        assert(s.last() == s[s.len() - 1]);
    }
}

proof fn lemma_map_of_update(s: Seq<(u64, Account)>, i: int, acc: Account)
    requires
        keys_unique(s),
        0 <= i < s.len(),
    ensures
        map_of(s.update(i, (s[i].0, acc))) =~= map_of(s).insert(s[i].0 as nat, acc),
    decreases s.len(),
{
    let t = s.update(i, (s[i].0, acc));
    if i == s.len() - 1 {
        assert(t.drop_last() =~= s.drop_last());
    } else {
        lemma_map_of_update(s.drop_last(), i, acc);
        assert(t.drop_last() =~= s.drop_last().update(i, (s[i].0, acc)));
        assert(t.last() == s.last());
        assert(s[i].0 != s.last().0);
    }
}

/// The commitment of the subtree of height `level` whose leftmost leaf is at
/// slot `pos * 4^level`.
pub open spec fn subtree_spec(m: Map<nat, Account>, level: nat, pos: nat) -> nat
    decreases level,
{
    if level == 0 {
        account_at(m, pos).hash_spec()
    } else {
        mimc_hash_spec(
            seq![
                subtree_spec(m, (level - 1) as nat, 4 * pos),
                subtree_spec(m, (level - 1) as nat, 4 * pos + 1),
                subtree_spec(m, (level - 1) as nat, 4 * pos + 2),
                subtree_spec(m, (level - 1) as nat, 4 * pos + 3),
            ],
        )
    }
}

/// The four child commitments in slot order, with the node's own child put at
/// position `c` among its three siblings.
pub open spec fn combine(c: nat, own: nat, sib: (nat, nat, nat)) -> Seq<nat> {
    if c == 0 {
        seq![own, sib.0, sib.1, sib.2]
    } else if c == 1 {
        seq![sib.0, own, sib.1, sib.2]
    } else if c == 2 {
        seq![sib.0, sib.1, own, sib.2]
    } else {
        seq![sib.0, sib.1, sib.2, own]
    }
}

/// The root recomputed from a leaf commitment and the sibling tuples along
/// the path from slot `index` up to the root.
pub open spec fn walk_up(sibs: Seq<(nat, nat, nat)>, index: nat, h: nat) -> nat
    decreases sibs.len(),
{
    if sibs.len() == 0 {
        h
    } else {
        walk_up(sibs.drop_first(), index / 4, mimc_hash_spec(combine(index % 4, h, sibs[0])))
    }
}

proof fn lemma_walk_up_push(sibs: Seq<(nat, nat, nat)>, t: (nat, nat, nat), index: nat, h: nat)
    ensures
        walk_up(sibs.push(t), index, h) == mimc_hash_spec(
            combine((index / pow4(sibs.len())) % 4, walk_up(sibs, index, h), t),
        ),
    decreases sibs.len(),
{
    if sibs.len() == 0 {
        assert(sibs.push(t).drop_first() =~= Seq::<(nat, nat, nat)>::empty());
        assert(sibs.push(t)[0] == t);
        vstd::arithmetic::div_mod::lemma_div_basics(index as int);
        assert(index / pow4(0) == index);
        assert(walk_up(sibs, index, h) == h);
        assert(walk_up(
            Seq::<(nat, nat, nat)>::empty(),
            index / 4,
            mimc_hash_spec(combine(index % 4, h, t)),
        ) == mimc_hash_spec(combine(index % 4, h, t)));
        assert(walk_up(sibs.push(t), index, h) == mimc_hash_spec(combine(index % 4, h, t)));
    } else {
        assert(sibs.push(t).drop_first() =~= sibs.drop_first().push(t));
        assert(sibs.push(t)[0] == sibs[0]);
        let h1 = mimc_hash_spec(combine(index % 4, h, sibs[0]));
        assert(walk_up(sibs.push(t), index, h) == walk_up(
            sibs.drop_first().push(t),
            index / 4,
            h1,
        ));
        assert(walk_up(sibs, index, h) == walk_up(sibs.drop_first(), index / 4, h1));
        lemma_walk_up_push(sibs.drop_first(), t, index / 4, h1);
        lemma_pow4_pos((sibs.len() - 1) as nat);
        lemma_div_denominator(index as int, 4, pow4((sibs.len() - 1) as nat) as int);
        assert(4 * pow4((sibs.len() - 1) as nat) == pow4(sibs.len()));
        assert((index / 4) / pow4((sibs.len() - 1) as nat) == index / pow4(sibs.len()));
    }
}

/// The sibling tuples from a leaf up to the root: the witness that a slot
/// held a given value under a given root.
pub struct InclusionProof {
    pub siblings: Vec<(FieldValue, FieldValue, FieldValue)>,
}

impl InclusionProof {
    pub open spec fn view_spec(self) -> Seq<(nat, nat, nat)> {
        self.siblings@.map_values(
            |t: (FieldValue, FieldValue, FieldValue)| (t.0.value(), t.1.value(), t.2.value()),
        )
    }
}

/// The ledger's state commitment: a fixed-depth quad Merkle tree over account
/// leaves, held sparsely as the list of touched slots.
pub struct MerkleStateTree {
    depth: usize,
    entries: Vec<(u64, Account)>,
}

impl MerkleStateTree {
    pub closed spec fn depth_spec(self) -> nat {
        self.depth as nat
    }

    /// The touched slots and their accounts.
    pub closed spec fn accounts(self) -> Map<nat, Account> {
        map_of(self.entries@)
    }

    pub closed spec fn size_spec(self) -> nat {
        self.entries@.len()
    }

    pub closed spec fn wf(self) -> bool {
        &&& self.depth <= 31
        &&& keys_unique(self.entries@)
        &&& forall|i: int|
            0 <= i < self.entries@.len() ==> ((#[trigger] self.entries@[i]).0 as nat) < pow4(
                self.depth as nat,
            )
    }

    /// The root commitment as a function of the account contents.
    pub open spec fn root_spec(self) -> nat {
        subtree_spec(self.accounts(), self.depth_spec(), 0)
    }

    /// An empty ledger of the given depth.
    pub fn new(depth: usize) -> (r: Self)
        requires
            depth <= 31,
        ensures
            r.wf(),
            r.depth_spec() == depth,
            r.accounts() == Map::<nat, Account>::empty(),
            r.size_spec() == 0,
    {
        MerkleStateTree { depth, entries: Vec::new() }
    }

    pub fn depth(&self) -> (r: usize)
        ensures
            r == self.depth_spec(),
    {
        self.depth
    }

    pub fn size(&self) -> (r: usize)
        ensures
            r == self.size_spec(),
    {
        self.entries.len()
    }

    /// Every touched slot with its balance: sound and complete for the
    /// ledger's domain.
    pub fn balances(&self) -> (r: Vec<(u64, u64)>)
        requires
            self.wf(),
        ensures
            r@.len() == self.size_spec(),
            forall|i: int|
                0 <= i < r@.len() ==> self.accounts().dom().contains(
                    (#[trigger] r@[i]).0 as nat,
                ) && r@[i].1 == account_at(self.accounts(), r@[i].0 as nat).balance,
            forall|j: nat|
                self.accounts().dom().contains(j) ==> exists|i: int|
                    0 <= i < r@.len() && ((#[trigger] r@[i]).0 as nat) == j,
    {
        let mut r: Vec<(u64, u64)> = Vec::new();
        let mut i: usize = 0;
        while i < self.entries.len()
            invariant
                self.wf(),
                i <= self.entries@.len(),
                r@.len() == i,
                forall|j: int|
                    0 <= j < i ==> (#[trigger] r@[j]) == (
                        self.entries@[j].0,
                        self.entries@[j].1.balance,
                    ),
            decreases self.entries@.len() - i,
        {
            let e = self.entries[i];
            r.push((e.0, e.1.balance));
            i = i + 1;
        }
        proof {
            assert forall|j: int|
                0 <= j < r@.len() implies self.accounts().dom().contains(
                (#[trigger] r@[j]).0 as nat,
            ) && r@[j].1 == account_at(self.accounts(), r@[j].0 as nat).balance by {
                lemma_map_of_found(self.entries@, j);
            }
            assert forall|j: nat| self.accounts().dom().contains(j) implies exists|i: int|
                0 <= i < r@.len() && ((#[trigger] r@[i]).0 as nat) == j by {
                if forall|i: int|
                    0 <= i < self.entries@.len() ==> ((#[trigger] self.entries@[i]).0 as nat)
                        != j {
                    lemma_map_of_dom(self.entries@, j);
                } else {
                    let i = choose|i: int|
                        0 <= i < self.entries@.len() && ((#[trigger] self.entries@[i]).0 as nat)
                            == j;
                    assert((r@[i].0 as nat) == j);
                }
            }
        }
        r
    }

    /// The number of addressable slots.
    pub fn capacity(&self) -> (r: u64)
        requires
            self.wf(),
        ensures
            r as nat == pow4(self.depth_spec()),
    {
        let mut r: u64 = 1;
        let mut i: usize = 0;
        while i < self.depth
            invariant
                i <= self.depth,
                self.depth <= 31,
                r as nat == pow4(i as nat),
            decreases self.depth - i,
        {
            proof {
                lemma_pow4_mono((i + 1) as nat, self.depth as nat);
                lemma_pow4_fits(self.depth as nat);
                assert(pow4((i + 1) as nat) == 4 * pow4(i as nat));
            }
            r = r * 4;
            i = i + 1;
        }
        r
    }

    /// The account standing at a slot; a slot never touched reads as the
    /// default account.
    pub fn get(&self, index: u64) -> (r: Account)
        requires
            self.wf(),
        ensures
            r == account_at(self.accounts(), index as nat),
    {
        let mut i: usize = 0;
        while i < self.entries.len()
            invariant
                self.wf(),
                i <= self.entries@.len(),
                forall|j: int| 0 <= j < i ==> (#[trigger] self.entries@[j]).0 != index,
            decreases self.entries@.len() - i,
        {
            if self.entries[i].0 == index {
                proof {
                    lemma_map_of_found(self.entries@, i as int);
                }
                return self.entries[i].1;
            }
            i = i + 1;
        }
        proof {
            lemma_map_of_absent(self.entries@, index);
        }
        Account::default()
    }

    /// Writes a slot's account.
    pub fn set(&mut self, index: u64, acc: Account)
        requires
            old(self).wf(),
            (index as nat) < pow4(old(self).depth_spec()),
        ensures
            final (self).wf(),
            final (self).depth_spec() == old(self).depth_spec(),
            final (self).accounts() =~= old(self).accounts().insert(index as nat, acc),
    {
        let ghost s0 = self.entries@;
        let mut i: usize = 0;
        while i < self.entries.len()
            invariant
                *self == *old(self),
                old(self).wf(),
                self.entries@ == s0,
                i <= self.entries@.len(),
                forall|j: int| 0 <= j < i ==> (#[trigger] self.entries@[j]).0 != index,
            decreases self.entries@.len() - i,
        {
            if self.entries[i].0 == index {
                proof {
                    lemma_map_of_update(s0, i as int, acc);
                    let s1 = s0.update(i as int, (index, acc));
                    assert(forall|k: int|
                        0 <= k < s1.len() ==> (#[trigger] s1[k]).0 == s0[k].0);
                    assert(keys_unique(s1));
                }
                self.entries[i] = (index, acc);
                return ;
            }
            i = i + 1;
        }
        self.entries.push((index, acc));
        proof {
            lemma_map_of_absent(s0, index);
            let s1 = s0.push((index, acc));
            assert(s1.drop_last() =~= s0);
            assert(forall|k: int| 0 <= k < s0.len() ==> #[trigger] s1[k] == s0[k]);
            assert(s1[s0.len() as int].0 == index);
            assert(keys_unique(s1));
        }
    }

    /// An isolated writable copy for trial execution of one batch.
    pub fn mirror(&self) -> (r: Self)
        requires
            self.wf(),
        ensures
            r.wf(),
            r.depth_spec() == self.depth_spec(),
            r.accounts() == self.accounts(),
            r.size_spec() == self.size_spec(),
    {
        let mut entries: Vec<(u64, Account)> = Vec::new();
        let mut i: usize = 0;
        while i < self.entries.len()
            invariant
                i <= self.entries@.len(),
                entries@ =~= self.entries@.subrange(0, i as int),
            decreases self.entries@.len() - i,
        {
            entries.push(self.entries[i]);
            i = i + 1;
        }
        proof {
            assert(entries@ =~= self.entries@);
        }
        MerkleStateTree { depth: self.depth, entries }
    }

    /// The commitment of one subtree, recomputed from the leaves under it.
    fn subtree(&self, level: usize, pos: u64) -> (r: FieldValue)
        requires
            self.wf(),
            level <= self.depth_spec(),
            (pos as nat) < pow4((self.depth_spec() - level as nat) as nat),
        ensures
            r.value() == subtree_spec(self.accounts(), level as nat, pos as nat),
            r.value() < field_order(),
        decreases level,
    {
        if level == 0 {
            let acc = self.get(pos);
            acc.hash()
        } else {
            proof {
                lemma_pow4_fits((self.depth_spec() - level as nat) as nat);
                lemma_pow4_mono(
                    (self.depth_spec() - level as nat) as nat,
                    (self.depth_spec() - (level - 1) as nat) as nat,
                );
            }
            let c0 = self.subtree(level - 1, 4 * pos);
            let c1 = self.subtree(level - 1, 4 * pos + 1);
            let c2 = self.subtree(level - 1, 4 * pos + 2);
            let c3 = self.subtree(level - 1, 4 * pos + 3);
            let mut inp: Vec<FieldValue> = Vec::new();
            inp.push(c0);
            inp.push(c1);
            inp.push(c2);
            inp.push(c3);
            let r = mimc_hash(&inp);
            proof {
                let m = self.accounts();
                let l1 = (level - 1) as nat;
                assert(inp@.map_values(|v: FieldValue| v.value()) =~= seq![
                    subtree_spec(m, l1, 4 * (pos as nat)),
                    subtree_spec(m, l1, 4 * (pos as nat) + 1),
                    subtree_spec(m, l1, 4 * (pos as nat) + 2),
                    subtree_spec(m, l1, 4 * (pos as nat) + 3),
                ]);
            }
            r
        }
    }

    /// The current root commitment.
    pub fn root(&self) -> (r: FieldValue)
        requires
            self.wf(),
        ensures
            r.value() == self.root_spec(),
            r.value() < field_order(),
    {
        self.subtree(self.depth, 0)
    }

    /// Captures the inclusion proof of the account now standing at `index`:
    /// walking the returned siblings up from that account's leaf commitment
    /// reproduces the current root.
    pub fn prove(&self, index: u64) -> (r: InclusionProof)
        requires
            self.wf(),
            (index as nat) < pow4(self.depth_spec()),
        ensures
            r.siblings@.len() == self.depth_spec(),
            walk_up(
                r.view_spec(),
                index as nat,
                account_at(self.accounts(), index as nat).hash_spec(),
            ) == self.root_spec(),
    {
        let ghost m = self.accounts();
        let ghost leaf = account_at(m, index as nat).hash_spec();
        let mut sibs: Vec<(FieldValue, FieldValue, FieldValue)> = Vec::new();
        let mut cur: u64 = index;
        let mut level: usize = 0;
        proof {
            vstd::arithmetic::div_mod::lemma_div_basics(index as int);
            assert(sibs@.map_values(
                |t: (FieldValue, FieldValue, FieldValue)| (t.0.value(), t.1.value(), t.2.value()),
            ) =~= Seq::<(nat, nat, nat)>::empty());
        }
        while level < self.depth
            invariant
                self.wf(),
                m == self.accounts(),
                leaf == account_at(m, index as nat).hash_spec(),
                level <= self.depth,
                sibs@.len() == level,
                cur as nat == (index as nat) / pow4(level as nat),
                (cur as nat) < pow4((self.depth_spec() - level as nat) as nat),
                walk_up(
                    sibs@.map_values(
                        |t: (FieldValue, FieldValue, FieldValue)|
                            (t.0.value(), t.1.value(), t.2.value()),
                    ),
                    index as nat,
                    leaf,
                ) == subtree_spec(m, level as nat, cur as nat),
            decreases self.depth - level,
        {
            let ghost prev = sibs@.map_values(
                |t: (FieldValue, FieldValue, FieldValue)| (t.0.value(), t.1.value(), t.2.value()),
            );
            let parent = cur / 4;
            let c = cur % 4;
            proof {
                let dl = (self.depth_spec() - level as nat) as nat;
                lemma_pow4_fits(dl);
                vstd::arithmetic::div_mod::lemma_fundamental_div_mod(cur as int, 4);
                assert(pow4(dl) == 4 * pow4((dl - 1) as nat));
                assert((parent as nat) < pow4((dl - 1) as nat));
            }
            let p0 = 4 * parent;
            let p1 = p0 + 1;
            let p2 = p0 + 2;
            let p3 = p0 + 3;
            proof {
                assert(p0 as nat == 4 * ((cur as nat) / 4));
                assert(p1 as nat == 4 * ((cur as nat) / 4) + 1);
                assert(p2 as nat == 4 * ((cur as nat) / 4) + 2);
                assert(p3 as nat == 4 * ((cur as nat) / 4) + 3);
            }
            let h0 = self.subtree(level, p0);
            let h1 = self.subtree(level, p1);
            let h2 = self.subtree(level, p2);
            let h3 = self.subtree(level, p3);
            let t = if c == 0 {
                (h1, h2, h3)
            } else if c == 1 {
                (h0, h2, h3)
            } else if c == 2 {
                (h0, h1, h3)
            } else {
                (h0, h1, h2)
            };
            proof {
                let lv = level as nat;
                lemma_walk_up_push(prev, (t.0.value(), t.1.value(), t.2.value()), index as nat, leaf);
                assert(sibs@.push(t).map_values(
                    |t: (FieldValue, FieldValue, FieldValue)|
                        (t.0.value(), t.1.value(), t.2.value()),
                ) =~= prev.push((t.0.value(), t.1.value(), t.2.value())));
                assert(4 * ((cur as nat) / 4) + ((cur as nat) % 4) == cur as nat);
                let q = (cur as nat) / 4;
                let cn = (cur as nat) % 4;
                let own = subtree_spec(m, lv, cur as nat);
                let tv = (t.0.value(), t.1.value(), t.2.value());
                let want = seq![
                    subtree_spec(m, lv, 4 * q),
                    subtree_spec(m, lv, 4 * q + 1),
                    subtree_spec(m, lv, 4 * q + 2),
                    subtree_spec(m, lv, 4 * q + 3),
                ];
                assert(parent as nat == q);
                if c == 0 {
                    assert(cur as nat == 4 * q);
                    assert(t == (h1, h2, h3));
                    assert(combine(cn, own, tv) =~= want);
                } else if c == 1 {
                    assert(cur as nat == 4 * q + 1);
                    assert(combine(cn, own, tv) =~= want);
                } else if c == 2 {
                    assert(cur as nat == 4 * q + 2);
                    assert(combine(cn, own, tv) =~= want);
                } else {
                    assert(cur as nat == 4 * q + 3);
                    assert(combine(cn, own, tv) =~= want);
                }
                lemma_pow4_pos(lv);
                lemma_div_denominator(index as int, pow4(lv) as int, 4);
                assert(pow4((lv + 1) as nat) == 4 * pow4(lv));
            }
            sibs.push(t);
            cur = parent;
            level = level + 1;
        }
        InclusionProof { siblings: sibs }
    }

    /// Recomputes a root from a leaf commitment and an inclusion proof and
    /// compares it with the given root.
    pub fn verify(index: u64, value: &FieldValue, proof: &InclusionProof, root: &FieldValue) -> (r:
        bool)
        requires
            value.value() < field_order(),
        ensures
            r == (walk_up(proof.view_spec(), index as nat, value.value()) == root.value()),
    {
        let mut h: FieldValue = *value;
        let mut cur: u64 = index;
        let mut k: usize = 0;
        let n = proof.siblings.len();
        proof {
            assert(proof.view_spec().skip(0) =~= proof.view_spec());
        }
        while k < n
            invariant
                k <= n,
                n == proof.siblings@.len(),
                h.value() < field_order(),
                walk_up(proof.view_spec(), index as nat, value.value()) == walk_up(
                    proof.view_spec().skip(k as int),
                    cur as nat,
                    h.value(),
                ),
            decreases n - k,
        {
            let ghost rest = proof.view_spec().skip(k as int);
            let s = proof.siblings[k];
            let c = cur % 4;
            let mut inp: Vec<FieldValue> = Vec::new();
            if c == 0 {
                inp.push(h);
                inp.push(s.0);
                inp.push(s.1);
                inp.push(s.2);
            } else if c == 1 {
                inp.push(s.0);
                inp.push(h);
                inp.push(s.1);
                inp.push(s.2);
            } else if c == 2 {
                inp.push(s.0);
                inp.push(s.1);
                inp.push(h);
                inp.push(s.2);
            } else {
                inp.push(s.0);
                inp.push(s.1);
                inp.push(s.2);
                inp.push(h);
            }
            let h2 = mimc_hash(&inp);
            proof {
                assert(rest[0] == (s.0.value(), s.1.value(), s.2.value()));
                assert(inp@.map_values(|v: FieldValue| v.value()) =~= combine(
                    (cur as nat) % 4,
                    h.value(),
                    (s.0.value(), s.1.value(), s.2.value()),
                ));
                assert(rest.drop_first() =~= proof.view_spec().skip(k + 1));
            }
            h = h2;
            cur = cur / 4;
            k = k + 1;
        }
        proof {
            assert(proof.view_spec().skip(n as int) =~= Seq::<(nat, nat, nat)>::empty());
            if h.value() == root.value() {
                crate::field::lemma_value_injective(h, *root);
            }
        }
        h == *root
    }
}

} // verus!
