use zoro::account::Account;
use zoro::crypto::PublicKey;
use zoro::tree::MerkleStateTree;
use zoro::FieldValue;

fn acct(nonce: u64, balance: u64) -> Account {
    Account { nonce, balance, address: PublicKey::null() }
}

#[test]
fn capacity_counts_slots() {
    let t = MerkleStateTree::new(2);
    assert_eq!(t.capacity(), 16);
    let t3 = MerkleStateTree::new(3);
    assert_eq!(t3.capacity(), 64);
}

#[test]
fn root_follows_leaf_contents() {
    // The digest wrapper must not hand its input back: writing a leaf has to
    // move the root, and writing the same contents has to reproduce it.
    let mut a = MerkleStateTree::new(2);
    let r0 = a.root();
    a.set(3, acct(0, 100));
    let r1 = a.root();
    assert_ne!(r0, r1);
    a.set(3, acct(0, 250));
    let r2 = a.root();
    assert_ne!(r1, r2);

    let mut b = MerkleStateTree::new(2);
    b.set(3, acct(0, 250));
    assert_eq!(b.root(), r2);
}

#[test]
fn mirror_is_isolated() {
    let mut t = MerkleStateTree::new(2);
    t.set(1, acct(0, 7));
    let r = t.root();
    let mut m = t.mirror();
    assert_eq!(m.root(), r);
    m.set(2, acct(0, 9));
    assert_ne!(m.root(), r);
    assert_eq!(t.root(), r);
    assert_eq!(t.get(2).balance, 0);
}

#[test]
fn inclusion_proof_walks_to_the_root() {
    let mut t = MerkleStateTree::new(3);
    t.set(5, acct(1, 11));
    t.set(6, acct(2, 22));
    let root = t.root();

    let p5 = t.prove(5);
    let leaf5 = t.get(5).hash();
    assert!(MerkleStateTree::verify(5, &leaf5, &p5, &root));

    // The proof pins both the value and the slot.
    let leaf6 = t.get(6).hash();
    assert!(!MerkleStateTree::verify(5, &leaf6, &p5, &root));
    assert!(!MerkleStateTree::verify(6, &leaf5, &p5, &root));
    let wrong_root = FieldValue { l0: root.l0 ^ 1, l1: root.l1, l2: root.l2, l3: root.l3 };
    assert!(!MerkleStateTree::verify(5, &leaf5, &p5, &wrong_root));
}

#[test]
fn untouched_slots_read_default() {
    let t = MerkleStateTree::new(2);
    let a = t.get(9);
    assert_eq!(a.nonce, 0);
    assert_eq!(a.balance, 0);
    assert!(a.address.is_null());
}
