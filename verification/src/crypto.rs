use vstd::prelude::*;

use crate::field::FieldValue;

verus! {

/// Order of the scalar field in which every committed value lives.
pub open spec fn field_order() -> nat {
    52435875175126190479447740508185965837690552500527637822603658699938581184513nat
}

/// Canonical representative of a value in the scalar field.
pub open spec fn reduce(x: nat) -> nat {
    x % field_order()
}

/// What zeekit's MiMC permutation returns for a sequence of field elements:
/// a function of the (canonical) inputs alone.
pub uninterp spec fn mimc_of(inp: Seq<nat>) -> nat;

/// The MiMC hash of the given values: each input is first reduced into the
/// field, and the digest is the canonical representative.
pub open spec fn mimc_hash_spec(inp: Seq<nat>) -> nat {
    mimc_of(inp.map_values(|x: nat| reduce(x)))
}

/// Whether `x` names the abscissa of a decodable curve point with the given
/// sign bit: what zeekit's point decompression accepts.
pub uninterp spec fn key_wf_of(x: nat, odd: bool) -> bool;

/// Whether the pair `(rx, ry)` is a curve point, as zeekit's signer emits.
pub uninterp spec fn sig_wf_of(rx: nat, ry: nat) -> bool;

/// What zeekit's EdDSA verifier returns for a public key, a message and a
/// signature: a function of the canonical inputs alone.
pub uninterp spec fn sig_valid_of(
    pk_x: nat,
    pk_odd: bool,
    msg: nat,
    sig_rx: nat,
    sig_ry: nat,
    sig_s: nat,
) -> bool;

/// A compressed EdDSA public key: the abscissa of a curve point and the sign
/// of its ordinate. The null key marks an account that was never bound.
#[derive(Clone, Copy, Debug, PartialEq, Eq, Structural)]
pub struct PublicKey {
    x: FieldValue,
    odd: bool,
}

impl PublicKey {
    pub closed spec fn x_val(self) -> nat {
        self.x.value()
    }

    pub closed spec fn odd_spec(self) -> bool {
        self.odd
    }

    pub closed spec fn null_spec() -> PublicKey {
        PublicKey { x: FieldValue { l0: 0, l1: 0, l2: 0, l3: 0 }, odd: false }
    }

    pub open spec fn is_null_spec(self) -> bool {
        self == Self::null_spec()
    }

    /// Every key in circulation is either the null key or one that the curve
    /// accepts; this is what lets the verifier take any stored key.
    #[verifier::type_invariant]
    closed spec fn wf(self) -> bool {
        self.is_null_spec() || key_wf_of(reduce(self.x.value()), self.odd)
    }

    /// The key of an account that was never bound.
    pub fn null() -> (r: PublicKey)
        ensures
            r == Self::null_spec(),
    {
        let x = FieldValue::zero();
        let r = PublicKey { x, odd: false };
        proof {
            crate::field::lemma_value_injective(x, FieldValue { l0: 0, l1: 0, l2: 0, l3: 0 });
        }
        r
    }

    pub fn is_null(&self) -> (r: bool)
        ensures
            r == self.is_null_spec(),
    {
        let n = Self::null();
        *self == n
    }

    /// The abscissa, as a committed value.
    pub fn x_field(&self) -> (r: FieldValue)
        ensures
            r.value() == self.x_val(),
    {
        self.x
    }

    /// The sign of the ordinate.
    pub fn odd_bit(&self) -> (r: bool)
        ensures
            r == self.odd_spec(),
    {
        self.odd
    }
}

impl Default for PublicKey {
    fn default() -> (r: Self)
        ensures
            r == Self::null_spec(),
    {
        Self::null()
    }
}

/// An EdDSA signature: the commitment point `r` in affine coordinates and the
/// response scalar `s`.
#[derive(Clone, Copy, Debug, PartialEq, Eq, Structural)]
pub struct Signature {
    rx: FieldValue,
    ry: FieldValue,
    s: FieldValue,
}

impl Signature {
    pub closed spec fn rx_val(self) -> nat {
        self.rx.value()
    }

    pub closed spec fn ry_val(self) -> nat {
        self.ry.value()
    }

    pub closed spec fn s_val(self) -> nat {
        self.s.value()
    }

    pub closed spec fn empty_spec() -> Signature {
        Signature {
            rx: FieldValue { l0: 0, l1: 0, l2: 0, l3: 0 },
            ry: FieldValue { l0: 0, l1: 0, l2: 0, l3: 0 },
            s: FieldValue { l0: 0, l1: 0, l2: 0, l3: 0 },
        }
    }

    /// Every signature in circulation either is the empty placeholder or
    /// carries a commitment point the curve arithmetic accepts.
    #[verifier::type_invariant]
    closed spec fn wf(self) -> bool {
        self == Self::empty_spec() || sig_wf_of(reduce(self.rx.value()), reduce(self.ry.value()))
    }

    /// The placeholder signature carried by a transaction before signing.
    pub fn empty() -> (r: Signature)
        ensures
            r == Self::empty_spec(),
    {
        let z = FieldValue { l0: 0, l1: 0, l2: 0, l3: 0 };
        Signature { rx: z, ry: z, s: z }
    }
}

impl Default for Signature {
    fn default() -> (r: Self)
        ensures
            r == Self::empty_spec(),
    {
        Self::empty()
    }
}

/// An EdDSA private key: the seeds it was derived from and the affine
/// coordinates of the matching public point, as the signer needs them.
#[derive(Clone, Copy, Debug)]
pub struct PrivateKey {
    px: FieldValue,
    py: FieldValue,
    randomness: FieldValue,
    scalar: FieldValue,
}

/// zeekit's field-element type, carried opaquely between the wrappers below.
#[verifier::external_type_specification]
#[verifier::external_body]
pub struct ExFr(zeekit::Fr);

/// Relies on zeekit::Fr::new: the canonical field element of a little-endian
/// 256-bit value, reduced into the field.
#[verifier::external_body]
fn fr_of(v: &FieldValue) -> zeekit::Fr {
    let mut b = [0u8; 32];
    b[0..8].copy_from_slice(&v.l0.to_le_bytes());
    b[8..16].copy_from_slice(&v.l1.to_le_bytes());
    b[16..24].copy_from_slice(&v.l2.to_le_bytes());
    b[24..32].copy_from_slice(&v.l3.to_le_bytes());
    zeekit::Fr::new(b)
}

/// Relies on ff::PrimeField::to_repr: the canonical little-endian bytes of a
/// field element, repacked into limbs.
#[verifier::external_body]
fn limbs_of(f: &zeekit::Fr) -> (r: FieldValue)
    ensures
        r.value() < field_order(),
{
    let repr = ff::PrimeField::to_repr(f);
    let rb: &[u8] = repr.as_ref();
    FieldValue {
        l0: u64::from_le_bytes(rb[0..8].try_into().unwrap()),
        l1: u64::from_le_bytes(rb[8..16].try_into().unwrap()),
        l2: u64::from_le_bytes(rb[16..24].try_into().unwrap()),
        l3: u64::from_le_bytes(rb[24..32].try_into().unwrap()),
    }
}

/// Relies on zeekit::mimc::mimc: a deterministic hash of two or more field
/// elements; the call reduces its inputs and returns a canonical digest.
#[verifier::external_body]
pub(crate) fn mimc_hash(inp: &Vec<FieldValue>) -> (r: FieldValue)
    requires
        inp@.len() >= 2,
    ensures
        r.value() == mimc_of(
            inp@.map_values(|v: FieldValue| v.value()).map_values(|x: nat| reduce(x)),
        ),
        r.value() < field_order(),
{
    let mut frs: Vec<zeekit::Fr> = Vec::new();
    for v in inp.iter() {
        frs.push(fr_of(v));
    }
    limbs_of(&zeekit::mimc::mimc(&frs))
}

/// Relies on zeekit::eddsa::verify: checks a signature over a message under a
/// compressed public key; a function of the canonical inputs alone. Total for
/// the keys and signatures this library lets exist (null or curve-accepted).
#[verifier::external_body]
pub(crate) fn eddsa_verify(pk: &PublicKey, msg: &FieldValue, sig: &Signature) -> (r: bool)
    ensures
        r == sig_valid_of(
            reduce(pk.x_val()),
            pk.odd_spec(),
            reduce(msg.value()),
            reduce(sig.rx_val()),
            reduce(sig.ry_val()),
            reduce(sig.s_val()),
        ),
{
    let zpk = zeekit::eddsa::PublicKey(zeekit::eddsa::PointCompressed(fr_of(&pk.x), pk.odd));
    let zsig = zeekit::eddsa::Signature {
        r: zeekit::eddsa::PointAffine(fr_of(&sig.rx), fr_of(&sig.ry)),
        s: fr_of(&sig.s),
    };
    zeekit::eddsa::verify(&zpk, fr_of(msg), &zsig)
}

/// Relies on zeekit::eddsa::generate_keys: derives a key pair from the two
/// seeds; the public point comes compressed from a point on the curve, so the
/// curve accepts it again.
#[verifier::external_body]
fn eddsa_generate_keys(randomness: &FieldValue, scalar: &FieldValue) -> (r: (PublicKey, PrivateKey))
    ensures
        key_wf_of(reduce(r.0.x_val()), r.0.odd_spec()),
        r.0.x_val() < field_order(),
{
    let (zpk, zsk) = zeekit::eddsa::generate_keys(fr_of(randomness), fr_of(scalar));
    let pk = PublicKey { x: limbs_of(&zpk.0.0), odd: zpk.0.1 };
    let sk = PrivateKey {
        px: limbs_of(&zsk.public_key.0),
        py: limbs_of(&zsk.public_key.1),
        randomness: *randomness,
        scalar: *scalar,
    };
    (pk, sk)
}

/// Relies on zeekit::eddsa::sign: signs a message under a private key; the
/// commitment point of the returned signature lies on the curve.
#[verifier::external_body]
fn eddsa_sign(sk: &PrivateKey, msg: &FieldValue) -> (r: Signature)
    ensures
        sig_wf_of(reduce(r.rx_val()), reduce(r.ry_val())),
{
    let zsk = zeekit::eddsa::PrivateKey {
        public_key: zeekit::eddsa::PointAffine(fr_of(&sk.px), fr_of(&sk.py)),
        randomness: fr_of(&sk.randomness),
        scalar: fr_of(&sk.scalar),
    };
    let zsig = zeekit::eddsa::sign(&zsk, fr_of(msg));
    Signature { rx: limbs_of(&zsig.r.0), ry: limbs_of(&zsig.r.1), s: limbs_of(&zsig.s) }
}

impl PrivateKey {
    /// Derives a key pair from two seed values.
    pub fn generate(randomness: &FieldValue, scalar: &FieldValue) -> (r: (PublicKey, PrivateKey))
        ensures
            r.0.x_val() < field_order(),
    {
        eddsa_generate_keys(randomness, scalar)
    }

    /// Signs a message under this key.
    pub fn sign(&self, msg: &FieldValue) -> (r: Signature) {
        eddsa_sign(self, msg)
    }
}

} // verus!
