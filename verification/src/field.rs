//! Elements of the scalar field of the BN254 curve, the field in which the
//! step circuits compute.
//!
//! A `Scalar` holds the canonical little-endian 32-byte encoding of its value,
//! so that the value is a plain number that contracts can speak of.  The field
//! operations themselves are those of `halo2curves`, reached through the
//! re-export in `nova_snark`.
use vstd::prelude::*;
use vstd::arithmetic::div_mod::lemma_fundamental_div_mod_converse;
use vstd::arithmetic::div_mod::lemma_small_mod;

verus! {

/// The order of the BN254 scalar field (the prime `r` of `halo2curves::bn256::Fr`).
pub open spec fn modulus() -> nat {
    21888242871839275222246405745257275088548364400416034343698204186575808495617nat
}

/// The number that a little-endian byte string denotes.
pub open spec fn le_value(bytes: Seq<u8>) -> nat
    decreases bytes.len(),
{
    if bytes.len() == 0 {
        0
    } else {
        bytes[0] as nat + 256 * le_value(bytes.drop_first())
    }
}

/// Two byte strings of one length that denote the same number are equal.
pub proof fn lemma_le_value_injective(s: Seq<u8>, t: Seq<u8>)
    requires
        s.len() == t.len(),
        le_value(s) == le_value(t),
    ensures
        s == t,
    decreases s.len(),
{
    if s.len() > 0 {
        let v = le_value(s) as int;
        lemma_fundamental_div_mod_converse(v, 256, le_value(s.drop_first()) as int, s[0] as int);
        lemma_fundamental_div_mod_converse(v, 256, le_value(t.drop_first()) as int, t[0] as int);
        lemma_le_value_injective(s.drop_first(), t.drop_first());
        assert forall|i: int| 0 <= i < s.len() implies s[i] == t[i] by {
            if i > 0 {
                assert(s[i] == s.drop_first()[i - 1]);
                assert(t[i] == t.drop_first()[i - 1]);
            }
        }
        assert(s =~= t);
    }
}

/// Of two byte strings of one length that agree above position `k`, the one
/// with the smaller byte at `k` denotes the smaller number.
pub proof fn lemma_le_value_order(s: Seq<u8>, t: Seq<u8>, k: int)
    requires
        s.len() == t.len(),
        0 <= k < s.len(),
        s[k] < t[k],
        forall|m: int| k < m < s.len() ==> s[m] == t[m],
    ensures
        le_value(s) < le_value(t),
    decreases s.len(),
{
    let rs = s.drop_first();
    let rt = t.drop_first();
    if k == 0 {
        assert forall|m: int| 0 <= m < rs.len() implies rs[m] == rt[m] by {
            assert(s[m + 1] == t[m + 1]);
        }
        assert(rs =~= rt);
    } else {
        assert forall|m: int| k - 1 < m < rs.len() implies rs[m] == rt[m] by {
            assert(s[m + 1] == t[m + 1]);
        }
        lemma_le_value_order(rs, rt, k - 1);
    }
}

/// The canonical little-endian encoding of the field element `x`
/// (`Fr::from(x)`, then `Fr::to_bytes`).
///
/// Trusted: `From<u64> for Fr` in halo2curves puts `x` in Montgomery form and
/// `to_bytes` writes the canonical little-endian encoding of the element;
/// every `u64` lies below the modulus, so the bytes denote `x`.
#[verifier::external_body]
fn encode_u64(x: u64) -> (r: [u8; 32])
    ensures
        le_value(r@) == x as nat,
{
    <nova_snark::provider::Bn256EngineKZG as nova_snark::traits::Engine>::Scalar::from(x).to_bytes()
}

/// The encoding of the sum of two encoded field elements (`Fr::from_bytes`
/// on each, `Fr + Fr`, then `Fr::to_bytes`).
///
/// Trusted: `from_bytes` decodes a canonical encoding (it fails, and `unwrap`
/// panics, only on a number not below the modulus, which `requires` rules
/// out), `Add` for `Fr` is addition modulo the field order, and `to_bytes`
/// writes the canonical encoding of the result.
#[verifier::external_body]
fn add_encoded(a: [u8; 32], b: [u8; 32]) -> (r: [u8; 32])
    requires
        le_value(a@) < modulus(),
        le_value(b@) < modulus(),
    ensures
        le_value(r@) == (le_value(a@) + le_value(b@)) % modulus(),
{
    let x = <nova_snark::provider::Bn256EngineKZG as nova_snark::traits::Engine>::Scalar::from_bytes(&a).unwrap();
    let y = <nova_snark::provider::Bn256EngineKZG as nova_snark::traits::Engine>::Scalar::from_bytes(&b).unwrap();
    (x + y).to_bytes()
}

/// The encoding of the product of two encoded field elements
/// (`Fr::from_bytes` on each, `Fr * Fr`, then `Fr::to_bytes`).
///
/// Trusted: as for `add_encoded`, with `Mul` for `Fr`, which is
/// multiplication modulo the field order.
#[verifier::external_body]
fn mul_encoded(a: [u8; 32], b: [u8; 32]) -> (r: [u8; 32])
    requires
        le_value(a@) < modulus(),
        le_value(b@) < modulus(),
    ensures
        le_value(r@) == (le_value(a@) * le_value(b@)) % modulus(),
{
    let x = <nova_snark::provider::Bn256EngineKZG as nova_snark::traits::Engine>::Scalar::from_bytes(&a).unwrap();
    let y = <nova_snark::provider::Bn256EngineKZG as nova_snark::traits::Engine>::Scalar::from_bytes(&b).unwrap();
    (x * y).to_bytes()
}

/// Whether `Fr::from_bytes` accepts the bytes.
///
/// Trusted: `from_repr` for `Fr` in halo2curves reads the bytes as four
/// little-endian limbs and succeeds exactly when that number is below the
/// modulus.
#[verifier::external_body]
fn is_canonical_encoding(bytes: [u8; 32]) -> (r: bool)
    ensures
        r == (le_value(bytes@) < modulus()),
{
    bool::from(<nova_snark::provider::Bn256EngineKZG as nova_snark::traits::Engine>::Scalar::from_bytes(&bytes).is_some())
}

/// An element of the BN254 scalar field.
#[derive(Clone, Copy, Debug, PartialEq, Eq, Hash)]
pub struct Scalar {
    repr: [u8; 32],
}

impl Scalar {
    /// The field element, as a number below the modulus.
    pub closed spec fn value(self) -> nat {
        le_value(self.repr@) % modulus()
    }

    /// The encoding that this scalar holds.
    pub closed spec fn to_bytes_spec(self) -> Seq<u8> {
        self.repr@
    }

    /// Every scalar holds the canonical encoding of its value.
    #[verifier::type_invariant]
    closed spec fn canonical(self) -> bool {
        le_value(self.repr@) < modulus()
    }

    /// The field element that the integer `x` stands for.
    pub fn from_u64(x: u64) -> (r: Scalar)
        ensures
            r.value() == x as nat,
    {
        let repr = encode_u64(x);
        proof {
            lemma_small_mod(x as nat, modulus());
        }
        Scalar { repr }
    }

    /// The sum of two field elements.
    pub fn add(&self, other: &Scalar) -> (r: Scalar)
        ensures
            r.value() == (self.value() + other.value()) % modulus(),
    {
        proof {
            use_type_invariant(self);
            use_type_invariant(other);
            lemma_small_mod(le_value(self.repr@), modulus());
            lemma_small_mod(le_value(other.repr@), modulus());
        }
        let repr = add_encoded(self.repr, other.repr);
        proof {
            lemma_small_mod(le_value(repr@), modulus());
        }
        Scalar { repr }
    }

    /// The product of two field elements.
    pub fn mul(&self, other: &Scalar) -> (r: Scalar)
        ensures
            r.value() == (self.value() * other.value()) % modulus(),
    {
        proof {
            use_type_invariant(self);
            use_type_invariant(other);
            lemma_small_mod(le_value(self.repr@), modulus());
            lemma_small_mod(le_value(other.repr@), modulus());
        }
        let repr = mul_encoded(self.repr, other.repr);
        proof {
            lemma_small_mod(le_value(repr@), modulus());
        }
        Scalar { repr }
    }

    /// The element that the little-endian bytes denote; `None` when they
    /// denote a number that is not below the modulus.
    pub fn from_repr(bytes: [u8; 32]) -> (r: Option<Scalar>)
        ensures
            r is Some <==> le_value(bytes@) < modulus(),
            r matches Some(s) ==> s.value() == le_value(bytes@) && s.to_bytes_spec() == bytes@,
    {
        if is_canonical_encoding(bytes) {
            proof {
                lemma_small_mod(le_value(bytes@), modulus());
            }
            Some(Scalar { repr: bytes })
        } else {
            None
        }
    }

    /// The canonical little-endian encoding of this element.
    pub fn to_repr(&self) -> (r: [u8; 32])
        ensures
            le_value(r@) == self.value(),
    {
        proof {
            use_type_invariant(self);
            lemma_small_mod(le_value(self.repr@), modulus());
        }
        self.repr
    }

    /// The additive identity.
    pub fn zero() -> (r: Scalar)
        ensures
            r.value() == 0,
    {
        Scalar::from_u64(0)
    }

    /// Whether the value of this element is below the value of `other`, both
    /// read as numbers below the modulus.
    pub fn less_than(&self, other: &Scalar) -> (r: bool)
        ensures
            r == (self.value() < other.value()),
    {
        let mut k: usize = 32;
        while k > 0
            invariant
                k <= 32,
                forall|m: int| k <= m < 32 ==> self.repr@[m] == other.repr@[m],
            decreases k,
        {
            let i = k - 1;
            if self.repr[i] != other.repr[i] {
                proof {
                    use_type_invariant(self);
                    use_type_invariant(other);
                    lemma_small_mod(le_value(self.repr@), modulus());
                    lemma_small_mod(le_value(other.repr@), modulus());
                    if self.repr@[i as int] < other.repr@[i as int] {
                        lemma_le_value_order(self.repr@, other.repr@, i as int);
                    } else {
                        lemma_le_value_order(other.repr@, self.repr@, i as int);
                    }
                }
                return self.repr[i] < other.repr[i];
            }
            k = i;
        }
        assert(self.repr@ =~= other.repr@);
        false
    }

    /// Whether two elements are the same field element.
    pub fn equals(&self, other: &Scalar) -> (r: bool)
        ensures
            r == (self.value() == other.value()),
    {
        let mut i: usize = 0;
        while i < 32
            invariant
                0 <= i <= 32,
                forall|k: int| 0 <= k < i ==> self.repr@[k] == other.repr@[k],
            decreases 32 - i,
        {
            if self.repr[i] != other.repr[i] {
                assert(self.repr@ != other.repr@);
                proof {
                    use_type_invariant(self);
                    use_type_invariant(other);
                    lemma_small_mod(le_value(self.repr@), modulus());
                    lemma_small_mod(le_value(other.repr@), modulus());
                    if self.value() == other.value() {
                        lemma_le_value_injective(self.repr@, other.repr@);
                    }
                }
                return false;
            }
            i = i + 1;
        }
        assert(self.repr@ =~= other.repr@);
        true
    }
}

impl DeepView for Scalar {
    type V = nat;

    open spec fn deep_view(&self) -> nat {
        self.value()
    }
}

/// Every value lies below the modulus.
pub proof fn lemma_value_below_modulus(s: Scalar)
    ensures
        s.value() < modulus(),
{
}

} // verus!
