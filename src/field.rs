use ark_bls12_381::Fq;
use ark_ff::{BigInt, PrimeField};
use vstd::arithmetic::div_mod::lemma_fundamental_div_mod_converse;
use vstd::prelude::*;

verus! {

/// The prime modulus of the BLS12-381 base field.
pub open spec fn modulus() -> int {
    0xb9fe_ffff_ffff_aaab_u64 as int + limb_base() * (
    0x1eab_fffe_b153_ffff_u64 as int + limb_base() * (
    0x6730_d2a0_f6b0_f624_u64 as int + limb_base() * (
    0x6477_4b84_f385_12bf_u64 as int + limb_base() * (
    0x4b1b_a7b6_434b_acd7_u64 as int + limb_base() * (
    0x1a01_11ea_397f_e69a_u64 as int)))))
}

/// Radix of one limb.
pub open spec fn limb_base() -> int {
    0x1_0000_0000_0000_0000
}

/// The integer that little-endian 64-bit limbs spell.
pub open spec fn limbs_value(l: Seq<u64>) -> int
    decreases l.len(),
{
    if l.len() == 0 {
        0
    } else {
        l[0] as int + limb_base() * limbs_value(l.drop_first())
    }
}

/// Distinct limb sequences of one length spell distinct integers.
pub proof fn lemma_limbs_value_injective(l: Seq<u64>, m: Seq<u64>)
    requires
        l.len() == m.len(),
        limbs_value(l) == limbs_value(m),
    ensures
        l == m,
    decreases l.len(),
{
    if l.len() > 0 {
        let v = limbs_value(l);
        lemma_fundamental_div_mod_converse(v, limb_base(), limbs_value(l.drop_first()), l[0] as int);
        lemma_fundamental_div_mod_converse(v, limb_base(), limbs_value(m.drop_first()), m[0] as int);
        lemma_limbs_value_injective(l.drop_first(), m.drop_first());
        assert forall|i: int| 0 <= i < l.len() implies l[i] == m[i] by {
            if i > 0 {
                assert(l[i] == l.drop_first()[i - 1]);
                assert(m[i] == m.drop_first()[i - 1]);
            }
        }
        assert(l =~= m);
    }
}

/// An element of the base field, held as the canonical integer in `[0, modulus())`
/// spelled by six little-endian 64-bit limbs.
#[derive(Clone, Copy, Debug)]
pub struct Fe {
    pub(crate) limbs: [u64; 6],
}

impl Fe {
    /// The integer this element stands for.
    pub closed spec fn value(self) -> int {
        limbs_value(self.limbs@)
    }

    pub closed spec fn wf(self) -> bool {
        self.value() < modulus()
    }

    pub fn zero() -> (r: Fe)
        ensures
            r.wf(),
            r.value() == 0,
    {
        let r = Fe { limbs: [0u64, 0u64, 0u64, 0u64, 0u64, 0u64] };
        proof {
            reveal_with_fuel(limbs_value, 7);
        }
        r
    }

    pub fn from_u64(v: u64) -> (r: Fe)
        ensures
            r.wf(),
            r.value() == v,
    {
        let r = Fe { limbs: [v, 0u64, 0u64, 0u64, 0u64, 0u64] };
        proof {
            reveal_with_fuel(limbs_value, 7);
        }
        r
    }

    /// Field addition.
    pub fn add(&self, other: &Fe) -> (r: Fe)
        requires
            self.wf(),
            other.wf(),
        ensures
            r.wf(),
            r.value() == (self.value() + other.value()) % modulus(),
    {
        fq_add(self, other)
    }

    /// Field multiplication.
    pub fn mul(&self, other: &Fe) -> (r: Fe)
        requires
            self.wf(),
            other.wf(),
        ensures
            r.wf(),
            r.value() == (self.value() * other.value()) % modulus(),
    {
        fq_mul(self, other)
    }

    /// A field element drawn uniformly at random.
    pub fn random() -> (r: Fe)
        ensures
            r.wf(),
    {
        fq_random()
    }

    /// Whether two elements are the same field element.
    pub fn equals(&self, other: &Fe) -> (r: bool)
        ensures
            r == (self.value() == other.value()),
    {
        let mut i: usize = 0;
        while i < 6
            invariant
                i <= 6,
                forall|j: int| 0 <= j < i ==> self.limbs@[j] == other.limbs@[j],
            decreases 6 - i,
        {
            if self.limbs[i] != other.limbs[i] {
                assert(self.value() != other.value()) by {
                    if self.value() == other.value() {
                        lemma_limbs_value_injective(self.limbs@, other.limbs@);
                    }
                }
                return false;
            }
            i = i + 1;
        }
        assert(self.limbs@ =~= other.limbs@);
        true
    }

    /// The six little-endian limbs of the canonical integer.
    pub fn limbs(&self) -> (r: [u64; 6])
        ensures
            limbs_value(r@) == self.value(),
    {
        self.limbs
    }
}

/// Relies on the `Add` impl of ark-ff's `Fq`: the sum reduced modulo the field's prime,
/// and `PrimeField::{from_bigint, into_bigint}`, which move between an element and its
/// canonical integer below the prime.
#[verifier::external_body]
fn fq_add(a: &Fe, b: &Fe) -> (r: Fe)
    requires
        a.wf(),
        b.wf(),
    ensures
        r.wf(),
        r.value() == (a.value() + b.value()) % modulus(),
{
    let x = Fq::from_bigint(BigInt::new(a.limbs)).unwrap();
    let y = Fq::from_bigint(BigInt::new(b.limbs)).unwrap();
    Fe { limbs: (x + y).into_bigint().0 }
}

/// Relies on the `Mul` impl of ark-ff's `Fq`: the product reduced modulo the field's
/// prime, and `PrimeField::{from_bigint, into_bigint}` as for `fq_add`.
#[verifier::external_body]
fn fq_mul(a: &Fe, b: &Fe) -> (r: Fe)
    requires
        a.wf(),
        b.wf(),
    ensures
        r.wf(),
        r.value() == (a.value() * b.value()) % modulus(),
{
    let x = Fq::from_bigint(BigInt::new(a.limbs)).unwrap();
    let y = Fq::from_bigint(BigInt::new(b.limbs)).unwrap();
    Fe { limbs: (x * y).into_bigint().0 }
}

/// Relies on `ark_std::rand::random::<Fq>`, which samples an element of the field
/// (nothing is known of which), and `PrimeField::into_bigint`, whose result is the
/// canonical integer below the prime.
#[verifier::external_body]
fn fq_random() -> (r: Fe)
    ensures
        r.wf(),
{
    Fe { limbs: ark_std::rand::random::<Fq>().into_bigint().0 }
}

} // verus!
