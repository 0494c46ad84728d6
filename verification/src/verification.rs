//! Sigma protocol: a three-move Schnorr-style proof of knowledge of the
//! discrete logarithm `w` of a public point `x = g * w`.
//!
//! The prover commits to `t = g * r` for a fresh random `r`, receives a
//! challenge `e`, and answers `z = r + e * w`.  The verifier accepts exactly
//! when `g * z == t + x * e`, which holds by construction whenever the
//! prover knows `w`.

use vstd::prelude::*;
use vstd::arithmetic::div_mod::{
    lemma_add_mod_noop, lemma_add_mod_noop_right, lemma_mod_equivalence, lemma_mod_twice,
    lemma_mul_mod_noop_left, lemma_mul_mod_noop_right, lemma_small_mod,
};
use crate::curve::{
    Point, Scalar, be_int, canonical, generator_point, group_order, point_add, point_encoding,
    point_log, point_mul, point_to_bytes, points_equal, scalar_add, scalar_clone, scalar_mul,
    scalar_nat, scalar_random,
};
use crate::merkle::{MerkleError, sha256_of};
use crate::crypto_utils::safe_scalar_from_hash;

verus! {

/// Relies on rand's `random`: a uniformly random 64-bit value.  Nothing is
/// assumed of the result.
#[verifier::external_body]
fn random_u64() -> u64 {
    rand::random::<u64>()
}

/// The Schnorr verification equation over the model: the response `z`
/// equals, modulo the group order, the commitment's logarithm plus the
/// challenge times the witness.
pub open spec fn schnorr_verifies(w: nat, tlog: nat, e: nat, z: nat) -> bool {
    z % group_order() == (tlog + ((w % group_order()) * e) % group_order()) % group_order()
}

/// The digest that the Fiat-Shamir challenge derivation hashes: the
/// commitment point's encoding followed by the root digest.
pub open spec fn fs_challenge_digest(tlog: nat, root: Seq<u8>) -> Seq<u8> {
    sha256_of(point_encoding(tlog % group_order()) + root)
}

/// The little-endian bytes of a 64-bit value.
fn u64_le_bytes(x: u64) -> (r: Vec<u8>)
    ensures
        r@.len() == 8,
{
    let mut v: Vec<u8> = Vec::new();
    let mut cur: u64 = x;
    let mut i: usize = 0;
    while i < 8
        invariant
            v@.len() == i,
            i <= 8,
        decreases 8 - i,
    {
        proof {
            assert((cur & 0xff) <= 0xff) by (bit_vector);
        }
        let b = (cur & 0xff) as u8;
        v.push(b);
        cur = cur >> 8;
        i = i + 1;
    }
    v
}

/// One side of a Schnorr proof of knowledge: the generator `g`, the public
/// value `x = g * w`, and the secret witness `w`.
pub struct SigmaProtocol {
    g: Point,
    x: Point,
    w: Scalar,
}

impl SigmaProtocol {
    /// The instance is well formed: `g` is the generator and `x` is the
    /// witness's public value.
    pub closed spec fn wf(&self) -> bool {
        point_log(self.g) == 1 && point_log(self.x) == scalar_nat(self.w) % group_order()
    }

    /// The value of the secret witness.
    pub closed spec fn witness(&self) -> nat {
        scalar_nat(self.w)
    }

    /// Set up an instance for the witness `w`, computing the public value
    /// `x = g * w`.
    pub fn new(w: &Scalar) -> (sp: SigmaProtocol)
        ensures
            sp.wf(),
            sp.witness() == scalar_nat(*w),
    {
        let g = generator_point();
        let x = point_mul(&g, w);
        SigmaProtocol { g, x, w: scalar_clone(w) }
    }

    /// Commit: draw a fresh random scalar `r` and publish `t = g * r`.
    /// `r` stays with the prover and is used exactly once.
    pub fn commit(&self) -> (tr: (Point, Scalar))
        requires
            self.wf(),
        ensures
            point_log(tr.0) == scalar_nat(tr.1),
            scalar_nat(tr.1) < group_order(),
    {
        let r = scalar_random();
        let t = point_mul(&self.g, &r);
        proof {
            lemma_small_mod(scalar_nat(r), group_order());
        }
        (t, r)
    }

    /// Interactive challenge: hash a fresh random 64-bit value down to a
    /// scalar.  Nothing is promised of the result but its range.
    pub fn challenge() -> (e: Scalar)
        ensures
            scalar_nat(e) < group_order(),
    {
        let val = random_u64();
        let bytes = u64_le_bytes(val);
        let d = crate::merkle::Hash::compute_hash(bytes.as_slice());
        let db = d.as_bytes();
        proof {
            assert(db@.take(32) =~= db@);
        }
        safe_scalar_from_hash(db)
    }

    /// Non-interactive (Fiat-Shamir) challenge: hash the commitment's
    /// encoding together with the tree's root digest.  When the digest is
    /// canonical the challenge is a function of commitment and root alone;
    /// otherwise a random scalar takes its place.
    pub fn challenge_fiat_shamir(t: &Point, root: &crate::merkle::Hash) -> (e: Scalar)
        ensures
            scalar_nat(e) < group_order(),
            canonical(fs_challenge_digest(point_log(*t), root@)) ==> scalar_nat(e) == be_int(
                fs_challenge_digest(point_log(*t), root@),
            ),
    {
        let mut msg = point_to_bytes(t);
        let ghost pre = msg@;
        let rb = root.as_bytes();
        let mut i: usize = 0;
        while i < rb.len()
            invariant
                i <= rb@.len(),
                msg@ == pre + rb@.take(i as int),
            decreases rb@.len() - i,
        {
            let b = rb[i];
            msg.push(b);
            proof {
                assert(pre + rb@.take(i + 1) =~= (pre + rb@.take(i as int)).push(rb@[i as int]));
            }
            i = i + 1;
        }
        proof {
            assert(pre + rb@.take(rb@.len() as int) =~= pre + rb@);
        }
        let d = crate::merkle::Hash::compute_hash(msg.as_slice());
        let db = d.as_bytes();
        proof {
            assert(db@.take(32) =~= db@);
        }
        safe_scalar_from_hash(db)
    }

    /// Respond to the challenge `e` with `z = r + e * w` in the scalar
    /// field.
    pub fn response(&self, r: &Scalar, e: &Scalar) -> (z: Scalar)
        ensures
            scalar_nat(z) == (scalar_nat(*r) + scalar_nat(*e) * self.witness()) % group_order(),
    {
        let ew = scalar_mul(e, &self.w);
        let z = scalar_add(r, &ew);
        proof {
            lemma_add_mod_noop_right(
                scalar_nat(*r) as int,
                (scalar_nat(*e) * scalar_nat(self.w)) as int,
                group_order() as int,
            );
        }
        z
    }

    /// Verify a transcript: accept exactly when `g * z == t + x * e`.
    pub fn verify(&self, t: &Point, e: &Scalar, z: &Scalar) -> (ok: bool)
        requires
            self.wf(),
        ensures
            ok == schnorr_verifies(self.witness(), point_log(*t), scalar_nat(*e), scalar_nat(*z)),
    {
        let lhs = point_mul(&self.g, z);
        let xe = point_mul(&self.x, e);
        let rhs = point_add(t, &xe);
        let ok = points_equal(&lhs, &rhs);
        proof {
            let q = group_order() as int;
            lemma_mod_twice(scalar_nat(*z) as int, q);
            lemma_mod_twice(
                (point_log(*t) + (point_log(self.x) * scalar_nat(*e)) % group_order()) as int,
                q,
            );
        }
        ok
    }
}

/// Completeness of the protocol: for every witness `w`, commitment
/// randomness `r` and challenge `e`, the honest response `z = r + e * w`
/// satisfies the verification equation.
pub proof fn lemma_schnorr_completeness(w: nat, r: nat, e: nat)
    ensures
        schnorr_verifies(w, r % group_order(), e, (r + e * w) % group_order()),
{
    let q = group_order() as int;
    lemma_mod_twice((r + e * w) as int, q);
    lemma_mul_mod_noop_left(w as int, e as int, q);
    lemma_add_mod_noop(r as int, (w * e) as int, q);
    assert(e * w == w * e) by (nonlinear_arith);
}

/// Binding of the response to the witness: a response forged as
/// `z = r + e * w2` against the public value of witness `w` passes the
/// verification equation exactly when `e * w2` and `e * w` agree modulo the
/// group order.  For `w2` not congruent to `w` this fails unless the
/// challenge happens to cancel the difference.
pub proof fn lemma_schnorr_binding(w: nat, w2: nat, r: nat, e: nat)
    ensures
        schnorr_verifies(w, r % group_order(), e, (r + e * w2) % group_order()) <==> ((e * w2)
            % group_order() == (e * w) % group_order()),
{
    let q = group_order() as int;
    lemma_mod_twice((r + e * w2) as int, q);
    lemma_mul_mod_noop_left(w as int, e as int, q);
    lemma_add_mod_noop(r as int, (w * e) as int, q);
    assert(e * w == w * e) by (nonlinear_arith);
    lemma_mod_equivalence((r + e * w2) as int, (r + e * w) as int, q);
    lemma_mod_equivalence((e * w2) as int, (e * w) as int, q);
}

/// Fiat-Shamir determinism: two runs with the same witness value and the
/// same commitment randomness produce the same commitment logarithm, hash
/// the same challenge digest, and answer any one challenge with the same
/// response value.
pub proof fn lemma_fiat_shamir_deterministic(
    w1: nat,
    w2: nat,
    r1: nat,
    r2: nat,
    e: nat,
    root: Seq<u8>,
)
    requires
        w1 % group_order() == w2 % group_order(),
        r1 % group_order() == r2 % group_order(),
    ensures
        fs_challenge_digest(r1 % group_order(), root) == fs_challenge_digest(
            r2 % group_order(),
            root,
        ),
        ((r1 + e * w1) % group_order()) == ((r2 + e * w2) % group_order()),
{
    let q = group_order() as int;
    lemma_mod_twice(r1 as int, q);
    lemma_mod_twice(r2 as int, q);
    lemma_add_mod_noop(r1 as int, (e * w1) as int, q);
    lemma_add_mod_noop(r2 as int, (e * w2) as int, q);
    lemma_mul_mod_noop_right(e as int, w1 as int, q);
    lemma_mul_mod_noop_right(e as int, w2 as int, q);
}

/// One full honest protocol round for the witness `w`: set up, commit,
/// draw an interactive challenge, respond, verify.  The verification
/// equation holds by construction, so the round always accepts.
pub fn run_protocol(w: &Scalar) -> (ok: bool)
    ensures
        ok,
{
    let sigma = SigmaProtocol::new(w);
    let (t, r) = sigma.commit();
    let e = SigmaProtocol::challenge();
    let z = sigma.response(&r, &e);
    let ok = sigma.verify(&t, &e, &z);
    proof {
        lemma_schnorr_completeness(scalar_nat(*w), scalar_nat(r), scalar_nat(e));
        lemma_small_mod(scalar_nat(r), group_order());
    }
    ok
}

/// End-to-end membership attestation: derive the witness of the
/// (leaf sequence, index) pair and run one full protocol round on it.
/// Rejected inputs surface the Merkle engine's error; accepted inputs
/// always yield `true`.  A single leaf is excluded as in the witness
/// derivation.
pub fn prove_membership(transac_data: Vec<Vec<u8>>, index: usize) -> (r: Result<
    bool,
    MerkleError,
>)
    requires
        transac_data@.len() != 1,
    ensures
        match r {
            Ok(ok) => ok && transac_data@.len() > 0 && index < transac_data@.len(),
            Err(MerkleError::EmptyInput) => transac_data@.len() == 0,
            Err(MerkleError::IndexOutOfRange) => transac_data@.len() > 0 && index
                >= transac_data@.len(),
        },
{
    let w = match crate::crypto_utils::compute_merkle_product(transac_data, index) {
        Err(e) => {
            return Err(e);
        },
        Ok(w) => w,
    };
    Ok(run_protocol(&w))
}

} // verus!
