//! Scalar bridge and witness derivation: mapping digests into the scalar
//! field, folding two points into one through hashing, and deriving the
//! discrete-log witness of a (tree, leaf index) pair.

use vstd::prelude::*;
use crate::curve::{
    Point, Scalar, be_int, canonical, generator_point, group_order, point_encoding, point_log,
    point_mul, point_to_bytes, scalar_from_be_bytes, scalar_mul, scalar_nat, scalar_random,
};
use crate::merkle::{
    MerkleError, build_merkle_tree, compute_merkle_proof, digests, path_s, root_s, sha256_of,
};

verus! {

/// The digest that hashing a point's encoding yields, for the point of the
/// given discrete logarithm.
pub open spec fn point_hash_digest(log: nat) -> Seq<u8> {
    sha256_of(point_encoding(log % group_order()))
}

/// That digest's value as a field element candidate.
pub open spec fn point_hash_scalar(log: nat) -> nat {
    be_int(point_hash_digest(log))
}

/// The concatenation of a sequence of byte strings.
pub open spec fn concat_seqs(s: Seq<Seq<u8>>) -> Seq<u8>
    decreases s.len(),
{
    if s.len() == 0 {
        Seq::empty()
    } else {
        concat_seqs(s.drop_last()) + s.last()
    }
}

/// Interpret the first 32 bytes of `hash` as a scalar.  When their value is
/// canonical — below the group order — the result is exactly that value;
/// otherwise a uniformly random scalar takes its place, so the result is a
/// valid scalar for every input.
pub fn safe_scalar_from_hash(hash: &[u8]) -> (r: Scalar)
    requires
        hash@.len() >= 32,
    ensures
        scalar_nat(r) < group_order(),
        canonical(hash@.take(32)) ==> scalar_nat(r) == be_int(hash@.take(32)),
{
    let mut first: Vec<u8> = Vec::new();
    let mut i: usize = 0;
    while i < 32
        invariant
            i <= 32,
            hash@.len() >= 32,
            first@ == hash@.take(i as int),
        decreases 32 - i,
    {
        let b = hash[i];
        first.push(b);
        proof {
            assert(hash@.take(i + 1) =~= hash@.take(i as int).push(hash@[i as int]));
        }
        i = i + 1;
    }
    match scalar_from_be_bytes(first.as_slice()) {
        Some(s) => s,
        None => scalar_random(),
    }
}

/// Map a point to a scalar by hashing its encoding: the digest's value when
/// canonical, a random scalar otherwise.
pub fn point_to_scalar(point: &Point) -> (r: Scalar)
    ensures
        scalar_nat(r) < group_order(),
        canonical(point_hash_digest(point_log(*point))) ==> scalar_nat(r) == point_hash_scalar(
            point_log(*point),
        ),
{
    let enc = point_to_bytes(point);
    let h = crate::merkle::Hash::compute_hash(enc.as_slice());
    let hb = h.as_bytes();
    proof {
        assert(hb@.take(32) =~= hb@);
    }
    safe_scalar_from_hash(hb)
}

/// Fold two points into one, deterministically up to the random fallback:
/// hash each point down to a scalar, multiply the two scalars in the field,
/// and re-exponentiate the generator by the product.  This is a
/// hash-mediated mixing function, not elliptic-curve point multiplication,
/// and carries no standard security proof.
pub fn multiply_points(p1: &Point, p2: &Point) -> (r: Point)
    ensures
        point_log(r) < group_order(),
        canonical(point_hash_digest(point_log(*p1))) && canonical(
            point_hash_digest(point_log(*p2)),
        ) ==> point_log(r) == (point_hash_scalar(point_log(*p1)) * point_hash_scalar(
            point_log(*p2),
        )) % group_order(),
{
    let s1 = point_to_scalar(p1);
    let s2 = point_to_scalar(p2);
    let prod = scalar_mul(&s1, &s2);
    let g = generator_point();
    let r = point_mul(&g, &prod);
    proof {
        vstd::arithmetic::div_mod::lemma_small_mod(scalar_nat(prod), group_order());
    }
    r
}

/// The byte views of a sequence of byte vectors.
pub open spec fn data_views(data: Seq<Vec<u8>>) -> Seq<Seq<u8>> {
    data.map_values(|d: Vec<u8>| d@)
}

/// The leaf digests of a sequence of raw leaves.
pub open spec fn leaf_digests(data: Seq<Seq<u8>>) -> Seq<Seq<u8>> {
    data.map_values(|d: Seq<u8>| sha256_of(d))
}

/// The 32 bytes that the witness derivation reads off the concatenated
/// authentication path of the leaf at `index`.
pub open spec fn path_scalar_bytes(data: Seq<Seq<u8>>, index: nat) -> Seq<u8> {
    concat_seqs(path_s(leaf_digests(data), index)).take(32)
}

/// All five digest-to-scalar conversions of the witness derivation hit a
/// canonical value, so no random fallback was taken and the witness is a
/// function of the leaves and the index alone.
pub open spec fn witness_derivation_canonical(data: Seq<Seq<u8>>, index: nat) -> bool {
    let s1 = be_int(path_scalar_bytes(data, index));
    let s2 = be_int(root_s(leaf_digests(data)));
    let m = (point_hash_scalar(s1) * point_hash_scalar(s2)) % group_order();
    &&& canonical(path_scalar_bytes(data, index))
    &&& canonical(root_s(leaf_digests(data)))
    &&& canonical(point_hash_digest(s1))
    &&& canonical(point_hash_digest(s2))
    &&& canonical(point_hash_digest(m))
}

/// The witness scalar of the derivation, on the runs where every conversion
/// was canonical.
pub open spec fn witness_value(data: Seq<Seq<u8>>, index: nat) -> nat {
    let s1 = be_int(path_scalar_bytes(data, index));
    let s2 = be_int(root_s(leaf_digests(data)));
    let m = (point_hash_scalar(s1) * point_hash_scalar(s2)) % group_order();
    point_hash_scalar(m)
}

/// An authentication path below a leaf level of two or more digests holds
/// at least one digest.
proof fn lemma_path_s_nonempty(level: Seq<Seq<u8>>, index: nat)
    requires
        level.len() >= 2,
    ensures
        path_s(level, index).len() >= 1,
{
}

/// Appending one more byte string extends the concatenation on the right.
proof fn lemma_concat_seqs_take_step(s: Seq<Seq<u8>>, k: int)
    requires
        0 <= k < s.len(),
    ensures
        concat_seqs(s.take(k + 1)) == concat_seqs(s.take(k)) + s[k],
{
    assert(s.take(k + 1).drop_last() =~= s.take(k));
    assert(s.take(k + 1).last() == s[k]);
}

/// Derive the discrete-log witness of one (leaf sequence, index) pair:
/// hash the leaves, build the tree, take the authentication path, convert
/// the path's first digest and the root to scalars, lift both to points,
/// fold the points into one, and hash that point back down to the witness
/// scalar.  Zero leaves and an out-of-range index are rejected.  A single
/// leaf is excluded: its authentication path is empty and leaves the
/// derivation no digest to convert.
#[verifier::rlimit(50)]
pub fn compute_merkle_product(transac_data: Vec<Vec<u8>>, index: usize) -> (r: Result<
    Scalar,
    MerkleError,
>)
    requires
        transac_data@.len() != 1,
    ensures
        match r {
            Ok(s) => {
                &&& transac_data@.len() > 0
                &&& index < transac_data@.len()
                &&& scalar_nat(s) < group_order()
                &&& (witness_derivation_canonical(data_views(transac_data@), index as nat)
                    ==> scalar_nat(s) == witness_value(data_views(transac_data@), index as nat))
            },
            Err(MerkleError::EmptyInput) => transac_data@.len() == 0,
            Err(MerkleError::IndexOutOfRange) => transac_data@.len() > 0 && index
                >= transac_data@.len(),
        },
{
    let ghost data = data_views(transac_data@);
    let mut leaf_hashes: Vec<crate::merkle::Hash> = Vec::new();
    let mut i: usize = 0;
    while i < transac_data.len()
        invariant
            data == data_views(transac_data@),
            i <= transac_data@.len(),
            digests(leaf_hashes@) == leaf_digests(data).take(i as int),
            forall|j: int| 0 <= j < i ==> (#[trigger] leaf_hashes@[j])@.len() == 32,
            leaf_hashes@.len() == i,
        decreases transac_data@.len() - i,
    {
        let h = crate::merkle::Hash::compute_hash(transac_data[i].as_slice());
        let ghost old_lh = leaf_hashes@;
        leaf_hashes.push(h);
        proof {
            assert(digests(leaf_hashes@) =~= digests(old_lh).push(h@));
            assert(leaf_digests(data).take(i + 1) =~= leaf_digests(data).take(i as int).push(
                leaf_digests(data)[i as int],
            ));
        }
        i = i + 1;
    }
    proof {
        assert(leaf_digests(data).take(data.len() as int) =~= leaf_digests(data));
    }
    let (tree, root) = match build_merkle_tree(&leaf_hashes) {
        Err(e) => {
            return Err(e);
        },
        Ok(p) => p,
    };
    let path = match compute_merkle_proof(&tree, index) {
        Err(e) => {
            return Err(e);
        },
        Ok(p) => p,
    };
    proof {
        lemma_path_s_nonempty(leaf_digests(data), index as nat);
    }
    let mut concat: Vec<u8> = Vec::new();
    let mut k: usize = 0;
    while k < path.len()
        invariant
            k <= path@.len(),
            concat@ == concat_seqs(digests(path@).take(k as int)),
            concat@.len() == 32 * k,
            forall|j: int| 0 <= j < path@.len() ==> (#[trigger] path@[j])@.len() == 32,
        decreases path@.len() - k,
    {
        let hb = path[k].as_bytes();
        let ghost pre = concat@;
        let mut t: usize = 0;
        while t < hb.len()
            invariant
                t <= hb@.len(),
                concat@ == pre + hb@.take(t as int),
            decreases hb@.len() - t,
        {
            let b = hb[t];
            concat.push(b);
            proof {
                assert(pre + hb@.take(t + 1) =~= (pre + hb@.take(t as int)).push(
                    hb@[t as int],
                ));
            }
            t = t + 1;
        }
        proof {
            assert(pre + hb@.take(hb@.len() as int) =~= pre + hb@);
            lemma_concat_seqs_take_step(digests(path@), k as int);
        }
        k = k + 1;
    }
    proof {
        assert(digests(path@).take(path@.len() as int) =~= digests(path@));
    }
    let mt_scalar = safe_scalar_from_hash(concat.as_slice());
    let root_bytes = root.as_bytes();
    proof {
        assert(root_bytes@.take(32) =~= root_bytes@);
    }
    let mp_scalar = safe_scalar_from_hash(root_bytes);
    let g1 = generator_point();
    let mt_point = point_mul(&g1, &mt_scalar);
    let g2 = generator_point();
    let mp_point = point_mul(&g2, &mp_scalar);
    proof {
        vstd::arithmetic::div_mod::lemma_small_mod(scalar_nat(mt_scalar), group_order());
        vstd::arithmetic::div_mod::lemma_small_mod(scalar_nat(mp_scalar), group_order());
    }
    let point_of_merkle_product = multiply_points(&mt_point, &mp_point);
    let w = point_to_scalar(&point_of_merkle_product);
    Ok(w)
}

} // verus!
