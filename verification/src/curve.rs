//! The secp256k1 group as the proofs see it.
//!
//! `Scalar` and `Point` hold values of the `curv` library's curve types.  A
//! scalar is modelled by its numeric value (`scalar_nat`, a natural number
//! below the group order) and a point by its discrete logarithm with respect
//! to the fixed generator (`point_log`).  The curve arithmetic itself is done
//! by `curv` behind the trusted wrappers of this module; each wrapper's
//! contract states, in terms of the model, what the library's source shows
//! of that one operation.

use vstd::prelude::*;

verus! {

/// Order of the secp256k1 group, the modulus of its scalar field.
pub open spec fn group_order() -> nat {
    0xFFFFFFFFFFFFFFFFFFFFFFFFFFFFFFFEBAAEDCE6AF48A03BBFD25E8CD0364141nat
}

/// The big-endian integer value of a byte string.
pub open spec fn be_int(b: Seq<u8>) -> nat
    decreases b.len(),
{
    if b.len() == 0 {
        0nat
    } else {
        be_int(b.drop_last()) * 256 + b.last() as nat
    }
}

/// A byte string is canonical when its big-endian value is a valid scalar,
/// i.e. below the group order.
pub open spec fn canonical(b: Seq<u8>) -> bool {
    be_int(b) < group_order()
}

/// An element of the secp256k1 scalar field.
#[verifier::external_body]
pub struct Scalar {
    inner: curv::elliptic::curves::Scalar<curv::elliptic::curves::Secp256k1>,
}

/// An element of the secp256k1 group.
#[verifier::external_body]
pub struct Point {
    inner: curv::elliptic::curves::Point<curv::elliptic::curves::Secp256k1>,
}

/// The numeric value of a scalar: what curv's `Scalar::to_bigint` returns,
/// always in `[0, group_order())`.
pub uninterp spec fn scalar_nat(s: Scalar) -> nat;

/// The discrete logarithm of a point with respect to the group generator.
/// The group is cyclic of prime order, so every point is a power of the
/// generator, and two points are equal exactly when their logarithms agree
/// modulo the group order.
pub uninterp spec fn point_log(p: Point) -> nat;

/// The 65-byte uncompressed encoding of the point whose discrete logarithm
/// (reduced modulo the group order) is the argument: what curv's
/// `Point::to_bytes` returns for that point.
pub uninterp spec fn point_encoding(log: nat) -> Seq<u8>;

/// Relies on curv's `Point::generator`: the fixed group generator, whose
/// discrete logarithm with respect to itself is 1.
#[verifier::external_body]
pub(crate) fn generator_point() -> (g: Point)
    ensures
        point_log(g) == 1,
{
    Point {
        inner: curv::elliptic::curves::Point::<
            curv::elliptic::curves::Secp256k1,
        >::generator().to_point(),
    }
}

/// Relies on curv's point-scalar multiplication: multiplying a point of
/// discrete logarithm `a` by a scalar `s` yields the point of discrete
/// logarithm `a * s` modulo the group order.
#[verifier::external_body]
pub(crate) fn point_mul(p: &Point, s: &Scalar) -> (r: Point)
    ensures
        point_log(r) == (point_log(*p) * scalar_nat(*s)) % group_order(),
{
    Point { inner: &p.inner * &s.inner }
}

/// Relies on curv's point addition: adding points of discrete logarithms
/// `a` and `b` yields the point of discrete logarithm `a + b` modulo the
/// group order.
#[verifier::external_body]
pub(crate) fn point_add(p1: &Point, p2: &Point) -> (r: Point)
    ensures
        point_log(r) == (point_log(*p1) + point_log(*p2)) % group_order(),
{
    Point { inner: p1.inner.clone() + p2.inner.clone() }
}

/// Relies on curv's `PartialEq` for points: two points of the cyclic group
/// are equal exactly when their discrete logarithms agree modulo the group
/// order.
#[verifier::external_body]
pub(crate) fn points_equal(p1: &Point, p2: &Point) -> (r: bool)
    ensures
        r == (point_log(*p1) % group_order() == point_log(*p2) % group_order()),
{
    p1.inner == p2.inner
}

/// Relies on curv's `Point::to_bytes` with `compressed = false`: the 65-byte
/// uncompressed encoding, a function of the point alone.
#[verifier::external_body]
pub fn point_to_bytes(p: &Point) -> (r: Vec<u8>)
    ensures
        r@ == point_encoding(point_log(*p) % group_order()),
        r@.len() == 65,
{
    p.inner.to_bytes(false).to_vec()
}

/// Relies on curv's scalar addition: addition modulo the group order.
#[verifier::external_body]
pub(crate) fn scalar_add(a: &Scalar, b: &Scalar) -> (r: Scalar)
    ensures
        scalar_nat(r) == (scalar_nat(*a) + scalar_nat(*b)) % group_order(),
{
    Scalar { inner: &a.inner + &b.inner }
}

/// Relies on curv's scalar multiplication: multiplication modulo the group
/// order.
#[verifier::external_body]
pub(crate) fn scalar_mul(a: &Scalar, b: &Scalar) -> (r: Scalar)
    ensures
        scalar_nat(r) == (scalar_nat(*a) * scalar_nat(*b)) % group_order(),
{
    Scalar { inner: &a.inner * &b.inner }
}

/// Relies on curv's `Clone` for scalars: the copy has the same value.
#[verifier::external_body]
pub fn scalar_clone(s: &Scalar) -> (r: Scalar)
    ensures
        scalar_nat(r) == scalar_nat(*s),
{
    Scalar { inner: s.inner.clone() }
}

/// Relies on curv's `Scalar::random`: a uniformly drawn nonzero scalar.
/// Nothing is assumed of the draw beyond its range.
#[verifier::external_body]
pub(crate) fn scalar_random() -> (r: Scalar)
    ensures
        0 < scalar_nat(r) < group_order(),
{
    Scalar {
        inner: curv::elliptic::curves::Scalar::<curv::elliptic::curves::Secp256k1>::random(),
    }
}

/// Relies on curv's `Scalar::from_bytes` on exactly 32 bytes: it succeeds
/// exactly when the big-endian value of the bytes is below the group order,
/// and then returns the scalar of that value.
#[verifier::external_body]
pub(crate) fn scalar_from_be_bytes(bytes: &[u8]) -> (r: Option<Scalar>)
    requires
        bytes@.len() == 32,
    ensures
        match r {
            Some(s) => canonical(bytes@) && scalar_nat(s) == be_int(bytes@),
            None => !canonical(bytes@),
        },
{
    curv::elliptic::curves::Scalar::<curv::elliptic::curves::Secp256k1>::from_bytes(bytes)
        .ok()
        .map(|inner| Scalar { inner })
}

/// Relies on curv's `Scalar::to_bytes`: the 32-byte big-endian encoding of
/// the scalar's value.
#[verifier::external_body]
pub fn scalar_to_bytes(s: &Scalar) -> (r: Vec<u8>)
    ensures
        r@.len() == 32,
        be_int(r@) == scalar_nat(*s),
{
    s.inner.to_bytes().to_vec()
}

} // verus!
