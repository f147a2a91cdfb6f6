//! Trusted boundary around the BLS12-377 arithmetic of the arkworks crates.
//!
//! A group element is modelled by its canonical *uncompressed* encoding,
//! carried as a ghost byte sequence next to the actual point; a scalar is
//! modelled by its integer representative (below the order of the scalar
//! field).  Uninterpreted spec functions name what the curve library
//! computes: `g1_elem(k)` is the encoding of the `k`-th multiple of the
//! fixed G1 generator, `g1_canon` is the result of deserialization,
//! `g1_compressed_form` the compressed encoding, and so on.  Every function
//! in this module is a trusted wrapper around one operation of the outside
//! crates; everything else in the crate is verified against these contracts.

use vstd::prelude::*;

use ark_ec::pairing::Pairing;
use ark_ec::AffineRepr;
use ark_ec::CurveGroup;
use ark_ff::Field;
use ark_ff::PrimeField;
use ark_serialize::CanonicalDeserialize;
use ark_serialize::CanonicalSerialize;
use ark_std::UniformRand;
use blake2::Blake2b512;
use blake2::Digest;
use rand::SeedableRng;
use std::ops::Mul;

verus! {

// The arkworks point and field types are generic over curve-configuration
// traits that Verus cannot process, so each is held in an opaque struct of
// this crate; the surrounding `Scalar`/`G1Point`/`G2Point` structs carry the
// ghost model beside it.
#[verifier::external_body]
pub struct G1Inner {
    p: ark_bls12_377::G1Affine,
}

#[verifier::external_body]
pub struct G2Inner {
    p: ark_bls12_377::G2Affine,
}

#[verifier::external_body]
pub struct FrInner {
    f: ark_bls12_377::Fr,
}

/// Order of the BLS12-377 scalar field (the prime `r`).
pub open spec fn scalar_field_order() -> nat {
    0x12ab655e9a2ca55660b44d1e5c37b00159aa76fed00000010a11800000000001nat
}

/// Product in the scalar field.
pub open spec fn mul_mod(a: nat, b: nat) -> nat {
    (a * b) % scalar_field_order()
}

/// Sum in the scalar field.
pub open spec fn add_mod(a: nat, b: nat) -> nat {
    (a + b) % scalar_field_order()
}

/// Negation in the scalar field.
pub open spec fn neg_mod(a: nat) -> nat {
    (((scalar_field_order() - (a % scalar_field_order())) as int) % (
    scalar_field_order() as int)) as nat
}

/// `base^exp` in the scalar field.
pub open spec fn pow_mod(base: nat, exp: nat) -> nat
    decreases exp,
{
    if exp == 0 {
        1nat
    } else {
        mul_mod(base, pow_mod(base, (exp - 1) as nat))
    }
}

/// Byte length of a G1 encoding.
pub open spec fn g1_enc_size(compressed: bool) -> nat {
    if compressed {
        48nat
    } else {
        96nat
    }
}

/// Byte length of a G2 encoding.
pub open spec fn g2_enc_size(compressed: bool) -> nat {
    if compressed {
        96nat
    } else {
        192nat
    }
}

/// Canonical uncompressed encoding of the `log`-th multiple of the G1 generator.
pub uninterp spec fn g1_elem(log: nat) -> Seq<u8>;

/// Canonical uncompressed encoding of the `log`-th multiple of the G2 generator.
pub uninterp spec fn g2_elem(log: nat) -> Seq<u8>;

/// Result of deserializing a G1 encoding: the canonical uncompressed
/// encoding of the decoded point, or `None` if the bytes are rejected.
pub uninterp spec fn g1_canon(bytes: Seq<u8>, compressed: bool) -> Option<Seq<u8>>;

/// Result of deserializing a G2 encoding.
pub uninterp spec fn g2_canon(bytes: Seq<u8>, compressed: bool) -> Option<Seq<u8>>;

/// Compressed encoding of the G1 point whose uncompressed encoding is `enc`.
pub uninterp spec fn g1_compressed_form(enc: Seq<u8>) -> Seq<u8>;

/// Compressed encoding of the G2 point whose uncompressed encoding is `enc`.
pub uninterp spec fn g2_compressed_form(enc: Seq<u8>) -> Seq<u8>;

/// Whether the G1 point with uncompressed encoding `enc` passes the curve
/// library's validity check (on the curve and in the prime-order subgroup).
pub uninterp spec fn g1_accepted(enc: Seq<u8>) -> bool;

/// Whether the G1 point with uncompressed encoding `enc` lies on the curve.
/// Unvalidated uncompressed decoding also admits points that do not; only
/// for points on the curve does compressing and decompressing return the
/// same point.
pub uninterp spec fn g1_on_curve(enc: Seq<u8>) -> bool;

/// Whether the G2 point with uncompressed encoding `enc` lies on the curve.
pub uninterp spec fn g2_on_curve(enc: Seq<u8>) -> bool;

/// Whether the G2 point with uncompressed encoding `enc` passes the validity check.
pub uninterp spec fn g2_accepted(enc: Seq<u8>) -> bool;

/// Whether `e(a1, b2) == e(a2, b1)` for the points with these uncompressed
/// encodings, compared as the (possibly failing) final exponentiations of
/// the two Miller values: on points where the pairing is defined this is
/// exactly equality of the pairings, and the comparison is total.
pub uninterp spec fn pairing_ratio_eq(a1: Seq<u8>, a2: Seq<u8>, b1: Seq<u8>, b2: Seq<u8>) -> bool;

/// The 64-byte BLAKE2b digest of a message.
pub uninterp spec fn blake2b_digest(msg: Seq<u8>) -> Seq<u8>;

/// Discrete logarithm of the G2 point derived from a 32-byte seed.
pub uninterp spec fn hashed_g2_log(seed: Seq<u8>) -> nat;

/// Whether the scalar field has a multiplicative subgroup of order `n`
/// reachable by the curve library's FFT support.
pub uninterp spec fn domain_supported(n: nat) -> bool;

/// The generator of that subgroup (the `n`-th root of unity the library picks).
pub uninterp spec fn domain_generator(n: nat) -> nat;

/// The bytes a G1 point is stored as, under the given compression choice.
pub open spec fn g1_store(enc: Seq<u8>, compressed: bool) -> Seq<u8> {
    if compressed {
        g1_compressed_form(enc)
    } else {
        enc
    }
}

/// The bytes a G2 point is stored as, under the given compression choice.
pub open spec fn g2_store(enc: Seq<u8>, compressed: bool) -> Seq<u8> {
    if compressed {
        g2_compressed_form(enc)
    } else {
        enc
    }
}

/// `bytes` decode (under `compressed`) to the `log`-th multiple of the G1 generator.
pub open spec fn g1_parses(bytes: Seq<u8>, compressed: bool, log: nat) -> bool {
    g1_canon(bytes, compressed) == Some(g1_elem(log))
}

/// `bytes` decode (under `compressed`) to the `log`-th multiple of the G2 generator.
pub open spec fn g2_parses(bytes: Seq<u8>, compressed: bool, log: nat) -> bool {
    g2_canon(bytes, compressed) == Some(g2_elem(log))
}

// The ghost model of a wrapped value is fixed only by the contracts of the
// trusted wrappers; the helpers below give the wrapper bodies a ghost slot
// to fill.
fn opaque_enc() -> Ghost<Seq<u8>> {
    Ghost(Seq::empty())
}

fn opaque_val() -> Ghost<nat> {
    Ghost(0nat)
}

/// An element of the BLS12-377 scalar field.
pub struct Scalar {
    f: FrInner,
    v: Ghost<nat>,
}

impl Scalar {
    /// Integer representative of the scalar, in `[0, r)`.
    pub closed spec fn val(&self) -> nat {
        self.v@
    }

    pub open spec fn wf(&self) -> bool {
        self.val() < scalar_field_order()
    }
}

/// A point of the BLS12-377 G1 group (not necessarily in the prime-order subgroup).
pub struct G1Point {
    p: G1Inner,
    enc: Ghost<Seq<u8>>,
}

impl G1Point {
    /// Canonical uncompressed encoding of the point.
    pub closed spec fn repr(&self) -> Seq<u8> {
        self.enc@
    }
}

/// A point of the BLS12-377 G2 group.
pub struct G2Point {
    p: G2Inner,
    enc: Ghost<Seq<u8>>,
}

impl G2Point {
    /// Canonical uncompressed encoding of the point.
    pub closed spec fn repr(&self) -> Seq<u8> {
        self.enc@
    }
}

/// Relies on `ark_ec::AffineRepr::generator`: the fixed prime-order generator
/// of G1; it lies on the curve and its encodings round-trip.
#[verifier::external_body]
pub fn g1_generator() -> (r: G1Point)
    ensures
        r.repr() == g1_elem(1),
        r.repr().len() == g1_enc_size(false),
        g1_on_curve(r.repr()),
        g1_canon(r.repr(), false) == Some(r.repr()),
        g1_canon(g1_compressed_form(r.repr()), true) == Some(r.repr()),
{
    G1Point { p: G1Inner { p: ark_bls12_377::G1Affine::generator() }, enc: opaque_enc() }
}

/// Relies on `ark_ec::AffineRepr::generator`: the fixed prime-order generator
/// of G2; it lies on the curve and its encodings round-trip.
#[verifier::external_body]
pub fn g2_generator() -> (r: G2Point)
    ensures
        r.repr() == g2_elem(1),
        r.repr().len() == g2_enc_size(false),
        g2_on_curve(r.repr()),
        g2_canon(r.repr(), false) == Some(r.repr()),
        g2_canon(g2_compressed_form(r.repr()), true) == Some(r.repr()),
{
    G2Point { p: G2Inner { p: ark_bls12_377::G2Affine::generator() }, enc: opaque_enc() }
}

/// Relies on `ark_serialize::CanonicalDeserialize::deserialize_with_mode` for
/// `G1Affine`: decodes a point, optionally checking that it is on the curve
/// and in the prime-order subgroup; multiples of the generator always pass
/// that check.  An unvalidated uncompressed read may return a point off the
/// curve, so the compressed round trip is promised only when compressed
/// decoding or validation forced the point onto the curve.
#[verifier::external_body]
pub fn g1_read(bytes: &[u8], compressed: bool, validate: bool) -> (r: Option<G1Point>)
    requires
        bytes@.len() == g1_enc_size(compressed),
    ensures
        r is Some <==> (g1_canon(bytes@, compressed) is Some && (validate ==> g1_accepted(
            g1_canon(bytes@, compressed)->Some_0,
        ))),
        r is Some ==> {
            let e = r->Some_0.repr();
            &&& Some(e) == g1_canon(bytes@, compressed)
            &&& e.len() == g1_enc_size(false)
            &&& g1_canon(e, false) == Some(e)
            &&& g1_compressed_form(e).len() == g1_enc_size(true)
            &&& ((compressed || validate) ==> g1_on_curve(e))
            &&& (g1_on_curve(e) ==> g1_canon(g1_compressed_form(e), true) == Some(e))
        },
        forall|k: nat| g1_canon(bytes@, compressed) == Some(g1_elem(k)) ==> r is Some,
{
    let mode = if compressed { ark_serialize::Compress::Yes } else { ark_serialize::Compress::No };
    let val = if validate { ark_serialize::Validate::Yes } else { ark_serialize::Validate::No };
    match ark_bls12_377::G1Affine::deserialize_with_mode(bytes, mode, val) {
        Ok(p) => Some(G1Point { p: G1Inner { p }, enc: opaque_enc() }),
        Err(_) => None,
    }
}

/// Relies on `ark_serialize::CanonicalDeserialize::deserialize_with_mode` for
/// `G2Affine`; the compressed round trip is promised only for points on the
/// curve, as for `g1_read`.
#[verifier::external_body]
pub fn g2_read(bytes: &[u8], compressed: bool, validate: bool) -> (r: Option<G2Point>)
    requires
        bytes@.len() == g2_enc_size(compressed),
    ensures
        r is Some <==> (g2_canon(bytes@, compressed) is Some && (validate ==> g2_accepted(
            g2_canon(bytes@, compressed)->Some_0,
        ))),
        r is Some ==> {
            let e = r->Some_0.repr();
            &&& Some(e) == g2_canon(bytes@, compressed)
            &&& e.len() == g2_enc_size(false)
            &&& g2_canon(e, false) == Some(e)
            &&& g2_compressed_form(e).len() == g2_enc_size(true)
            &&& ((compressed || validate) ==> g2_on_curve(e))
            &&& (g2_on_curve(e) ==> g2_canon(g2_compressed_form(e), true) == Some(e))
        },
        forall|k: nat| g2_canon(bytes@, compressed) == Some(g2_elem(k)) ==> r is Some,
{
    let mode = if compressed { ark_serialize::Compress::Yes } else { ark_serialize::Compress::No };
    let val = if validate { ark_serialize::Validate::Yes } else { ark_serialize::Validate::No };
    match ark_bls12_377::G2Affine::deserialize_with_mode(bytes, mode, val) {
        Ok(p) => Some(G2Point { p: G2Inner { p }, enc: opaque_enc() }),
        Err(_) => None,
    }
}

/// Relies on `ark_serialize::CanonicalSerialize::serialize_with_mode` for
/// `G1Affine`: writing a point always produces its canonical encoding.
/// An uncompressed encoding decodes back to the same point; a compressed
/// one only when the point is on the curve (compression drops the
/// y-coordinate, which decompression recovers from the curve equation).
#[verifier::external_body]
pub fn g1_write(p: &G1Point, compressed: bool) -> (r: Vec<u8>)
    ensures
        r@ == g1_store(p.repr(), compressed),
        r@.len() == g1_enc_size(compressed),
        (!compressed || g1_on_curve(p.repr())) ==> g1_canon(r@, compressed) == Some(p.repr()),
{
    let mode = if compressed { ark_serialize::Compress::Yes } else { ark_serialize::Compress::No };
    let mut out = Vec::new();
    p.p.p.serialize_with_mode(&mut out, mode).expect("serializing into a vector cannot fail");
    out
}

/// Relies on `ark_serialize::CanonicalSerialize::serialize_with_mode` for
/// `G2Affine`; the compressed decode-back is promised for on-curve points,
/// as for `g1_write`.
#[verifier::external_body]
pub fn g2_write(p: &G2Point, compressed: bool) -> (r: Vec<u8>)
    ensures
        r@ == g2_store(p.repr(), compressed),
        r@.len() == g2_enc_size(compressed),
        (!compressed || g2_on_curve(p.repr())) ==> g2_canon(r@, compressed) == Some(p.repr()),
{
    let mode = if compressed { ark_serialize::Compress::Yes } else { ark_serialize::Compress::No };
    let mut out = Vec::new();
    p.p.p.serialize_with_mode(&mut out, mode).expect("serializing into a vector cannot fail");
    out
}

/// Relies on scalar multiplication (`Mul<Fr>`) for `G1Affine`: multiplying the
/// `k`-th multiple of the generator by `s` yields the `k*s`-th multiple.
/// Generator multiples are on the curve, so their compressed encodings
/// round-trip.
#[verifier::external_body]
pub fn g1_mul(p: &G1Point, s: &Scalar) -> (r: G1Point)
    ensures
        r.repr().len() == g1_enc_size(false),
        g1_canon(r.repr(), false) == Some(r.repr()),
        g1_compressed_form(r.repr()).len() == g1_enc_size(true),
        forall|k: nat| p.repr() == g1_elem(k) ==> r.repr() == g1_elem(mul_mod(k, s.val())),
        (exists|k: nat| p.repr() == g1_elem(k)) ==> g1_on_curve(r.repr()) && g1_canon(
            g1_compressed_form(r.repr()),
            true,
        ) == Some(r.repr()),
{
    G1Point { p: G1Inner { p: p.p.p.mul(s.f.f).into_affine() }, enc: opaque_enc() }
}

/// Relies on scalar multiplication (`Mul<Fr>`) for `G2Affine`; generator
/// multiples round-trip through compression, as for `g1_mul`.
#[verifier::external_body]
pub fn g2_mul(p: &G2Point, s: &Scalar) -> (r: G2Point)
    ensures
        r.repr().len() == g2_enc_size(false),
        g2_canon(r.repr(), false) == Some(r.repr()),
        g2_compressed_form(r.repr()).len() == g2_enc_size(true),
        forall|k: nat| p.repr() == g2_elem(k) ==> r.repr() == g2_elem(mul_mod(k, s.val())),
        (exists|k: nat| p.repr() == g2_elem(k)) ==> g2_on_curve(r.repr()) && g2_canon(
            g2_compressed_form(r.repr()),
            true,
        ) == Some(r.repr()),
{
    G2Point { p: G2Inner { p: p.p.p.mul(s.f.f).into_affine() }, enc: opaque_enc() }
}

/// Relies on `ark_ec::AffineRepr::is_zero`: a point is the identity exactly
/// when it is the zeroth multiple of the generator; nonzero multiples below
/// the group order are not the identity.
#[verifier::external_body]
pub fn g1_is_zero(p: &G1Point) -> (r: bool)
    ensures
        r == (p.repr() == g1_elem(0)),
        forall|k: nat| p.repr() == g1_elem(k) && 0 < k < scalar_field_order() ==> !r,
{
    p.p.p.is_zero()
}

/// Relies on `ark_ec::AffineRepr::is_zero` for `G2Affine`.
#[verifier::external_body]
pub fn g2_is_zero(p: &G2Point) -> (r: bool)
    ensures
        r == (p.repr() == g2_elem(0)),
        forall|k: nat| p.repr() == g2_elem(k) && 0 < k < scalar_field_order() ==> !r,
{
    p.p.p.is_zero()
}

/// Relies on `PartialEq` for `G1Affine`: equal points have equal canonical encodings.
#[verifier::external_body]
pub fn g1_eq(a: &G1Point, b: &G1Point) -> (r: bool)
    ensures
        r == (a.repr() == b.repr()),
{
    a.p.p == b.p.p
}

/// Relies on `PartialEq` for `G2Affine`.
#[verifier::external_body]
pub fn g2_eq(a: &G2Point, b: &G2Point) -> (r: bool)
    ensures
        r == (a.repr() == b.repr()),
{
    a.p.p == b.p.p
}

/// Relies on `ark_ec::pairing::Pairing::multi_miller_loop` and
/// `final_exponentiation` for BLS12-377: compares `e(a1, b2)` with
/// `e(a2, b1)` as `Option`s, so the comparison is total even on the
/// degenerate inputs (points off the curve, admitted by unvalidated
/// uncompressed reads) for which the final exponentiation fails and the
/// library's own `pairing` would panic.  On generator multiples both
/// pairings are defined; by bilinearity the test passes when both pairs
/// have the same exponent ratio, and because the pairing is non-degenerate
/// it passes only when the cross products of the exponents agree.
#[verifier::external_body]
pub fn same_ratio(a1: &G1Point, a2: &G1Point, b1: &G2Point, b2: &G2Point) -> (r: bool)
    ensures
        r == pairing_ratio_eq(a1.repr(), a2.repr(), b1.repr(), b2.repr()),
        forall|k: nat, m: nat, x: nat|
            a1.repr() == g1_elem(k) && b1.repr() == g2_elem(m) && a2.repr() == g1_elem(
                #[trigger] mul_mod(k, x),
            ) && b2.repr() == g2_elem(#[trigger] mul_mod(m, x)) ==> r,
        forall|k1: nat, k2: nat, m1: nat, m2: nat|
            a1.repr() == g1_elem(k1) && a2.repr() == g1_elem(k2) && b1.repr() == g2_elem(m1)
                && b2.repr() == g2_elem(m2) && r ==> #[trigger] mul_mod(k1, m2) == #[trigger] mul_mod(
                k2,
                m1,
            ),
{
    let left = ark_bls12_377::Bls12_377::final_exponentiation(
        ark_bls12_377::Bls12_377::multi_miller_loop([a1.p.p], [b2.p.p]),
    );
    let right = ark_bls12_377::Bls12_377::final_exponentiation(
        ark_bls12_377::Bls12_377::multi_miller_loop([a2.p.p], [b1.p.p]),
    );
    left == right
}

/// Relies on `core::ops::Mul` for `Fr`: multiplication in the scalar field.
#[verifier::external_body]
pub fn scalar_mul(a: &Scalar, b: &Scalar) -> (r: Scalar)
    ensures
        r.val() == mul_mod(a.val(), b.val()),
{
    Scalar { f: FrInner { f: a.f.f * b.f.f }, v: opaque_val() }
}

/// Relies on `From<u64>` for `Fr`: values below the field order are embedded as is.
#[verifier::external_body]
pub fn scalar_from_u64(x: u64) -> (r: Scalar)
    ensures
        r.val() == x as nat,
        r.wf(),
{
    Scalar { f: FrInner { f: ark_bls12_377::Fr::from(x) }, v: opaque_val() }
}

/// Relies on `ark_ff::PrimeField::from_le_bytes_mod_order`: interprets the
/// bytes as a little-endian integer and reduces it modulo the field order.
#[verifier::external_body]
pub fn scalar_from_le_bytes(bytes: &[u8]) -> (r: Scalar)
    ensures
        r.val() == le_bytes_value(bytes@) % scalar_field_order(),
        r.wf(),
{
    Scalar { f: FrInner { f: ark_bls12_377::Fr::from_le_bytes_mod_order(bytes) }, v: opaque_val() }
}

/// Relies on `ark_ff::Field::inverse` for `Fr`: the multiplicative inverse,
/// defined exactly for nonzero scalars.
#[verifier::external_body]
pub fn scalar_inverse(a: &Scalar) -> (r: Option<Scalar>)
    requires
        a.wf(),
    ensures
        r is Some <==> a.val() != 0,
        r is Some ==> mul_mod(a.val(), r->Some_0.val()) == 1 && r->Some_0.wf(),
{
    match a.f.f.inverse() {
        Some(f) => Some(Scalar { f: FrInner { f }, v: opaque_val() }),
        None => None,
    }
}

/// Relies on `blake2::Blake2b512`: the fixed 64-byte BLAKE2b digest.
#[verifier::external_body]
pub fn blake2b_hash(msg: &[u8]) -> (r: Vec<u8>)
    ensures
        r@ == blake2b_digest(msg@),
        r@.len() == 64,
{
    let mut h = Blake2b512::new();
    h.update(msg);
    h.finalize().to_vec()
}

/// Relies on `rand_chacha::ChaCha20Rng` and `ark_std::UniformRand` for
/// `G2Projective`: deterministically derives a point of the prime-order G2
/// subgroup from a 32-byte seed (the same seed always yields the same point).
#[verifier::external_body]
pub fn hash_to_g2(seed: &[u8]) -> (r: G2Point)
    requires
        seed@.len() == 32,
    ensures
        r.repr() == g2_elem(hashed_g2_log(seed@)),
        r.repr().len() == g2_enc_size(false),
        g2_canon(r.repr(), false) == Some(r.repr()),
        g2_canon(g2_compressed_form(r.repr()), true) == Some(r.repr()),
        g2_compressed_form(r.repr()).len() == g2_enc_size(true),
{
    let mut s = [0u8; 32];
    s.copy_from_slice(seed);
    let mut rng = rand_chacha::ChaCha20Rng::from_seed(s);
    G2Point { p: G2Inner { p: ark_bls12_377::G2Projective::rand(&mut rng).into_affine() }, enc: opaque_enc() }
}

/// Relies on the `Copy` of the wrapped affine point: a plain duplicate.
#[verifier::external_body]
pub fn g1_dup(p: &G1Point) -> (r: G1Point)
    ensures
        r.repr() == p.repr(),
{
    G1Point { p: G1Inner { p: p.p.p }, enc: opaque_enc() }
}

/// Relies on the `Copy` of the wrapped affine point: a plain duplicate.
#[verifier::external_body]
pub fn g2_dup(p: &G2Point) -> (r: G2Point)
    ensures
        r.repr() == p.repr(),
{
    G2Point { p: G2Inner { p: p.p.p }, enc: opaque_enc() }
}

/// Relies on `ark_ec::AffineRepr::zero`: the identity of G1.
#[verifier::external_body]
pub fn g1_zero() -> (r: G1Point)
    ensures
        r.repr() == g1_elem(0),
        r.repr().len() == g1_enc_size(false),
{
    G1Point { p: G1Inner { p: ark_bls12_377::G1Affine::zero() }, enc: opaque_enc() }
}

/// Relies on `ark_ec::AffineRepr::zero`: the identity of G2.
#[verifier::external_body]
pub fn g2_zero() -> (r: G2Point)
    ensures
        r.repr() == g2_elem(0),
        r.repr().len() == g2_enc_size(false),
{
    G2Point { p: G2Inner { p: ark_bls12_377::G2Affine::zero() }, enc: opaque_enc() }
}

/// Relies on the group addition of `ark-ec` (`Add` on the projective form):
/// adding the `k`-th and `m`-th multiples of the generator yields the
/// `k+m`-th multiple.
#[verifier::external_body]
pub fn g1_add(p: &G1Point, q: &G1Point) -> (r: G1Point)
    ensures
        r.repr().len() == g1_enc_size(false),
        g1_canon(r.repr(), false) == Some(r.repr()),
        forall|k: nat, m: nat|
            p.repr() == g1_elem(k) && q.repr() == g1_elem(m) ==> r.repr() == g1_elem(
                #[trigger] add_mod(k, m),
            ),
{
    G1Point {
        p: G1Inner { p: (p.p.p + q.p.p).into_affine() },
        enc: opaque_enc(),
    }
}

/// Relies on the group addition of `ark-ec` for G2.
#[verifier::external_body]
pub fn g2_add(p: &G2Point, q: &G2Point) -> (r: G2Point)
    ensures
        r.repr().len() == g2_enc_size(false),
        g2_canon(r.repr(), false) == Some(r.repr()),
        forall|k: nat, m: nat|
            p.repr() == g2_elem(k) && q.repr() == g2_elem(m) ==> r.repr() == g2_elem(
                #[trigger] add_mod(k, m),
            ),
{
    G2Point {
        p: G2Inner { p: (p.p.p + q.p.p).into_affine() },
        enc: opaque_enc(),
    }
}

/// Relies on `core::ops::Neg` for `G1Affine`: negating the `k`-th multiple
/// of the generator yields the `-k`-th one.
#[verifier::external_body]
pub fn g1_neg(p: &G1Point) -> (r: G1Point)
    ensures
        r.repr().len() == g1_enc_size(false),
        g1_canon(r.repr(), false) == Some(r.repr()),
        forall|k: nat| p.repr() == g1_elem(k) ==> r.repr() == g1_elem(#[trigger] neg_mod(k)),
{
    G1Point { p: G1Inner { p: -p.p.p }, enc: opaque_enc() }
}

/// Relies on `core::ops::Add` for `Fr`: addition in the scalar field.
#[verifier::external_body]
pub fn scalar_add(a: &Scalar, b: &Scalar) -> (r: Scalar)
    ensures
        r.val() == add_mod(a.val(), b.val()),
{
    Scalar { f: FrInner { f: a.f.f + b.f.f }, v: opaque_val() }
}

/// Relies on `ark_ff::FftField::get_root_of_unity` for `Fr`: the library's
/// fixed `n`-th root of unity, defined exactly for the orders its two-adic
/// (and small-subgroup) domain supports; deterministic in `n`.
#[verifier::external_body]
pub fn scalar_root_of_unity(n: u64) -> (r: Option<Scalar>)
    ensures
        r is Some <==> domain_supported(n as nat),
        r is Some ==> r->Some_0.val() == domain_generator(n as nat) && r->Some_0.wf(),
{
    match <ark_bls12_377::Fr as ark_ff::FftField>::get_root_of_unity(n) {
        Some(f) => Some(Scalar { f: FrInner { f }, v: opaque_val() }),
        None => None,
    }
}

/// Little-endian integer value of a byte sequence.
pub open spec fn le_bytes_value(bytes: Seq<u8>) -> nat
    decreases bytes.len(),
{
    if bytes.len() == 0 {
        0nat
    } else {
        (bytes[0] + 256 * le_bytes_value(bytes.skip(1))) as nat
    }
}

} // verus!
