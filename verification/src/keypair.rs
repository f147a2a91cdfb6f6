//! Participant keypairs and the transcript-bound proof-of-knowledge base
//! points.

use vstd::prelude::*;

use crate::errors::Error;
use crate::group::blake2b_digest;
use crate::group::blake2b_hash;
use crate::group::g1_elem;
use crate::group::g1_enc_size;
use crate::group::g1_canon;
use crate::group::g1_generator;
use crate::group::g1_mul;
use crate::group::g1_read;
use crate::group::g1_write;
use crate::group::g2_elem;
use crate::group::g2_enc_size;
use crate::group::g2_canon;
use crate::group::g2_generator;
use crate::group::g2_mul;
use crate::group::g2_read;
use crate::group::g2_write;
use crate::group::hash_to_g2;
use crate::group::hashed_g2_log;
use crate::group::mul_mod;
use crate::group::scalar_field_order;
use crate::group::G1Point;
use crate::group::G2Point;
use crate::group::Scalar;
use crate::layout::copy_out;
use crate::modular::lemma_mul_mod_one_left;
use crate::params::ElementType;

verus! {

/// The public part of a contribution: three `(s, s*x)` pairs in G1 and the
/// three secrets moved into G2 on transcript-derived base points.
pub struct PublicKey {
    pub tau_g1: (G1Point, G1Point),
    pub alpha_g1: (G1Point, G1Point),
    pub beta_g1: (G1Point, G1Point),
    pub tau_g2: G2Point,
    pub alpha_g2: G2Point,
    pub beta_g2: G2Point,
}

/// The secret scalars of one contribution.
pub struct PrivateKey {
    pub tau: Scalar,
    pub alpha: Scalar,
    pub beta: Scalar,
}

impl PrivateKey {
    pub open spec fn wf(&self) -> bool {
        &&& self.tau.wf()
        &&& self.alpha.wf()
        &&& self.beta.wf()
    }
}

/// The message hashed to derive a proof-of-knowledge base point:
/// `digest || s || s*x || personalization`.
pub open spec fn spec_pok_msg(digest: Seq<u8>, s_enc: Seq<u8>, sx_enc: Seq<u8>, p: u8) -> Seq<u8> {
    digest + s_enc + sx_enc + seq![p]
}

/// Discrete logarithm of the G2 base point derived from the transcript.
pub open spec fn spec_pok_base_log(
    digest: Seq<u8>,
    s_enc: Seq<u8>,
    sx_enc: Seq<u8>,
    p: u8,
) -> nat {
    hashed_g2_log(blake2b_digest(spec_pok_msg(digest, s_enc, sx_enc, p)).subrange(0, 32))
}

/// Hashes `digest || s || s*x || personalization` with BLAKE2b and maps the
/// first 32 digest bytes to a G2 point.
pub fn compute_g2_s(digest: &[u8], s: &G1Point, s_x: &G1Point, personalization: u8) -> (r: G2Point)
    ensures
        r.repr() == g2_elem(spec_pok_base_log(digest@, s.repr(), s_x.repr(), personalization)),
        r.repr().len() == g2_enc_size(false),
{
    let mut msg: Vec<u8> = Vec::new();
    msg.extend_from_slice(digest);
    let sb = g1_write(s, false);
    msg.extend_from_slice(sb.as_slice());
    let sxb = g1_write(s_x, false);
    msg.extend_from_slice(sxb.as_slice());
    msg.push(personalization);
    proof {
        assert(msg@ =~= spec_pok_msg(digest@, s.repr(), s_x.repr(), personalization));
    }
    let h = blake2b_hash(msg.as_slice());
    let seed = copy_out(h.as_slice(), 0, 32);
    hash_to_g2(seed.as_slice())
}

/// The public key consists exactly of the points a participant with secrets
/// `(tau, alpha, beta)` and blinding exponents `(st, sa, sb)` would publish
/// against this transcript digest.
pub open spec fn spec_key_matches(
    pk: PublicKey,
    digest: Seq<u8>,
    tau: nat,
    alpha: nat,
    beta: nat,
    st: nat,
    sa: nat,
    sb: nat,
) -> bool {
    &&& pk.tau_g1.0.repr() == g1_elem(st)
    &&& pk.tau_g1.1.repr() == g1_elem(mul_mod(st, tau))
    &&& pk.alpha_g1.0.repr() == g1_elem(sa)
    &&& pk.alpha_g1.1.repr() == g1_elem(mul_mod(sa, alpha))
    &&& pk.beta_g1.0.repr() == g1_elem(sb)
    &&& pk.beta_g1.1.repr() == g1_elem(mul_mod(sb, beta))
    &&& pk.tau_g2.repr() == g2_elem(
        mul_mod(spec_pok_base_log(digest, g1_elem(st), g1_elem(mul_mod(st, tau)), 0), tau),
    )
    &&& pk.alpha_g2.repr() == g2_elem(
        mul_mod(spec_pok_base_log(digest, g1_elem(sa), g1_elem(mul_mod(sa, alpha)), 1), alpha),
    )
    &&& pk.beta_g2.repr() == g2_elem(
        mul_mod(spec_pok_base_log(digest, g1_elem(sb), g1_elem(mul_mod(sb, beta)), 2), beta),
    )
}

/// Derives a keypair from the transcript digest, the three secrets and three
/// fresh blinding exponents.
pub fn generate_keypair(
    digest: &[u8],
    tau: Scalar,
    alpha: Scalar,
    beta: Scalar,
    st: &Scalar,
    sa: &Scalar,
    sb: &Scalar,
) -> (r: (PublicKey, PrivateKey))
    requires
        tau.wf(),
        alpha.wf(),
        beta.wf(),
        st.wf(),
        sa.wf(),
        sb.wf(),
    ensures
        spec_key_matches(
            r.0,
            digest@,
            tau.val(),
            alpha.val(),
            beta.val(),
            st.val(),
            sa.val(),
            sb.val(),
        ),
        r.1.tau.val() == tau.val(),
        r.1.alpha.val() == alpha.val(),
        r.1.beta.val() == beta.val(),
        r.1.wf(),
{
    let g1 = g1_generator();
    proof {
        lemma_mul_mod_one_left(st.val());
        lemma_mul_mod_one_left(sa.val());
        lemma_mul_mod_one_left(sb.val());
    }
    let s_t = g1_mul(&g1, st);
    let s_t_x = g1_mul(&s_t, &tau);
    let g2_s_t = compute_g2_s(digest, &s_t, &s_t_x, 0);
    let tau_g2 = g2_mul(&g2_s_t, &tau);

    let s_a = g1_mul(&g1, sa);
    let s_a_x = g1_mul(&s_a, &alpha);
    let g2_s_a = compute_g2_s(digest, &s_a, &s_a_x, 1);
    let alpha_g2 = g2_mul(&g2_s_a, &alpha);

    let s_b = g1_mul(&g1, sb);
    let s_b_x = g1_mul(&s_b, &beta);
    let g2_s_b = compute_g2_s(digest, &s_b, &s_b_x, 2);
    let beta_g2 = g2_mul(&g2_s_b, &beta);

    let public_key = PublicKey {
        tau_g1: (s_t, s_t_x),
        alpha_g1: (s_a, s_a_x),
        beta_g1: (s_b, s_b_x),
        tau_g2,
        alpha_g2,
        beta_g2,
    };
    let private_key = PrivateKey { tau, alpha, beta };
    (public_key, private_key)
}

/// Serialized form of a public key: the six G1 points then the three G2
/// points, all uncompressed.
pub open spec fn spec_pk_blob(pk: PublicKey) -> Seq<u8> {
    pk.tau_g1.0.repr() + pk.tau_g1.1.repr() + pk.alpha_g1.0.repr() + pk.alpha_g1.1.repr()
        + pk.beta_g1.0.repr() + pk.beta_g1.1.repr() + pk.tau_g2.repr() + pk.alpha_g2.repr()
        + pk.beta_g2.repr()
}

/// Writes the public key blob (`6 * |G1| + 3 * |G2|` bytes, uncompressed).
pub fn write_public_key(pk: &PublicKey) -> (r: Vec<u8>)
    ensures
        r@ == spec_pk_blob(*pk),
{
    let mut out: Vec<u8> = Vec::new();
    let b0 = g1_write(&pk.tau_g1.0, false);
    out.extend_from_slice(b0.as_slice());
    let b1 = g1_write(&pk.tau_g1.1, false);
    out.extend_from_slice(b1.as_slice());
    let b2 = g1_write(&pk.alpha_g1.0, false);
    out.extend_from_slice(b2.as_slice());
    let b3 = g1_write(&pk.alpha_g1.1, false);
    out.extend_from_slice(b3.as_slice());
    let b4 = g1_write(&pk.beta_g1.0, false);
    out.extend_from_slice(b4.as_slice());
    let b5 = g1_write(&pk.beta_g1.1, false);
    out.extend_from_slice(b5.as_slice());
    let b6 = g2_write(&pk.tau_g2, false);
    out.extend_from_slice(b6.as_slice());
    let b7 = g2_write(&pk.alpha_g2, false);
    out.extend_from_slice(b7.as_slice());
    let b8 = g2_write(&pk.beta_g2, false);
    out.extend_from_slice(b8.as_slice());
    proof {
        assert(out@ =~= spec_pk_blob(*pk));
    }
    out
}

/// Which points a public key blob decodes to: each of the nine stored
/// encodings decodes to the corresponding point of `pk`.
pub open spec fn spec_pk_parses(pk: PublicKey, bytes: Seq<u8>) -> bool {
    &&& Some(pk.tau_g1.0.repr()) == g1_canon(bytes.subrange(0, 96), false)
    &&& Some(pk.tau_g1.1.repr()) == g1_canon(bytes.subrange(96, 192), false)
    &&& Some(pk.alpha_g1.0.repr()) == g1_canon(bytes.subrange(192, 288), false)
    &&& Some(pk.alpha_g1.1.repr()) == g1_canon(bytes.subrange(288, 384), false)
    &&& Some(pk.beta_g1.0.repr()) == g1_canon(bytes.subrange(384, 480), false)
    &&& Some(pk.beta_g1.1.repr()) == g1_canon(bytes.subrange(480, 576), false)
    &&& Some(pk.tau_g2.repr()) == g2_canon(bytes.subrange(576, 768), false)
    &&& Some(pk.alpha_g2.repr()) == g2_canon(bytes.subrange(768, 960), false)
    &&& Some(pk.beta_g2.repr()) == g2_canon(bytes.subrange(960, 1152), false)
}

/// The nine stored encodings all decode and pass the validity check.
pub open spec fn spec_pk_readable(bytes: Seq<u8>) -> bool {
    &&& g1_canon(bytes.subrange(0, 96), false) is Some && crate::group::g1_accepted(
        g1_canon(bytes.subrange(0, 96), false)->Some_0,
    )
    &&& g1_canon(bytes.subrange(96, 192), false) is Some && crate::group::g1_accepted(
        g1_canon(bytes.subrange(96, 192), false)->Some_0,
    )
    &&& g1_canon(bytes.subrange(192, 288), false) is Some && crate::group::g1_accepted(
        g1_canon(bytes.subrange(192, 288), false)->Some_0,
    )
    &&& g1_canon(bytes.subrange(288, 384), false) is Some && crate::group::g1_accepted(
        g1_canon(bytes.subrange(288, 384), false)->Some_0,
    )
    &&& g1_canon(bytes.subrange(384, 480), false) is Some && crate::group::g1_accepted(
        g1_canon(bytes.subrange(384, 480), false)->Some_0,
    )
    &&& g1_canon(bytes.subrange(480, 576), false) is Some && crate::group::g1_accepted(
        g1_canon(bytes.subrange(480, 576), false)->Some_0,
    )
    &&& g2_canon(bytes.subrange(576, 768), false) is Some && crate::group::g2_accepted(
        g2_canon(bytes.subrange(576, 768), false)->Some_0,
    )
    &&& g2_canon(bytes.subrange(768, 960), false) is Some && crate::group::g2_accepted(
        g2_canon(bytes.subrange(768, 960), false)->Some_0,
    )
    &&& g2_canon(bytes.subrange(960, 1152), false) is Some && crate::group::g2_accepted(
        g2_canon(bytes.subrange(960, 1152), false)->Some_0,
    )
}

/// Reads a public key blob back, validating that every point is on the curve
/// and in the prime-order subgroup.  Succeeds exactly when all nine stored
/// points decode and pass that check.
pub fn read_public_key(bytes: &[u8]) -> (r: Result<PublicKey, Error>)
    requires
        bytes@.len() == 6 * g1_enc_size(false) + 3 * g2_enc_size(false),
    ensures
        r is Ok <==> spec_pk_readable(bytes@),
        r is Ok ==> spec_pk_parses(r->Ok_0, bytes@),
{
    let p0 = match g1_read(copy_out(bytes, 0, 96).as_slice(), false, true) {
        Some(p) => p,
        None => { return Err(Error::SerializationFailed(ElementType::TauG1)); },
    };
    let p1 = match g1_read(copy_out(bytes, 96, 96).as_slice(), false, true) {
        Some(p) => p,
        None => { return Err(Error::SerializationFailed(ElementType::TauG1)); },
    };
    let p2 = match g1_read(copy_out(bytes, 192, 96).as_slice(), false, true) {
        Some(p) => p,
        None => { return Err(Error::SerializationFailed(ElementType::AlphaG1)); },
    };
    let p3 = match g1_read(copy_out(bytes, 288, 96).as_slice(), false, true) {
        Some(p) => p,
        None => { return Err(Error::SerializationFailed(ElementType::AlphaG1)); },
    };
    let p4 = match g1_read(copy_out(bytes, 384, 96).as_slice(), false, true) {
        Some(p) => p,
        None => { return Err(Error::SerializationFailed(ElementType::BetaG1)); },
    };
    let p5 = match g1_read(copy_out(bytes, 480, 96).as_slice(), false, true) {
        Some(p) => p,
        None => { return Err(Error::SerializationFailed(ElementType::BetaG1)); },
    };
    let q0 = match g2_read(copy_out(bytes, 576, 192).as_slice(), false, true) {
        Some(p) => p,
        None => { return Err(Error::SerializationFailed(ElementType::TauG2)); },
    };
    let q1 = match g2_read(copy_out(bytes, 768, 192).as_slice(), false, true) {
        Some(p) => p,
        None => { return Err(Error::SerializationFailed(ElementType::TauG2)); },
    };
    let q2 = match g2_read(copy_out(bytes, 960, 192).as_slice(), false, true) {
        Some(p) => p,
        None => { return Err(Error::SerializationFailed(ElementType::BetaG2)); },
    };
    Ok(PublicKey {
        tau_g1: (p0, p1),
        alpha_g1: (p2, p3),
        beta_g1: (p4, p5),
        tau_g2: q0,
        alpha_g2: q1,
        beta_g2: q2,
    })
}

} // verus!
