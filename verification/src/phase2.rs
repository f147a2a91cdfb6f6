//! The phase-2 engine: Groth16-style MPC parameters, delta contributions,
//! their verification, and the final combine.
//!
//! The parameters hold the query vectors in memory as wrapped curve points;
//! a contribution multiplies the delta pair by a fresh secret and divides
//! the `h` and `l` queries by it, appending a transcript entry that proves
//! knowledge of the secret.

use vstd::prelude::*;

use crate::errors::Error;
use crate::group::add_mod;
use crate::group::blake2b_digest;
use crate::group::blake2b_hash;
use crate::group::domain_generator;
use crate::group::domain_supported;
use crate::group::g1_add;
use crate::group::g1_dup;
use crate::group::g1_elem;
use crate::group::g1_generator;
use crate::group::g1_mul;
use crate::group::g1_neg;
use crate::group::g1_zero;
use crate::group::g2_add;
use crate::group::g2_dup;
use crate::group::g2_elem;
use crate::group::g2_mul;
use crate::group::g2_zero;
use crate::group::mul_mod;
use crate::group::neg_mod;
use crate::group::pow_mod;
use crate::group::scalar_add;
use crate::group::scalar_from_u64;
use crate::group::scalar_root_of_unity;
use crate::group::same_ratio;
use crate::group::scalar_inverse;
use crate::group::G1Point;
use crate::group::G2Point;
use crate::group::Scalar;
use crate::group::g1_canon;
use crate::group::g2_canon;
use crate::keypair::compute_g2_s;
use crate::keypair::spec_pok_base_log;
use crate::params::CheckForCorrectness;
use crate::phase1::spec_g1_read_ok;
use crate::phase1::spec_g2_read_ok;

verus! {

/// One recorded contribution: the published delta after it, the blinded
/// proof-of-knowledge pair, the base point the proof was bound to, and the
/// transcript digest of the state the participant contributed to.
pub struct ContributionEntry {
    pub delta_after_g1: G1Point,
    pub s: G1Point,
    pub s_delta: G1Point,
    pub r_delta: G2Point,
    pub transcript: Vec<u8>,
}

/// Groth16-style MPC parameters produced from a phase-1 accumulator.
pub struct Phase2Parameters {
    pub h_query: Vec<G1Point>,
    pub l_query: Vec<G1Point>,
    pub a_query: Vec<G1Point>,
    pub b_g1_query: Vec<G1Point>,
    pub b_g2_query: Vec<G2Point>,
    pub alpha_g1: G1Point,
    pub beta_g1: G1Point,
    pub beta_g2: G2Point,
    pub delta_g1: G1Point,
    pub delta_g2: G2Point,
    pub cs_hash: Vec<u8>,
    pub contributions: Vec<ContributionEntry>,
}

/// Multiplies every point of a G1 query vector by a scalar.
fn scale_g1_query(q: &Vec<G1Point>, factor: &Scalar) -> (r: Vec<G1Point>)
    ensures
        r@.len() == q@.len(),
        forall|i: int, k: nat|
            0 <= i < q@.len() && #[trigger] q@[i].repr() == #[trigger] g1_elem(k) ==> r@[i].repr()
                == g1_elem(mul_mod(k, factor.val())),
{
    let mut r: Vec<G1Point> = Vec::new();
    let n = q.len();
    let mut i: usize = 0;
    while i < n
        invariant
            i <= n,
            n == q@.len(),
            r@.len() == i,
            forall|j: int, k: nat|
                0 <= j < i && #[trigger] q@[j].repr() == #[trigger] g1_elem(k) ==> r@[j].repr()
                    == g1_elem(mul_mod(k, factor.val())),
        decreases n - i,
    {
        r.push(g1_mul(&q[i], factor));
        i = i + 1;
    }
    r
}

/// Applies a participant's secret `delta` to the parameters: the delta pair
/// is multiplied by it, the `h` and `l` queries are divided by it, and a
/// transcript entry binding `delta` to the digest of the prior state is
/// appended.  Fails exactly when `delta` is zero.
pub fn contribute(
    params: &mut Phase2Parameters,
    digest: &[u8],
    delta: Scalar,
    sigma: &Scalar,
) -> (r: Result<(), Error>)
    requires
        delta.wf(),
        sigma.wf(),
    ensures
        r is Ok <==> delta.val() != 0,
        r is Ok ==> exists|inv: nat|
            #[trigger] mul_mod(delta.val(), inv) == 1 && spec_contributed_phase2(
                *old(params),
                *final(params),
                delta.val(),
                sigma.val(),
                digest@,
                inv,
            ),
        r is Err ==> *final(params) == *old(params),
{
    let inv = match scalar_inverse(&delta) {
        Some(s) => s,
        None => {
            return Err(Error::InvalidChunk);
        },
    };
    let new_h = scale_g1_query(&params.h_query, &inv);
    let new_l = scale_g1_query(&params.l_query, &inv);
    let new_delta_g1 = g1_mul(&params.delta_g1, &delta);
    let new_delta_g2 = g2_mul(&params.delta_g2, &delta);
    let g1 = g1_generator();
    let s = g1_mul(&g1, sigma);
    let s_delta = g1_mul(&s, &delta);
    let g2_s = compute_g2_s(digest, &s, &s_delta, 3);
    let r_delta = g2_mul(&g2_s, &delta);
    params.h_query = new_h;
    params.l_query = new_l;
    params.delta_g1 = new_delta_g1;
    params.delta_g2 = new_delta_g2;
    let transcript = crate::layout::copy_out(digest, 0, digest.len());
    let entry = ContributionEntry {
        delta_after_g1: crate::group::g1_dup(&params.delta_g1),
        s,
        s_delta,
        r_delta,
        transcript,
    };
    params.contributions.push(entry);
    proof {
        assert(digest@.subrange(0, digest@.len() as int) =~= digest@);
        crate::modular::lemma_mul_mod_one_left(sigma.val());
        assert(params.contributions@.subrange(0, old(params).contributions@.len() as int)
            =~= old(params).contributions@);
        assert(mul_mod(delta.val(), inv.val()) == 1);
        assert(spec_contributed_phase2(
            *old(params),
            *params,
            delta.val(),
            sigma.val(),
            digest@,
            inv.val(),
        ));
    }
    Ok(())
}

/// What one contribution does to the parameters, with `inv` the inverse of
/// the contributed secret.
pub open spec fn spec_contributed_phase2(
    before: Phase2Parameters,
    after: Phase2Parameters,
    delta: nat,
    sigma: nat,
    digest: Seq<u8>,
    inv: nat,
) -> bool {
    &&& after.h_query@.len() == before.h_query@.len()
    &&& after.l_query@.len() == before.l_query@.len()
    &&& forall|i: int, k: nat|
        0 <= i < before.h_query@.len() && #[trigger] before.h_query@[i].repr() == #[trigger] g1_elem(
            k,
        ) ==> after.h_query@[i].repr() == g1_elem(mul_mod(k, inv))
    &&& forall|i: int, k: nat|
        0 <= i < before.l_query@.len() && #[trigger] before.l_query@[i].repr() == #[trigger] g1_elem(
            k,
        ) ==> after.l_query@[i].repr() == g1_elem(mul_mod(k, inv))
    &&& forall|k: nat|
        before.delta_g1.repr() == #[trigger] g1_elem(k) ==> after.delta_g1.repr() == g1_elem(
            mul_mod(k, delta),
        )
    &&& forall|k: nat|
        before.delta_g2.repr() == #[trigger] g2_elem(k) ==> after.delta_g2.repr() == g2_elem(
            mul_mod(k, delta),
        )
    &&& after.a_query == before.a_query
    &&& after.b_g1_query == before.b_g1_query
    &&& after.b_g2_query == before.b_g2_query
    &&& after.alpha_g1 == before.alpha_g1
    &&& after.beta_g1 == before.beta_g1
    &&& after.beta_g2 == before.beta_g2
    &&& after.cs_hash == before.cs_hash
    &&& after.contributions@.len() == before.contributions@.len() + 1
    &&& after.contributions@.subrange(0, before.contributions@.len() as int)
        == before.contributions@
    &&& after.contributions@.last().s.repr() == g1_elem(sigma)
    &&& after.contributions@.last().s_delta.repr() == g1_elem(mul_mod(sigma, delta))
    &&& after.contributions@.last().r_delta.repr() == g2_elem(
        mul_mod(
            spec_pok_base_log(digest, g1_elem(sigma), g1_elem(mul_mod(sigma, delta)), 3),
            delta,
        ),
    )
    &&& after.contributions@.last().delta_after_g1.repr() == after.delta_g1.repr()
    &&& after.contributions@.last().transcript@ == digest
}

/// Checks one contribution step: the proof of knowledge of the latest entry
/// against the transcript digest of the prior state, the delta transition,
/// and that the `h` and `l` queries were divided by the same secret the
/// delta pair was multiplied by.  Succeeds exactly when the query lengths
/// match and every pairing test passes, and then returns the accumulated
/// list of contribution transcript digests.
pub fn verify(
    before: &Phase2Parameters,
    after: &Phase2Parameters,
    digest: &[u8],
) -> (r: Result<Vec<Vec<u8>>, Error>)
    requires
        after.contributions@.len() > 0,
    ensures
        r is Ok <==> ({
            let entry = after.contributions@.last();
            let m = spec_pok_base_log(digest@, entry.s.repr(), entry.s_delta.repr(), 3);
            &&& after.h_query@.len() == before.h_query@.len()
            &&& after.l_query@.len() == before.l_query@.len()
            &&& crate::group::pairing_ratio_eq(
                entry.s.repr(),
                entry.s_delta.repr(),
                g2_elem(m),
                entry.r_delta.repr(),
            )
            &&& crate::group::pairing_ratio_eq(
                before.delta_g1.repr(),
                after.delta_g1.repr(),
                g2_elem(m),
                entry.r_delta.repr(),
            )
            &&& (forall|i: int|
                0 <= i < after.h_query@.len() ==> crate::group::pairing_ratio_eq(
                    (#[trigger] after.h_query@[i]).repr(),
                    before.h_query@[i].repr(),
                    before.delta_g2.repr(),
                    after.delta_g2.repr(),
                ))
            &&& (forall|i: int|
                0 <= i < after.l_query@.len() ==> crate::group::pairing_ratio_eq(
                    (#[trigger] after.l_query@[i]).repr(),
                    before.l_query@[i].repr(),
                    before.delta_g2.repr(),
                    after.delta_g2.repr(),
                ))
        }),
        r is Ok ==> ({
            let hashes = r->Ok_0;
            &&& hashes@.len() == after.contributions@.len()
            &&& (forall|i: int|
                0 <= i < hashes@.len() ==> (#[trigger] hashes@[i])@
                    == after.contributions@[i].transcript@)
        }),
{
    if after.h_query.len() != before.h_query.len() || after.l_query.len() != before.l_query.len() {
        return Err(Error::InvalidLength {
            expected: before.h_query.len(),
            got: after.h_query.len(),
        });
    }
    let n = after.contributions.len();
    let entry_s = &after.contributions[n - 1].s;
    let entry_s_delta = &after.contributions[n - 1].s_delta;
    let entry_r_delta = &after.contributions[n - 1].r_delta;
    let g2_s = compute_g2_s(digest, entry_s, entry_s_delta, 3);
    if !same_ratio(entry_s, entry_s_delta, &g2_s, entry_r_delta) {
        return Err(Error::InvalidProofOfKnowledge(crate::params::ElementType::BetaG2));
    }
    if !same_ratio(&before.delta_g1, &after.delta_g1, &g2_s, entry_r_delta) {
        return Err(Error::InvalidRatio(crate::params::ElementType::BetaG2));
    }
    let mut i: usize = 0;
    let hn = after.h_query.len();
    while i < hn
        invariant
            i <= hn,
            hn == after.h_query@.len(),
            hn == before.h_query@.len(),
            forall|j: int|
                0 <= j < i ==> crate::group::pairing_ratio_eq(
                    (#[trigger] after.h_query@[j]).repr(),
                    before.h_query@[j].repr(),
                    before.delta_g2.repr(),
                    after.delta_g2.repr(),
                ),
        decreases hn - i,
    {
        if !same_ratio(&after.h_query[i], &before.h_query[i], &before.delta_g2, &after.delta_g2) {
            return Err(Error::InvalidRatio(crate::params::ElementType::TauG1));
        }
        i = i + 1;
    }
    let mut i: usize = 0;
    let ln = after.l_query.len();
    while i < ln
        invariant
            i <= ln,
            ln == after.l_query@.len(),
            ln == before.l_query@.len(),
            forall|j: int|
                0 <= j < i ==> crate::group::pairing_ratio_eq(
                    (#[trigger] after.l_query@[j]).repr(),
                    before.l_query@[j].repr(),
                    before.delta_g2.repr(),
                    after.delta_g2.repr(),
                ),
        decreases ln - i,
    {
        if !same_ratio(&after.l_query[i], &before.l_query[i], &before.delta_g2, &after.delta_g2) {
            return Err(Error::InvalidRatio(crate::params::ElementType::AlphaG1));
        }
        i = i + 1;
    }
    let mut hashes: Vec<Vec<u8>> = Vec::new();
    let mut i: usize = 0;
    while i < n
        invariant
            i <= n,
            n == after.contributions@.len(),
            hashes@.len() == i,
            forall|j: int|
                0 <= j < i ==> (#[trigger] hashes@[j])@ == after.contributions@[j].transcript@,
        decreases n - i,
    {
        let t = &after.contributions[i].transcript;
        let copy = crate::layout::copy_out(t.as_slice(), 0, t.len());
        proof {
            assert(t@.subrange(0, t@.len() as int) =~= t@);
        }
        hashes.push(copy);
        i = i + 1;
    }
    Ok(hashes)
}

/// Builds the final parameters: the untouched queries of the initial state
/// with the delta-dependent fields of the last response.
///
/// The responses are the successive states of one contribution chain: each
/// response extends its predecessor's transcript by one entry (as
/// [`contribute`] ensures), so the last response's contribution list is
/// exactly the concatenation of every entry appended over the chain, and it
/// is that list the combined parameters carry.
pub fn combine(
    initial: Phase2Parameters,
    responses: Vec<Phase2Parameters>,
) -> (r: Result<Phase2Parameters, Error>)
    requires
        responses@.len() > 0,
    ensures
        r is Ok ==> {
            let out = r->Ok_0;
            let last = responses@.last();
            &&& out.h_query == last.h_query
            &&& out.l_query == last.l_query
            &&& out.delta_g1 == last.delta_g1
            &&& out.delta_g2 == last.delta_g2
            &&& out.contributions == last.contributions
            &&& out.a_query == initial.a_query
            &&& out.b_g1_query == initial.b_g1_query
            &&& out.b_g2_query == initial.b_g2_query
            &&& out.alpha_g1 == initial.alpha_g1
            &&& out.beta_g1 == initial.beta_g1
            &&& out.beta_g2 == initial.beta_g2
            &&& out.cs_hash == initial.cs_hash
        },
        r is Ok <==> responses@.len() > 0,
{
    let mut responses = responses;
    let last = match responses.pop() {
        Some(p) => p,
        None => {
            return Err(Error::InvalidChunk);
        },
    };
    Ok(Phase2Parameters {
        h_query: last.h_query,
        l_query: last.l_query,
        a_query: initial.a_query,
        b_g1_query: initial.b_g1_query,
        b_g2_query: initial.b_g2_query,
        alpha_g1: initial.alpha_g1,
        beta_g1: initial.beta_g1,
        beta_g2: initial.beta_g2,
        delta_g1: last.delta_g1,
        delta_g2: last.delta_g2,
        cs_hash: initial.cs_hash,
        contributions: last.contributions,
    })
}

/// The scalar values of a vector of field elements.
pub open spec fn spec_scalar_vals(cs: Seq<Scalar>) -> Seq<nat> {
    cs.map_values(|c: Scalar| c.val())
}

/// Every point of the vector is the generator multiple stated by `exps`.
pub open spec fn spec_g1_points_have(points: Seq<G1Point>, exps: Seq<nat>) -> bool {
    &&& exps.len() == points.len()
    &&& forall|j: int| 0 <= j < points.len() ==> (#[trigger] points[j]).repr() == g1_elem(exps[j])
}

/// The G2 version of [`spec_g1_points_have`].
pub open spec fn spec_g2_points_have(points: Seq<G2Point>, exps: Seq<nat>) -> bool {
    &&& exps.len() == points.len()
    &&& forall|j: int| 0 <= j < points.len() ==> (#[trigger] points[j]).repr() == g2_elem(exps[j])
}

/// The exponent of a multi-scalar multiplication: the dot product of the
/// points' exponents with the coefficients, in the scalar field.
pub open spec fn spec_combo(exps: Seq<nat>, coeffs: Seq<nat>) -> nat
    decreases exps.len(),
{
    if exps.len() == 0 || coeffs.len() == 0 {
        0nat
    } else {
        add_mod(
            spec_combo(exps.drop_last(), coeffs.drop_last()),
            mul_mod(exps.last(), coeffs.last()),
        )
    }
}

/// Multi-scalar multiplication in G1, one term per point.
fn msm_g1(points: &Vec<G1Point>, coeffs: &Vec<Scalar>) -> (r: G1Point)
    requires
        points@.len() == coeffs@.len(),
    ensures
        forall|exps: Seq<nat>|
            #[trigger] spec_g1_points_have(points@, exps) ==> r.repr() == g1_elem(
                spec_combo(exps, spec_scalar_vals(coeffs@)),
            ),
{
    let n = points.len();
    let mut acc = g1_zero();
    let mut i: usize = 0;
    while i < n
        invariant
            i <= n,
            n == points@.len(),
            n == coeffs@.len(),
            forall|exps: Seq<nat>|
                #[trigger] spec_g1_points_have(points@, exps) ==> acc.repr() == g1_elem(
                    spec_combo(exps.take(i as int), spec_scalar_vals(coeffs@).take(i as int)),
                ),
        decreases n - i,
    {
        let term = g1_mul(&points[i], &coeffs[i]);
        let next = g1_add(&acc, &term);
        proof {
            assert forall|exps: Seq<nat>|
                #[trigger] spec_g1_points_have(points@, exps) implies next.repr() == g1_elem(
                spec_combo(exps.take(i + 1), spec_scalar_vals(coeffs@).take(i + 1)),
            ) by {
                let vals = spec_scalar_vals(coeffs@);
                assert(exps.take(i + 1).drop_last() =~= exps.take(i as int));
                assert(vals.take(i + 1).drop_last() =~= vals.take(i as int));
                assert(points@[i as int].repr() == g1_elem(exps[i as int]));
                assert(term.repr() == g1_elem(mul_mod(exps[i as int], coeffs@[i as int].val())));
                assert(next.repr() == g1_elem(
                    add_mod(
                        spec_combo(exps.take(i as int), vals.take(i as int)),
                        mul_mod(exps[i as int], vals[i as int]),
                    ),
                ));
            }
        }
        acc = next;
        i = i + 1;
    }
    proof {
        assert forall|exps: Seq<nat>|
            #[trigger] spec_g1_points_have(points@, exps) implies acc.repr() == g1_elem(
            spec_combo(exps, spec_scalar_vals(coeffs@)),
        ) by {
            assert(exps.take(n as int) =~= exps);
            assert(spec_scalar_vals(coeffs@).take(n as int) =~= spec_scalar_vals(coeffs@));
        }
    }
    acc
}

/// Multi-scalar multiplication in G2.
fn msm_g2(points: &Vec<G2Point>, coeffs: &Vec<Scalar>) -> (r: G2Point)
    requires
        points@.len() == coeffs@.len(),
    ensures
        forall|exps: Seq<nat>|
            #[trigger] spec_g2_points_have(points@, exps) ==> r.repr() == g2_elem(
                spec_combo(exps, spec_scalar_vals(coeffs@)),
            ),
{
    let n = points.len();
    let mut acc = g2_zero();
    let mut i: usize = 0;
    while i < n
        invariant
            i <= n,
            n == points@.len(),
            n == coeffs@.len(),
            forall|exps: Seq<nat>|
                #[trigger] spec_g2_points_have(points@, exps) ==> acc.repr() == g2_elem(
                    spec_combo(exps.take(i as int), spec_scalar_vals(coeffs@).take(i as int)),
                ),
        decreases n - i,
    {
        let term = g2_mul(&points[i], &coeffs[i]);
        let next = g2_add(&acc, &term);
        proof {
            assert forall|exps: Seq<nat>|
                #[trigger] spec_g2_points_have(points@, exps) implies next.repr() == g2_elem(
                spec_combo(exps.take(i + 1), spec_scalar_vals(coeffs@).take(i + 1)),
            ) by {
                let vals = spec_scalar_vals(coeffs@);
                assert(exps.take(i + 1).drop_last() =~= exps.take(i as int));
                assert(vals.take(i + 1).drop_last() =~= vals.take(i as int));
                assert(points@[i as int].repr() == g2_elem(exps[i as int]));
                assert(term.repr() == g2_elem(mul_mod(exps[i as int], coeffs@[i as int].val())));
                assert(next.repr() == g2_elem(
                    add_mod(
                        spec_combo(exps.take(i as int), vals.take(i as int)),
                        mul_mod(exps[i as int], vals[i as int]),
                    ),
                ));
            }
        }
        acc = next;
        i = i + 1;
    }
    proof {
        assert forall|exps: Seq<nat>|
            #[trigger] spec_g2_points_have(points@, exps) implies acc.repr() == g2_elem(
            spec_combo(exps, spec_scalar_vals(coeffs@)),
        ) by {
            assert(exps.take(n as int) =~= exps);
            assert(spec_scalar_vals(coeffs@).take(n as int) =~= spec_scalar_vals(coeffs@));
        }
    }
    acc
}

/// The coefficient of variable `col` in one constraint row: the last entry
/// naming that column, or zero.
pub open spec fn spec_row_coeff(row: Seq<(u64, usize)>, col: nat) -> nat
    decreases row.len(),
{
    if row.len() == 0 {
        0nat
    } else if row.last().1 as nat == col {
        row.last().0 as nat
    } else {
        spec_row_coeff(row.drop_last(), col)
    }
}

/// The coefficient of variable `col` in constraint `j` of a matrix with
/// possibly fewer rows than the domain size (missing rows are zero).
pub open spec fn spec_mat_coeff(mat: Seq<Vec<(u64, usize)>>, j: nat, col: nat) -> nat {
    if j < mat.len() {
        spec_row_coeff(mat[j as int]@, col)
    } else {
        0nat
    }
}

/// Coefficient `i` of the single multi-scalar multiplication that evaluates
/// one query element: the variable's column of each constraint row, taken
/// through the inverse-DFT weights `p_inv * w_inv^(i*j)`, summed over the
/// first `jc` constraints.
pub open spec fn spec_query_coeff(
    mat: Seq<Vec<(u64, usize)>>,
    col: nat,
    wi: nat,
    pi: nat,
    i: nat,
    jc: nat,
) -> nat
    decreases jc,
{
    if jc == 0 {
        0nat
    } else {
        add_mod(
            spec_query_coeff(mat, col, wi, pi, i, (jc - 1) as nat),
            mul_mod(
                spec_mat_coeff(mat, (jc - 1) as nat, col),
                mul_mod(pi, pow_mod(wi, i * ((jc - 1) as nat))),
            ),
        )
    }
}

/// The exponent of query element `col`: the dot product of the first `p`
/// exponents of the source array with the inverse-DFT coefficient vector of
/// the matrix column.
pub open spec fn spec_query_exp(
    exps: Seq<nat>,
    mat: Seq<Vec<(u64, usize)>>,
    col: nat,
    wi: nat,
    pi: nat,
    p: nat,
) -> nat {
    spec_combo(exps, Seq::new(p, |i: int| spec_query_coeff(mat, col, wi, pi, i as nat, p)))
}

/// The coefficient of `col` in one row, by a last-match scan.
fn row_coeff(row: &Vec<(u64, usize)>, col: usize) -> (r: Scalar)
    ensures
        r.val() == spec_row_coeff(row@, col as nat),
        r.wf(),
{
    let mut r = scalar_from_u64(0);
    let n = row.len();
    let mut i: usize = 0;
    while i < n
        invariant
            i <= n,
            n == row@.len(),
            r.val() == spec_row_coeff(row@.take(i as int), col as nat),
            r.wf(),
        decreases n - i,
    {
        let ghost pre = row@.take(i as int);
        if row[i].1 == col {
            r = scalar_from_u64(row[i].0);
        }
        proof {
            assert(row@.take(i + 1).drop_last() =~= pre);
            assert(row@.take(i + 1).last() == row@[i as int]);
        }
        i = i + 1;
    }
    proof {
        assert(row@.take(n as int) =~= row@);
    }
    r
}

/// Builds the inverse-DFT coefficient vector of one matrix column.
fn query_coeffs(
    mat: &Vec<Vec<(u64, usize)>>,
    col: usize,
    w_inv: &Scalar,
    p_inv: &Scalar,
    p: usize,
) -> (r: Vec<Scalar>)
    requires
        w_inv.wf(),
        p_inv.wf(),
        mat@.len() <= p,
        p * p <= usize::MAX,
    ensures
        r@.len() == p,
        forall|i: int|
            0 <= i < p ==> (#[trigger] r@[i]).val() == spec_query_coeff(
                mat@,
                col as nat,
                w_inv.val(),
                p_inv.val(),
                i as nat,
                p as nat,
            ),
{
    let mut r: Vec<Scalar> = Vec::new();
    let mut i: usize = 0;
    while i < p
        invariant
            i <= p,
            w_inv.wf(),
            p_inv.wf(),
            mat@.len() <= p,
            p * p <= usize::MAX,
            r@.len() == i,
            forall|x: int|
                0 <= x < i ==> (#[trigger] r@[x]).val() == spec_query_coeff(
                    mat@,
                    col as nat,
                    w_inv.val(),
                    p_inv.val(),
                    x as nat,
                    p as nat,
                ),
        decreases p - i,
    {
        let mut acc = scalar_from_u64(0);
        let mut j: usize = 0;
        while j < p
            invariant
                j <= p,
                i < p,
                w_inv.wf(),
                p_inv.wf(),
                mat@.len() <= p,
                p * p <= usize::MAX,
                acc.val() == spec_query_coeff(
                    mat@,
                    col as nat,
                    w_inv.val(),
                    p_inv.val(),
                    i as nat,
                    j as nat,
                ),
            decreases p - j,
        {
            proof {
                crate::layout::lemma_mul_le(i as nat, p as nat, j as nat);
                crate::layout::lemma_mul_le(j as nat, p as nat, p as nat);
                assert(i * j <= p * j && p * j <= p * p) by (nonlinear_arith)
                    requires i <= p, j <= p;
            }
            let rowc = if j < mat.len() {
                row_coeff(&mat[j], col)
            } else {
                scalar_from_u64(0)
            };
            let weight = crate::group::scalar_mul(p_inv, &crate::phase1::scalar_pow(w_inv, i * j));
            let term = crate::group::scalar_mul(&rowc, &weight);
            acc = scalar_add(&acc, &term);
            j = j + 1;
        }
        r.push(acc);
        i = i + 1;
    }
    r
}

/// Eight little-endian bytes of a machine word (the chained remainders).
pub open spec fn spec_le8(x: nat) -> Seq<u8> {
    let x0 = x;
    let b0 = x0 % 256;
    let x1 = x0 / 256;
    let b1 = x1 % 256;
    let x2 = x1 / 256;
    let b2 = x2 % 256;
    let x3 = x2 / 256;
    let b3 = x3 % 256;
    let x4 = x3 / 256;
    let b4 = x4 % 256;
    let x5 = x4 / 256;
    let b5 = x5 % 256;
    let x6 = x5 / 256;
    let b6 = x6 % 256;
    let x7 = x6 / 256;
    let b7 = x7 % 256;
    seq![b0 as u8, b1 as u8, b2 as u8, b3 as u8, b4 as u8, b5 as u8, b6 as u8, b7 as u8]
}

fn push_le8(out: &mut Vec<u8>, x: u64)
    ensures
        final(out)@ == old(out)@ + spec_le8(x as nat),
{
    let x0 = x;
    let x1 = x0 / 256;
    let x2 = x1 / 256;
    let x3 = x2 / 256;
    let x4 = x3 / 256;
    let x5 = x4 / 256;
    let x6 = x5 / 256;
    let x7 = x6 / 256;
    out.push((x0 % 256) as u8);
    out.push((x1 % 256) as u8);
    out.push((x2 % 256) as u8);
    out.push((x3 % 256) as u8);
    out.push((x4 % 256) as u8);
    out.push((x5 % 256) as u8);
    out.push((x6 % 256) as u8);
    out.push((x7 % 256) as u8);
    proof {
        assert(final(out)@ =~= old(out)@ + spec_le8(x as nat));
    }
}

/// Byte encoding of the entries of one constraint row.
pub open spec fn spec_entries_bytes(row: Seq<(u64, usize)>) -> Seq<u8>
    decreases row.len(),
{
    if row.len() == 0 {
        Seq::empty()
    } else {
        spec_entries_bytes(row.drop_last()) + spec_le8(row.last().0 as nat) + spec_le8(
            row.last().1 as nat,
        )
    }
}

/// Byte encoding of the rows of one matrix.
pub open spec fn spec_rows_bytes(mat: Seq<Vec<(u64, usize)>>) -> Seq<u8>
    decreases mat.len(),
{
    if mat.len() == 0 {
        Seq::empty()
    } else {
        spec_rows_bytes(mat.drop_last()) + spec_le8(mat.last()@.len()) + spec_entries_bytes(
            mat.last()@,
        )
    }
}

/// Byte encoding of one matrix: the row count, then each row's entry count
/// and entries, all as eight-byte little-endian words.
pub open spec fn spec_mat_bytes(mat: Seq<Vec<(u64, usize)>>) -> Seq<u8> {
    spec_le8(mat.len()) + spec_rows_bytes(mat)
}

/// Byte encoding of the three constraint matrices, in order.
pub open spec fn spec_matrices_bytes(
    a: Seq<Vec<(u64, usize)>>,
    b: Seq<Vec<(u64, usize)>>,
    c: Seq<Vec<(u64, usize)>>,
) -> Seq<u8> {
    spec_mat_bytes(a) + spec_mat_bytes(b) + spec_mat_bytes(c)
}

fn encode_matrix(out: &mut Vec<u8>, mat: &Vec<Vec<(u64, usize)>>)
    requires
        mat@.len() <= u64::MAX,
        forall|j: int| 0 <= j < mat@.len() ==> (#[trigger] mat@[j])@.len() <= u64::MAX,
    ensures
        final(out)@ == old(out)@ + spec_mat_bytes(mat@),
{
    push_le8(out, mat.len() as u64);
    let n = mat.len();
    let mut j: usize = 0;
    while j < n
        invariant
            j <= n,
            n == mat@.len(),
            forall|x: int| 0 <= x < mat@.len() ==> (#[trigger] mat@[x])@.len() <= u64::MAX,
            out@ == old(out)@ + spec_le8(mat@.len()) + spec_rows_bytes(mat@.take(j as int)),
        decreases n - j,
    {
        let row = &mat[j];
        push_le8(out, row.len() as u64);
        let rn = row.len();
        let mut e: usize = 0;
        while e < rn
            invariant
                e <= rn,
                j < n,
                n == mat@.len(),
                rn == mat@[j as int]@.len(),
                row == &mat@[j as int],
                out@ == old(out)@ + spec_le8(mat@.len()) + spec_rows_bytes(mat@.take(j as int))
                    + spec_le8(mat@[j as int]@.len()) + spec_entries_bytes(
                    mat@[j as int]@.take(e as int),
                ),
            decreases rn - e,
        {
            push_le8(out, row[e].0);
            push_le8(out, row[e].1 as u64);
            proof {
                assert(mat@[j as int]@.take(e + 1).drop_last() =~= mat@[j as int]@.take(e as int));
                assert(mat@[j as int]@.take(e + 1).last() == mat@[j as int]@[e as int]);
                assert(out@ =~= old(out)@ + spec_le8(mat@.len()) + spec_rows_bytes(
                    mat@.take(j as int),
                ) + spec_le8(mat@[j as int]@.len()) + spec_entries_bytes(
                    mat@[j as int]@.take(e + 1),
                ));
            }
            e = e + 1;
        }
        proof {
            assert(mat@[j as int]@.take(rn as int) =~= mat@[j as int]@);
            assert(mat@.take(j + 1).drop_last() =~= mat@.take(j as int));
            assert(mat@.take(j + 1).last() == mat@[j as int]);
            assert(out@ =~= old(out)@ + spec_le8(mat@.len()) + spec_rows_bytes(mat@.take(j + 1)));
        }
        j = j + 1;
    }
    proof {
        assert(mat@.take(n as int) =~= mat@);
    }
}

/// Copies the first `p` points of a G1 array.
fn prefix_g1(v: &Vec<G1Point>, p: usize) -> (r: Vec<G1Point>)
    requires
        p <= v@.len(),
    ensures
        r@.len() == p,
        forall|j: int| 0 <= j < p ==> (#[trigger] r@[j]).repr() == v@[j].repr(),
{
    let mut r: Vec<G1Point> = Vec::new();
    let mut j: usize = 0;
    while j < p
        invariant
            j <= p,
            p <= v@.len(),
            r@.len() == j,
            forall|x: int| 0 <= x < j ==> (#[trigger] r@[x]).repr() == v@[x].repr(),
        decreases p - j,
    {
        r.push(g1_dup(&v[j]));
        j = j + 1;
    }
    r
}

/// Copies the first `p` points of a G2 array.
fn prefix_g2(v: &Vec<G2Point>, p: usize) -> (r: Vec<G2Point>)
    requires
        p <= v@.len(),
    ensures
        r@.len() == p,
        forall|j: int| 0 <= j < p ==> (#[trigger] r@[j]).repr() == v@[j].repr(),
{
    let mut r: Vec<G2Point> = Vec::new();
    let mut j: usize = 0;
    while j < p
        invariant
            j <= p,
            p <= v@.len(),
            r@.len() == j,
            forall|x: int| 0 <= x < j ==> (#[trigger] r@[x]).repr() == v@[x].repr(),
        decreases p - j,
    {
        r.push(g2_dup(&v[j]));
        j = j + 1;
    }
    r
}

/// What `phase2_new` builds, with `wi` and `pi` the inverses of the domain
/// generator and the domain size: fresh delta and transcript, the stated
/// constraint-system digest, the `h` vector of differences of tau powers,
/// and the query vectors as inverse-DFT linear combinations of the first
/// `p` elements of the matching phase-1 arrays.
pub open spec fn spec_phase2_constructed(
    out: Phase2Parameters,
    srs: crate::phase1::AccumulatorElements,
    a: Seq<Vec<(u64, usize)>>,
    b: Seq<Vec<(u64, usize)>>,
    c: Seq<Vec<(u64, usize)>>,
    p: nat,
    num_vars: nat,
    wi: nat,
    pi: nat,
) -> bool {
    &&& out.delta_g1.repr() == g1_elem(1)
    &&& out.delta_g2.repr() == g2_elem(1)
    &&& out.contributions@.len() == 0
    &&& out.alpha_g1.repr() == srs.alpha_g1@[0].repr()
    &&& out.beta_g1.repr() == srs.beta_g1@[0].repr()
    &&& out.beta_g2.repr() == srs.beta_g2.repr()
    &&& out.cs_hash@ == blake2b_digest(spec_matrices_bytes(a, b, c))
    &&& out.h_query@.len() == p - 1
    &&& forall|i: int, k1: nat, k2: nat|
        0 <= i < p - 1 && #[trigger] srs.tau_g1@[p + i].repr() == #[trigger] g1_elem(k1)
            && srs.tau_g1@[i].repr() == #[trigger] g1_elem(k2) ==> out.h_query@[i].repr()
            == g1_elem(add_mod(k1, neg_mod(k2)))
    &&& out.a_query@.len() == num_vars
    &&& out.b_g1_query@.len() == num_vars
    &&& out.b_g2_query@.len() == num_vars
    &&& out.l_query@.len() == num_vars
    &&& forall|v: int, te: Seq<nat>|
        0 <= v < num_vars && #[trigger] spec_g1_points_have(srs.tau_g1@.take(p as int), te) ==> (
        #[trigger] out.a_query@[v]).repr() == g1_elem(spec_query_exp(te, a, v as nat, wi, pi, p))
            && out.b_g1_query@[v].repr() == g1_elem(spec_query_exp(te, b, v as nat, wi, pi, p))
    &&& forall|v: int, t2e: Seq<nat>|
        0 <= v < num_vars && #[trigger] spec_g2_points_have(srs.tau_g2@.take(p as int), t2e) ==> (
        #[trigger] out.b_g2_query@[v]).repr() == g2_elem(
            spec_query_exp(t2e, b, v as nat, wi, pi, p),
        )
    &&& forall|v: int, te: Seq<nat>, ae: Seq<nat>, be: Seq<nat>|
        0 <= v < num_vars && #[trigger] spec_g1_points_have(srs.tau_g1@.take(p as int), te)
            && #[trigger] spec_g1_points_have(srs.alpha_g1@.take(p as int), ae)
            && #[trigger] spec_g1_points_have(srs.beta_g1@.take(p as int), be) ==> (
        #[trigger] out.l_query@[v]).repr() == g1_elem(
            add_mod(
                add_mod(
                    spec_query_exp(be, a, v as nat, wi, pi, p),
                    spec_query_exp(ae, b, v as nat, wi, pi, p),
                ),
                spec_query_exp(te, c, v as nat, wi, pi, p),
            ),
        )
}

/// Builds fresh Groth16 MPC parameters from a phase-1 accumulator and the
/// R1CS matrices, over a radix-2 evaluation domain of size `p`: the `h`
/// vector holds the differences `tau^(p+i) - tau^i` in G1, and each query
/// element is the inverse-DFT linear combination of the first `p` elements
/// of the matching array with the matrix column — the Lagrange-basis
/// evaluation of that column at tau.  Succeeds exactly when the curve's FFT
/// domain supports size `p` with an invertible generator.
#[verifier::rlimit(100)]
#[verifier::spinoff_prover]
pub fn phase2_new(
    srs: &crate::phase1::AccumulatorElements,
    a_mat: &Vec<Vec<(u64, usize)>>,
    b_mat: &Vec<Vec<(u64, usize)>>,
    c_mat: &Vec<Vec<(u64, usize)>>,
    p: usize,
    num_vars: usize,
) -> (r: Result<Phase2Parameters, Error>)
    requires
        1 <= p,
        p * p <= usize::MAX,
        p <= u64::MAX,
        srs.tau_g1@.len() >= 2 * p - 1,
        srs.tau_g2@.len() >= p,
        srs.alpha_g1@.len() >= p,
        srs.beta_g1@.len() >= p,
        srs.alpha_g1@.len() >= 1,
        srs.beta_g1@.len() >= 1,
        a_mat@.len() <= p,
        b_mat@.len() <= p,
        c_mat@.len() <= p,
        forall|j: int| 0 <= j < a_mat@.len() ==> (#[trigger] a_mat@[j])@.len() <= u64::MAX,
        forall|j: int| 0 <= j < b_mat@.len() ==> (#[trigger] b_mat@[j])@.len() <= u64::MAX,
        forall|j: int| 0 <= j < c_mat@.len() ==> (#[trigger] c_mat@[j])@.len() <= u64::MAX,
    ensures
        r is Ok <==> domain_supported(p as nat) && domain_generator(p as nat) != 0,
        r is Ok ==> exists|wi: nat, pi: nat|
            #[trigger] mul_mod(domain_generator(p as nat), wi) == 1 && #[trigger] mul_mod(
                p as nat,
                pi,
            ) == 1 && spec_phase2_constructed(
                r->Ok_0,
                *srs,
                a_mat@,
                b_mat@,
                c_mat@,
                p as nat,
                num_vars as nat,
                wi,
                pi,
            ),
{
    let w = match scalar_root_of_unity(p as u64) {
        Some(w) => w,
        None => {
            return Err(Error::InvalidChunk);
        },
    };
    let w_inv = match scalar_inverse(&w) {
        Some(s) => s,
        None => {
            return Err(Error::InvalidChunk);
        },
    };
    let p_scalar = scalar_from_u64(p as u64);
    let p_inv = match scalar_inverse(&p_scalar) {
        Some(s) => s,
        None => {
            proof {
                assert(false);
            }
            return Err(Error::InvalidChunk);
        },
    };
    let n1 = srs.tau_g1.len();
    let tau_p = prefix_g1(&srs.tau_g1, p);
    let tau2_p = prefix_g2(&srs.tau_g2, p);
    let alpha_p = prefix_g1(&srs.alpha_g1, p);
    let beta_p = prefix_g1(&srs.beta_g1, p);

    let mut h_query: Vec<G1Point> = Vec::new();
    let mut i: usize = 0;
    while i < p - 1
        invariant
            i <= p - 1,
            1 <= p,
            n1 == srs.tau_g1@.len(),
            srs.tau_g1@.len() >= 2 * p - 1,
            h_query@.len() == i,
            forall|x: int, k1: nat, k2: nat|
                0 <= x < i && #[trigger] srs.tau_g1@[p + x].repr() == #[trigger] g1_elem(k1)
                    && srs.tau_g1@[x].repr() == #[trigger] g1_elem(k2) ==> h_query@[x].repr()
                    == g1_elem(add_mod(k1, neg_mod(k2))),
        decreases p - 1 - i,
    {
        let minus_low = g1_neg(&srs.tau_g1[i]);
        h_query.push(g1_add(&srs.tau_g1[p + i], &minus_low));
        i = i + 1;
    }

    let mut a_query: Vec<G1Point> = Vec::new();
    let mut b_g1_query: Vec<G1Point> = Vec::new();
    let mut b_g2_query: Vec<G2Point> = Vec::new();
    let mut l_query: Vec<G1Point> = Vec::new();
    let ghost wi = w_inv.val();
    let ghost pi = p_inv.val();
    let mut v: usize = 0;
    while v < num_vars
        invariant
            v <= num_vars,
            1 <= p,
            p * p <= usize::MAX,
            a_mat@.len() <= p,
            b_mat@.len() <= p,
            c_mat@.len() <= p,
            w_inv.wf(),
            p_inv.wf(),
            wi == w_inv.val(),
            pi == p_inv.val(),
            tau_p@.len() == p,
            tau2_p@.len() == p,
            alpha_p@.len() == p,
            beta_p@.len() == p,
            a_query@.len() == v,
            b_g1_query@.len() == v,
            b_g2_query@.len() == v,
            l_query@.len() == v,
            forall|x: int, te: Seq<nat>|
                0 <= x < v && #[trigger] spec_g1_points_have(tau_p@, te) ==> (
                #[trigger] a_query@[x]).repr() == g1_elem(
                    spec_query_exp(te, a_mat@, x as nat, wi, pi, p as nat),
                ) && b_g1_query@[x].repr() == g1_elem(
                    spec_query_exp(te, b_mat@, x as nat, wi, pi, p as nat),
                ),
            forall|x: int, t2e: Seq<nat>|
                0 <= x < v && #[trigger] spec_g2_points_have(tau2_p@, t2e) ==> (
                #[trigger] b_g2_query@[x]).repr() == g2_elem(
                    spec_query_exp(t2e, b_mat@, x as nat, wi, pi, p as nat),
                ),
            forall|x: int, te: Seq<nat>, ae: Seq<nat>, be: Seq<nat>|
                0 <= x < v && #[trigger] spec_g1_points_have(tau_p@, te)
                    && #[trigger] spec_g1_points_have(alpha_p@, ae)
                    && #[trigger] spec_g1_points_have(beta_p@, be) ==> (
                #[trigger] l_query@[x]).repr() == g1_elem(
                    add_mod(
                        add_mod(
                            spec_query_exp(be, a_mat@, x as nat, wi, pi, p as nat),
                            spec_query_exp(ae, b_mat@, x as nat, wi, pi, p as nat),
                        ),
                        spec_query_exp(te, c_mat@, x as nat, wi, pi, p as nat),
                    ),
                ),
        decreases num_vars - v,
    {
        let ca = query_coeffs(a_mat, v, &w_inv, &p_inv, p);
        let cb = query_coeffs(b_mat, v, &w_inv, &p_inv, p);
        let cc = query_coeffs(c_mat, v, &w_inv, &p_inv, p);
        proof {
            assert(spec_scalar_vals(ca@) =~= Seq::new(
                p as nat,
                |i: int| spec_query_coeff(a_mat@, v as nat, wi, pi, i as nat, p as nat),
            ));
            assert(spec_scalar_vals(cb@) =~= Seq::new(
                p as nat,
                |i: int| spec_query_coeff(b_mat@, v as nat, wi, pi, i as nat, p as nat),
            ));
            assert(spec_scalar_vals(cc@) =~= Seq::new(
                p as nat,
                |i: int| spec_query_coeff(c_mat@, v as nat, wi, pi, i as nat, p as nat),
            ));
        }
        a_query.push(msm_g1(&tau_p, &ca));
        b_g1_query.push(msm_g1(&tau_p, &cb));
        b_g2_query.push(msm_g2(&tau2_p, &cb));
        let l_beta = msm_g1(&beta_p, &ca);
        let l_alpha = msm_g1(&alpha_p, &cb);
        let l_tau = msm_g1(&tau_p, &cc);
        let l_sum = g1_add(&g1_add(&l_beta, &l_alpha), &l_tau);
        l_query.push(l_sum);
        v = v + 1;
    }

    let mut cs_input: Vec<u8> = Vec::new();
    encode_matrix(&mut cs_input, a_mat);
    encode_matrix(&mut cs_input, b_mat);
    encode_matrix(&mut cs_input, c_mat);
    proof {
        assert(cs_input@ =~= spec_matrices_bytes(a_mat@, b_mat@, c_mat@));
    }
    let cs_hash = blake2b_hash(cs_input.as_slice());

    proof {
        assert(srs.tau_g1@.take(p as int).len() == p);
        assert(srs.tau_g2@.take(p as int).len() == p);
        assert(srs.alpha_g1@.take(p as int).len() == p);
        assert(srs.beta_g1@.take(p as int).len() == p);
        assert forall|vv: int, te: Seq<nat>|
            0 <= vv < num_vars && #[trigger] spec_g1_points_have(
                srs.tau_g1@.take(p as int),
                te,
            ) implies (#[trigger] a_query@[vv]).repr() == g1_elem(
            spec_query_exp(te, a_mat@, vv as nat, wi, pi, p as nat),
        ) && b_g1_query@[vv].repr() == g1_elem(
            spec_query_exp(te, b_mat@, vv as nat, wi, pi, p as nat),
        ) by {
            assert(spec_g1_points_have(tau_p@, te)) by {
                assert forall|j: int| 0 <= j < p implies (#[trigger] tau_p@[j]).repr() == g1_elem(
                    te[j],
                ) by {
                    assert(srs.tau_g1@.take(p as int)[j] == srs.tau_g1@[j]);
                }
            }
            assert((a_query@[vv]).repr() == g1_elem(
                spec_query_exp(te, a_mat@, vv as nat, wi, pi, p as nat),
            ));
            assert((b_g1_query@[vv]).repr() == g1_elem(
                spec_query_exp(te, b_mat@, vv as nat, wi, pi, p as nat),
            ));
        }
        assert forall|vv: int, t2e: Seq<nat>|
            0 <= vv < num_vars && #[trigger] spec_g2_points_have(
                srs.tau_g2@.take(p as int),
                t2e,
            ) implies (#[trigger] b_g2_query@[vv]).repr() == g2_elem(
            spec_query_exp(t2e, b_mat@, vv as nat, wi, pi, p as nat),
        ) by {
            assert(spec_g2_points_have(tau2_p@, t2e)) by {
                assert forall|j: int| 0 <= j < p implies (#[trigger] tau2_p@[j]).repr() == g2_elem(
                    t2e[j],
                ) by {
                    assert(srs.tau_g2@.take(p as int)[j] == srs.tau_g2@[j]);
                }
            }
        }
        assert forall|vv: int, te: Seq<nat>, ae: Seq<nat>, be: Seq<nat>|
            0 <= vv < num_vars && #[trigger] spec_g1_points_have(srs.tau_g1@.take(p as int), te)
                && #[trigger] spec_g1_points_have(srs.alpha_g1@.take(p as int), ae)
                && #[trigger] spec_g1_points_have(srs.beta_g1@.take(p as int), be) implies (
        #[trigger] l_query@[vv]).repr() == g1_elem(
            add_mod(
                add_mod(
                    spec_query_exp(be, a_mat@, vv as nat, wi, pi, p as nat),
                    spec_query_exp(ae, b_mat@, vv as nat, wi, pi, p as nat),
                ),
                spec_query_exp(te, c_mat@, vv as nat, wi, pi, p as nat),
            ),
        ) by {
            assert(spec_g1_points_have(tau_p@, te)) by {
                assert forall|j: int| 0 <= j < p implies (#[trigger] tau_p@[j]).repr() == g1_elem(
                    te[j],
                ) by {
                    assert(srs.tau_g1@.take(p as int)[j] == srs.tau_g1@[j]);
                }
            }
            assert(spec_g1_points_have(alpha_p@, ae)) by {
                assert forall|j: int| 0 <= j < p implies (#[trigger] alpha_p@[j]).repr() == g1_elem(
                    ae[j],
                ) by {
                    assert(srs.alpha_g1@.take(p as int)[j] == srs.alpha_g1@[j]);
                }
            }
            assert(spec_g1_points_have(beta_p@, be)) by {
                assert forall|j: int| 0 <= j < p implies (#[trigger] beta_p@[j]).repr() == g1_elem(
                    be[j],
                ) by {
                    assert(srs.beta_g1@.take(p as int)[j] == srs.beta_g1@[j]);
                }
            }
        }
    }
    let g1 = crate::group::g1_generator();
    let g2 = crate::group::g2_generator();
    let out = Phase2Parameters {
        h_query,
        l_query,
        a_query,
        b_g1_query,
        b_g2_query,
        alpha_g1: g1_dup(&srs.alpha_g1[0]),
        beta_g1: g1_dup(&srs.beta_g1[0]),
        beta_g2: g2_dup(&srs.beta_g2),
        delta_g1: g1,
        delta_g2: g2,
        cs_hash,
        contributions: Vec::new(),
    };
    proof {
        assert(mul_mod(domain_generator(p as nat), wi) == 1);
        assert(mul_mod(p as nat, pi) == 1);
        assert(spec_phase2_constructed(
            out,
            *srs,
            a_mat@,
            b_mat@,
            c_mat@,
            p as nat,
            num_vars as nat,
            wi,
            pi,
        ));
    }
    Ok(out)
}

/// Concatenated uncompressed encodings of a G1 vector.
pub open spec fn spec_g1_points_bytes(points: Seq<G1Point>) -> Seq<u8>
    decreases points.len(),
{
    if points.len() == 0 {
        Seq::empty()
    } else {
        spec_g1_points_bytes(points.drop_last()) + points.last().repr()
    }
}

/// Concatenated uncompressed encodings of a G2 vector.
pub open spec fn spec_g2_points_bytes(points: Seq<G2Point>) -> Seq<u8>
    decreases points.len(),
{
    if points.len() == 0 {
        Seq::empty()
    } else {
        spec_g2_points_bytes(points.drop_last()) + points.last().repr()
    }
}

/// One serialized contribution record: the three G1 points, the blinded G2
/// base point, and the 64-byte transcript digest.
pub open spec fn spec_record_bytes(e: ContributionEntry) -> Seq<u8> {
    e.delta_after_g1.repr() + e.s.repr() + e.s_delta.repr() + e.r_delta.repr() + e.transcript@
}

/// Concatenated contribution records.
pub open spec fn spec_records_bytes(es: Seq<ContributionEntry>) -> Seq<u8>
    decreases es.len(),
{
    if es.len() == 0 {
        Seq::empty()
    } else {
        spec_records_bytes(es.drop_last()) + spec_record_bytes(es.last())
    }
}

/// The phase-2 parameter file: six little-endian counts, the 64-byte
/// constraint-system digest, the five single points, the five query
/// vectors, and the contribution records, all points uncompressed.
pub open spec fn spec_phase2_bytes(p: Phase2Parameters) -> Seq<u8> {
    spec_le8(p.h_query@.len()) + spec_le8(p.l_query@.len()) + spec_le8(p.a_query@.len())
        + spec_le8(p.b_g1_query@.len()) + spec_le8(p.b_g2_query@.len()) + spec_le8(
        p.contributions@.len(),
    ) + p.cs_hash@ + p.alpha_g1.repr() + p.beta_g1.repr() + p.beta_g2.repr() + p.delta_g1.repr()
        + p.delta_g2.repr() + spec_g1_points_bytes(p.h_query@) + spec_g1_points_bytes(p.l_query@)
        + spec_g1_points_bytes(p.a_query@) + spec_g1_points_bytes(p.b_g1_query@)
        + spec_g2_points_bytes(p.b_g2_query@) + spec_records_bytes(p.contributions@)
}

fn push_g1_points(out: &mut Vec<u8>, points: &Vec<G1Point>)
    ensures
        final(out)@ == old(out)@ + spec_g1_points_bytes(points@),
{
    let n = points.len();
    let mut i: usize = 0;
    while i < n
        invariant
            i <= n,
            n == points@.len(),
            out@ == old(out)@ + spec_g1_points_bytes(points@.take(i as int)),
        decreases n - i,
    {
        let b = crate::group::g1_write(&points[i], false);
        out.extend_from_slice(b.as_slice());
        proof {
            assert(points@.take(i + 1).drop_last() =~= points@.take(i as int));
            assert(points@.take(i + 1).last() == points@[i as int]);
            assert(out@ =~= old(out)@ + spec_g1_points_bytes(points@.take(i + 1)));
        }
        i = i + 1;
    }
    proof {
        assert(points@.take(n as int) =~= points@);
    }
}

fn push_g2_points(out: &mut Vec<u8>, points: &Vec<G2Point>)
    ensures
        final(out)@ == old(out)@ + spec_g2_points_bytes(points@),
{
    let n = points.len();
    let mut i: usize = 0;
    while i < n
        invariant
            i <= n,
            n == points@.len(),
            out@ == old(out)@ + spec_g2_points_bytes(points@.take(i as int)),
        decreases n - i,
    {
        let b = crate::group::g2_write(&points[i], false);
        out.extend_from_slice(b.as_slice());
        proof {
            assert(points@.take(i + 1).drop_last() =~= points@.take(i as int));
            assert(points@.take(i + 1).last() == points@[i as int]);
            assert(out@ =~= old(out)@ + spec_g2_points_bytes(points@.take(i + 1)));
        }
        i = i + 1;
    }
    proof {
        assert(points@.take(n as int) =~= points@);
    }
}

/// Serializes the parameters into the phase-2 file layout.  Fails exactly
/// when some transcript digest is not 64 bytes (the format fixes the
/// record size).
pub fn write_phase2(p: &Phase2Parameters) -> (r: Result<Vec<u8>, Error>)
    requires
        p.cs_hash@.len() == 64,
    ensures
        r is Ok <==> (forall|j: int|
            0 <= j < p.contributions@.len() ==> (#[trigger] p.contributions@[j]).transcript@.len()
                == 64),
        r is Ok ==> r->Ok_0@ == spec_phase2_bytes(*p),
{
    let mut out: Vec<u8> = Vec::new();
    push_le8(&mut out, p.h_query.len() as u64);
    push_le8(&mut out, p.l_query.len() as u64);
    push_le8(&mut out, p.a_query.len() as u64);
    push_le8(&mut out, p.b_g1_query.len() as u64);
    push_le8(&mut out, p.b_g2_query.len() as u64);
    push_le8(&mut out, p.contributions.len() as u64);
    out.extend_from_slice(p.cs_hash.as_slice());
    let b = crate::group::g1_write(&p.alpha_g1, false);
    out.extend_from_slice(b.as_slice());
    let b = crate::group::g1_write(&p.beta_g1, false);
    out.extend_from_slice(b.as_slice());
    let b = crate::group::g2_write(&p.beta_g2, false);
    out.extend_from_slice(b.as_slice());
    let b = crate::group::g1_write(&p.delta_g1, false);
    out.extend_from_slice(b.as_slice());
    let b = crate::group::g2_write(&p.delta_g2, false);
    out.extend_from_slice(b.as_slice());
    push_g1_points(&mut out, &p.h_query);
    push_g1_points(&mut out, &p.l_query);
    push_g1_points(&mut out, &p.a_query);
    push_g1_points(&mut out, &p.b_g1_query);
    push_g2_points(&mut out, &p.b_g2_query);
    let n = p.contributions.len();
    let mut j: usize = 0;
    let ghost before_records = out@;
    while j < n
        invariant
            j <= n,
            n == p.contributions@.len(),
            forall|x: int|
                0 <= x < j ==> (#[trigger] p.contributions@[x]).transcript@.len() == 64,
            out@ == before_records + spec_records_bytes(p.contributions@.take(j as int)),
        decreases n - j,
    {
        let e = &p.contributions[j];
        if e.transcript.len() != 64 {
            return Err(Error::InvalidLength { expected: 64, got: e.transcript.len() });
        }
        let b = crate::group::g1_write(&e.delta_after_g1, false);
        out.extend_from_slice(b.as_slice());
        let b = crate::group::g1_write(&e.s, false);
        out.extend_from_slice(b.as_slice());
        let b = crate::group::g1_write(&e.s_delta, false);
        out.extend_from_slice(b.as_slice());
        let b = crate::group::g2_write(&e.r_delta, false);
        out.extend_from_slice(b.as_slice());
        out.extend_from_slice(e.transcript.as_slice());
        proof {
            assert(p.contributions@.take(j + 1).drop_last() =~= p.contributions@.take(j as int));
            assert(p.contributions@.take(j + 1).last() == p.contributions@[j as int]);
            assert(out@ =~= before_records + spec_records_bytes(p.contributions@.take(j + 1)));
        }
        j = j + 1;
    }
    proof {
        assert(p.contributions@.take(n as int) =~= p.contributions@);
        assert(out@ =~= spec_phase2_bytes(*p));
    }
    Ok(out)
}

/// Value of eight little-endian bytes.
pub open spec fn spec_le8_val(b: Seq<u8>) -> nat {
    (b[0] + 256 * (b[1] + 256 * (b[2] + 256 * (b[3] + 256 * (b[4] + 256 * (b[5] + 256 * (b[6]
        + 256 * b[7]))))))) as nat
}

/// Reads the eight little-endian bytes at `off` as a machine word.
fn read_le8(bytes: &[u8], off: usize) -> (r: u64)
    requires
        off + 8 <= bytes@.len(),
    ensures
        r as nat == spec_le8_val(bytes@.subrange(off as int, off + 8)),
{
    let n = bytes.len();
    let v7: u64 = bytes[off + 7] as u64;
    let v6: u64 = bytes[off + 6] as u64 + 256 * v7;
    let v5: u64 = bytes[off + 5] as u64 + 256 * v6;
    let v4: u64 = bytes[off + 4] as u64 + 256 * v5;
    let v3: u64 = bytes[off + 3] as u64 + 256 * v4;
    let v2: u64 = bytes[off + 2] as u64 + 256 * v3;
    let v1: u64 = bytes[off + 1] as u64 + 256 * v2;
    let v0: u64 = bytes[off] as u64 + 256 * v1;
    proof {
        let b = bytes@.subrange(off as int, off + 8);
        assert(b[0] == bytes@[off as int]);
        assert(b[1] == bytes@[off + 1]);
        assert(b[2] == bytes@[off + 2]);
        assert(b[3] == bytes@[off + 3]);
        assert(b[4] == bytes@[off + 4]);
        assert(b[5] == bytes@[off + 5]);
        assert(b[6] == bytes@[off + 6]);
        assert(b[7] == bytes@[off + 7]);
    }
    v0
}

/// Total length of a phase-2 parameter file with these counts.
pub open spec fn spec_phase2_total(h: nat, l: nat, a: nat, b1: nat, b2: nat, nc: nat) -> nat {
    784 + (h + l + a + b1) * 96 + b2 * 192 + nc * 544
}

/// Every point of a phase-2 parameter file decodes and passes the validity
/// check, and the declared counts match the file length.
pub open spec fn spec_phase2_readable(bytes: Seq<u8>) -> bool {
    &&& bytes.len() >= 784
    &&& ({
        let h = spec_le8_val(bytes.subrange(0, 8));
        let l = spec_le8_val(bytes.subrange(8, 16));
        let a = spec_le8_val(bytes.subrange(16, 24));
        let b1 = spec_le8_val(bytes.subrange(24, 32));
        let b2 = spec_le8_val(bytes.subrange(32, 40));
        let nc = spec_le8_val(bytes.subrange(40, 48));
        let off_h = 784nat;
        let off_l = off_h + h * 96;
        let off_a = off_l + l * 96;
        let off_b1 = off_a + a * 96;
        let off_b2 = off_b1 + b1 * 96;
        let off_rec = off_b2 + b2 * 192;
        &&& spec_phase2_total(h, l, a, b1, b2, nc) == bytes.len()
        &&& spec_g1_read_ok(bytes.subrange(112, 208), false, CheckForCorrectness::Both)
        &&& spec_g1_read_ok(bytes.subrange(208, 304), false, CheckForCorrectness::Both)
        &&& spec_g2_read_ok(bytes.subrange(304, 496), false, CheckForCorrectness::Both)
        &&& spec_g1_read_ok(bytes.subrange(496, 592), false, CheckForCorrectness::Both)
        &&& spec_g2_read_ok(bytes.subrange(592, 784), false, CheckForCorrectness::Both)
        &&& (forall|i: nat|
            i < h ==> spec_g1_read_ok(
                #[trigger] crate::layout::slot(bytes, off_h, 96, i),
                false,
                CheckForCorrectness::Both,
            ))
        &&& (forall|i: nat|
            i < l ==> spec_g1_read_ok(
                #[trigger] crate::layout::slot(bytes, off_l, 96, i),
                false,
                CheckForCorrectness::Both,
            ))
        &&& (forall|i: nat|
            i < a ==> spec_g1_read_ok(
                #[trigger] crate::layout::slot(bytes, off_a, 96, i),
                false,
                CheckForCorrectness::Both,
            ))
        &&& (forall|i: nat|
            i < b1 ==> spec_g1_read_ok(
                #[trigger] crate::layout::slot(bytes, off_b1, 96, i),
                false,
                CheckForCorrectness::Both,
            ))
        &&& (forall|i: nat|
            i < b2 ==> spec_g2_read_ok(
                #[trigger] crate::layout::slot(bytes, off_b2, 192, i),
                false,
                CheckForCorrectness::Both,
            ))
        &&& (forall|j: nat|
            j < nc ==> {
                let rec = #[trigger] crate::layout::slot(bytes, off_rec, 544, j);
                &&& spec_g1_read_ok(rec.subrange(0, 96), false, CheckForCorrectness::Both)
                &&& spec_g1_read_ok(rec.subrange(96, 192), false, CheckForCorrectness::Both)
                &&& spec_g1_read_ok(rec.subrange(192, 288), false, CheckForCorrectness::Both)
                &&& spec_g2_read_ok(rec.subrange(288, 480), false, CheckForCorrectness::Both)
            })
    })
}

/// What the parsed value holds: the declared counts, the stored digest and
/// transcripts byte for byte, and for every stored encoding the point it
/// decodes to.
pub open spec fn spec_phase2_parsed(out: Phase2Parameters, bytes: Seq<u8>) -> bool {
    let h = spec_le8_val(bytes.subrange(0, 8));
    let l = spec_le8_val(bytes.subrange(8, 16));
    let a = spec_le8_val(bytes.subrange(16, 24));
    let b1 = spec_le8_val(bytes.subrange(24, 32));
    let b2 = spec_le8_val(bytes.subrange(32, 40));
    let nc = spec_le8_val(bytes.subrange(40, 48));
    let off_h = 784nat;
    let off_l = off_h + h * 96;
    let off_a = off_l + l * 96;
    let off_b1 = off_a + a * 96;
    let off_b2 = off_b1 + b1 * 96;
    let off_rec = off_b2 + b2 * 192;
    &&& out.h_query@.len() == h
    &&& out.l_query@.len() == l
    &&& out.a_query@.len() == a
    &&& out.b_g1_query@.len() == b1
    &&& out.b_g2_query@.len() == b2
    &&& out.contributions@.len() == nc
    &&& out.cs_hash@ == bytes.subrange(48, 112)
    &&& Some(out.alpha_g1.repr()) == g1_canon(bytes.subrange(112, 208), false)
    &&& Some(out.beta_g1.repr()) == g1_canon(bytes.subrange(208, 304), false)
    &&& Some(out.beta_g2.repr()) == g2_canon(bytes.subrange(304, 496), false)
    &&& Some(out.delta_g1.repr()) == g1_canon(bytes.subrange(496, 592), false)
    &&& Some(out.delta_g2.repr()) == g2_canon(bytes.subrange(592, 784), false)
    &&& (forall|i: int|
        0 <= i < h ==> Some((#[trigger] out.h_query@[i]).repr()) == g1_canon(
            crate::layout::slot(bytes, off_h, 96, i as nat),
            false,
        ))
    &&& (forall|i: int|
        0 <= i < l ==> Some((#[trigger] out.l_query@[i]).repr()) == g1_canon(
            crate::layout::slot(bytes, off_l, 96, i as nat),
            false,
        ))
    &&& (forall|i: int|
        0 <= i < a ==> Some((#[trigger] out.a_query@[i]).repr()) == g1_canon(
            crate::layout::slot(bytes, off_a, 96, i as nat),
            false,
        ))
    &&& (forall|i: int|
        0 <= i < b1 ==> Some((#[trigger] out.b_g1_query@[i]).repr()) == g1_canon(
            crate::layout::slot(bytes, off_b1, 96, i as nat),
            false,
        ))
    &&& (forall|i: int|
        0 <= i < b2 ==> Some((#[trigger] out.b_g2_query@[i]).repr()) == g2_canon(
            crate::layout::slot(bytes, off_b2, 192, i as nat),
            false,
        ))
    &&& (forall|j: int|
        0 <= j < nc ==> {
            let rec = crate::layout::slot(bytes, off_rec, 544, j as nat);
            let e = #[trigger] out.contributions@[j];
            &&& Some(e.delta_after_g1.repr()) == g1_canon(rec.subrange(0, 96), false)
            &&& Some(e.s.repr()) == g1_canon(rec.subrange(96, 192), false)
            &&& Some(e.s_delta.repr()) == g1_canon(rec.subrange(192, 288), false)
            &&& Some(e.r_delta.repr()) == g2_canon(rec.subrange(288, 480), false)
            &&& e.transcript@ == rec.subrange(480, 544)
        })
}

/// Every region of the file length bound is at least each count.
proof fn lemma_phase2_total_bounds(h: nat, l: nat, a: nat, b1: nat, b2: nat, nc: nat)
    ensures
        spec_phase2_total(h, l, a, b1, b2, nc) >= h,
        spec_phase2_total(h, l, a, b1, b2, nc) >= l,
        spec_phase2_total(h, l, a, b1, b2, nc) >= a,
        spec_phase2_total(h, l, a, b1, b2, nc) >= b1,
        spec_phase2_total(h, l, a, b1, b2, nc) >= b2,
        spec_phase2_total(h, l, a, b1, b2, nc) >= nc,
        spec_phase2_total(h, l, a, b1, b2, nc) >= 784 + (h + l + a + b1) * 96,
        spec_phase2_total(h, l, a, b1, b2, nc) >= b2 * 192,
        spec_phase2_total(h, l, a, b1, b2, nc) >= nc * 544,
{
    assert((h + l + a + b1) * 96 >= h + l + a + b1) by (nonlinear_arith);
    assert(b2 * 192 >= b2) by (nonlinear_arith);
    assert(nc * 544 >= nc) by (nonlinear_arith);
}

/// Parses a phase-2 parameter file.  Succeeds exactly when the declared
/// counts match the file length and every stored point decodes and passes
/// the on-curve and subgroup checks; the parsed value then holds exactly
/// the decoded points, counts, digest and transcripts.
#[verifier::rlimit(100)]
#[verifier::spinoff_prover]
pub fn read_phase2(bytes: &[u8]) -> (r: Result<Phase2Parameters, Error>)
    ensures
        r is Ok <==> spec_phase2_readable(bytes@),
        r is Ok ==> spec_phase2_parsed(r->Ok_0, bytes@),
{
    let n = bytes.len();
    if n < 784 {
        return Err(Error::InvalidLength { expected: 784, got: n });
    }
    let hw = read_le8(bytes, 0);
    let lw = read_le8(bytes, 8);
    let aw = read_le8(bytes, 16);
    let b1w = read_le8(bytes, 24);
    let b2w = read_le8(bytes, 32);
    let ncw = read_le8(bytes, 40);
    let ghost gh = spec_le8_val(bytes@.subrange(0, 8));
    let ghost gl_ = spec_le8_val(bytes@.subrange(8, 16));
    let ghost ga = spec_le8_val(bytes@.subrange(16, 24));
    let ghost gb1 = spec_le8_val(bytes@.subrange(24, 32));
    let ghost gb2 = spec_le8_val(bytes@.subrange(32, 40));
    let ghost gnc = spec_le8_val(bytes@.subrange(40, 48));
    proof {
        lemma_phase2_total_bounds(gh, gl_, ga, gb1, gb2, gnc);
    }
    let umax: u64 = usize::MAX as u64;
    if hw > umax || lw > umax || aw > umax || b1w > umax || b2w > umax || ncw > umax {
        return Err(Error::InvalidChunk);
    }
    let h = hw as usize;
    let l = lw as usize;
    let a = aw as usize;
    let b1 = b1w as usize;
    let b2 = b2w as usize;
    let nc = ncw as usize;
    // The expected total length, rejecting arithmetic that cannot fit.
    let ghost gtotal = spec_phase2_total(gh, gl_, ga, gb1, gb2, gnc);
    proof {
        assert(gtotal == 784 + (gh + gl_ + ga + gb1) * 96 + gb2 * 192 + gnc * 544);
        assert((gh + gl_ + ga + gb1) * 96 >= gh + gl_ + ga + gb1) by (nonlinear_arith);
        assert(gb2 * 192 >= gb2) by (nonlinear_arith);
        assert(gnc * 544 >= gnc) by (nonlinear_arith);
    }
    let sum_hl = match h.checked_add(l) {
        Some(x) => x,
        None => {
            return Err(Error::InvalidChunk);
        },
    };
    let sum_hla = match sum_hl.checked_add(a) {
        Some(x) => x,
        None => {
            return Err(Error::InvalidChunk);
        },
    };
    let sums = match sum_hla.checked_add(b1) {
        Some(x) => x,
        None => {
            return Err(Error::InvalidChunk);
        },
    };
    let g1_part = match sums.checked_mul(96) {
        Some(x) => x,
        None => {
            return Err(Error::InvalidChunk);
        },
    };
    let b2_part = match b2.checked_mul(192) {
        Some(x) => x,
        None => {
            return Err(Error::InvalidChunk);
        },
    };
    let rec_part = match nc.checked_mul(544) {
        Some(x) => x,
        None => {
            return Err(Error::InvalidChunk);
        },
    };
    let tot_a = match 784usize.checked_add(g1_part) {
        Some(x) => x,
        None => {
            return Err(Error::InvalidChunk);
        },
    };
    let tot_b = match tot_a.checked_add(b2_part) {
        Some(x) => x,
        None => {
            return Err(Error::InvalidChunk);
        },
    };
    let total = match tot_b.checked_add(rec_part) {
        Some(x) => x,
        None => {
            return Err(Error::InvalidChunk);
        },
    };
    if total != n {
        return Err(Error::InvalidLength { expected: total, got: n });
    }
    proof {
        assert(gtotal == n);
        crate::layout::lemma_mul_distribute(gh, gl_ + ga + gb1, 96);
        crate::layout::lemma_mul_distribute(gl_, ga + gb1, 96);
        crate::layout::lemma_mul_distribute(ga, gb1, 96);
        assert(crate::phase1::is_compressed(crate::params::UseCompression::No) == false);
        assert(crate::group::g1_enc_size(false) == 96);
        assert(crate::group::g2_enc_size(false) == 192);
    }
    let off_h: usize = 784;
    let off_l = off_h + h * 96;
    let off_a = off_l + l * 96;
    let off_b1 = off_a + a * 96;
    let off_b2 = off_b1 + b1 * 96;
    let off_rec = off_b2 + b2 * 192;
    let alpha_g1 = match crate::phase1::read_g1_at(
        bytes,
        112,
        crate::params::UseCompression::No,
        CheckForCorrectness::Both,
        crate::params::ElementType::AlphaG1,
    ) {
        Ok(p) => p,
        Err(_) => {
            return Err(Error::SerializationFailed(crate::params::ElementType::AlphaG1));
        },
    };
    let beta_g1 = match crate::phase1::read_g1_at(
        bytes,
        208,
        crate::params::UseCompression::No,
        CheckForCorrectness::Both,
        crate::params::ElementType::BetaG1,
    ) {
        Ok(p) => p,
        Err(_) => {
            return Err(Error::SerializationFailed(crate::params::ElementType::BetaG1));
        },
    };
    let beta_g2 = match crate::phase1::read_g2_at(
        bytes,
        304,
        crate::params::UseCompression::No,
        CheckForCorrectness::Both,
        crate::params::ElementType::BetaG2,
    ) {
        Ok(p) => p,
        Err(_) => {
            return Err(Error::SerializationFailed(crate::params::ElementType::BetaG2));
        },
    };
    let delta_g1 = match crate::phase1::read_g1_at(
        bytes,
        496,
        crate::params::UseCompression::No,
        CheckForCorrectness::Both,
        crate::params::ElementType::TauG1,
    ) {
        Ok(p) => p,
        Err(_) => {
            return Err(Error::SerializationFailed(crate::params::ElementType::TauG1));
        },
    };
    let delta_g2 = match crate::phase1::read_g2_at(
        bytes,
        592,
        crate::params::UseCompression::No,
        CheckForCorrectness::Both,
        crate::params::ElementType::TauG2,
    ) {
        Ok(p) => p,
        Err(_) => {
            return Err(Error::SerializationFailed(crate::params::ElementType::TauG2));
        },
    };
    let h_query = match crate::phase1::read_region_points_g1(
        bytes,
        off_h,
        h,
        crate::params::UseCompression::No,
        CheckForCorrectness::Both,
        crate::params::ElementType::TauG1,
    ) {
        Ok(v) => v,
        Err(e) => {
            proof {
                let i0 = choose|i: nat|
                    i < h && !spec_g1_read_ok(
                        #[trigger] crate::layout::slot(
                            bytes@,
                            off_h as nat,
                            crate::group::g1_enc_size(false),
                            i,
                        ),
                        false,
                        CheckForCorrectness::Both,
                    );
                assert(!spec_g1_read_ok(
                    crate::layout::slot(bytes@, 784nat, 96, i0),
                    false,
                    CheckForCorrectness::Both,
                ));
            }
            return Err(e);
        },
    };
    let l_query = match crate::phase1::read_region_points_g1(
        bytes,
        off_l,
        l,
        crate::params::UseCompression::No,
        CheckForCorrectness::Both,
        crate::params::ElementType::TauG1,
    ) {
        Ok(v) => v,
        Err(e) => {
            proof {
                let i0 = choose|i: nat|
                    i < l && !spec_g1_read_ok(
                        #[trigger] crate::layout::slot(
                            bytes@,
                            off_l as nat,
                            crate::group::g1_enc_size(false),
                            i,
                        ),
                        false,
                        CheckForCorrectness::Both,
                    );
                assert(!spec_g1_read_ok(
                    crate::layout::slot(bytes@, 784nat + gh * 96, 96, i0),
                    false,
                    CheckForCorrectness::Both,
                ));
            }
            return Err(e);
        },
    };
    let a_query = match crate::phase1::read_region_points_g1(
        bytes,
        off_a,
        a,
        crate::params::UseCompression::No,
        CheckForCorrectness::Both,
        crate::params::ElementType::TauG1,
    ) {
        Ok(v) => v,
        Err(e) => {
            proof {
                let i0 = choose|i: nat|
                    i < a && !spec_g1_read_ok(
                        #[trigger] crate::layout::slot(
                            bytes@,
                            off_a as nat,
                            crate::group::g1_enc_size(false),
                            i,
                        ),
                        false,
                        CheckForCorrectness::Both,
                    );
                assert(!spec_g1_read_ok(
                    crate::layout::slot(bytes@, 784nat + gh * 96 + gl_ * 96, 96, i0),
                    false,
                    CheckForCorrectness::Both,
                ));
            }
            return Err(e);
        },
    };
    let b_g1_query = match crate::phase1::read_region_points_g1(
        bytes,
        off_b1,
        b1,
        crate::params::UseCompression::No,
        CheckForCorrectness::Both,
        crate::params::ElementType::TauG1,
    ) {
        Ok(v) => v,
        Err(e) => {
            proof {
                let i0 = choose|i: nat|
                    i < b1 && !spec_g1_read_ok(
                        #[trigger] crate::layout::slot(
                            bytes@,
                            off_b1 as nat,
                            crate::group::g1_enc_size(false),
                            i,
                        ),
                        false,
                        CheckForCorrectness::Both,
                    );
                assert(!spec_g1_read_ok(
                    crate::layout::slot(bytes@, 784nat + gh * 96 + gl_ * 96 + ga * 96, 96, i0),
                    false,
                    CheckForCorrectness::Both,
                ));
            }
            return Err(e);
        },
    };
    let b_g2_query = match crate::phase1::read_region_points_g2(
        bytes,
        off_b2,
        b2,
        crate::params::UseCompression::No,
        CheckForCorrectness::Both,
        crate::params::ElementType::TauG2,
    ) {
        Ok(v) => v,
        Err(e) => {
            proof {
                let i0 = choose|i: nat|
                    i < b2 && !spec_g2_read_ok(
                        #[trigger] crate::layout::slot(
                            bytes@,
                            off_b2 as nat,
                            crate::group::g2_enc_size(false),
                            i,
                        ),
                        false,
                        CheckForCorrectness::Both,
                    );
                assert(!spec_g2_read_ok(
                    crate::layout::slot(bytes@, 784nat + gh * 96 + gl_ * 96 + ga * 96 + gb1 * 96, 192, i0),
                    false,
                    CheckForCorrectness::Both,
                ));
            }
            return Err(e);
        },
    };
    let cs_hash = crate::layout::copy_out(bytes, 48, 64);
    let mut contributions: Vec<ContributionEntry> = Vec::new();
    let mut j: usize = 0;
    while j < nc
        invariant
            j <= nc,
            n == bytes@.len(),
            nc == gnc,
            gh == spec_le8_val(bytes@.subrange(0, 8)),
            gl_ == spec_le8_val(bytes@.subrange(8, 16)),
            ga == spec_le8_val(bytes@.subrange(16, 24)),
            gb1 == spec_le8_val(bytes@.subrange(24, 32)),
            gb2 == spec_le8_val(bytes@.subrange(32, 40)),
            gnc == spec_le8_val(bytes@.subrange(40, 48)),
            off_rec as nat + gnc * 544 == n,
            off_rec == 784 + (gh + gl_ + ga + gb1) * 96 + gb2 * 192,
            contributions@.len() == j,
            forall|x: int|
                0 <= x < j ==> {
                    let rec = crate::layout::slot(bytes@, off_rec as nat, 544, x as nat);
                    let e = #[trigger] contributions@[x];
                    &&& Some(e.delta_after_g1.repr()) == g1_canon(rec.subrange(0, 96), false)
                    &&& Some(e.s.repr()) == g1_canon(rec.subrange(96, 192), false)
                    &&& Some(e.s_delta.repr()) == g1_canon(rec.subrange(192, 288), false)
                    &&& Some(e.r_delta.repr()) == g2_canon(rec.subrange(288, 480), false)
                    &&& e.transcript@ == rec.subrange(480, 544)
                },
            forall|x: nat|
                x < j ==> {
                    let rec = #[trigger] crate::layout::slot(bytes@, off_rec as nat, 544, x);
                    &&& spec_g1_read_ok(rec.subrange(0, 96), false, CheckForCorrectness::Both)
                    &&& spec_g1_read_ok(rec.subrange(96, 192), false, CheckForCorrectness::Both)
                    &&& spec_g1_read_ok(rec.subrange(192, 288), false, CheckForCorrectness::Both)
                    &&& spec_g2_read_ok(rec.subrange(288, 480), false, CheckForCorrectness::Both)
                },
        decreases nc - j,
    {
        proof {
            crate::layout::lemma_mul_succ(j as nat, 544);
            crate::layout::lemma_mul_le((j + 1) as nat, gnc, 544);
        }
        let ro = off_rec + j * 544;
        let ghost gro = 784nat + gh * 96 + gl_ * 96 + ga * 96 + gb1 * 96 + gb2 * 192;
        let ghost rec = crate::layout::slot(bytes@, off_rec as nat, 544, j as nat);
        proof {
            assert(off_rec as nat == gro);
            assert(crate::layout::slot(bytes@, gro, 544, j as nat) == rec);
            assert(rec =~= bytes@.subrange(ro as int, ro + 544));
            assert(rec.subrange(0, 96) =~= bytes@.subrange(ro as int, ro + 96));
            assert(rec.subrange(96, 192) =~= bytes@.subrange(ro + 96, ro + 192));
            assert(rec.subrange(192, 288) =~= bytes@.subrange(ro + 192, ro + 288));
            assert(rec.subrange(288, 480) =~= bytes@.subrange(ro + 288, ro + 480));
            assert(rec.subrange(480, 544) =~= bytes@.subrange(ro + 480, ro + 544));
        }
        let delta_after_g1 = match crate::phase1::read_g1_at(
            bytes,
            ro,
            crate::params::UseCompression::No,
            CheckForCorrectness::Both,
            crate::params::ElementType::TauG1,
        ) {
            Ok(p) => p,
            Err(_) => {
                proof {
                    assert(!spec_g1_read_ok(rec.subrange(0, 96), false, CheckForCorrectness::Both));
                    assert(!spec_phase2_readable(bytes@));
                }
                return Err(Error::SerializationFailed(crate::params::ElementType::TauG1));
            },
        };
        let s_pt = match crate::phase1::read_g1_at(
            bytes,
            ro + 96,
            crate::params::UseCompression::No,
            CheckForCorrectness::Both,
            crate::params::ElementType::TauG1,
        ) {
            Ok(p) => p,
            Err(_) => {
                proof {
                    assert(!spec_g1_read_ok(rec.subrange(96, 192), false, CheckForCorrectness::Both));
                    assert(!spec_phase2_readable(bytes@));
                }
                return Err(Error::SerializationFailed(crate::params::ElementType::TauG1));
            },
        };
        let s_delta = match crate::phase1::read_g1_at(
            bytes,
            ro + 192,
            crate::params::UseCompression::No,
            CheckForCorrectness::Both,
            crate::params::ElementType::TauG1,
        ) {
            Ok(p) => p,
            Err(_) => {
                proof {
                    assert(!spec_g1_read_ok(rec.subrange(192, 288), false, CheckForCorrectness::Both));
                    assert(!spec_phase2_readable(bytes@));
                }
                return Err(Error::SerializationFailed(crate::params::ElementType::TauG1));
            },
        };
        let r_delta = match crate::phase1::read_g2_at(
            bytes,
            ro + 288,
            crate::params::UseCompression::No,
            CheckForCorrectness::Both,
            crate::params::ElementType::TauG2,
        ) {
            Ok(p) => p,
            Err(_) => {
                proof {
                    assert(!spec_g2_read_ok(rec.subrange(288, 480), false, CheckForCorrectness::Both));
                    assert(!spec_phase2_readable(bytes@));
                }
                return Err(Error::SerializationFailed(crate::params::ElementType::TauG2));
            },
        };
        let transcript = crate::layout::copy_out(bytes, ro + 480, 64);
        contributions.push(ContributionEntry { delta_after_g1, s: s_pt, s_delta, r_delta, transcript });
        j = j + 1;
    }
    Ok(Phase2Parameters {
        h_query,
        l_query,
        a_query,
        b_g1_query,
        b_g2_query,
        alpha_g1,
        beta_g1,
        beta_g2,
        delta_g1,
        delta_g2,
        cs_hash,
        contributions,
    })
}

} // verus!
