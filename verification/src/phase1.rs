//! The phase-1 accumulator engine: initialization, contribution,
//! verification and combination of powers-of-tau buffers.
//!
//! Every operation works on serialized buffers laid out as described in
//! [`crate::layout`]; the element semantics is stated over the encoding
//! model of [`crate::group`]: the TauG1 array of a well-formed accumulator
//! holds the points `g1 * tau^i`, and a contribution multiplies element `i`
//! of each array by the matching power of the participant's secret.

use vstd::prelude::*;

use crate::errors::Error;
use crate::group::g1_accepted;
use crate::group::g1_canon;
use crate::group::g1_compressed_form;
use crate::group::g1_elem;
use crate::group::g1_enc_size;
use crate::group::g1_generator;
use crate::group::g1_is_zero;
use crate::group::g1_mul;
use crate::group::g1_parses;
use crate::group::g1_read;
use crate::group::g1_store;
use crate::group::g1_write;
use crate::group::g2_accepted;
use crate::group::g2_canon;
use crate::group::g2_compressed_form;
use crate::group::g2_elem;
use crate::group::g2_enc_size;
use crate::group::g2_generator;
use crate::group::g2_is_zero;
use crate::group::g2_mul;
use crate::group::g2_parses;
use crate::group::g2_read;
use crate::group::g2_store;
use crate::group::g2_write;
use crate::group::mul_mod;
use crate::group::pow_mod;
use crate::group::scalar_from_u64;
use crate::group::scalar_mul;
use crate::group::G1Point;
use crate::group::G2Point;
use crate::group::Scalar;
use crate::keypair::PrivateKey;
use crate::keypair::PublicKey;
use crate::layout::chunk_glayout;
use crate::layout::full_glayout;
use crate::layout::copy_out;
use crate::layout::lemma_mul_le;
use crate::layout::lemma_mul_succ;
use crate::layout::lemma_subrange_unchanged;
use crate::layout::slot;
use crate::layout::slot_off;
use crate::layout::spec_chunk_len;
use crate::layout::write_in;
use crate::layout::Layout;
use crate::params::CeremonyParams;
use crate::params::CheckForCorrectness;
use crate::params::ElementType;
use crate::params::UseCompression;

verus! {

/// `UseCompression` as the boolean the encoding model uses.
pub open spec fn is_compressed(c: UseCompression) -> bool {
    c == UseCompression::Yes
}

pub fn compressed_flag(c: UseCompression) -> (r: bool)
    ensures
        r == is_compressed(c),
{
    match c {
        UseCompression::Yes => true,
        UseCompression::No => false,
    }
}

/// Whether this check mode demands the subgroup validity check.
pub open spec fn spec_check_group(c: CheckForCorrectness) -> bool {
    c == CheckForCorrectness::OnlyInGroup || c == CheckForCorrectness::Both
}

/// Whether this check mode demands the rejection of the identity.
pub open spec fn spec_check_nonzero(c: CheckForCorrectness) -> bool {
    c == CheckForCorrectness::OnlyNonZero || c == CheckForCorrectness::Both
}

/// A stored G1 element passes the given checks: it decodes, is in the
/// prime-order subgroup if demanded, and is not the identity if demanded.
pub open spec fn spec_g1_read_ok(bytes: Seq<u8>, c: bool, check: CheckForCorrectness) -> bool {
    &&& g1_canon(bytes, c) is Some
    &&& (spec_check_group(check) ==> g1_accepted(g1_canon(bytes, c)->Some_0))
    &&& (spec_check_nonzero(check) ==> g1_canon(bytes, c) != Some(g1_elem(0)))
}

/// A stored G2 element passes the given checks.
pub open spec fn spec_g2_read_ok(bytes: Seq<u8>, c: bool, check: CheckForCorrectness) -> bool {
    &&& g2_canon(bytes, c) is Some
    &&& (spec_check_group(check) ==> g2_accepted(g2_canon(bytes, c)->Some_0))
    &&& (spec_check_nonzero(check) ==> g2_canon(bytes, c) != Some(g2_elem(0)))
}

/// Reads and checks the G1 element stored at `off`.
pub fn read_g1_at(
    buf: &[u8],
    off: usize,
    c: UseCompression,
    check: CheckForCorrectness,
    et: ElementType,
) -> (r: Result<G1Point, Error>)
    requires
        off + g1_enc_size(is_compressed(c)) <= buf@.len(),
    ensures
        ({
            let bytes = buf@.subrange(off as int, off + g1_enc_size(is_compressed(c)));
            &&& (r is Ok <==> spec_g1_read_ok(bytes, is_compressed(c), check))
            &&& r is Ok ==> {
                let e = r->Ok_0.repr();
                &&& Some(e) == g1_canon(bytes, is_compressed(c))
                &&& e.len() == g1_enc_size(false)
                &&& g1_canon(e, false) == Some(e)
                &&& ((is_compressed(c) || spec_check_group(check)) ==> crate::group::g1_on_curve(e))
                &&& (crate::group::g1_on_curve(e) ==> g1_canon(g1_compressed_form(e), true) == Some(
                    e,
                ))
            }
            &&& forall|k: nat|
                0 < k < crate::group::scalar_field_order() && g1_canon(bytes, is_compressed(c))
                    == Some(#[trigger] g1_elem(k)) ==> r is Ok
            &&& (r is Err ==> (r->Err_0 == Error::SerializationFailed(et) || r->Err_0
                == Error::IncorrectSubgroup(et) || r->Err_0 == Error::PointAtInfinity(et)))
        }),
{
    let compressed = compressed_flag(c);
    let size: usize = if compressed { 48 } else { 96 };
    let bytes = copy_out(buf, off, size);
    let point = match g1_read(bytes.as_slice(), compressed, false) {
        Some(p) => p,
        None => {
            return Err(Error::SerializationFailed(et));
        },
    };
    let needs_group = match check {
        CheckForCorrectness::OnlyInGroup | CheckForCorrectness::Both => true,
        _ => false,
    };
    if needs_group {
        match g1_read(bytes.as_slice(), compressed, true) {
            Some(_) => (),
            None => {
                return Err(Error::IncorrectSubgroup(et));
            },
        }
    }
    let needs_nonzero = match check {
        CheckForCorrectness::OnlyNonZero | CheckForCorrectness::Both => true,
        _ => false,
    };
    if needs_nonzero {
        if g1_is_zero(&point) {
            return Err(Error::PointAtInfinity(et));
        }
    }
    Ok(point)
}

/// Reads and checks the G2 element stored at `off`.
pub fn read_g2_at(
    buf: &[u8],
    off: usize,
    c: UseCompression,
    check: CheckForCorrectness,
    et: ElementType,
) -> (r: Result<G2Point, Error>)
    requires
        off + g2_enc_size(is_compressed(c)) <= buf@.len(),
    ensures
        ({
            let bytes = buf@.subrange(off as int, off + g2_enc_size(is_compressed(c)));
            &&& (r is Ok <==> spec_g2_read_ok(bytes, is_compressed(c), check))
            &&& r is Ok ==> {
                let e = r->Ok_0.repr();
                &&& Some(e) == g2_canon(bytes, is_compressed(c))
                &&& e.len() == g2_enc_size(false)
                &&& g2_canon(e, false) == Some(e)
                &&& ((is_compressed(c) || spec_check_group(check)) ==> crate::group::g2_on_curve(e))
                &&& (crate::group::g2_on_curve(e) ==> g2_canon(g2_compressed_form(e), true) == Some(
                    e,
                ))
            }
            &&& forall|k: nat|
                0 < k < crate::group::scalar_field_order() && g2_canon(bytes, is_compressed(c))
                    == Some(#[trigger] g2_elem(k)) ==> r is Ok
            &&& (r is Err ==> (r->Err_0 == Error::SerializationFailed(et) || r->Err_0
                == Error::IncorrectSubgroup(et) || r->Err_0 == Error::PointAtInfinity(et)))
        }),
{
    let compressed = compressed_flag(c);
    let size: usize = if compressed { 96 } else { 192 };
    let bytes = copy_out(buf, off, size);
    let point = match g2_read(bytes.as_slice(), compressed, false) {
        Some(p) => p,
        None => {
            return Err(Error::SerializationFailed(et));
        },
    };
    let needs_group = match check {
        CheckForCorrectness::OnlyInGroup | CheckForCorrectness::Both => true,
        _ => false,
    };
    if needs_group {
        match g2_read(bytes.as_slice(), compressed, true) {
            Some(_) => (),
            None => {
                return Err(Error::IncorrectSubgroup(et));
            },
        }
    }
    let needs_nonzero = match check {
        CheckForCorrectness::OnlyNonZero | CheckForCorrectness::Both => true,
        _ => false,
    };
    if needs_nonzero {
        if g2_is_zero(&point) {
            return Err(Error::PointAtInfinity(et));
        }
    }
    Ok(point)
}

/// `base^exp` in the scalar field, by repeated multiplication.
pub fn scalar_pow(base: &Scalar, exp: usize) -> (r: Scalar)
    requires
        base.wf(),
    ensures
        r.val() == pow_mod(base.val(), exp as nat),
        r.wf(),
{
    let mut r = scalar_from_u64(1);
    let mut i: usize = 0;
    while i < exp
        invariant
            i <= exp,
            base.wf(),
            r.wf(),
            r.val() == pow_mod(base.val(), i as nat),
        decreases exp - i,
    {
        proof {
            crate::modular::lemma_pow_mod_step(base.val(), i as nat);
            crate::modular::lemma_mul_mod_bound(pow_mod(base.val(), i as nat), base.val());
        }
        r = scalar_mul(&r, base);
        i = i + 1;
    }
    r
}

/// Writes `data` into every slot of the region starting at `off`.
fn fill_region(buf: &mut Vec<u8>, off: usize, size: usize, count: usize, data: &Vec<u8>)
    requires
        data@.len() == size,
        off + count * size <= old(buf)@.len(),
    ensures
        final(buf)@.len() == old(buf)@.len(),
        forall|i: nat| i < count ==> slot(final(buf)@, off as nat, size as nat, i) == data@,
        forall|p: int|
            0 <= p < old(buf)@.len() && !(off <= p < off + count * size) ==> final(buf)@[p] == old(
                buf,
            )@[p],
{
    let n = buf.len();
    let mut i: usize = 0;
    while i < count
        invariant
            i <= count,
            data@.len() == size,
            n == old(buf)@.len(),
            off + count * size <= n,
            buf@.len() == old(buf)@.len(),
            forall|j: nat| j < i ==> slot(buf@, off as nat, size as nat, j) == data@,
            forall|p: int|
                0 <= p < old(buf)@.len() && !(off <= p < off + i * size) ==> buf@[p] == old(
                    buf,
                )@[p],
        decreases count - i,
    {
        proof {
            lemma_mul_succ(i as nat, size as nat);
            lemma_mul_le((i + 1) as nat, count as nat, size as nat);
        }
        let ghost pre = buf@;
        write_in(buf, off + i * size, data.as_slice());
        proof {
            // Slots below `i` are untouched by this write.
            assert forall|j: nat| j < i implies slot(buf@, off as nat, size as nat, j)
                == data@ by {
                lemma_mul_succ(j as nat, size as nat);
                lemma_mul_le((j + 1) as nat, i as nat, size as nat);
                lemma_mul_le(i as nat, count as nat, size as nat);
                assert(slot(pre, off as nat, size as nat, j) == data@);
                assert(slot_off(off as nat, size as nat, j) + size <= off + i * size);
                assert(pre.len() == buf@.len());
                lemma_subrange_unchanged(
                    pre,
                    buf@,
                    slot_off(off as nat, size as nat, j),
                    slot_off(off as nat, size as nat, j) + size as nat,
                );
            }
        }
        i = i + 1;
    }
}

/// The slot transform of a contribution: whenever the input slot decodes to
/// the `k`-th multiple of the G1 generator, the output slot stores (and
/// decodes back to) the `k * factor`-th multiple.
pub open spec fn spec_g1_slot_mult(
    in_slot: Seq<u8>,
    ci: bool,
    out_slot: Seq<u8>,
    co: bool,
    factor: nat,
) -> bool {
    forall|k: nat|
        #[trigger] g1_parses(in_slot, ci, k) ==> out_slot == g1_store(
            g1_elem(mul_mod(k, factor)),
            co,
        ) && g1_parses(out_slot, co, mul_mod(k, factor))
}

/// The slot transform of a contribution, for G2 slots.
pub open spec fn spec_g2_slot_mult(
    in_slot: Seq<u8>,
    ci: bool,
    out_slot: Seq<u8>,
    co: bool,
    factor: nat,
) -> bool {
    forall|k: nat|
        #[trigger] g2_parses(in_slot, ci, k) ==> out_slot == g2_store(
            g2_elem(mul_mod(k, factor)),
            co,
        ) && g2_parses(out_slot, co, mul_mod(k, factor))
}

/// The scalar by which slot `e` of an array is multiplied: the optional
/// coefficient times the `e`-th power of the participant's tau.
pub open spec fn spec_factor(coeff: nat, base: nat, e: nat) -> nat {
    mul_mod(coeff, pow_mod(base, e))
}

/// The coefficient a region is scaled by (one if absent).
pub open spec fn spec_opt_val(coeff: Option<&Scalar>) -> nat {
    match coeff {
        Some(c) => c.val(),
        None => 1nat,
    }
}

/// Reads `count` G1 elements, multiplies element `i` by
/// `coeff * base^(start_exp + i)`, and stores the results in the output
/// region.  Fails exactly when some input slot fails its checks.
fn apply_powers_g1(
    output: &mut Vec<u8>,
    out_off: usize,
    co: UseCompression,
    input: &[u8],
    in_off: usize,
    ci: UseCompression,
    check: CheckForCorrectness,
    count: usize,
    base: &Scalar,
    start_exp: usize,
    coeff: Option<&Scalar>,
    et: ElementType,
) -> (r: Result<(), Error>)
    requires
        base.wf(),
        coeff is Some ==> coeff->0.wf(),
        in_off + count * g1_enc_size(is_compressed(ci)) <= input@.len(),
        out_off + count * g1_enc_size(is_compressed(co)) <= old(output)@.len(),
        start_exp + count <= usize::MAX,
    ensures
        final(output)@.len() == old(output)@.len(),
        forall|p: int|
            0 <= p < old(output)@.len() && !(out_off <= p < out_off + count * g1_enc_size(
                is_compressed(co),
            )) ==> final(output)@[p] == old(output)@[p],
        r is Ok <==> (forall|i: nat|
            i < count ==> spec_g1_read_ok(
                #[trigger] slot(input@, in_off as nat, g1_enc_size(is_compressed(ci)), i),
                is_compressed(ci),
                check,
            )),
        r is Ok ==> (forall|i: nat|
            i < count ==> spec_g1_slot_mult(
                #[trigger] slot(input@, in_off as nat, g1_enc_size(is_compressed(ci)), i),
                is_compressed(ci),
                slot(final(output)@, out_off as nat, g1_enc_size(is_compressed(co)), i),
                is_compressed(co),
                spec_factor(spec_opt_val(coeff), base.val(), (start_exp + i) as nat),
            )),
{
    let cbi = compressed_flag(ci);
    let cbo = compressed_flag(co);
    let s_in: usize = if cbi { 48 } else { 96 };
    let s_out: usize = if cbo { 48 } else { 96 };
    let n_in = input.len();
    let n_out = output.len();
    let one = scalar_from_u64(1);
    let mut cur = scalar_pow(base, start_exp);
    let mut i: usize = 0;
    while i < count
        invariant
            i <= count,
            base.wf(),
            coeff is Some ==> coeff->0.wf(),
            cur.wf(),
            one.val() == 1,
            cur.val() == pow_mod(base.val(), (start_exp + i) as nat),
            cbi == is_compressed(ci),
            cbo == is_compressed(co),
            s_in == g1_enc_size(cbi),
            s_out == g1_enc_size(cbo),
            n_in == input@.len(),
            n_out == old(output)@.len(),
            in_off + count * s_in <= n_in,
            out_off + count * s_out <= n_out,
            start_exp + count <= usize::MAX,
            output@.len() == old(output)@.len(),
            forall|j: nat|
                j < i ==> spec_g1_read_ok(
                    #[trigger] slot(input@, in_off as nat, s_in as nat, j),
                    cbi,
                    check,
                ),
            forall|j: nat|
                j < i ==> spec_g1_slot_mult(
                    #[trigger] slot(input@, in_off as nat, s_in as nat, j),
                    cbi,
                    slot(output@, out_off as nat, s_out as nat, j),
                    cbo,
                    spec_factor(spec_opt_val(coeff), base.val(), (start_exp + j) as nat),
                ),
            forall|p: int|
                0 <= p < old(output)@.len() && !(out_off <= p < out_off + i * s_out)
                    ==> output@[p] == old(output)@[p],
        decreases count - i,
    {
        proof {
            lemma_mul_succ(i as nat, s_in as nat);
            lemma_mul_le((i + 1) as nat, count as nat, s_in as nat);
            lemma_mul_succ(i as nat, s_out as nat);
            lemma_mul_le((i + 1) as nat, count as nat, s_out as nat);
        }
        let ghost in_slot = slot(input@, in_off as nat, s_in as nat, i as nat);
        proof {
            assert(in_slot == input@.subrange(
                (in_off + i * s_in) as int,
                (in_off + i * s_in + s_in) as int,
            ));
        }
        let p = match read_g1_at(input, in_off + i * s_in, ci, check, et) {
            Ok(p) => p,
            Err(e) => {
                proof {
                    assert(!spec_g1_read_ok(in_slot, cbi, check));
                }
                return Err(e);
            },
        };
        let factor = match coeff {
            Some(cf) => scalar_mul(cf, &cur),
            None => scalar_mul(&one, &cur),
        };
        let q = g1_mul(&p, &factor);
        let bytes = g1_write(&q, cbo);
        let ghost pre = output@;
        write_in(output, out_off + i * s_out, bytes.as_slice());
        proof {
            // The freshly written slot satisfies the transform.
            let out_slot = slot(output@, out_off as nat, s_out as nat, i as nat);
            assert(out_slot == bytes@);
            assert forall|k: nat| #[trigger] g1_parses(in_slot, cbi, k) implies out_slot
                == g1_store(g1_elem(mul_mod(k, factor.val())), cbo) && g1_parses(
                out_slot,
                cbo,
                mul_mod(k, factor.val()),
            ) by {
                assert(p.repr() == g1_elem(k));
            }
            // Earlier slots were not touched by this write.
            assert forall|j: nat| j < i implies spec_g1_slot_mult(
                slot(input@, in_off as nat, s_in as nat, j),
                cbi,
                slot(output@, out_off as nat, s_out as nat, j),
                cbo,
                spec_factor(spec_opt_val(coeff), base.val(), (start_exp + j) as nat),
            ) by {
                lemma_mul_succ(j, s_out as nat);
                lemma_mul_le(j + 1, i as nat, s_out as nat);
                lemma_mul_le(i as nat, count as nat, s_out as nat);
                lemma_subrange_unchanged(
                    pre,
                    output@,
                    slot_off(out_off as nat, s_out as nat, j),
                    slot_off(out_off as nat, s_out as nat, j) + s_out as nat,
                );
                assert(slot(output@, out_off as nat, s_out as nat, j) == slot(
                    pre,
                    out_off as nat,
                    s_out as nat,
                    j,
                ));
            }
            crate::modular::lemma_pow_mod_step(base.val(), (start_exp + i) as nat);
            crate::modular::lemma_mul_mod_bound(pow_mod(base.val(), (start_exp + i) as nat), base.val());
        }
        cur = scalar_mul(&cur, base);
        i = i + 1;
    }
    Ok(())
}

/// Reads `count` G2 elements, multiplies element `i` by
/// `coeff * base^(start_exp + i)`, and stores the results.
fn apply_powers_g2(
    output: &mut Vec<u8>,
    out_off: usize,
    co: UseCompression,
    input: &[u8],
    in_off: usize,
    ci: UseCompression,
    check: CheckForCorrectness,
    count: usize,
    base: &Scalar,
    start_exp: usize,
    coeff: Option<&Scalar>,
    et: ElementType,
) -> (r: Result<(), Error>)
    requires
        base.wf(),
        coeff is Some ==> coeff->0.wf(),
        in_off + count * g2_enc_size(is_compressed(ci)) <= input@.len(),
        out_off + count * g2_enc_size(is_compressed(co)) <= old(output)@.len(),
        start_exp + count <= usize::MAX,
    ensures
        final(output)@.len() == old(output)@.len(),
        forall|p: int|
            0 <= p < old(output)@.len() && !(out_off <= p < out_off + count * g2_enc_size(
                is_compressed(co),
            )) ==> final(output)@[p] == old(output)@[p],
        r is Ok <==> (forall|i: nat|
            i < count ==> spec_g2_read_ok(
                #[trigger] slot(input@, in_off as nat, g2_enc_size(is_compressed(ci)), i),
                is_compressed(ci),
                check,
            )),
        r is Ok ==> (forall|i: nat|
            i < count ==> spec_g2_slot_mult(
                #[trigger] slot(input@, in_off as nat, g2_enc_size(is_compressed(ci)), i),
                is_compressed(ci),
                slot(final(output)@, out_off as nat, g2_enc_size(is_compressed(co)), i),
                is_compressed(co),
                spec_factor(spec_opt_val(coeff), base.val(), (start_exp + i) as nat),
            )),
{
    let cbi = compressed_flag(ci);
    let cbo = compressed_flag(co);
    let s_in: usize = if cbi { 96 } else { 192 };
    let s_out: usize = if cbo { 96 } else { 192 };
    let n_in = input.len();
    let n_out = output.len();
    let one = scalar_from_u64(1);
    let mut cur = scalar_pow(base, start_exp);
    let mut i: usize = 0;
    while i < count
        invariant
            i <= count,
            base.wf(),
            coeff is Some ==> coeff->0.wf(),
            cur.wf(),
            one.val() == 1,
            cur.val() == pow_mod(base.val(), (start_exp + i) as nat),
            cbi == is_compressed(ci),
            cbo == is_compressed(co),
            s_in == g2_enc_size(cbi),
            s_out == g2_enc_size(cbo),
            n_in == input@.len(),
            n_out == old(output)@.len(),
            in_off + count * s_in <= n_in,
            out_off + count * s_out <= n_out,
            start_exp + count <= usize::MAX,
            output@.len() == old(output)@.len(),
            forall|j: nat|
                j < i ==> spec_g2_read_ok(
                    #[trigger] slot(input@, in_off as nat, s_in as nat, j),
                    cbi,
                    check,
                ),
            forall|j: nat|
                j < i ==> spec_g2_slot_mult(
                    #[trigger] slot(input@, in_off as nat, s_in as nat, j),
                    cbi,
                    slot(output@, out_off as nat, s_out as nat, j),
                    cbo,
                    spec_factor(spec_opt_val(coeff), base.val(), (start_exp + j) as nat),
                ),
            forall|p: int|
                0 <= p < old(output)@.len() && !(out_off <= p < out_off + i * s_out)
                    ==> output@[p] == old(output)@[p],
        decreases count - i,
    {
        proof {
            lemma_mul_succ(i as nat, s_in as nat);
            lemma_mul_le((i + 1) as nat, count as nat, s_in as nat);
            lemma_mul_succ(i as nat, s_out as nat);
            lemma_mul_le((i + 1) as nat, count as nat, s_out as nat);
        }
        let ghost in_slot = slot(input@, in_off as nat, s_in as nat, i as nat);
        proof {
            assert(in_slot == input@.subrange(
                (in_off + i * s_in) as int,
                (in_off + i * s_in + s_in) as int,
            ));
        }
        let p = match read_g2_at(input, in_off + i * s_in, ci, check, et) {
            Ok(p) => p,
            Err(e) => {
                proof {
                    assert(!spec_g2_read_ok(in_slot, cbi, check));
                }
                return Err(e);
            },
        };
        let factor = match coeff {
            Some(cf) => scalar_mul(cf, &cur),
            None => scalar_mul(&one, &cur),
        };
        let q = g2_mul(&p, &factor);
        let bytes = g2_write(&q, cbo);
        let ghost pre = output@;
        write_in(output, out_off + i * s_out, bytes.as_slice());
        proof {
            let out_slot = slot(output@, out_off as nat, s_out as nat, i as nat);
            assert(out_slot == bytes@);
            assert forall|k: nat| #[trigger] g2_parses(in_slot, cbi, k) implies out_slot
                == g2_store(g2_elem(mul_mod(k, factor.val())), cbo) && g2_parses(
                out_slot,
                cbo,
                mul_mod(k, factor.val()),
            ) by {
                assert(p.repr() == g2_elem(k));
            }
            assert forall|j: nat| j < i implies spec_g2_slot_mult(
                slot(input@, in_off as nat, s_in as nat, j),
                cbi,
                slot(output@, out_off as nat, s_out as nat, j),
                cbo,
                spec_factor(spec_opt_val(coeff), base.val(), (start_exp + j) as nat),
            ) by {
                lemma_mul_succ(j, s_out as nat);
                lemma_mul_le(j + 1, i as nat, s_out as nat);
                lemma_mul_le(i as nat, count as nat, s_out as nat);
                lemma_subrange_unchanged(
                    pre,
                    output@,
                    slot_off(out_off as nat, s_out as nat, j),
                    slot_off(out_off as nat, s_out as nat, j) + s_out as nat,
                );
                assert(slot(output@, out_off as nat, s_out as nat, j) == slot(
                    pre,
                    out_off as nat,
                    s_out as nat,
                    j,
                ));
            }
            crate::modular::lemma_pow_mod_step(base.val(), (start_exp + i) as nat);
            crate::modular::lemma_mul_mod_bound(pow_mod(base.val(), (start_exp + i) as nat), base.val());
        }
        cur = scalar_mul(&cur, base);
        i = i + 1;
    }
    Ok(())
}

/// Every element slot of the buffer holds the generator of its group, and
/// decodes back to it.
pub open spec fn spec_initialized(buf: Seq<u8>, c: UseCompression, params: CeremonyParams) -> bool {
    let gl = chunk_glayout(params, c);
    let cb = is_compressed(c);
    &&& forall|i: nat|
        i < gl.g1c ==> slot(buf, gl.tau_g1, gl.g1s, i) == g1_store(g1_elem(1), cb) && g1_parses(
            #[trigger] slot(buf, gl.tau_g1, gl.g1s, i),
            cb,
            1,
        )
    &&& forall|i: nat|
        i < gl.oc ==> slot(buf, gl.tau_g2, gl.g2s, i) == g2_store(g2_elem(1), cb) && g2_parses(
            #[trigger] slot(buf, gl.tau_g2, gl.g2s, i),
            cb,
            1,
        )
    &&& forall|i: nat|
        i < gl.oc ==> slot(buf, gl.alpha_g1, gl.g1s, i) == g1_store(g1_elem(1), cb) && g1_parses(
            #[trigger] slot(buf, gl.alpha_g1, gl.g1s, i),
            cb,
            1,
        )
    &&& forall|i: nat|
        i < gl.oc ==> slot(buf, gl.beta_g1, gl.g1s, i) == g1_store(g1_elem(1), cb) && g1_parses(
            #[trigger] slot(buf, gl.beta_g1, gl.g1s, i),
            cb,
            1,
        )
    &&& slot(buf, gl.beta_g2, gl.g2s, 0) == g2_store(g2_elem(1), cb)
    &&& g2_parses(slot(buf, gl.beta_g2, gl.g2s, 0), cb, 1)
}

/// Fills the output buffer with an empty accumulator: the generator in every
/// element slot, and a zeroed digest prefix.
#[verifier::rlimit(100)]
#[verifier::spinoff_prover]
pub fn init(output: &mut Vec<u8>, parameters: &CeremonyParams, compressed: UseCompression)
    requires
        parameters.wf(),
        parameters.curve.is_engine_curve(),
        old(output)@.len() >= spec_chunk_len(*parameters, compressed),
    ensures
        final(output)@.len() == old(output)@.len(),
        spec_initialized(final(output)@, compressed, *parameters),
        forall|p: int| 0 <= p < 64 ==> final(output)@[p] == 0u8,
        forall|p: int|
            spec_chunk_len(*parameters, compressed) <= p < old(output)@.len()
                ==> final(output)@[p] == old(output)@[p],
{
    let buffer_len = output.len();
    let layout = Layout::chunk(parameters, compressed);
    proof {
        layout.lemma_gl();
    }
    let cb = compressed_flag(compressed);
    let zeros: Vec<u8> = vec![0u8; 64];
    write_in(output, 0, zeros.as_slice());
    let g1 = g1_generator();
    let g2 = g2_generator();
    let g1_bytes = g1_write(&g1, cb);
    let g2_bytes = g2_write(&g2, cb);
    let ghost s0 = output@;
    fill_region(output, layout.tau_g1, layout.g1_size, layout.g1_count, &g1_bytes);
    let ghost s1 = output@;
    fill_region(output, layout.tau_g2, layout.g2_size, layout.other_count, &g2_bytes);
    let ghost s2 = output@;
    fill_region(output, layout.alpha_g1, layout.g1_size, layout.other_count, &g1_bytes);
    let ghost s3 = output@;
    fill_region(output, layout.beta_g1, layout.g1_size, layout.other_count, &g1_bytes);
    let ghost s4 = output@;
    fill_region(output, layout.beta_g2, layout.g2_size, 1, &g2_bytes);
    proof {
        let gl = chunk_glayout(*parameters, compressed);
        let cb = is_compressed(compressed);
        assert(gl == layout.gl());
        // Later fills only touch bytes at or above their region offset, so
        // each region survives the writes that follow it.
        assert forall|p: int| 0 <= p < gl.tau_g2 implies s1[p] == output@[p] by {
            assert(s1[p] == s2[p]);
            assert(s2[p] == s3[p]);
            assert(s3[p] == s4[p]);
            assert(s4[p] == output@[p]);
        }
        assert forall|p: int| 0 <= p < gl.alpha_g1 implies s2[p] == output@[p] by {
            assert(s2[p] == s3[p]);
            assert(s3[p] == s4[p]);
            assert(s4[p] == output@[p]);
        }
        assert forall|p: int| 0 <= p < gl.beta_g1 implies s3[p] == output@[p] by {
            assert(s3[p] == s4[p]);
            assert(s4[p] == output@[p]);
        }
        assert forall|p: int| 0 <= p < gl.beta_g2 implies s4[p] == output@[p] by {
            assert(s4[p] == output@[p]);
        }
        assert forall|i: nat| i < gl.g1c implies slot(output@, gl.tau_g1, gl.g1s, i) == g1_store(
            g1_elem(1),
            cb,
        ) && g1_parses(slot(output@, gl.tau_g1, gl.g1s, i), cb, 1) by {
            lemma_mul_succ(i, gl.g1s);
            lemma_mul_le(i + 1, gl.g1c, gl.g1s);
            lemma_subrange_unchanged(
                s1,
                output@,
                slot_off(gl.tau_g1, gl.g1s, i),
                slot_off(gl.tau_g1, gl.g1s, i) + gl.g1s,
            );
            assert(slot(s1, gl.tau_g1, gl.g1s, i) == g1_bytes@);
            assert(slot(output@, gl.tau_g1, gl.g1s, i) == slot(s1, gl.tau_g1, gl.g1s, i));
        }
        assert forall|i: nat| i < gl.oc implies slot(output@, gl.tau_g2, gl.g2s, i) == g2_store(
            g2_elem(1),
            cb,
        ) && g2_parses(slot(output@, gl.tau_g2, gl.g2s, i), cb, 1) by {
            lemma_mul_succ(i, gl.g2s);
            lemma_mul_le(i + 1, gl.oc, gl.g2s);
            lemma_subrange_unchanged(
                s2,
                output@,
                slot_off(gl.tau_g2, gl.g2s, i),
                slot_off(gl.tau_g2, gl.g2s, i) + gl.g2s,
            );
            assert(slot(s2, gl.tau_g2, gl.g2s, i) == g2_bytes@);
            assert(slot(output@, gl.tau_g2, gl.g2s, i) == slot(s2, gl.tau_g2, gl.g2s, i));
        }
        assert forall|i: nat| i < gl.oc implies slot(output@, gl.alpha_g1, gl.g1s, i) == g1_store(
            g1_elem(1),
            cb,
        ) && g1_parses(slot(output@, gl.alpha_g1, gl.g1s, i), cb, 1) by {
            lemma_mul_succ(i, gl.g1s);
            lemma_mul_le(i + 1, gl.oc, gl.g1s);
            lemma_subrange_unchanged(
                s3,
                output@,
                slot_off(gl.alpha_g1, gl.g1s, i),
                slot_off(gl.alpha_g1, gl.g1s, i) + gl.g1s,
            );
            assert(slot(s3, gl.alpha_g1, gl.g1s, i) == g1_bytes@);
            assert(slot(output@, gl.alpha_g1, gl.g1s, i) == slot(s3, gl.alpha_g1, gl.g1s, i));
        }
        assert forall|i: nat| i < gl.oc implies slot(output@, gl.beta_g1, gl.g1s, i) == g1_store(
            g1_elem(1),
            cb,
        ) && g1_parses(slot(output@, gl.beta_g1, gl.g1s, i), cb, 1) by {
            lemma_mul_succ(i, gl.g1s);
            lemma_mul_le(i + 1, gl.oc, gl.g1s);
            lemma_subrange_unchanged(
                s4,
                output@,
                slot_off(gl.beta_g1, gl.g1s, i),
                slot_off(gl.beta_g1, gl.g1s, i) + gl.g1s,
            );
            assert(slot(s4, gl.beta_g1, gl.g1s, i) == g1_bytes@);
            assert(slot(output@, gl.beta_g1, gl.g1s, i) == slot(s4, gl.beta_g1, gl.g1s, i));
        }
        assert(slot(output@, gl.beta_g2, gl.g2s, 0) == g2_store(g2_elem(1), cb)) by {
            assert(0 * gl.g2s == 0) by (nonlinear_arith);
        }
        assert(g2_parses(slot(output@, gl.beta_g2, gl.g2s, 0), cb, 1));
        assert forall|p: int| 0 <= p < 64 implies output@[p] == 0u8 by {
            assert(s0[p] == zeros@[p]);
            assert(s0[p] == s1[p]);
            assert(s1[p] == output@[p]);
        }
        assert forall|p: int|
            spec_chunk_len(*parameters, compressed) <= p < old(output)@.len() implies output@[p]
            == old(output)@[p] by {
            assert(gl.total == spec_chunk_len(*parameters, compressed));
            assert(old(output)@[p] == s0[p]);
            assert(s0[p] == s1[p]);
            assert(s1[p] == s2[p]);
            assert(s2[p] == s3[p]);
            assert(s3[p] == s4[p]);
            assert(s4[p] == output@[p]);
        }
    }
}

/// All element slots of a buffer pass the read checks.
pub open spec fn spec_inputs_ok(
    inb: Seq<u8>,
    ci: UseCompression,
    check: CheckForCorrectness,
    params: CeremonyParams,
) -> bool {
    let gi = chunk_glayout(params, ci);
    let cb = is_compressed(ci);
    &&& forall|i: nat|
        i < gi.g1c ==> spec_g1_read_ok(#[trigger] slot(inb, gi.tau_g1, gi.g1s, i), cb, check)
    &&& forall|i: nat|
        i < gi.oc ==> spec_g2_read_ok(#[trigger] slot(inb, gi.tau_g2, gi.g2s, i), cb, check)
    &&& forall|i: nat|
        i < gi.oc ==> spec_g1_read_ok(#[trigger] slot(inb, gi.alpha_g1, gi.g1s, i), cb, check)
    &&& forall|i: nat|
        i < gi.oc ==> spec_g1_read_ok(#[trigger] slot(inb, gi.beta_g1, gi.g1s, i), cb, check)
    &&& spec_g2_read_ok(slot(inb, gi.beta_g2, gi.g2s, 0), cb, check)
}

/// The output buffer is the input accumulator raised to the powers of the
/// secrets `(tau, alpha, beta)`: absolute element `e` of TauG1 and TauG2 is
/// multiplied by `tau^e`, of AlphaG1 by `alpha * tau^e`, of BetaG1 by
/// `beta * tau^e`, and the BetaG2 singleton by `beta`.
pub open spec fn spec_contributed(
    inb: Seq<u8>,
    ci: UseCompression,
    outb: Seq<u8>,
    co: UseCompression,
    params: CeremonyParams,
    tau: nat,
    alpha: nat,
    beta: nat,
) -> bool {
    let gi = chunk_glayout(params, ci);
    let go = chunk_glayout(params, co);
    let cbi = is_compressed(ci);
    let cbo = is_compressed(co);
    let cs = params.spec_chunk_start();
    &&& forall|i: nat|
        i < gi.g1c ==> spec_g1_slot_mult(
            #[trigger] slot(inb, gi.tau_g1, gi.g1s, i),
            cbi,
            slot(outb, go.tau_g1, go.g1s, i),
            cbo,
            spec_factor(1, tau, cs + i),
        )
    &&& forall|i: nat|
        i < gi.oc ==> spec_g2_slot_mult(
            #[trigger] slot(inb, gi.tau_g2, gi.g2s, i),
            cbi,
            slot(outb, go.tau_g2, go.g2s, i),
            cbo,
            spec_factor(1, tau, cs + i),
        )
    &&& forall|i: nat|
        i < gi.oc ==> spec_g1_slot_mult(
            #[trigger] slot(inb, gi.alpha_g1, gi.g1s, i),
            cbi,
            slot(outb, go.alpha_g1, go.g1s, i),
            cbo,
            spec_factor(alpha, tau, cs + i),
        )
    &&& forall|i: nat|
        i < gi.oc ==> spec_g1_slot_mult(
            #[trigger] slot(inb, gi.beta_g1, gi.g1s, i),
            cbi,
            slot(outb, go.beta_g1, go.g1s, i),
            cbo,
            spec_factor(beta, tau, cs + i),
        )
    &&& spec_g2_slot_mult(
        slot(inb, gi.beta_g2, gi.g2s, 0),
        cbi,
        slot(outb, go.beta_g2, go.g2s, 0),
        cbo,
        spec_factor(beta, tau, 0),
    )
}

/// First absolute element index of this participant's chunk.
pub fn chunk_start(parameters: &CeremonyParams) -> (r: usize)
    requires
        parameters.wf(),
    ensures
        r == parameters.spec_chunk_start(),
{
    match parameters.contribution_mode {
        crate::params::ContributionMode::Full => 0,
        crate::params::ContributionMode::Chunked => {
            proof {
                lemma_mul_le(
                    parameters.chunk_index as nat,
                    (parameters.chunk_index + 1) as nat,
                    parameters.chunk_size as nat,
                );
            }
            parameters.chunk_index * parameters.chunk_size
        },
    }
}

/// The chunk's absolute element range stays within `usize`.
pub proof fn lemma_chunk_counts(params: CeremonyParams)
    requires
        params.wf(),
    ensures
        params.spec_chunk_start() + params.spec_g1_count() <= usize::MAX,
        params.spec_chunk_start() + params.spec_other_count() <= usize::MAX,
{
    match params.contribution_mode {
        crate::params::ContributionMode::Full => {},
        crate::params::ContributionMode::Chunked => {
            lemma_mul_succ(params.chunk_index as nat, params.chunk_size as nat);
        },
    }
}

/// Applies the secrets of one participant to an accumulator buffer.
///
/// On success the output is the contributed accumulator; the digest prefix
/// is left untouched.  The call succeeds exactly when every input element
/// passes the requested checks.
#[verifier::rlimit(100)]
#[verifier::spinoff_prover]
pub fn contribute(
    input: &[u8],
    compressed_input: UseCompression,
    check_input: CheckForCorrectness,
    output: &mut Vec<u8>,
    compressed_output: UseCompression,
    key: &PrivateKey,
    parameters: &CeremonyParams,
) -> (r: Result<(), Error>)
    requires
        parameters.wf(),
        parameters.curve.is_engine_curve(),
        key.wf(),
        input@.len() >= spec_chunk_len(*parameters, compressed_input),
        old(output)@.len() >= spec_chunk_len(*parameters, compressed_output),
    ensures
        final(output)@.len() == old(output)@.len(),
        forall|p: int| 0 <= p < 64 ==> final(output)@[p] == old(output)@[p],
        forall|p: int|
            spec_chunk_len(*parameters, compressed_output) <= p < old(output)@.len()
                ==> final(output)@[p] == old(output)@[p],
        r is Ok <==> spec_inputs_ok(input@, compressed_input, check_input, *parameters),
        r is Ok ==> spec_contributed(
            input@,
            compressed_input,
            final(output)@,
            compressed_output,
            *parameters,
            key.tau.val(),
            key.alpha.val(),
            key.beta.val(),
        ),
{
    let n_in = input.len();
    let n_out = output.len();
    let li = Layout::chunk(parameters, compressed_input);
    let lo = Layout::chunk(parameters, compressed_output);
    proof {
        li.lemma_gl();
        lo.lemma_gl();
        lemma_chunk_counts(*parameters);
        assert(1 * (li.g2_size as nat) == li.g2_size as nat) by (nonlinear_arith);
        assert(1 * (lo.g2_size as nat) == lo.g2_size as nat) by (nonlinear_arith);
        assert(chunk_glayout(*parameters, compressed_input) == li.gl());
        assert(chunk_glayout(*parameters, compressed_output) == lo.gl());
    }
    let cs = chunk_start(parameters);
    let ghost s0 = output@;
    match apply_powers_g1(
        output,
        lo.tau_g1,
        compressed_output,
        input,
        li.tau_g1,
        compressed_input,
        check_input,
        li.g1_count,
        &key.tau,
        cs,
        None,
        ElementType::TauG1,
    ) {
        Ok(()) => (),
        Err(e) => {
            proof {
                let gi = chunk_glayout(*parameters, compressed_input);
                let cbi = is_compressed(compressed_input);
                let i0 = choose|i: nat|
                    i < li.g1_count && !spec_g1_read_ok(
                        #[trigger] slot(input@, li.tau_g1 as nat, g1_enc_size(cbi), i),
                        cbi,
                        check_input,
                    );
                assert(!spec_g1_read_ok(slot(input@, gi.tau_g1, gi.g1s, i0), cbi, check_input));
            }
            return Err(e);
        },
    }
    let ghost s1 = output@;
    match apply_powers_g2(
        output,
        lo.tau_g2,
        compressed_output,
        input,
        li.tau_g2,
        compressed_input,
        check_input,
        li.other_count,
        &key.tau,
        cs,
        None,
        ElementType::TauG2,
    ) {
        Ok(()) => (),
        Err(e) => {
            proof {
                let gi = chunk_glayout(*parameters, compressed_input);
                let cbi = is_compressed(compressed_input);
                let i0 = choose|i: nat|
                    i < li.other_count && !spec_g2_read_ok(
                        #[trigger] slot(input@, li.tau_g2 as nat, g2_enc_size(cbi), i),
                        cbi,
                        check_input,
                    );
                assert(!spec_g2_read_ok(slot(input@, gi.tau_g2, gi.g2s, i0), cbi, check_input));
            }
            return Err(e);
        },
    }
    let ghost s2 = output@;
    match apply_powers_g1(
        output,
        lo.alpha_g1,
        compressed_output,
        input,
        li.alpha_g1,
        compressed_input,
        check_input,
        li.other_count,
        &key.tau,
        cs,
        Some(&key.alpha),
        ElementType::AlphaG1,
    ) {
        Ok(()) => (),
        Err(e) => {
            proof {
                let gi = chunk_glayout(*parameters, compressed_input);
                let cbi = is_compressed(compressed_input);
                let i0 = choose|i: nat|
                    i < li.other_count && !spec_g1_read_ok(
                        #[trigger] slot(input@, li.alpha_g1 as nat, g1_enc_size(cbi), i),
                        cbi,
                        check_input,
                    );
                assert(!spec_g1_read_ok(slot(input@, gi.alpha_g1, gi.g1s, i0), cbi, check_input));
            }
            return Err(e);
        },
    }
    let ghost s3 = output@;
    match apply_powers_g1(
        output,
        lo.beta_g1,
        compressed_output,
        input,
        li.beta_g1,
        compressed_input,
        check_input,
        li.other_count,
        &key.tau,
        cs,
        Some(&key.beta),
        ElementType::BetaG1,
    ) {
        Ok(()) => (),
        Err(e) => {
            proof {
                let gi = chunk_glayout(*parameters, compressed_input);
                let cbi = is_compressed(compressed_input);
                let i0 = choose|i: nat|
                    i < li.other_count && !spec_g1_read_ok(
                        #[trigger] slot(input@, li.beta_g1 as nat, g1_enc_size(cbi), i),
                        cbi,
                        check_input,
                    );
                assert(!spec_g1_read_ok(slot(input@, gi.beta_g1, gi.g1s, i0), cbi, check_input));
            }
            return Err(e);
        },
    }
    let ghost s4 = output@;
    match apply_powers_g2(
        output,
        lo.beta_g2,
        compressed_output,
        input,
        li.beta_g2,
        compressed_input,
        check_input,
        1,
        &key.tau,
        0,
        Some(&key.beta),
        ElementType::BetaG2,
    ) {
        Ok(()) => (),
        Err(e) => {
            proof {
                assert(!spec_g2_read_ok(
                    slot(
                        input@,
                        li.beta_g2 as nat,
                        g2_enc_size(is_compressed(compressed_input)),
                        0,
                    ),
                    is_compressed(compressed_input),
                    check_input,
                ));
            }
            return Err(e);
        },
    }
    proof {
        let gi = chunk_glayout(*parameters, compressed_input);
        let go = chunk_glayout(*parameters, compressed_output);
        let cbi = is_compressed(compressed_input);
        let cbo = is_compressed(compressed_output);
        assert(gi == li.gl());
        assert(go == lo.gl());
        assert(gi.g1s == g1_enc_size(cbi));
        assert(gi.g2s == g2_enc_size(cbi));
        assert(go.g1s == g1_enc_size(cbo));
        assert(go.g2s == g2_enc_size(cbo));
        assert(spec_opt_val(None) == 1);
        assert(spec_opt_val(Some(&key.alpha)) == key.alpha.val());
        assert(spec_opt_val(Some(&key.beta)) == key.beta.val());
        assert forall|p: int| 0 <= p < go.tau_g2 implies s1[p] == output@[p] by {
            assert(s1[p] == s2[p]);
            assert(s2[p] == s3[p]);
            assert(s3[p] == s4[p]);
            assert(s4[p] == output@[p]);
        }
        assert forall|p: int| 0 <= p < go.alpha_g1 implies s2[p] == output@[p] by {
            assert(s2[p] == s3[p]);
            assert(s3[p] == s4[p]);
            assert(s4[p] == output@[p]);
        }
        assert forall|p: int| 0 <= p < go.beta_g1 implies s3[p] == output@[p] by {
            assert(s3[p] == s4[p]);
            assert(s4[p] == output@[p]);
        }
        assert forall|p: int| 0 <= p < go.beta_g2 implies s4[p] == output@[p] by {
            assert(s4[p] == output@[p]);
        }
        assert forall|i: nat| i < gi.g1c implies spec_g1_slot_mult(
            slot(input@, gi.tau_g1, gi.g1s, i),
            cbi,
            slot(output@, go.tau_g1, go.g1s, i),
            cbo,
            spec_factor(1, key.tau.val(), parameters.spec_chunk_start() + i),
        ) by {
            lemma_mul_succ(i, go.g1s);
            lemma_mul_le(i + 1, go.g1c, go.g1s);
            lemma_subrange_unchanged(
                s1,
                output@,
                slot_off(go.tau_g1, go.g1s, i),
                slot_off(go.tau_g1, go.g1s, i) + go.g1s,
            );
            assert(slot(output@, go.tau_g1, go.g1s, i) == slot(s1, go.tau_g1, go.g1s, i));
            assert(spec_g1_slot_mult(
                slot(input@, gi.tau_g1, gi.g1s, i),
                cbi,
                slot(s1, go.tau_g1, go.g1s, i),
                cbo,
                spec_factor(1, key.tau.val(), parameters.spec_chunk_start() + i),
            ));
        }
        assert forall|i: nat| i < gi.oc implies spec_g2_slot_mult(
            slot(input@, gi.tau_g2, gi.g2s, i),
            cbi,
            slot(output@, go.tau_g2, go.g2s, i),
            cbo,
            spec_factor(1, key.tau.val(), parameters.spec_chunk_start() + i),
        ) by {
            lemma_mul_succ(i, go.g2s);
            lemma_mul_le(i + 1, go.oc, go.g2s);
            lemma_subrange_unchanged(
                s2,
                output@,
                slot_off(go.tau_g2, go.g2s, i),
                slot_off(go.tau_g2, go.g2s, i) + go.g2s,
            );
            assert(slot(output@, go.tau_g2, go.g2s, i) == slot(s2, go.tau_g2, go.g2s, i));
            assert(spec_g2_slot_mult(
                slot(input@, gi.tau_g2, gi.g2s, i),
                cbi,
                slot(s2, go.tau_g2, go.g2s, i),
                cbo,
                spec_factor(1, key.tau.val(), parameters.spec_chunk_start() + i),
            ));
        }
        assert forall|i: nat| i < gi.oc implies spec_g1_slot_mult(
            slot(input@, gi.alpha_g1, gi.g1s, i),
            cbi,
            slot(output@, go.alpha_g1, go.g1s, i),
            cbo,
            spec_factor(key.alpha.val(), key.tau.val(), parameters.spec_chunk_start() + i),
        ) by {
            lemma_mul_succ(i, go.g1s);
            lemma_mul_le(i + 1, go.oc, go.g1s);
            lemma_subrange_unchanged(
                s3,
                output@,
                slot_off(go.alpha_g1, go.g1s, i),
                slot_off(go.alpha_g1, go.g1s, i) + go.g1s,
            );
            assert(slot(output@, go.alpha_g1, go.g1s, i) == slot(s3, go.alpha_g1, go.g1s, i));
            assert(spec_g1_slot_mult(
                slot(input@, gi.alpha_g1, gi.g1s, i),
                cbi,
                slot(s3, go.alpha_g1, go.g1s, i),
                cbo,
                spec_factor(key.alpha.val(), key.tau.val(), parameters.spec_chunk_start() + i),
            ));
        }
        assert forall|i: nat| i < gi.oc implies spec_g1_slot_mult(
            slot(input@, gi.beta_g1, gi.g1s, i),
            cbi,
            slot(output@, go.beta_g1, go.g1s, i),
            cbo,
            spec_factor(key.beta.val(), key.tau.val(), parameters.spec_chunk_start() + i),
        ) by {
            lemma_mul_succ(i, go.g1s);
            lemma_mul_le(i + 1, go.oc, go.g1s);
            lemma_subrange_unchanged(
                s4,
                output@,
                slot_off(go.beta_g1, go.g1s, i),
                slot_off(go.beta_g1, go.g1s, i) + go.g1s,
            );
            assert(slot(output@, go.beta_g1, go.g1s, i) == slot(s4, go.beta_g1, go.g1s, i));
            assert(spec_g1_slot_mult(
                slot(input@, gi.beta_g1, gi.g1s, i),
                cbi,
                slot(s4, go.beta_g1, go.g1s, i),
                cbo,
                spec_factor(key.beta.val(), key.tau.val(), parameters.spec_chunk_start() + i),
            ));
        }
        assert(slot(output@, go.beta_g2, go.g2s, 0) == output@.subrange(
            go.beta_g2 as int,
            (go.beta_g2 + go.g2s) as int,
        )) by {
            assert(0 * go.g2s == 0) by (nonlinear_arith);
        }
        assert forall|p: int| 0 <= p < 64 implies output@[p] == s0[p] by {
            assert(s0[p] == s1[p]);
            assert(s1[p] == s2[p]);
            assert(s2[p] == s3[p]);
            assert(s3[p] == s4[p]);
            assert(s4[p] == output@[p]);
        }
    }
    Ok(())
}

/// The decoded point of a G1 slot (meaningful when the slot decodes).
pub open spec fn spec_g1_slot_canon(buf: Seq<u8>, off: nat, size: nat, i: nat, cb: bool) -> Seq<u8> {
    g1_canon(slot(buf, off, size, i), cb)->Some_0
}

/// The decoded point of a G2 slot.
pub open spec fn spec_g2_slot_canon(buf: Seq<u8>, off: nat, size: nat, i: nat, cb: bool) -> Seq<u8> {
    g2_canon(slot(buf, off, size, i), cb)->Some_0
}

/// Whenever adjacent G1 slots `i` and `i+1` decode to generator multiples
/// `k1` and `k2`, and the fixed G2 pair are the multiples `m0` and `m1`,
/// their cross products agree: `k1 * m1 == k2 * m0` in the scalar field.
/// This is what a passed pairing ratio check certifies.
pub open spec fn spec_pair_cross_g1(
    buf: Seq<u8>,
    off: nat,
    size: nat,
    cb: bool,
    i: nat,
    q0: Seq<u8>,
    q1: Seq<u8>,
) -> bool {
    forall|k1: nat, k2: nat, m0: nat, m1: nat|
        #[trigger] g1_parses(slot(buf, off, size, i), cb, k1) && #[trigger] g1_parses(
            slot(buf, off, size, i + 1),
            cb,
            k2,
        ) && q0 == #[trigger] g2_elem(m0) && q1 == #[trigger] g2_elem(m1) ==> mul_mod(k1, m1)
            == mul_mod(k2, m0)
}

/// The dual fact for a G2 array checked against a fixed G1 pair.
pub open spec fn spec_pair_cross_g2(
    buf: Seq<u8>,
    off: nat,
    size: nat,
    cb: bool,
    i: nat,
    p0: Seq<u8>,
    p1: Seq<u8>,
) -> bool {
    forall|k0: nat, k1: nat, m1: nat, m2: nat|
        #[trigger] g2_parses(slot(buf, off, size, i), cb, m1) && #[trigger] g2_parses(
            slot(buf, off, size, i + 1),
            cb,
            m2,
        ) && p0 == #[trigger] g1_elem(k0) && p1 == #[trigger] g1_elem(k1) ==> mul_mod(k0, m2)
            == mul_mod(k1, m1)
}

/// The slots of a G1 region all hold the multiples `coeff * x^i`.
pub open spec fn spec_g1_region_powers(
    buf: Seq<u8>,
    off: nat,
    size: nat,
    cb: bool,
    count: nat,
    coeff: nat,
    x: nat,
) -> bool {
    forall|i: nat| i < count ==> g1_parses(#[trigger] slot(buf, off, size, i), cb, mul_mod(coeff, pow_mod(x, i)))
}

/// The slots of a G2 region all hold the multiples `coeff * x^i`.
pub open spec fn spec_g2_region_powers(
    buf: Seq<u8>,
    off: nat,
    size: nat,
    cb: bool,
    count: nat,
    coeff: nat,
    x: nat,
) -> bool {
    forall|i: nat| i < count ==> g2_parses(#[trigger] slot(buf, off, size, i), cb, mul_mod(coeff, pow_mod(x, i)))
}

/// Checks that every adjacent pair of the G1 region at `off` has the same
/// exponent ratio as the fixed G2 pair `(q0, q1)`.
///
/// Succeeds exactly when every slot decodes (and passes `check`) and every
/// pairing test passes; a pass certifies the cross products
/// ([`spec_pair_cross_g1`]), and regions that hold the powers of a unit,
/// checked against `(base, base * x)`, always pass.
fn check_power_ratios(
    buf: &[u8],
    off: usize,
    count: usize,
    c: UseCompression,
    check: CheckForCorrectness,
    q0: &G2Point,
    q1: &G2Point,
    et: ElementType,
) -> (r: Result<(), Error>)
    requires
        off + count * g1_enc_size(is_compressed(c)) <= buf@.len(),
    ensures
        ({
            let cb = is_compressed(c);
            let size = g1_enc_size(cb);
            &&& (r is Ok <==> ((forall|i: nat|
                i < count ==> spec_g1_read_ok(#[trigger] slot(buf@, off as nat, size, i), cb, check))
                && (forall|i: nat|
                i + 1 < count ==> crate::group::pairing_ratio_eq(
                    #[trigger] spec_g1_slot_canon(buf@, off as nat, size, i, cb),
                    spec_g1_slot_canon(buf@, off as nat, size, i + 1, cb),
                    q0.repr(),
                    q1.repr(),
                ))))
            &&& (r is Ok ==> forall|i: nat|
                i + 1 < count ==> #[trigger] spec_pair_cross_g1(
                    buf@,
                    off as nat,
                    size,
                    cb,
                    i,
                    q0.repr(),
                    q1.repr(),
                ))
            &&& (forall|cf: nat, x: nat, m0: nat|
                crate::modular::is_unit(cf) && crate::modular::is_unit(x)
                    && #[trigger] spec_g1_region_powers(buf@, off as nat, size, cb, count as nat, cf, x)
                    && q0.repr() == #[trigger] g2_elem(m0) && q1.repr() == g2_elem(
                    mul_mod(m0, x),
                ) ==> r is Ok)
            &&& (r is Err ==> (r->Err_0 == Error::SerializationFailed(et) || r->Err_0
                == Error::IncorrectSubgroup(et) || r->Err_0 == Error::PointAtInfinity(et)
                || r->Err_0 == Error::InvalidRatio(et)))
        }),
{
    let cb = compressed_flag(c);
    let size: usize = if cb { 48 } else { 96 };
    let n = buf.len();
    let ghost csize = g1_enc_size(is_compressed(c));
    if count == 0 {
        return Ok(());
    }
    proof {
        assert(1 * (size as nat) == size as nat) by (nonlinear_arith);
        lemma_mul_le(1, count as nat, size as nat);
    }
    // Read slot zero once so that a single-element region is still checked.
    let ghost slot0 = slot(buf@, off as nat, csize, 0);
    proof {
        assert(0 * (size as nat) == 0) by (nonlinear_arith);
        assert(slot0 == buf@.subrange(off as int, (off + size) as int));
    }
    match read_g1_at(buf, off, c, check, et) {
        Ok(_) => (),
        Err(e) => {
            proof {
                assert(!spec_g1_read_ok(slot0, is_compressed(c), check));
                ratio_region_complete_contra_g1(
                    buf@, off as nat, csize, is_compressed(c), count as nat, 0,
                    q0.repr(), q1.repr(),
                );
            }
            return Err(e);
        },
    }
    let mut i: usize = 0;
    while i + 1 < count
        invariant
            i < count,
            cb == is_compressed(c),
            csize == g1_enc_size(cb),
            size == csize,
            n == buf@.len(),
            off + count * size <= n,
            forall|j: nat| j <= i ==> spec_g1_read_ok(#[trigger] slot(buf@, off as nat, csize, j), cb, check),
            forall|j: nat|
                j + 1 <= i ==> crate::group::pairing_ratio_eq(
                    #[trigger] spec_g1_slot_canon(buf@, off as nat, csize, j, cb),
                    spec_g1_slot_canon(buf@, off as nat, csize, j + 1, cb),
                    q0.repr(),
                    q1.repr(),
                ),
            forall|j: nat|
                j + 1 <= i ==> #[trigger] spec_pair_cross_g1(
                    buf@,
                    off as nat,
                    csize,
                    cb,
                    j,
                    q0.repr(),
                    q1.repr(),
                ),
        decreases count - i,
    {
        proof {
            lemma_mul_succ(i as nat, size as nat);
            lemma_mul_succ((i + 1) as nat, size as nat);
            lemma_mul_le((i + 2) as nat, count as nat, size as nat);
        }
        let ghost slot_a = slot(buf@, off as nat, csize, i as nat);
        let ghost slot_b = slot(buf@, off as nat, csize, (i + 1) as nat);
        proof {
            assert(slot_a == buf@.subrange(
                (off + i * size) as int,
                (off + i * size + size) as int,
            ));
            assert(slot_b == buf@.subrange(
                (off + (i + 1) * size) as int,
                (off + (i + 1) * size + size) as int,
            ));
        }
        let pa = match read_g1_at(buf, off + i * size, c, check, et) {
            Ok(p) => p,
            Err(e) => {
                proof {
                    ratio_region_complete_contra_g1(
                        buf@, off as nat, csize, cb, count as nat, i as nat, q0.repr(), q1.repr(),
                    );
                }
                return Err(e);
            },
        };
        let pb = match read_g1_at(buf, off + (i + 1) * size, c, check, et) {
            Ok(p) => p,
            Err(e) => {
                proof {
                    ratio_region_complete_contra_g1(
                        buf@, off as nat, csize, cb, count as nat, (i + 1) as nat, q0.repr(), q1.repr(),
                    );
                }
                return Err(e);
            },
        };
        if !crate::group::same_ratio(&pa, &pb, q0, q1) {
            proof {
                assert(!crate::group::pairing_ratio_eq(
                    spec_g1_slot_canon(buf@, off as nat, csize, i as nat, cb),
                    spec_g1_slot_canon(buf@, off as nat, csize, (i + 1) as nat, cb),
                    q0.repr(),
                    q1.repr(),
                ));
                assert forall|cf: nat, x: nat, m0: nat|
                    crate::modular::is_unit(cf) && crate::modular::is_unit(x)
                        && spec_g1_region_powers(buf@, off as nat, csize, cb, count as nat, cf, x)
                        && q0.repr() == g2_elem(m0) && q1.repr() == g2_elem(mul_mod(m0, x))
                    implies false by {
                    let ki = mul_mod(cf, pow_mod(x, i as nat));
                    assert(g1_parses(slot(buf@, off as nat, csize, i as nat), cb, ki));
                    assert(g1_parses(slot(buf@, off as nat, csize, (i + 1) as nat), cb, mul_mod(cf, pow_mod(x, (i + 1) as nat))));
                    crate::modular::lemma_pow_mod_step(x, i as nat);
                    crate::modular::lemma_mul_mod_assoc(cf, pow_mod(x, i as nat), x);
                    assert(mul_mod(cf, pow_mod(x, (i + 1) as nat)) == mul_mod(ki, x));
                    assert(pa.repr() == g1_elem(ki));
                    assert(pb.repr() == g1_elem(mul_mod(ki, x)));
                }
            }
            return Err(Error::InvalidRatio(et));
        }
        proof {
            // A passed check certifies the cross-product equation for this pair.
            assert forall|k1: nat, k2: nat, m0: nat, m1: nat|
                g1_parses(slot(buf@, off as nat, csize, i as nat), cb, k1) && g1_parses(
                    slot(buf@, off as nat, csize, (i + 1) as nat),
                    cb,
                    k2,
                ) && q0.repr() == g2_elem(m0) && q1.repr() == g2_elem(m1) implies mul_mod(k1, m1)
                == mul_mod(k2, m0) by {
                assert(pa.repr() == g1_elem(k1));
                assert(pb.repr() == g1_elem(k2));
            }
            assert(spec_pair_cross_g1(buf@, off as nat, csize, cb, i as nat, q0.repr(), q1.repr()));
        }
        i = i + 1;
    }
    Ok(())
}

/// Contradiction helper: under the powers hypothesis every slot of the
/// region decodes to a nonzero generator multiple, which a read never
/// rejects; so a rejected slot refutes the hypothesis.
proof fn ratio_region_complete_contra_g1(
    buf: Seq<u8>,
    off: nat,
    size: nat,
    cb: bool,
    count: nat,
    i0: nat,
    q0r: Seq<u8>,
    q1r: Seq<u8>,
)
    requires
        i0 < count,
        forall|k: nat|
            0 < k < crate::group::scalar_field_order() ==> g1_canon(slot(buf, off, size, i0), cb)
                != Some(#[trigger] g1_elem(k)),
    ensures
        forall|cf: nat, x: nat, m0: nat|
            crate::modular::is_unit(cf) && crate::modular::is_unit(x)
                && #[trigger] spec_g1_region_powers(buf, off, size, cb, count, cf, x) && q0r
                == #[trigger] g2_elem(m0) && q1r == g2_elem(mul_mod(m0, x)) ==> false,
{
    assert forall|cf: nat, x: nat, m0: nat|
        crate::modular::is_unit(cf) && crate::modular::is_unit(x) && spec_g1_region_powers(
            buf,
            off,
            size,
            cb,
            count,
            cf,
            x,
        ) && q0r == g2_elem(m0) && q1r == g2_elem(mul_mod(m0, x)) implies false by {
        crate::modular::lemma_unit_pow(x, i0);
        crate::modular::lemma_unit_mul(cf, pow_mod(x, i0));
        let k = mul_mod(cf, pow_mod(x, i0));
        assert(g1_parses(slot(buf, off, size, i0), cb, k));
        assert(0 < k < crate::group::scalar_field_order());
    }
}

/// Checks that every adjacent pair of the G2 region at `off` has the same
/// exponent ratio as the fixed G1 pair `(p0, p1)`.
fn check_power_ratios_g2(
    buf: &[u8],
    off: usize,
    count: usize,
    c: UseCompression,
    check: CheckForCorrectness,
    p0: &G1Point,
    p1: &G1Point,
    et: ElementType,
) -> (r: Result<(), Error>)
    requires
        off + count * g2_enc_size(is_compressed(c)) <= buf@.len(),
    ensures
        ({
            let cb = is_compressed(c);
            let size = g2_enc_size(cb);
            &&& (r is Ok <==> ((forall|i: nat|
                i < count ==> spec_g2_read_ok(#[trigger] slot(buf@, off as nat, size, i), cb, check))
                && (forall|i: nat|
                i + 1 < count ==> crate::group::pairing_ratio_eq(
                    p0.repr(),
                    p1.repr(),
                    #[trigger] spec_g2_slot_canon(buf@, off as nat, size, i, cb),
                    spec_g2_slot_canon(buf@, off as nat, size, i + 1, cb),
                ))))
            &&& (r is Ok ==> forall|i: nat|
                i + 1 < count ==> #[trigger] spec_pair_cross_g2(
                    buf@,
                    off as nat,
                    size,
                    cb,
                    i,
                    p0.repr(),
                    p1.repr(),
                ))
            &&& (forall|cf: nat, x: nat, k0: nat|
                crate::modular::is_unit(cf) && crate::modular::is_unit(x)
                    && #[trigger] spec_g2_region_powers(buf@, off as nat, size, cb, count as nat, cf, x)
                    && p0.repr() == #[trigger] g1_elem(k0) && p1.repr() == g1_elem(
                    mul_mod(k0, x),
                ) ==> r is Ok)
            &&& (r is Err ==> (r->Err_0 == Error::SerializationFailed(et) || r->Err_0
                == Error::IncorrectSubgroup(et) || r->Err_0 == Error::PointAtInfinity(et)
                || r->Err_0 == Error::InvalidRatio(et)))
        }),
{
    let cb = compressed_flag(c);
    let size: usize = if cb { 96 } else { 192 };
    let n = buf.len();
    let ghost csize = g2_enc_size(is_compressed(c));
    if count == 0 {
        return Ok(());
    }
    proof {
        assert(1 * (size as nat) == size as nat) by (nonlinear_arith);
        lemma_mul_le(1, count as nat, size as nat);
    }
    let ghost slot0 = slot(buf@, off as nat, csize, 0);
    proof {
        assert(0 * (size as nat) == 0) by (nonlinear_arith);
        assert(slot0 == buf@.subrange(off as int, (off + size) as int));
    }
    match read_g2_at(buf, off, c, check, et) {
        Ok(_) => (),
        Err(e) => {
            proof {
                assert(!spec_g2_read_ok(slot0, is_compressed(c), check));
                ratio_region_complete_contra_g2(
                    buf@, off as nat, csize, is_compressed(c), count as nat, 0,
                    p0.repr(), p1.repr(),
                );
            }
            return Err(e);
        },
    }
    let mut i: usize = 0;
    while i + 1 < count
        invariant
            i < count,
            cb == is_compressed(c),
            csize == g2_enc_size(cb),
            size == csize,
            n == buf@.len(),
            off + count * size <= n,
            forall|j: nat| j <= i ==> spec_g2_read_ok(#[trigger] slot(buf@, off as nat, csize, j), cb, check),
            forall|j: nat|
                j + 1 <= i ==> crate::group::pairing_ratio_eq(
                    p0.repr(),
                    p1.repr(),
                    #[trigger] spec_g2_slot_canon(buf@, off as nat, csize, j, cb),
                    spec_g2_slot_canon(buf@, off as nat, csize, j + 1, cb),
                ),
            forall|j: nat|
                j + 1 <= i ==> #[trigger] spec_pair_cross_g2(
                    buf@,
                    off as nat,
                    csize,
                    cb,
                    j,
                    p0.repr(),
                    p1.repr(),
                ),
        decreases count - i,
    {
        proof {
            lemma_mul_succ(i as nat, size as nat);
            lemma_mul_succ((i + 1) as nat, size as nat);
            lemma_mul_le((i + 2) as nat, count as nat, size as nat);
        }
        let ghost slot_a = slot(buf@, off as nat, csize, i as nat);
        let ghost slot_b = slot(buf@, off as nat, csize, (i + 1) as nat);
        proof {
            assert(slot_a == buf@.subrange(
                (off + i * size) as int,
                (off + i * size + size) as int,
            ));
            assert(slot_b == buf@.subrange(
                (off + (i + 1) * size) as int,
                (off + (i + 1) * size + size) as int,
            ));
        }
        let qa = match read_g2_at(buf, off + i * size, c, check, et) {
            Ok(p) => p,
            Err(e) => {
                proof {
                    ratio_region_complete_contra_g2(
                        buf@, off as nat, csize, cb, count as nat, i as nat, p0.repr(), p1.repr(),
                    );
                }
                return Err(e);
            },
        };
        let qb = match read_g2_at(buf, off + (i + 1) * size, c, check, et) {
            Ok(p) => p,
            Err(e) => {
                proof {
                    ratio_region_complete_contra_g2(
                        buf@, off as nat, csize, cb, count as nat, (i + 1) as nat, p0.repr(), p1.repr(),
                    );
                }
                return Err(e);
            },
        };
        if !crate::group::same_ratio(p0, p1, &qa, &qb) {
            proof {
                assert(!crate::group::pairing_ratio_eq(
                    p0.repr(),
                    p1.repr(),
                    spec_g2_slot_canon(buf@, off as nat, csize, i as nat, cb),
                    spec_g2_slot_canon(buf@, off as nat, csize, (i + 1) as nat, cb),
                ));
                assert forall|cf: nat, x: nat, k0: nat|
                    crate::modular::is_unit(cf) && crate::modular::is_unit(x)
                        && spec_g2_region_powers(buf@, off as nat, csize, cb, count as nat, cf, x)
                        && p0.repr() == g1_elem(k0) && p1.repr() == g1_elem(mul_mod(k0, x))
                    implies false by {
                    let mi = mul_mod(cf, pow_mod(x, i as nat));
                    assert(g2_parses(slot(buf@, off as nat, csize, i as nat), cb, mi));
                    assert(g2_parses(slot(buf@, off as nat, csize, (i + 1) as nat), cb, mul_mod(cf, pow_mod(x, (i + 1) as nat))));
                    crate::modular::lemma_pow_mod_step(x, i as nat);
                    crate::modular::lemma_mul_mod_assoc(cf, pow_mod(x, i as nat), x);
                    assert(mul_mod(cf, pow_mod(x, (i + 1) as nat)) == mul_mod(mi, x));
                    assert(qa.repr() == g2_elem(mi));
                    assert(qb.repr() == g2_elem(mul_mod(mi, x)));
                }
            }
            return Err(Error::InvalidRatio(et));
        }
        proof {
            assert forall|k0: nat, k1: nat, m1: nat, m2: nat|
                g2_parses(slot(buf@, off as nat, csize, i as nat), cb, m1) && g2_parses(
                    slot(buf@, off as nat, csize, (i + 1) as nat),
                    cb,
                    m2,
                ) && p0.repr() == g1_elem(k0) && p1.repr() == g1_elem(k1) implies mul_mod(k0, m2)
                == mul_mod(k1, m1) by {
                assert(qa.repr() == g2_elem(m1));
                assert(qb.repr() == g2_elem(m2));
            }
            assert(spec_pair_cross_g2(buf@, off as nat, csize, cb, i as nat, p0.repr(), p1.repr()));
        }
        i = i + 1;
    }
    Ok(())
}

/// Contradiction helper, G2 version of [`ratio_region_complete_contra_g1`].
proof fn ratio_region_complete_contra_g2(
    buf: Seq<u8>,
    off: nat,
    size: nat,
    cb: bool,
    count: nat,
    i0: nat,
    p0r: Seq<u8>,
    p1r: Seq<u8>,
)
    requires
        i0 < count,
        forall|k: nat|
            0 < k < crate::group::scalar_field_order() ==> g2_canon(slot(buf, off, size, i0), cb)
                != Some(#[trigger] g2_elem(k)),
    ensures
        forall|cf: nat, x: nat, k0: nat|
            crate::modular::is_unit(cf) && crate::modular::is_unit(x)
                && #[trigger] spec_g2_region_powers(buf, off, size, cb, count, cf, x) && p0r
                == #[trigger] g1_elem(k0) && p1r == g1_elem(mul_mod(k0, x)) ==> false,
{
    assert forall|cf: nat, x: nat, k0: nat|
        crate::modular::is_unit(cf) && crate::modular::is_unit(x) && spec_g2_region_powers(
            buf,
            off,
            size,
            cb,
            count,
            cf,
            x,
        ) && p0r == g1_elem(k0) && p1r == g1_elem(mul_mod(k0, x)) implies false by {
        crate::modular::lemma_unit_pow(x, i0);
        crate::modular::lemma_unit_mul(cf, pow_mod(x, i0));
        let k = mul_mod(cf, pow_mod(x, i0));
        assert(g2_parses(slot(buf, off, size, i0), cb, k));
        assert(0 < k < crate::group::scalar_field_order());
    }
}

/// The buffer holds the powers-of-tau structure for secrets
/// `(tau, alpha, beta)`: absolute element `i` of TauG1 and TauG2 stores the
/// `tau^i`-th multiple of its generator, AlphaG1 stores `alpha * tau^i`,
/// BetaG1 stores `beta * tau^i`, and the BetaG2 singleton stores `beta`.
pub open spec fn spec_pot_accumulator(
    buf: Seq<u8>,
    c: UseCompression,
    params: CeremonyParams,
    tau: nat,
    alpha: nat,
    beta: nat,
) -> bool {
    let gl = full_glayout(params, c);
    let cb = is_compressed(c);
    &&& spec_g1_region_powers(buf, gl.tau_g1, gl.g1s, cb, gl.g1c, 1, tau)
    &&& spec_g2_region_powers(buf, gl.tau_g2, gl.g2s, cb, gl.oc, 1, tau)
    &&& spec_g1_region_powers(buf, gl.alpha_g1, gl.g1s, cb, gl.oc, alpha, tau)
    &&& spec_g1_region_powers(buf, gl.beta_g1, gl.g1s, cb, gl.oc, beta, tau)
    &&& g2_parses(slot(buf, gl.beta_g2, gl.g2s, 0), cb, beta)
}

/// Everything `verify_ratios` checks: all four element arrays decode under
/// the requested checks, the first TauG1 and TauG2 elements are the
/// generators, and every adjacent pair of every array passes the pairing
/// ratio test against the initial Tau pair of the other group.
pub open spec fn spec_ratios_ok(
    buf: Seq<u8>,
    c: UseCompression,
    check: CheckForCorrectness,
    params: CeremonyParams,
) -> bool {
    let gl = full_glayout(params, c);
    let cb = is_compressed(c);
    let q0 = spec_g2_slot_canon(buf, gl.tau_g2, gl.g2s, 0, cb);
    let q1 = spec_g2_slot_canon(buf, gl.tau_g2, gl.g2s, 1, cb);
    let p0 = spec_g1_slot_canon(buf, gl.tau_g1, gl.g1s, 0, cb);
    let p1 = spec_g1_slot_canon(buf, gl.tau_g1, gl.g1s, 1, cb);
    &&& forall|i: nat|
        i < gl.g1c ==> spec_g1_read_ok(#[trigger] slot(buf, gl.tau_g1, gl.g1s, i), cb, check)
    &&& forall|i: nat|
        i < gl.oc ==> spec_g2_read_ok(#[trigger] slot(buf, gl.tau_g2, gl.g2s, i), cb, check)
    &&& forall|i: nat|
        i < gl.oc ==> spec_g1_read_ok(#[trigger] slot(buf, gl.alpha_g1, gl.g1s, i), cb, check)
    &&& forall|i: nat|
        i < gl.oc ==> spec_g1_read_ok(#[trigger] slot(buf, gl.beta_g1, gl.g1s, i), cb, check)
    &&& g1_canon(slot(buf, gl.tau_g1, gl.g1s, 0), cb) == Some(g1_elem(1))
    &&& g2_canon(slot(buf, gl.tau_g2, gl.g2s, 0), cb) == Some(g2_elem(1))
    &&& forall|i: nat|
        i + 1 < gl.g1c ==> crate::group::pairing_ratio_eq(
            #[trigger] spec_g1_slot_canon(buf, gl.tau_g1, gl.g1s, i, cb),
            spec_g1_slot_canon(buf, gl.tau_g1, gl.g1s, i + 1, cb),
            q0,
            q1,
        )
    &&& forall|i: nat|
        i + 1 < gl.oc ==> crate::group::pairing_ratio_eq(
            p0,
            p1,
            #[trigger] spec_g2_slot_canon(buf, gl.tau_g2, gl.g2s, i, cb),
            spec_g2_slot_canon(buf, gl.tau_g2, gl.g2s, i + 1, cb),
        )
    &&& forall|i: nat|
        i + 1 < gl.oc ==> crate::group::pairing_ratio_eq(
            #[trigger] spec_g1_slot_canon(buf, gl.alpha_g1, gl.g1s, i, cb),
            spec_g1_slot_canon(buf, gl.alpha_g1, gl.g1s, i + 1, cb),
            q0,
            q1,
        )
    &&& forall|i: nat|
        i + 1 < gl.oc ==> crate::group::pairing_ratio_eq(
            #[trigger] spec_g1_slot_canon(buf, gl.beta_g1, gl.g1s, i, cb),
            spec_g1_slot_canon(buf, gl.beta_g1, gl.g1s, i + 1, cb),
            q0,
            q1,
        )
}

/// What a passed ratio verification certifies about decoded exponents: the
/// cross products of every adjacent pair with the initial Tau pair agree.
pub open spec fn spec_ratios_sound(buf: Seq<u8>, c: UseCompression, params: CeremonyParams) -> bool {
    let gl = full_glayout(params, c);
    let cb = is_compressed(c);
    let q0 = spec_g2_slot_canon(buf, gl.tau_g2, gl.g2s, 0, cb);
    let q1 = spec_g2_slot_canon(buf, gl.tau_g2, gl.g2s, 1, cb);
    let p0 = spec_g1_slot_canon(buf, gl.tau_g1, gl.g1s, 0, cb);
    let p1 = spec_g1_slot_canon(buf, gl.tau_g1, gl.g1s, 1, cb);
    &&& forall|i: nat|
        i + 1 < gl.g1c ==> #[trigger] spec_pair_cross_g1(buf, gl.tau_g1, gl.g1s, cb, i, q0, q1)
    &&& forall|i: nat|
        i + 1 < gl.oc ==> #[trigger] spec_pair_cross_g2(buf, gl.tau_g2, gl.g2s, cb, i, p0, p1)
    &&& forall|i: nat|
        i + 1 < gl.oc ==> #[trigger] spec_pair_cross_g1(buf, gl.alpha_g1, gl.g1s, cb, i, q0, q1)
    &&& forall|i: nat|
        i + 1 < gl.oc ==> #[trigger] spec_pair_cross_g1(buf, gl.beta_g1, gl.g1s, cb, i, q0, q1)
}

/// Decoded initial elements of a powers-of-tau accumulator: the generators
/// and the first tau multiples.
proof fn lemma_pot_initials(
    buf: Seq<u8>,
    c: UseCompression,
    params: CeremonyParams,
    t: nat,
    a: nat,
    b: nat,
)
    requires
        params.wf(),
        params.powers_length >= 2,
        crate::modular::is_unit(t),
        spec_pot_accumulator(buf, c, params, t, a, b),
    ensures
        g1_parses(slot(buf, full_glayout(params, c).tau_g1, full_glayout(params, c).g1s, 0), is_compressed(c), 1),
        g1_parses(slot(buf, full_glayout(params, c).tau_g1, full_glayout(params, c).g1s, 1), is_compressed(c), t),
        g2_parses(slot(buf, full_glayout(params, c).tau_g2, full_glayout(params, c).g2s, 0), is_compressed(c), 1),
        g2_parses(slot(buf, full_glayout(params, c).tau_g2, full_glayout(params, c).g2s, 1), is_compressed(c), t),
        mul_mod(1, t) == t,
        mul_mod(1, 1nat) == 1,
{
    let gl = full_glayout(params, c);
    let cb = is_compressed(c);
    crate::modular::lemma_mul_mod_one_left(t);
    vstd::arithmetic::div_mod::lemma_small_mod(1, crate::group::scalar_field_order());
    assert(1 * 1nat == 1) by (nonlinear_arith);
    assert(pow_mod(t, 0) == 1);
    assert(pow_mod(t, 1) == mul_mod(t, 1));
    crate::modular::lemma_mul_mod_one_right(t);
    assert(g1_parses(slot(buf, gl.tau_g1, gl.g1s, 0), cb, mul_mod(1, pow_mod(t, 0))));
    assert(g1_parses(slot(buf, gl.tau_g1, gl.g1s, 1), cb, mul_mod(1, pow_mod(t, 1))));
    assert(g2_parses(slot(buf, gl.tau_g2, gl.g2s, 0), cb, mul_mod(1, pow_mod(t, 0))));
    assert(g2_parses(slot(buf, gl.tau_g2, gl.g2s, 1), cb, mul_mod(1, pow_mod(t, 1))));
    assert(mul_mod(1, pow_mod(t, 0)) == 1);
    assert(mul_mod(1, pow_mod(t, 1)) == t);
}

/// Confirms the consecutive-power structure of an assembled accumulator:
/// the first elements are the generators, and every adjacent pair of every
/// array pairs consistently with the initial Tau pair of the other group.
///
/// Returns `Ok` exactly on buffers satisfying [`spec_ratios_ok`]; a pass
/// certifies [`spec_ratios_sound`], and every accumulator that actually is a
/// powers-of-tau structure for unit secrets passes.
#[verifier::rlimit(100)]
pub fn verify_ratios(
    output: &[u8],
    compressed_output: UseCompression,
    check_output: CheckForCorrectness,
    parameters: &CeremonyParams,
) -> (r: Result<(), Error>)
    requires
        parameters.wf(),
        parameters.curve.is_engine_curve(),
        parameters.powers_length >= 2,
        output@.len() >= crate::layout::spec_full_len(*parameters, compressed_output),
    ensures
        r is Ok <==> spec_ratios_ok(output@, compressed_output, check_output, *parameters),
        r is Ok ==> spec_ratios_sound(output@, compressed_output, *parameters),
        r == Err::<(), Error>(Error::InvalidGenerator(ElementType::TauG1)) ==> g1_canon(
            slot(
                output@,
                full_glayout(*parameters, compressed_output).tau_g1,
                full_glayout(*parameters, compressed_output).g1s,
                0,
            ),
            is_compressed(compressed_output),
        ) != Some(g1_elem(1)),
        r == Err::<(), Error>(Error::InvalidGenerator(ElementType::TauG2)) ==> g2_canon(
            slot(
                output@,
                full_glayout(*parameters, compressed_output).tau_g2,
                full_glayout(*parameters, compressed_output).g2s,
                0,
            ),
            is_compressed(compressed_output),
        ) != Some(g2_elem(1)),
        ({
            let gl = full_glayout(*parameters, compressed_output);
            let cb = is_compressed(compressed_output);
            let reads_ok = spec_g1_read_ok(slot(output@, gl.tau_g1, gl.g1s, 0), cb, check_output)
                && spec_g1_read_ok(slot(output@, gl.tau_g1, gl.g1s, 1), cb, check_output)
                && spec_g2_read_ok(slot(output@, gl.tau_g2, gl.g2s, 0), cb, check_output)
                && spec_g2_read_ok(slot(output@, gl.tau_g2, gl.g2s, 1), cb, check_output);
            &&& (reads_ok && g1_canon(slot(output@, gl.tau_g1, gl.g1s, 0), cb) != Some(g1_elem(1))
                ==> r == Err::<(), Error>(Error::InvalidGenerator(ElementType::TauG1)))
            &&& (reads_ok && g1_canon(slot(output@, gl.tau_g1, gl.g1s, 0), cb) == Some(g1_elem(1))
                && g2_canon(slot(output@, gl.tau_g2, gl.g2s, 0), cb) != Some(g2_elem(1)) ==> r
                == Err::<(), Error>(Error::InvalidGenerator(ElementType::TauG2)))
        }),
        forall|t: nat, a: nat, b: nat|
            crate::modular::is_unit(t) && crate::modular::is_unit(a) && crate::modular::is_unit(b)
                && #[trigger] spec_pot_accumulator(
                output@,
                compressed_output,
                *parameters,
                t,
                a,
                b,
            ) ==> r is Ok,
{
    let n = output.len();
    let layout = Layout::full(parameters, compressed_output);
    let cb = compressed_flag(compressed_output);
    let ghost gl = full_glayout(*parameters, compressed_output);
    let ghost cbg = is_compressed(compressed_output);
    proof {
        layout.lemma_gl();
        assert(gl == layout.gl());
        assert(gl.g1s == g1_enc_size(cbg));
        assert(gl.g2s == g2_enc_size(cbg));
        assert(0 * gl.g1s == 0) by (nonlinear_arith);
        assert(1 * gl.g1s == gl.g1s) by (nonlinear_arith);
        assert(0 * gl.g2s == 0) by (nonlinear_arith);
        assert(1 * gl.g2s == gl.g2s) by (nonlinear_arith);
        assert(2 * gl.g1s == gl.g1s + gl.g1s) by (nonlinear_arith);
        assert(2 * gl.g2s == gl.g2s + gl.g2s) by (nonlinear_arith);
        lemma_mul_le(2, gl.g1c, gl.g1s);
        lemma_mul_le(2, gl.oc, gl.g2s);
    }
    // Initial two elements of TauG1 and TauG2.
    let t1_0 = match read_g1_at(output, layout.tau_g1, compressed_output, check_output, ElementType::TauG1) {
        Ok(p) => p,
        Err(e) => {
            proof {
                pot_contra_read_g1(output@, compressed_output, *parameters, 0);
            }
            return Err(e);
        },
    };
    let t1_1 = match read_g1_at(
        output,
        layout.tau_g1 + layout.g1_size,
        compressed_output,
        check_output,
        ElementType::TauG1,
    ) {
        Ok(p) => p,
        Err(e) => {
            proof {
                assert(slot(output@, gl.tau_g1, gl.g1s, 1) == output@.subrange(
                    (gl.tau_g1 + gl.g1s) as int,
                    (gl.tau_g1 + gl.g1s + gl.g1s) as int,
                ));
                pot_contra_read_g1(output@, compressed_output, *parameters, 1);
            }
            return Err(e);
        },
    };
    let t2_0 = match read_g2_at(output, layout.tau_g2, compressed_output, check_output, ElementType::TauG2) {
        Ok(p) => p,
        Err(e) => {
            proof {
                pot_contra_read_g2(output@, compressed_output, *parameters, 0);
            }
            return Err(e);
        },
    };
    let t2_1 = match read_g2_at(
        output,
        layout.tau_g2 + layout.g2_size,
        compressed_output,
        check_output,
        ElementType::TauG2,
    ) {
        Ok(p) => p,
        Err(e) => {
            proof {
                assert(slot(output@, gl.tau_g2, gl.g2s, 1) == output@.subrange(
                    (gl.tau_g2 + gl.g2s) as int,
                    (gl.tau_g2 + gl.g2s + gl.g2s) as int,
                ));
                pot_contra_read_g2(output@, compressed_output, *parameters, 1);
            }
            return Err(e);
        },
    };
    proof {
        assert(Some(t1_0.repr()) == g1_canon(slot(output@, gl.tau_g1, gl.g1s, 0), cbg));
        assert(Some(t1_1.repr()) == g1_canon(slot(output@, gl.tau_g1, gl.g1s, 1), cbg));
        assert(Some(t2_0.repr()) == g2_canon(slot(output@, gl.tau_g2, gl.g2s, 0), cbg));
        assert(Some(t2_1.repr()) == g2_canon(slot(output@, gl.tau_g2, gl.g2s, 1), cbg));
    }
    let g1_one = g1_generator();
    if !crate::group::g1_eq(&t1_0, &g1_one) {
        proof {
            assert(g1_canon(slot(output@, gl.tau_g1, gl.g1s, 0), cbg) != Some(g1_elem(1)));
            assert forall|t: nat, a: nat, b: nat|
                crate::modular::is_unit(t) && crate::modular::is_unit(a)
                    && crate::modular::is_unit(b) && spec_pot_accumulator(
                    output@,
                    compressed_output,
                    *parameters,
                    t,
                    a,
                    b,
                ) implies false by {
                lemma_pot_initials(output@, compressed_output, *parameters, t, a, b);
            }
        }
        return Err(Error::InvalidGenerator(ElementType::TauG1));
    }
    let g2_one = g2_generator();
    if !crate::group::g2_eq(&t2_0, &g2_one) {
        proof {
            assert(g2_canon(slot(output@, gl.tau_g2, gl.g2s, 0), cbg) != Some(g2_elem(1)));
            assert forall|t: nat, a: nat, b: nat|
                crate::modular::is_unit(t) && crate::modular::is_unit(a)
                    && crate::modular::is_unit(b) && spec_pot_accumulator(
                    output@,
                    compressed_output,
                    *parameters,
                    t,
                    a,
                    b,
                ) implies false by {
                lemma_pot_initials(output@, compressed_output, *parameters, t, a, b);
            }
        }
        return Err(Error::InvalidGenerator(ElementType::TauG2));
    }
    match check_power_ratios(
        output,
        layout.tau_g1,
        layout.g1_count,
        compressed_output,
        check_output,
        &t2_0,
        &t2_1,
        ElementType::TauG1,
    ) {
        Ok(()) => (),
        Err(e) => {
            proof {
                assert forall|t: nat, a: nat, b: nat|
                    crate::modular::is_unit(t) && crate::modular::is_unit(a)
                        && crate::modular::is_unit(b) && spec_pot_accumulator(
                        output@,
                        compressed_output,
                        *parameters,
                        t,
                        a,
                        b,
                    ) implies false by {
                    lemma_pot_q_values(
                        output@, compressed_output, *parameters, t, a, b,
                        t2_0.repr(), t2_1.repr(), t1_0.repr(), t1_1.repr(),
                    );
                    assert(spec_g1_region_powers(output@, gl.tau_g1, gl.g1s, cbg, gl.g1c, 1, t));
                }
            }
            return Err(e);
        },
    }
    match check_power_ratios_g2(
        output,
        layout.tau_g2,
        layout.other_count,
        compressed_output,
        check_output,
        &t1_0,
        &t1_1,
        ElementType::TauG2,
    ) {
        Ok(()) => (),
        Err(e) => {
            proof {
                assert forall|t: nat, a: nat, b: nat|
                    crate::modular::is_unit(t) && crate::modular::is_unit(a)
                        && crate::modular::is_unit(b) && spec_pot_accumulator(
                        output@,
                        compressed_output,
                        *parameters,
                        t,
                        a,
                        b,
                    ) implies false by {
                    lemma_pot_q_values(
                        output@, compressed_output, *parameters, t, a, b,
                        t2_0.repr(), t2_1.repr(), t1_0.repr(), t1_1.repr(),
                    );
                    assert(spec_g2_region_powers(output@, gl.tau_g2, gl.g2s, cbg, gl.oc, 1, t));
                }
            }
            return Err(e);
        },
    }
    match check_power_ratios(
        output,
        layout.alpha_g1,
        layout.other_count,
        compressed_output,
        check_output,
        &t2_0,
        &t2_1,
        ElementType::AlphaG1,
    ) {
        Ok(()) => (),
        Err(e) => {
            proof {
                assert forall|t: nat, a: nat, b: nat|
                    crate::modular::is_unit(t) && crate::modular::is_unit(a)
                        && crate::modular::is_unit(b) && spec_pot_accumulator(
                        output@,
                        compressed_output,
                        *parameters,
                        t,
                        a,
                        b,
                    ) implies false by {
                    lemma_pot_q_values(
                        output@, compressed_output, *parameters, t, a, b,
                        t2_0.repr(), t2_1.repr(), t1_0.repr(), t1_1.repr(),
                    );
                    assert(spec_g1_region_powers(output@, gl.alpha_g1, gl.g1s, cbg, gl.oc, a, t));
                }
                assert forall|i: nat|
                    #[trigger] slot(output@, layout.alpha_g1 as nat, g1_enc_size(cbg), i) == slot(
                        output@,
                        gl.alpha_g1,
                        gl.g1s,
                        i,
                    ) by {}
                assert forall|i: nat|
                    #[trigger] spec_g1_slot_canon(
                        output@,
                        layout.alpha_g1 as nat,
                        g1_enc_size(cbg),
                        i,
                        cbg,
                    ) == spec_g1_slot_canon(output@, gl.alpha_g1, gl.g1s, i, cbg) by {}
                assert(!spec_ratios_ok(output@, compressed_output, check_output, *parameters)) by {
                    if (forall|i: nat|
                        i < gl.oc ==> spec_g1_read_ok(
                            #[trigger] slot(output@, gl.alpha_g1, gl.g1s, i),
                            cbg,
                            check_output,
                        )) && (forall|i: nat|
                        i + 1 < gl.oc ==> crate::group::pairing_ratio_eq(
                            #[trigger] spec_g1_slot_canon(output@, gl.alpha_g1, gl.g1s, i, cbg),
                            spec_g1_slot_canon(output@, gl.alpha_g1, gl.g1s, i + 1, cbg),
                            t2_0.repr(),
                            t2_1.repr(),
                        )) {
                        assert(false);
                    }
                }
            }
            return Err(e);
        },
    }
    match check_power_ratios(
        output,
        layout.beta_g1,
        layout.other_count,
        compressed_output,
        check_output,
        &t2_0,
        &t2_1,
        ElementType::BetaG1,
    ) {
        Ok(()) => (),
        Err(e) => {
            proof {
                assert forall|t: nat, a: nat, b: nat|
                    crate::modular::is_unit(t) && crate::modular::is_unit(a)
                        && crate::modular::is_unit(b) && spec_pot_accumulator(
                        output@,
                        compressed_output,
                        *parameters,
                        t,
                        a,
                        b,
                    ) implies false by {
                    lemma_pot_q_values(
                        output@, compressed_output, *parameters, t, a, b,
                        t2_0.repr(), t2_1.repr(), t1_0.repr(), t1_1.repr(),
                    );
                    assert(spec_g1_region_powers(output@, gl.beta_g1, gl.g1s, cbg, gl.oc, b, t));
                }
                assert forall|i: nat|
                    #[trigger] slot(output@, layout.beta_g1 as nat, g1_enc_size(cbg), i) == slot(
                        output@,
                        gl.beta_g1,
                        gl.g1s,
                        i,
                    ) by {}
                assert forall|i: nat|
                    #[trigger] spec_g1_slot_canon(
                        output@,
                        layout.beta_g1 as nat,
                        g1_enc_size(cbg),
                        i,
                        cbg,
                    ) == spec_g1_slot_canon(output@, gl.beta_g1, gl.g1s, i, cbg) by {}
                assert(!spec_ratios_ok(output@, compressed_output, check_output, *parameters)) by {
                    if (forall|i: nat|
                        i < gl.oc ==> spec_g1_read_ok(
                            #[trigger] slot(output@, gl.beta_g1, gl.g1s, i),
                            cbg,
                            check_output,
                        )) && (forall|i: nat|
                        i + 1 < gl.oc ==> crate::group::pairing_ratio_eq(
                            #[trigger] spec_g1_slot_canon(output@, gl.beta_g1, gl.g1s, i, cbg),
                            spec_g1_slot_canon(output@, gl.beta_g1, gl.g1s, i + 1, cbg),
                            t2_0.repr(),
                            t2_1.repr(),
                        )) {
                        assert(false);
                    }
                }
            }
            return Err(e);
        },
    }
    proof {
        assert(t2_0.repr() == spec_g2_slot_canon(output@, gl.tau_g2, gl.g2s, 0, cbg));
        assert(t2_1.repr() == spec_g2_slot_canon(output@, gl.tau_g2, gl.g2s, 1, cbg));
        assert(t1_0.repr() == spec_g1_slot_canon(output@, gl.tau_g1, gl.g1s, 0, cbg));
        assert(t1_1.repr() == spec_g1_slot_canon(output@, gl.tau_g1, gl.g1s, 1, cbg));
    }
    Ok(())
}

/// Contradiction helper: a rejected TauG1 slot refutes the powers hypothesis.
proof fn pot_contra_read_g1(buf: Seq<u8>, c: UseCompression, params: CeremonyParams, i0: nat)
    requires
        params.wf(),
        params.powers_length >= 2,
        i0 < full_glayout(params, c).g1c,
        forall|k: nat|
            0 < k < crate::group::scalar_field_order() ==> g1_canon(
                slot(buf, full_glayout(params, c).tau_g1, full_glayout(params, c).g1s, i0),
                is_compressed(c),
            ) != Some(#[trigger] g1_elem(k)),
    ensures
        forall|t: nat, a: nat, b: nat|
            crate::modular::is_unit(t) && crate::modular::is_unit(a) && crate::modular::is_unit(b)
                && #[trigger] spec_pot_accumulator(buf, c, params, t, a, b) ==> false,
{
    let gl = full_glayout(params, c);
    let cb = is_compressed(c);
    assert forall|t: nat, a: nat, b: nat|
        crate::modular::is_unit(t) && crate::modular::is_unit(a) && crate::modular::is_unit(b)
            && spec_pot_accumulator(buf, c, params, t, a, b) implies false by {
        crate::modular::lemma_unit_one();
        crate::modular::lemma_unit_pow(t, i0);
        crate::modular::lemma_unit_mul(1, pow_mod(t, i0));
        let k = mul_mod(1, pow_mod(t, i0));
        assert(g1_parses(slot(buf, gl.tau_g1, gl.g1s, i0), cb, k));
        assert(0 < k < crate::group::scalar_field_order());
    }
}

/// Contradiction helper: a rejected TauG2 slot refutes the powers hypothesis.
proof fn pot_contra_read_g2(buf: Seq<u8>, c: UseCompression, params: CeremonyParams, i0: nat)
    requires
        params.wf(),
        params.powers_length >= 2,
        i0 < full_glayout(params, c).oc,
        forall|k: nat|
            0 < k < crate::group::scalar_field_order() ==> g2_canon(
                slot(buf, full_glayout(params, c).tau_g2, full_glayout(params, c).g2s, i0),
                is_compressed(c),
            ) != Some(#[trigger] g2_elem(k)),
    ensures
        forall|t: nat, a: nat, b: nat|
            crate::modular::is_unit(t) && crate::modular::is_unit(a) && crate::modular::is_unit(b)
                && #[trigger] spec_pot_accumulator(buf, c, params, t, a, b) ==> false,
{
    let gl = full_glayout(params, c);
    let cb = is_compressed(c);
    assert forall|t: nat, a: nat, b: nat|
        crate::modular::is_unit(t) && crate::modular::is_unit(a) && crate::modular::is_unit(b)
            && spec_pot_accumulator(buf, c, params, t, a, b) implies false by {
        crate::modular::lemma_unit_one();
        crate::modular::lemma_unit_pow(t, i0);
        crate::modular::lemma_unit_mul(1, pow_mod(t, i0));
        let k = mul_mod(1, pow_mod(t, i0));
        assert(g2_parses(slot(buf, gl.tau_g2, gl.g2s, i0), cb, k));
        assert(0 < k < crate::group::scalar_field_order());
    }
}

/// Under the powers hypothesis the initial Tau pairs decode to `(1, t)` in
/// both groups, in the exact shape the region completeness clauses expect.
proof fn lemma_pot_q_values(
    buf: Seq<u8>,
    c: UseCompression,
    params: CeremonyParams,
    t: nat,
    a: nat,
    b: nat,
    q0r: Seq<u8>,
    q1r: Seq<u8>,
    p0r: Seq<u8>,
    p1r: Seq<u8>,
)
    requires
        params.wf(),
        params.powers_length >= 2,
        crate::modular::is_unit(t),
        spec_pot_accumulator(buf, c, params, t, a, b),
        Some(q0r) == g2_canon(
            slot(buf, full_glayout(params, c).tau_g2, full_glayout(params, c).g2s, 0),
            is_compressed(c),
        ),
        Some(q1r) == g2_canon(
            slot(buf, full_glayout(params, c).tau_g2, full_glayout(params, c).g2s, 1),
            is_compressed(c),
        ),
        Some(p0r) == g1_canon(
            slot(buf, full_glayout(params, c).tau_g1, full_glayout(params, c).g1s, 0),
            is_compressed(c),
        ),
        Some(p1r) == g1_canon(
            slot(buf, full_glayout(params, c).tau_g1, full_glayout(params, c).g1s, 1),
            is_compressed(c),
        ),
    ensures
        q0r == g2_elem(1),
        q1r == g2_elem(mul_mod(1, t)),
        p0r == g1_elem(1),
        p1r == g1_elem(mul_mod(1, t)),
        crate::modular::is_unit(1),
{
    lemma_pot_initials(buf, c, params, t, a, b);
    crate::modular::lemma_unit_one();
}

/// Checks that every element of the G1 region decodes, is in the
/// prime-order subgroup and is not the identity.
fn check_region_g1(
    buf: &[u8],
    off: usize,
    count: usize,
    c: UseCompression,
    et: ElementType,
) -> (r: Result<(), Error>)
    requires
        off + count * g1_enc_size(is_compressed(c)) <= buf@.len(),
    ensures
        ({
            let cb = is_compressed(c);
            let size = g1_enc_size(cb);
            &&& (r is Ok <==> (forall|i: nat|
                i < count ==> spec_g1_read_ok(
                    #[trigger] slot(buf@, off as nat, size, i),
                    cb,
                    CheckForCorrectness::Both,
                )))
            &&& (forall|cf: nat, x: nat|
                crate::modular::is_unit(cf) && crate::modular::is_unit(x)
                    && #[trigger] spec_g1_region_powers(buf@, off as nat, size, cb, count as nat, cf, x)
                    ==> r is Ok)
            &&& (r is Err ==> (r->Err_0 == Error::SerializationFailed(et) || r->Err_0
                == Error::IncorrectSubgroup(et) || r->Err_0 == Error::PointAtInfinity(et)))
        }),
{
    let cb = compressed_flag(c);
    let size: usize = if cb { 48 } else { 96 };
    let n = buf.len();
    let ghost csize = g1_enc_size(is_compressed(c));
    let mut i: usize = 0;
    while i < count
        invariant
            i <= count,
            cb == is_compressed(c),
            csize == g1_enc_size(cb),
            size == csize,
            n == buf@.len(),
            off + count * size <= n,
            forall|j: nat|
                j < i ==> spec_g1_read_ok(
                    #[trigger] slot(buf@, off as nat, csize, j),
                    cb,
                    CheckForCorrectness::Both,
                ),
        decreases count - i,
    {
        proof {
            lemma_mul_succ(i as nat, size as nat);
            lemma_mul_le((i + 1) as nat, count as nat, size as nat);
        }
        let ghost in_slot = slot(buf@, off as nat, csize, i as nat);
        proof {
            assert(in_slot == buf@.subrange(
                (off + i * size) as int,
                (off + i * size + size) as int,
            ));
        }
        match read_g1_at(buf, off + i * size, c, CheckForCorrectness::Both, et) {
            Ok(_) => (),
            Err(e) => {
                proof {
                    assert forall|cf: nat, x: nat|
                        crate::modular::is_unit(cf) && crate::modular::is_unit(x)
                            && spec_g1_region_powers(buf@, off as nat, csize, cb, count as nat, cf, x)
                        implies false by {
                        crate::modular::lemma_unit_pow(x, i as nat);
                        crate::modular::lemma_unit_mul(cf, pow_mod(x, i as nat));
                        let k = mul_mod(cf, pow_mod(x, i as nat));
                        assert(g1_parses(slot(buf@, off as nat, csize, i as nat), cb, k));
                        assert(0 < k < crate::group::scalar_field_order());
                    }
                }
                return Err(e);
            },
        }
        i = i + 1;
    }
    Ok(())
}

/// Checks that every element of the G2 region decodes, is in the
/// prime-order subgroup and is not the identity.
fn check_region_g2(
    buf: &[u8],
    off: usize,
    count: usize,
    c: UseCompression,
    et: ElementType,
) -> (r: Result<(), Error>)
    requires
        off + count * g2_enc_size(is_compressed(c)) <= buf@.len(),
    ensures
        ({
            let cb = is_compressed(c);
            let size = g2_enc_size(cb);
            &&& (r is Ok <==> (forall|i: nat|
                i < count ==> spec_g2_read_ok(
                    #[trigger] slot(buf@, off as nat, size, i),
                    cb,
                    CheckForCorrectness::Both,
                )))
            &&& (forall|cf: nat, x: nat|
                crate::modular::is_unit(cf) && crate::modular::is_unit(x)
                    && #[trigger] spec_g2_region_powers(buf@, off as nat, size, cb, count as nat, cf, x)
                    ==> r is Ok)
            &&& (r is Err ==> (r->Err_0 == Error::SerializationFailed(et) || r->Err_0
                == Error::IncorrectSubgroup(et) || r->Err_0 == Error::PointAtInfinity(et)))
        }),
{
    let cb = compressed_flag(c);
    let size: usize = if cb { 96 } else { 192 };
    let n = buf.len();
    let ghost csize = g2_enc_size(is_compressed(c));
    let mut i: usize = 0;
    while i < count
        invariant
            i <= count,
            cb == is_compressed(c),
            csize == g2_enc_size(cb),
            size == csize,
            n == buf@.len(),
            off + count * size <= n,
            forall|j: nat|
                j < i ==> spec_g2_read_ok(
                    #[trigger] slot(buf@, off as nat, csize, j),
                    cb,
                    CheckForCorrectness::Both,
                ),
        decreases count - i,
    {
        proof {
            lemma_mul_succ(i as nat, size as nat);
            lemma_mul_le((i + 1) as nat, count as nat, size as nat);
        }
        let ghost in_slot = slot(buf@, off as nat, csize, i as nat);
        proof {
            assert(in_slot == buf@.subrange(
                (off + i * size) as int,
                (off + i * size + size) as int,
            ));
        }
        match read_g2_at(buf, off + i * size, c, CheckForCorrectness::Both, et) {
            Ok(_) => (),
            Err(e) => {
                proof {
                    assert forall|cf: nat, x: nat|
                        crate::modular::is_unit(cf) && crate::modular::is_unit(x)
                            && spec_g2_region_powers(buf@, off as nat, csize, cb, count as nat, cf, x)
                        implies false by {
                        crate::modular::lemma_unit_pow(x, i as nat);
                        crate::modular::lemma_unit_mul(cf, pow_mod(x, i as nat));
                        let k = mul_mod(cf, pow_mod(x, i as nat));
                        assert(g2_parses(slot(buf@, off as nat, csize, i as nat), cb, k));
                        assert(0 < k < crate::group::scalar_field_order());
                    }
                }
                return Err(e);
            },
        }
        i = i + 1;
    }
    Ok(())
}

/// Chaining: applying a contribution with secrets `(kt, ka, kb)` to a
/// powers-of-tau accumulator for `(t0, a0, b0)` yields exactly the
/// powers-of-tau accumulator for the products `(t0*kt, a0*ka, b0*kb)`.
/// A sequence of contributions therefore composes into the single
/// contribution by the products of all the secrets.
pub proof fn lemma_contribution_chains(
    inb: Seq<u8>,
    ci: UseCompression,
    outb: Seq<u8>,
    co: UseCompression,
    params: CeremonyParams,
    t0: nat,
    a0: nat,
    b0: nat,
    kt: nat,
    ka: nat,
    kb: nat,
)
    requires
        params.wf(),
        params.contribution_mode == crate::params::ContributionMode::Full,
        kt < crate::group::scalar_field_order(),
        ka < crate::group::scalar_field_order(),
        kb < crate::group::scalar_field_order(),
        spec_pot_accumulator(inb, ci, params, t0, a0, b0),
        spec_contributed(inb, ci, outb, co, params, kt, ka, kb),
    ensures
        spec_pot_accumulator(outb, co, params, mul_mod(t0, kt), mul_mod(a0, ka), mul_mod(b0, kb)),
{
    let gi = full_glayout(params, ci);
    let go = full_glayout(params, co);
    let cbi = is_compressed(ci);
    let cbo = is_compressed(co);
    assert(chunk_glayout(params, ci) == gi);
    assert(chunk_glayout(params, co) == go);
    assert(params.spec_chunk_start() == 0);
    crate::modular::lemma_unit_like_one();
    assert forall|i: nat| i < go.g1c implies g1_parses(
        #[trigger] slot(outb, go.tau_g1, go.g1s, i),
        cbo,
        mul_mod(1, pow_mod(mul_mod(t0, kt), i)),
    ) by {
        let ki = mul_mod(1, pow_mod(t0, i));
        assert(g1_parses(slot(inb, gi.tau_g1, gi.g1s, i), cbi, ki));
        assert(spec_g1_slot_mult(
            slot(inb, gi.tau_g1, gi.g1s, i),
            cbi,
            slot(outb, go.tau_g1, go.g1s, i),
            cbo,
            spec_factor(1, kt, 0 + i),
        ));
        crate::modular::lemma_mul_mod_rearrange(1, pow_mod(t0, i), 1, pow_mod(kt, i));
        crate::modular::lemma_pow_mod_mul(t0, kt, i);
    }
    assert forall|i: nat| i < go.oc implies g2_parses(
        #[trigger] slot(outb, go.tau_g2, go.g2s, i),
        cbo,
        mul_mod(1, pow_mod(mul_mod(t0, kt), i)),
    ) by {
        let ki = mul_mod(1, pow_mod(t0, i));
        assert(g2_parses(slot(inb, gi.tau_g2, gi.g2s, i), cbi, ki));
        assert(spec_g2_slot_mult(
            slot(inb, gi.tau_g2, gi.g2s, i),
            cbi,
            slot(outb, go.tau_g2, go.g2s, i),
            cbo,
            spec_factor(1, kt, 0 + i),
        ));
        crate::modular::lemma_mul_mod_rearrange(1, pow_mod(t0, i), 1, pow_mod(kt, i));
        crate::modular::lemma_pow_mod_mul(t0, kt, i);
    }
    assert forall|i: nat| i < go.oc implies g1_parses(
        #[trigger] slot(outb, go.alpha_g1, go.g1s, i),
        cbo,
        mul_mod(mul_mod(a0, ka), pow_mod(mul_mod(t0, kt), i)),
    ) by {
        let ki = mul_mod(a0, pow_mod(t0, i));
        assert(g1_parses(slot(inb, gi.alpha_g1, gi.g1s, i), cbi, ki));
        assert(spec_g1_slot_mult(
            slot(inb, gi.alpha_g1, gi.g1s, i),
            cbi,
            slot(outb, go.alpha_g1, go.g1s, i),
            cbo,
            spec_factor(ka, kt, 0 + i),
        ));
        crate::modular::lemma_mul_mod_rearrange(a0, pow_mod(t0, i), ka, pow_mod(kt, i));
        crate::modular::lemma_pow_mod_mul(t0, kt, i);
    }
    assert forall|i: nat| i < go.oc implies g1_parses(
        #[trigger] slot(outb, go.beta_g1, go.g1s, i),
        cbo,
        mul_mod(mul_mod(b0, kb), pow_mod(mul_mod(t0, kt), i)),
    ) by {
        let ki = mul_mod(b0, pow_mod(t0, i));
        assert(g1_parses(slot(inb, gi.beta_g1, gi.g1s, i), cbi, ki));
        assert(spec_g1_slot_mult(
            slot(inb, gi.beta_g1, gi.g1s, i),
            cbi,
            slot(outb, go.beta_g1, go.g1s, i),
            cbo,
            spec_factor(kb, kt, 0 + i),
        ));
        crate::modular::lemma_mul_mod_rearrange(b0, pow_mod(t0, i), kb, pow_mod(kt, i));
        crate::modular::lemma_pow_mod_mul(t0, kt, i);
    }
    assert(g2_parses(slot(outb, go.beta_g2, go.g2s, 0), cbo, mul_mod(b0, kb))) by {
        assert(g2_parses(slot(inb, gi.beta_g2, gi.g2s, 0), cbi, b0));
        assert(spec_g2_slot_mult(
            slot(inb, gi.beta_g2, gi.g2s, 0),
            cbi,
            slot(outb, go.beta_g2, go.g2s, 0),
            cbo,
            spec_factor(kb, kt, 0),
        ));
        crate::modular::lemma_mul_mod_one_right(kb);
    }
}

/// The chunk view of a powers-of-tau accumulator: element `i` of this
/// participant's buffer holds the power for absolute index
/// `chunk_start + i`.  In full mode this is the whole accumulator.
pub open spec fn spec_pot_chunk(
    buf: Seq<u8>,
    c: UseCompression,
    params: CeremonyParams,
    tau: nat,
    alpha: nat,
    beta: nat,
) -> bool {
    let gl = chunk_glayout(params, c);
    let cb = is_compressed(c);
    let cs = params.spec_chunk_start();
    &&& forall|i: nat|
        i < gl.g1c ==> g1_parses(
            #[trigger] slot(buf, gl.tau_g1, gl.g1s, i),
            cb,
            mul_mod(1, pow_mod(tau, cs + i)),
        )
    &&& forall|i: nat|
        i < gl.oc ==> g2_parses(
            #[trigger] slot(buf, gl.tau_g2, gl.g2s, i),
            cb,
            mul_mod(1, pow_mod(tau, cs + i)),
        )
    &&& forall|i: nat|
        i < gl.oc ==> g1_parses(
            #[trigger] slot(buf, gl.alpha_g1, gl.g1s, i),
            cb,
            mul_mod(alpha, pow_mod(tau, cs + i)),
        )
    &&& forall|i: nat|
        i < gl.oc ==> g1_parses(
            #[trigger] slot(buf, gl.beta_g1, gl.g1s, i),
            cb,
            mul_mod(beta, pow_mod(tau, cs + i)),
        )
    &&& g2_parses(slot(buf, gl.beta_g2, gl.g2s, 0), cb, beta)
}

/// Chaining for a single chunk: a contribution applied to the chunk view of
/// a powers-of-tau accumulator for `(t0, a0, b0)` yields the chunk view for
/// the products `(t0*kt, a0*ka, b0*kb)`.  With
/// [`lemma_contribution_chains`] this extends the composition law of
/// successive contributions to chunked ceremonies.
pub proof fn lemma_contribution_chains_chunked(
    inb: Seq<u8>,
    ci: UseCompression,
    outb: Seq<u8>,
    co: UseCompression,
    params: CeremonyParams,
    t0: nat,
    a0: nat,
    b0: nat,
    kt: nat,
    ka: nat,
    kb: nat,
)
    requires
        params.wf(),
        kt < crate::group::scalar_field_order(),
        ka < crate::group::scalar_field_order(),
        kb < crate::group::scalar_field_order(),
        spec_pot_chunk(inb, ci, params, t0, a0, b0),
        spec_contributed(inb, ci, outb, co, params, kt, ka, kb),
    ensures
        spec_pot_chunk(outb, co, params, mul_mod(t0, kt), mul_mod(a0, ka), mul_mod(b0, kb)),
{
    let gi = chunk_glayout(params, ci);
    let go = chunk_glayout(params, co);
    let cbi = is_compressed(ci);
    let cbo = is_compressed(co);
    let cs = params.spec_chunk_start();
    crate::modular::lemma_unit_like_one();
    assert forall|i: nat| i < go.g1c implies g1_parses(
        #[trigger] slot(outb, go.tau_g1, go.g1s, i),
        cbo,
        mul_mod(1, pow_mod(mul_mod(t0, kt), cs + i)),
    ) by {
        let ki = mul_mod(1, pow_mod(t0, cs + i));
        assert(g1_parses(slot(inb, gi.tau_g1, gi.g1s, i), cbi, ki));
        assert(spec_g1_slot_mult(
            slot(inb, gi.tau_g1, gi.g1s, i),
            cbi,
            slot(outb, go.tau_g1, go.g1s, i),
            cbo,
            spec_factor(1, kt, cs + i),
        ));
        crate::modular::lemma_mul_mod_rearrange(1, pow_mod(t0, cs + i), 1, pow_mod(kt, cs + i));
        crate::modular::lemma_pow_mod_mul(t0, kt, cs + i);
    }
    assert forall|i: nat| i < go.oc implies g2_parses(
        #[trigger] slot(outb, go.tau_g2, go.g2s, i),
        cbo,
        mul_mod(1, pow_mod(mul_mod(t0, kt), cs + i)),
    ) by {
        let ki = mul_mod(1, pow_mod(t0, cs + i));
        assert(g2_parses(slot(inb, gi.tau_g2, gi.g2s, i), cbi, ki));
        assert(spec_g2_slot_mult(
            slot(inb, gi.tau_g2, gi.g2s, i),
            cbi,
            slot(outb, go.tau_g2, go.g2s, i),
            cbo,
            spec_factor(1, kt, cs + i),
        ));
        crate::modular::lemma_mul_mod_rearrange(1, pow_mod(t0, cs + i), 1, pow_mod(kt, cs + i));
        crate::modular::lemma_pow_mod_mul(t0, kt, cs + i);
    }
    assert forall|i: nat| i < go.oc implies g1_parses(
        #[trigger] slot(outb, go.alpha_g1, go.g1s, i),
        cbo,
        mul_mod(mul_mod(a0, ka), pow_mod(mul_mod(t0, kt), cs + i)),
    ) by {
        let ki = mul_mod(a0, pow_mod(t0, cs + i));
        assert(g1_parses(slot(inb, gi.alpha_g1, gi.g1s, i), cbi, ki));
        assert(spec_g1_slot_mult(
            slot(inb, gi.alpha_g1, gi.g1s, i),
            cbi,
            slot(outb, go.alpha_g1, go.g1s, i),
            cbo,
            spec_factor(ka, kt, cs + i),
        ));
        crate::modular::lemma_mul_mod_rearrange(a0, pow_mod(t0, cs + i), ka, pow_mod(kt, cs + i));
        crate::modular::lemma_pow_mod_mul(t0, kt, cs + i);
    }
    assert forall|i: nat| i < go.oc implies g1_parses(
        #[trigger] slot(outb, go.beta_g1, go.g1s, i),
        cbo,
        mul_mod(mul_mod(b0, kb), pow_mod(mul_mod(t0, kt), cs + i)),
    ) by {
        let ki = mul_mod(b0, pow_mod(t0, cs + i));
        assert(g1_parses(slot(inb, gi.beta_g1, gi.g1s, i), cbi, ki));
        assert(spec_g1_slot_mult(
            slot(inb, gi.beta_g1, gi.g1s, i),
            cbi,
            slot(outb, go.beta_g1, go.g1s, i),
            cbo,
            spec_factor(kb, kt, cs + i),
        ));
        crate::modular::lemma_mul_mod_rearrange(b0, pow_mod(t0, cs + i), kb, pow_mod(kt, cs + i));
        crate::modular::lemma_pow_mod_mul(t0, kt, cs + i);
    }
    assert(g2_parses(slot(outb, go.beta_g2, go.g2s, 0), cbo, mul_mod(b0, kb))) by {
        assert(g2_parses(slot(inb, gi.beta_g2, gi.g2s, 0), cbi, b0));
        assert(spec_g2_slot_mult(
            slot(inb, gi.beta_g2, gi.g2s, 0),
            cbi,
            slot(outb, go.beta_g2, go.g2s, 0),
            cbo,
            spec_factor(kb, kt, 0),
        ));
        crate::modular::lemma_mul_mod_one_right(kb);
    }
}

/// A freshly initialized buffer is the powers-of-tau accumulator of the
/// trivial secrets `(1, 1, 1)`.
pub proof fn lemma_initialized_is_pot(buf: Seq<u8>, c: UseCompression, params: CeremonyParams)
    requires
        params.wf(),
        params.contribution_mode == crate::params::ContributionMode::Full,
        spec_initialized(buf, c, params),
    ensures
        spec_pot_accumulator(buf, c, params, 1, 1, 1),
{
    let gl = full_glayout(params, c);
    let cb = is_compressed(c);
    assert(chunk_glayout(params, c) == gl);
    crate::modular::lemma_unit_like_one();
    assert forall|i: nat| i < gl.g1c implies g1_parses(
        #[trigger] slot(buf, gl.tau_g1, gl.g1s, i),
        cb,
        mul_mod(1, pow_mod(1, i)),
    ) by {
        crate::modular::lemma_pow_mod_one(i);
        assert(g1_parses(slot(buf, gl.tau_g1, gl.g1s, i), cb, 1));
    }
    assert forall|i: nat| i < gl.oc implies g2_parses(
        #[trigger] slot(buf, gl.tau_g2, gl.g2s, i),
        cb,
        mul_mod(1, pow_mod(1, i)),
    ) by {
        crate::modular::lemma_pow_mod_one(i);
        assert(g2_parses(slot(buf, gl.tau_g2, gl.g2s, i), cb, 1));
    }
    assert forall|i: nat| i < gl.oc implies g1_parses(
        #[trigger] slot(buf, gl.alpha_g1, gl.g1s, i),
        cb,
        mul_mod(1, pow_mod(1, i)),
    ) by {
        crate::modular::lemma_pow_mod_one(i);
        assert(g1_parses(slot(buf, gl.alpha_g1, gl.g1s, i), cb, 1));
    }
    assert forall|i: nat| i < gl.oc implies g1_parses(
        #[trigger] slot(buf, gl.beta_g1, gl.g1s, i),
        cb,
        mul_mod(1, pow_mod(1, i)),
    ) by {
        crate::modular::lemma_pow_mod_one(i);
        assert(g1_parses(slot(buf, gl.beta_g1, gl.g1s, i), cb, 1));
    }
}

/// Whether this participant performs the proof-of-knowledge section.
pub open spec fn spec_first_chunk(params: CeremonyParams) -> bool {
    params.contribution_mode == crate::params::ContributionMode::Full || params.chunk_index == 0
}

/// The checks `verify_pok_and_correctness` performs before looking at the
/// first output elements: the three proofs of knowledge, and the decoding
/// of the initial elements of both buffers.
pub open spec fn spec_pok_prelude_ok(
    inb: Seq<u8>,
    ci: UseCompression,
    check_in: CheckForCorrectness,
    outb: Seq<u8>,
    co: UseCompression,
    check_out: CheckForCorrectness,
    key: PublicKey,
    digest: Seq<u8>,
    params: CeremonyParams,
) -> bool {
    let gi = chunk_glayout(params, ci);
    let go = chunk_glayout(params, co);
    let cbi = is_compressed(ci);
    let cbo = is_compressed(co);
    let mt = crate::keypair::spec_pok_base_log(digest, key.tau_g1.0.repr(), key.tau_g1.1.repr(), 0);
    let ma = crate::keypair::spec_pok_base_log(
        digest,
        key.alpha_g1.0.repr(),
        key.alpha_g1.1.repr(),
        1,
    );
    let mb = crate::keypair::spec_pok_base_log(digest, key.beta_g1.0.repr(), key.beta_g1.1.repr(), 2);
    &&& crate::group::pairing_ratio_eq(
        key.tau_g1.0.repr(),
        key.tau_g1.1.repr(),
        g2_elem(mt),
        key.tau_g2.repr(),
    )
    &&& crate::group::pairing_ratio_eq(
        key.alpha_g1.0.repr(),
        key.alpha_g1.1.repr(),
        g2_elem(ma),
        key.alpha_g2.repr(),
    )
    &&& crate::group::pairing_ratio_eq(
        key.beta_g1.0.repr(),
        key.beta_g1.1.repr(),
        g2_elem(mb),
        key.beta_g2.repr(),
    )
    &&& spec_g1_read_ok(slot(inb, gi.tau_g1, gi.g1s, 0), cbi, check_in)
    &&& spec_g1_read_ok(slot(inb, gi.tau_g1, gi.g1s, 1), cbi, check_in)
    &&& spec_g1_read_ok(slot(outb, go.tau_g1, go.g1s, 0), cbo, check_out)
    &&& spec_g1_read_ok(slot(outb, go.tau_g1, go.g1s, 1), cbo, check_out)
    &&& spec_g2_read_ok(slot(inb, gi.tau_g2, gi.g2s, 0), cbi, check_in)
    &&& spec_g2_read_ok(slot(inb, gi.tau_g2, gi.g2s, 1), cbi, check_in)
    &&& spec_g2_read_ok(slot(outb, go.tau_g2, go.g2s, 0), cbo, check_out)
    &&& spec_g2_read_ok(slot(outb, go.tau_g2, go.g2s, 1), cbo, check_out)
    &&& spec_g1_read_ok(slot(inb, gi.alpha_g1, gi.g1s, 0), cbi, check_in)
    &&& spec_g1_read_ok(slot(outb, go.alpha_g1, go.g1s, 0), cbo, check_out)
    &&& spec_g1_read_ok(slot(inb, gi.beta_g1, gi.g1s, 0), cbi, check_in)
    &&& spec_g1_read_ok(slot(outb, go.beta_g1, go.g1s, 0), cbo, check_out)
    &&& spec_g2_read_ok(slot(inb, gi.beta_g2, gi.g2s, 0), cbi, check_in)
    &&& spec_g2_read_ok(slot(outb, go.beta_g2, go.g2s, 0), cbo, check_out)
}

/// Everything `verify_pok_and_correctness` checks.
///
/// On the first chunk: the three Schnorr-style proofs of knowledge pair
/// correctly against the transcript-derived G2 base points; the initial
/// elements of both buffers decode; the first output elements are the
/// generators; and each initial before/after pair has the ratio proven by
/// the public key.  On every chunk: each output element decodes to a
/// nonzero point of the prime-order subgroup.
pub open spec fn spec_pok_ok(
    inb: Seq<u8>,
    ci: UseCompression,
    check_in: CheckForCorrectness,
    outb: Seq<u8>,
    co: UseCompression,
    check_out: CheckForCorrectness,
    key: PublicKey,
    digest: Seq<u8>,
    params: CeremonyParams,
) -> bool {
    let gi = chunk_glayout(params, ci);
    let go = chunk_glayout(params, co);
    let cbi = is_compressed(ci);
    let cbo = is_compressed(co);
    let mt = crate::keypair::spec_pok_base_log(digest, key.tau_g1.0.repr(), key.tau_g1.1.repr(), 0);
    let ma = crate::keypair::spec_pok_base_log(
        digest,
        key.alpha_g1.0.repr(),
        key.alpha_g1.1.repr(),
        1,
    );
    let mb = crate::keypair::spec_pok_base_log(digest, key.beta_g1.0.repr(), key.beta_g1.1.repr(), 2);
    &&& (spec_first_chunk(params) ==> {
        &&& spec_pok_prelude_ok(inb, ci, check_in, outb, co, check_out, key, digest, params)
        &&& g1_canon(slot(outb, go.tau_g1, go.g1s, 0), cbo) == Some(g1_elem(1))
        &&& g2_canon(slot(outb, go.tau_g2, go.g2s, 0), cbo) == Some(g2_elem(1))
        &&& crate::group::pairing_ratio_eq(
            spec_g1_slot_canon(inb, gi.tau_g1, gi.g1s, 1, cbi),
            spec_g1_slot_canon(outb, go.tau_g1, go.g1s, 1, cbo),
            g2_elem(mt),
            key.tau_g2.repr(),
        )
        &&& crate::group::pairing_ratio_eq(
            key.tau_g1.0.repr(),
            key.tau_g1.1.repr(),
            spec_g2_slot_canon(inb, gi.tau_g2, gi.g2s, 1, cbi),
            spec_g2_slot_canon(outb, go.tau_g2, go.g2s, 1, cbo),
        )
        &&& crate::group::pairing_ratio_eq(
            spec_g1_slot_canon(inb, gi.alpha_g1, gi.g1s, 0, cbi),
            spec_g1_slot_canon(outb, go.alpha_g1, go.g1s, 0, cbo),
            g2_elem(ma),
            key.alpha_g2.repr(),
        )
        &&& crate::group::pairing_ratio_eq(
            spec_g1_slot_canon(inb, gi.beta_g1, gi.g1s, 0, cbi),
            spec_g1_slot_canon(outb, go.beta_g1, go.g1s, 0, cbo),
            g2_elem(mb),
            key.beta_g2.repr(),
        )
        &&& crate::group::pairing_ratio_eq(
            key.beta_g1.0.repr(),
            key.beta_g1.1.repr(),
            spec_g2_slot_canon(inb, gi.beta_g2, gi.g2s, 0, cbi),
            spec_g2_slot_canon(outb, go.beta_g2, go.g2s, 0, cbo),
        )
    })
    &&& forall|i: nat|
        i < go.g1c ==> spec_g1_read_ok(
            #[trigger] slot(outb, go.tau_g1, go.g1s, i),
            cbo,
            CheckForCorrectness::Both,
        )
    &&& forall|i: nat|
        i < go.oc ==> spec_g2_read_ok(
            #[trigger] slot(outb, go.tau_g2, go.g2s, i),
            cbo,
            CheckForCorrectness::Both,
        )
    &&& forall|i: nat|
        i < go.oc ==> spec_g1_read_ok(
            #[trigger] slot(outb, go.alpha_g1, go.g1s, i),
            cbo,
            CheckForCorrectness::Both,
        )
    &&& forall|i: nat|
        i < go.oc ==> spec_g1_read_ok(
            #[trigger] slot(outb, go.beta_g1, go.g1s, i),
            cbo,
            CheckForCorrectness::Both,
        )
}

/// All decoded values of a valid full-mode contribution, in the shapes the
/// verifier's checks expect.
proof fn lemma_pok_complete_facts(
    inb: Seq<u8>,
    ci: UseCompression,
    outb: Seq<u8>,
    co: UseCompression,
    params: CeremonyParams,
    t0: nat,
    a0: nat,
    b0: nat,
    kt: nat,
    ka: nat,
    kb: nat,
)
    requires
        params.wf(),
        params.contribution_mode == crate::params::ContributionMode::Full,
        params.powers_length >= 2,
        crate::modular::is_unit(t0),
        crate::modular::is_unit(a0),
        crate::modular::is_unit(b0),
        crate::modular::is_unit(kt),
        crate::modular::is_unit(ka),
        crate::modular::is_unit(kb),
        spec_pot_accumulator(inb, ci, params, t0, a0, b0),
        spec_contributed(inb, ci, outb, co, params, kt, ka, kb),
    ensures
        ({
            let gi = chunk_glayout(params, ci);
            let go = chunk_glayout(params, co);
            let cbi = is_compressed(ci);
            let cbo = is_compressed(co);
            &&& g1_parses(slot(inb, gi.tau_g1, gi.g1s, 0), cbi, 1)
            &&& g1_parses(slot(inb, gi.tau_g1, gi.g1s, 1), cbi, t0)
            &&& g1_parses(slot(outb, go.tau_g1, go.g1s, 0), cbo, 1)
            &&& g1_parses(slot(outb, go.tau_g1, go.g1s, 1), cbo, mul_mod(t0, kt))
            &&& g2_parses(slot(inb, gi.tau_g2, gi.g2s, 0), cbi, 1)
            &&& g2_parses(slot(inb, gi.tau_g2, gi.g2s, 1), cbi, t0)
            &&& g2_parses(slot(outb, go.tau_g2, go.g2s, 0), cbo, 1)
            &&& g2_parses(slot(outb, go.tau_g2, go.g2s, 1), cbo, mul_mod(t0, kt))
            &&& g1_parses(slot(inb, gi.alpha_g1, gi.g1s, 0), cbi, a0)
            &&& g1_parses(slot(outb, go.alpha_g1, go.g1s, 0), cbo, mul_mod(a0, ka))
            &&& g1_parses(slot(inb, gi.beta_g1, gi.g1s, 0), cbi, b0)
            &&& g1_parses(slot(outb, go.beta_g1, go.g1s, 0), cbo, mul_mod(b0, kb))
            &&& g2_parses(slot(inb, gi.beta_g2, gi.g2s, 0), cbi, b0)
            &&& g2_parses(slot(outb, go.beta_g2, go.g2s, 0), cbo, mul_mod(b0, kb))
            &&& spec_pot_accumulator(
                outb,
                co,
                params,
                mul_mod(t0, kt),
                mul_mod(a0, ka),
                mul_mod(b0, kb),
            )
            &&& crate::modular::is_unit(mul_mod(t0, kt))
            &&& crate::modular::is_unit(mul_mod(a0, ka))
            &&& crate::modular::is_unit(mul_mod(b0, kb))
            &&& mul_mod(t0, kt) == mul_mod(t0, kt)
        }),
{
    let gi = full_glayout(params, ci);
    let go = full_glayout(params, co);
    let cbi = is_compressed(ci);
    let cbo = is_compressed(co);
    assert(chunk_glayout(params, ci) == gi);
    assert(chunk_glayout(params, co) == go);
    lemma_contribution_chains(inb, ci, outb, co, params, t0, a0, b0, kt, ka, kb);
    crate::modular::lemma_unit_mul(t0, kt);
    crate::modular::lemma_unit_mul(a0, ka);
    crate::modular::lemma_unit_mul(b0, kb);
    lemma_pot_initials(inb, ci, params, t0, a0, b0);
    crate::modular::lemma_mul_mod_bound(t0, kt);
    lemma_pot_initials(outb, co, params, mul_mod(t0, kt), mul_mod(a0, ka), mul_mod(b0, kb));
    // The first AlphaG1/BetaG1 and BetaG2 elements.
    crate::modular::lemma_mul_mod_one_right(a0);
    crate::modular::lemma_mul_mod_one_right(b0);
    crate::modular::lemma_mul_mod_one_right(mul_mod(a0, ka));
    crate::modular::lemma_mul_mod_one_right(mul_mod(b0, kb));
    crate::modular::lemma_mul_mod_bound(a0, ka);
    crate::modular::lemma_mul_mod_bound(b0, kb);
    assert(g1_parses(slot(inb, gi.alpha_g1, gi.g1s, 0), cbi, mul_mod(a0, pow_mod(t0, 0))));
    assert(g1_parses(slot(inb, gi.beta_g1, gi.g1s, 0), cbi, mul_mod(b0, pow_mod(t0, 0))));
    assert(g1_parses(
        slot(outb, go.alpha_g1, go.g1s, 0),
        cbo,
        mul_mod(mul_mod(a0, ka), pow_mod(mul_mod(t0, kt), 0)),
    ));
    assert(g1_parses(
        slot(outb, go.beta_g1, go.g1s, 0),
        cbo,
        mul_mod(mul_mod(b0, kb), pow_mod(mul_mod(t0, kt), 0)),
    ));
}

/// Verifies one contribution: the proofs of knowledge bind the published
/// key to the transcript digest, the initial elements were multiplied by
/// exactly the secrets the key proves, and every output element is a
/// nonzero point of the prime-order subgroup.
///
/// Returns `Ok` exactly on pairs satisfying [`spec_pok_ok`]; in full mode,
/// a contribution honestly computed from a valid accumulator with a
/// matching key always passes.
#[verifier::rlimit(100)]
#[verifier::spinoff_prover]
pub fn verify_pok_and_correctness(
    input: &[u8],
    compressed_input: UseCompression,
    check_input: CheckForCorrectness,
    output: &[u8],
    compressed_output: UseCompression,
    check_output: CheckForCorrectness,
    key: &PublicKey,
    digest: &[u8],
    parameters: &CeremonyParams,
) -> (r: Result<(), Error>)
    requires
        parameters.wf(),
        parameters.curve.is_engine_curve(),
        spec_first_chunk(*parameters) ==> parameters.spec_other_count() >= 2
            && parameters.spec_g1_count() >= 2,
        input@.len() >= spec_chunk_len(*parameters, compressed_input),
        output@.len() >= spec_chunk_len(*parameters, compressed_output),
    ensures
        r is Ok <==> spec_pok_ok(
            input@,
            compressed_input,
            check_input,
            output@,
            compressed_output,
            check_output,
            *key,
            digest@,
            *parameters,
        ),
        r == Err::<(), Error>(Error::InvalidGenerator(ElementType::TauG1)) ==> g1_canon(
            slot(
                output@,
                chunk_glayout(*parameters, compressed_output).tau_g1,
                chunk_glayout(*parameters, compressed_output).g1s,
                0,
            ),
            is_compressed(compressed_output),
        ) != Some(g1_elem(1)),
        r == Err::<(), Error>(Error::InvalidGenerator(ElementType::TauG2)) ==> g2_canon(
            slot(
                output@,
                chunk_glayout(*parameters, compressed_output).tau_g2,
                chunk_glayout(*parameters, compressed_output).g2s,
                0,
            ),
            is_compressed(compressed_output),
        ) != Some(g2_elem(1)),
        ({
            let go = chunk_glayout(*parameters, compressed_output);
            let cbo = is_compressed(compressed_output);
            let prelude = spec_pok_prelude_ok(
                input@,
                compressed_input,
                check_input,
                output@,
                compressed_output,
                check_output,
                *key,
                digest@,
                *parameters,
            );
            &&& (spec_first_chunk(*parameters) && prelude && g1_canon(
                slot(output@, go.tau_g1, go.g1s, 0),
                cbo,
            ) != Some(g1_elem(1)) ==> r == Err::<(), Error>(
                Error::InvalidGenerator(ElementType::TauG1),
            ))
            &&& (spec_first_chunk(*parameters) && prelude && g1_canon(
                slot(output@, go.tau_g1, go.g1s, 0),
                cbo,
            ) == Some(g1_elem(1)) && g2_canon(slot(output@, go.tau_g2, go.g2s, 0), cbo) != Some(
                g2_elem(1),
            ) ==> r == Err::<(), Error>(Error::InvalidGenerator(ElementType::TauG2)))
        }),
        forall|t0: nat, a0: nat, b0: nat, kt: nat, ka: nat, kb: nat, st: nat, sa: nat, sb: nat|
            parameters.contribution_mode == crate::params::ContributionMode::Full
                && crate::modular::is_unit(t0) && crate::modular::is_unit(a0)
                && crate::modular::is_unit(b0) && crate::modular::is_unit(kt)
                && crate::modular::is_unit(ka) && crate::modular::is_unit(kb)
                && #[trigger] spec_pot_accumulator(input@, compressed_input, *parameters, t0, a0, b0)
                && spec_contributed(
                input@,
                compressed_input,
                output@,
                compressed_output,
                *parameters,
                kt,
                ka,
                kb,
            ) && #[trigger] crate::keypair::spec_key_matches(*key, digest@, kt, ka, kb, st, sa, sb)
                ==> r is Ok,
{
    let n_in = input.len();
    let n_out = output.len();
    let li = Layout::chunk(parameters, compressed_input);
    let lo = Layout::chunk(parameters, compressed_output);
    let ghost gi = chunk_glayout(*parameters, compressed_input);
    let ghost go = chunk_glayout(*parameters, compressed_output);
    let ghost cbi = is_compressed(compressed_input);
    let ghost cbo = is_compressed(compressed_output);
    proof {
        li.lemma_gl();
        lo.lemma_gl();
        assert(gi == li.gl());
        assert(go == lo.gl());
        assert(gi.g1s == g1_enc_size(cbi));
        assert(gi.g2s == g2_enc_size(cbi));
        assert(go.g1s == g1_enc_size(cbo));
        assert(go.g2s == g2_enc_size(cbo));
        assert(0 * gi.g1s == 0 && 0 * gi.g2s == 0 && 0 * go.g1s == 0 && 0 * go.g2s == 0)
            by (nonlinear_arith);
        assert(1 * gi.g1s == gi.g1s && 1 * gi.g2s == gi.g2s && 1 * go.g1s == go.g1s && 1 * go.g2s
            == go.g2s) by (nonlinear_arith);
        assert(2 * gi.g1s == gi.g1s + gi.g1s && 2 * gi.g2s == gi.g2s + gi.g2s) by (nonlinear_arith);
        assert(2 * go.g1s == go.g1s + go.g1s && 2 * go.g2s == go.g2s + go.g2s) by (nonlinear_arith);
    }
    let first_chunk = match parameters.contribution_mode {
        crate::params::ContributionMode::Full => true,
        crate::params::ContributionMode::Chunked => parameters.chunk_index == 0,
    };
    if first_chunk {
        proof {
            lemma_mul_le(2, gi.g1c, gi.g1s);
            lemma_mul_le(2, gi.oc, gi.g2s);
            lemma_mul_le(2, go.g1c, go.g1s);
            lemma_mul_le(2, go.oc, go.g2s);
            lemma_mul_le(1, gi.oc, gi.g1s);
            lemma_mul_le(1, go.oc, go.g1s);
        }
        let g2_s_t = crate::keypair::compute_g2_s(digest, &key.tau_g1.0, &key.tau_g1.1, 0);
        let g2_s_a = crate::keypair::compute_g2_s(digest, &key.alpha_g1.0, &key.alpha_g1.1, 1);
        let g2_s_b = crate::keypair::compute_g2_s(digest, &key.beta_g1.0, &key.beta_g1.1, 2);
        if !crate::group::same_ratio(&key.tau_g1.0, &key.tau_g1.1, &g2_s_t, &key.tau_g2) {
            proof {
                assert forall|t0: nat, a0: nat, b0: nat, kt: nat, ka: nat, kb: nat, st: nat, sa: nat, sb: nat|
                    parameters.contribution_mode == crate::params::ContributionMode::Full
                        && crate::modular::is_unit(t0) && crate::modular::is_unit(a0)
                        && crate::modular::is_unit(b0) && crate::modular::is_unit(kt)
                        && crate::modular::is_unit(ka) && crate::modular::is_unit(kb)
                        && spec_pot_accumulator(input@, compressed_input, *parameters, t0, a0, b0)
                        && spec_contributed(
                        input@,
                        compressed_input,
                        output@,
                        compressed_output,
                        *parameters,
                        kt,
                        ka,
                        kb,
                    ) && crate::keypair::spec_key_matches(*key, digest@, kt, ka, kb, st, sa, sb)
                    implies false by {
                    lemma_pok_complete_facts(
                        input@,
                        compressed_input,
                        output@,
                        compressed_output,
                        *parameters,
                        t0,
                        a0,
                        b0,
                        kt,
                        ka,
                        kb,
                    );
                    assert(key.tau_g1.0.repr() == g1_elem(st));
                    assert(key.tau_g1.1.repr() == g1_elem(mul_mod(st, kt)));
                }
            }
            return Err(Error::InvalidProofOfKnowledge(ElementType::TauG1));
        }
        if !crate::group::same_ratio(&key.alpha_g1.0, &key.alpha_g1.1, &g2_s_a, &key.alpha_g2) {
            proof {
                assert forall|t0: nat, a0: nat, b0: nat, kt: nat, ka: nat, kb: nat, st: nat, sa: nat, sb: nat|
                    parameters.contribution_mode == crate::params::ContributionMode::Full
                        && crate::modular::is_unit(t0) && crate::modular::is_unit(a0)
                        && crate::modular::is_unit(b0) && crate::modular::is_unit(kt)
                        && crate::modular::is_unit(ka) && crate::modular::is_unit(kb)
                        && spec_pot_accumulator(input@, compressed_input, *parameters, t0, a0, b0)
                        && spec_contributed(
                        input@,
                        compressed_input,
                        output@,
                        compressed_output,
                        *parameters,
                        kt,
                        ka,
                        kb,
                    ) && crate::keypair::spec_key_matches(*key, digest@, kt, ka, kb, st, sa, sb)
                    implies false by {
                    lemma_pok_complete_facts(
                        input@,
                        compressed_input,
                        output@,
                        compressed_output,
                        *parameters,
                        t0,
                        a0,
                        b0,
                        kt,
                        ka,
                        kb,
                    );
                    assert(key.alpha_g1.0.repr() == g1_elem(sa));
                    assert(key.alpha_g1.1.repr() == g1_elem(mul_mod(sa, ka)));
                }
            }
            return Err(Error::InvalidProofOfKnowledge(ElementType::AlphaG1));
        }
        if !crate::group::same_ratio(&key.beta_g1.0, &key.beta_g1.1, &g2_s_b, &key.beta_g2) {
            proof {
                assert forall|t0: nat, a0: nat, b0: nat, kt: nat, ka: nat, kb: nat, st: nat, sa: nat, sb: nat|
                    parameters.contribution_mode == crate::params::ContributionMode::Full
                        && crate::modular::is_unit(t0) && crate::modular::is_unit(a0)
                        && crate::modular::is_unit(b0) && crate::modular::is_unit(kt)
                        && crate::modular::is_unit(ka) && crate::modular::is_unit(kb)
                        && spec_pot_accumulator(input@, compressed_input, *parameters, t0, a0, b0)
                        && spec_contributed(
                        input@,
                        compressed_input,
                        output@,
                        compressed_output,
                        *parameters,
                        kt,
                        ka,
                        kb,
                    ) && crate::keypair::spec_key_matches(*key, digest@, kt, ka, kb, st, sa, sb)
                    implies false by {
                    lemma_pok_complete_facts(
                        input@,
                        compressed_input,
                        output@,
                        compressed_output,
                        *parameters,
                        t0,
                        a0,
                        b0,
                        kt,
                        ka,
                        kb,
                    );
                    assert(key.beta_g1.0.repr() == g1_elem(sb));
                    assert(key.beta_g1.1.repr() == g1_elem(mul_mod(sb, kb)));
                }
            }
            return Err(Error::InvalidProofOfKnowledge(ElementType::BetaG1));
        }
        let ghost in_t1_0s = slot(input@, gi.tau_g1, gi.g1s, 0);
        let ghost in_t1_1s = slot(input@, gi.tau_g1, gi.g1s, 1);
        let ghost out_t1_0s = slot(output@, go.tau_g1, go.g1s, 0);
        let ghost out_t1_1s = slot(output@, go.tau_g1, go.g1s, 1);
        let ghost in_t2_0s = slot(input@, gi.tau_g2, gi.g2s, 0);
        let ghost in_t2_1s = slot(input@, gi.tau_g2, gi.g2s, 1);
        let ghost out_t2_0s = slot(output@, go.tau_g2, go.g2s, 0);
        let ghost out_t2_1s = slot(output@, go.tau_g2, go.g2s, 1);
        let ghost in_a0s = slot(input@, gi.alpha_g1, gi.g1s, 0);
        let ghost out_a0s = slot(output@, go.alpha_g1, go.g1s, 0);
        let ghost in_b0s = slot(input@, gi.beta_g1, gi.g1s, 0);
        let ghost out_b0s = slot(output@, go.beta_g1, go.g1s, 0);
        let ghost in_bg2s = slot(input@, gi.beta_g2, gi.g2s, 0);
        let ghost out_bg2s = slot(output@, go.beta_g2, go.g2s, 0);
        proof {
            assert(in_t1_0s == input@.subrange(gi.tau_g1 as int, (gi.tau_g1 + gi.g1s) as int));
            assert(in_t1_1s == input@.subrange(
                (gi.tau_g1 + gi.g1s) as int,
                (gi.tau_g1 + gi.g1s + gi.g1s) as int,
            ));
            assert(out_t1_0s == output@.subrange(go.tau_g1 as int, (go.tau_g1 + go.g1s) as int));
            assert(out_t1_1s == output@.subrange(
                (go.tau_g1 + go.g1s) as int,
                (go.tau_g1 + go.g1s + go.g1s) as int,
            ));
            assert(in_t2_0s == input@.subrange(gi.tau_g2 as int, (gi.tau_g2 + gi.g2s) as int));
            assert(in_t2_1s == input@.subrange(
                (gi.tau_g2 + gi.g2s) as int,
                (gi.tau_g2 + gi.g2s + gi.g2s) as int,
            ));
            assert(out_t2_0s == output@.subrange(go.tau_g2 as int, (go.tau_g2 + go.g2s) as int));
            assert(out_t2_1s == output@.subrange(
                (go.tau_g2 + go.g2s) as int,
                (go.tau_g2 + go.g2s + go.g2s) as int,
            ));
            assert(in_a0s == input@.subrange(gi.alpha_g1 as int, (gi.alpha_g1 + gi.g1s) as int));
            assert(out_a0s == output@.subrange(go.alpha_g1 as int, (go.alpha_g1 + go.g1s) as int));
            assert(in_b0s == input@.subrange(gi.beta_g1 as int, (gi.beta_g1 + gi.g1s) as int));
            assert(out_b0s == output@.subrange(go.beta_g1 as int, (go.beta_g1 + go.g1s) as int));
            assert(in_bg2s == input@.subrange(gi.beta_g2 as int, (gi.beta_g2 + gi.g2s) as int));
            assert(out_bg2s == output@.subrange(go.beta_g2 as int, (go.beta_g2 + go.g2s) as int));
        }
        let in_t1_0 = match read_g1_at(input, li.tau_g1, compressed_input, check_input, ElementType::TauG1) {
            Ok(p) => p,
            Err(e) => {
            proof {
                assert forall|t0: nat, a0: nat, b0: nat, kt: nat, ka: nat, kb: nat, st: nat, sa: nat, sb: nat|
                    parameters.contribution_mode == crate::params::ContributionMode::Full
                        && crate::modular::is_unit(t0) && crate::modular::is_unit(a0)
                        && crate::modular::is_unit(b0) && crate::modular::is_unit(kt)
                        && crate::modular::is_unit(ka) && crate::modular::is_unit(kb)
                        && spec_pot_accumulator(input@, compressed_input, *parameters, t0, a0, b0)
                        && spec_contributed(
                        input@,
                        compressed_input,
                        output@,
                        compressed_output,
                        *parameters,
                        kt,
                        ka,
                        kb,
                    ) && crate::keypair::spec_key_matches(*key, digest@, kt, ka, kb, st, sa, sb)
                    implies false by {
                    lemma_pok_complete_facts(
                        input@,
                        compressed_input,
                        output@,
                        compressed_output,
                        *parameters,
                        t0,
                        a0,
                        b0,
                        kt,
                        ka,
                        kb,
                    );
                    assert(g1_parses(in_t1_0s, cbi, 1nat));
                }
            }
                return Err(e);
            },
        };
        let in_t1_1 = match read_g1_at(input, li.tau_g1 + li.g1_size, compressed_input, check_input, ElementType::TauG1) {
            Ok(p) => p,
            Err(e) => {
            proof {
                assert forall|t0: nat, a0: nat, b0: nat, kt: nat, ka: nat, kb: nat, st: nat, sa: nat, sb: nat|
                    parameters.contribution_mode == crate::params::ContributionMode::Full
                        && crate::modular::is_unit(t0) && crate::modular::is_unit(a0)
                        && crate::modular::is_unit(b0) && crate::modular::is_unit(kt)
                        && crate::modular::is_unit(ka) && crate::modular::is_unit(kb)
                        && spec_pot_accumulator(input@, compressed_input, *parameters, t0, a0, b0)
                        && spec_contributed(
                        input@,
                        compressed_input,
                        output@,
                        compressed_output,
                        *parameters,
                        kt,
                        ka,
                        kb,
                    ) && crate::keypair::spec_key_matches(*key, digest@, kt, ka, kb, st, sa, sb)
                    implies false by {
                    lemma_pok_complete_facts(
                        input@,
                        compressed_input,
                        output@,
                        compressed_output,
                        *parameters,
                        t0,
                        a0,
                        b0,
                        kt,
                        ka,
                        kb,
                    );
                    assert(g1_parses(in_t1_1s, cbi, t0));
                }
            }
                return Err(e);
            },
        };
        let out_t1_0 = match read_g1_at(output, lo.tau_g1, compressed_output, check_output, ElementType::TauG1) {
            Ok(p) => p,
            Err(e) => {
            proof {
                assert forall|t0: nat, a0: nat, b0: nat, kt: nat, ka: nat, kb: nat, st: nat, sa: nat, sb: nat|
                    parameters.contribution_mode == crate::params::ContributionMode::Full
                        && crate::modular::is_unit(t0) && crate::modular::is_unit(a0)
                        && crate::modular::is_unit(b0) && crate::modular::is_unit(kt)
                        && crate::modular::is_unit(ka) && crate::modular::is_unit(kb)
                        && spec_pot_accumulator(input@, compressed_input, *parameters, t0, a0, b0)
                        && spec_contributed(
                        input@,
                        compressed_input,
                        output@,
                        compressed_output,
                        *parameters,
                        kt,
                        ka,
                        kb,
                    ) && crate::keypair::spec_key_matches(*key, digest@, kt, ka, kb, st, sa, sb)
                    implies false by {
                    lemma_pok_complete_facts(
                        input@,
                        compressed_input,
                        output@,
                        compressed_output,
                        *parameters,
                        t0,
                        a0,
                        b0,
                        kt,
                        ka,
                        kb,
                    );
                    assert(g1_parses(out_t1_0s, cbo, 1nat));
                }
            }
                return Err(e);
            },
        };
        let out_t1_1 = match read_g1_at(output, lo.tau_g1 + lo.g1_size, compressed_output, check_output, ElementType::TauG1) {
            Ok(p) => p,
            Err(e) => {
            proof {
                assert forall|t0: nat, a0: nat, b0: nat, kt: nat, ka: nat, kb: nat, st: nat, sa: nat, sb: nat|
                    parameters.contribution_mode == crate::params::ContributionMode::Full
                        && crate::modular::is_unit(t0) && crate::modular::is_unit(a0)
                        && crate::modular::is_unit(b0) && crate::modular::is_unit(kt)
                        && crate::modular::is_unit(ka) && crate::modular::is_unit(kb)
                        && spec_pot_accumulator(input@, compressed_input, *parameters, t0, a0, b0)
                        && spec_contributed(
                        input@,
                        compressed_input,
                        output@,
                        compressed_output,
                        *parameters,
                        kt,
                        ka,
                        kb,
                    ) && crate::keypair::spec_key_matches(*key, digest@, kt, ka, kb, st, sa, sb)
                    implies false by {
                    lemma_pok_complete_facts(
                        input@,
                        compressed_input,
                        output@,
                        compressed_output,
                        *parameters,
                        t0,
                        a0,
                        b0,
                        kt,
                        ka,
                        kb,
                    );
                    assert(g1_parses(out_t1_1s, cbo, mul_mod(t0, kt)));
                }
            }
                return Err(e);
            },
        };
        let in_t2_0 = match read_g2_at(input, li.tau_g2, compressed_input, check_input, ElementType::TauG2) {
            Ok(p) => p,
            Err(e) => {
            proof {
                assert forall|t0: nat, a0: nat, b0: nat, kt: nat, ka: nat, kb: nat, st: nat, sa: nat, sb: nat|
                    parameters.contribution_mode == crate::params::ContributionMode::Full
                        && crate::modular::is_unit(t0) && crate::modular::is_unit(a0)
                        && crate::modular::is_unit(b0) && crate::modular::is_unit(kt)
                        && crate::modular::is_unit(ka) && crate::modular::is_unit(kb)
                        && spec_pot_accumulator(input@, compressed_input, *parameters, t0, a0, b0)
                        && spec_contributed(
                        input@,
                        compressed_input,
                        output@,
                        compressed_output,
                        *parameters,
                        kt,
                        ka,
                        kb,
                    ) && crate::keypair::spec_key_matches(*key, digest@, kt, ka, kb, st, sa, sb)
                    implies false by {
                    lemma_pok_complete_facts(
                        input@,
                        compressed_input,
                        output@,
                        compressed_output,
                        *parameters,
                        t0,
                        a0,
                        b0,
                        kt,
                        ka,
                        kb,
                    );
                    assert(g2_parses(in_t2_0s, cbi, 1nat));
                }
            }
                return Err(e);
            },
        };
        let in_t2_1 = match read_g2_at(input, li.tau_g2 + li.g2_size, compressed_input, check_input, ElementType::TauG2) {
            Ok(p) => p,
            Err(e) => {
            proof {
                assert forall|t0: nat, a0: nat, b0: nat, kt: nat, ka: nat, kb: nat, st: nat, sa: nat, sb: nat|
                    parameters.contribution_mode == crate::params::ContributionMode::Full
                        && crate::modular::is_unit(t0) && crate::modular::is_unit(a0)
                        && crate::modular::is_unit(b0) && crate::modular::is_unit(kt)
                        && crate::modular::is_unit(ka) && crate::modular::is_unit(kb)
                        && spec_pot_accumulator(input@, compressed_input, *parameters, t0, a0, b0)
                        && spec_contributed(
                        input@,
                        compressed_input,
                        output@,
                        compressed_output,
                        *parameters,
                        kt,
                        ka,
                        kb,
                    ) && crate::keypair::spec_key_matches(*key, digest@, kt, ka, kb, st, sa, sb)
                    implies false by {
                    lemma_pok_complete_facts(
                        input@,
                        compressed_input,
                        output@,
                        compressed_output,
                        *parameters,
                        t0,
                        a0,
                        b0,
                        kt,
                        ka,
                        kb,
                    );
                    assert(g2_parses(in_t2_1s, cbi, t0));
                }
            }
                return Err(e);
            },
        };
        let out_t2_0 = match read_g2_at(output, lo.tau_g2, compressed_output, check_output, ElementType::TauG2) {
            Ok(p) => p,
            Err(e) => {
            proof {
                assert forall|t0: nat, a0: nat, b0: nat, kt: nat, ka: nat, kb: nat, st: nat, sa: nat, sb: nat|
                    parameters.contribution_mode == crate::params::ContributionMode::Full
                        && crate::modular::is_unit(t0) && crate::modular::is_unit(a0)
                        && crate::modular::is_unit(b0) && crate::modular::is_unit(kt)
                        && crate::modular::is_unit(ka) && crate::modular::is_unit(kb)
                        && spec_pot_accumulator(input@, compressed_input, *parameters, t0, a0, b0)
                        && spec_contributed(
                        input@,
                        compressed_input,
                        output@,
                        compressed_output,
                        *parameters,
                        kt,
                        ka,
                        kb,
                    ) && crate::keypair::spec_key_matches(*key, digest@, kt, ka, kb, st, sa, sb)
                    implies false by {
                    lemma_pok_complete_facts(
                        input@,
                        compressed_input,
                        output@,
                        compressed_output,
                        *parameters,
                        t0,
                        a0,
                        b0,
                        kt,
                        ka,
                        kb,
                    );
                    assert(g2_parses(out_t2_0s, cbo, 1nat));
                }
            }
                return Err(e);
            },
        };
        let out_t2_1 = match read_g2_at(output, lo.tau_g2 + lo.g2_size, compressed_output, check_output, ElementType::TauG2) {
            Ok(p) => p,
            Err(e) => {
            proof {
                assert forall|t0: nat, a0: nat, b0: nat, kt: nat, ka: nat, kb: nat, st: nat, sa: nat, sb: nat|
                    parameters.contribution_mode == crate::params::ContributionMode::Full
                        && crate::modular::is_unit(t0) && crate::modular::is_unit(a0)
                        && crate::modular::is_unit(b0) && crate::modular::is_unit(kt)
                        && crate::modular::is_unit(ka) && crate::modular::is_unit(kb)
                        && spec_pot_accumulator(input@, compressed_input, *parameters, t0, a0, b0)
                        && spec_contributed(
                        input@,
                        compressed_input,
                        output@,
                        compressed_output,
                        *parameters,
                        kt,
                        ka,
                        kb,
                    ) && crate::keypair::spec_key_matches(*key, digest@, kt, ka, kb, st, sa, sb)
                    implies false by {
                    lemma_pok_complete_facts(
                        input@,
                        compressed_input,
                        output@,
                        compressed_output,
                        *parameters,
                        t0,
                        a0,
                        b0,
                        kt,
                        ka,
                        kb,
                    );
                    assert(g2_parses(out_t2_1s, cbo, mul_mod(t0, kt)));
                }
            }
                return Err(e);
            },
        };
        let in_a0 = match read_g1_at(input, li.alpha_g1, compressed_input, check_input, ElementType::AlphaG1) {
            Ok(p) => p,
            Err(e) => {
            proof {
                assert forall|t0: nat, a0: nat, b0: nat, kt: nat, ka: nat, kb: nat, st: nat, sa: nat, sb: nat|
                    parameters.contribution_mode == crate::params::ContributionMode::Full
                        && crate::modular::is_unit(t0) && crate::modular::is_unit(a0)
                        && crate::modular::is_unit(b0) && crate::modular::is_unit(kt)
                        && crate::modular::is_unit(ka) && crate::modular::is_unit(kb)
                        && spec_pot_accumulator(input@, compressed_input, *parameters, t0, a0, b0)
                        && spec_contributed(
                        input@,
                        compressed_input,
                        output@,
                        compressed_output,
                        *parameters,
                        kt,
                        ka,
                        kb,
                    ) && crate::keypair::spec_key_matches(*key, digest@, kt, ka, kb, st, sa, sb)
                    implies false by {
                    lemma_pok_complete_facts(
                        input@,
                        compressed_input,
                        output@,
                        compressed_output,
                        *parameters,
                        t0,
                        a0,
                        b0,
                        kt,
                        ka,
                        kb,
                    );
                    assert(g1_parses(in_a0s, cbi, a0));
                }
            }
                return Err(e);
            },
        };
        let out_a0 = match read_g1_at(output, lo.alpha_g1, compressed_output, check_output, ElementType::AlphaG1) {
            Ok(p) => p,
            Err(e) => {
            proof {
                assert forall|t0: nat, a0: nat, b0: nat, kt: nat, ka: nat, kb: nat, st: nat, sa: nat, sb: nat|
                    parameters.contribution_mode == crate::params::ContributionMode::Full
                        && crate::modular::is_unit(t0) && crate::modular::is_unit(a0)
                        && crate::modular::is_unit(b0) && crate::modular::is_unit(kt)
                        && crate::modular::is_unit(ka) && crate::modular::is_unit(kb)
                        && spec_pot_accumulator(input@, compressed_input, *parameters, t0, a0, b0)
                        && spec_contributed(
                        input@,
                        compressed_input,
                        output@,
                        compressed_output,
                        *parameters,
                        kt,
                        ka,
                        kb,
                    ) && crate::keypair::spec_key_matches(*key, digest@, kt, ka, kb, st, sa, sb)
                    implies false by {
                    lemma_pok_complete_facts(
                        input@,
                        compressed_input,
                        output@,
                        compressed_output,
                        *parameters,
                        t0,
                        a0,
                        b0,
                        kt,
                        ka,
                        kb,
                    );
                    assert(g1_parses(out_a0s, cbo, mul_mod(a0, ka)));
                }
            }
                return Err(e);
            },
        };
        let in_b0 = match read_g1_at(input, li.beta_g1, compressed_input, check_input, ElementType::BetaG1) {
            Ok(p) => p,
            Err(e) => {
            proof {
                assert forall|t0: nat, a0: nat, b0: nat, kt: nat, ka: nat, kb: nat, st: nat, sa: nat, sb: nat|
                    parameters.contribution_mode == crate::params::ContributionMode::Full
                        && crate::modular::is_unit(t0) && crate::modular::is_unit(a0)
                        && crate::modular::is_unit(b0) && crate::modular::is_unit(kt)
                        && crate::modular::is_unit(ka) && crate::modular::is_unit(kb)
                        && spec_pot_accumulator(input@, compressed_input, *parameters, t0, a0, b0)
                        && spec_contributed(
                        input@,
                        compressed_input,
                        output@,
                        compressed_output,
                        *parameters,
                        kt,
                        ka,
                        kb,
                    ) && crate::keypair::spec_key_matches(*key, digest@, kt, ka, kb, st, sa, sb)
                    implies false by {
                    lemma_pok_complete_facts(
                        input@,
                        compressed_input,
                        output@,
                        compressed_output,
                        *parameters,
                        t0,
                        a0,
                        b0,
                        kt,
                        ka,
                        kb,
                    );
                    assert(g1_parses(in_b0s, cbi, b0));
                }
            }
                return Err(e);
            },
        };
        let out_b0 = match read_g1_at(output, lo.beta_g1, compressed_output, check_output, ElementType::BetaG1) {
            Ok(p) => p,
            Err(e) => {
            proof {
                assert forall|t0: nat, a0: nat, b0: nat, kt: nat, ka: nat, kb: nat, st: nat, sa: nat, sb: nat|
                    parameters.contribution_mode == crate::params::ContributionMode::Full
                        && crate::modular::is_unit(t0) && crate::modular::is_unit(a0)
                        && crate::modular::is_unit(b0) && crate::modular::is_unit(kt)
                        && crate::modular::is_unit(ka) && crate::modular::is_unit(kb)
                        && spec_pot_accumulator(input@, compressed_input, *parameters, t0, a0, b0)
                        && spec_contributed(
                        input@,
                        compressed_input,
                        output@,
                        compressed_output,
                        *parameters,
                        kt,
                        ka,
                        kb,
                    ) && crate::keypair::spec_key_matches(*key, digest@, kt, ka, kb, st, sa, sb)
                    implies false by {
                    lemma_pok_complete_facts(
                        input@,
                        compressed_input,
                        output@,
                        compressed_output,
                        *parameters,
                        t0,
                        a0,
                        b0,
                        kt,
                        ka,
                        kb,
                    );
                    assert(g1_parses(out_b0s, cbo, mul_mod(b0, kb)));
                }
            }
                return Err(e);
            },
        };
        let in_bg2 = match read_g2_at(input, li.beta_g2, compressed_input, check_input, ElementType::BetaG2) {
            Ok(p) => p,
            Err(e) => {
            proof {
                assert forall|t0: nat, a0: nat, b0: nat, kt: nat, ka: nat, kb: nat, st: nat, sa: nat, sb: nat|
                    parameters.contribution_mode == crate::params::ContributionMode::Full
                        && crate::modular::is_unit(t0) && crate::modular::is_unit(a0)
                        && crate::modular::is_unit(b0) && crate::modular::is_unit(kt)
                        && crate::modular::is_unit(ka) && crate::modular::is_unit(kb)
                        && spec_pot_accumulator(input@, compressed_input, *parameters, t0, a0, b0)
                        && spec_contributed(
                        input@,
                        compressed_input,
                        output@,
                        compressed_output,
                        *parameters,
                        kt,
                        ka,
                        kb,
                    ) && crate::keypair::spec_key_matches(*key, digest@, kt, ka, kb, st, sa, sb)
                    implies false by {
                    lemma_pok_complete_facts(
                        input@,
                        compressed_input,
                        output@,
                        compressed_output,
                        *parameters,
                        t0,
                        a0,
                        b0,
                        kt,
                        ka,
                        kb,
                    );
                    assert(g2_parses(in_bg2s, cbi, b0));
                }
            }
                return Err(e);
            },
        };
        let out_bg2 = match read_g2_at(output, lo.beta_g2, compressed_output, check_output, ElementType::BetaG2) {
            Ok(p) => p,
            Err(e) => {
            proof {
                assert forall|t0: nat, a0: nat, b0: nat, kt: nat, ka: nat, kb: nat, st: nat, sa: nat, sb: nat|
                    parameters.contribution_mode == crate::params::ContributionMode::Full
                        && crate::modular::is_unit(t0) && crate::modular::is_unit(a0)
                        && crate::modular::is_unit(b0) && crate::modular::is_unit(kt)
                        && crate::modular::is_unit(ka) && crate::modular::is_unit(kb)
                        && spec_pot_accumulator(input@, compressed_input, *parameters, t0, a0, b0)
                        && spec_contributed(
                        input@,
                        compressed_input,
                        output@,
                        compressed_output,
                        *parameters,
                        kt,
                        ka,
                        kb,
                    ) && crate::keypair::spec_key_matches(*key, digest@, kt, ka, kb, st, sa, sb)
                    implies false by {
                    lemma_pok_complete_facts(
                        input@,
                        compressed_input,
                        output@,
                        compressed_output,
                        *parameters,
                        t0,
                        a0,
                        b0,
                        kt,
                        ka,
                        kb,
                    );
                    assert(g2_parses(out_bg2s, cbo, mul_mod(b0, kb)));
                }
            }
                return Err(e);
            },
        };
        let g1_one = g1_generator();
        if !crate::group::g1_eq(&out_t1_0, &g1_one) {
            proof {
                assert forall|t0: nat, a0: nat, b0: nat, kt: nat, ka: nat, kb: nat, st: nat, sa: nat, sb: nat|
                    parameters.contribution_mode == crate::params::ContributionMode::Full
                        && crate::modular::is_unit(t0) && crate::modular::is_unit(a0)
                        && crate::modular::is_unit(b0) && crate::modular::is_unit(kt)
                        && crate::modular::is_unit(ka) && crate::modular::is_unit(kb)
                        && spec_pot_accumulator(input@, compressed_input, *parameters, t0, a0, b0)
                        && spec_contributed(
                        input@,
                        compressed_input,
                        output@,
                        compressed_output,
                        *parameters,
                        kt,
                        ka,
                        kb,
                    ) && crate::keypair::spec_key_matches(*key, digest@, kt, ka, kb, st, sa, sb)
                    implies false by {
                    lemma_pok_complete_facts(
                        input@,
                        compressed_input,
                        output@,
                        compressed_output,
                        *parameters,
                        t0,
                        a0,
                        b0,
                        kt,
                        ka,
                        kb,
                    );
                    assert(out_t1_0.repr() == g1_elem(1));
                }
            }
            return Err(Error::InvalidGenerator(ElementType::TauG1));
        }
        let g2_one = g2_generator();
        if !crate::group::g2_eq(&out_t2_0, &g2_one) {
            proof {
                assert forall|t0: nat, a0: nat, b0: nat, kt: nat, ka: nat, kb: nat, st: nat, sa: nat, sb: nat|
                    parameters.contribution_mode == crate::params::ContributionMode::Full
                        && crate::modular::is_unit(t0) && crate::modular::is_unit(a0)
                        && crate::modular::is_unit(b0) && crate::modular::is_unit(kt)
                        && crate::modular::is_unit(ka) && crate::modular::is_unit(kb)
                        && spec_pot_accumulator(input@, compressed_input, *parameters, t0, a0, b0)
                        && spec_contributed(
                        input@,
                        compressed_input,
                        output@,
                        compressed_output,
                        *parameters,
                        kt,
                        ka,
                        kb,
                    ) && crate::keypair::spec_key_matches(*key, digest@, kt, ka, kb, st, sa, sb)
                    implies false by {
                    lemma_pok_complete_facts(
                        input@,
                        compressed_input,
                        output@,
                        compressed_output,
                        *parameters,
                        t0,
                        a0,
                        b0,
                        kt,
                        ka,
                        kb,
                    );
                    assert(out_t2_0.repr() == g2_elem(1));
                }
            }
            return Err(Error::InvalidGenerator(ElementType::TauG2));
        }
        if !crate::group::same_ratio(&in_t1_1, &out_t1_1, &g2_s_t, &key.tau_g2) {
            proof {
                assert forall|t0: nat, a0: nat, b0: nat, kt: nat, ka: nat, kb: nat, st: nat, sa: nat, sb: nat|
                    parameters.contribution_mode == crate::params::ContributionMode::Full
                        && crate::modular::is_unit(t0) && crate::modular::is_unit(a0)
                        && crate::modular::is_unit(b0) && crate::modular::is_unit(kt)
                        && crate::modular::is_unit(ka) && crate::modular::is_unit(kb)
                        && spec_pot_accumulator(input@, compressed_input, *parameters, t0, a0, b0)
                        && spec_contributed(
                        input@,
                        compressed_input,
                        output@,
                        compressed_output,
                        *parameters,
                        kt,
                        ka,
                        kb,
                    ) && crate::keypair::spec_key_matches(*key, digest@, kt, ka, kb, st, sa, sb)
                    implies false by {
                    lemma_pok_complete_facts(
                        input@,
                        compressed_input,
                        output@,
                        compressed_output,
                        *parameters,
                        t0,
                        a0,
                        b0,
                        kt,
                        ka,
                        kb,
                    );
                    assert(in_t1_1.repr() == g1_elem(t0));
                    assert(out_t1_1.repr() == g1_elem(mul_mod(t0, kt)));
                    assert(key.tau_g1.0.repr() == g1_elem(st));
                    assert(key.tau_g1.1.repr() == g1_elem(mul_mod(st, kt)));
                }
            }
            return Err(Error::InvalidRatio(ElementType::TauG1));
        }
        if !crate::group::same_ratio(&key.tau_g1.0, &key.tau_g1.1, &in_t2_1, &out_t2_1) {
            proof {
                assert forall|t0: nat, a0: nat, b0: nat, kt: nat, ka: nat, kb: nat, st: nat, sa: nat, sb: nat|
                    parameters.contribution_mode == crate::params::ContributionMode::Full
                        && crate::modular::is_unit(t0) && crate::modular::is_unit(a0)
                        && crate::modular::is_unit(b0) && crate::modular::is_unit(kt)
                        && crate::modular::is_unit(ka) && crate::modular::is_unit(kb)
                        && spec_pot_accumulator(input@, compressed_input, *parameters, t0, a0, b0)
                        && spec_contributed(
                        input@,
                        compressed_input,
                        output@,
                        compressed_output,
                        *parameters,
                        kt,
                        ka,
                        kb,
                    ) && crate::keypair::spec_key_matches(*key, digest@, kt, ka, kb, st, sa, sb)
                    implies false by {
                    lemma_pok_complete_facts(
                        input@,
                        compressed_input,
                        output@,
                        compressed_output,
                        *parameters,
                        t0,
                        a0,
                        b0,
                        kt,
                        ka,
                        kb,
                    );
                    assert(key.tau_g1.0.repr() == g1_elem(st));
                    assert(key.tau_g1.1.repr() == g1_elem(mul_mod(st, kt)));
                    assert(in_t2_1.repr() == g2_elem(t0));
                    assert(out_t2_1.repr() == g2_elem(mul_mod(t0, kt)));
                }
            }
            return Err(Error::InvalidRatio(ElementType::TauG2));
        }
        if !crate::group::same_ratio(&in_a0, &out_a0, &g2_s_a, &key.alpha_g2) {
            proof {
                assert forall|t0: nat, a0: nat, b0: nat, kt: nat, ka: nat, kb: nat, st: nat, sa: nat, sb: nat|
                    parameters.contribution_mode == crate::params::ContributionMode::Full
                        && crate::modular::is_unit(t0) && crate::modular::is_unit(a0)
                        && crate::modular::is_unit(b0) && crate::modular::is_unit(kt)
                        && crate::modular::is_unit(ka) && crate::modular::is_unit(kb)
                        && spec_pot_accumulator(input@, compressed_input, *parameters, t0, a0, b0)
                        && spec_contributed(
                        input@,
                        compressed_input,
                        output@,
                        compressed_output,
                        *parameters,
                        kt,
                        ka,
                        kb,
                    ) && crate::keypair::spec_key_matches(*key, digest@, kt, ka, kb, st, sa, sb)
                    implies false by {
                    lemma_pok_complete_facts(
                        input@,
                        compressed_input,
                        output@,
                        compressed_output,
                        *parameters,
                        t0,
                        a0,
                        b0,
                        kt,
                        ka,
                        kb,
                    );
                    assert(in_a0.repr() == g1_elem(a0));
                    assert(out_a0.repr() == g1_elem(mul_mod(a0, ka)));
                    assert(key.alpha_g1.0.repr() == g1_elem(sa));
                }
            }
            return Err(Error::InvalidRatio(ElementType::AlphaG1));
        }
        if !crate::group::same_ratio(&in_b0, &out_b0, &g2_s_b, &key.beta_g2) {
            proof {
                assert forall|t0: nat, a0: nat, b0: nat, kt: nat, ka: nat, kb: nat, st: nat, sa: nat, sb: nat|
                    parameters.contribution_mode == crate::params::ContributionMode::Full
                        && crate::modular::is_unit(t0) && crate::modular::is_unit(a0)
                        && crate::modular::is_unit(b0) && crate::modular::is_unit(kt)
                        && crate::modular::is_unit(ka) && crate::modular::is_unit(kb)
                        && spec_pot_accumulator(input@, compressed_input, *parameters, t0, a0, b0)
                        && spec_contributed(
                        input@,
                        compressed_input,
                        output@,
                        compressed_output,
                        *parameters,
                        kt,
                        ka,
                        kb,
                    ) && crate::keypair::spec_key_matches(*key, digest@, kt, ka, kb, st, sa, sb)
                    implies false by {
                    lemma_pok_complete_facts(
                        input@,
                        compressed_input,
                        output@,
                        compressed_output,
                        *parameters,
                        t0,
                        a0,
                        b0,
                        kt,
                        ka,
                        kb,
                    );
                    assert(in_b0.repr() == g1_elem(b0));
                    assert(out_b0.repr() == g1_elem(mul_mod(b0, kb)));
                    assert(key.beta_g1.0.repr() == g1_elem(sb));
                }
            }
            return Err(Error::InvalidRatio(ElementType::BetaG1));
        }
        if !crate::group::same_ratio(&key.beta_g1.0, &key.beta_g1.1, &in_bg2, &out_bg2) {
            proof {
                assert forall|t0: nat, a0: nat, b0: nat, kt: nat, ka: nat, kb: nat, st: nat, sa: nat, sb: nat|
                    parameters.contribution_mode == crate::params::ContributionMode::Full
                        && crate::modular::is_unit(t0) && crate::modular::is_unit(a0)
                        && crate::modular::is_unit(b0) && crate::modular::is_unit(kt)
                        && crate::modular::is_unit(ka) && crate::modular::is_unit(kb)
                        && spec_pot_accumulator(input@, compressed_input, *parameters, t0, a0, b0)
                        && spec_contributed(
                        input@,
                        compressed_input,
                        output@,
                        compressed_output,
                        *parameters,
                        kt,
                        ka,
                        kb,
                    ) && crate::keypair::spec_key_matches(*key, digest@, kt, ka, kb, st, sa, sb)
                    implies false by {
                    lemma_pok_complete_facts(
                        input@,
                        compressed_input,
                        output@,
                        compressed_output,
                        *parameters,
                        t0,
                        a0,
                        b0,
                        kt,
                        ka,
                        kb,
                    );
                    assert(key.beta_g1.0.repr() == g1_elem(sb));
                    assert(key.beta_g1.1.repr() == g1_elem(mul_mod(sb, kb)));
                    assert(in_bg2.repr() == g2_elem(b0));
                    assert(out_bg2.repr() == g2_elem(mul_mod(b0, kb)));
                }
            }
            return Err(Error::InvalidRatio(ElementType::BetaG2));
        }
    }
    match check_region_g1(output, lo.tau_g1, lo.g1_count, compressed_output, ElementType::TauG1) {
        Ok(()) => (),
        Err(e) => {
            proof {
            assert forall|i: nat|
                #[trigger] slot(output@, lo.tau_g1 as nat, g1_enc_size(cbo), i) == slot(
                    output@,
                    go.tau_g1,
                    go.g1s,
                    i,
                ) by {}
                assert forall|t0: nat, a0: nat, b0: nat, kt: nat, ka: nat, kb: nat, st: nat, sa: nat, sb: nat|
                    parameters.contribution_mode == crate::params::ContributionMode::Full
                        && crate::modular::is_unit(t0) && crate::modular::is_unit(a0)
                        && crate::modular::is_unit(b0) && crate::modular::is_unit(kt)
                        && crate::modular::is_unit(ka) && crate::modular::is_unit(kb)
                        && spec_pot_accumulator(input@, compressed_input, *parameters, t0, a0, b0)
                        && spec_contributed(
                        input@,
                        compressed_input,
                        output@,
                        compressed_output,
                        *parameters,
                        kt,
                        ka,
                        kb,
                    ) && crate::keypair::spec_key_matches(*key, digest@, kt, ka, kb, st, sa, sb)
                    implies false by {
                    lemma_pok_complete_facts(
                        input@,
                        compressed_input,
                        output@,
                        compressed_output,
                        *parameters,
                        t0,
                        a0,
                        b0,
                        kt,
                        ka,
                        kb,
                    );
                    crate::modular::lemma_unit_one();
                    assert(spec_g1_region_powers(output@, go.tau_g1, go.g1s, cbo, go.g1c, 1nat, mul_mod(t0, kt)));
                }
            }
            return Err(e);
        },
    }
    match check_region_g2(output, lo.tau_g2, lo.other_count, compressed_output, ElementType::TauG2) {
        Ok(()) => (),
        Err(e) => {
            proof {
            assert forall|i: nat|
                #[trigger] slot(output@, lo.tau_g2 as nat, g2_enc_size(cbo), i) == slot(
                    output@,
                    go.tau_g2,
                    go.g2s,
                    i,
                ) by {}
                assert forall|t0: nat, a0: nat, b0: nat, kt: nat, ka: nat, kb: nat, st: nat, sa: nat, sb: nat|
                    parameters.contribution_mode == crate::params::ContributionMode::Full
                        && crate::modular::is_unit(t0) && crate::modular::is_unit(a0)
                        && crate::modular::is_unit(b0) && crate::modular::is_unit(kt)
                        && crate::modular::is_unit(ka) && crate::modular::is_unit(kb)
                        && spec_pot_accumulator(input@, compressed_input, *parameters, t0, a0, b0)
                        && spec_contributed(
                        input@,
                        compressed_input,
                        output@,
                        compressed_output,
                        *parameters,
                        kt,
                        ka,
                        kb,
                    ) && crate::keypair::spec_key_matches(*key, digest@, kt, ka, kb, st, sa, sb)
                    implies false by {
                    lemma_pok_complete_facts(
                        input@,
                        compressed_input,
                        output@,
                        compressed_output,
                        *parameters,
                        t0,
                        a0,
                        b0,
                        kt,
                        ka,
                        kb,
                    );
                    crate::modular::lemma_unit_one();
                    assert(spec_g2_region_powers(output@, go.tau_g2, go.g2s, cbo, go.oc, 1nat, mul_mod(t0, kt)));
                }
            }
            return Err(e);
        },
    }
    match check_region_g1(output, lo.alpha_g1, lo.other_count, compressed_output, ElementType::AlphaG1) {
        Ok(()) => (),
        Err(e) => {
            proof {
            assert forall|i: nat|
                #[trigger] slot(output@, lo.alpha_g1 as nat, g1_enc_size(cbo), i) == slot(
                    output@,
                    go.alpha_g1,
                    go.g1s,
                    i,
                ) by {}
                assert forall|t0: nat, a0: nat, b0: nat, kt: nat, ka: nat, kb: nat, st: nat, sa: nat, sb: nat|
                    parameters.contribution_mode == crate::params::ContributionMode::Full
                        && crate::modular::is_unit(t0) && crate::modular::is_unit(a0)
                        && crate::modular::is_unit(b0) && crate::modular::is_unit(kt)
                        && crate::modular::is_unit(ka) && crate::modular::is_unit(kb)
                        && spec_pot_accumulator(input@, compressed_input, *parameters, t0, a0, b0)
                        && spec_contributed(
                        input@,
                        compressed_input,
                        output@,
                        compressed_output,
                        *parameters,
                        kt,
                        ka,
                        kb,
                    ) && crate::keypair::spec_key_matches(*key, digest@, kt, ka, kb, st, sa, sb)
                    implies false by {
                    lemma_pok_complete_facts(
                        input@,
                        compressed_input,
                        output@,
                        compressed_output,
                        *parameters,
                        t0,
                        a0,
                        b0,
                        kt,
                        ka,
                        kb,
                    );
                    crate::modular::lemma_unit_one();
                    assert(spec_g1_region_powers(output@, go.alpha_g1, go.g1s, cbo, go.oc, mul_mod(a0, ka), mul_mod(t0, kt)));
                }
            }
            return Err(e);
        },
    }
    match check_region_g1(output, lo.beta_g1, lo.other_count, compressed_output, ElementType::BetaG1) {
        Ok(()) => (),
        Err(e) => {
            proof {
            assert forall|i: nat|
                #[trigger] slot(output@, lo.beta_g1 as nat, g1_enc_size(cbo), i) == slot(
                    output@,
                    go.beta_g1,
                    go.g1s,
                    i,
                ) by {}
                assert forall|t0: nat, a0: nat, b0: nat, kt: nat, ka: nat, kb: nat, st: nat, sa: nat, sb: nat|
                    parameters.contribution_mode == crate::params::ContributionMode::Full
                        && crate::modular::is_unit(t0) && crate::modular::is_unit(a0)
                        && crate::modular::is_unit(b0) && crate::modular::is_unit(kt)
                        && crate::modular::is_unit(ka) && crate::modular::is_unit(kb)
                        && spec_pot_accumulator(input@, compressed_input, *parameters, t0, a0, b0)
                        && spec_contributed(
                        input@,
                        compressed_input,
                        output@,
                        compressed_output,
                        *parameters,
                        kt,
                        ka,
                        kb,
                    ) && crate::keypair::spec_key_matches(*key, digest@, kt, ka, kb, st, sa, sb)
                    implies false by {
                    lemma_pok_complete_facts(
                        input@,
                        compressed_input,
                        output@,
                        compressed_output,
                        *parameters,
                        t0,
                        a0,
                        b0,
                        kt,
                        ka,
                        kb,
                    );
                    crate::modular::lemma_unit_one();
                    assert(spec_g1_region_powers(output@, go.beta_g1, go.g1s, cbo, go.oc, mul_mod(b0, kb), mul_mod(t0, kt)));
                }
            }
            return Err(e);
        },
    }
    Ok(())
}

/// Re-encoding a slot: whenever the input slot decodes to some point, the
/// output slot stores that point under the output compression.  Compressed
/// inputs force the point onto the curve; the output decodes back to the
/// same point whenever it is stored uncompressed or lies on the curve.
pub open spec fn spec_g1_slot_recode(in_slot: Seq<u8>, ci: bool, out_slot: Seq<u8>, co: bool) -> bool {
    g1_canon(in_slot, ci) is Some ==> {
        let e = g1_canon(in_slot, ci)->Some_0;
        &&& out_slot == g1_store(e, co)
        &&& (ci ==> crate::group::g1_on_curve(e))
        &&& ((crate::group::g1_on_curve(e) || !co) ==> g1_canon(out_slot, co) == Some(e))
    }
}

/// Re-encoding a G2 slot.
pub open spec fn spec_g2_slot_recode(in_slot: Seq<u8>, ci: bool, out_slot: Seq<u8>, co: bool) -> bool {
    g2_canon(in_slot, ci) is Some ==> {
        let e = g2_canon(in_slot, ci)->Some_0;
        &&& out_slot == g2_store(e, co)
        &&& (ci ==> crate::group::g2_on_curve(e))
        &&& ((crate::group::g2_on_curve(e) || !co) ==> g2_canon(out_slot, co) == Some(e))
    }
}

/// Reads `count` G1 elements and stores them again under the output
/// compression.  Fails exactly when an input slot fails its checks.
fn recode_region_g1(
    output: &mut Vec<u8>,
    out_off: usize,
    co: UseCompression,
    input: &[u8],
    in_off: usize,
    ci: UseCompression,
    check: CheckForCorrectness,
    count: usize,
    et: ElementType,
) -> (r: Result<(), Error>)
    requires
        in_off + count * g1_enc_size(is_compressed(ci)) <= input@.len(),
        out_off + count * g1_enc_size(is_compressed(co)) <= old(output)@.len(),
    ensures
        final(output)@.len() == old(output)@.len(),
        forall|p: int|
            0 <= p < old(output)@.len() && !(out_off <= p < out_off + count * g1_enc_size(
                is_compressed(co),
            )) ==> final(output)@[p] == old(output)@[p],
        r is Ok <==> (forall|i: nat|
            i < count ==> spec_g1_read_ok(
                #[trigger] slot(input@, in_off as nat, g1_enc_size(is_compressed(ci)), i),
                is_compressed(ci),
                check,
            )),
        r is Ok ==> (forall|i: nat|
            i < count ==> spec_g1_slot_recode(
                #[trigger] slot(input@, in_off as nat, g1_enc_size(is_compressed(ci)), i),
                is_compressed(ci),
                slot(final(output)@, out_off as nat, g1_enc_size(is_compressed(co)), i),
                is_compressed(co),
            )),
{
    let cbi = compressed_flag(ci);
    let cbo = compressed_flag(co);
    let s_in: usize = if cbi { 48 } else { 96 };
    let s_out: usize = if cbo { 48 } else { 96 };
    let n_in = input.len();
    let n_out = output.len();
    let mut i: usize = 0;
    while i < count
        invariant
            i <= count,
            cbi == is_compressed(ci),
            cbo == is_compressed(co),
            s_in == g1_enc_size(cbi),
            s_out == g1_enc_size(cbo),
            n_in == input@.len(),
            n_out == old(output)@.len(),
            in_off + count * s_in <= n_in,
            out_off + count * s_out <= n_out,
            output@.len() == old(output)@.len(),
            forall|j: nat|
                j < i ==> spec_g1_read_ok(
                    #[trigger] slot(input@, in_off as nat, s_in as nat, j),
                    cbi,
                    check,
                ),
            forall|j: nat|
                j < i ==> spec_g1_slot_recode(
                    #[trigger] slot(input@, in_off as nat, s_in as nat, j),
                    cbi,
                    slot(output@, out_off as nat, s_out as nat, j),
                    cbo,
                ),
            forall|p: int|
                0 <= p < old(output)@.len() && !(out_off <= p < out_off + i * s_out)
                    ==> output@[p] == old(output)@[p],
        decreases count - i,
    {
        proof {
            lemma_mul_succ(i as nat, s_in as nat);
            lemma_mul_le((i + 1) as nat, count as nat, s_in as nat);
            lemma_mul_succ(i as nat, s_out as nat);
            lemma_mul_le((i + 1) as nat, count as nat, s_out as nat);
        }
        let ghost in_slot = slot(input@, in_off as nat, s_in as nat, i as nat);
        proof {
            assert(in_slot == input@.subrange(
                (in_off + i * s_in) as int,
                (in_off + i * s_in + s_in) as int,
            ));
        }
        let p = match read_g1_at(input, in_off + i * s_in, ci, check, et) {
            Ok(p) => p,
            Err(e) => {
                proof {
                    assert(!spec_g1_read_ok(in_slot, cbi, check));
                }
                return Err(e);
            },
        };
        let bytes = g1_write(&p, cbo);
        let ghost pre = output@;
        write_in(output, out_off + i * s_out, bytes.as_slice());
        proof {
            let out_slot = slot(output@, out_off as nat, s_out as nat, i as nat);
            assert(out_slot == bytes@);
            assert forall|j: nat| j < i implies spec_g1_slot_recode(
                slot(input@, in_off as nat, s_in as nat, j),
                cbi,
                slot(output@, out_off as nat, s_out as nat, j),
                cbo,
            ) by {
                lemma_mul_succ(j, s_out as nat);
                lemma_mul_le(j + 1, i as nat, s_out as nat);
                lemma_mul_le(i as nat, count as nat, s_out as nat);
                lemma_subrange_unchanged(
                    pre,
                    output@,
                    slot_off(out_off as nat, s_out as nat, j),
                    slot_off(out_off as nat, s_out as nat, j) + s_out as nat,
                );
                assert(slot(output@, out_off as nat, s_out as nat, j) == slot(
                    pre,
                    out_off as nat,
                    s_out as nat,
                    j,
                ));
            }
        }
        i = i + 1;
    }
    Ok(())
}

/// Reads `count` G2 elements and stores them again under the output
/// compression.
fn recode_region_g2(
    output: &mut Vec<u8>,
    out_off: usize,
    co: UseCompression,
    input: &[u8],
    in_off: usize,
    ci: UseCompression,
    check: CheckForCorrectness,
    count: usize,
    et: ElementType,
) -> (r: Result<(), Error>)
    requires
        in_off + count * g2_enc_size(is_compressed(ci)) <= input@.len(),
        out_off + count * g2_enc_size(is_compressed(co)) <= old(output)@.len(),
    ensures
        final(output)@.len() == old(output)@.len(),
        forall|p: int|
            0 <= p < old(output)@.len() && !(out_off <= p < out_off + count * g2_enc_size(
                is_compressed(co),
            )) ==> final(output)@[p] == old(output)@[p],
        r is Ok <==> (forall|i: nat|
            i < count ==> spec_g2_read_ok(
                #[trigger] slot(input@, in_off as nat, g2_enc_size(is_compressed(ci)), i),
                is_compressed(ci),
                check,
            )),
        r is Ok ==> (forall|i: nat|
            i < count ==> spec_g2_slot_recode(
                #[trigger] slot(input@, in_off as nat, g2_enc_size(is_compressed(ci)), i),
                is_compressed(ci),
                slot(final(output)@, out_off as nat, g2_enc_size(is_compressed(co)), i),
                is_compressed(co),
            )),
{
    let cbi = compressed_flag(ci);
    let cbo = compressed_flag(co);
    let s_in: usize = if cbi { 96 } else { 192 };
    let s_out: usize = if cbo { 96 } else { 192 };
    let n_in = input.len();
    let n_out = output.len();
    let mut i: usize = 0;
    while i < count
        invariant
            i <= count,
            cbi == is_compressed(ci),
            cbo == is_compressed(co),
            s_in == g2_enc_size(cbi),
            s_out == g2_enc_size(cbo),
            n_in == input@.len(),
            n_out == old(output)@.len(),
            in_off + count * s_in <= n_in,
            out_off + count * s_out <= n_out,
            output@.len() == old(output)@.len(),
            forall|j: nat|
                j < i ==> spec_g2_read_ok(
                    #[trigger] slot(input@, in_off as nat, s_in as nat, j),
                    cbi,
                    check,
                ),
            forall|j: nat|
                j < i ==> spec_g2_slot_recode(
                    #[trigger] slot(input@, in_off as nat, s_in as nat, j),
                    cbi,
                    slot(output@, out_off as nat, s_out as nat, j),
                    cbo,
                ),
            forall|p: int|
                0 <= p < old(output)@.len() && !(out_off <= p < out_off + i * s_out)
                    ==> output@[p] == old(output)@[p],
        decreases count - i,
    {
        proof {
            lemma_mul_succ(i as nat, s_in as nat);
            lemma_mul_le((i + 1) as nat, count as nat, s_in as nat);
            lemma_mul_succ(i as nat, s_out as nat);
            lemma_mul_le((i + 1) as nat, count as nat, s_out as nat);
        }
        let ghost in_slot = slot(input@, in_off as nat, s_in as nat, i as nat);
        proof {
            assert(in_slot == input@.subrange(
                (in_off + i * s_in) as int,
                (in_off + i * s_in + s_in) as int,
            ));
        }
        let p = match read_g2_at(input, in_off + i * s_in, ci, check, et) {
            Ok(p) => p,
            Err(e) => {
                proof {
                    assert(!spec_g2_read_ok(in_slot, cbi, check));
                }
                return Err(e);
            },
        };
        let bytes = g2_write(&p, cbo);
        let ghost pre = output@;
        write_in(output, out_off + i * s_out, bytes.as_slice());
        proof {
            let out_slot = slot(output@, out_off as nat, s_out as nat, i as nat);
            assert(out_slot == bytes@);
            assert forall|j: nat| j < i implies spec_g2_slot_recode(
                slot(input@, in_off as nat, s_in as nat, j),
                cbi,
                slot(output@, out_off as nat, s_out as nat, j),
                cbo,
            ) by {
                lemma_mul_succ(j, s_out as nat);
                lemma_mul_le(j + 1, i as nat, s_out as nat);
                lemma_mul_le(i as nat, count as nat, s_out as nat);
                lemma_subrange_unchanged(
                    pre,
                    output@,
                    slot_off(out_off as nat, s_out as nat, j),
                    slot_off(out_off as nat, s_out as nat, j) + s_out as nat,
                );
                assert(slot(output@, out_off as nat, s_out as nat, j) == slot(
                    pre,
                    out_off as nat,
                    s_out as nat,
                    j,
                ));
            }
        }
        i = i + 1;
    }
    Ok(())
}

/// Decompresses a region of `count` G1 elements: the counterpart of the
/// compressed input region is stored uncompressed in the output region.
pub fn decompress_buffer_g1(
    output: &mut Vec<u8>,
    input: &[u8],
    start: usize,
    end: usize,
    check_input_for_correctness: CheckForCorrectness,
) -> (r: Result<(), Error>)
    requires
        start <= end,
        end * g1_enc_size(true) <= input@.len(),
        end * g1_enc_size(false) <= old(output)@.len(),
    ensures
        final(output)@.len() == old(output)@.len(),
        r is Ok <==> (forall|i: nat|
            start <= i < end ==> spec_g1_read_ok(
                #[trigger] slot(input@, 0, g1_enc_size(true), i),
                true,
                check_input_for_correctness,
            )),
        r is Ok ==> (forall|i: nat|
            start <= i < end ==> spec_g1_slot_recode(
                #[trigger] slot(input@, 0, g1_enc_size(true), i),
                true,
                slot(final(output)@, 0, g1_enc_size(false), i),
                false,
            )),
{
    let n_in = input.len();
    let n_out = output.len();
    proof {
        lemma_mul_le(start as nat, end as nat, 48);
        lemma_mul_le(start as nat, end as nat, 96);
        crate::layout::lemma_mul_distribute(start as nat, (end - start) as nat, 48);
        crate::layout::lemma_mul_distribute(start as nat, (end - start) as nat, 96);
    }
    let cnt = end - start;
    let r = recode_region_g1(
        output,
        start * 96,
        UseCompression::No,
        input,
        start * 48,
        UseCompression::Yes,
        check_input_for_correctness,
        cnt,
        ElementType::TauG1,
    );
    proof {
        assert(g1_enc_size(is_compressed(UseCompression::Yes)) == 48);
        assert(g1_enc_size(is_compressed(UseCompression::No)) == 96);
        if r is Ok {
            assert forall|i: nat|
                start <= i < end implies spec_g1_read_ok(
                #[trigger] slot(input@, 0, g1_enc_size(true), i),
                true,
                check_input_for_correctness,
            ) && spec_g1_slot_recode(
                slot(input@, 0, g1_enc_size(true), i),
                true,
                slot(output@, 0, g1_enc_size(false), i),
                false,
            ) by {
                let j = (i - start) as nat;
                crate::layout::lemma_slot_shift(input@, 0, 48, start as nat, j);
                crate::layout::lemma_slot_shift(output@, 0, 96, start as nat, j);
                assert(spec_g1_read_ok(
                    slot(input@, (start * 48) as nat, 48, j),
                    true,
                    check_input_for_correctness,
                ));
            }
        } else {
            let j0 = choose|j: nat|
                j < cnt && !spec_g1_read_ok(
                    #[trigger] slot(input@, (start * 48) as nat, 48, j),
                    true,
                    check_input_for_correctness,
                );
            crate::layout::lemma_slot_shift(input@, 0, 48, start as nat, j0);
            assert(!spec_g1_read_ok(
                slot(input@, 0, 48, (start + j0) as nat),
                true,
                check_input_for_correctness,
            ));
        }
    }
    r
}

/// Decompresses a region of `count` G2 elements.
pub fn decompress_buffer_g2(
    output: &mut Vec<u8>,
    input: &[u8],
    start: usize,
    end: usize,
    check_input_for_correctness: CheckForCorrectness,
) -> (r: Result<(), Error>)
    requires
        start <= end,
        end * g2_enc_size(true) <= input@.len(),
        end * g2_enc_size(false) <= old(output)@.len(),
    ensures
        final(output)@.len() == old(output)@.len(),
        r is Ok <==> (forall|i: nat|
            start <= i < end ==> spec_g2_read_ok(
                #[trigger] slot(input@, 0, g2_enc_size(true), i),
                true,
                check_input_for_correctness,
            )),
        r is Ok ==> (forall|i: nat|
            start <= i < end ==> spec_g2_slot_recode(
                #[trigger] slot(input@, 0, g2_enc_size(true), i),
                true,
                slot(final(output)@, 0, g2_enc_size(false), i),
                false,
            )),
{
    let n_in = input.len();
    let n_out = output.len();
    proof {
        lemma_mul_le(start as nat, end as nat, 96);
        lemma_mul_le(start as nat, end as nat, 192);
        crate::layout::lemma_mul_distribute(start as nat, (end - start) as nat, 96);
        crate::layout::lemma_mul_distribute(start as nat, (end - start) as nat, 192);
    }
    let cnt = end - start;
    let r = recode_region_g2(
        output,
        start * 192,
        UseCompression::No,
        input,
        start * 96,
        UseCompression::Yes,
        check_input_for_correctness,
        cnt,
        ElementType::TauG2,
    );
    proof {
        assert(g2_enc_size(is_compressed(UseCompression::Yes)) == 96);
        assert(g2_enc_size(is_compressed(UseCompression::No)) == 192);
        if r is Ok {
            assert forall|i: nat|
                start <= i < end implies spec_g2_read_ok(
                #[trigger] slot(input@, 0, g2_enc_size(true), i),
                true,
                check_input_for_correctness,
            ) && spec_g2_slot_recode(
                slot(input@, 0, g2_enc_size(true), i),
                true,
                slot(output@, 0, g2_enc_size(false), i),
                false,
            ) by {
                let j = (i - start) as nat;
                crate::layout::lemma_slot_shift(input@, 0, 96, start as nat, j);
                crate::layout::lemma_slot_shift(output@, 0, 192, start as nat, j);
                assert(spec_g2_read_ok(
                    slot(input@, (start * 96) as nat, 96, j),
                    true,
                    check_input_for_correctness,
                ));
            }
        } else {
            let j0 = choose|j: nat|
                j < cnt && !spec_g2_read_ok(
                    #[trigger] slot(input@, (start * 96) as nat, 96, j),
                    true,
                    check_input_for_correctness,
                );
            crate::layout::lemma_slot_shift(input@, 0, 96, start as nat, j0);
            assert(!spec_g2_read_ok(
                slot(input@, 0, 96, (start + j0) as nat),
                true,
                check_input_for_correctness,
            ));
        }
    }
    r
}

/// Every element of the compressed input is stored uncompressed in the
/// output, unchanged as a group element.
pub open spec fn spec_decompressed(inb: Seq<u8>, outb: Seq<u8>, params: CeremonyParams) -> bool {
    let gi = chunk_glayout(params, UseCompression::Yes);
    let go = chunk_glayout(params, UseCompression::No);
    &&& forall|i: nat|
        i < gi.g1c ==> spec_g1_slot_recode(
            #[trigger] slot(inb, gi.tau_g1, gi.g1s, i),
            true,
            slot(outb, go.tau_g1, go.g1s, i),
            false,
        )
    &&& forall|i: nat|
        i < gi.oc ==> spec_g2_slot_recode(
            #[trigger] slot(inb, gi.tau_g2, gi.g2s, i),
            true,
            slot(outb, go.tau_g2, go.g2s, i),
            false,
        )
    &&& forall|i: nat|
        i < gi.oc ==> spec_g1_slot_recode(
            #[trigger] slot(inb, gi.alpha_g1, gi.g1s, i),
            true,
            slot(outb, go.alpha_g1, go.g1s, i),
            false,
        )
    &&& forall|i: nat|
        i < gi.oc ==> spec_g1_slot_recode(
            #[trigger] slot(inb, gi.beta_g1, gi.g1s, i),
            true,
            slot(outb, go.beta_g1, go.g1s, i),
            false,
        )
    &&& spec_g2_slot_recode(
        slot(inb, gi.beta_g2, gi.g2s, 0),
        true,
        slot(outb, go.beta_g2, go.g2s, 0),
        false,
    )
}

/// Decompresses a compressed accumulator buffer into an uncompressed one.
/// Succeeds exactly when every input element passes the requested checks;
/// the digest prefix of the output is left untouched.
#[verifier::rlimit(100)]
#[verifier::spinoff_prover]
pub fn decompress(
    input: &[u8],
    check_input_for_correctness: CheckForCorrectness,
    output: &mut Vec<u8>,
    parameters: &CeremonyParams,
) -> (r: Result<(), Error>)
    requires
        parameters.wf(),
        parameters.curve.is_engine_curve(),
        input@.len() >= spec_chunk_len(*parameters, UseCompression::Yes),
        old(output)@.len() >= spec_chunk_len(*parameters, UseCompression::No),
    ensures
        final(output)@.len() == old(output)@.len(),
        forall|p: int| 0 <= p < 64 ==> final(output)@[p] == old(output)@[p],
        forall|p: int|
            spec_chunk_len(*parameters, UseCompression::No) <= p < old(output)@.len()
                ==> final(output)@[p] == old(output)@[p],
        r is Ok <==> spec_inputs_ok(
            input@,
            UseCompression::Yes,
            check_input_for_correctness,
            *parameters,
        ),
        r is Ok ==> spec_decompressed(input@, final(output)@, *parameters),
{
    let n_in = input.len();
    let n_out = output.len();
    let li = Layout::chunk(parameters, UseCompression::Yes);
    let lo = Layout::chunk(parameters, UseCompression::No);
    let ghost gi = chunk_glayout(*parameters, UseCompression::Yes);
    let ghost go = chunk_glayout(*parameters, UseCompression::No);
    proof {
        li.lemma_gl();
        lo.lemma_gl();
        assert(gi == li.gl());
        assert(go == lo.gl());
        assert(is_compressed(UseCompression::Yes) == true);
        assert(is_compressed(UseCompression::No) == false);
        assert(gi.g1s == g1_enc_size(true));
        assert(gi.g2s == g2_enc_size(true));
        assert(go.g1s == g1_enc_size(false));
        assert(go.g2s == g2_enc_size(false));
        assert(1 * (li.g2_size as nat) == li.g2_size as nat) by (nonlinear_arith);
        assert(1 * (lo.g2_size as nat) == lo.g2_size as nat) by (nonlinear_arith);
    }
    let ghost s0 = output@;
    match recode_region_g1(
        output,
        lo.tau_g1,
        UseCompression::No,
        input,
        li.tau_g1,
        UseCompression::Yes,
        check_input_for_correctness,
        li.g1_count,
        ElementType::TauG1,
    ) {
        Ok(()) => (),
        Err(e) => {
            proof {
                let i0 = choose|i: nat|
                    i < li.g1_count && !spec_g1_read_ok(
                        #[trigger] slot(input@, li.tau_g1 as nat, g1_enc_size(true), i),
                        true,
                        check_input_for_correctness,
                    );
                assert(!spec_g1_read_ok(
                    slot(input@, gi.tau_g1, gi.g1s, i0),
                    true,
                    check_input_for_correctness,
                ));
            }
            return Err(e);
        },
    }
    let ghost s1 = output@;
    match recode_region_g2(
        output,
        lo.tau_g2,
        UseCompression::No,
        input,
        li.tau_g2,
        UseCompression::Yes,
        check_input_for_correctness,
        li.other_count,
        ElementType::TauG2,
    ) {
        Ok(()) => (),
        Err(e) => {
            proof {
                let i0 = choose|i: nat|
                    i < li.other_count && !spec_g2_read_ok(
                        #[trigger] slot(input@, li.tau_g2 as nat, g2_enc_size(true), i),
                        true,
                        check_input_for_correctness,
                    );
                assert(!spec_g2_read_ok(
                    slot(input@, gi.tau_g2, gi.g2s, i0),
                    true,
                    check_input_for_correctness,
                ));
            }
            return Err(e);
        },
    }
    let ghost s2 = output@;
    match recode_region_g1(
        output,
        lo.alpha_g1,
        UseCompression::No,
        input,
        li.alpha_g1,
        UseCompression::Yes,
        check_input_for_correctness,
        li.other_count,
        ElementType::AlphaG1,
    ) {
        Ok(()) => (),
        Err(e) => {
            proof {
                let i0 = choose|i: nat|
                    i < li.other_count && !spec_g1_read_ok(
                        #[trigger] slot(input@, li.alpha_g1 as nat, g1_enc_size(true), i),
                        true,
                        check_input_for_correctness,
                    );
                assert(!spec_g1_read_ok(
                    slot(input@, gi.alpha_g1, gi.g1s, i0),
                    true,
                    check_input_for_correctness,
                ));
            }
            return Err(e);
        },
    }
    let ghost s3 = output@;
    match recode_region_g1(
        output,
        lo.beta_g1,
        UseCompression::No,
        input,
        li.beta_g1,
        UseCompression::Yes,
        check_input_for_correctness,
        li.other_count,
        ElementType::BetaG1,
    ) {
        Ok(()) => (),
        Err(e) => {
            proof {
                let i0 = choose|i: nat|
                    i < li.other_count && !spec_g1_read_ok(
                        #[trigger] slot(input@, li.beta_g1 as nat, g1_enc_size(true), i),
                        true,
                        check_input_for_correctness,
                    );
                assert(!spec_g1_read_ok(
                    slot(input@, gi.beta_g1, gi.g1s, i0),
                    true,
                    check_input_for_correctness,
                ));
            }
            return Err(e);
        },
    }
    let ghost s4 = output@;
    match recode_region_g2(
        output,
        lo.beta_g2,
        UseCompression::No,
        input,
        li.beta_g2,
        UseCompression::Yes,
        check_input_for_correctness,
        1,
        ElementType::BetaG2,
    ) {
        Ok(()) => (),
        Err(e) => {
            proof {
                assert(!spec_g2_read_ok(
                    slot(input@, gi.beta_g2, gi.g2s, 0),
                    true,
                    check_input_for_correctness,
                ));
            }
            return Err(e);
        },
    }
    proof {
        assert forall|p: int| 0 <= p < go.tau_g2 implies s1[p] == output@[p] by {
            assert(s1[p] == s2[p]);
            assert(s2[p] == s3[p]);
            assert(s3[p] == s4[p]);
            assert(s4[p] == output@[p]);
        }
        assert forall|p: int| 0 <= p < go.alpha_g1 implies s2[p] == output@[p] by {
            assert(s2[p] == s3[p]);
            assert(s3[p] == s4[p]);
            assert(s4[p] == output@[p]);
        }
        assert forall|p: int| 0 <= p < go.beta_g1 implies s3[p] == output@[p] by {
            assert(s3[p] == s4[p]);
            assert(s4[p] == output@[p]);
        }
        assert forall|p: int| 0 <= p < go.beta_g2 implies s4[p] == output@[p] by {
            assert(s4[p] == output@[p]);
        }
        assert forall|i: nat| i < gi.g1c implies spec_g1_slot_recode(
            slot(input@, gi.tau_g1, gi.g1s, i),
            true,
            slot(output@, go.tau_g1, go.g1s, i),
            false,
        ) by {
            lemma_mul_succ(i, go.g1s);
            lemma_mul_le(i + 1, go.g1c, go.g1s);
            lemma_subrange_unchanged(
                s1,
                output@,
                slot_off(go.tau_g1, go.g1s, i),
                slot_off(go.tau_g1, go.g1s, i) + go.g1s,
            );
            assert(slot(output@, go.tau_g1, go.g1s, i) == slot(s1, go.tau_g1, go.g1s, i));
            assert(spec_g1_slot_recode(
                slot(input@, gi.tau_g1, gi.g1s, i),
                true,
                slot(s1, go.tau_g1, go.g1s, i),
                false,
            ));
        }
        assert forall|i: nat| i < gi.oc implies spec_g2_slot_recode(
            slot(input@, gi.tau_g2, gi.g2s, i),
            true,
            slot(output@, go.tau_g2, go.g2s, i),
            false,
        ) by {
            lemma_mul_succ(i, go.g2s);
            lemma_mul_le(i + 1, go.oc, go.g2s);
            lemma_subrange_unchanged(
                s2,
                output@,
                slot_off(go.tau_g2, go.g2s, i),
                slot_off(go.tau_g2, go.g2s, i) + go.g2s,
            );
            assert(slot(output@, go.tau_g2, go.g2s, i) == slot(s2, go.tau_g2, go.g2s, i));
            assert(spec_g2_slot_recode(
                slot(input@, gi.tau_g2, gi.g2s, i),
                true,
                slot(s2, go.tau_g2, go.g2s, i),
                false,
            ));
        }
        assert forall|i: nat| i < gi.oc implies spec_g1_slot_recode(
            slot(input@, gi.alpha_g1, gi.g1s, i),
            true,
            slot(output@, go.alpha_g1, go.g1s, i),
            false,
        ) by {
            lemma_mul_succ(i, go.g1s);
            lemma_mul_le(i + 1, go.oc, go.g1s);
            lemma_subrange_unchanged(
                s3,
                output@,
                slot_off(go.alpha_g1, go.g1s, i),
                slot_off(go.alpha_g1, go.g1s, i) + go.g1s,
            );
            assert(slot(output@, go.alpha_g1, go.g1s, i) == slot(s3, go.alpha_g1, go.g1s, i));
            assert(spec_g1_slot_recode(
                slot(input@, li.alpha_g1 as nat, g1_enc_size(true), i),
                true,
                slot(s3, lo.alpha_g1 as nat, g1_enc_size(false), i),
                false,
            ));
            assert(spec_g1_slot_recode(
                slot(input@, gi.alpha_g1, gi.g1s, i),
                true,
                slot(s3, go.alpha_g1, go.g1s, i),
                false,
            ));
        }
        assert forall|i: nat| i < gi.oc implies spec_g1_slot_recode(
            slot(input@, gi.beta_g1, gi.g1s, i),
            true,
            slot(output@, go.beta_g1, go.g1s, i),
            false,
        ) by {
            lemma_mul_succ(i, go.g1s);
            lemma_mul_le(i + 1, go.oc, go.g1s);
            lemma_subrange_unchanged(
                s4,
                output@,
                slot_off(go.beta_g1, go.g1s, i),
                slot_off(go.beta_g1, go.g1s, i) + go.g1s,
            );
            assert(slot(output@, go.beta_g1, go.g1s, i) == slot(s4, go.beta_g1, go.g1s, i));
            assert(spec_g1_slot_recode(
                slot(input@, li.beta_g1 as nat, g1_enc_size(true), i),
                true,
                slot(s4, lo.beta_g1 as nat, g1_enc_size(false), i),
                false,
            ));
            assert(spec_g1_slot_recode(
                slot(input@, gi.beta_g1, gi.g1s, i),
                true,
                slot(s4, go.beta_g1, go.g1s, i),
                false,
            ));
        }
        assert(slot(output@, go.beta_g2, go.g2s, 0) == output@.subrange(
            go.beta_g2 as int,
            (go.beta_g2 + go.g2s) as int,
        )) by {
            assert(0 * go.g2s == 0) by (nonlinear_arith);
        }
        assert forall|p: int| 0 <= p < 64 implies output@[p] == s0[p] by {
            assert(s0[p] == s1[p]);
            assert(s1[p] == s2[p]);
            assert(s2[p] == s3[p]);
            assert(s3[p] == s4[p]);
            assert(s4[p] == output@[p]);
        }
    }
    Ok(())
}



/// One chunk of a response, copied into the assembled accumulator: element
/// `i` of each chunk region lands at absolute element `chunk_start + i` of
/// the full region, re-encoded for the output compression.  The BetaG2
/// singleton is taken from chunk zero only.
pub open spec fn spec_chunk_combined(
    chunk: Seq<u8>,
    ci: UseCompression,
    outb: Seq<u8>,
    co: UseCompression,
    params_k: CeremonyParams,
) -> bool {
    let gi = chunk_glayout(params_k, ci);
    let fo = full_glayout(params_k, co);
    let cbi = is_compressed(ci);
    let cbo = is_compressed(co);
    let cs = params_k.spec_chunk_start();
    &&& forall|i: nat|
        i < gi.g1c ==> spec_g1_slot_recode(
            #[trigger] slot(chunk, gi.tau_g1, gi.g1s, i),
            cbi,
            slot(outb, fo.tau_g1, fo.g1s, cs + i),
            cbo,
        )
    &&& forall|i: nat|
        i < gi.oc ==> spec_g2_slot_recode(
            #[trigger] slot(chunk, gi.tau_g2, gi.g2s, i),
            cbi,
            slot(outb, fo.tau_g2, fo.g2s, cs + i),
            cbo,
        )
    &&& forall|i: nat|
        i < gi.oc ==> spec_g1_slot_recode(
            #[trigger] slot(chunk, gi.alpha_g1, gi.g1s, i),
            cbi,
            slot(outb, fo.alpha_g1, fo.g1s, cs + i),
            cbo,
        )
    &&& forall|i: nat|
        i < gi.oc ==> spec_g1_slot_recode(
            #[trigger] slot(chunk, gi.beta_g1, gi.g1s, i),
            cbi,
            slot(outb, fo.beta_g1, fo.g1s, cs + i),
            cbo,
        )
    &&& (params_k.chunk_index == 0 ==> spec_g2_slot_recode(
        slot(chunk, gi.beta_g2, gi.g2s, 0),
        cbi,
        slot(outb, fo.beta_g2, fo.g2s, 0),
        cbo,
    ))
}


/// The element ranges a chunk writes into the full buffer, as a byte
/// predicate: everything outside them is untouched by `combine_chunk`.
pub open spec fn spec_chunk_spans(p: int, co: UseCompression, params_k: CeremonyParams) -> bool {
    let fo = full_glayout(params_k, co);
    let cs = params_k.spec_chunk_start();
    let g1c = chunk_glayout(params_k, co).g1c;
    let oc = chunk_glayout(params_k, co).oc;
    ||| fo.tau_g1 + cs * fo.g1s <= p < fo.tau_g1 + cs * fo.g1s + g1c * fo.g1s
    ||| fo.tau_g2 + cs * fo.g2s <= p < fo.tau_g2 + cs * fo.g2s + oc * fo.g2s
    ||| fo.alpha_g1 + cs * fo.g1s <= p < fo.alpha_g1 + cs * fo.g1s + oc * fo.g1s
    ||| fo.beta_g1 + cs * fo.g1s <= p < fo.beta_g1 + cs * fo.g1s + oc * fo.g1s
    ||| (params_k.chunk_index == 0 && fo.beta_g2 <= p < fo.beta_g2 + fo.g2s)
}






/// Copies the TauG1 and TauG2 regions of one chunk into the accumulator.
#[verifier::rlimit(100)]
#[verifier::spinoff_prover]
fn combine_chunk_tau(
    chunk: &[u8],
    compressed_input: UseCompression,
    check_input: CheckForCorrectness,
    output: &mut Vec<u8>,
    compressed_output: UseCompression,
    params_k: &CeremonyParams,
) -> (r: Result<(), Error>)
    requires
        params_k.wf(),
        params_k.curve.is_engine_curve(),
        params_k.contribution_mode == crate::params::ContributionMode::Chunked,
        params_k.spec_chunk_start() < params_k.powers_g1_length,
        chunk@.len() == spec_chunk_len(*params_k, compressed_input),
        old(output)@.len() == crate::layout::spec_full_len(*params_k, compressed_output),
    ensures
        final(output)@.len() == old(output)@.len(),
        ({
            let gi = chunk_glayout(*params_k, compressed_input);
            let fo = full_glayout(*params_k, compressed_output);
            let cbi = is_compressed(compressed_input);
            let cbo = is_compressed(compressed_output);
            let cs = params_k.spec_chunk_start();
            &&& (forall|p: int|
                0 <= p < old(output)@.len() && !(fo.tau_g1 + cs * fo.g1s <= p < fo.tau_g1 + cs
                    * fo.g1s + gi.g1c * fo.g1s) && !(fo.tau_g2 + cs * fo.g2s <= p < fo.tau_g2
                    + cs * fo.g2s + gi.oc * fo.g2s) ==> final(output)@[p] == old(output)@[p])
            &&& (r is Ok ==> (forall|i: nat|
                i < gi.g1c ==> spec_g1_slot_recode(
                    #[trigger] slot(chunk@, gi.tau_g1, gi.g1s, i),
                    cbi,
                    slot(final(output)@, fo.tau_g1, fo.g1s, cs + i),
                    cbo,
                )))
            &&& (r is Ok ==> (forall|i: nat|
                i < gi.oc ==> spec_g2_slot_recode(
                    #[trigger] slot(chunk@, gi.tau_g2, gi.g2s, i),
                    cbi,
                    slot(final(output)@, fo.tau_g2, fo.g2s, cs + i),
                    cbo,
                )))
            &&& (r is Ok <==> ((forall|i: nat|
                i < gi.g1c ==> spec_g1_read_ok(
                    #[trigger] slot(chunk@, gi.tau_g1, gi.g1s, i),
                    cbi,
                    check_input,
                )) && (forall|i: nat|
                i < gi.oc ==> spec_g2_read_ok(
                    #[trigger] slot(chunk@, gi.tau_g2, gi.g2s, i),
                    cbi,
                    check_input,
                ))))
        }),
{
    let n_in = chunk.len();
    let n_out = output.len();
    let li = Layout::chunk(params_k, compressed_input);
    let lo = Layout::full(params_k, compressed_output);
    let ghost gi = chunk_glayout(*params_k, compressed_input);
    let ghost fo = full_glayout(*params_k, compressed_output);
    let ghost cbi = is_compressed(compressed_input);
    let ghost cbo = is_compressed(compressed_output);
    let cs = chunk_start(params_k);
    proof {
        li.lemma_gl();
        lo.lemma_gl();
        assert(gi == li.gl());
        assert(fo == lo.gl());
        lemma_chunk_counts(*params_k);
        lemma_chunk_bounds(*params_k);
        crate::layout::lemma_mul_distribute(params_k.spec_chunk_start(), gi.g1c, fo.g1s);
        crate::layout::lemma_mul_distribute(params_k.spec_chunk_start(), gi.oc, fo.g2s);
        crate::layout::lemma_mul_distribute(params_k.spec_chunk_start(), gi.oc, fo.g1s);
        lemma_mul_le(params_k.spec_chunk_start() + gi.g1c, fo.g1c, fo.g1s);
        if gi.oc > 0 {
            lemma_mul_le(params_k.spec_chunk_start() + gi.oc, fo.oc, fo.g2s);
            lemma_mul_le(params_k.spec_chunk_start() + gi.oc, fo.oc, fo.g1s);
        }
        lemma_mul_le(params_k.spec_chunk_start(), fo.g1c, fo.g1s);
        assert(is_compressed(UseCompression::Yes) == true);
        assert(is_compressed(UseCompression::No) == false);
    }
    let off_1 = if li.g1_count > 0 { lo.tau_g1 + cs * lo.g1_size } else { lo.tau_g1 };
    let off_2 = if li.other_count > 0 { lo.tau_g2 + cs * lo.g2_size } else { lo.tau_g2 };
    let ghost s0 = output@;
    match recode_region_g1(
        output,
        off_1,
        compressed_output,
        chunk,
        li.tau_g1,
        compressed_input,
        check_input,
        li.g1_count,
        ElementType::TauG1,
    ) {
        Ok(()) => (),
        Err(e) => {
            proof {
                let i0 = choose|i: nat|
                    i < li.g1_count && !spec_g1_read_ok(
                        #[trigger] slot(chunk@, li.tau_g1 as nat, g1_enc_size(cbi), i),
                        cbi,
                        check_input,
                    );
                assert(!spec_g1_read_ok(slot(chunk@, gi.tau_g1, gi.g1s, i0), cbi, check_input));
            }
            return Err(e);
        },
    }
    let ghost s1 = output@;
    match recode_region_g2(
        output,
        off_2,
        compressed_output,
        chunk,
        li.tau_g2,
        compressed_input,
        check_input,
        li.other_count,
        ElementType::TauG2,
    ) {
        Ok(()) => (),
        Err(e) => {
            proof {
                let i0 = choose|i: nat|
                    i < li.other_count && !spec_g2_read_ok(
                        #[trigger] slot(chunk@, li.tau_g2 as nat, g2_enc_size(cbi), i),
                        cbi,
                        check_input,
                    );
                assert(!spec_g2_read_ok(slot(chunk@, gi.tau_g2, gi.g2s, i0), cbi, check_input));
            }
            return Err(e);
        },
    }
    proof {
        let cs_g = params_k.spec_chunk_start();
        assert forall|i: nat| i < gi.g1c implies spec_g1_slot_recode(
            slot(chunk@, gi.tau_g1, gi.g1s, i),
            cbi,
            slot(output@, fo.tau_g1, fo.g1s, cs_g + i),
            cbo,
        ) by {
            crate::layout::lemma_slot_shift(s1, fo.tau_g1, fo.g1s, cs_g, i);
            crate::layout::lemma_slot_shift(output@, fo.tau_g1, fo.g1s, cs_g, i);
            crate::layout::lemma_mul_distribute(cs_g + i, 1, fo.g1s);
            assert(1 * fo.g1s == fo.g1s) by (nonlinear_arith);
            lemma_mul_le(cs_g + i + 1, fo.g1c, fo.g1s);
            lemma_subrange_unchanged(
                s1,
                output@,
                slot_off((fo.tau_g1 + cs_g * fo.g1s) as nat, fo.g1s, i),
                slot_off((fo.tau_g1 + cs_g * fo.g1s) as nat, fo.g1s, i) + fo.g1s,
            );
            assert(spec_g1_slot_recode(
                slot(chunk@, li.tau_g1 as nat, g1_enc_size(cbi), i),
                cbi,
                slot(s1, off_1 as nat, g1_enc_size(cbo), i),
                cbo,
            ));
            assert(slot(output@, (fo.tau_g1 + cs_g * fo.g1s) as nat, fo.g1s, i) == slot(
                s1,
                (fo.tau_g1 + cs_g * fo.g1s) as nat,
                fo.g1s,
                i,
            ));
        }
        assert forall|i: nat| i < gi.oc implies spec_g2_slot_recode(
            slot(chunk@, gi.tau_g2, gi.g2s, i),
            cbi,
            slot(output@, fo.tau_g2, fo.g2s, cs_g + i),
            cbo,
        ) by {
            crate::layout::lemma_slot_shift(output@, fo.tau_g2, fo.g2s, cs_g, i);
            assert(spec_g2_slot_recode(
                slot(chunk@, li.tau_g2 as nat, g2_enc_size(cbi), i),
                cbi,
                slot(output@, off_2 as nat, g2_enc_size(cbo), i),
                cbo,
            ));
        }
    }
    proof {
        assert forall|i: nat| i < gi.g1c implies spec_g1_read_ok(
            slot(chunk@, gi.tau_g1, gi.g1s, i),
            cbi,
            check_input,
        ) by {
            assert(spec_g1_read_ok(
                slot(chunk@, li.tau_g1 as nat, g1_enc_size(cbi), i),
                cbi,
                check_input,
            ));
        }
        assert forall|i: nat| i < gi.oc implies spec_g2_read_ok(
            slot(chunk@, gi.tau_g2, gi.g2s, i),
            cbi,
            check_input,
        ) by {
            assert(spec_g2_read_ok(
                slot(chunk@, li.tau_g2 as nat, g2_enc_size(cbi), i),
                cbi,
                check_input,
            ));
        }
    }
    Ok(())
}

/// Copies the AlphaG1 and BetaG1 regions of one chunk into the accumulator.
#[verifier::rlimit(100)]
#[verifier::spinoff_prover]
fn combine_chunk_alpha_beta(
    chunk: &[u8],
    compressed_input: UseCompression,
    check_input: CheckForCorrectness,
    output: &mut Vec<u8>,
    compressed_output: UseCompression,
    params_k: &CeremonyParams,
) -> (r: Result<(), Error>)
    requires
        params_k.wf(),
        params_k.curve.is_engine_curve(),
        params_k.contribution_mode == crate::params::ContributionMode::Chunked,
        params_k.spec_chunk_start() < params_k.powers_g1_length,
        chunk@.len() == spec_chunk_len(*params_k, compressed_input),
        old(output)@.len() == crate::layout::spec_full_len(*params_k, compressed_output),
    ensures
        final(output)@.len() == old(output)@.len(),
        ({
            let gi = chunk_glayout(*params_k, compressed_input);
            let fo = full_glayout(*params_k, compressed_output);
            let cbi = is_compressed(compressed_input);
            let cbo = is_compressed(compressed_output);
            let cs = params_k.spec_chunk_start();
            &&& (forall|p: int|
                0 <= p < old(output)@.len() && !(fo.alpha_g1 + cs * fo.g1s <= p < fo.alpha_g1 + cs
                    * fo.g1s + gi.oc * fo.g1s) && !(fo.beta_g1 + cs * fo.g1s <= p < fo.beta_g1
                    + cs * fo.g1s + gi.oc * fo.g1s) ==> final(output)@[p] == old(output)@[p])
            &&& (r is Ok ==> (forall|i: nat|
                i < gi.oc ==> spec_g1_slot_recode(
                    #[trigger] slot(chunk@, gi.alpha_g1, gi.g1s, i),
                    cbi,
                    slot(final(output)@, fo.alpha_g1, fo.g1s, cs + i),
                    cbo,
                )))
            &&& (r is Ok ==> (forall|i: nat|
                i < gi.oc ==> spec_g1_slot_recode(
                    #[trigger] slot(chunk@, gi.beta_g1, gi.g1s, i),
                    cbi,
                    slot(final(output)@, fo.beta_g1, fo.g1s, cs + i),
                    cbo,
                )))
            &&& (r is Ok <==> ((forall|i: nat|
                i < gi.oc ==> spec_g1_read_ok(
                    #[trigger] slot(chunk@, gi.alpha_g1, gi.g1s, i),
                    cbi,
                    check_input,
                )) && (forall|i: nat|
                i < gi.oc ==> spec_g1_read_ok(
                    #[trigger] slot(chunk@, gi.beta_g1, gi.g1s, i),
                    cbi,
                    check_input,
                ))))
        }),
{
    let n_in = chunk.len();
    let n_out = output.len();
    let li = Layout::chunk(params_k, compressed_input);
    let lo = Layout::full(params_k, compressed_output);
    let ghost gi = chunk_glayout(*params_k, compressed_input);
    let ghost fo = full_glayout(*params_k, compressed_output);
    let ghost cbi = is_compressed(compressed_input);
    let ghost cbo = is_compressed(compressed_output);
    let cs = chunk_start(params_k);
    proof {
        li.lemma_gl();
        lo.lemma_gl();
        assert(gi == li.gl());
        assert(fo == lo.gl());
        lemma_chunk_counts(*params_k);
        lemma_chunk_bounds(*params_k);
        crate::layout::lemma_mul_distribute(params_k.spec_chunk_start(), gi.g1c, fo.g1s);
        crate::layout::lemma_mul_distribute(params_k.spec_chunk_start(), gi.oc, fo.g2s);
        crate::layout::lemma_mul_distribute(params_k.spec_chunk_start(), gi.oc, fo.g1s);
        lemma_mul_le(params_k.spec_chunk_start() + gi.g1c, fo.g1c, fo.g1s);
        if gi.oc > 0 {
            lemma_mul_le(params_k.spec_chunk_start() + gi.oc, fo.oc, fo.g2s);
            lemma_mul_le(params_k.spec_chunk_start() + gi.oc, fo.oc, fo.g1s);
        }
        lemma_mul_le(params_k.spec_chunk_start(), fo.g1c, fo.g1s);
        assert(is_compressed(UseCompression::Yes) == true);
        assert(is_compressed(UseCompression::No) == false);
    }
    let off_1 = if li.other_count > 0 { lo.alpha_g1 + cs * lo.g1_size } else { lo.alpha_g1 };
    let off_2 = if li.other_count > 0 { lo.beta_g1 + cs * lo.g1_size } else { lo.beta_g1 };
    let ghost s0 = output@;
    match recode_region_g1(
        output,
        off_1,
        compressed_output,
        chunk,
        li.alpha_g1,
        compressed_input,
        check_input,
        li.other_count,
        ElementType::AlphaG1,
    ) {
        Ok(()) => (),
        Err(e) => {
            proof {
                let i0 = choose|i: nat|
                    i < li.other_count && !spec_g1_read_ok(
                        #[trigger] slot(chunk@, li.alpha_g1 as nat, g1_enc_size(cbi), i),
                        cbi,
                        check_input,
                    );
                assert(!spec_g1_read_ok(slot(chunk@, gi.alpha_g1, gi.g1s, i0), cbi, check_input));
            }
            return Err(e);
        },
    }
    let ghost s1 = output@;
    match recode_region_g1(
        output,
        off_2,
        compressed_output,
        chunk,
        li.beta_g1,
        compressed_input,
        check_input,
        li.other_count,
        ElementType::BetaG1,
    ) {
        Ok(()) => (),
        Err(e) => {
            proof {
                let i0 = choose|i: nat|
                    i < li.other_count && !spec_g1_read_ok(
                        #[trigger] slot(chunk@, li.beta_g1 as nat, g1_enc_size(cbi), i),
                        cbi,
                        check_input,
                    );
                assert(!spec_g1_read_ok(slot(chunk@, gi.beta_g1, gi.g1s, i0), cbi, check_input));
            }
            return Err(e);
        },
    }
    proof {
        let cs_g = params_k.spec_chunk_start();
        assert forall|i: nat| i < gi.oc implies spec_g1_slot_recode(
            slot(chunk@, gi.alpha_g1, gi.g1s, i),
            cbi,
            slot(output@, fo.alpha_g1, fo.g1s, cs_g + i),
            cbo,
        ) by {
            crate::layout::lemma_slot_shift(s1, fo.alpha_g1, fo.g1s, cs_g, i);
            crate::layout::lemma_slot_shift(output@, fo.alpha_g1, fo.g1s, cs_g, i);
            crate::layout::lemma_mul_distribute(cs_g + i, 1, fo.g1s);
            assert(1 * fo.g1s == fo.g1s) by (nonlinear_arith);
            lemma_mul_le(cs_g + i + 1, fo.oc, fo.g1s);
            lemma_subrange_unchanged(
                s1,
                output@,
                slot_off((fo.alpha_g1 + cs_g * fo.g1s) as nat, fo.g1s, i),
                slot_off((fo.alpha_g1 + cs_g * fo.g1s) as nat, fo.g1s, i) + fo.g1s,
            );
            assert(spec_g1_slot_recode(
                slot(chunk@, li.alpha_g1 as nat, g1_enc_size(cbi), i),
                cbi,
                slot(s1, off_1 as nat, g1_enc_size(cbo), i),
                cbo,
            ));
            assert(slot(output@, (fo.alpha_g1 + cs_g * fo.g1s) as nat, fo.g1s, i) == slot(
                s1,
                (fo.alpha_g1 + cs_g * fo.g1s) as nat,
                fo.g1s,
                i,
            ));
        }
        assert forall|i: nat| i < gi.oc implies spec_g1_slot_recode(
            slot(chunk@, gi.beta_g1, gi.g1s, i),
            cbi,
            slot(output@, fo.beta_g1, fo.g1s, cs_g + i),
            cbo,
        ) by {
            crate::layout::lemma_slot_shift(output@, fo.beta_g1, fo.g1s, cs_g, i);
            assert(spec_g1_slot_recode(
                slot(chunk@, li.beta_g1 as nat, g1_enc_size(cbi), i),
                cbi,
                slot(output@, off_2 as nat, g1_enc_size(cbo), i),
                cbo,
            ));
        }
    }
    proof {
        assert forall|i: nat| i < gi.oc implies spec_g1_read_ok(
            slot(chunk@, gi.alpha_g1, gi.g1s, i),
            cbi,
            check_input,
        ) by {
            assert(spec_g1_read_ok(
                slot(chunk@, li.alpha_g1 as nat, g1_enc_size(cbi), i),
                cbi,
                check_input,
            ));
        }
        assert forall|i: nat| i < gi.oc implies spec_g1_read_ok(
            slot(chunk@, gi.beta_g1, gi.g1s, i),
            cbi,
            check_input,
        ) by {
            assert(spec_g1_read_ok(
                slot(chunk@, li.beta_g1 as nat, g1_enc_size(cbi), i),
                cbi,
                check_input,
            ));
        }
    }
    Ok(())
}

/// Copies one chunk into the assembled accumulator.
#[verifier::rlimit(100)]
#[verifier::spinoff_prover]
fn combine_chunk(
    chunk: &[u8],
    compressed_input: UseCompression,
    check_input: CheckForCorrectness,
    output: &mut Vec<u8>,
    compressed_output: UseCompression,
    params_k: &CeremonyParams,
) -> (r: Result<(), Error>)
    requires
        params_k.wf(),
        params_k.curve.is_engine_curve(),
        params_k.contribution_mode == crate::params::ContributionMode::Chunked,
        params_k.spec_chunk_start() < params_k.powers_g1_length,
        chunk@.len() == spec_chunk_len(*params_k, compressed_input),
        old(output)@.len() == crate::layout::spec_full_len(*params_k, compressed_output),
    ensures
        final(output)@.len() == old(output)@.len(),
        forall|p: int|
            0 <= p < old(output)@.len() && !spec_chunk_spans(p, compressed_output, *params_k)
                ==> final(output)@[p] == old(output)@[p],
        r is Ok ==> spec_chunk_combined(
            chunk@,
            compressed_input,
            final(output)@,
            compressed_output,
            *params_k,
        ),
        r is Ok <==> spec_inputs_ok(chunk@, compressed_input, check_input, *params_k),
{
    let n_in = chunk.len();
    let n_out = output.len();
    let li = Layout::chunk(params_k, compressed_input);
    let lo = Layout::full(params_k, compressed_output);
    let ghost gi = chunk_glayout(*params_k, compressed_input);
    let ghost cbi = is_compressed(compressed_input);
    proof {
        li.lemma_gl();
        lo.lemma_gl();
        assert(gi == li.gl());
        assert(gi.g1s == g1_enc_size(cbi));
        assert(gi.g2s == g2_enc_size(cbi));
        assert(1 * (li.g2_size as nat) == li.g2_size as nat) by (nonlinear_arith);
        assert(1 * (lo.g2_size as nat) == lo.g2_size as nat) by (nonlinear_arith);
        assert(is_compressed(UseCompression::Yes) == true);
        assert(is_compressed(UseCompression::No) == false);
        assert(slot(chunk@, gi.beta_g2, gi.g2s, 0) == chunk@.subrange(
            gi.beta_g2 as int,
            (gi.beta_g2 + gi.g2s) as int,
        )) by {
            assert(0 * gi.g2s == 0) by (nonlinear_arith);
        }
    }
    let ghost s0 = output@;
    match combine_chunk_tau(
        chunk,
        compressed_input,
        check_input,
        output,
        compressed_output,
        params_k,
    ) {
        Ok(()) => (),
        Err(e) => {
            return Err(e);
        },
    }
    let ghost s_tau = output@;
    match combine_chunk_alpha_beta(
        chunk,
        compressed_input,
        check_input,
        output,
        compressed_output,
        params_k,
    ) {
        Ok(()) => (),
        Err(e) => {
            return Err(e);
        },
    }
    let ghost s_ab = output@;
    if params_k.chunk_index == 0 {
        match recode_region_g2(
            output,
            lo.beta_g2,
            compressed_output,
            chunk,
            li.beta_g2,
            compressed_input,
            check_input,
            1,
            ElementType::BetaG2,
        ) {
            Ok(()) => (),
            Err(e) => {
                proof {
                    assert(!spec_g2_read_ok(
                        slot(chunk@, gi.beta_g2, gi.g2s, 0),
                        cbi,
                        check_input,
                    ));
                }
                return Err(e);
            },
        }
    } else {
        match read_g2_at(chunk, li.beta_g2, compressed_input, check_input, ElementType::BetaG2) {
            Ok(_) => (),
            Err(e) => {
                proof {
                    assert(!spec_g2_read_ok(
                        slot(chunk@, gi.beta_g2, gi.g2s, 0),
                        cbi,
                        check_input,
                    ));
                }
                return Err(e);
            },
        }
    }
    proof {
        lemma_combine_final_stitch(
            chunk@,
            compressed_input,
            compressed_output,
            s0,
            s_tau,
            s_ab,
            output@,
            *params_k,
            li,
            lo,
        );
    }
    Ok(())
}

/// Joins the two stage results and the singleton into the combined-chunk
/// statement: each stage's slots lie below everything written after it.
#[verifier::rlimit(100)]
#[verifier::spinoff_prover]
proof fn lemma_combine_final_stitch(
    chunkb: Seq<u8>,
    ci: UseCompression,
    co: UseCompression,
    s0: Seq<u8>,
    s_tau: Seq<u8>,
    s_ab: Seq<u8>,
    post: Seq<u8>,
    params_k: CeremonyParams,
    li: Layout,
    lo: Layout,
)
    requires
        params_k.wf(),
        params_k.curve.is_engine_curve(),
        params_k.contribution_mode == crate::params::ContributionMode::Chunked,
        params_k.spec_chunk_start() < params_k.powers_g1_length,
        li.gl() == chunk_glayout(params_k, ci),
        lo.gl() == full_glayout(params_k, co),
        s0.len() == post.len(),
        s_tau.len() == post.len(),
        s_ab.len() == post.len(),
        post.len() == crate::layout::spec_full_len(params_k, co),
        ({
            let gi = chunk_glayout(params_k, ci);
            let fo = full_glayout(params_k, co);
            let cbi = is_compressed(ci);
            let cbo = is_compressed(co);
            let cs = params_k.spec_chunk_start();
            &&& (forall|i: nat|
                i < gi.g1c ==> spec_g1_slot_recode(
                    #[trigger] slot(chunkb, gi.tau_g1, gi.g1s, i),
                    cbi,
                    slot(s_tau, fo.tau_g1, fo.g1s, cs + i),
                    cbo,
                ))
            &&& (forall|i: nat|
                i < gi.oc ==> spec_g2_slot_recode(
                    #[trigger] slot(chunkb, gi.tau_g2, gi.g2s, i),
                    cbi,
                    slot(s_tau, fo.tau_g2, fo.g2s, cs + i),
                    cbo,
                ))
            &&& (forall|i: nat|
                i < gi.oc ==> spec_g1_slot_recode(
                    #[trigger] slot(chunkb, gi.alpha_g1, gi.g1s, i),
                    cbi,
                    slot(s_ab, fo.alpha_g1, fo.g1s, cs + i),
                    cbo,
                ))
            &&& (forall|i: nat|
                i < gi.oc ==> spec_g1_slot_recode(
                    #[trigger] slot(chunkb, gi.beta_g1, gi.g1s, i),
                    cbi,
                    slot(s_ab, fo.beta_g1, fo.g1s, cs + i),
                    cbo,
                ))
            &&& (forall|p: int|
                0 <= p < s0.len() && !(fo.tau_g1 + cs * fo.g1s <= p < fo.tau_g1 + cs * fo.g1s
                    + gi.g1c * fo.g1s) && !(fo.tau_g2 + cs * fo.g2s <= p < fo.tau_g2 + cs * fo.g2s
                    + gi.oc * fo.g2s) ==> s_tau[p] == s0[p])
            &&& (forall|p: int|
                0 <= p < s0.len() && !(fo.alpha_g1 + cs * fo.g1s <= p < fo.alpha_g1 + cs * fo.g1s
                    + gi.oc * fo.g1s) && !(fo.beta_g1 + cs * fo.g1s <= p < fo.beta_g1 + cs
                    * fo.g1s + gi.oc * fo.g1s) ==> s_ab[p] == s_tau[p])
            &&& (params_k.chunk_index == 0 ==> spec_g2_slot_recode(
                slot(chunkb, li.beta_g2 as nat, g2_enc_size(cbi), 0),
                cbi,
                slot(post, lo.beta_g2 as nat, g2_enc_size(cbo), 0),
                cbo,
            ))
            &&& (params_k.chunk_index == 0 ==> forall|p: int|
                0 <= p < s0.len() && !(lo.beta_g2 <= p < lo.beta_g2 + 1 * g2_enc_size(cbo))
                    ==> post[p] == s_ab[p])
            &&& (params_k.chunk_index != 0 ==> post == s_ab)
        }),
    ensures
        spec_chunk_combined(chunkb, ci, post, co, params_k),
        forall|p: int|
            0 <= p < post.len() && !spec_chunk_spans(p, co, params_k) ==> post[p] == s0[p],
{
    let gi = chunk_glayout(params_k, ci);
    let fo = full_glayout(params_k, co);
    let cbi = is_compressed(ci);
    let cbo = is_compressed(co);
    let cs = params_k.spec_chunk_start();
    crate::layout::lemma_buf_len_is_total(fo.g1c, fo.oc, fo.g1s, fo.g2s);
    lemma_chunk_bounds(params_k);
    crate::layout::lemma_mul_distribute(cs, gi.g1c, fo.g1s);
    crate::layout::lemma_mul_distribute(cs, gi.oc, fo.g2s);
    crate::layout::lemma_mul_distribute(cs, gi.oc, fo.g1s);
    lemma_mul_le(cs + gi.g1c, fo.g1c, fo.g1s);
    if gi.oc > 0 {
        lemma_mul_le(cs + gi.oc, fo.oc, fo.g2s);
        lemma_mul_le(cs + gi.oc, fo.oc, fo.g1s);
    }
    assert(1 * g2_enc_size(cbo) == g2_enc_size(cbo)) by (nonlinear_arith);
    assert forall|i: nat| i < gi.g1c implies spec_g1_slot_recode(
        slot(chunkb, gi.tau_g1, gi.g1s, i),
        cbi,
        slot(post, fo.tau_g1, fo.g1s, cs + i),
        cbo,
    ) by {
        crate::layout::lemma_mul_distribute(cs + i, 1, fo.g1s);
        assert(1 * fo.g1s == fo.g1s) by (nonlinear_arith);
        lemma_mul_le(cs + i + 1, fo.g1c, fo.g1s);
        assert forall|p: int|
            slot_off(fo.tau_g1, fo.g1s, cs + i) <= p < slot_off(fo.tau_g1, fo.g1s, cs + i)
                + fo.g1s implies s_tau[p] == post[p] by {
            assert(s_tau[p] == s_ab[p]);
            assert(s_ab[p] == post[p]);
        }
        lemma_subrange_unchanged(
            s_tau,
            post,
            slot_off(fo.tau_g1, fo.g1s, cs + i),
            slot_off(fo.tau_g1, fo.g1s, cs + i) + fo.g1s,
        );
        assert(slot(post, fo.tau_g1, fo.g1s, cs + i) == slot(s_tau, fo.tau_g1, fo.g1s, cs + i));
    }
    assert forall|i: nat| i < gi.oc implies spec_g2_slot_recode(
        slot(chunkb, gi.tau_g2, gi.g2s, i),
        cbi,
        slot(post, fo.tau_g2, fo.g2s, cs + i),
        cbo,
    ) by {
        crate::layout::lemma_mul_distribute(cs + i, 1, fo.g2s);
        assert(1 * fo.g2s == fo.g2s) by (nonlinear_arith);
        lemma_mul_le(cs + i + 1, fo.oc, fo.g2s);
        assert forall|p: int|
            slot_off(fo.tau_g2, fo.g2s, cs + i) <= p < slot_off(fo.tau_g2, fo.g2s, cs + i)
                + fo.g2s implies s_tau[p] == post[p] by {
            assert(s_tau[p] == s_ab[p]);
            assert(s_ab[p] == post[p]);
        }
        lemma_subrange_unchanged(
            s_tau,
            post,
            slot_off(fo.tau_g2, fo.g2s, cs + i),
            slot_off(fo.tau_g2, fo.g2s, cs + i) + fo.g2s,
        );
        assert(slot(post, fo.tau_g2, fo.g2s, cs + i) == slot(s_tau, fo.tau_g2, fo.g2s, cs + i));
    }
    assert forall|i: nat| i < gi.oc implies spec_g1_slot_recode(
        slot(chunkb, gi.alpha_g1, gi.g1s, i),
        cbi,
        slot(post, fo.alpha_g1, fo.g1s, cs + i),
        cbo,
    ) by {
        crate::layout::lemma_mul_distribute(cs + i, 1, fo.g1s);
        assert(1 * fo.g1s == fo.g1s) by (nonlinear_arith);
        lemma_mul_le(cs + i + 1, fo.oc, fo.g1s);
        lemma_subrange_unchanged(
            s_ab,
            post,
            slot_off(fo.alpha_g1, fo.g1s, cs + i),
            slot_off(fo.alpha_g1, fo.g1s, cs + i) + fo.g1s,
        );
        assert(slot(post, fo.alpha_g1, fo.g1s, cs + i) == slot(s_ab, fo.alpha_g1, fo.g1s, cs + i));
    }
    assert forall|i: nat| i < gi.oc implies spec_g1_slot_recode(
        slot(chunkb, gi.beta_g1, gi.g1s, i),
        cbi,
        slot(post, fo.beta_g1, fo.g1s, cs + i),
        cbo,
    ) by {
        crate::layout::lemma_mul_distribute(cs + i, 1, fo.g1s);
        assert(1 * fo.g1s == fo.g1s) by (nonlinear_arith);
        lemma_mul_le(cs + i + 1, fo.oc, fo.g1s);
        lemma_subrange_unchanged(
            s_ab,
            post,
            slot_off(fo.beta_g1, fo.g1s, cs + i),
            slot_off(fo.beta_g1, fo.g1s, cs + i) + fo.g1s,
        );
        assert(slot(post, fo.beta_g1, fo.g1s, cs + i) == slot(s_ab, fo.beta_g1, fo.g1s, cs + i));
    }
    if params_k.chunk_index == 0 {
        assert(0 * fo.g2s == 0) by (nonlinear_arith);
    }
    assert forall|p: int|
        0 <= p < post.len() && !spec_chunk_spans(p, co, params_k) implies post[p] == s0[p] by {
        assert(s0[p] == s_tau[p]);
        assert(s_tau[p] == s_ab[p]);
        assert(s_ab[p] == post[p]);
    }
}



/// The chunk's element range lies inside the full arrays.
pub proof fn lemma_chunk_bounds(params: CeremonyParams)
    requires
        params.wf(),
        params.contribution_mode == crate::params::ContributionMode::Chunked,
        params.spec_chunk_start() < params.powers_g1_length,
    ensures
        params.spec_chunk_start() + params.spec_g1_count() <= params.powers_g1_length,
        params.spec_other_count() > 0 ==> params.spec_chunk_start() + params.spec_other_count()
            <= params.powers_length,
        params.spec_g1_count() > 0,
{
    lemma_mul_succ(params.chunk_index as nat, params.chunk_size as nat);
}

/// The ceremony parameters seen from chunk `k`.
pub open spec fn spec_at_chunk(params: CeremonyParams, k: nat) -> CeremonyParams {
    CeremonyParams { chunk_index: k as usize, ..params }
}

/// A combined chunk stays combined while later chunks are written: the
/// write spans of chunk `k` lie strictly above every element of chunk `k1 < k`.
#[verifier::rlimit(100)]
#[verifier::spinoff_prover]
proof fn lemma_combined_stable(
    chunkb: Seq<u8>,
    ci: UseCompression,
    pre: Seq<u8>,
    post: Seq<u8>,
    co: UseCompression,
    params: CeremonyParams,
    k1: nat,
    k: nat,
)
    requires
        params.wf(),
        params.curve.is_engine_curve(),
        params.contribution_mode == crate::params::ContributionMode::Chunked,
        k1 < k,
        (k + 1) * params.chunk_size <= usize::MAX,
        k * params.chunk_size < params.powers_g1_length,
        pre.len() == post.len(),
        pre.len() == crate::layout::spec_full_len(params, co),
        spec_chunk_combined(chunkb, ci, pre, co, spec_at_chunk(params, k1)),
        forall|p: int|
            0 <= p < pre.len() && !spec_chunk_spans(p, co, spec_at_chunk(params, k)) ==> post[p]
                == pre[p],
    ensures
        spec_chunk_combined(chunkb, ci, post, co, spec_at_chunk(params, k1)),
{
    let pk1 = spec_at_chunk(params, k1);
    let pk = spec_at_chunk(params, k);
    let gi = chunk_glayout(pk1, ci);
    let fo = full_glayout(pk1, co);
    let cbo = is_compressed(co);
    let cs1 = pk1.spec_chunk_start();
    let cs = pk.spec_chunk_start();
    let c = params.chunk_size as nat;
    assert(full_glayout(pk, co) == fo);
    assert(chunk_glayout(pk, co).g1c == pk.spec_g1_count());
    // cs1 + count(k1) <= cs
    lemma_mul_succ(k1, c);
    lemma_mul_le(k1 + 1, k, c);
    lemma_mul_succ(k, c);
    let cnt1g = gi.g1c;
    let cnt1o = gi.oc;
    assert(k + 1 <= (k + 1) * c) by (nonlinear_arith)
        requires c >= 1;
    assert(k1 as usize == k1 && k as usize == k);
    assert(cs1 == k1 * c && cs == k * c);
    assert(cnt1g <= c && cnt1o <= c);
    assert(cs1 + cnt1g <= cs && cs1 + cnt1o <= cs);
    crate::layout::lemma_buf_len_is_total(fo.g1c, fo.oc, fo.g1s, fo.g2s);
    assert(fo.total == pre.len());
    assert(cs1 < params.powers_g1_length);
    assert(pk1.wf()) by {
        lemma_mul_le(k1 + 1, k + 1, c);
    }
    lemma_chunk_bounds(pk1);
    assert(cs1 + gi.g1c <= fo.g1c);
    assert(gi.oc > 0 ==> cs1 + gi.oc <= fo.oc);
    lemma_mul_le(cs, fo.g1c, fo.g1s);
    assert(pk.wf());
    lemma_chunk_bounds(pk);
    let g1ck = chunk_glayout(pk, co).g1c;
    let ock = chunk_glayout(pk, co).oc;
    crate::layout::lemma_mul_distribute(cs, g1ck, fo.g1s);
    lemma_mul_le(cs + g1ck, fo.g1c, fo.g1s);
    if ock > 0 {
        crate::layout::lemma_mul_distribute(cs, ock, fo.g2s);
        crate::layout::lemma_mul_distribute(cs, ock, fo.g1s);
        lemma_mul_le(cs + ock, fo.oc, fo.g2s);
        lemma_mul_le(cs + ock, fo.oc, fo.g1s);
    }
    assert(pk.chunk_index != 0);
    crate::layout::lemma_mul_distribute(cs1, cnt1g, fo.g1s);
    crate::layout::lemma_mul_distribute(cs1, cnt1o, fo.g2s);
    crate::layout::lemma_mul_distribute(cs1, cnt1o, fo.g1s);
    lemma_mul_le(cs1 + cnt1g, cs, fo.g1s);
    lemma_mul_le(cs1 + cnt1o, cs, fo.g2s);
    lemma_mul_le(cs1 + cnt1o, cs, fo.g1s);
    assert forall|i: nat| i < gi.g1c implies spec_g1_slot_recode(
        slot(chunkb, gi.tau_g1, gi.g1s, i),
        is_compressed(ci),
        slot(post, fo.tau_g1, fo.g1s, cs1 + i),
        cbo,
    ) by {
        crate::layout::lemma_mul_distribute(cs1 + i, 1, fo.g1s);
        assert((cs1 + i) * fo.g1s + fo.g1s <= cs * fo.g1s) by {
            lemma_mul_le(cs1 + i + 1, cs, fo.g1s);
            assert(1 * fo.g1s == fo.g1s) by (nonlinear_arith);
        }
        lemma_mul_le(cs1 + i + 1, fo.g1c, fo.g1s);
        lemma_subrange_unchanged(
            pre,
            post,
            slot_off(fo.tau_g1, fo.g1s, cs1 + i),
            slot_off(fo.tau_g1, fo.g1s, cs1 + i) + fo.g1s,
        );
        assert(slot(post, fo.tau_g1, fo.g1s, cs1 + i) == slot(pre, fo.tau_g1, fo.g1s, cs1 + i));
    }
    assert forall|i: nat| i < gi.oc implies spec_g2_slot_recode(
        slot(chunkb, gi.tau_g2, gi.g2s, i),
        is_compressed(ci),
        slot(post, fo.tau_g2, fo.g2s, cs1 + i),
        cbo,
    ) by {
        crate::layout::lemma_mul_distribute(cs1 + i, 1, fo.g2s);
        assert((cs1 + i) * fo.g2s + fo.g2s <= cs * fo.g2s) by {
            lemma_mul_le(cs1 + i + 1, cs, fo.g2s);
            assert(1 * fo.g2s == fo.g2s) by (nonlinear_arith);
        }
        lemma_mul_le(cs1 + i + 1, fo.oc, fo.g2s);
        lemma_subrange_unchanged(
            pre,
            post,
            slot_off(fo.tau_g2, fo.g2s, cs1 + i),
            slot_off(fo.tau_g2, fo.g2s, cs1 + i) + fo.g2s,
        );
        assert(slot(post, fo.tau_g2, fo.g2s, cs1 + i) == slot(pre, fo.tau_g2, fo.g2s, cs1 + i));
    }
    assert forall|i: nat| i < gi.oc implies spec_g1_slot_recode(
        slot(chunkb, gi.alpha_g1, gi.g1s, i),
        is_compressed(ci),
        slot(post, fo.alpha_g1, fo.g1s, cs1 + i),
        cbo,
    ) by {
        crate::layout::lemma_mul_distribute(cs1 + i, 1, fo.g1s);
        assert((cs1 + i) * fo.g1s + fo.g1s <= cs * fo.g1s) by {
            lemma_mul_le(cs1 + i + 1, cs, fo.g1s);
            assert(1 * fo.g1s == fo.g1s) by (nonlinear_arith);
        }
        lemma_mul_le(cs1 + i + 1, fo.oc, fo.g1s);
        lemma_subrange_unchanged(
            pre,
            post,
            slot_off(fo.alpha_g1, fo.g1s, cs1 + i),
            slot_off(fo.alpha_g1, fo.g1s, cs1 + i) + fo.g1s,
        );
        assert(slot(post, fo.alpha_g1, fo.g1s, cs1 + i) == slot(pre, fo.alpha_g1, fo.g1s, cs1 + i));
    }
    assert forall|i: nat| i < gi.oc implies spec_g1_slot_recode(
        slot(chunkb, gi.beta_g1, gi.g1s, i),
        is_compressed(ci),
        slot(post, fo.beta_g1, fo.g1s, cs1 + i),
        cbo,
    ) by {
        crate::layout::lemma_mul_distribute(cs1 + i, 1, fo.g1s);
        assert((cs1 + i) * fo.g1s + fo.g1s <= cs * fo.g1s) by {
            lemma_mul_le(cs1 + i + 1, cs, fo.g1s);
            assert(1 * fo.g1s == fo.g1s) by (nonlinear_arith);
        }
        lemma_mul_le(cs1 + i + 1, fo.oc, fo.g1s);
        lemma_subrange_unchanged(
            pre,
            post,
            slot_off(fo.beta_g1, fo.g1s, cs1 + i),
            slot_off(fo.beta_g1, fo.g1s, cs1 + i) + fo.g1s,
        );
        assert(slot(post, fo.beta_g1, fo.g1s, cs1 + i) == slot(pre, fo.beta_g1, fo.g1s, cs1 + i));
    }
    if pk1.chunk_index == 0 {
        assert(0 * fo.g2s == 0) by (nonlinear_arith);
        lemma_subrange_unchanged(
            pre,
            post,
            slot_off(fo.beta_g2, fo.g2s, 0),
            slot_off(fo.beta_g2, fo.g2s, 0) + fo.g2s,
        );
        assert(slot(post, fo.beta_g2, fo.g2s, 0) == slot(pre, fo.beta_g2, fo.g2s, 0));
    }
}

/// Stitches chunked responses into one full accumulator: element `i` of each
/// array of chunk `k` lands at absolute position `k * chunk_size + i`,
/// re-encoded for the output compression; the BetaG2 singleton comes from
/// chunk zero.  The digest prefix and all bytes beyond the written element
/// ranges keep their prior contents.
#[verifier::rlimit(100)]
pub fn combine(
    inputs: &Vec<Vec<u8>>,
    compressed_input: UseCompression,
    check_input: CheckForCorrectness,
    output: &mut Vec<u8>,
    compressed_output: UseCompression,
    parameters: &CeremonyParams,
) -> (r: Result<(), Error>)
    requires
        parameters.wf(),
        parameters.curve.is_engine_curve(),
        parameters.contribution_mode == crate::params::ContributionMode::Chunked,
        inputs@.len() >= 1,
        (inputs@.len() - 1) * parameters.chunk_size < parameters.powers_g1_length,
        inputs@.len() * parameters.chunk_size <= usize::MAX,
        forall|k: int|
            0 <= k < inputs@.len() ==> (#[trigger] inputs@[k])@.len() == spec_chunk_len(
                spec_at_chunk(*parameters, k as nat),
                compressed_input,
            ),
        old(output)@.len() == crate::layout::spec_full_len(*parameters, compressed_output),
    ensures
        final(output)@.len() == old(output)@.len(),
        forall|p: int| 0 <= p < 64 ==> final(output)@[p] == old(output)@[p],
        r is Ok ==> forall|k: int|
            0 <= k < inputs@.len() ==> spec_chunk_combined(
                (#[trigger] inputs@[k])@,
                compressed_input,
                final(output)@,
                compressed_output,
                spec_at_chunk(*parameters, k as nat),
            ),
        r is Ok <==> forall|k: int|
            0 <= k < inputs@.len() ==> spec_inputs_ok(
                (#[trigger] inputs@[k])@,
                compressed_input,
                check_input,
                spec_at_chunk(*parameters, k as nat),
            ),
{
    let n_chunks = inputs.len();
    let mut k: usize = 0;
    while k < n_chunks
        invariant
            k <= n_chunks,
            n_chunks == inputs@.len(),
            parameters.wf(),
            parameters.curve.is_engine_curve(),
            parameters.contribution_mode == crate::params::ContributionMode::Chunked,
            n_chunks >= 1,
            (n_chunks - 1) * parameters.chunk_size < parameters.powers_g1_length,
            n_chunks * parameters.chunk_size <= usize::MAX,
            forall|j: int|
                0 <= j < inputs@.len() ==> (#[trigger] inputs@[j])@.len() == spec_chunk_len(
                    spec_at_chunk(*parameters, j as nat),
                    compressed_input,
                ),
            output@.len() == old(output)@.len(),
            old(output)@.len() == crate::layout::spec_full_len(*parameters, compressed_output),
            forall|j: int|
                0 <= j < k ==> spec_chunk_combined(
                    (#[trigger] inputs@[j])@,
                    compressed_input,
                    output@,
                    compressed_output,
                    spec_at_chunk(*parameters, j as nat),
                ),
            forall|j: int|
                0 <= j < k ==> spec_inputs_ok(
                    (#[trigger] inputs@[j])@,
                    compressed_input,
                    check_input,
                    spec_at_chunk(*parameters, j as nat),
                ),
            forall|p: int| 0 <= p < 64 ==> output@[p] == old(output)@[p],
        decreases n_chunks - k,
    {
        proof {
            lemma_mul_le(k as nat + 1, n_chunks as nat, parameters.chunk_size as nat);
            lemma_mul_le(k as nat, (n_chunks - 1) as nat, parameters.chunk_size as nat);
        }
        let params_k = parameters.specialize_to_chunk(k);
        proof {
            assert(params_k == spec_at_chunk(*parameters, k as nat));
            assert(params_k.spec_chunk_start() == k as nat * parameters.chunk_size as nat);
            assert(crate::layout::spec_full_len(params_k, compressed_output)
                == crate::layout::spec_full_len(*parameters, compressed_output));
        }
        let chunk = &inputs[k];
        let ghost pre = output@;
        match combine_chunk(
            chunk.as_slice(),
            compressed_input,
            check_input,
            output,
            compressed_output,
            &params_k,
        ) {
            Ok(()) => (),
            Err(e) => {
                proof {
                    assert forall|p: int| 0 <= p < 64 implies output@[p] == pre[p] by {
                        assert(!spec_chunk_spans(p, compressed_output, params_k));
                    }
                }
                return Err(e);
            },
        }
        proof {
            assert forall|p: int| 0 <= p < 64 implies output@[p] == pre[p] by {
                assert(!spec_chunk_spans(p, compressed_output, params_k));
            }
            assert forall|j: int| 0 <= j < k implies spec_chunk_combined(
                (#[trigger] inputs@[j])@,
                compressed_input,
                output@,
                compressed_output,
                spec_at_chunk(*parameters, j as nat),
            ) by {
                lemma_combined_stable(
                    inputs@[j]@,
                    compressed_input,
                    pre,
                    output@,
                    compressed_output,
                    *parameters,
                    j as nat,
                    k as nat,
                );
            }
        }
        k = k + 1;
    }
    Ok(())
}

/// Reads `count` G1 elements of a region into a vector.
pub(crate) fn read_region_points_g1(
    buf: &[u8],
    off: usize,
    count: usize,
    c: UseCompression,
    check: CheckForCorrectness,
    et: ElementType,
) -> (r: Result<Vec<G1Point>, Error>)
    requires
        off + count * g1_enc_size(is_compressed(c)) <= buf@.len(),
    ensures
        ({
            let cb = is_compressed(c);
            let size = g1_enc_size(cb);
            &&& (r is Ok <==> (forall|i: nat|
                i < count ==> spec_g1_read_ok(#[trigger] slot(buf@, off as nat, size, i), cb, check)))
            &&& r is Ok ==> {
                let v = r->Ok_0;
                &&& v@.len() == count
                &&& forall|i: int|
                    0 <= i < count ==> Some((#[trigger] v@[i]).repr()) == g1_canon(
                        slot(buf@, off as nat, size, i as nat),
                        cb,
                    )
            }
        }),
{
    let cb = compressed_flag(c);
    let size: usize = if cb { 48 } else { 96 };
    let n = buf.len();
    let ghost csize = g1_enc_size(is_compressed(c));
    let mut v: Vec<G1Point> = Vec::new();
    let mut i: usize = 0;
    while i < count
        invariant
            i <= count,
            cb == is_compressed(c),
            csize == g1_enc_size(cb),
            size == csize,
            n == buf@.len(),
            off + count * size <= n,
            v@.len() == i,
            forall|j: nat|
                j < i ==> spec_g1_read_ok(#[trigger] slot(buf@, off as nat, csize, j), cb, check),
            forall|j: int|
                0 <= j < i ==> Some((#[trigger] v@[j]).repr()) == g1_canon(
                    slot(buf@, off as nat, csize, j as nat),
                    cb,
                ),
        decreases count - i,
    {
        proof {
            lemma_mul_succ(i as nat, size as nat);
            lemma_mul_le((i + 1) as nat, count as nat, size as nat);
            assert(slot(buf@, off as nat, csize, i as nat) == buf@.subrange(
                (off + i * size) as int,
                (off + i * size + size) as int,
            ));
        }
        match read_g1_at(buf, off + i * size, c, check, et) {
            Ok(p) => v.push(p),
            Err(e) => {
                return Err(e);
            },
        }
        i = i + 1;
    }
    Ok(v)
}

/// Reads `count` G2 elements of a region into a vector.
pub(crate) fn read_region_points_g2(
    buf: &[u8],
    off: usize,
    count: usize,
    c: UseCompression,
    check: CheckForCorrectness,
    et: ElementType,
) -> (r: Result<Vec<G2Point>, Error>)
    requires
        off + count * g2_enc_size(is_compressed(c)) <= buf@.len(),
    ensures
        ({
            let cb = is_compressed(c);
            let size = g2_enc_size(cb);
            &&& (r is Ok <==> (forall|i: nat|
                i < count ==> spec_g2_read_ok(#[trigger] slot(buf@, off as nat, size, i), cb, check)))
            &&& r is Ok ==> {
                let v = r->Ok_0;
                &&& v@.len() == count
                &&& forall|i: int|
                    0 <= i < count ==> Some((#[trigger] v@[i]).repr()) == g2_canon(
                        slot(buf@, off as nat, size, i as nat),
                        cb,
                    )
            }
        }),
{
    let cb = compressed_flag(c);
    let size: usize = if cb { 96 } else { 192 };
    let n = buf.len();
    let ghost csize = g2_enc_size(is_compressed(c));
    let mut v: Vec<G2Point> = Vec::new();
    let mut i: usize = 0;
    while i < count
        invariant
            i <= count,
            cb == is_compressed(c),
            csize == g2_enc_size(cb),
            size == csize,
            n == buf@.len(),
            off + count * size <= n,
            v@.len() == i,
            forall|j: nat|
                j < i ==> spec_g2_read_ok(#[trigger] slot(buf@, off as nat, csize, j), cb, check),
            forall|j: int|
                0 <= j < i ==> Some((#[trigger] v@[j]).repr()) == g2_canon(
                    slot(buf@, off as nat, csize, j as nat),
                    cb,
                ),
        decreases count - i,
    {
        proof {
            lemma_mul_succ(i as nat, size as nat);
            lemma_mul_le((i + 1) as nat, count as nat, size as nat);
            assert(slot(buf@, off as nat, csize, i as nat) == buf@.subrange(
                (off + i * size) as int,
                (off + i * size + size) as int,
            ));
        }
        match read_g2_at(buf, off + i * size, c, check, et) {
            Ok(p) => v.push(p),
            Err(e) => {
                return Err(e);
            },
        }
        i = i + 1;
    }
    Ok(v)
}

/// The five element arrays of an accumulator, in memory.
pub struct AccumulatorElements {
    pub tau_g1: Vec<G1Point>,
    pub tau_g2: Vec<G2Point>,
    pub alpha_g1: Vec<G1Point>,
    pub beta_g1: Vec<G1Point>,
    pub beta_g2: G2Point,
}

/// Reads all five element arrays of a buffer into memory.  Succeeds for
/// every buffer whose elements pass the requested checks, and then returns
/// exactly the decoded points of each slot.
pub fn deserialize(
    input: &[u8],
    compressed: UseCompression,
    check_input_for_correctness: CheckForCorrectness,
    parameters: &CeremonyParams,
) -> (r: Result<AccumulatorElements, Error>)
    requires
        parameters.wf(),
        parameters.curve.is_engine_curve(),
        input@.len() >= spec_chunk_len(*parameters, compressed),
    ensures
        r is Ok ==> ({
            let gl = chunk_glayout(*parameters, compressed);
            let cb = is_compressed(compressed);
            let v = r->Ok_0;
            &&& v.tau_g1@.len() == gl.g1c
            &&& v.tau_g2@.len() == gl.oc
            &&& v.alpha_g1@.len() == gl.oc
            &&& v.beta_g1@.len() == gl.oc
            &&& (forall|i: int|
                0 <= i < gl.g1c ==> Some((#[trigger] v.tau_g1@[i]).repr()) == g1_canon(
                    slot(input@, gl.tau_g1, gl.g1s, i as nat),
                    cb,
                ))
            &&& (forall|i: int|
                0 <= i < gl.oc ==> Some((#[trigger] v.tau_g2@[i]).repr()) == g2_canon(
                    slot(input@, gl.tau_g2, gl.g2s, i as nat),
                    cb,
                ))
            &&& (forall|i: int|
                0 <= i < gl.oc ==> Some((#[trigger] v.alpha_g1@[i]).repr()) == g1_canon(
                    slot(input@, gl.alpha_g1, gl.g1s, i as nat),
                    cb,
                ))
            &&& (forall|i: int|
                0 <= i < gl.oc ==> Some((#[trigger] v.beta_g1@[i]).repr()) == g1_canon(
                    slot(input@, gl.beta_g1, gl.g1s, i as nat),
                    cb,
                ))
            &&& Some(v.beta_g2.repr()) == g2_canon(slot(input@, gl.beta_g2, gl.g2s, 0), cb)
        }),
        spec_inputs_ok(input@, compressed, check_input_for_correctness, *parameters) ==> r is Ok,
{
    let n = input.len();
    let li = Layout::chunk(parameters, compressed);
    let ghost gl = chunk_glayout(*parameters, compressed);
    let ghost cb = is_compressed(compressed);
    proof {
        li.lemma_gl();
        assert(gl == li.gl());
        assert(gl.g1s == g1_enc_size(cb));
        assert(gl.g2s == g2_enc_size(cb));
        assert(1 * (li.g2_size as nat) == li.g2_size as nat) by (nonlinear_arith);
        assert(is_compressed(UseCompression::Yes) == true);
        assert(is_compressed(UseCompression::No) == false);
    }
    let tau_g1 = match read_region_points_g1(
        input,
        li.tau_g1,
        li.g1_count,
        compressed,
        check_input_for_correctness,
        ElementType::TauG1,
    ) {
        Ok(v) => v,
        Err(e) => {
            return Err(e);
        },
    };
    let tau_g2 = match read_region_points_g2(
        input,
        li.tau_g2,
        li.other_count,
        compressed,
        check_input_for_correctness,
        ElementType::TauG2,
    ) {
        Ok(v) => v,
        Err(e) => {
            return Err(e);
        },
    };
    let alpha_g1 = match read_region_points_g1(
        input,
        li.alpha_g1,
        li.other_count,
        compressed,
        check_input_for_correctness,
        ElementType::AlphaG1,
    ) {
        Ok(v) => v,
        Err(e) => {
            return Err(e);
        },
    };
    let beta_g1 = match read_region_points_g1(
        input,
        li.beta_g1,
        li.other_count,
        compressed,
        check_input_for_correctness,
        ElementType::BetaG1,
    ) {
        Ok(v) => v,
        Err(e) => {
            return Err(e);
        },
    };
    let beta_g2 = match read_g2_at(
        input,
        li.beta_g2,
        compressed,
        check_input_for_correctness,
        ElementType::BetaG2,
    ) {
        Ok(p) => p,
        Err(e) => {
            return Err(e);
        },
    };
    proof {
        assert(slot(input@, gl.beta_g2, gl.g2s, 0) == input@.subrange(
            gl.beta_g2 as int,
            (gl.beta_g2 + gl.g2s) as int,
        )) by {
            assert(0 * gl.g2s == 0) by (nonlinear_arith);
        }
    }
    Ok(AccumulatorElements { tau_g1, tau_g2, alpha_g1, beta_g1, beta_g2 })
}

/// Writes the `count` points of a vector into the region at `off`.
fn write_region_points_g1(
    output: &mut Vec<u8>,
    off: usize,
    c: UseCompression,
    points: &Vec<G1Point>,
) -> (r: ())
    requires
        off + points@.len() * g1_enc_size(is_compressed(c)) <= old(output)@.len(),
    ensures
        final(output)@.len() == old(output)@.len(),
        forall|p: int|
            0 <= p < old(output)@.len() && !(off <= p < off + points@.len() * g1_enc_size(
                is_compressed(c),
            )) ==> final(output)@[p] == old(output)@[p],
        forall|i: nat|
            i < points@.len() ==> #[trigger] slot(
                final(output)@,
                off as nat,
                g1_enc_size(is_compressed(c)),
                i,
            ) == crate::group::g1_store(points@[i as int].repr(), is_compressed(c)),
{
    let cb = compressed_flag(c);
    let size: usize = if cb { 48 } else { 96 };
    let n_out = output.len();
    let count = points.len();
    let ghost csize = g1_enc_size(is_compressed(c));
    let mut i: usize = 0;
    while i < count
        invariant
            i <= count,
            cb == is_compressed(c),
            csize == g1_enc_size(cb),
            size == csize,
            count == points@.len(),
            n_out == old(output)@.len(),
            off + count * size <= n_out,
            output@.len() == old(output)@.len(),
            forall|j: nat|
                j < i ==> #[trigger] slot(output@, off as nat, csize, j) == crate::group::g1_store(
                    points@[j as int].repr(),
                    cb,
                ),
            forall|p: int|
                0 <= p < old(output)@.len() && !(off <= p < off + i * size) ==> output@[p] == old(
                    output,
                )@[p],
        decreases count - i,
    {
        proof {
            lemma_mul_succ(i as nat, size as nat);
            lemma_mul_le((i + 1) as nat, count as nat, size as nat);
        }
        let bytes = g1_write(&points[i], cb);
        let ghost pre = output@;
        write_in(output, off + i * size, bytes.as_slice());
        proof {
            assert(slot(output@, off as nat, csize, i as nat) == bytes@);
            assert forall|j: nat| j < i implies slot(output@, off as nat, csize, j)
                == crate::group::g1_store(points@[j as int].repr(), cb) by {
                lemma_mul_succ(j, size as nat);
                lemma_mul_le(j + 1, i as nat, size as nat);
                lemma_mul_le(i as nat, count as nat, size as nat);
                lemma_subrange_unchanged(
                    pre,
                    output@,
                    slot_off(off as nat, csize, j),
                    slot_off(off as nat, csize, j) + csize,
                );
                assert(slot(output@, off as nat, csize, j) == slot(pre, off as nat, csize, j));
            }
        }
        i = i + 1;
    }
}

/// Writes the `count` points of a vector into the G2 region at `off`.
fn write_region_points_g2(
    output: &mut Vec<u8>,
    off: usize,
    c: UseCompression,
    points: &Vec<G2Point>,
) -> (r: ())
    requires
        off + points@.len() * g2_enc_size(is_compressed(c)) <= old(output)@.len(),
    ensures
        final(output)@.len() == old(output)@.len(),
        forall|p: int|
            0 <= p < old(output)@.len() && !(off <= p < off + points@.len() * g2_enc_size(
                is_compressed(c),
            )) ==> final(output)@[p] == old(output)@[p],
        forall|i: nat|
            i < points@.len() ==> #[trigger] slot(
                final(output)@,
                off as nat,
                g2_enc_size(is_compressed(c)),
                i,
            ) == crate::group::g2_store(points@[i as int].repr(), is_compressed(c)),
{
    let cb = compressed_flag(c);
    let size: usize = if cb { 96 } else { 192 };
    let n_out = output.len();
    let count = points.len();
    let ghost csize = g2_enc_size(is_compressed(c));
    let mut i: usize = 0;
    while i < count
        invariant
            i <= count,
            cb == is_compressed(c),
            csize == g2_enc_size(cb),
            size == csize,
            count == points@.len(),
            n_out == old(output)@.len(),
            off + count * size <= n_out,
            output@.len() == old(output)@.len(),
            forall|j: nat|
                j < i ==> #[trigger] slot(output@, off as nat, csize, j) == crate::group::g2_store(
                    points@[j as int].repr(),
                    cb,
                ),
            forall|p: int|
                0 <= p < old(output)@.len() && !(off <= p < off + i * size) ==> output@[p] == old(
                    output,
                )@[p],
        decreases count - i,
    {
        proof {
            lemma_mul_succ(i as nat, size as nat);
            lemma_mul_le((i + 1) as nat, count as nat, size as nat);
        }
        let bytes = g2_write(&points[i], cb);
        let ghost pre = output@;
        write_in(output, off + i * size, bytes.as_slice());
        proof {
            assert(slot(output@, off as nat, csize, i as nat) == bytes@);
            assert forall|j: nat| j < i implies slot(output@, off as nat, csize, j)
                == crate::group::g2_store(points@[j as int].repr(), cb) by {
                lemma_mul_succ(j, size as nat);
                lemma_mul_le(j + 1, i as nat, size as nat);
                lemma_mul_le(i as nat, count as nat, size as nat);
                lemma_subrange_unchanged(
                    pre,
                    output@,
                    slot_off(off as nat, csize, j),
                    slot_off(off as nat, csize, j) + csize,
                );
                assert(slot(output@, off as nat, csize, j) == slot(pre, off as nat, csize, j));
            }
        }
        i = i + 1;
    }
}

/// Writes the five element arrays into the output buffer: every slot holds
/// the stored encoding of the corresponding point.
#[verifier::rlimit(100)]
#[verifier::spinoff_prover]
pub fn serialize(
    elements: &AccumulatorElements,
    output: &mut Vec<u8>,
    compressed: UseCompression,
    parameters: &CeremonyParams,
) -> (r: ())
    requires
        parameters.wf(),
        parameters.curve.is_engine_curve(),
        old(output)@.len() >= spec_chunk_len(*parameters, compressed),
        elements.tau_g1@.len() == parameters.spec_g1_count(),
        elements.tau_g2@.len() == parameters.spec_other_count(),
        elements.alpha_g1@.len() == parameters.spec_other_count(),
        elements.beta_g1@.len() == parameters.spec_other_count(),
    ensures
        final(output)@.len() == old(output)@.len(),
        forall|p: int| 0 <= p < 64 ==> final(output)@[p] == old(output)@[p],
        forall|p: int|
            spec_chunk_len(*parameters, compressed) <= p < old(output)@.len()
                ==> final(output)@[p] == old(output)@[p],
        ({
            let gl = chunk_glayout(*parameters, compressed);
            let cb = is_compressed(compressed);
            &&& (forall|i: nat|
                i < gl.g1c ==> #[trigger] slot(final(output)@, gl.tau_g1, gl.g1s, i)
                    == crate::group::g1_store(elements.tau_g1@[i as int].repr(), cb))
            &&& (forall|i: nat|
                i < gl.oc ==> #[trigger] slot(final(output)@, gl.tau_g2, gl.g2s, i)
                    == crate::group::g2_store(elements.tau_g2@[i as int].repr(), cb))
            &&& (forall|i: nat|
                i < gl.oc ==> #[trigger] slot(final(output)@, gl.alpha_g1, gl.g1s, i)
                    == crate::group::g1_store(elements.alpha_g1@[i as int].repr(), cb))
            &&& (forall|i: nat|
                i < gl.oc ==> #[trigger] slot(final(output)@, gl.beta_g1, gl.g1s, i)
                    == crate::group::g1_store(elements.beta_g1@[i as int].repr(), cb))
            &&& slot(final(output)@, gl.beta_g2, gl.g2s, 0) == crate::group::g2_store(
                elements.beta_g2.repr(),
                cb,
            )
        }),
{
    let n = output.len();
    let lo = Layout::chunk(parameters, compressed);
    let ghost gl = chunk_glayout(*parameters, compressed);
    let ghost cb = is_compressed(compressed);
    proof {
        lo.lemma_gl();
        assert(gl == lo.gl());
        assert(gl.g1s == g1_enc_size(cb));
        assert(gl.g2s == g2_enc_size(cb));
        assert(1 * (lo.g2_size as nat) == lo.g2_size as nat) by (nonlinear_arith);
        assert(is_compressed(UseCompression::Yes) == true);
        assert(is_compressed(UseCompression::No) == false);
    }
    let ghost s0 = output@;
    write_region_points_g1(output, lo.tau_g1, compressed, &elements.tau_g1);
    let ghost s1 = output@;
    write_region_points_g2(output, lo.tau_g2, compressed, &elements.tau_g2);
    let ghost s2 = output@;
    write_region_points_g1(output, lo.alpha_g1, compressed, &elements.alpha_g1);
    let ghost s3 = output@;
    write_region_points_g1(output, lo.beta_g1, compressed, &elements.beta_g1);
    let ghost s4 = output@;
    let beta_bytes = g2_write(&elements.beta_g2, compressed_flag(compressed));
    write_in(output, lo.beta_g2, beta_bytes.as_slice());
    proof {
        assert forall|p: int| 0 <= p < gl.tau_g2 implies s1[p] == output@[p] by {
            assert(s1[p] == s2[p]);
            assert(s2[p] == s3[p]);
            assert(s3[p] == s4[p]);
            assert(s4[p] == output@[p]);
        }
        assert forall|p: int| 0 <= p < gl.alpha_g1 implies s2[p] == output@[p] by {
            assert(s2[p] == s3[p]);
            assert(s3[p] == s4[p]);
            assert(s4[p] == output@[p]);
        }
        assert forall|p: int| 0 <= p < gl.beta_g1 implies s3[p] == output@[p] by {
            assert(s3[p] == s4[p]);
            assert(s4[p] == output@[p]);
        }
        assert forall|p: int| 0 <= p < gl.beta_g2 implies s4[p] == output@[p] by {
            assert(s4[p] == output@[p]);
        }
        assert forall|i: nat| i < gl.g1c implies slot(output@, gl.tau_g1, gl.g1s, i)
            == crate::group::g1_store(elements.tau_g1@[i as int].repr(), cb) by {
            lemma_mul_succ(i, gl.g1s);
            lemma_mul_le(i + 1, gl.g1c, gl.g1s);
            lemma_subrange_unchanged(
                s1,
                output@,
                slot_off(gl.tau_g1, gl.g1s, i),
                slot_off(gl.tau_g1, gl.g1s, i) + gl.g1s,
            );
            assert(slot(output@, gl.tau_g1, gl.g1s, i) == slot(s1, gl.tau_g1, gl.g1s, i));
        }
        assert forall|i: nat| i < gl.oc implies slot(output@, gl.tau_g2, gl.g2s, i)
            == crate::group::g2_store(elements.tau_g2@[i as int].repr(), cb) by {
            lemma_mul_succ(i, gl.g2s);
            lemma_mul_le(i + 1, gl.oc, gl.g2s);
            lemma_subrange_unchanged(
                s2,
                output@,
                slot_off(gl.tau_g2, gl.g2s, i),
                slot_off(gl.tau_g2, gl.g2s, i) + gl.g2s,
            );
            assert(slot(output@, gl.tau_g2, gl.g2s, i) == slot(s2, gl.tau_g2, gl.g2s, i));
        }
        assert forall|i: nat| i < gl.oc implies slot(output@, gl.alpha_g1, gl.g1s, i)
            == crate::group::g1_store(elements.alpha_g1@[i as int].repr(), cb) by {
            lemma_mul_succ(i, gl.g1s);
            lemma_mul_le(i + 1, gl.oc, gl.g1s);
            lemma_subrange_unchanged(
                s3,
                output@,
                slot_off(gl.alpha_g1, gl.g1s, i),
                slot_off(gl.alpha_g1, gl.g1s, i) + gl.g1s,
            );
            assert(slot(output@, gl.alpha_g1, gl.g1s, i) == slot(s3, gl.alpha_g1, gl.g1s, i));
        }
        assert forall|i: nat| i < gl.oc implies slot(output@, gl.beta_g1, gl.g1s, i)
            == crate::group::g1_store(elements.beta_g1@[i as int].repr(), cb) by {
            lemma_mul_succ(i, gl.g1s);
            lemma_mul_le(i + 1, gl.oc, gl.g1s);
            lemma_subrange_unchanged(
                s4,
                output@,
                slot_off(gl.beta_g1, gl.g1s, i),
                slot_off(gl.beta_g1, gl.g1s, i) + gl.g1s,
            );
            assert(slot(output@, gl.beta_g1, gl.g1s, i) == slot(s4, gl.beta_g1, gl.g1s, i));
        }
        assert(slot(output@, gl.beta_g2, gl.g2s, 0) == output@.subrange(
            gl.beta_g2 as int,
            (gl.beta_g2 + gl.g2s) as int,
        )) by {
            assert(0 * gl.g2s == 0) by (nonlinear_arith);
        }
        assert forall|p: int| 0 <= p < 64 implies output@[p] == s0[p] by {
            assert(s0[p] == s1[p]);
            assert(s1[p] == output@[p]);
        }
    }
}

} // verus!
