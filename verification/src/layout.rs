//! Byte layout of a serialized accumulator buffer and verified helpers for
//! reading and writing byte ranges.
//!
//! A buffer holds, in order: the 64-byte digest of the previous state, the
//! TauG1 elements, the TauG2 elements, the AlphaG1 elements, the BetaG1
//! elements, and the single BetaG2 element.

use vstd::prelude::*;

use crate::params::CeremonyParams;
use crate::params::UseCompression;

verus! {

/// Byte offset of element `i` of the region starting at `off` whose elements
/// are `size` bytes each.
pub open spec fn slot_off(off: nat, size: nat, i: nat) -> nat {
    off + i * size
}

/// The bytes of element `i` of the region starting at `off`.
pub open spec fn slot(buf: Seq<u8>, off: nat, size: nat, i: nat) -> Seq<u8> {
    buf.subrange(slot_off(off, size, i) as int, (slot_off(off, size, i) + size) as int)
}

/// Total length of a buffer holding `g1c` TauG1 elements and `oc` elements
/// of each of the three shorter arrays, at the given element sizes.
pub open spec fn spec_buf_len(g1c: nat, oc: nat, g1s: nat, g2s: nat) -> nat {
    64 + g1c * g1s + oc * (g2s + 2 * g1s) + g2s
}

/// Length of this participant's buffer under the given compression.
pub open spec fn spec_chunk_len(params: CeremonyParams, c: UseCompression) -> nat {
    spec_buf_len(
        params.spec_g1_count(),
        params.spec_other_count(),
        params.curve.spec_g1_size(c),
        params.curve.spec_g2_size(c),
    )
}

/// Length of a full accumulator buffer under the given compression.
pub open spec fn spec_full_len(params: CeremonyParams, c: UseCompression) -> nat {
    spec_buf_len(
        params.powers_g1_length as nat,
        params.powers_length as nat,
        params.curve.spec_g1_size(c),
        params.curve.spec_g2_size(c),
    )
}

/// Resolved byte offsets of the five element regions of one buffer.
pub struct Layout {
    /// Size of a stored G1 element.
    pub g1_size: usize,
    /// Size of a stored G2 element.
    pub g2_size: usize,
    /// Number of TauG1 elements.
    pub g1_count: usize,
    /// Number of TauG2/AlphaG1/BetaG1 elements.
    pub other_count: usize,
    /// Offset of the TauG1 region.
    pub tau_g1: usize,
    /// Offset of the TauG2 region.
    pub tau_g2: usize,
    /// Offset of the AlphaG1 region.
    pub alpha_g1: usize,
    /// Offset of the BetaG1 region.
    pub beta_g1: usize,
    /// Offset of the BetaG2 singleton.
    pub beta_g2: usize,
    /// Total buffer length.
    pub total: usize,
}

impl Layout {
    /// The offsets describe consecutive regions of the stated element counts.
    pub open spec fn wf(&self) -> bool {
        &&& self.tau_g1 == 64
        &&& self.tau_g2 == self.tau_g1 + self.g1_count * self.g1_size
        &&& self.alpha_g1 == self.tau_g2 + self.other_count * self.g2_size
        &&& self.beta_g1 == self.alpha_g1 + self.other_count * self.g1_size
        &&& self.beta_g2 == self.beta_g1 + self.other_count * self.g1_size
        &&& self.total == self.beta_g2 + self.g2_size
        &&& self.total == spec_buf_len(
            self.g1_count as nat,
            self.other_count as nat,
            self.g1_size as nat,
            self.g2_size as nat,
        )
    }

    /// Offsets for this participant's buffer under the given compression.
    pub fn chunk(params: &CeremonyParams, c: UseCompression) -> (r: Layout)
        requires
            params.wf(),
            spec_chunk_len(*params, c) <= usize::MAX,
        ensures
            r.wf(),
            r.g1_count == params.spec_g1_count(),
            r.other_count == params.spec_other_count(),
            r.g1_size == params.curve.spec_g1_size(c),
            r.g2_size == params.curve.spec_g2_size(c),
            r.total == spec_chunk_len(*params, c),
    {
        let (g1_count, other_count) = params.chunk_element_sizes();
        Self::build(g1_count, other_count, params.curve.g1_size(c), params.curve.g2_size(c))
    }

    /// Offsets for a full accumulator buffer under the given compression.
    pub fn full(params: &CeremonyParams, c: UseCompression) -> (r: Layout)
        requires
            params.wf(),
            spec_full_len(*params, c) <= usize::MAX,
        ensures
            r.wf(),
            r.g1_count == params.powers_g1_length,
            r.other_count == params.powers_length,
            r.g1_size == params.curve.spec_g1_size(c),
            r.g2_size == params.curve.spec_g2_size(c),
            r.total == spec_full_len(*params, c),
    {
        Self::build(
            params.powers_g1_length,
            params.powers_length,
            params.curve.g1_size(c),
            params.curve.g2_size(c),
        )
    }

    fn build(g1_count: usize, other_count: usize, g1_size: usize, g2_size: usize) -> (r: Layout)
        requires
            spec_buf_len(g1_count as nat, other_count as nat, g1_size as nat, g2_size as nat)
                <= usize::MAX,
        ensures
            r.wf(),
            r.g1_count == g1_count,
            r.other_count == other_count,
            r.g1_size == g1_size,
            r.g2_size == g2_size,
            r.total == spec_buf_len(
                g1_count as nat,
                other_count as nat,
                g1_size as nat,
                g2_size as nat,
            ),
    {
        proof {
            assert(other_count * ((g2_size + 2 * g1_size) as nat) == other_count * g2_size
                + other_count * g1_size + other_count * g1_size) by (nonlinear_arith);
        }
        let tau_g1: usize = 64;
        let tau_g2: usize = tau_g1 + g1_count * g1_size;
        let alpha_g1: usize = tau_g2 + other_count * g2_size;
        let beta_g1: usize = alpha_g1 + other_count * g1_size;
        let beta_g2: usize = beta_g1 + other_count * g1_size;
        let total: usize = beta_g2 + g2_size;
        Layout { g1_size, g2_size, g1_count, other_count, tau_g1, tau_g2, alpha_g1, beta_g1, beta_g2, total }
    }
}

/// The byte offsets of the five element regions, at the specification level.
pub struct GLayout {
    pub g1s: nat,
    pub g2s: nat,
    pub g1c: nat,
    pub oc: nat,
    pub tau_g1: nat,
    pub tau_g2: nat,
    pub alpha_g1: nat,
    pub beta_g1: nat,
    pub beta_g2: nat,
    pub total: nat,
}

/// Offsets of consecutive regions for the given counts and element sizes.
pub open spec fn glayout(g1c: nat, oc: nat, g1s: nat, g2s: nat) -> GLayout {
    GLayout {
        g1s,
        g2s,
        g1c,
        oc,
        tau_g1: 64,
        tau_g2: 64 + g1c * g1s,
        alpha_g1: 64 + g1c * g1s + oc * g2s,
        beta_g1: 64 + g1c * g1s + oc * g2s + oc * g1s,
        beta_g2: 64 + g1c * g1s + oc * g2s + oc * g1s + oc * g1s,
        total: 64 + g1c * g1s + oc * g2s + oc * g1s + oc * g1s + g2s,
    }
}

/// The offsets of this participant's buffer.
pub open spec fn chunk_glayout(params: CeremonyParams, c: UseCompression) -> GLayout {
    glayout(
        params.spec_g1_count(),
        params.spec_other_count(),
        params.curve.spec_g1_size(c),
        params.curve.spec_g2_size(c),
    )
}

/// The offsets of a full accumulator buffer.
pub open spec fn full_glayout(params: CeremonyParams, c: UseCompression) -> GLayout {
    glayout(
        params.powers_g1_length as nat,
        params.powers_length as nat,
        params.curve.spec_g1_size(c),
        params.curve.spec_g2_size(c),
    )
}

/// The buffer length equals the end of the BetaG2 singleton.
pub proof fn lemma_buf_len_is_total(g1c: nat, oc: nat, g1s: nat, g2s: nat)
    ensures
        glayout(g1c, oc, g1s, g2s).total == spec_buf_len(g1c, oc, g1s, g2s),
{
    assert(oc * ((g2s + 2 * g1s) as nat) == oc * g2s + oc * g1s + oc * g1s) by (nonlinear_arith);
}

impl Layout {
    /// The specification-level view of these offsets.
    pub open spec fn gl(&self) -> GLayout {
        GLayout {
            g1s: self.g1_size as nat,
            g2s: self.g2_size as nat,
            g1c: self.g1_count as nat,
            oc: self.other_count as nat,
            tau_g1: self.tau_g1 as nat,
            tau_g2: self.tau_g2 as nat,
            alpha_g1: self.alpha_g1 as nat,
            beta_g1: self.beta_g1 as nat,
            beta_g2: self.beta_g2 as nat,
            total: self.total as nat,
        }
    }

    /// Well-formed offsets agree with the specification-level layout.
    pub proof fn lemma_gl(&self)
        requires
            self.wf(),
        ensures
            self.gl() == glayout(
                self.g1_count as nat,
                self.other_count as nat,
                self.g1_size as nat,
                self.g2_size as nat,
            ),
    {
        lemma_buf_len_is_total(
            self.g1_count as nat,
            self.other_count as nat,
            self.g1_size as nat,
            self.g2_size as nat,
        );
    }
}

/// Two equally long buffers that agree on `[x, y)` have equal subranges there.
pub proof fn lemma_subrange_unchanged(s1: Seq<u8>, s2: Seq<u8>, x: nat, y: nat)
    requires
        s1.len() == s2.len(),
        x <= y <= s1.len(),
        forall|p: int| x <= p < y ==> s1[p] == s2[p],
    ensures
        s1.subrange(x as int, y as int) == s2.subrange(x as int, y as int),
{
    assert(s1.subrange(x as int, y as int) =~= s2.subrange(x as int, y as int));
}

/// `a <= b` implies `a * c <= b * c`.
pub proof fn lemma_mul_le(a: nat, b: nat, c: nat)
    requires
        a <= b,
    ensures
        a * c <= b * c,
{
    assert(a * c <= b * c) by (nonlinear_arith)
        requires a <= b;
}

/// `(i + 1) * s == i * s + s`.
pub proof fn lemma_mul_succ(i: nat, s: nat)
    ensures
        (i + 1) * s == i * s + s,
{
    assert((i + 1) * s == i * s + s) by (nonlinear_arith);
}

/// Copies `len` bytes starting at `off` out of a buffer.
pub fn copy_out(buf: &[u8], off: usize, len: usize) -> (r: Vec<u8>)
    requires
        off + len <= buf@.len(),
    ensures
        r@ == buf@.subrange(off as int, (off + len) as int),
{
    let n = buf.len();
    let mut r: Vec<u8> = Vec::new();
    let mut i: usize = 0;
    while i < len
        invariant
            i <= len,
            n == buf@.len(),
            off + len <= n,
            r@ == buf@.subrange(off as int, (off + i) as int),
        decreases len - i,
    {
        r.push(buf[off + i]);
        proof {
            assert(buf@.subrange(off as int, (off + i + 1) as int) =~= buf@.subrange(
                off as int,
                (off + i) as int,
            ).push(buf@[(off + i) as int]));
        }
        i = i + 1;
    }
    r
}

/// Writes `data` into the buffer at `off`; all other bytes keep their value.
pub fn write_in(buf: &mut Vec<u8>, off: usize, data: &[u8])
    requires
        off + data@.len() <= old(buf)@.len(),
    ensures
        final(buf)@.len() == old(buf)@.len(),
        final(buf)@.subrange(off as int, (off + data@.len()) as int) == data@,
        forall|j: int|
            0 <= j < old(buf)@.len() && !(off <= j < off + data@.len()) ==> final(buf)@[j] == old(
                buf,
            )@[j],
{
    let n = buf.len();
    let mut i: usize = 0;
    while i < data.len()
        invariant
            i <= data@.len(),
            n == old(buf)@.len(),
            off + data@.len() <= n,
            buf@.len() == old(buf)@.len(),
            forall|j: int| 0 <= j < i ==> buf@[off + j] == data@[j],
            forall|j: int|
                0 <= j < old(buf)@.len() && !(off <= j < off + data@.len()) ==> buf@[j] == old(
                    buf,
                )@[j],
        decreases data@.len() - i,
    {
        buf[off + i] = data[i];
        i = i + 1;
    }
    proof {
        assert(buf@.subrange(off as int, (off + data@.len()) as int) =~= data@);
    }
}

/// `(a + b) * c == a * c + b * c`.
pub proof fn lemma_mul_distribute(a: nat, b: nat, c: nat)
    ensures
        (a + b) * c == a * c + b * c,
{
    assert((a + b) * c == a * c + b * c) by (nonlinear_arith);
}

/// Slot `j` of the region shifted by `start` elements is the absolute slot
/// `start + j` of the unshifted region.
pub proof fn lemma_slot_shift(buf: Seq<u8>, base: nat, size: nat, start: nat, j: nat)
    ensures
        slot(buf, base + start * size, size, j) == slot(buf, base, size, start + j),
{
    assert((start + j) * size == start * size + j * size) by (nonlinear_arith);
}

} // verus!
