//! Ceremony and curve descriptors: element sizes, accumulator sizes and the
//! chunking arithmetic that partitions the serialized accumulator.

use vstd::prelude::*;

verus! {

/// Whether group elements are stored in their compressed encoding.
#[derive(Clone, Copy, Debug, PartialEq, Eq, Structural)]
pub enum UseCompression {
    Yes,
    No,
}

/// How much validation to perform when reading group elements.
#[derive(Clone, Copy, Debug, PartialEq, Eq, Structural)]
pub enum CheckForCorrectness {
    No,
    OnlyNonZero,
    OnlyInGroup,
    Both,
}

/// Whether a participant processes the whole accumulator or a single chunk.
#[derive(Clone, Copy, Debug, PartialEq, Eq, Structural)]
pub enum ContributionMode {
    Full,
    Chunked,
}

/// The five element arrays of the accumulator.
#[derive(Clone, Copy, Debug, PartialEq, Eq, Structural)]
pub enum ElementType {
    TauG1,
    TauG2,
    AlphaG1,
    BetaG1,
    BetaG2,
}

/// Number of G1 elements that fall into chunk `k` of `batch` elements each,
/// out of `g` G1 powers in total.
pub open spec fn spec_g1_in_chunk(batch: nat, k: nat, g: nat) -> nat {
    let start = k * batch;
    let end = (k + 1) * batch;
    if start >= g {
        0
    } else if end > g {
        (g - start) as nat
    } else {
        batch
    }
}

/// Number of G2/AlphaG1/BetaG1 elements that fall into chunk `k`, out of `l`
/// powers in total.
pub open spec fn spec_other_in_chunk(batch: nat, k: nat, l: nat) -> nat {
    let start = k * batch;
    let end = (k + 1) * batch;
    if start >= l {
        0
    } else if end > l {
        (l - start) as nat
    } else {
        batch
    }
}

/// How many elements of the G1 array and of the three shorter arrays land in
/// chunk `chunk_index` when the arrays are cut into chunks of `batch_size`.
pub fn chunk_element_sizes(
    batch_size: usize,
    chunk_index: usize,
    powers_g1_length: usize,
    powers_length: usize,
) -> (r: (usize, usize))
    requires
        0 < batch_size,
        (chunk_index + 1) * batch_size <= usize::MAX,
    ensures
        r.0 == spec_g1_in_chunk(batch_size as nat, chunk_index as nat, powers_g1_length as nat),
        r.1 == spec_other_in_chunk(batch_size as nat, chunk_index as nat, powers_length as nat),
{
    proof {
        assert((chunk_index + 1) * batch_size == chunk_index * batch_size + batch_size)
            by (nonlinear_arith);
        assert(chunk_index + 1 <= (chunk_index + 1) * batch_size) by (nonlinear_arith)
            requires 0 < batch_size;
    }
    let start: usize = chunk_index * batch_size;
    let end: usize = start + batch_size;
    let g1_els_in_chunk: usize = if start >= powers_g1_length {
        0
    } else if end > powers_g1_length {
        powers_g1_length - start
    } else {
        end - start
    };
    let other_els_in_chunk: usize = if start >= powers_length {
        0
    } else if end > powers_length {
        powers_length - start
    } else {
        end - start
    };
    (g1_els_in_chunk, other_els_in_chunk)
}

/// The byte sizes of the group elements of a curve.
#[derive(Clone, Copy, Debug, PartialEq, Eq, Structural)]
pub struct CurveParams {
    /// Size of an uncompressed G1 element.
    pub g1: usize,
    /// Size of an uncompressed G2 element.
    pub g2: usize,
    /// Size of a compressed G1 element.
    pub g1_compressed: usize,
    /// Size of a compressed G2 element.
    pub g2_compressed: usize,
}

impl CurveParams {
    /// The sizes used by the verified accumulator engine (BLS12-377).
    pub open spec fn is_engine_curve(&self) -> bool {
        &&& self.g1 == 96
        &&& self.g2 == 192
        &&& self.g1_compressed == 48
        &&& self.g2_compressed == 96
    }

    pub fn bls12_377() -> (r: CurveParams)
        ensures
            r == (CurveParams { g1: 96, g2: 192, g1_compressed: 48, g2_compressed: 96 }),
            r.is_engine_curve(),
    {
        CurveParams { g1: 96, g2: 192, g1_compressed: 48, g2_compressed: 96 }
    }

    pub fn bls12_381() -> (r: CurveParams)
        ensures
            r == (CurveParams { g1: 96, g2: 192, g1_compressed: 48, g2_compressed: 96 }),
    {
        CurveParams { g1: 96, g2: 192, g1_compressed: 48, g2_compressed: 96 }
    }

    pub fn bw6_761() -> (r: CurveParams)
        ensures
            r == (CurveParams { g1: 192, g2: 192, g1_compressed: 96, g2_compressed: 96 }),
    {
        CurveParams { g1: 192, g2: 192, g1_compressed: 96, g2_compressed: 96 }
    }

    pub fn bn254() -> (r: CurveParams)
        ensures
            r == (CurveParams { g1: 64, g2: 128, g1_compressed: 32, g2_compressed: 64 }),
    {
        CurveParams { g1: 64, g2: 128, g1_compressed: 32, g2_compressed: 64 }
    }

    pub open spec fn spec_g1_size(&self, compression: UseCompression) -> nat {
        match compression {
            UseCompression::Yes => self.g1_compressed as nat,
            UseCompression::No => self.g1 as nat,
        }
    }

    pub open spec fn spec_g2_size(&self, compression: UseCompression) -> nat {
        match compression {
            UseCompression::Yes => self.g2_compressed as nat,
            UseCompression::No => self.g2 as nat,
        }
    }

    pub fn g1_size(&self, compression: UseCompression) -> (r: usize)
        ensures
            r == self.spec_g1_size(compression),
    {
        match compression {
            UseCompression::Yes => self.g1_compressed,
            UseCompression::No => self.g1,
        }
    }

    pub fn g2_size(&self, compression: UseCompression) -> (r: usize)
        ensures
            r == self.spec_g2_size(compression),
    {
        match compression {
            UseCompression::Yes => self.g2_compressed,
            UseCompression::No => self.g2,
        }
    }

    pub fn get_size(&self, element_type: ElementType, compression: UseCompression) -> (r: usize)
        ensures
            r == match element_type {
                ElementType::AlphaG1 | ElementType::BetaG1 | ElementType::TauG1 => self
                    .spec_g1_size(compression),
                ElementType::BetaG2 | ElementType::TauG2 => self.spec_g2_size(compression),
            },
    {
        match element_type {
            ElementType::AlphaG1 | ElementType::BetaG1 | ElementType::TauG1 => self.g1_size(
                compression,
            ),
            ElementType::BetaG2 | ElementType::TauG2 => self.g2_size(compression),
        }
    }
}

/// Total byte size of a full serialized accumulator: the 64-byte digest, the
/// `g` TauG1 elements, `l` elements each of TauG2/AlphaG1/BetaG1, and the
/// BetaG2 singleton.
pub open spec fn spec_accumulator_size(g: nat, l: nat, g1s: nat, g2s: nat) -> nat {
    64 + g * g1s + l * (g2s + 2 * g1s) + g2s
}

/// Byte size of the public key blob appended to a response.
pub open spec fn spec_public_key_size(g1: nat, g2: nat) -> nat {
    3 * g2 + 6 * g1
}

/// The parameters of a trusted-setup ceremony.
#[derive(Clone, Copy, Debug, PartialEq, Eq, Structural)]
pub struct CeremonyParams {
    /// Whether the ceremony runs over the full accumulator or per chunk.
    pub contribution_mode: ContributionMode,
    /// The chunk this participant processes (0 in full mode).
    pub chunk_index: usize,
    /// Number of elements per chunk (irrelevant in full mode).
    pub chunk_size: usize,
    /// The element sizes of the curve being used.
    pub curve: CurveParams,
    /// Number of TauG1 elements: `2^(size+1) - 1`.
    pub powers_g1_length: usize,
    /// Number of TauG2/AlphaG1/BetaG1 elements: `2^size`.
    pub powers_length: usize,
    /// The circuit size exponent.
    pub size: usize,
    /// Number of elements processed per batch (a performance knob).
    pub batch_size: usize,
    /// Byte size of the serialized public key.
    pub public_key_size: usize,
    /// Byte size of the full uncompressed accumulator.
    pub accumulator_size: usize,
    /// Byte size of a full compressed response including the public key.
    pub contribution_size: usize,
    /// Byte size of the digest of the previous contribution.
    pub hash_size: usize,
}

impl CeremonyParams {
    /// The derived fields agree with the primary ones.
    pub open spec fn wf(&self) -> bool {
        &&& self.hash_size == 64
        &&& self.powers_length >= 1
        &&& self.powers_g1_length == 2 * self.powers_length - 1
        &&& self.accumulator_size == spec_accumulator_size(
            self.powers_g1_length as nat,
            self.powers_length as nat,
            self.curve.g1 as nat,
            self.curve.g2 as nat,
        )
        &&& self.public_key_size == spec_public_key_size(self.curve.g1 as nat, self.curve.g2 as nat)
        &&& self.contribution_size == spec_accumulator_size(
            self.powers_g1_length as nat,
            self.powers_length as nat,
            self.curve.g1_compressed as nat,
            self.curve.g2_compressed as nat,
        ) + self.public_key_size
        &&& (self.contribution_mode == ContributionMode::Chunked ==> 0 < self.chunk_size
            && (self.chunk_index + 1) * self.chunk_size <= usize::MAX)
    }

    /// Number of TauG1 elements this participant's buffers hold.
    pub open spec fn spec_g1_count(&self) -> nat {
        match self.contribution_mode {
            ContributionMode::Full => self.powers_g1_length as nat,
            ContributionMode::Chunked => spec_g1_in_chunk(
                self.chunk_size as nat,
                self.chunk_index as nat,
                self.powers_g1_length as nat,
            ),
        }
    }

    /// Number of TauG2/AlphaG1/BetaG1 elements this participant's buffers hold.
    pub open spec fn spec_other_count(&self) -> nat {
        match self.contribution_mode {
            ContributionMode::Full => self.powers_length as nat,
            ContributionMode::Chunked => spec_other_in_chunk(
                self.chunk_size as nat,
                self.chunk_index as nat,
                self.powers_length as nat,
            ),
        }
    }

    /// First absolute element index of this participant's range.
    pub open spec fn spec_chunk_start(&self) -> nat {
        match self.contribution_mode {
            ContributionMode::Full => 0nat,
            ContributionMode::Chunked => self.chunk_index as nat * self.chunk_size as nat,
        }
    }

    /// Constructs full-mode parameters.
    pub fn new_full(curve: CurveParams, size: usize, batch_size: usize) -> (r: CeremonyParams)
        requires
            size < 40,
            spec_ceremony_fits(size as nat, &curve),
        ensures
            r.wf(),
            r.contribution_mode == ContributionMode::Full,
            r.chunk_index == 0,
            r.curve == curve,
            r.size == size,
            r.batch_size == batch_size,
            r.powers_length == pow2_usize_spec(size as nat),
    {
        Self::build(ContributionMode::Full, 0, 0, curve, size, batch_size)
    }

    /// Constructs chunked-mode parameters.
    pub fn new_chunked(
        chunk_index: usize,
        chunk_size: usize,
        curve: CurveParams,
        size: usize,
        batch_size: usize,
    ) -> (r: CeremonyParams)
        requires
            size < 40,
            spec_ceremony_fits(size as nat, &curve),
            0 < chunk_size,
            (chunk_index + 1) * chunk_size <= usize::MAX,
        ensures
            r.wf(),
            r.contribution_mode == ContributionMode::Chunked,
            r.chunk_index == chunk_index,
            r.chunk_size == chunk_size,
            r.curve == curve,
            r.size == size,
            r.batch_size == batch_size,
            r.powers_length == pow2_usize_spec(size as nat),
    {
        Self::build(ContributionMode::Chunked, chunk_index, chunk_size, curve, size, batch_size)
    }

    fn build(
        contribution_mode: ContributionMode,
        chunk_index: usize,
        chunk_size: usize,
        curve: CurveParams,
        size: usize,
        batch_size: usize,
    ) -> (r: CeremonyParams)
        requires
            size < 40,
            spec_ceremony_fits(size as nat, &curve),
            contribution_mode == ContributionMode::Chunked ==> 0 < chunk_size && (chunk_index + 1)
                * chunk_size <= usize::MAX,
        ensures
            r.wf(),
            r.contribution_mode == contribution_mode,
            r.chunk_index == chunk_index,
            r.chunk_size == chunk_size,
            r.curve == curve,
            r.size == size,
            r.batch_size == batch_size,
            r.powers_length == pow2_usize_spec(size as nat),
    {
        let powers_length = pow2_usize(size);
        proof {
            let l = powers_length as nat;
            let g = (2 * l - 1) as nat;
            assert(g * (curve.g1 as nat) >= g) by (nonlinear_arith)
                requires curve.g1 >= 1, g >= 1;
            assert(l * ((curve.g2 + 2 * curve.g1) as nat) >= (curve.g2 + 2 * curve.g1) as nat)
                by (nonlinear_arith)
                requires l >= 1;
            assert(g * (curve.g1_compressed as nat) >= g) by (nonlinear_arith)
                requires curve.g1_compressed >= 1, g >= 1;
            assert(l * ((curve.g2_compressed + 2 * curve.g1_compressed) as nat) >= (
            curve.g2_compressed + 2 * curve.g1_compressed) as nat) by (nonlinear_arith)
                requires l >= 1;
        }
        let powers_g1_length = 2 * powers_length - 1;
        let accumulator_size = 64 + powers_g1_length * curve.g1 + powers_length * (curve.g2 + 2
            * curve.g1) + curve.g2;
        let public_key_size = 3 * curve.g2 + 6 * curve.g1;
        let contribution_size = 64 + powers_g1_length * curve.g1_compressed + powers_length * (
        curve.g2_compressed + 2 * curve.g1_compressed) + curve.g2_compressed + public_key_size;
        CeremonyParams {
            contribution_mode,
            chunk_index,
            chunk_size,
            curve,
            powers_g1_length,
            powers_length,
            size,
            batch_size,
            public_key_size,
            accumulator_size,
            contribution_size,
            hash_size: 64,
        }
    }

    /// Constructs chunked parameters for the first chunk, on the engine's curve.
    pub fn new_for_first_chunk(size: usize, batch_size: usize) -> (r: CeremonyParams)
        requires
            size < 40,
            0 < batch_size,
            spec_ceremony_fits(size as nat, &(CurveParams { g1: 96, g2: 192, g1_compressed: 48, g2_compressed: 96 })),
        ensures
            r.wf(),
            r.contribution_mode == ContributionMode::Chunked,
            r.chunk_index == 0,
            r.chunk_size == batch_size,
            r.curve.is_engine_curve(),
            r.size == size,
            r.batch_size == batch_size,
            r.powers_length == pow2_usize_spec(size as nat),
    {
        Self::new(0, size, batch_size)
    }

    /// Constructs chunked parameters on the engine's curve, with chunks of
    /// `batch_size` elements.
    pub fn new(chunk_index: usize, size: usize, batch_size: usize) -> (r: CeremonyParams)
        requires
            size < 40,
            0 < batch_size,
            (chunk_index + 1) * batch_size <= usize::MAX,
            spec_ceremony_fits(size as nat, &(CurveParams { g1: 96, g2: 192, g1_compressed: 48, g2_compressed: 96 })),
        ensures
            r.wf(),
            r.contribution_mode == ContributionMode::Chunked,
            r.chunk_index == chunk_index,
            r.chunk_size == batch_size,
            r.curve.is_engine_curve(),
            r.size == size,
            r.batch_size == batch_size,
            r.powers_length == pow2_usize_spec(size as nat),
    {
        let curve = CurveParams::bls12_377();
        Self::new_with_curve(chunk_index, curve, size, batch_size)
    }

    /// Constructs chunked parameters with chunks of `batch_size` elements on
    /// the given curve.
    pub fn new_with_curve(
        chunk_index: usize,
        curve: CurveParams,
        size: usize,
        batch_size: usize,
    ) -> (r: CeremonyParams)
        requires
            size < 40,
            0 < batch_size,
            (chunk_index + 1) * batch_size <= usize::MAX,
            spec_ceremony_fits(size as nat, &curve),
        ensures
            r.wf(),
            r.contribution_mode == ContributionMode::Chunked,
            r.chunk_index == chunk_index,
            r.chunk_size == batch_size,
            r.curve == curve,
            r.size == size,
            r.batch_size == batch_size,
            r.powers_length == pow2_usize_spec(size as nat),
    {
        Self::new_chunked(chunk_index, batch_size, curve, size, batch_size)
    }

    /// Byte length of a full serialized accumulator under the given compression.
    pub fn get_length(&self, compressed: UseCompression) -> (r: usize)
        requires
            self.wf(),
        ensures
            r == spec_accumulator_size(
                self.powers_g1_length as nat,
                self.powers_length as nat,
                self.curve.spec_g1_size(compressed),
                self.curve.spec_g2_size(compressed),
            ),
    {
        match compressed {
            UseCompression::Yes => self.contribution_size - self.public_key_size,
            UseCompression::No => self.accumulator_size,
        }
    }

    /// Element counts of this participant's buffers.
    pub fn chunk_element_sizes(&self) -> (r: (usize, usize))
        requires
            self.wf(),
        ensures
            r.0 == self.spec_g1_count(),
            r.1 == self.spec_other_count(),
    {
        match self.contribution_mode {
            ContributionMode::Full => (self.powers_g1_length, self.powers_length),
            ContributionMode::Chunked => chunk_element_sizes(
                self.chunk_size,
                self.chunk_index,
                self.powers_g1_length,
                self.powers_length,
            ),
        }
    }

    /// The same ceremony, seen from another chunk.
    pub fn specialize_to_chunk(&self, chunk_index: usize) -> (r: CeremonyParams)
        requires
            self.wf(),
            self.contribution_mode == ContributionMode::Chunked ==> (chunk_index + 1)
                * self.chunk_size <= usize::MAX,
        ensures
            r == (CeremonyParams { chunk_index, ..*self }),
            r.wf(),
    {
        let mut params = *self;
        params.chunk_index = chunk_index;
        params
    }
}

/// `2^e`, as the specification of `pow2_usize`.
pub open spec fn pow2_usize_spec(e: nat) -> nat {
    vstd::arithmetic::power2::pow2(e)
}

/// All derived ceremony sizes fit in `usize`.
pub open spec fn spec_ceremony_fits(size: nat, curve: &CurveParams) -> bool {
    &&& pow2_usize_spec(size) <= usize::MAX
    &&& spec_accumulator_size(
        (2 * pow2_usize_spec(size) - 1) as nat,
        pow2_usize_spec(size),
        curve.g1 as nat,
        curve.g2 as nat,
    ) + spec_public_key_size(curve.g1 as nat, curve.g2 as nat) <= usize::MAX
    &&& spec_accumulator_size(
        (2 * pow2_usize_spec(size) - 1) as nat,
        pow2_usize_spec(size),
        curve.g1_compressed as nat,
        curve.g2_compressed as nat,
    ) + spec_public_key_size(curve.g1 as nat, curve.g2 as nat) <= usize::MAX
    &&& curve.g1 >= curve.g1_compressed
    &&& curve.g2 >= curve.g2_compressed
    &&& 0 < curve.g1_compressed
    &&& 0 < curve.g2_compressed
}

/// `2^e` computed by repeated doubling.
pub fn pow2_usize(e: usize) -> (r: usize)
    requires
        pow2_usize_spec(e as nat) <= usize::MAX,
    ensures
        r == pow2_usize_spec(e as nat),
        r >= 1,
{
    let mut r: usize = 1;
    let mut i: usize = 0;
    proof {
        vstd::arithmetic::power2::lemma2_to64();
        vstd::arithmetic::power2::lemma_pow2_pos(e as nat);
    }
    while i < e
        invariant
            i <= e,
            r == pow2_usize_spec(i as nat),
            pow2_usize_spec(e as nat) <= usize::MAX,
        decreases e - i,
    {
        proof {
            vstd::arithmetic::power2::lemma_pow2_strictly_increases(
                i as nat,
                (i + 1) as nat,
            );
            if i + 1 < e {
                vstd::arithmetic::power2::lemma_pow2_strictly_increases((i + 1) as nat, e as nat);
            }
            vstd::arithmetic::power2::lemma_pow2_unfold((i + 1) as nat);
        }
        r = r * 2;
        i = i + 1;
    }
    r
}

} // verus!
