//! The command surface of the phase-1 ceremony tool: option records and the
//! string parsers for the flag values.

use vstd::prelude::*;

use crate::params::ContributionMode;
use vstd::string::StringSliceAdditionalSpecFns;

verus! {

/// The supported elliptic curves.
#[derive(Clone, Copy, Debug, PartialEq, Eq, Structural)]
pub enum CurveKind {
    Bls12_381,
    Bls12_377,
    BW6,
    Bn254,
}

/// The supported proving systems.
#[derive(Clone, Copy, Debug, PartialEq, Eq, Structural)]
pub enum ProvingSystem {
    Groth16,
}

/// The flags of the phase-1 binary.
pub struct PowersOfTauOpts {
    pub seed: String,
    pub contribution_mode: ContributionMode,
    pub chunk_index: usize,
    pub chunk_size: usize,
    pub curve_kind: CurveKind,
    pub proving_system: ProvingSystem,
    pub batch_size: usize,
    pub power: usize,
    pub command: Option<Command>,
}

/// The phase-1 subcommands.
pub enum Command {
    New(NewOpts),
    Contribute(ContributeOpts),
    Beacon(ContributeOpts),
    VerifyAndTransformPokAndCorrectness(VerifyPokAndCorrectnessOpts),
    VerifyAndTransformRatios(VerifyRatiosOpts),
    Combine(CombineOpts),
}

/// Options of the `new` subcommand.
pub struct NewOpts {
    pub challenge_fname: String,
}

/// Options of the `contribute` and `beacon` subcommands.
pub struct ContributeOpts {
    pub challenge_fname: String,
    pub response_fname: String,
}

/// Options of the verification-with-transform subcommand.
pub struct VerifyPokAndCorrectnessOpts {
    pub challenge_fname: String,
    pub response_fname: String,
    pub new_challenge_fname: String,
}

/// Options of the ratio-verification subcommand.
pub struct VerifyRatiosOpts {
    pub response_fname: String,
}

/// Options of the `combine` subcommand.
pub struct CombineOpts {
    pub response_list_fname: String,
    pub combined_fname: String,
}

/// ASCII uppercase letters folded to lowercase; all other bytes unchanged.
pub open spec fn spec_ascii_lower(b: Seq<u8>) -> Seq<u8> {
    b.map_values(|x: u8| if 65 <= x <= 90 { (x + 32) as u8 } else { x })
}

/// Folds ASCII uppercase letters of a flag value to lowercase.
pub fn lower_bytes(s: &str) -> (r: Vec<u8>)
    ensures
        r@ == spec_ascii_lower(s.spec_bytes()),
{
    let bytes = s.as_bytes();
    let n = bytes.len();
    let mut r: Vec<u8> = Vec::new();
    let mut i: usize = 0;
    while i < n
        invariant
            i <= n,
            n == bytes@.len(),
            bytes@ == s.spec_bytes(),
            r@ == spec_ascii_lower(s.spec_bytes()).subrange(0, i as int),
        decreases n - i,
    {
        let b = bytes[i];
        let lb: u8 = if 65 <= b && b <= 90 {
            b + 32
        } else {
            b
        };
        r.push(lb);
        proof {
            assert(spec_ascii_lower(s.spec_bytes()).subrange(0, i + 1) =~= spec_ascii_lower(
                s.spec_bytes(),
            ).subrange(0, i as int).push(lb));
        }
        i = i + 1;
    }
    proof {
        assert(spec_ascii_lower(s.spec_bytes()).subrange(
            0,
            spec_ascii_lower(s.spec_bytes()).len() as int,
        ) =~= spec_ascii_lower(s.spec_bytes()));
    }
    r
}

/// Whether two byte strings are equal.
pub fn bytes_eq(a: &[u8], b: &[u8]) -> (r: bool)
    ensures
        r == (a@ == b@),
{
    let n = a.len();
    if n != b.len() {
        proof {
            assert(a@ != b@);
        }
        return false;
    }
    let mut i: usize = 0;
    while i < n
        invariant
            i <= n,
            n == a@.len(),
            n == b@.len(),
            forall|j: int| 0 <= j < i ==> a@[j] == b@[j],
        decreases n - i,
    {
        if a[i] != b[i] {
            return false;
        }
        i = i + 1;
    }
    proof {
        assert(a@ =~= b@);
    }
    true
}

/// The bytes of `"bls12_381"`.
pub open spec fn spec_bls12_381_bytes() -> Seq<u8> {
    seq![98u8, 108u8, 115u8, 49u8, 50u8, 95u8, 51u8, 56u8, 49u8]
}

/// The bytes of `"bls12_377"`.
pub open spec fn spec_bls12_377_bytes() -> Seq<u8> {
    seq![98u8, 108u8, 115u8, 49u8, 50u8, 95u8, 51u8, 55u8, 55u8]
}

/// The bytes of `"bw6"`.
pub open spec fn spec_bw6_bytes() -> Seq<u8> {
    seq![98u8, 119u8, 54u8]
}

/// The bytes of `"bn254"`.
pub open spec fn spec_bn254_bytes() -> Seq<u8> {
    seq![98u8, 110u8, 50u8, 53u8, 52u8]
}

/// The bytes of `"groth16"`.
pub open spec fn spec_groth16_bytes() -> Seq<u8> {
    seq![103u8, 114u8, 111u8, 116u8, 104u8, 49u8, 54u8]
}

/// The bytes of `"full"`.
pub open spec fn spec_full_bytes() -> Seq<u8> {
    seq![102u8, 117u8, 108u8, 108u8]
}

/// The bytes of `"chunked"`.
pub open spec fn spec_chunked_bytes() -> Seq<u8> {
    seq![99u8, 104u8, 117u8, 110u8, 107u8, 101u8, 100u8]
}

fn lit_bls12_381() -> (r: Vec<u8>)
    ensures
        r@ == spec_bls12_381_bytes(),
{
    let mut v: Vec<u8> = Vec::new();
    v.push(98);
    v.push(108);
    v.push(115);
    v.push(49);
    v.push(50);
    v.push(95);
    v.push(51);
    v.push(56);
    v.push(49);
    proof {
        assert(v@ =~= spec_bls12_381_bytes());
    }
    v
}

fn lit_bls12_377() -> (r: Vec<u8>)
    ensures
        r@ == spec_bls12_377_bytes(),
{
    let mut v: Vec<u8> = Vec::new();
    v.push(98);
    v.push(108);
    v.push(115);
    v.push(49);
    v.push(50);
    v.push(95);
    v.push(51);
    v.push(55);
    v.push(55);
    proof {
        assert(v@ =~= spec_bls12_377_bytes());
    }
    v
}

fn lit_bw6() -> (r: Vec<u8>)
    ensures
        r@ == spec_bw6_bytes(),
{
    let mut v: Vec<u8> = Vec::new();
    v.push(98);
    v.push(119);
    v.push(54);
    proof {
        assert(v@ =~= spec_bw6_bytes());
    }
    v
}

fn lit_bn254() -> (r: Vec<u8>)
    ensures
        r@ == spec_bn254_bytes(),
{
    let mut v: Vec<u8> = Vec::new();
    v.push(98);
    v.push(110);
    v.push(50);
    v.push(53);
    v.push(52);
    proof {
        assert(v@ =~= spec_bn254_bytes());
    }
    v
}

fn lit_groth16() -> (r: Vec<u8>)
    ensures
        r@ == spec_groth16_bytes(),
{
    let mut v: Vec<u8> = Vec::new();
    v.push(103);
    v.push(114);
    v.push(111);
    v.push(116);
    v.push(104);
    v.push(49);
    v.push(54);
    proof {
        assert(v@ =~= spec_groth16_bytes());
    }
    v
}

fn lit_full() -> (r: Vec<u8>)
    ensures
        r@ == spec_full_bytes(),
{
    let mut v: Vec<u8> = Vec::new();
    v.push(102);
    v.push(117);
    v.push(108);
    v.push(108);
    proof {
        assert(v@ =~= spec_full_bytes());
    }
    v
}

fn lit_chunked() -> (r: Vec<u8>)
    ensures
        r@ == spec_chunked_bytes(),
{
    let mut v: Vec<u8> = Vec::new();
    v.push(99);
    v.push(104);
    v.push(117);
    v.push(110);
    v.push(107);
    v.push(101);
    v.push(100);
    proof {
        assert(v@ =~= spec_chunked_bytes());
    }
    v
}

/// Parses a curve name (case-insensitively).
pub fn curve_from_str(src: &str) -> (r: Result<CurveKind, String>)
    ensures
        ({
            let folded = spec_ascii_lower(src.spec_bytes());
            &&& (r == Ok::<CurveKind, String>(CurveKind::Bls12_381) <==> folded
                == spec_bls12_381_bytes())
            &&& (r == Ok::<CurveKind, String>(CurveKind::Bls12_377) <==> folded
                == spec_bls12_377_bytes())
            &&& (r == Ok::<CurveKind, String>(CurveKind::BW6) <==> folded == spec_bw6_bytes())
            &&& (r == Ok::<CurveKind, String>(CurveKind::Bn254) <==> folded == spec_bn254_bytes())
            &&& (r is Err <==> (folded != spec_bls12_381_bytes() && folded != spec_bls12_377_bytes()
                && folded != spec_bw6_bytes() && folded != spec_bn254_bytes()))
        }),
{
    let folded = lower_bytes(src);
    if bytes_eq(folded.as_slice(), lit_bls12_381().as_slice()) {
        Ok(CurveKind::Bls12_381)
    } else if bytes_eq(folded.as_slice(), lit_bls12_377().as_slice()) {
        Ok(CurveKind::Bls12_377)
    } else if bytes_eq(folded.as_slice(), lit_bw6().as_slice()) {
        Ok(CurveKind::BW6)
    } else if bytes_eq(folded.as_slice(), lit_bn254().as_slice()) {
        Ok(CurveKind::Bn254)
    } else {
        Err("unsupported curve.".to_owned())
    }
}

/// Parses a proving-system name (case-insensitively).
pub fn proving_system_from_str(src: &str) -> (r: Result<ProvingSystem, String>)
    ensures
        r == Ok::<ProvingSystem, String>(ProvingSystem::Groth16) <==> spec_ascii_lower(
            src.spec_bytes(),
        ) == spec_groth16_bytes(),
        r is Err <==> spec_ascii_lower(src.spec_bytes()) != spec_groth16_bytes(),
{
    let folded = lower_bytes(src);
    if bytes_eq(folded.as_slice(), lit_groth16().as_slice()) {
        Ok(ProvingSystem::Groth16)
    } else {
        Err("unsupported proving system. Currently supported: groth16".to_owned())
    }
}

/// Parses a contribution mode (case-insensitively).
pub fn contribution_mode_from_str(src: &str) -> (r: Result<ContributionMode, String>)
    ensures
        ({
            let folded = spec_ascii_lower(src.spec_bytes());
            &&& (r == Ok::<ContributionMode, String>(ContributionMode::Full) <==> folded
                == spec_full_bytes())
            &&& (r == Ok::<ContributionMode, String>(ContributionMode::Chunked) <==> folded
                == spec_chunked_bytes())
            &&& (r is Err <==> (folded != spec_full_bytes() && folded != spec_chunked_bytes()))
        }),
{
    let folded = lower_bytes(src);
    if bytes_eq(folded.as_slice(), lit_full().as_slice()) {
        Ok(ContributionMode::Full)
    } else if bytes_eq(folded.as_slice(), lit_chunked().as_slice()) {
        Ok(ContributionMode::Chunked)
    } else {
        Err("unsupported contribution mode. Currently supported: full, chunked".to_owned())
    }
}

} // verus!
