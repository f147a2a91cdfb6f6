//! The command surface of the phase-2 tool: option records for its flags
//! and subcommands.

use vstd::prelude::*;

use crate::cli::CurveKind;
use crate::cli::ProvingSystem;
use crate::params::ContributionMode;

verus! {

/// Which batch-exponentiation strategy to use.
#[derive(Clone, Copy, Debug, PartialEq, Eq, Structural)]
pub enum BatchExpMode {
    Auto,
    Direct,
    BatchInversion,
}

/// Whether to run the subgroup membership check on incoming points.
#[derive(Clone, Copy, Debug, PartialEq, Eq, Structural)]
pub enum SubgroupCheckMode {
    Auto,
    No,
    Yes,
}

/// The flags of the phase-2 binary.
pub struct Phase2Opts {
    pub seed: String,
    pub contribution_mode: ContributionMode,
    pub chunk_index: usize,
    pub chunk_size: usize,
    pub curve_kind: CurveKind,
    pub proving_system: ProvingSystem,
    pub batch_size: usize,
    pub command: Option<Command>,
    pub force_correctness_checks: bool,
    pub batch_exp_mode: BatchExpMode,
    pub subgroup_check_mode: SubgroupCheckMode,
}

/// The phase-2 subcommands.
pub enum Command {
    New(NewOpts),
}

/// Options of the phase-2 `new` subcommand.
pub struct NewOpts {
    pub challenge_fname: String,
    pub challenge_hash_fname: String,
    pub phase1_fname: String,
    pub phase1_powers: usize,
    pub num_validators: usize,
    pub num_epochs: usize,
}

} // verus!
