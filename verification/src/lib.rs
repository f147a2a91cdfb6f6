//! Multi-party trusted-setup ceremony toolkit for pairing-based zk-SNARKs.
//!
//! Phase 1 maintains a "powers of tau" accumulator: five parallel arrays of
//! curve points written into a byte-exact wire format.  Participants chain
//! contributions (exponentiations by fresh secrets), and verifiers check
//! proofs of knowledge and the consecutive-power structure with pairings.
//! Phase 2 turns the phase-1 output into Groth16-style MPC parameters.
//!
//! The curve arithmetic itself comes from the arkworks crates; every call
//! into them sits behind a small trusted wrapper in [`group`].  Everything
//! above that layer is verified.

pub mod cli;
pub mod errors;
pub mod group;
pub mod keypair;
pub mod layout;
pub mod modular;
pub mod params;
pub mod phase1;
pub mod phase2;
pub mod phase2_cli;
