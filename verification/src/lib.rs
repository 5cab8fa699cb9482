//! The Midnight ledger's core rules, verified: compact integer encoding, the
//! unshielded UTXO set, replay protection, NIGHT supply accounting with its
//! system transactions and reward claims, DUST generation and the DUST
//! wallet, the checks of standard transactions (claimed effects, balances,
//! disjoint offers, the sequencing of contract calls, signatures), the
//! application of transaction sections and contract actions, and the
//! on-chain virtual machine.
use vstd::prelude::*;

pub mod compact_int;
pub mod hash;
pub mod keyed;
pub mod counting;
pub mod utxo;
pub mod replay;
pub mod dust;
pub mod ledger;
pub mod contract_state;
pub mod transaction;
pub mod intent;
pub mod effects;
pub mod balance;
pub mod disjoint;
pub mod state_value;
pub mod well_formed;
pub mod dust_registration;
pub mod sequencing;
pub mod intent_checks;
pub mod dust_fees;
pub mod maintenance;
pub mod dust_wallet;
pub mod vm;
pub mod section;
pub mod actions;

verus! {

} // verus!
