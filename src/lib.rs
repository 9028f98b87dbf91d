pub mod dna;
pub mod erc20;
pub mod ledger;
pub mod registry;

pub use dna::{combine_dna, Kitty};
pub use ledger::{AccountId, Balance, Ledger, MemoryLedger};
pub use registry::{KittyError, KittyEvent, KittyIndex, KittyRegistry};
