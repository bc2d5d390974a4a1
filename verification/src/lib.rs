//! A verified model of the AutoShare contract's persistent ledger and of the
//! rules by which payment groups, their members, the administrator and the
//! pause switch are created, read and changed.

pub mod errors;
pub mod types;
pub mod table;
pub mod model;
pub mod ledger;
pub mod autoshare_logic;
pub mod laws;

pub use errors::Error;
pub use types::{Address, GroupId, GroupMember, AutoShareDetails, DataKey};
pub use ledger::Ledger;
