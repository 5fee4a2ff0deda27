//! An append-only vote ledger in which every voter identity casts at most one
//! vote, votes are tallied per choice, and the leading choice can be asked for
//! at any time.

pub mod address;
pub mod engine;
pub mod error;
pub mod laws;
pub mod model;
pub mod tally;
pub mod uint256;

pub use address::Address;
pub use engine::{OwnershipTransferred, RFIDVoting, VoteCast, VoteData};
pub use error::RFIDVotingError;
pub use tally::TallyTable;
pub use uint256::Uint256;
