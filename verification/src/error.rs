use vstd::prelude::*;

verus! {

/// Why an operation on the ledger was rejected. A rejected operation leaves
/// the ledger exactly as it found it.
#[derive(Clone, Copy, Debug, PartialEq, Eq, Structural)]
pub enum RFIDVotingError {
    /// The voter identity already has a recorded vote that was not reset.
    AlreadyVoted,
    /// The winner was asked for before any vote was cast.
    NoVotes,
    /// The requested ledger index is past the last record.
    InvalidIndex,
    /// The caller is not the administrator.
    NotOwner,
    /// A cast was attempted while another cast was in flight.
    ReentrancyGuard,
}

impl RFIDVotingError {
    /// The human-readable text of each kind of rejection.
    pub open spec fn spec_message(self) -> Seq<char> {
        match self {
            RFIDVotingError::AlreadyVoted => "This tag has already voted."@,
            RFIDVotingError::NoVotes => "No votes have been cast yet."@,
            RFIDVotingError::InvalidIndex => "Invalid vote index."@,
            RFIDVotingError::NotOwner => "Caller is not the owner"@,
            RFIDVotingError::ReentrancyGuard => "Reentrant call"@,
        }
    }

    /// The message that accompanies this rejection.
    pub fn message(&self) -> (text: String)
        ensures
            text@ == self.spec_message(),
    {
        match self {
            RFIDVotingError::AlreadyVoted => "This tag has already voted.".to_owned(),
            RFIDVotingError::NoVotes => "No votes have been cast yet.".to_owned(),
            RFIDVotingError::InvalidIndex => "Invalid vote index.".to_owned(),
            RFIDVotingError::NotOwner => "Caller is not the owner".to_owned(),
            RFIDVotingError::ReentrancyGuard => "Reentrant call".to_owned(),
        }
    }
}

} // verus!
