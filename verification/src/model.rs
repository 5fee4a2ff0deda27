use crate::error::RFIDVotingError;
use vstd::prelude::*;

verus! {

/// One cast vote as the ledger records it: who voted, for which choice, and
/// the timestamp that the host reported for the cast.
pub struct VoteRecord {
    pub voter_tag: Seq<char>,
    pub choice: nat,
    pub cast_at: nat,
}

/// The whole state of a ledger, as mathematics.
pub struct VotingState {
    /// The one identity that may reset voters and hand administration on.
    pub administrator: Seq<u8>,
    /// Every vote ever cast, in the order of casting.
    pub ledger: Seq<VoteRecord>,
    /// The identities that have a vote on record which was not reset since.
    pub has_voted: Set<Seq<char>>,
    /// The running count of each choice that was ever voted for.
    pub tally: Map<nat, nat>,
    /// Whether a cast is in flight.
    pub locked: bool,
}

/// What a ledger can be asked to do to its state.
pub enum Operation {
    /// `caller` takes administration and the lock is freed.
    Initialize { caller: Seq<u8> },
    /// `voter_tag` asks to vote for `choice` at the time `cast_at`; the lock
    /// stays held if the vote is accepted.
    BeginCast { voter_tag: Seq<char>, choice: nat, cast_at: nat },
    /// The cast in flight is over.
    FinishCast,
    /// `voter_tag` asks to vote for `choice` at the time `cast_at`, from
    /// beginning to end.
    CastVote { voter_tag: Seq<char>, choice: nat, cast_at: nat },
    /// `caller` asks to clear the flag of `voter_tag`.
    ResetVote { caller: Seq<u8>, voter_tag: Seq<char> },
    /// `caller` asks to hand administration to `new_owner`.
    TransferOwnership { caller: Seq<u8>, new_owner: Seq<u8> },
}

/// The test "this record is a vote for `choice`".
pub open spec fn has_choice(choice: nat) -> spec_fn(VoteRecord) -> bool {
    |record: VoteRecord| record.choice == choice
}

/// How many records of `ledger` are votes for `choice`.
pub open spec fn count_of(ledger: Seq<VoteRecord>, choice: nat) -> nat {
    ledger.filter(has_choice(choice)).len()
}

/// The count that `tally` holds for `choice`; zero for a choice that it does
/// not hold.
pub open spec fn votes_in(tally: Map<nat, nat>, choice: nat) -> nat {
    if tally.contains_key(choice) {
        tally[choice]
    } else {
        0
    }
}

/// The tally that belongs to `ledger`: each choice that occurs in it, with the
/// number of its records.
pub open spec fn tally_of(ledger: Seq<VoteRecord>) -> Map<nat, nat> {
    Map::new(|choice: nat| count_of(ledger, choice) > 0, |choice: nat| count_of(ledger, choice))
}

impl VotingState {
    /// A ledger on which nothing has happened yet: nobody administers it (the
    /// administrator is the all-zero identity), nobody has voted, and no cast
    /// is in flight.
    pub open spec fn fresh() -> VotingState {
        VotingState {
            administrator: Seq::new(20, |i: int| 0u8),
            ledger: Seq::empty(),
            has_voted: Set::empty(),
            tally: Map::empty(),
            locked: false,
        }
    }

    /// The count that the tally holds for `choice`; zero for a choice that was
    /// never voted for.
    pub open spec fn votes_for(self, choice: nat) -> nat {
        votes_in(self.tally, choice)
    }

    /// The tally is the one that belongs to the ledger.
    pub open spec fn consistent(self) -> bool {
        self.tally == tally_of(self.ledger)
    }

    /// Why a cast by `voter_tag` is rejected in this state, if it is. The lock
    /// is looked at first, the voter's flag second.
    pub open spec fn cast_error(self, voter_tag: Seq<char>) -> Option<RFIDVotingError> {
        if self.locked {
            Some(RFIDVotingError::ReentrancyGuard)
        } else if self.has_voted.contains(voter_tag) {
            Some(RFIDVotingError::AlreadyVoted)
        } else {
            None
        }
    }

    /// Why an administrative operation by `caller` is rejected, if it is.
    pub open spec fn admin_error(self, caller: Seq<u8>) -> Option<RFIDVotingError> {
        if caller == self.administrator {
            None
        } else {
            Some(RFIDVotingError::NotOwner)
        }
    }

    /// The state after `caller` has initialized the ledger: `caller`
    /// administers it and no cast is in flight. Votes, flags and counts stay.
    pub open spec fn initialize(self, caller: Seq<u8>) -> VotingState {
        VotingState { administrator: caller, locked: false, ..self }
    }

    /// The state with one more record at the end of the ledger, the voter
    /// flagged, and the count of the record's choice one higher. The three
    /// change together or not at all.
    pub open spec fn record(self, vote: VoteRecord) -> VotingState {
        VotingState {
            ledger: self.ledger.push(vote),
            has_voted: self.has_voted.insert(vote.voter_tag),
            tally: self.tally.insert(vote.choice, self.votes_for(vote.choice) + 1),
            ..self
        }
    }

    /// The state after the first half of a cast: where the cast is accepted the
    /// vote is recorded and the lock is held; where it is rejected nothing
    /// changes.
    pub open spec fn begin_cast(self, voter_tag: Seq<char>, choice: nat, cast_at: nat)
        -> VotingState {
        if self.cast_error(voter_tag) is None {
            VotingState { locked: true, ..self.record(VoteRecord { voter_tag, choice, cast_at }) }
        } else {
            self
        }
    }

    /// The state after the second half of a cast: the lock is free.
    pub open spec fn finish_cast(self) -> VotingState {
        VotingState { locked: false, ..self }
    }

    /// The state after a whole cast: where the cast is accepted the vote is
    /// recorded and the lock is free again; where it is rejected nothing
    /// changes.
    pub open spec fn cast_vote(self, voter_tag: Seq<char>, choice: nat, cast_at: nat)
        -> VotingState {
        if self.cast_error(voter_tag) is None {
            self.begin_cast(voter_tag, choice, cast_at).finish_cast()
        } else {
            self
        }
    }

    /// The state after `caller` asked to reset `voter_tag`: the administrator
    /// clears the voter's flag, and only the flag; anyone else changes nothing.
    pub open spec fn reset_vote(self, caller: Seq<u8>, voter_tag: Seq<char>) -> VotingState {
        if self.admin_error(caller) is None {
            VotingState { has_voted: self.has_voted.remove(voter_tag), ..self }
        } else {
            self
        }
    }

    /// The state after `caller` asked to hand administration to `new_owner`:
    /// the administrator is replaced; anyone else changes nothing.
    pub open spec fn transfer_ownership(self, caller: Seq<u8>, new_owner: Seq<u8>)
        -> VotingState {
        if self.admin_error(caller) is None {
            VotingState { administrator: new_owner, ..self }
        } else {
            self
        }
    }

    /// The record at position `k` decides the winner: no record's choice has a
    /// higher count than its choice, and every earlier record's choice has a
    /// strictly lower one. Among choices with equal counts the one that was
    /// voted for first therefore leads.
    pub open spec fn leads_at(self, k: int) -> bool {
        &&& 0 <= k < self.ledger.len()
        &&& forall|j: int|
            0 <= j < self.ledger.len() ==> self.votes_for(#[trigger] self.ledger[j].choice)
                <= self.votes_for(self.ledger[k].choice)
        &&& forall|j: int|
            0 <= j < k ==> self.votes_for(#[trigger] self.ledger[j].choice) < self.votes_for(
                self.ledger[k].choice,
            )
    }

    /// The state after one operation.
    pub open spec fn apply(self, op: Operation) -> VotingState {
        match op {
            Operation::Initialize { caller } => self.initialize(caller),
            Operation::BeginCast { voter_tag, choice, cast_at } => self.begin_cast(
                voter_tag,
                choice,
                cast_at,
            ),
            Operation::FinishCast => self.finish_cast(),
            Operation::CastVote { voter_tag, choice, cast_at } => self.cast_vote(
                voter_tag,
                choice,
                cast_at,
            ),
            Operation::ResetVote { caller, voter_tag } => self.reset_vote(caller, voter_tag),
            Operation::TransferOwnership { caller, new_owner } => self.transfer_ownership(
                caller,
                new_owner,
            ),
        }
    }

    /// The state after a sequence of operations, applied first to last.
    pub open spec fn run(self, ops: Seq<Operation>) -> VotingState
        decreases ops.len(),
    {
        if ops.len() == 0 {
            self
        } else {
            self.run(ops.drop_last()).apply(ops.last())
        }
    }
}

/// A record more at the end of a ledger counts for its own choice and for no
/// other.
pub proof fn lemma_count_push(ledger: Seq<VoteRecord>, vote: VoteRecord, choice: nat)
    ensures
        count_of(ledger.push(vote), choice) == count_of(ledger, choice) + if vote.choice
            == choice {
            1nat
        } else {
            0nat
        },
{
    ledger.lemma_filter_push(vote, has_choice(choice));
}

/// No choice has more votes than the ledger has records.
pub proof fn lemma_count_bound(ledger: Seq<VoteRecord>, choice: nat)
    ensures
        count_of(ledger, choice) <= ledger.len(),
{
    ledger.lemma_filter_len(has_choice(choice));
}

/// The choice of every record of a ledger has at least one vote.
pub proof fn lemma_count_positive(ledger: Seq<VoteRecord>, i: int)
    requires
        0 <= i < ledger.len(),
    ensures
        count_of(ledger, ledger[i].choice) >= 1,
    decreases ledger.len(),
{
    let choice: nat = ledger[i].choice;
    let front = ledger.drop_last();
    assert(ledger == front.push(ledger.last()));
    lemma_count_push(front, ledger.last(), choice);
    if i < ledger.len() - 1 {
        lemma_count_positive(front, i);
    }
}

/// Where the tally belongs to the ledger, it holds for every choice the
/// number of that choice's records.
pub proof fn lemma_consistent_counts(state: VotingState, choice: nat)
    requires
        state.consistent(),
    ensures
        state.votes_for(choice) == count_of(state.ledger, choice),
{
}

/// The tally of a fresh ledger belongs to its ledger.
pub proof fn lemma_fresh_consistent()
    ensures
        VotingState::fresh().consistent(),
{
    let fresh = VotingState::fresh();
    assert forall|choice: nat| count_of(fresh.ledger, choice) == 0 by {
        lemma_count_bound(fresh.ledger, choice);
    }
    assert(fresh.tally =~= tally_of(fresh.ledger));
}

/// Recording a vote keeps the tally in step with the ledger.
pub proof fn lemma_record_consistent(state: VotingState, vote: VoteRecord)
    requires
        state.consistent(),
    ensures
        state.record(vote).consistent(),
{
    let after = state.record(vote);
    assert forall|choice: nat|
        count_of(after.ledger, choice) == count_of(state.ledger, choice) + if vote.choice
            == choice {
            1nat
        } else {
            0nat
        } by {
        lemma_count_push(state.ledger, vote, choice);
    }
    assert(after.tally =~= tally_of(after.ledger));
}

} // verus!
