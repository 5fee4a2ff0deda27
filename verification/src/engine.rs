use crate::address::Address;
use crate::error::RFIDVotingError;
use crate::model::{
    count_of, lemma_consistent_counts, lemma_count_bound, lemma_count_positive,
    lemma_fresh_consistent, lemma_record_consistent, tally_of, VoteRecord, VotingState,
};
use crate::tally::TallyTable;
use crate::uint256::Uint256;
use vstd::hash_map::StringHashMap;
use vstd::prelude::*;

verus! {

/// One record of the ledger.
#[derive(Debug, PartialEq, Eq)]
pub struct VoteData {
    pub tag_id: String,
    pub button_number: Uint256,
    pub timestamp: Uint256,
}

impl View for VoteData {
    type V = VoteRecord;

    open spec fn view(&self) -> VoteRecord {
        VoteRecord {
            voter_tag: self.tag_id@,
            choice: self.button_number@,
            cast_at: self.timestamp@,
        }
    }
}

/// The notification that an accepted cast owes to the outside world.
#[derive(Debug, PartialEq, Eq)]
pub struct VoteCast {
    pub tag_id: String,
    pub button_number: Uint256,
    pub timestamp: Uint256,
}

impl View for VoteCast {
    type V = VoteRecord;

    open spec fn view(&self) -> VoteRecord {
        VoteRecord {
            voter_tag: self.tag_id@,
            choice: self.button_number@,
            cast_at: self.timestamp@,
        }
    }
}

/// The notification that an accepted change of administrator owes to the
/// outside world.
#[derive(Debug, PartialEq, Eq)]
pub struct OwnershipTransferred {
    pub previous_owner: Address,
    pub new_owner: Address,
}

/// The ledger as mathematics sees it: the records of `votes`, in order.
pub open spec fn ledger_of(votes: Seq<VoteData>) -> Seq<VoteRecord> {
    Seq::new(votes.len(), |i: int| votes[i]@)
}

/// The identities that `flags` marks as having voted.
pub open spec fn flagged_in(flags: Map<Seq<char>, bool>) -> Set<Seq<char>> {
    Set::new(|voter_tag: Seq<char>| flags.contains_key(voter_tag) && flags[voter_tag])
}

/// The identities that `voted` names.
pub open spec fn named_in(voted: Seq<String>) -> Set<Seq<char>> {
    Set::new(
        |voter_tag: Seq<char>|
            exists|i: int| 0 <= i < voted.len() && #[trigger] voted[i]@ == voter_tag,
    )
}

/// The voting engine: the ledger of cast votes, the flags of those who have
/// voted, the tally, the administrator and the lock that guards a cast.
pub struct RFIDVoting {
    owner: Address,
    votes: Vec<VoteData>,
    has_voted: StringHashMap<bool>,
    button_votes: TallyTable,
    locked: bool,
}

impl View for RFIDVoting {
    type V = VotingState;

    closed spec fn view(&self) -> VotingState {
        VotingState {
            administrator: self.owner@,
            ledger: ledger_of(self.votes@),
            has_voted: flagged_in(self.has_voted@),
            tally: self.button_votes@,
            locked: self.locked,
        }
    }
}

impl RFIDVoting {
    /// The engine is in order: its tally has one line per choice and belongs to
    /// its ledger.
    pub closed spec fn wf(&self) -> bool {
        &&& self.button_votes.wf()
        &&& self@.consistent()
    }

    /// An engine on which nothing has happened yet.
    pub fn new() -> (engine: Self)
        ensures
            engine.wf(),
            engine@ == VotingState::fresh(),
    {
        let engine = RFIDVoting {
            owner: Address::zero(),
            votes: Vec::new(),
            has_voted: StringHashMap::new(),
            button_votes: TallyTable::new(),
            locked: false,
        };
        proof {
            lemma_fresh_consistent();
            assert(engine@.ledger =~= VotingState::fresh().ledger);
            assert(engine@.has_voted =~= VotingState::fresh().has_voted);
        }
        engine
    }

    /// The engine that a host has persisted: `owner` administers it, its ledger
    /// holds `votes` in their order, exactly the voters that `voted` names are
    /// flagged, and a cast is in flight if `locked` says so. The tally is
    /// counted from the ledger.
    pub fn restore(
        owner: Address,
        locked: bool,
        votes: Vec<VoteData>,
        voted: Vec<String>,
    ) -> (engine: Self)
        ensures
            engine.wf(),
            engine@ == (VotingState {
                administrator: owner@,
                ledger: ledger_of(votes@),
                has_voted: named_in(voted@),
                tally: tally_of(ledger_of(votes@)),
                locked,
            }),
    {
        let ghost ledger = ledger_of(votes@);
        let mut button_votes = TallyTable::new();
        let mut i: usize = 0;
        proof {
            lemma_fresh_consistent();
        }
        while i < votes.len()
            invariant
                i <= votes.len(),
                ledger == ledger_of(votes@),
                button_votes.wf(),
                button_votes@ == tally_of(ledger.take(i as int)),
            decreases votes.len() - i,
        {
            let choice = votes[i].button_number;
            proof {
                let counted = VotingState {
                    ledger: ledger.take(i as int),
                    tally: button_votes@,
                    ..VotingState::fresh()
                };
                lemma_consistent_counts(counted, choice@);
                lemma_count_bound(counted.ledger, choice@);
                lemma_record_consistent(counted, ledger[i as int]);
                assert(ledger.take(i + 1) =~= ledger.take(i as int).push(ledger[i as int]));
            }
            button_votes.increment(choice);
            i += 1;
        }
        assert(ledger.take(votes.len() as int) =~= ledger);
        let mut has_voted: StringHashMap<bool> = StringHashMap::new();
        let mut k: usize = 0;
        while k < voted.len()
            invariant
                k <= voted.len(),
                flagged_in(has_voted@) == named_in(voted@.take(k as int)),
            decreases voted.len() - k,
        {
            let ghost before = has_voted@;
            has_voted.insert(voted[k].clone(), true);
            proof {
                let shorter = voted@.take(k as int);
                let longer = voted@.take(k + 1);
                assert forall|voter_tag: Seq<char>|
                    flagged_in(has_voted@).contains(voter_tag) <==> named_in(longer).contains(
                        voter_tag,
                    ) by {
                    if named_in(longer).contains(voter_tag) {
                        let j: int = choose|j: int|
                            0 <= j < longer.len() && #[trigger] longer[j]@ == voter_tag;
                        if j < k {
                            assert(shorter[j]@ == voter_tag);
                        }
                    }
                    if flagged_in(before).contains(voter_tag) {
                        let j: int = choose|j: int|
                            0 <= j < shorter.len() && #[trigger] shorter[j]@ == voter_tag;
                        assert(longer[j]@ == voter_tag);
                    }
                    if voter_tag == voted[k as int]@ {
                        assert(longer[k as int]@ == voter_tag);
                    }
                }
            }
            k += 1;
        }
        assert(voted@.take(voted.len() as int) =~= voted@);
        RFIDVoting { owner, votes, has_voted, button_votes, locked }
    }

    /// Whether `voter_tag` is flagged as having voted.
    fn flagged(&self, voter_tag: &str) -> (flag: bool)
        ensures
            flag == self@.has_voted.contains(voter_tag@),
    {
        match self.has_voted.get(voter_tag) {
            Some(flag) => *flag,
            None => false,
        }
    }

    /// The first half of a cast, for a host whose notification sink may call
    /// back into the engine.
    ///
    /// A cast is rejected with `ReentrancyGuard` while another one is in
    /// flight, and with `AlreadyVoted` if the voter is flagged; a rejected cast
    /// changes nothing. An accepted cast appends the vote to the ledger, flags
    /// the voter and counts the vote, all three at once, and leaves the lock
    /// held. The host then delivers the notification that is returned and
    /// calls [`RFIDVoting::finish_cast`].
    pub fn begin_cast(
        &mut self,
        tag_id: String,
        button_number: Uint256,
        timestamp: u64,
    ) -> (result: Result<VoteCast, RFIDVotingError>)
        requires
            old(self).wf(),
        ensures
            final(self).wf(),
            final(self)@ == old(self)@.begin_cast(tag_id@, button_number@, timestamp as nat),
            match result {
                Ok(event) => old(self)@.cast_error(tag_id@) is None && event@ == (VoteRecord {
                    voter_tag: tag_id@,
                    choice: button_number@,
                    cast_at: timestamp as nat,
                }),
                Err(error) => old(self)@.cast_error(tag_id@) == Some(error) && *final(self) == *old(
                    self,
                ),
            },
    {
        if self.locked {
            return Err(RFIDVotingError::ReentrancyGuard);
        }
        let ghost before = self@;
        self.locked = true;
        if self.flagged(tag_id.as_str()) {
            self.locked = false;
            return Err(RFIDVotingError::AlreadyVoted);
        }
        let ghost vote = VoteRecord {
            voter_tag: tag_id@,
            choice: button_number@,
            cast_at: timestamp as nat,
        };
        let cast_at = Uint256::from_u64(timestamp);
        self.votes.push(VoteData { tag_id: tag_id.clone(), button_number, timestamp: cast_at });
        self.has_voted.insert(tag_id.clone(), true);
        let recorded: usize = self.votes.len();
        proof {
            // The count so far is at most the number of earlier records,
            // which is below `recorded`: the new count fits.
            lemma_consistent_counts(before, button_number@);
            lemma_count_bound(before.ledger, button_number@);
            assert(before.ledger.len() < recorded);
        }
        self.button_votes.increment(button_number);
        proof {
            let after = before.begin_cast(tag_id@, button_number@, timestamp as nat);
            assert(self@.ledger =~= after.ledger);
            assert(self@.has_voted =~= after.has_voted);
            lemma_record_consistent(before, vote);
        }
        Ok(VoteCast { tag_id, button_number, timestamp: cast_at })
    }

    /// The second half of a cast: frees the lock and changes nothing else.
    pub fn finish_cast(&mut self)
        requires
            old(self).wf(),
        ensures
            final(self).wf(),
            final(self)@ == old(self)@.finish_cast(),
    {
        self.locked = false;
    }

    /// Casts the vote of `tag_id` for `button_number` at the time `timestamp`
    /// that the host reports.
    ///
    /// A cast is rejected with `ReentrancyGuard` while another one is in
    /// flight, and with `AlreadyVoted` if the voter is flagged; a rejected cast
    /// changes nothing. An accepted cast appends the vote to the ledger, flags
    /// the voter and counts the vote, all three at once, frees the lock again
    /// and returns the notification that the host is to deliver.
    pub fn cast_vote(
        &mut self,
        tag_id: String,
        button_number: Uint256,
        timestamp: u64,
    ) -> (result: Result<VoteCast, RFIDVotingError>)
        requires
            old(self).wf(),
        ensures
            final(self).wf(),
            final(self)@ == old(self)@.cast_vote(tag_id@, button_number@, timestamp as nat),
            old(self)@.locked ==> result == Err::<VoteCast, RFIDVotingError>(
                RFIDVotingError::ReentrancyGuard,
            ) && *final(self) == *old(self),
            match result {
                Ok(event) => old(self)@.cast_error(tag_id@) is None && event@ == (VoteRecord {
                    voter_tag: tag_id@,
                    choice: button_number@,
                    cast_at: timestamp as nat,
                }),
                Err(error) => old(self)@.cast_error(tag_id@) == Some(error) && *final(self) == *old(
                    self,
                ),
            },
    {
        let result = self.begin_cast(tag_id, button_number, timestamp);
        if result.is_ok() {
            self.finish_cast();
        }
        result
    }

    /// The leading choice and its count.
    ///
    /// Fails with `NoVotes` on an empty ledger. Otherwise the winner is the
    /// choice of the earliest record whose choice has the highest count of
    /// all: among choices with equal counts the one voted for first wins.
    pub fn pick_winner(&self) -> (result: Result<(Uint256, Uint256), RFIDVotingError>)
        requires
            self.wf(),
        ensures
            match result {
                Ok((choice, count)) => exists|k: int|
                    #![trigger self@.leads_at(k)]
                    self@.leads_at(k) && choice@ == self@.ledger[k].choice && count@
                        == self@.votes_for(choice@),
                Err(error) => self@.ledger.len() == 0 && error == RFIDVotingError::NoVotes,
            },
    {
        if self.votes.len() == 0 {
            return Err(RFIDVotingError::NoVotes);
        }
        let ghost state = self@;
        let mut max_votes: u64 = 0;
        let mut winning_btn = Uint256::from_u64(0);
        let ghost mut lead: int = 0;
        let mut i: usize = 0;
        while i < self.votes.len()
            invariant
                self.wf(),
                state == self@,
                i <= self.votes.len(),
                i == 0 ==> max_votes == 0,
                i > 0 ==> 0 <= lead < i && winning_btn@ == state.ledger[lead].choice && max_votes
                    == state.votes_for(state.ledger[lead].choice),
                forall|j: int|
                    0 <= j < i ==> state.votes_for(#[trigger] state.ledger[j].choice) <= max_votes,
                forall|j: int|
                    0 <= j < lead ==> state.votes_for(#[trigger] state.ledger[j].choice)
                        < max_votes,
            decreases self.votes.len() - i,
        {
            let btn = self.votes[i].button_number;
            let vote_count: u64 = self.button_votes.get(&btn);
            proof {
                assert(state.ledger[i as int].choice == btn@);
                lemma_consistent_counts(state, btn@);
                lemma_count_positive(state.ledger, i as int);
            }
            if vote_count > max_votes {
                max_votes = vote_count;
                winning_btn = btn;
                proof {
                    lead = i as int;
                }
            }
            i += 1;
        }
        assert(state.leads_at(lead));
        Ok((winning_btn, Uint256::from_u64(max_votes)))
    }

    /// Hands administration to `new_owner` on behalf of `caller`.
    ///
    /// Fails with `NotOwner`, and changes nothing, unless `caller` is the
    /// administrator. On success the administrator is replaced and the
    /// notification that the host is to deliver names the old one and the new.
    pub fn transfer_ownership(
        &mut self,
        caller: Address,
        new_owner: Address,
    ) -> (result: Result<OwnershipTransferred, RFIDVotingError>)
        requires
            old(self).wf(),
        ensures
            final(self).wf(),
            final(self)@ == old(self)@.transfer_ownership(caller@, new_owner@),
            match result {
                Ok(event) => caller@ == old(self)@.administrator && event.previous_owner@ == old(
                    self,
                )@.administrator && event.new_owner@ == new_owner@,
                Err(error) => caller@ != old(self)@.administrator && error
                    == RFIDVotingError::NotOwner && *final(self) == *old(self),
            },
    {
        if caller != self.owner {
            return Err(RFIDVotingError::NotOwner);
        }
        let old_owner = self.owner;
        self.owner = new_owner;
        Ok(OwnershipTransferred { previous_owner: old_owner, new_owner })
    }

    /// The record at `index`, counted from zero in the order of casting: the
    /// voter, the choice and the timestamp. Fails with `InvalidIndex` when the
    /// ledger has no such record.
    pub fn get_vote(
        &self,
        index: Uint256,
    ) -> (result: Result<(String, Uint256, Uint256), RFIDVotingError>)
        ensures
            match result {
                Ok((tag_id, button_number, timestamp)) => index@ < self@.ledger.len() && (
                VoteRecord {
                    voter_tag: tag_id@,
                    choice: button_number@,
                    cast_at: timestamp@,
                }) == self@.ledger[index@ as int],
                Err(error) => index@ >= self@.ledger.len() && error
                    == RFIDVotingError::InvalidIndex,
            },
    {
        let count: usize = self.votes.len();
        match index.to_usize() {
            Some(idx) => {
                if idx >= count {
                    return Err(RFIDVotingError::InvalidIndex);
                }
                let vote = &self.votes[idx];
                let tag_id = vote.tag_id.clone();
                Ok((tag_id, vote.button_number, vote.timestamp))
            },
            None => Err(RFIDVotingError::InvalidIndex),
        }
    }

    /// Clears the flag of `tag_id` on behalf of `caller`, so that the voter may
    /// vote again.
    ///
    /// Fails with `NotOwner`, and changes nothing, unless `caller` is the
    /// administrator. The ledger and the tally keep what the voter cast
    /// before.
    pub fn reset_vote(
        &mut self,
        caller: Address,
        tag_id: String,
    ) -> (result: Result<(), RFIDVotingError>)
        requires
            old(self).wf(),
        ensures
            final(self).wf(),
            final(self)@ == old(self)@.reset_vote(caller@, tag_id@),
            match result {
                Ok(_) => caller@ == old(self)@.administrator,
                Err(error) => caller@ != old(self)@.administrator && error
                    == RFIDVotingError::NotOwner && *final(self) == *old(self),
            },
    {
        if caller != self.owner {
            return Err(RFIDVotingError::NotOwner);
        }
        let ghost before = self@;
        self.has_voted.insert(tag_id, false);
        assert(self@.has_voted =~= before.has_voted.remove(tag_id@));
        Ok(())
    }

    /// Makes `caller` the administrator and frees the lock. Never fails, and
    /// does the same on every call.
    pub fn initialize(&mut self, caller: Address) -> (result: Result<(), RFIDVotingError>)
        requires
            old(self).wf(),
        ensures
            final(self).wf(),
            final(self)@ == old(self)@.initialize(caller@),
            result is Ok,
    {
        self.owner = caller;
        self.locked = false;
        Ok(())
    }

    /// In an engine that is in order the tally belongs to the ledger: it holds
    /// for every choice the number of ledger records with that choice.
    pub proof fn tally_matches_ledger(&self, choice: nat)
        requires
            self.wf(),
        ensures
            self@.consistent(),
            self@.votes_for(choice) == count_of(self@.ledger, choice),
    {
        lemma_consistent_counts(self@, choice);
    }

    /// The number of records on the ledger.
    pub fn get_vote_count(&self) -> (count: Uint256)
        ensures
            count@ == self@.ledger.len(),
    {
        Uint256::from_u64(self.votes.len() as u64)
    }

    /// The administrator.
    pub fn owner(&self) -> (administrator: Address)
        ensures
            administrator@ == self@.administrator,
    {
        self.owner
    }

    /// The count of `button_number`: the number of ledger records with that
    /// choice, zero for a choice that nobody voted for.
    pub fn get_button_votes(&self, button_number: Uint256) -> (count: Uint256)
        requires
            self.wf(),
        ensures
            count@ == self@.votes_for(button_number@),
            count@ == count_of(self@.ledger, button_number@),
    {
        proof {
            lemma_consistent_counts(self@, button_number@);
        }
        Uint256::from_u64(self.button_votes.get(&button_number))
    }

    /// Whether `tag_id` has a vote on record that was not reset since.
    pub fn check_has_voted(&self, tag_id: String) -> (flag: bool)
        ensures
            flag == self@.has_voted.contains(tag_id@),
    {
        self.flagged(tag_id.as_str())
    }

    /// Whether a cast is in flight.
    pub fn is_locked(&self) -> (locked: bool)
        ensures
            locked == self@.locked,
    {
        self.locked
    }
}

} // verus!
