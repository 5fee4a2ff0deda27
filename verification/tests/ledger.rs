use rfid_voting::{
    Address, OwnershipTransferred, RFIDVoting, RFIDVotingError, Uint256, VoteCast, VoteData,
};

fn admin() -> Address {
    Address { bytes: [0xAA; 20] }
}

fn stranger() -> Address {
    Address { bytes: [0xBB; 20] }
}

fn tag(text: &str) -> String {
    String::from(text)
}

fn num(n: u64) -> Uint256 {
    Uint256::from_u64(n)
}

fn started() -> RFIDVoting {
    let mut engine = RFIDVoting::new();
    assert_eq!(engine.initialize(admin()), Ok(()));
    engine
}

#[test]
fn fresh_engine_is_empty_and_unlocked() {
    let engine = RFIDVoting::new();
    assert_eq!(engine.get_vote_count(), num(0));
    assert_eq!(engine.owner(), Address::zero());
    assert!(!engine.is_locked());
    assert!(!engine.check_has_voted(tag("tagA")));
    assert_eq!(engine.get_button_votes(num(1)), num(0));
}

#[test]
fn initialize_makes_the_caller_administrator() {
    let engine = started();
    assert_eq!(engine.owner(), admin());
    assert!(!engine.is_locked());
}

#[test]
fn initialize_again_reassigns_the_administrator() {
    let mut engine = started();
    assert_eq!(engine.cast_vote(tag("tagA"), num(1), 5).is_ok(), true);
    assert_eq!(engine.initialize(stranger()), Ok(()));
    assert_eq!(engine.owner(), stranger());
    assert_eq!(engine.get_vote_count(), num(1));
    assert!(engine.check_has_voted(tag("tagA")));
    assert_eq!(engine.get_button_votes(num(1)), num(1));
}

#[test]
fn initialize_frees_a_held_lock() {
    let mut engine = RFIDVoting::restore(admin(), true, Vec::new(), Vec::new());
    assert!(engine.is_locked());
    assert_eq!(engine.initialize(admin()), Ok(()));
    assert!(!engine.is_locked());
    assert!(engine.cast_vote(tag("tagA"), num(1), 5).is_ok());
}

#[test]
fn accepted_cast_returns_its_notification() {
    let mut engine = started();
    assert_eq!(
        engine.cast_vote(tag("tagA"), num(7), 1700000000),
        Ok(VoteCast { tag_id: tag("tagA"), button_number: num(7), timestamp: num(1700000000) })
    );
    assert_eq!(engine.get_vote_count(), num(1));
    assert_eq!(engine.get_vote(num(0)), Ok((tag("tagA"), num(7), num(1700000000))));
    assert!(engine.check_has_voted(tag("tagA")));
    assert_eq!(engine.get_button_votes(num(7)), num(1));
    assert!(!engine.is_locked());
}

#[test]
fn duplicate_vote_is_rejected() {
    let mut engine = started();
    assert!(engine.cast_vote(tag("tagA"), num(1), 10).is_ok());
    assert_eq!(engine.cast_vote(tag("tagA"), num(2), 11), Err(RFIDVotingError::AlreadyVoted));
    assert_eq!(engine.get_button_votes(num(1)), num(1));
    assert_eq!(engine.get_button_votes(num(2)), num(0));
    assert_eq!(engine.get_vote_count(), num(1));
    assert!(!engine.is_locked());
}

#[test]
fn reset_then_revote() {
    let mut engine = started();
    assert!(engine.cast_vote(tag("tagA"), num(1), 10).is_ok());
    assert_eq!(engine.cast_vote(tag("tagA"), num(2), 11), Err(RFIDVotingError::AlreadyVoted));
    assert_eq!(engine.reset_vote(admin(), tag("tagA")), Ok(()));
    assert_eq!(engine.check_has_voted(tag("tagA")), false);
    assert!(engine.cast_vote(tag("tagA"), num(2), 12).is_ok());
    assert_eq!(engine.get_vote_count(), num(2));
    assert_eq!(engine.get_button_votes(num(1)), num(1));
    assert_eq!(engine.get_button_votes(num(2)), num(1));
    assert_eq!(engine.get_vote(num(0)), Ok((tag("tagA"), num(1), num(10))));
    assert_eq!(engine.get_vote(num(1)), Ok((tag("tagA"), num(2), num(12))));
}

#[test]
fn reset_touches_neither_ledger_nor_tally() {
    let mut engine = started();
    assert!(engine.cast_vote(tag("tagA"), num(3), 10).is_ok());
    assert!(engine.cast_vote(tag("tagB"), num(3), 11).is_ok());
    assert_eq!(engine.reset_vote(admin(), tag("tagA")), Ok(()));
    assert_eq!(engine.get_vote_count(), num(2));
    assert_eq!(engine.get_button_votes(num(3)), num(2));
    assert_eq!(engine.get_vote(num(0)), Ok((tag("tagA"), num(3), num(10))));
    assert!(!engine.check_has_voted(tag("tagA")));
    assert!(engine.check_has_voted(tag("tagB")));
}

#[test]
fn reset_of_someone_who_never_voted_is_accepted() {
    let mut engine = started();
    assert_eq!(engine.reset_vote(admin(), tag("nobody")), Ok(()));
    assert!(!engine.check_has_voted(tag("nobody")));
    assert!(engine.cast_vote(tag("nobody"), num(1), 1).is_ok());
    assert!(engine.check_has_voted(tag("nobody")));
}

#[test]
fn reset_by_a_stranger_is_rejected() {
    let mut engine = started();
    assert!(engine.cast_vote(tag("tagA"), num(1), 10).is_ok());
    assert_eq!(engine.reset_vote(stranger(), tag("tagA")), Err(RFIDVotingError::NotOwner));
    assert!(engine.check_has_voted(tag("tagA")));
    assert_eq!(engine.cast_vote(tag("tagA"), num(1), 11), Err(RFIDVotingError::AlreadyVoted));
}

#[test]
fn unauthorized_transfer_is_rejected() {
    let mut engine = started();
    assert_eq!(
        engine.transfer_ownership(stranger(), stranger()),
        Err(RFIDVotingError::NotOwner)
    );
    assert_eq!(engine.owner(), admin());
}

#[test]
fn transfer_replaces_the_administrator() {
    let mut engine = started();
    assert_eq!(
        engine.transfer_ownership(admin(), stranger()),
        Ok(OwnershipTransferred { previous_owner: admin(), new_owner: stranger() })
    );
    assert_eq!(engine.owner(), stranger());
    assert_eq!(engine.reset_vote(admin(), tag("tagA")), Err(RFIDVotingError::NotOwner));
    assert_eq!(engine.reset_vote(stranger(), tag("tagA")), Ok(()));
    assert_eq!(engine.transfer_ownership(admin(), admin()), Err(RFIDVotingError::NotOwner));
}

#[test]
fn identities_that_differ_in_one_byte_are_different() {
    let mut engine = started();
    let mut bytes = [0xAA; 20];
    bytes[19] = 0xAB;
    let near = Address { bytes };
    assert_eq!(engine.transfer_ownership(near, near), Err(RFIDVotingError::NotOwner));
    bytes[19] = 0xAA;
    bytes[0] = 0xAB;
    let near = Address { bytes };
    assert_eq!(engine.reset_vote(near, tag("tagA")), Err(RFIDVotingError::NotOwner));
    assert_eq!(engine.owner(), admin());
}

#[test]
fn empty_ledger_has_no_winner() {
    let engine = RFIDVoting::new();
    assert_eq!(engine.pick_winner(), Err(RFIDVotingError::NoVotes));
    let engine = started();
    assert_eq!(engine.pick_winner(), Err(RFIDVotingError::NoVotes));
}

#[test]
fn tie_break_first_seen_wins() {
    let mut engine = started();
    assert!(engine.cast_vote(tag("A"), num(1), 1).is_ok());
    assert!(engine.cast_vote(tag("B"), num(2), 2).is_ok());
    assert_eq!(engine.pick_winner(), Ok((num(1), num(1))));
    assert!(engine.cast_vote(tag("C"), num(1), 3).is_ok());
    assert_eq!(engine.pick_winner(), Ok((num(1), num(2))));
}

#[test]
fn second_vote_of_a_reset_voter_counts_for_the_winner() {
    let mut engine = started();
    assert!(engine.cast_vote(tag("A"), num(1), 1).is_ok());
    assert!(engine.cast_vote(tag("B"), num(2), 2).is_ok());
    assert_eq!(engine.reset_vote(admin(), tag("A")), Ok(()));
    assert!(engine.cast_vote(tag("A"), num(1), 3).is_ok());
    assert_eq!(engine.pick_winner(), Ok((num(1), num(2))));
}

#[test]
fn tie_goes_to_the_choice_recorded_first_not_the_smaller_one() {
    let mut engine = started();
    assert!(engine.cast_vote(tag("A"), num(9), 1).is_ok());
    assert!(engine.cast_vote(tag("B"), num(4), 2).is_ok());
    assert!(engine.cast_vote(tag("C"), num(4), 3).is_ok());
    assert!(engine.cast_vote(tag("D"), num(9), 4).is_ok());
    assert_eq!(engine.pick_winner(), Ok((num(9), num(2))));
}

#[test]
fn later_choice_with_more_votes_wins() {
    let mut engine = started();
    assert!(engine.cast_vote(tag("A"), num(1), 1).is_ok());
    assert!(engine.cast_vote(tag("B"), num(2), 2).is_ok());
    assert!(engine.cast_vote(tag("C"), num(2), 3).is_ok());
    assert_eq!(engine.pick_winner(), Ok((num(2), num(2))));
}

#[test]
fn winner_of_choice_zero_is_reported() {
    let mut engine = started();
    assert!(engine.cast_vote(tag("A"), num(0), 1).is_ok());
    assert_eq!(engine.pick_winner(), Ok((num(0), num(1))));
}

#[test]
fn pick_winner_changes_nothing() {
    let mut engine = started();
    assert!(engine.cast_vote(tag("A"), num(1), 1).is_ok());
    assert_eq!(engine.pick_winner(), Ok((num(1), num(1))));
    assert_eq!(engine.pick_winner(), Ok((num(1), num(1))));
    assert_eq!(engine.get_vote_count(), num(1));
    assert_eq!(engine.get_button_votes(num(1)), num(1));
}

#[test]
fn get_vote_rejects_an_index_past_the_end() {
    let mut engine = started();
    assert_eq!(engine.get_vote(num(0)), Err(RFIDVotingError::InvalidIndex));
    assert!(engine.cast_vote(tag("A"), num(1), 1).is_ok());
    assert!(engine.get_vote(num(0)).is_ok());
    assert_eq!(engine.get_vote(num(1)), Err(RFIDVotingError::InvalidIndex));
    assert_eq!(engine.get_vote(num(u64::MAX)), Err(RFIDVotingError::InvalidIndex));
}

#[test]
fn get_vote_rejects_an_index_wider_than_the_machine() {
    let mut engine = started();
    assert!(engine.cast_vote(tag("A"), num(1), 1).is_ok());
    assert_eq!(
        engine.get_vote(Uint256 { limbs: [0, 1, 0, 0] }),
        Err(RFIDVotingError::InvalidIndex)
    );
    assert_eq!(
        engine.get_vote(Uint256 { limbs: [0, 0, 0, 1] }),
        Err(RFIDVotingError::InvalidIndex)
    );
    assert_eq!(
        engine.get_vote(Uint256 { limbs: [u64::MAX; 4] }),
        Err(RFIDVotingError::InvalidIndex)
    );
}

#[test]
fn choices_wider_than_one_limb_are_told_apart() {
    let mut engine = started();
    let low = Uint256 { limbs: [5, 0, 0, 0] };
    let high = Uint256 { limbs: [5, 0, 0, 1] };
    assert!(engine.cast_vote(tag("A"), high, 1).is_ok());
    assert!(engine.cast_vote(tag("B"), high, 2).is_ok());
    assert!(engine.cast_vote(tag("C"), low, 3).is_ok());
    assert_eq!(engine.get_button_votes(high), num(2));
    assert_eq!(engine.get_button_votes(low), num(1));
    assert_eq!(engine.pick_winner(), Ok((high, num(2))));
    assert_eq!(engine.get_vote(num(0)), Ok((tag("A"), high, num(1))));
}

#[test]
fn cast_in_flight_excludes_another_cast() {
    let mut engine = started();
    assert_eq!(
        engine.begin_cast(tag("tagA"), num(1), 10),
        Ok(VoteCast { tag_id: tag("tagA"), button_number: num(1), timestamp: num(10) })
    );
    assert!(engine.is_locked());
    assert_eq!(engine.cast_vote(tag("tagB"), num(2), 11), Err(RFIDVotingError::ReentrancyGuard));
    assert_eq!(engine.begin_cast(tag("tagB"), num(2), 11), Err(RFIDVotingError::ReentrancyGuard));
    assert_eq!(engine.cast_vote(tag("tagA"), num(1), 11), Err(RFIDVotingError::ReentrancyGuard));
    assert!(engine.is_locked());
    assert_eq!(engine.get_vote_count(), num(1));
    assert!(!engine.check_has_voted(tag("tagB")));
    assert_eq!(engine.get_button_votes(num(2)), num(0));
    assert_eq!(engine.get_button_votes(num(1)), num(1));
    engine.finish_cast();
    assert!(!engine.is_locked());
    assert!(engine.cast_vote(tag("tagB"), num(2), 12).is_ok());
    assert_eq!(engine.get_vote_count(), num(2));
}

#[test]
fn rejected_begin_leaves_the_lock_free() {
    let mut engine = started();
    assert!(engine.cast_vote(tag("tagA"), num(1), 10).is_ok());
    assert_eq!(engine.begin_cast(tag("tagA"), num(1), 11), Err(RFIDVotingError::AlreadyVoted));
    assert!(!engine.is_locked());
    assert_eq!(engine.get_vote_count(), num(1));
}

#[test]
fn lock_is_looked_at_before_the_flag() {
    let mut engine = started();
    assert!(engine.begin_cast(tag("tagA"), num(1), 10).is_ok());
    assert_eq!(engine.cast_vote(tag("tagA"), num(1), 11), Err(RFIDVotingError::ReentrancyGuard));
    engine.finish_cast();
    assert_eq!(engine.cast_vote(tag("tagA"), num(1), 12), Err(RFIDVotingError::AlreadyVoted));
}

#[test]
fn administration_works_while_a_cast_is_in_flight() {
    let mut engine = started();
    assert!(engine.begin_cast(tag("tagA"), num(1), 10).is_ok());
    assert_eq!(engine.reset_vote(admin(), tag("tagA")), Ok(()));
    assert!(engine.transfer_ownership(admin(), stranger()).is_ok());
    assert!(engine.is_locked());
    assert_eq!(engine.owner(), stranger());
    assert!(!engine.check_has_voted(tag("tagA")));
}

#[test]
fn flag_follows_casts_and_resets() {
    let mut engine = started();
    assert!(!engine.check_has_voted(tag("x")));
    assert!(engine.cast_vote(tag("x"), num(1), 1).is_ok());
    assert!(engine.check_has_voted(tag("x")));
    assert!(!engine.check_has_voted(tag("y")));
    assert_eq!(engine.reset_vote(stranger(), tag("x")), Err(RFIDVotingError::NotOwner));
    assert!(engine.check_has_voted(tag("x")));
    assert_eq!(engine.reset_vote(admin(), tag("x")), Ok(()));
    assert!(!engine.check_has_voted(tag("x")));
    assert!(engine.cast_vote(tag("y"), num(1), 2).is_ok());
    assert!(!engine.check_has_voted(tag("x")));
    assert!(engine.check_has_voted(tag("y")));
    assert!(engine.cast_vote(tag("x"), num(2), 3).is_ok());
    assert!(engine.check_has_voted(tag("x")));
    assert!(engine.transfer_ownership(admin(), stranger()).is_ok());
    assert!(engine.check_has_voted(tag("x")));
}

#[test]
fn tally_equals_the_count_of_ledger_records() {
    let mut engine = started();
    let casts: [(&str, u64); 7] =
        [("a", 3), ("b", 1), ("c", 3), ("d", 2), ("e", 3), ("f", 1), ("a", 2)];
    for (i, (who, choice)) in casts.iter().enumerate() {
        if i == 6 {
            assert_eq!(engine.reset_vote(admin(), tag(who)), Ok(()));
        }
        assert!(engine.cast_vote(tag(who), num(*choice), i as u64).is_ok());
    }
    assert_eq!(engine.get_vote_count(), num(7));
    for choice in 0..5u64 {
        let mut expected: u64 = 0;
        for index in 0..7u64 {
            let (_, recorded, _) = engine.get_vote(num(index)).unwrap();
            if recorded == num(choice) {
                expected += 1;
            }
        }
        assert_eq!(engine.get_button_votes(num(choice)), num(expected));
    }
    assert_eq!(engine.get_button_votes(num(3)), num(3));
    assert_eq!(engine.get_button_votes(num(2)), num(2));
    assert_eq!(engine.get_button_votes(num(1)), num(2));
    assert_eq!(engine.get_button_votes(num(0)), num(0));
}

#[test]
fn ledger_only_grows_and_keeps_its_records() {
    let mut engine = started();
    assert!(engine.cast_vote(tag("a"), num(1), 100).is_ok());
    assert!(engine.cast_vote(tag("b"), num(2), 101).is_ok());
    let first = engine.get_vote(num(0));
    let second = engine.get_vote(num(1));
    assert_eq!(engine.cast_vote(tag("a"), num(5), 102), Err(RFIDVotingError::AlreadyVoted));
    assert_eq!(engine.get_vote_count(), num(2));
    assert_eq!(engine.reset_vote(admin(), tag("a")), Ok(()));
    assert_eq!(engine.get_vote_count(), num(2));
    assert!(engine.cast_vote(tag("a"), num(5), 103).is_ok());
    assert!(engine.transfer_ownership(admin(), stranger()).is_ok());
    assert_eq!(engine.initialize(admin()), Ok(()));
    assert_eq!(engine.get_vote_count(), num(3));
    assert_eq!(engine.get_vote(num(0)), first);
    assert_eq!(engine.get_vote(num(1)), second);
    assert_eq!(engine.get_vote(num(2)), Ok((tag("a"), num(5), num(103))));
}

#[test]
fn restore_counts_the_tally_from_the_ledger() {
    let votes = vec![
        VoteData { tag_id: tag("a"), button_number: num(4), timestamp: num(1) },
        VoteData { tag_id: tag("b"), button_number: num(8), timestamp: num(2) },
        VoteData { tag_id: tag("a"), button_number: num(8), timestamp: num(3) },
    ];
    let engine = RFIDVoting::restore(admin(), false, votes, vec![tag("a")]);
    assert_eq!(engine.owner(), admin());
    assert!(!engine.is_locked());
    assert_eq!(engine.get_vote_count(), num(3));
    assert_eq!(engine.get_button_votes(num(4)), num(1));
    assert_eq!(engine.get_button_votes(num(8)), num(2));
    assert_eq!(engine.get_button_votes(num(1)), num(0));
    assert!(engine.check_has_voted(tag("a")));
    assert!(!engine.check_has_voted(tag("b")));
    assert_eq!(engine.get_vote(num(2)), Ok((tag("a"), num(8), num(3))));
    assert_eq!(engine.pick_winner(), Ok((num(8), num(2))));
}

#[test]
fn restored_engine_goes_on_where_it_stopped() {
    let votes = vec![VoteData { tag_id: tag("a"), button_number: num(4), timestamp: num(1) }];
    let mut engine = RFIDVoting::restore(admin(), true, votes, vec![tag("a"), tag("a")]);
    assert!(engine.is_locked());
    assert_eq!(engine.cast_vote(tag("b"), num(4), 2), Err(RFIDVotingError::ReentrancyGuard));
    engine.finish_cast();
    assert_eq!(engine.cast_vote(tag("a"), num(4), 3), Err(RFIDVotingError::AlreadyVoted));
    assert!(engine.cast_vote(tag("b"), num(4), 4).is_ok());
    assert_eq!(engine.get_button_votes(num(4)), num(2));
    assert_eq!(engine.get_vote_count(), num(2));
}

#[test]
fn empty_tag_is_a_voter_like_any_other() {
    let mut engine = started();
    assert!(engine.cast_vote(tag(""), num(1), 1).is_ok());
    assert!(engine.check_has_voted(tag("")));
    assert_eq!(engine.cast_vote(tag(""), num(1), 2), Err(RFIDVotingError::AlreadyVoted));
    assert_eq!(engine.get_vote(num(0)), Ok((tag(""), num(1), num(1))));
}
