use crate::error::RFIDVotingError;
use crate::model::{
    count_of, lemma_consistent_counts, lemma_fresh_consistent, lemma_record_consistent, Operation,
    VoteRecord, VotingState,
};
use vstd::prelude::*;

verus! {

/// Applied in `state`, `op` is a cast by `who` that is accepted.
pub open spec fn casts_for(state: VotingState, op: Operation, who: Seq<char>) -> bool {
    match op {
        Operation::BeginCast { voter_tag, choice, cast_at } => voter_tag == who && state.cast_error(
            voter_tag,
        ) is None,
        Operation::CastVote { voter_tag, choice, cast_at } => voter_tag == who && state.cast_error(
            voter_tag,
        ) is None,
        _ => false,
    }
}

/// Applied in `state`, `op` is a reset of `who` that is accepted.
pub open spec fn resets(state: VotingState, op: Operation, who: Seq<char>) -> bool {
    match op {
        Operation::ResetVote { caller, voter_tag } => voter_tag == who && state.admin_error(caller)
            is None,
        _ => false,
    }
}

/// In the run of `ops` from `start`, the operation at position `k` is an
/// accepted cast by `who`.
pub open spec fn cast_accepted_at(
    start: VotingState,
    ops: Seq<Operation>,
    k: int,
    who: Seq<char>,
) -> bool {
    0 <= k < ops.len() && casts_for(start.run(ops.take(k)), ops[k], who)
}

/// In the run of `ops` from `start`, the operation at position `j` is an
/// accepted reset of `who`.
pub open spec fn reset_accepted_at(
    start: VotingState,
    ops: Seq<Operation>,
    j: int,
    who: Seq<char>,
) -> bool {
    0 <= j < ops.len() && resets(start.run(ops.take(j)), ops[j], who)
}

/// In the run of `ops` from `start`, no operation after position `k` is an
/// accepted reset of `who`.
pub open spec fn no_reset_after(
    start: VotingState,
    ops: Seq<Operation>,
    k: int,
    who: Seq<char>,
) -> bool {
    forall|j: int| k < j < ops.len() ==> !#[trigger] reset_accepted_at(start, ops, j, who)
}

/// In the run of `ops` from `start`, `who` has cast a vote that was accepted
/// and was not reset afterwards.
pub open spec fn cast_stands(start: VotingState, ops: Seq<Operation>, who: Seq<char>) -> bool {
    exists|k: int| #[trigger]
        cast_accepted_at(start, ops, k, who) && no_reset_after(start, ops, k, who)
}

/// What an operation does to the flag of one voter: an accepted cast by the
/// voter sets it, an accepted reset of the voter clears it, and everything
/// else leaves it as it is.
pub proof fn flag_after_one(state: VotingState, op: Operation, who: Seq<char>)
    ensures
        state.apply(op).has_voted.contains(who) <==> casts_for(state, op, who) || (!resets(
            state,
            op,
            who,
        ) && state.has_voted.contains(who)),
{
}

/// The run of all operations but the last sees the same casts and resets as
/// the whole run, and the whole run applies its last operation to the state
/// that the shorter run ends in.
proof fn run_of_front(start: VotingState, ops: Seq<Operation>, who: Seq<char>)
    requires
        ops.len() > 0,
    ensures
        forall|k: int|
            0 <= k < ops.len() - 1 ==> (#[trigger] cast_accepted_at(start, ops, k, who))
                == cast_accepted_at(start, ops.drop_last(), k, who),
        forall|k: int|
            0 <= k < ops.len() - 1 ==> (#[trigger] reset_accepted_at(start, ops, k, who))
                == reset_accepted_at(start, ops.drop_last(), k, who),
        cast_accepted_at(start, ops, ops.len() - 1, who) == casts_for(
            start.run(ops.drop_last()),
            ops.last(),
            who,
        ),
        reset_accepted_at(start, ops, ops.len() - 1, who) == resets(
            start.run(ops.drop_last()),
            ops.last(),
            who,
        ),
{
    let front = ops.drop_last();
    assert forall|k: int| 0 <= k < ops.len() - 1 implies ops.take(k) == front.take(k) && ops[k]
        == front[k] by {
        assert(ops.take(k) =~= front.take(k));
    }
    assert(ops.take(ops.len() - 1) =~= front);
}

/// After any sequence of operations on any ledger, a voter is flagged exactly
/// when a vote of theirs was accepted and not reset since, or when they were
/// flagged at the start and not reset since.
pub proof fn flag_tracks_casts_and_resets(
    start: VotingState,
    ops: Seq<Operation>,
    who: Seq<char>,
)
    ensures
        start.run(ops).has_voted.contains(who) <==> cast_stands(start, ops, who) || (
        start.has_voted.contains(who) && no_reset_after(start, ops, -1, who)),
    decreases ops.len(),
{
    if ops.len() == 0 {
        assert(!cast_stands(start, ops, who));
    } else {
        let front = ops.drop_last();
        let last = ops.last();
        let middle = start.run(front);
        let n: int = front.len() as int;
        flag_tracks_casts_and_resets(start, front, who);
        flag_after_one(middle, last, who);
        run_of_front(start, ops, who);
        let cast_now = casts_for(middle, last, who);
        let reset_now = resets(middle, last, who);
        // Resets seen from a position of the shorter run.
        assert forall|k: int| -1 <= k < n implies (no_reset_after(start, ops, k, who) <==> (
        no_reset_after(start, front, k, who) && !reset_now)) by {
            if no_reset_after(start, ops, k, who) {
                assert forall|j: int| k < j < front.len() implies !#[trigger] reset_accepted_at(
                    start,
                    front,
                    j,
                    who,
                ) by {
                    assert(!reset_accepted_at(start, ops, j, who));
                }
            }
            if no_reset_after(start, front, k, who) && !reset_now {
                assert forall|j: int| k < j < ops.len() implies !#[trigger] reset_accepted_at(
                    start,
                    ops,
                    j,
                    who,
                ) by {
                    if j < n {
                        assert(!reset_accepted_at(start, front, j, who));
                    }
                }
            }
        }
        // A cast stands in the whole run if it is the last operation, or if it
        // stands in the shorter run and the last operation does not reset it.
        assert(cast_stands(start, ops, who) <==> cast_now || (cast_stands(start, front, who)
            && !reset_now)) by {
            if cast_stands(start, ops, who) {
                let k: int = choose|k: int| #[trigger]
                    cast_accepted_at(start, ops, k, who) && no_reset_after(start, ops, k, who);
                if k < n {
                    assert(cast_accepted_at(start, front, k, who));
                }
            }
            if cast_now {
                assert(cast_accepted_at(start, ops, n, who));
            }
            if cast_stands(start, front, who) && !reset_now {
                let k: int = choose|k: int| #[trigger]
                    cast_accepted_at(start, front, k, who) && no_reset_after(
                        start,
                        front,
                        k,
                        who,
                    );
                assert(cast_accepted_at(start, ops, k, who));
            }
        }
    }
}

/// The single-vote invariant: after any sequence of operations on a fresh
/// ledger, a voter is flagged exactly when a vote of theirs was accepted and
/// not reset since.
pub proof fn single_vote_invariant(ops: Seq<Operation>, who: Seq<char>)
    ensures
        VotingState::fresh().run(ops).has_voted.contains(who) <==> cast_stands(
            VotingState::fresh(),
            ops,
            who,
        ),
{
    flag_tracks_casts_and_resets(VotingState::fresh(), ops, who);
}

/// No operation takes the tally out of step with the ledger.
pub proof fn apply_keeps_consistency(state: VotingState, op: Operation)
    requires
        state.consistent(),
    ensures
        state.apply(op).consistent(),
{
    match op {
        Operation::BeginCast { voter_tag, choice, cast_at } => {
            lemma_record_consistent(state, VoteRecord { voter_tag, choice, cast_at });
        },
        Operation::CastVote { voter_tag, choice, cast_at } => {
            lemma_record_consistent(state, VoteRecord { voter_tag, choice, cast_at });
        },
        _ => {},
    }
}

/// No sequence of operations takes the tally out of step with the ledger.
pub proof fn run_keeps_consistency(start: VotingState, ops: Seq<Operation>)
    requires
        start.consistent(),
    ensures
        start.run(ops).consistent(),
    decreases ops.len(),
{
    if ops.len() > 0 {
        run_keeps_consistency(start, ops.drop_last());
        apply_keeps_consistency(start.run(ops.drop_last()), ops.last());
    }
}

/// Tally and ledger agree: after any sequence of operations on a fresh
/// ledger, the tally holds for every choice the number of ledger records with
/// that choice. A reset takes nothing off.
pub proof fn tally_matches_ledger(ops: Seq<Operation>, choice: nat)
    ensures
        VotingState::fresh().run(ops).votes_for(choice) == count_of(
            VotingState::fresh().run(ops).ledger,
            choice,
        ),
{
    lemma_fresh_consistent();
    run_keeps_consistency(VotingState::fresh(), ops);
    lemma_consistent_counts(VotingState::fresh().run(ops), choice);
}

/// One operation leaves every record of the ledger where it is.
pub proof fn apply_only_appends(state: VotingState, op: Operation)
    ensures
        state.ledger.is_prefix_of(state.apply(op).ledger),
{
    match op {
        Operation::BeginCast { voter_tag, choice, cast_at } => {
            assert(state.ledger.is_prefix_of(
                state.ledger.push(VoteRecord { voter_tag, choice, cast_at }),
            ));
        },
        Operation::CastVote { voter_tag, choice, cast_at } => {
            assert(state.ledger.is_prefix_of(
                state.ledger.push(VoteRecord { voter_tag, choice, cast_at }),
            ));
        },
        _ => {},
    }
}

/// The ledger is append-only: across any sequence of operations its length
/// never falls, and every position that held a record holds the same record
/// afterwards.
pub proof fn ledger_is_append_only(start: VotingState, ops: Seq<Operation>)
    ensures
        start.ledger.len() <= start.run(ops).ledger.len(),
        forall|i: int|
            0 <= i < start.ledger.len() ==> #[trigger] start.run(ops).ledger[i] == start.ledger[i],
        start.ledger.is_prefix_of(start.run(ops).ledger),
    decreases ops.len(),
{
    if ops.len() > 0 {
        let middle = start.run(ops.drop_last());
        ledger_is_append_only(start, ops.drop_last());
        apply_only_appends(middle, ops.last());
        // What the start holds the middle holds, and what the middle holds
        // the end holds.
        let end = start.run(ops);
        assert forall|i: int| 0 <= i < start.ledger.len() implies #[trigger] end.ledger[i]
            == start.ledger[i] by {
            assert(middle.ledger[i] == start.ledger[i]);
        }
    }
}

/// Reentrancy exclusion: while a cast is in flight, every cast is rejected
/// with `ReentrancyGuard` and changes nothing, whoever casts and whatever for.
pub proof fn cast_in_flight_excludes_cast(
    state: VotingState,
    voter_tag: Seq<char>,
    choice: nat,
    cast_at: nat,
)
    requires
        state.locked,
    ensures
        state.cast_error(voter_tag) == Some(RFIDVotingError::ReentrancyGuard),
        state.cast_vote(voter_tag, choice, cast_at) == state,
        state.begin_cast(voter_tag, choice, cast_at) == state,
{
}

/// The winner is decided: at most one record of a ledger leads.
pub proof fn leader_is_unique(state: VotingState, j: int, k: int)
    requires
        state.leads_at(j),
        state.leads_at(k),
    ensures
        j == k,
{
    // The earlier of two leaders would have strictly fewer votes than the
    // later one, and no fewer.
    if j < k {
        assert(state.votes_for(state.ledger[k].choice) <= state.votes_for(
            state.ledger[j].choice,
        ));
    } else if k < j {
        assert(state.votes_for(state.ledger[j].choice) <= state.votes_for(
            state.ledger[k].choice,
        ));
    }
}

} // verus!
