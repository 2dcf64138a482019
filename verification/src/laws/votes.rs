//! One caller, one vote in each poll.

use crate::contract::{
    contest_result, handle_entries, new_contestant, new_poll, updated_poll, vote_entries,
    vote_result, voted_contestant, voted_poll, HandleMsg, HandleResponse,
};
use crate::error::ContractError;
use crate::keys::{counter_key, poll_key};
use crate::laws::consistency::{
    consistent, lemma_run_consistent, lemma_vote_values, poll_consistent,
};
use crate::laws::frame::{
    lemma_contestant_saved, lemma_contestant_written, lemma_counter_saved, lemma_poll_saved,
    lemma_poll_written,
};
use crate::laws::runs::{answer_to, calls_fit, entries_after, Call};
use crate::ledger::{contestant_at, next_poll_id, poll_at};
use crate::records::{
    contestant_encoding, lemma_poll_decoding_exact, poll_encoding, ContestantView, PollView,
};
use crate::wire::be64;
use vstd::prelude::*;

verus! {

/// The poll and the contestant that a vote would save are values that the
/// record types can hold. This is so for every store and every caller that
/// the executable functions meet.
pub open spec fn vote_fits(
    entries: Map<Seq<u8>, Seq<u8>>,
    caller: Seq<u8>,
    poll_id: u64,
    contestant_id: u64,
) -> bool {
    &&& voted_poll(poll_at(entries, poll_id).unwrap(), caller).fits()
    &&& voted_contestant(contestant_at(entries, poll_id, contestant_id).unwrap(), caller).fits()
}

/// After a vote has succeeded, the poll and the contestant are read with one
/// vote more each, and with the caller among the voters of both.
pub proof fn lemma_vote_is_read(
    entries: Map<Seq<u8>, Seq<u8>>,
    caller: Seq<u8>,
    poll_id: u64,
    contestant_id: u64,
)
    requires
        vote_result(entries, caller, poll_id, contestant_id) is Ok,
        vote_fits(entries, caller, poll_id, contestant_id),
    ensures
        ({
            let poll = poll_at(entries, poll_id).unwrap();
            let contestant = contestant_at(entries, poll_id, contestant_id).unwrap();
            let after = vote_entries(entries, caller, poll_id, contestant_id);
            &&& poll_at(after, poll_id) == Ok::<PollView, ContractError>(voted_poll(poll, caller))
            &&& contestant_at(after, poll_id, contestant.id) == Ok::<
                ContestantView,
                ContractError,
            >(voted_contestant(contestant, caller))
            &&& voted_poll(poll, caller).votes == poll.votes + 1
            &&& voted_contestant(contestant, caller).votes == contestant.votes + 1
            &&& voted_poll(poll, caller).voters.contains(caller)
            &&& voted_contestant(contestant, caller).voters.contains(caller)
        }),
{
    let poll = poll_at(entries, poll_id).unwrap();
    let contestant = contestant_at(entries, poll_id, contestant_id).unwrap();
    let voted = voted_poll(poll, caller);
    let chosen = voted_contestant(contestant, caller);
    let middle = entries.insert(poll_key(poll_id), poll_encoding(voted));
    lemma_poll_saved(entries, poll_id, voted);
    lemma_contestant_written(middle, poll_id, contestant.id, contestant_encoding(chosen));
    lemma_contestant_saved(middle, poll_id, contestant.id, chosen);
    assert(voted.voters.last() == caller);
    assert(chosen.voters.last() == caller);
}

/// After a vote of a caller in a poll has succeeded, a second vote of that
/// caller in that poll is refused as already cast, whatever contestant it
/// names, and leaves every entry as it is.
pub proof fn lemma_second_vote_refused(
    entries: Map<Seq<u8>, Seq<u8>>,
    caller: Seq<u8>,
    poll_id: u64,
    contestant_id: u64,
    second_contestant_id: u64,
)
    requires
        vote_result(entries, caller, poll_id, contestant_id) is Ok,
        vote_fits(entries, caller, poll_id, contestant_id),
    ensures
        vote_result(
            vote_entries(entries, caller, poll_id, contestant_id),
            caller,
            poll_id,
            second_contestant_id,
        ) == Err::<(), ContractError>(ContractError::AlreadyVoted),
        vote_entries(
            vote_entries(entries, caller, poll_id, contestant_id),
            caller,
            poll_id,
            second_contestant_id,
        ) == vote_entries(entries, caller, poll_id, contestant_id),
{
    let poll = poll_at(entries, poll_id).unwrap();
    let contestant = contestant_at(entries, poll_id, contestant_id).unwrap();
    let voted = voted_poll(poll, caller);
    let middle = entries.insert(poll_key(poll_id), poll_encoding(voted));
    lemma_poll_saved(entries, poll_id, voted);
    lemma_contestant_written(
        middle,
        poll_id,
        contestant.id,
        contestant_encoding(voted_contestant(contestant, caller)),
    );
    assert(voted.voters.last() == caller);
}

/// In a ledger that is in order, no command takes a voter out of a poll.
pub proof fn lemma_voter_stays(
    entries: Map<Seq<u8>, Seq<u8>>,
    call: Call,
    poll_id: u64,
    who: Seq<u8>,
)
    requires
        consistent(entries),
        call.fits(),
        poll_at(entries, poll_id) matches Ok(poll) && poll.voters.contains(who),
    ensures
        poll_at(handle_entries(entries, call.now, call.sender, call.msg), poll_id) matches Ok(
            poll,
        ) && poll.voters.contains(who),
{
    let before = poll_at(entries, poll_id).unwrap();
    assert(poll_consistent(entries, poll_id)) by {
        reveal(consistent);
    }
    lemma_poll_decoding_exact(entries[poll_key(poll_id)]);
    match call.msg {
        HandleMsg::CreatePoll { image, title, description, starts_at, ends_at } => {
            if let Ok(id) = next_poll_id(entries) {
                let counted = entries.insert(counter_key(), be64(id));
                lemma_counter_saved(entries, id);
                lemma_poll_written(
                    counted,
                    id,
                    poll_encoding(
                        new_poll(
                            id,
                            call.sender,
                            call.now,
                            image@,
                            title@,
                            description@,
                            starts_at,
                            ends_at,
                        ),
                    ),
                );
            }
        },
        HandleMsg::UpdatePoll { id, image, title, description, starts_at, ends_at } => {
            if let Ok(poll) = poll_at(entries, id) {
                let updated = updated_poll(
                    poll,
                    image@,
                    title@,
                    description@,
                    starts_at,
                    ends_at,
                );
                lemma_poll_written(entries, id, poll_encoding(updated));
                if id == poll_id {
                    lemma_poll_saved(entries, id, updated);
                }
            }
        },
        HandleMsg::DeletePoll { id } => {
            if let Ok(poll) = poll_at(entries, id) {
                let deleted = PollView { deleted: true, ..poll };
                lemma_poll_written(entries, id, poll_encoding(deleted));
                if id == poll_id {
                    lemma_poll_saved(entries, id, deleted);
                }
            }
        },
        HandleMsg::Contest { poll_id: target, name, avatar } => {
            if let Ok(id) = contest_result(entries, target) {
                let poll = poll_at(entries, target).unwrap();
                let counted = PollView { contestants: id, ..poll };
                lemma_poll_written(entries, target, poll_encoding(counted));
                if target == poll_id {
                    lemma_poll_saved(entries, target, counted);
                }
                lemma_contestant_written(
                    entries.insert(poll_key(target), poll_encoding(counted)),
                    target,
                    id,
                    contestant_encoding(new_contestant(id, call.sender, name@, avatar@)),
                );
            }
        },
        HandleMsg::Vote { poll_id: target, contestant_id } => {
            if vote_result(entries, call.sender, target, contestant_id) is Ok {
                let poll = poll_at(entries, target).unwrap();
                let contestant = contestant_at(entries, target, contestant_id).unwrap();
                let voted = voted_poll(poll, call.sender);
                lemma_vote_values(entries, call.sender, target, contestant_id);
                lemma_poll_written(entries, target, poll_encoding(voted));
                if target == poll_id {
                    lemma_poll_saved(entries, target, voted);
                }
                lemma_contestant_written(
                    entries.insert(poll_key(target), poll_encoding(voted)),
                    target,
                    contestant.id,
                    contestant_encoding(voted_contestant(contestant, call.sender)),
                );
            }
        },
    }
}

/// Over a run of commands on a ledger that is in order, who has voted in a
/// poll stays among its voters.
pub proof fn lemma_voter_stays_over_run(
    start: Map<Seq<u8>, Seq<u8>>,
    calls: Seq<Call>,
    i: int,
    j: int,
    poll_id: u64,
    who: Seq<u8>,
)
    requires
        consistent(start),
        calls_fit(calls),
        0 <= i <= j <= calls.len(),
        poll_at(entries_after(start, calls.take(i)), poll_id) matches Ok(poll)
            && poll.voters.contains(who),
    ensures
        poll_at(entries_after(start, calls.take(j)), poll_id) matches Ok(poll)
            && poll.voters.contains(who),
    decreases j - i,
{
    if i < j {
        lemma_voter_stays_over_run(start, calls, i, j - 1, poll_id, who);
        let earlier = calls.take(j - 1);
        assert(calls.take(j).drop_last() =~= earlier);
        assert(calls.take(j).last() == calls[j - 1]);
        assert forall|k: int| 0 <= k < earlier.len() implies (#[trigger] earlier[k]).fits() by {
            assert(earlier[k] == calls[k]);
        }
        lemma_run_consistent(start, earlier);
        lemma_voter_stays(entries_after(start, earlier), calls[j - 1], poll_id, who);
    }
}

/// A caller votes once in a poll: after a vote of a caller in a poll has
/// succeeded, every later vote of that caller in that poll is refused as
/// already cast, whatever contestant it names and whatever commands came in
/// between.
pub proof fn lemma_one_vote_per_caller(
    start: Map<Seq<u8>, Seq<u8>>,
    calls: Seq<Call>,
    i: int,
    j: int,
    poll_id: u64,
    first_contestant: u64,
    second_contestant: u64,
)
    requires
        consistent(start),
        calls_fit(calls),
        0 <= i < j < calls.len(),
        calls[i].msg == (HandleMsg::Vote { poll_id, contestant_id: first_contestant }),
        calls[j].msg == (HandleMsg::Vote { poll_id, contestant_id: second_contestant }),
        calls[i].sender == calls[j].sender,
        answer_to(start, calls, i) is Ok,
    ensures
        answer_to(start, calls, j) == Err::<HandleResponse, ContractError>(
            ContractError::AlreadyVoted,
        ),
{
    let who = calls[i].sender;
    let earlier = calls.take(i);
    let before = entries_after(start, earlier);
    assert forall|k: int| 0 <= k < earlier.len() implies (#[trigger] earlier[k]).fits() by {
        assert(earlier[k] == calls[k]);
    }
    lemma_run_consistent(start, earlier);
    lemma_vote_values(before, who, poll_id, first_contestant);
    let poll = poll_at(before, poll_id).unwrap();
    let contestant = contestant_at(before, poll_id, first_contestant).unwrap();
    let voted = voted_poll(poll, who);
    lemma_poll_saved(before, poll_id, voted);
    lemma_contestant_written(
        before.insert(poll_key(poll_id), poll_encoding(voted)),
        poll_id,
        contestant.id,
        contestant_encoding(voted_contestant(contestant, who)),
    );
    assert(voted.voters.last() == who);
    assert(calls.take(i + 1).drop_last() =~= earlier);
    assert(calls.take(i + 1).last() == calls[i]);
    lemma_voter_stays_over_run(start, calls, i + 1, j, poll_id, who);
}

} // verus!
