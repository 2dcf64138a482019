//! The order that every command keeps: counts that agree with the voters
//! they count, records that carry the ids of their keys, and contestants
//! whose voters are voters of their poll.

use crate::contract::{
    contest_entries, contest_result, create_poll_entries, delete_poll_entries, handle_entries,
    new_contestant, new_poll, update_poll_entries, updated_poll, vote_entries, vote_result,
    voted_contestant, voted_poll, HandleMsg,
};
use crate::error::ContractError;
use crate::keys::{contestant_key, counter_key, poll_key};
use crate::laws::frame::{
    lemma_contestant_saved, lemma_contestant_written, lemma_counter_saved, lemma_new_poll_fits,
    lemma_poll_saved, lemma_poll_written,
};
use crate::laws::runs::{calls_fit, entries_after, Call};
use crate::ledger::{contestant_at, last_poll_id, next_poll_id, poll_at};
use crate::records::{
    contestant_encoding, lemma_contestant_decoding_exact, lemma_poll_decoding_exact, poll_encoding,
    ContestantView, PollView,
};
use crate::wire::{be64, fits, list_fits, text_fits};
use vstd::prelude::*;

verus! {

/// If the store holds the poll `id`, then it can be read, it carries its
/// id, that id was given out by the counter, and its number of votes is the
/// number of its voters, none of whom occurs twice.
pub open spec fn poll_consistent(entries: Map<Seq<u8>, Seq<u8>>, id: u64) -> bool {
    poll_at(entries, id) != Err::<PollView, ContractError>(ContractError::NotFound) ==> {
        &&& poll_at(entries, id) matches Ok(poll)
        &&& poll.id == id
        &&& last_poll_id(entries) matches Ok(last)
        &&& 1 <= id <= last
        &&& poll.votes == poll.voters.len()
        &&& poll.voters.no_duplicates()
    }
}

/// If the store holds the contestant `id` of the poll `poll_id`, then it can
/// be read, it carries its id, its number of votes is the number of its
/// voters, none of whom occurs twice, and its poll is in the store and holds
/// each of them among its own voters.
pub open spec fn contestant_consistent(
    entries: Map<Seq<u8>, Seq<u8>>,
    poll_id: u64,
    id: u64,
) -> bool {
    contestant_at(entries, poll_id, id) != Err::<ContestantView, ContractError>(
        ContractError::NotFound,
    ) ==> {
        &&& contestant_at(entries, poll_id, id) matches Ok(contestant)
        &&& contestant.id == id
        &&& contestant.votes == contestant.voters.len()
        &&& contestant.voters.no_duplicates()
        &&& poll_at(entries, poll_id) matches Ok(poll)
        &&& forall|a: Seq<u8>| contestant.voters.contains(a) ==> poll.voters.contains(a)
    }
}

/// `key` is the key of the counter, of a poll or of a contestant.
pub open spec fn is_ledger_key(key: Seq<u8>) -> bool {
    ||| key == counter_key()
    ||| exists|id: u64| key == #[trigger] poll_key(id)
    ||| exists|poll_id: u64, id: u64| key == #[trigger] contestant_key(poll_id, id)
}

/// The ledger is in order: the counter can be read, every poll and every
/// contestant in the store is consistent, and the store holds nothing else.
#[verifier::opaque]
pub open spec fn consistent(entries: Map<Seq<u8>, Seq<u8>>) -> bool {
    &&& last_poll_id(entries) is Ok
    &&& forall|id: u64| #[trigger] poll_consistent(entries, id)
    &&& forall|poll_id: u64, id: u64| #[trigger] contestant_consistent(entries, poll_id, id)
    &&& forall|key: Seq<u8>| #[trigger] entries.contains_key(key) ==> is_ledger_key(key)
}

/// An empty store is in order.
pub proof fn lemma_empty_consistent()
    ensures
        consistent(Map::<Seq<u8>, Seq<u8>>::empty()),
{
    reveal(consistent);
}

/// Saving a poll in place of one that is there keeps the ledger in order, as
/// long as the new one carries the id, counts its voters, and has lost none
/// of the voters of the old one.
pub proof fn lemma_poll_replaced(entries: Map<Seq<u8>, Seq<u8>>, id: u64, poll: PollView)
    requires
        consistent(entries),
        poll_at(entries, id) is Ok,
        poll.fits(),
        poll.id == id,
        poll.votes == poll.voters.len(),
        poll.voters.no_duplicates(),
        forall|a: Seq<u8>|
            poll_at(entries, id).unwrap().voters.contains(a) ==> poll.voters.contains(a),
    ensures
        consistent(entries.insert(poll_key(id), poll_encoding(poll))),
{
    reveal(consistent);
    let after = entries.insert(poll_key(id), poll_encoding(poll));
    lemma_poll_written(entries, id, poll_encoding(poll));
    lemma_poll_saved(entries, id, poll);
    assert(poll_consistent(entries, id));
    assert forall|other: u64| #[trigger] poll_consistent(after, other) by {
        assert(poll_consistent(entries, other));
    }
    assert forall|p: u64, c: u64| #[trigger] contestant_consistent(after, p, c) by {
        assert(contestant_consistent(entries, p, c));
    }
    assert forall|key: Seq<u8>| #[trigger] after.contains_key(key) implies is_ledger_key(key) by {
        if key != poll_key(id) {
            assert(entries.contains_key(key));
        }
    }
}

/// Saving a contestant keeps the ledger in order, as long as it carries its
/// id, counts its voters, and its poll is there and holds all of them.
pub proof fn lemma_contestant_placed(
    entries: Map<Seq<u8>, Seq<u8>>,
    poll_id: u64,
    id: u64,
    contestant: ContestantView,
)
    requires
        consistent(entries),
        poll_at(entries, poll_id) is Ok,
        contestant.fits(),
        contestant.id == id,
        contestant.votes == contestant.voters.len(),
        contestant.voters.no_duplicates(),
        forall|a: Seq<u8>|
            contestant.voters.contains(a) ==> poll_at(entries, poll_id).unwrap().voters.contains(
                a,
            ),
    ensures
        consistent(entries.insert(contestant_key(poll_id, id), contestant_encoding(contestant))),
{
    reveal(consistent);
    let after = entries.insert(contestant_key(poll_id, id), contestant_encoding(contestant));
    lemma_contestant_written(entries, poll_id, id, contestant_encoding(contestant));
    lemma_contestant_saved(entries, poll_id, id, contestant);
    assert forall|other: u64| #[trigger] poll_consistent(after, other) by {
        assert(poll_consistent(entries, other));
    }
    assert forall|p: u64, c: u64| #[trigger] contestant_consistent(after, p, c) by {
        assert(contestant_consistent(entries, p, c));
    }
    assert forall|key: Seq<u8>| #[trigger] after.contains_key(key) implies is_ledger_key(key) by {
        if key != contestant_key(poll_id, id) {
            assert(entries.contains_key(key));
        }
    }
}

/// Giving out the next poll id and saving a fresh poll under it keeps the
/// ledger in order.
pub proof fn lemma_poll_created(entries: Map<Seq<u8>, Seq<u8>>, id: u64, poll: PollView)
    requires
        consistent(entries),
        next_poll_id(entries) == Ok::<u64, ContractError>(id),
        poll.fits(),
        poll.id == id,
        poll.votes == 0,
        poll.voters.len() == 0,
    ensures
        consistent(
            entries.insert(counter_key(), be64(id)).insert(poll_key(id), poll_encoding(poll)),
        ),
{
    reveal(consistent);
    let counted = entries.insert(counter_key(), be64(id));
    let after = counted.insert(poll_key(id), poll_encoding(poll));
    lemma_counter_saved(entries, id);
    lemma_poll_written(counted, id, poll_encoding(poll));
    lemma_poll_saved(counted, id, poll);
    assert(poll_consistent(entries, id));
    assert forall|other: u64| #[trigger] poll_consistent(after, other) by {
        assert(poll_consistent(entries, other));
    }
    assert forall|p: u64, c: u64| #[trigger] contestant_consistent(after, p, c) by {
        assert(contestant_consistent(entries, p, c));
        assert(poll_consistent(entries, p));
    }
    assert forall|key: Seq<u8>| #[trigger] after.contains_key(key) implies is_ledger_key(key) by {
        if key != poll_key(id) && key != counter_key() {
            assert(entries.contains_key(key));
        }
    }
}

/// Creating a poll keeps the ledger in order.
pub proof fn lemma_create_keeps(
    entries: Map<Seq<u8>, Seq<u8>>,
    director: Seq<u8>,
    now: u64,
    image: Seq<char>,
    title: Seq<char>,
    description: Seq<char>,
    starts_at: u64,
    ends_at: u64,
)
    requires
        consistent(entries),
        fits(director.len()),
        text_fits(image),
        text_fits(title),
        text_fits(description),
    ensures
        consistent(
            create_poll_entries(
                entries,
                director,
                now,
                image,
                title,
                description,
                starts_at,
                ends_at,
            ),
        ),
{
    if let Ok(id) = next_poll_id(entries) {
        let poll = new_poll(id, director, now, image, title, description, starts_at, ends_at);
        lemma_new_poll_fits(poll);
        lemma_poll_created(entries, id, poll);
    }
}

/// Updating a poll keeps the ledger in order.
pub proof fn lemma_update_keeps(
    entries: Map<Seq<u8>, Seq<u8>>,
    id: u64,
    image: Seq<char>,
    title: Seq<char>,
    description: Seq<char>,
    starts_at: u64,
    ends_at: u64,
)
    requires
        consistent(entries),
        text_fits(image),
        text_fits(title),
        text_fits(description),
    ensures
        consistent(
            update_poll_entries(entries, id, image, title, description, starts_at, ends_at),
        ),
{
    if let Ok(poll) = poll_at(entries, id) {
        assert(poll_consistent(entries, id)) by {
            reveal(consistent);
        }
        lemma_poll_decoding_exact(entries[poll_key(id)]);
        lemma_poll_replaced(
            entries,
            id,
            updated_poll(poll, image, title, description, starts_at, ends_at),
        );
    }
}

/// Deleting a poll keeps the ledger in order.
pub proof fn lemma_delete_keeps(entries: Map<Seq<u8>, Seq<u8>>, id: u64)
    requires
        consistent(entries),
    ensures
        consistent(delete_poll_entries(entries, id)),
{
    if let Ok(poll) = poll_at(entries, id) {
        assert(poll_consistent(entries, id)) by {
            reveal(consistent);
        }
        lemma_poll_decoding_exact(entries[poll_key(id)]);
        lemma_poll_replaced(entries, id, PollView { deleted: true, ..poll });
    }
}

/// Registering a contestant keeps the ledger in order.
pub proof fn lemma_contest_keeps(
    entries: Map<Seq<u8>, Seq<u8>>,
    creator: Seq<u8>,
    poll_id: u64,
    name: Seq<char>,
    avatar: Seq<char>,
)
    requires
        consistent(entries),
        fits(creator.len()),
        text_fits(name),
        text_fits(avatar),
    ensures
        consistent(contest_entries(entries, creator, poll_id, name, avatar)),
{
    if let Ok(id) = contest_result(entries, poll_id) {
        let poll = poll_at(entries, poll_id).unwrap();
        let counted = PollView { contestants: id, ..poll };
        let contestant = new_contestant(id, creator, name, avatar);
        assert(poll_consistent(entries, poll_id)) by {
            reveal(consistent);
        }
        lemma_poll_decoding_exact(entries[poll_key(poll_id)]);
        lemma_poll_replaced(entries, poll_id, counted);
        lemma_poll_saved(entries, poll_id, counted);
        lemma_contestant_placed(
            entries.insert(poll_key(poll_id), poll_encoding(counted)),
            poll_id,
            id,
            contestant,
        );
    }
}

/// Adding one who is not among the voters keeps every voter in, keeps the
/// voters free of doubles, and the added one is among them.
proof fn lemma_voter_added(voters: Seq<Seq<u8>>, who: Seq<u8>)
    requires
        voters.no_duplicates(),
        !voters.contains(who),
    ensures
        voters.push(who).no_duplicates(),
        voters.push(who).contains(who),
        forall|a: Seq<u8>| voters.contains(a) ==> voters.push(who).contains(a),
        forall|a: Seq<u8>| voters.push(who).contains(a) ==> a == who || voters.contains(a),
{
    let more = voters.push(who);
    assert(more[voters.len() as int] == who);
    assert forall|a: Seq<u8>| voters.contains(a) implies more.contains(a) by {
        let i = choose|i: int| 0 <= i < voters.len() && voters[i] == a;
        assert(more[i] == a);
    }
    assert forall|i: int, j: int|
        0 <= i < more.len() && 0 <= j < more.len() && i != j implies more[i] != more[j] by {
        if i < voters.len() && j < voters.len() {
        } else if i < voters.len() {
            assert(voters.contains(voters[i]));
        } else {
            assert(voters.contains(voters[j]));
        }
    }
}

/// A list that fits, with one more item that fits, fits as long as its
/// count does.
proof fn lemma_list_grown(items: Seq<Seq<u8>>, last: Seq<u8>)
    requires
        list_fits(items),
        fits(last.len()),
        items.len() < u64::MAX,
    ensures
        list_fits(items.push(last)),
{
    let more = items.push(last);
    assert forall|i: int| 0 <= i < more.len() implies fits(#[trigger] more[i].len()) by {
        if i < items.len() {
            assert(more[i] == items[i]);
        }
    }
}

/// In a ledger that is in order, the poll and the contestant that a vote
/// saves fit, carry their ids, count their voters, and the voters of the
/// contestant are among those of the poll, which has lost none.
pub proof fn lemma_vote_values(
    entries: Map<Seq<u8>, Seq<u8>>,
    caller: Seq<u8>,
    poll_id: u64,
    contestant_id: u64,
)
    requires
        consistent(entries),
        fits(caller.len()),
        vote_result(entries, caller, poll_id, contestant_id) is Ok,
    ensures
        ({
            let poll = poll_at(entries, poll_id).unwrap();
            let contestant = contestant_at(entries, poll_id, contestant_id).unwrap();
            let voted = voted_poll(poll, caller);
            let chosen = voted_contestant(contestant, caller);
            &&& voted.fits()
            &&& voted.id == poll_id
            &&& voted.votes == voted.voters.len()
            &&& voted.voters.no_duplicates()
            &&& forall|a: Seq<u8>| poll.voters.contains(a) ==> voted.voters.contains(a)
            &&& chosen.fits()
            &&& chosen.id == contestant_id
            &&& chosen.votes == chosen.voters.len()
            &&& chosen.voters.no_duplicates()
            &&& forall|a: Seq<u8>| chosen.voters.contains(a) ==> voted.voters.contains(a)
        }),
{
    let poll = poll_at(entries, poll_id).unwrap();
    let contestant = contestant_at(entries, poll_id, contestant_id).unwrap();
    assert(poll_consistent(entries, poll_id) && contestant_consistent(
        entries,
        poll_id,
        contestant_id,
    )) by {
        reveal(consistent);
    }
    lemma_poll_decoding_exact(entries[poll_key(poll_id)]);
    lemma_contestant_decoding_exact(entries[contestant_key(poll_id, contestant_id)]);
    lemma_voter_added(poll.voters, caller);
    lemma_voter_added(contestant.voters, caller);
    lemma_list_grown(poll.voters, caller);
    lemma_list_grown(contestant.voters, caller);
    let voted = voted_poll(poll, caller);
    let chosen = voted_contestant(contestant, caller);
    assert forall|a: Seq<u8>| chosen.voters.contains(a) implies voted.voters.contains(a) by {
        if a != caller {
            assert(contestant.voters.contains(a));
            assert(poll.voters.contains(a));
        }
    }
}

/// Casting a vote keeps the ledger in order.
pub proof fn lemma_vote_keeps(
    entries: Map<Seq<u8>, Seq<u8>>,
    caller: Seq<u8>,
    poll_id: u64,
    contestant_id: u64,
)
    requires
        consistent(entries),
        fits(caller.len()),
    ensures
        consistent(vote_entries(entries, caller, poll_id, contestant_id)),
{
    if vote_result(entries, caller, poll_id, contestant_id) is Ok {
        let poll = poll_at(entries, poll_id).unwrap();
        let contestant = contestant_at(entries, poll_id, contestant_id).unwrap();
        let voted = voted_poll(poll, caller);
        let chosen = voted_contestant(contestant, caller);
        lemma_vote_values(entries, caller, poll_id, contestant_id);
        lemma_poll_replaced(entries, poll_id, voted);
        lemma_poll_saved(entries, poll_id, voted);
        lemma_contestant_placed(
            entries.insert(poll_key(poll_id), poll_encoding(voted)),
            poll_id,
            contestant_id,
            chosen,
        );
    }
}

/// A command keeps the ledger in order.
pub proof fn lemma_consistency_kept(entries: Map<Seq<u8>, Seq<u8>>, call: Call)
    requires
        consistent(entries),
        call.fits(),
    ensures
        consistent(handle_entries(entries, call.now, call.sender, call.msg)),
{
    match call.msg {
        HandleMsg::CreatePoll { image, title, description, starts_at, ends_at } => {
            lemma_create_keeps(
                entries,
                call.sender,
                call.now,
                image@,
                title@,
                description@,
                starts_at,
                ends_at,
            );
        },
        HandleMsg::UpdatePoll { id, image, title, description, starts_at, ends_at } => {
            lemma_update_keeps(entries, id, image@, title@, description@, starts_at, ends_at);
        },
        HandleMsg::DeletePoll { id } => {
            lemma_delete_keeps(entries, id);
        },
        HandleMsg::Contest { poll_id, name, avatar } => {
            lemma_contest_keeps(entries, call.sender, poll_id, name@, avatar@);
        },
        HandleMsg::Vote { poll_id, contestant_id } => {
            lemma_vote_keeps(entries, call.sender, poll_id, contestant_id);
        },
    }
}

/// A run of commands on a ledger that is in order leaves it in order.
pub proof fn lemma_run_consistent(start: Map<Seq<u8>, Seq<u8>>, calls: Seq<Call>)
    requires
        consistent(start),
        calls_fit(calls),
    ensures
        consistent(entries_after(start, calls)),
    decreases calls.len(),
{
    if calls.len() > 0 {
        let earlier = calls.drop_last();
        assert forall|i: int| 0 <= i < earlier.len() implies (#[trigger] earlier[i]).fits() by {
            assert(earlier[i] == calls[i]);
        }
        lemma_run_consistent(start, earlier);
        lemma_consistency_kept(entries_after(start, earlier), calls.last());
    }
}

/// In every state that commands can bring an empty store to, the votes of a
/// poll are as many as its voters, the votes of each of its contestants are
/// as many as the voters of that contestant, and whoever voted for a
/// contestant is among the voters of the poll.
pub proof fn lemma_aggregates_agree(calls: Seq<Call>, poll_id: u64, contestant_id: u64)
    requires
        calls_fit(calls),
    ensures
        ({
            let entries = entries_after(Map::empty(), calls);
            &&& poll_at(entries, poll_id) matches Ok(poll) ==> {
                &&& poll.votes == poll.voters.len()
                &&& poll.votes == poll.voters.to_set().len()
            }
            &&& contestant_at(entries, poll_id, contestant_id) matches Ok(contestant) ==> {
                &&& contestant.votes == contestant.voters.len()
                &&& contestant.votes == contestant.voters.to_set().len()
                &&& poll_at(entries, poll_id) matches Ok(poll)
                &&& contestant.voters.to_set().subset_of(poll.voters.to_set())
            }
        }),
{
    let entries = entries_after(Map::empty(), calls);
    lemma_empty_consistent();
    lemma_run_consistent(Map::empty(), calls);
    assert(poll_consistent(entries, poll_id) && contestant_consistent(
        entries,
        poll_id,
        contestant_id,
    )) by {
        reveal(consistent);
    }
    if let Ok(poll) = poll_at(entries, poll_id) {
        poll.voters.unique_seq_to_set();
    }
    if let Ok(contestant) = contestant_at(entries, poll_id, contestant_id) {
        contestant.voters.unique_seq_to_set();
        let poll = poll_at(entries, poll_id).unwrap();
        assert forall|a: Seq<u8>|
            contestant.voters.to_set().contains(a) implies poll.voters.to_set().contains(a) by {
            assert(contestant.voters.contains(a));
            assert(poll.voters.contains(a));
        }
    }
}

} // verus!
