//! What a single write does to what is read: it changes the one record and
//! leaves the rest, and what a command saved is what a query answers.

use crate::contract::{
    contest_entries, contest_result, create_poll_entries, delete_poll_entries, new_contestant,
    new_poll, update_poll_entries, updated_poll,
};
use crate::error::ContractError;
use crate::keys::{
    contestant_key, counter_key, lemma_contestant_key_injective, lemma_key_kinds_apart,
    lemma_poll_key_injective, poll_key,
};
use crate::ledger::{contestant_at, last_poll_id, next_poll_id, poll_at};
use crate::records::{
    contestant_encoding, lemma_contestant_round_trip, lemma_poll_decoding_exact,
    lemma_poll_round_trip, poll_encoding, ContestantView, PollView,
};
use crate::wire::{be64, fits, lemma_be64_value_of_be64, text_fits, utf8_forms};
use vstd::prelude::*;

verus! {

/// Writing under the key of a poll leaves the other polls, the contestants
/// and the counter as they read before.
pub proof fn lemma_poll_written(entries: Map<Seq<u8>, Seq<u8>>, id: u64, value: Seq<u8>)
    ensures
        forall|other: u64|
            other != id ==> #[trigger] poll_at(entries.insert(poll_key(id), value), other)
                == poll_at(entries, other),
        forall|p: u64, c: u64| #[trigger]
            contestant_at(entries.insert(poll_key(id), value), p, c) == contestant_at(
                entries,
                p,
                c,
            ),
        last_poll_id(entries.insert(poll_key(id), value)) == last_poll_id(entries),
{
    let after = entries.insert(poll_key(id), value);
    assert forall|other: u64| other != id implies #[trigger] poll_at(after, other) == poll_at(
        entries,
        other,
    ) by {
        if poll_key(other) == poll_key(id) {
            lemma_poll_key_injective(other, id);
        }
    }
    assert forall|p: u64, c: u64| #[trigger]
        contestant_at(after, p, c) == contestant_at(entries, p, c) by {
        lemma_key_kinds_apart(id, p, c);
    }
    lemma_key_kinds_apart(id, 0, 0);
}

/// A poll that was saved is the poll that is loaded.
pub proof fn lemma_poll_saved(entries: Map<Seq<u8>, Seq<u8>>, id: u64, poll: PollView)
    requires
        poll.fits(),
    ensures
        poll_at(entries.insert(poll_key(id), poll_encoding(poll)), id) == Ok::<
            PollView,
            ContractError,
        >(poll),
{
    lemma_poll_round_trip(poll);
}

/// Writing under the key of a contestant leaves the other contestants, the
/// polls and the counter as they read before.
pub proof fn lemma_contestant_written(
    entries: Map<Seq<u8>, Seq<u8>>,
    poll_id: u64,
    id: u64,
    value: Seq<u8>,
)
    ensures
        forall|p: u64, c: u64|
            (p != poll_id || c != id) ==> #[trigger] contestant_at(
                entries.insert(contestant_key(poll_id, id), value),
                p,
                c,
            ) == contestant_at(entries, p, c),
        forall|other: u64| #[trigger]
            poll_at(entries.insert(contestant_key(poll_id, id), value), other) == poll_at(
                entries,
                other,
            ),
        last_poll_id(entries.insert(contestant_key(poll_id, id), value)) == last_poll_id(entries),
{
    let after = entries.insert(contestant_key(poll_id, id), value);
    assert forall|p: u64, c: u64| (p != poll_id || c != id) implies #[trigger] contestant_at(
        after,
        p,
        c,
    ) == contestant_at(entries, p, c) by {
        if contestant_key(p, c) == contestant_key(poll_id, id) {
            lemma_contestant_key_injective(p, c, poll_id, id);
        }
    }
    assert forall|other: u64| #[trigger] poll_at(after, other) == poll_at(entries, other) by {
        lemma_key_kinds_apart(other, poll_id, id);
    }
    lemma_key_kinds_apart(0, poll_id, id);
}

/// A contestant that was saved is the contestant that is loaded.
pub proof fn lemma_contestant_saved(
    entries: Map<Seq<u8>, Seq<u8>>,
    poll_id: u64,
    id: u64,
    contestant: ContestantView,
)
    requires
        contestant.fits(),
    ensures
        contestant_at(
            entries.insert(contestant_key(poll_id, id), contestant_encoding(contestant)),
            poll_id,
            id,
        ) == Ok::<ContestantView, ContractError>(contestant),
{
    lemma_contestant_round_trip(contestant);
}

/// Saving the counter changes the counter and nothing else: the polls and
/// the contestants read as before.
pub proof fn lemma_counter_saved(entries: Map<Seq<u8>, Seq<u8>>, n: u64)
    ensures
        last_poll_id(entries.insert(counter_key(), be64(n))) == Ok::<u64, ContractError>(n),
        forall|other: u64| #[trigger]
            poll_at(entries.insert(counter_key(), be64(n)), other) == poll_at(entries, other),
        forall|p: u64, c: u64| #[trigger]
            contestant_at(entries.insert(counter_key(), be64(n)), p, c) == contestant_at(
                entries,
                p,
                c,
            ),
{
    let after = entries.insert(counter_key(), be64(n));
    lemma_be64_value_of_be64(n);
    assert forall|other: u64| #[trigger] poll_at(after, other) == poll_at(entries, other) by {
        lemma_key_kinds_apart(other, 0, 0);
    }
    assert forall|p: u64, c: u64| #[trigger]
        contestant_at(after, p, c) == contestant_at(entries, p, c) by {
        lemma_key_kinds_apart(0, p, c);
    }
}

/// A poll without voters, avatars, question or options fits as soon as its
/// texts and its director do.
pub proof fn lemma_new_poll_fits(poll: PollView)
    requires
        text_fits(poll.image),
        text_fits(poll.title),
        text_fits(poll.description),
        fits(poll.director.len()),
        poll.voters.len() == 0,
        poll.avatars.len() == 0,
        poll.question.len() == 0,
        poll.options.len() == 0,
    ensures
        poll.fits(),
{
    assert(utf8_forms(poll.avatars).len() == 0);
    assert(utf8_forms(poll.options).len() == 0);
}

/// The first poll id that an empty store gives out is 1, and no store ever
/// gives out 0.
pub proof fn lemma_first_poll_id(entries: Map<Seq<u8>, Seq<u8>>)
    ensures
        next_poll_id(Map::<Seq<u8>, Seq<u8>>::empty()) == Ok::<u64, ContractError>(1),
        next_poll_id(entries) matches Ok(id) ==> id >= 1,
{
}

/// A poll that was created is the poll that a query for its id answers.
pub proof fn lemma_created_poll_is_read(
    entries: Map<Seq<u8>, Seq<u8>>,
    director: Seq<u8>,
    now: u64,
    image: Seq<char>,
    title: Seq<char>,
    description: Seq<char>,
    starts_at: u64,
    ends_at: u64,
)
    requires
        next_poll_id(entries) is Ok,
        fits(director.len()),
        text_fits(image),
        text_fits(title),
        text_fits(description),
    ensures
        ({
            let id = next_poll_id(entries).unwrap();
            let after = create_poll_entries(
                entries,
                director,
                now,
                image,
                title,
                description,
                starts_at,
                ends_at,
            );
            &&& poll_at(after, id) == Ok::<PollView, ContractError>(
                new_poll(id, director, now, image, title, description, starts_at, ends_at),
            )
            &&& last_poll_id(after) == Ok::<u64, ContractError>(id)
        }),
{
    let id = next_poll_id(entries).unwrap();
    let poll = new_poll(id, director, now, image, title, description, starts_at, ends_at);
    let counted = entries.insert(counter_key(), be64(id));
    lemma_new_poll_fits(poll);
    lemma_counter_saved(entries, id);
    lemma_poll_written(counted, id, poll_encoding(poll));
    lemma_poll_saved(counted, id, poll);
}

/// A poll that was updated is read with its new texts and window, and with
/// its id, its director, its votes and its voters as they were.
pub proof fn lemma_updated_poll_is_read(
    entries: Map<Seq<u8>, Seq<u8>>,
    id: u64,
    image: Seq<char>,
    title: Seq<char>,
    description: Seq<char>,
    starts_at: u64,
    ends_at: u64,
)
    requires
        poll_at(entries, id) is Ok,
        text_fits(image),
        text_fits(title),
        text_fits(description),
    ensures
        ({
            let before = poll_at(entries, id).unwrap();
            let after = poll_at(
                update_poll_entries(entries, id, image, title, description, starts_at, ends_at),
                id,
            );
            &&& after == Ok::<PollView, ContractError>(
                updated_poll(before, image, title, description, starts_at, ends_at),
            )
            &&& after.unwrap().id == before.id
            &&& after.unwrap().director == before.director
            &&& after.unwrap().votes == before.votes
            &&& after.unwrap().voters == before.voters
        }),
{
    let before = poll_at(entries, id).unwrap();
    lemma_poll_decoding_exact(entries[poll_key(id)]);
    lemma_poll_saved(
        entries,
        id,
        updated_poll(before, image, title, description, starts_at, ends_at),
    );
}

/// A poll that was deleted is still read, and is read as deleted.
pub proof fn lemma_deleted_poll_is_read(entries: Map<Seq<u8>, Seq<u8>>, id: u64)
    requires
        poll_at(entries, id) is Ok,
    ensures
        poll_at(delete_poll_entries(entries, id), id) == Ok::<PollView, ContractError>(
            PollView { deleted: true, ..poll_at(entries, id).unwrap() },
        ),
{
    lemma_poll_decoding_exact(entries[poll_key(id)]);
    lemma_poll_saved(entries, id, PollView { deleted: true, ..poll_at(entries, id).unwrap() });
}

/// Deleting a poll twice is deleting it once.
pub proof fn lemma_delete_idempotent(entries: Map<Seq<u8>, Seq<u8>>, id: u64)
    ensures
        delete_poll_entries(delete_poll_entries(entries, id), id) == delete_poll_entries(
            entries,
            id,
        ),
{
    if let Ok(poll) = poll_at(entries, id) {
        let deleted = PollView { deleted: true, ..poll };
        lemma_poll_decoding_exact(entries[poll_key(id)]);
        lemma_poll_saved(entries, id, deleted);
        let once = entries.insert(poll_key(id), poll_encoding(deleted));
        assert(once.insert(poll_key(id), poll_encoding(deleted)) =~= once);
    }
}

/// A contestant that was registered is the contestant that a query for its
/// id answers, and its poll counts it.
pub proof fn lemma_registered_contestant_is_read(
    entries: Map<Seq<u8>, Seq<u8>>,
    creator: Seq<u8>,
    poll_id: u64,
    name: Seq<char>,
    avatar: Seq<char>,
)
    requires
        contest_result(entries, poll_id) is Ok,
        fits(creator.len()),
        text_fits(name),
        text_fits(avatar),
    ensures
        ({
            let id = contest_result(entries, poll_id).unwrap();
            let after = contest_entries(entries, creator, poll_id, name, avatar);
            &&& contestant_at(after, poll_id, id) == Ok::<ContestantView, ContractError>(
                new_contestant(id, creator, name, avatar),
            )
            &&& poll_at(after, poll_id) == Ok::<PollView, ContractError>(
                PollView { contestants: id, ..poll_at(entries, poll_id).unwrap() },
            )
        }),
{
    let id = contest_result(entries, poll_id).unwrap();
    let counted = PollView { contestants: id, ..poll_at(entries, poll_id).unwrap() };
    let contestant = new_contestant(id, creator, name, avatar);
    let middle = entries.insert(poll_key(poll_id), poll_encoding(counted));
    lemma_poll_decoding_exact(entries[poll_key(poll_id)]);
    lemma_poll_saved(entries, poll_id, counted);
    lemma_contestant_written(middle, poll_id, id, contestant_encoding(contestant));
    lemma_contestant_saved(middle, poll_id, id, contestant);
}

} // verus!
