//! The ledger as it lies in the store: which poll, which contestant and
//! which counter value a given set of entries holds, and the functions that
//! load and save them.

use crate::error::ContractError;
use crate::keys::{
    contestant_key, contestant_key_bytes, contestant_prefix, contestant_prefix_bytes,
    counter_key, counter_key_bytes, poll_key, poll_key_bytes, poll_prefix, poll_prefix_bytes,
};
use crate::records::{
    contestant_decoding, contestant_encoding, decode_contestant, decode_poll,
    encode_contestant, encode_poll, poll_decoding, poll_encoding, ContestantStruct,
    ContestantView, PollStruct, PollView,
};
use crate::store::{has_listing, listing, pairs, scan, store_get, store_set, stored};
use crate::wire::{be64, be64_value, lemma_be64_value_of_be64, put_u64, take_u64};
use cosmwasm_std::MemoryStorage;
use vstd::prelude::*;

verus! {

/// The poll `id` of a store with these entries: not found where its key has
/// no entry, malformed where the entry is not the encoding of a poll.
pub open spec fn poll_at(entries: Map<Seq<u8>, Seq<u8>>, id: u64) -> Result<
    PollView,
    ContractError,
> {
    if !entries.contains_key(poll_key(id)) {
        Err(ContractError::NotFound)
    } else {
        match poll_decoding(entries[poll_key(id)]) {
            Some(p) => Ok(p),
            None => Err(ContractError::MalformedRecord),
        }
    }
}

/// The contestant `id` of the poll `poll_id` of a store with these entries:
/// not found where its key has no entry, malformed where the entry is not the
/// encoding of a contestant.
pub open spec fn contestant_at(entries: Map<Seq<u8>, Seq<u8>>, poll_id: u64, id: u64) -> Result<
    ContestantView,
    ContractError,
> {
    if !entries.contains_key(contestant_key(poll_id, id)) {
        Err(ContractError::NotFound)
    } else {
        match contestant_decoding(entries[contestant_key(poll_id, id)]) {
            Some(c) => Ok(c),
            None => Err(ContractError::MalformedRecord),
        }
    }
}

/// The poll id that was given out last: 0 where the counter has no entry
/// yet, malformed where its entry is not the eight bytes of an integer.
pub open spec fn last_poll_id(entries: Map<Seq<u8>, Seq<u8>>) -> Result<u64, ContractError> {
    if !entries.contains_key(counter_key()) {
        Ok(0)
    } else if entries[counter_key()].len() == 8 {
        Ok(be64_value(entries[counter_key()]))
    } else {
        Err(ContractError::MalformedRecord)
    }
}

/// The poll id that is given out next: one more than the last. None is left
/// once `u64::MAX` was given out.
pub open spec fn next_poll_id(entries: Map<Seq<u8>, Seq<u8>>) -> Result<u64, ContractError> {
    match last_poll_id(entries) {
        Ok(last) => if last < u64::MAX {
            Ok((last + 1) as u64)
        } else {
            Err(ContractError::StorageFailure)
        },
        Err(e) => Err(e),
    }
}

/// The polls that `records` hold, in their order; malformed where one of
/// them is not the encoding of a poll.
pub open spec fn polls_in(records: Seq<(Seq<u8>, Seq<u8>)>) -> Result<
    Seq<PollView>,
    ContractError,
> {
    if forall|i: int| 0 <= i < records.len() ==> poll_decoding((#[trigger] records[i]).1) is Some {
        Ok(records.map_values(|r: (Seq<u8>, Seq<u8>)| poll_decoding(r.1).unwrap()))
    } else {
        Err(ContractError::MalformedRecord)
    }
}

/// The contestants that `records` hold, in their order; malformed where one
/// of them is not the encoding of a contestant.
pub open spec fn contestants_in(records: Seq<(Seq<u8>, Seq<u8>)>) -> Result<
    Seq<ContestantView>,
    ContractError,
> {
    if forall|i: int|
        0 <= i < records.len() ==> contestant_decoding((#[trigger] records[i]).1) is Some {
        Ok(records.map_values(|r: (Seq<u8>, Seq<u8>)| contestant_decoding(r.1).unwrap()))
    } else {
        Err(ContractError::MalformedRecord)
    }
}

/// All polls of a store with these entries, in ascending order of their
/// keys, deleted ones included.
pub open spec fn all_polls(entries: Map<Seq<u8>, Seq<u8>>) -> Result<Seq<PollView>, ContractError> {
    polls_in(listing(entries, poll_prefix()))
}

/// The contestants of the poll `poll_id` of a store with these entries, in
/// ascending order of their keys.
pub open spec fn contestants_of(entries: Map<Seq<u8>, Seq<u8>>, poll_id: u64) -> Result<
    Seq<ContestantView>,
    ContractError,
> {
    contestants_in(listing(entries, contestant_prefix(poll_id)))
}

/// What a loaded poll, or the failure to load one, is as a mathematical value.
pub open spec fn poll_outcome(r: Result<PollStruct, ContractError>) -> Result<
    PollView,
    ContractError,
> {
    match r {
        Ok(p) => Ok(p@),
        Err(e) => Err(e),
    }
}

/// What a loaded contestant, or the failure to load one, is as a mathematical value.
pub open spec fn contestant_outcome(r: Result<ContestantStruct, ContractError>) -> Result<
    ContestantView,
    ContractError,
> {
    match r {
        Ok(c) => Ok(c@),
        Err(e) => Err(e),
    }
}

/// The polls that a vector holds.
pub open spec fn poll_views(polls: Seq<PollStruct>) -> Seq<PollView> {
    polls.map_values(|p: PollStruct| p@)
}

/// The contestants that a vector holds.
pub open spec fn contestant_views(contestants: Seq<ContestantStruct>) -> Seq<ContestantView> {
    contestants.map_values(|c: ContestantStruct| c@)
}

/// What a loaded list of polls, or the failure to load it, is as a mathematical value.
pub open spec fn polls_outcome(r: Result<Vec<PollStruct>, ContractError>) -> Result<
    Seq<PollView>,
    ContractError,
> {
    match r {
        Ok(polls) => Ok(poll_views(polls@)),
        Err(e) => Err(e),
    }
}

/// What a loaded list of contestants, or the failure to load it, is as a
/// mathematical value.
pub open spec fn contestants_outcome(r: Result<Vec<ContestantStruct>, ContractError>) -> Result<
    Seq<ContestantView>,
    ContractError,
> {
    match r {
        Ok(contestants) => Ok(contestant_views(contestants@)),
        Err(e) => Err(e),
    }
}

/// Loads the poll `id`.
pub fn load_poll(store: &MemoryStorage, id: u64) -> (r: Result<PollStruct, ContractError>)
    ensures
        poll_outcome(r) == poll_at(stored(*store), id),
{
    let key = poll_key_bytes(id);
    match store_get(store, key.as_slice()) {
        Some(bytes) => decode_poll(bytes.as_slice()),
        None => Err(ContractError::NotFound),
    }
}

/// Saves `poll` under the key of the poll `id`; every other entry stays as
/// it is.
pub fn set_poll(store: &mut MemoryStorage, id: u64, poll: &PollStruct)
    ensures
        stored(*final(store)) == stored(*old(store)).insert(poll_key(id), poll_encoding(poll@)),
        poll@.fits(),
{
    let key = poll_key_bytes(id);
    let value = encode_poll(poll);
    store_set(store, key.as_slice(), value.as_slice());
}

/// Loads the contestant `contestant_id` of the poll `poll_id`.
pub fn load_contestant(store: &MemoryStorage, poll_id: u64, contestant_id: u64) -> (r: Result<
    ContestantStruct,
    ContractError,
>)
    ensures
        contestant_outcome(r) == contestant_at(stored(*store), poll_id, contestant_id),
{
    let key = contestant_key_bytes(poll_id, contestant_id);
    match store_get(store, key.as_slice()) {
        Some(bytes) => decode_contestant(bytes.as_slice()),
        None => Err(ContractError::NotFound),
    }
}

/// Saves `contestant` under its key among the contestants of the poll
/// `poll_id`; every other entry stays as it is.
pub fn set_contestant(store: &mut MemoryStorage, poll_id: u64, contestant: &ContestantStruct)
    ensures
        stored(*final(store)) == stored(*old(store)).insert(
            contestant_key(poll_id, contestant.id),
            contestant_encoding(contestant@),
        ),
        contestant@.fits(),
{
    let key = contestant_key_bytes(poll_id, contestant.id);
    let value = encode_contestant(contestant);
    store_set(store, key.as_slice(), value.as_slice());
}

/// Gives out the next poll id and records it as the last one given out.
/// Where none can be given out, the store stays as it is.
pub fn generate_unique_poll_id(store: &mut MemoryStorage) -> (r: Result<u64, ContractError>)
    ensures
        r == next_poll_id(stored(*old(store))),
        stored(*final(store)) == match r {
            Ok(id) => stored(*old(store)).insert(counter_key(), be64(id)),
            Err(_) => stored(*old(store)),
        },
{
    let key = counter_key_bytes();
    let count: u64 = match store_get(store, key.as_slice()) {
        Some(bytes) => {
            if bytes.len() != 8 {
                return Err(ContractError::MalformedRecord);
            }
            match take_u64(bytes.as_slice()) {
                Some((n, _)) => {
                    assert(bytes@.take(8) =~= bytes@);
                    n
                },
                None => { return Err(ContractError::MalformedRecord); },
            }
        },
        None => 0,
    };
    if count == u64::MAX {
        return Err(ContractError::StorageFailure);
    }
    let new_count: u64 = count + 1;
    let mut value: Vec<u8> = Vec::new();
    put_u64(&mut value, new_count);
    proof {
        lemma_be64_value_of_be64(new_count);
        assert(value@ =~= be64(new_count));
    }
    store_set(store, key.as_slice(), value.as_slice());
    Ok(new_count)
}

/// Loads all polls, in ascending order of their ids, deleted ones included.
pub fn load_all_polls(store: &MemoryStorage) -> (r: Result<Vec<PollStruct>, ContractError>)
    ensures
        polls_outcome(r) == all_polls(stored(*store)),
        has_listing(stored(*store), poll_prefix()),
{
    let prefix = poll_prefix_bytes();
    let records = scan(store, &prefix);
    let ghost found = pairs(records@);
    let mut polls: Vec<PollStruct> = Vec::new();
    let mut i: usize = 0;
    while i < records.len()
        invariant
            i <= records.len(),
            found == pairs(records@),
            found == listing(stored(*store), poll_prefix()),
            has_listing(stored(*store), poll_prefix()),
            polls@.len() == i,
            forall|j: int|
                0 <= j < i ==> poll_decoding((#[trigger] found[j]).1) == Some(polls@[j]@),
        decreases records.len() - i,
    {
        assert(found[i as int].1 == records@[i as int].1@);
        match decode_poll(records[i].1.as_slice()) {
            Ok(poll) => {
                polls.push(poll);
            },
            Err(e) => {
                assert(poll_decoding(found[i as int].1) is None);
                return Err(e);
            },
        }
        i += 1;
    }
    assert(poll_views(polls@) =~= polls_in(found).unwrap());
    Ok(polls)
}

/// Loads the contestants of the poll `poll_id`, in ascending order of their keys.
pub fn load_contestants(store: &MemoryStorage, poll_id: u64) -> (r: Result<
    Vec<ContestantStruct>,
    ContractError,
>)
    ensures
        contestants_outcome(r) == contestants_of(stored(*store), poll_id),
        has_listing(stored(*store), contestant_prefix(poll_id)),
{
    let prefix = contestant_prefix_bytes(poll_id);
    let records = scan(store, &prefix);
    let ghost found = pairs(records@);
    let mut contestants: Vec<ContestantStruct> = Vec::new();
    let mut i: usize = 0;
    while i < records.len()
        invariant
            i <= records.len(),
            found == pairs(records@),
            found == listing(stored(*store), contestant_prefix(poll_id)),
            has_listing(stored(*store), contestant_prefix(poll_id)),
            contestants@.len() == i,
            forall|j: int|
                0 <= j < i ==> contestant_decoding((#[trigger] found[j]).1) == Some(
                    contestants@[j]@,
                ),
        decreases records.len() - i,
    {
        assert(found[i as int].1 == records@[i as int].1@);
        match decode_contestant(records[i].1.as_slice()) {
            Ok(contestant) => {
                contestants.push(contestant);
            },
            Err(e) => {
                assert(contestant_decoding(found[i as int].1) is None);
                return Err(e);
            },
        }
        i += 1;
    }
    assert(contestant_views(contestants@) =~= contestants_in(found).unwrap());
    Ok(contestants)
}

} // verus!
