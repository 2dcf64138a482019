//! The commands that change the ledger and the queries that read it.
//!
//! Each command comes with two `spec` functions: what it answers on a store
//! with given entries, and the entries it leaves behind. A command that
//! fails leaves the store as it found it.

use crate::error::ContractError;
use crate::keys::{contestant_key, counter_key, poll_key};
use crate::ledger::{
    all_polls, contestant_at, contestant_views, contestants_of, generate_unique_poll_id,
    load_all_polls, load_contestant, load_contestants, load_poll, next_poll_id, poll_at,
    poll_views, set_contestant, set_poll,
};
use crate::records::{contestant_encoding, poll_encoding, ContestantView, PollView};
pub use crate::records::{ContestantStruct, PollStruct};
use crate::store::stored;
use crate::wire::{be64, byte_strings};
use cosmwasm_std::MemoryStorage;
use vstd::prelude::*;

verus! {

/// Sets the ledger up. It needs nothing.
#[derive(Clone, Debug, PartialEq, Eq)]
pub struct InitMsg {}

/// A command.
#[derive(Clone, Debug, PartialEq, Eq)]
pub enum HandleMsg {
    CreatePoll { image: String, title: String, description: String, starts_at: u64, ends_at: u64 },
    UpdatePoll {
        id: u64,
        image: String,
        title: String,
        description: String,
        starts_at: u64,
        ends_at: u64,
    },
    DeletePoll { id: u64 },
    Contest { poll_id: u64, name: String, avatar: String },
    Vote { poll_id: u64, contestant_id: u64 },
}

/// A query.
#[derive(Clone, Debug, PartialEq, Eq)]
pub enum QueryMsg {
    GetPolls {},
    GetPoll { id: u64 },
    GetContestants { poll_id: u64 },
    GetContestant { poll_id: u64, contestant_id: u64 },
}

/// What a command answers when it succeeds.
#[derive(Clone, Copy, Debug, PartialEq, Eq, Structural)]
pub enum HandleResponse {
    /// The command was carried out; there is nothing more to say.
    Empty,
    /// A poll was created under this id.
    PollCreated { id: u64 },
    /// A contestant was registered under this id within its poll.
    ContestantRegistered { id: u64 },
}

/// What a query answers when it succeeds.
#[derive(Clone, Debug, PartialEq, Eq)]
pub enum QueryResponse {
    Polls(Vec<PollStruct>),
    Poll(PollStruct),
    Contestants(Vec<ContestantStruct>),
    Contestant(ContestantStruct),
}

/// What a `QueryResponse` holds, as mathematical values.
#[verifier::ext_equal]
pub enum QueryResponseView {
    Polls(Seq<PollView>),
    Poll(PollView),
    Contestants(Seq<ContestantView>),
    Contestant(ContestantView),
}

impl View for QueryResponse {
    type V = QueryResponseView;

    open spec fn view(&self) -> QueryResponseView {
        match self {
            QueryResponse::Polls(polls) => QueryResponseView::Polls(poll_views(polls@)),
            QueryResponse::Poll(poll) => QueryResponseView::Poll(poll@),
            QueryResponse::Contestants(contestants) => QueryResponseView::Contestants(
                contestant_views(contestants@),
            ),
            QueryResponse::Contestant(contestant) => QueryResponseView::Contestant(contestant@),
        }
    }
}

/// A poll as it is when it was just created: no votes, no contestants, not
/// deleted, and the texts and times that the caller gave.
pub open spec fn new_poll(
    id: u64,
    director: Seq<u8>,
    now: u64,
    image: Seq<char>,
    title: Seq<char>,
    description: Seq<char>,
    starts_at: u64,
    ends_at: u64,
) -> PollView {
    PollView {
        id,
        image,
        title,
        description,
        votes: 0,
        contestants: 0,
        deleted: false,
        director,
        starts_at,
        ends_at,
        timestamp: now,
        voters: Seq::empty(),
        avatars: Seq::empty(),
        question: Seq::empty(),
        options: Seq::empty(),
    }
}

/// The entries after `create_poll`: the counter holds the new id and the new
/// poll lies under its key.
pub open spec fn create_poll_entries(
    entries: Map<Seq<u8>, Seq<u8>>,
    director: Seq<u8>,
    now: u64,
    image: Seq<char>,
    title: Seq<char>,
    description: Seq<char>,
    starts_at: u64,
    ends_at: u64,
) -> Map<Seq<u8>, Seq<u8>> {
    match next_poll_id(entries) {
        Ok(id) => entries.insert(counter_key(), be64(id)).insert(
            poll_key(id),
            poll_encoding(
                new_poll(id, director, now, image, title, description, starts_at, ends_at),
            ),
        ),
        Err(_) => entries,
    }
}

/// Creates a poll directed by `sender` and answers its id, the next one that
/// the counter gives out. It fails only where the counter does.
pub fn create_poll(
    store: &mut MemoryStorage,
    now: u64,
    sender: &Vec<u8>,
    image: String,
    title: String,
    description: String,
    starts_at: u64,
    ends_at: u64,
) -> (r: Result<u64, ContractError>)
    ensures
        r == next_poll_id(stored(*old(store))),
        stored(*final(store)) == create_poll_entries(
            stored(*old(store)),
            sender@,
            now,
            image@,
            title@,
            description@,
            starts_at,
            ends_at,
        ),
{
    let poll_id = match generate_unique_poll_id(store) {
        Ok(id) => id,
        Err(e) => { return Err(e); },
    };
    let poll = PollStruct {
        id: poll_id,
        image,
        title,
        description,
        votes: 0,
        contestants: 0,
        deleted: false,
        director: sender.clone(),
        starts_at,
        ends_at,
        timestamp: now,
        voters: Vec::new(),
        avatars: Vec::new(),
        question: String::new(),
        options: Vec::new(),
    };
    assert(poll@ =~= new_poll(
        poll_id,
        sender@,
        now,
        image@,
        title@,
        description@,
        starts_at,
        ends_at,
    ));
    set_poll(store, poll_id, &poll);
    Ok(poll_id)
}

/// A poll with its texts and its window replaced, and all else kept.
pub open spec fn updated_poll(
    poll: PollView,
    image: Seq<char>,
    title: Seq<char>,
    description: Seq<char>,
    starts_at: u64,
    ends_at: u64,
) -> PollView {
    PollView { image, title, description, starts_at, ends_at, ..poll }
}

/// The entries after `update_poll`.
pub open spec fn update_poll_entries(
    entries: Map<Seq<u8>, Seq<u8>>,
    id: u64,
    image: Seq<char>,
    title: Seq<char>,
    description: Seq<char>,
    starts_at: u64,
    ends_at: u64,
) -> Map<Seq<u8>, Seq<u8>> {
    match poll_at(entries, id) {
        Ok(poll) => entries.insert(
            poll_key(id),
            poll_encoding(updated_poll(poll, image, title, description, starts_at, ends_at)),
        ),
        Err(_) => entries,
    }
}

/// What a command answers that only needs the poll `id` to be there.
pub open spec fn poll_found(entries: Map<Seq<u8>, Seq<u8>>, id: u64) -> Result<
    (),
    ContractError,
> {
    match poll_at(entries, id) {
        Ok(_) => Ok(()),
        Err(e) => Err(e),
    }
}

/// Replaces the texts and the window of the poll `id`. Any caller may do so,
/// on a deleted poll too.
pub fn update_poll(
    store: &mut MemoryStorage,
    id: u64,
    image: String,
    title: String,
    description: String,
    starts_at: u64,
    ends_at: u64,
) -> (r: Result<(), ContractError>)
    ensures
        r == poll_found(stored(*old(store)), id),
        stored(*final(store)) == update_poll_entries(
            stored(*old(store)),
            id,
            image@,
            title@,
            description@,
            starts_at,
            ends_at,
        ),
{
    let mut poll = match load_poll(store, id) {
        Ok(p) => p,
        Err(e) => { return Err(e); },
    };
    let ghost before = poll@;
    poll.image = image;
    poll.title = title;
    poll.description = description;
    poll.starts_at = starts_at;
    poll.ends_at = ends_at;
    assert(poll@ =~= updated_poll(before, image@, title@, description@, starts_at, ends_at));
    set_poll(store, id, &poll);
    Ok(())
}

/// The entries after `delete_poll`: the poll stays, marked as deleted.
pub open spec fn delete_poll_entries(entries: Map<Seq<u8>, Seq<u8>>, id: u64) -> Map<
    Seq<u8>,
    Seq<u8>,
> {
    match poll_at(entries, id) {
        Ok(poll) => entries.insert(poll_key(id), poll_encoding(PollView { deleted: true, ..poll })),
        Err(_) => entries,
    }
}

/// Marks the poll `id` as deleted. The poll stays in the store, and deleting
/// it again changes nothing.
pub fn delete_poll(store: &mut MemoryStorage, id: u64) -> (r: Result<(), ContractError>)
    ensures
        r == poll_found(stored(*old(store)), id),
        stored(*final(store)) == delete_poll_entries(stored(*old(store)), id),
{
    let mut poll = match load_poll(store, id) {
        Ok(p) => p,
        Err(e) => { return Err(e); },
    };
    let ghost before = poll@;
    poll.deleted = true;
    assert(poll@ =~= PollView { deleted: true, ..before });
    set_poll(store, id, &poll);
    Ok(())
}

/// A contestant as it is when it was just registered: no votes yet.
pub open spec fn new_contestant(
    id: u64,
    creator: Seq<u8>,
    name: Seq<char>,
    avatar: Seq<char>,
) -> ContestantView {
    ContestantView { id, image: avatar, name, voter: creator, votes: 0, voters: Seq::empty() }
}

/// What `contest` answers: the id of the new contestant, one more than the
/// number of contestants that the poll had.
pub open spec fn contest_result(entries: Map<Seq<u8>, Seq<u8>>, poll_id: u64) -> Result<
    u64,
    ContractError,
> {
    match poll_at(entries, poll_id) {
        Ok(poll) => if poll.contestants < u64::MAX {
            Ok((poll.contestants + 1) as u64)
        } else {
            Err(ContractError::StorageFailure)
        },
        Err(e) => Err(e),
    }
}

/// The entries after `contest`: the poll counts one contestant more, and the
/// new contestant lies under its key.
pub open spec fn contest_entries(
    entries: Map<Seq<u8>, Seq<u8>>,
    creator: Seq<u8>,
    poll_id: u64,
    name: Seq<char>,
    avatar: Seq<char>,
) -> Map<Seq<u8>, Seq<u8>> {
    match contest_result(entries, poll_id) {
        Ok(id) => entries.insert(
            poll_key(poll_id),
            poll_encoding(PollView { contestants: id, ..poll_at(entries, poll_id).unwrap() }),
        ).insert(
            contestant_key(poll_id, id),
            contestant_encoding(new_contestant(id, creator, name, avatar)),
        ),
        Err(_) => entries,
    }
}

/// Registers a contestant in the poll `poll_id`, created by `sender`, and
/// answers its id. The poll may be a deleted one.
pub fn contest(
    store: &mut MemoryStorage,
    sender: &Vec<u8>,
    poll_id: u64,
    name: String,
    avatar: String,
) -> (r: Result<u64, ContractError>)
    ensures
        r == contest_result(stored(*old(store)), poll_id),
        stored(*final(store)) == contest_entries(
            stored(*old(store)),
            sender@,
            poll_id,
            name@,
            avatar@,
        ),
{
    let mut poll = match load_poll(store, poll_id) {
        Ok(p) => p,
        Err(e) => { return Err(e); },
    };
    if poll.contestants == u64::MAX {
        return Err(ContractError::StorageFailure);
    }
    let ghost before = poll@;
    let contestant_id: u64 = poll.contestants + 1;
    poll.contestants = contestant_id;
    let contestant = ContestantStruct {
        id: contestant_id,
        image: avatar,
        name,
        voter: sender.clone(),
        votes: 0,
        voters: Vec::new(),
    };
    assert(poll@ =~= PollView { contestants: contestant_id, ..before });
    assert(contestant@ =~= new_contestant(contestant_id, sender@, name@, avatar@));
    set_poll(store, poll_id, &poll);
    set_contestant(store, poll_id, &contestant);
    Ok(contestant_id)
}

/// What `vote` answers. The poll is looked at first, then whether the caller
/// has voted in it, then the contestant.
pub open spec fn vote_result(
    entries: Map<Seq<u8>, Seq<u8>>,
    caller: Seq<u8>,
    poll_id: u64,
    contestant_id: u64,
) -> Result<(), ContractError> {
    match poll_at(entries, poll_id) {
        Ok(poll) => if poll.voters.contains(caller) {
            Err(ContractError::AlreadyVoted)
        } else {
            match contestant_at(entries, poll_id, contestant_id) {
                Ok(contestant) => if poll.votes < u64::MAX && contestant.votes < u64::MAX {
                    Ok(())
                } else {
                    Err(ContractError::StorageFailure)
                },
                Err(e) => Err(e),
            }
        },
        Err(e) => Err(e),
    }
}

/// A poll with one vote more, cast by `caller`.
pub open spec fn voted_poll(poll: PollView, caller: Seq<u8>) -> PollView {
    PollView { votes: (poll.votes + 1) as u64, voters: poll.voters.push(caller), ..poll }
}

/// A contestant with one vote more, cast by `caller`.
pub open spec fn voted_contestant(contestant: ContestantView, caller: Seq<u8>) -> ContestantView {
    ContestantView {
        votes: (contestant.votes + 1) as u64,
        voters: contestant.voters.push(caller),
        ..contestant
    }
}

/// The entries after `vote`: the poll and the contestant each count one vote
/// more and hold the caller among their voters. The contestant is saved
/// under the id that it carries.
pub open spec fn vote_entries(
    entries: Map<Seq<u8>, Seq<u8>>,
    caller: Seq<u8>,
    poll_id: u64,
    contestant_id: u64,
) -> Map<Seq<u8>, Seq<u8>> {
    if vote_result(entries, caller, poll_id, contestant_id) is Ok {
        let poll = poll_at(entries, poll_id).unwrap();
        let contestant = contestant_at(entries, poll_id, contestant_id).unwrap();
        entries.insert(poll_key(poll_id), poll_encoding(voted_poll(poll, caller))).insert(
            contestant_key(poll_id, contestant.id),
            contestant_encoding(voted_contestant(contestant, caller)),
        )
    } else {
        entries
    }
}

/// Whether the two byte strings are the same.
pub fn same_bytes(a: &Vec<u8>, b: &Vec<u8>) -> (same: bool)
    ensures
        same == (a@ == b@),
{
    if a.len() != b.len() {
        return false;
    }
    let mut i: usize = 0;
    while i < a.len()
        invariant
            i <= a.len(),
            a.len() == b.len(),
            forall|j: int| 0 <= j < i ==> a@[j] == b@[j],
        decreases a.len() - i,
    {
        if a[i] != b[i] {
            return false;
        }
        i += 1;
    }
    assert(a@ =~= b@);
    true
}

/// Whether `who` is one of `voters`.
pub fn has_voted(voters: &Vec<Vec<u8>>, who: &Vec<u8>) -> (found: bool)
    ensures
        found == byte_strings(voters@).contains(who@),
{
    let mut i: usize = 0;
    while i < voters.len()
        invariant
            i <= voters.len(),
            forall|j: int| 0 <= j < i ==> byte_strings(voters@)[j] != who@,
        decreases voters.len() - i,
    {
        if same_bytes(&voters[i], who) {
            assert(byte_strings(voters@)[i as int] == who@);
            return true;
        }
        i += 1;
    }
    false
}

/// Casts the vote of `sender` for the contestant `contestant_id` of the poll
/// `poll_id`. A caller votes once in a poll: a second vote is refused,
/// whatever contestant it names, and changes nothing.
pub fn vote(store: &mut MemoryStorage, sender: &Vec<u8>, poll_id: u64, contestant_id: u64) -> (r:
    Result<(), ContractError>)
    ensures
        r == vote_result(stored(*old(store)), sender@, poll_id, contestant_id),
        stored(*final(store)) == vote_entries(
            stored(*old(store)),
            sender@,
            poll_id,
            contestant_id,
        ),
{
    let mut poll = match load_poll(store, poll_id) {
        Ok(p) => p,
        Err(e) => { return Err(e); },
    };
    if has_voted(&poll.voters, sender) {
        return Err(ContractError::AlreadyVoted);
    }
    let mut contestant = match load_contestant(store, poll_id, contestant_id) {
        Ok(c) => c,
        Err(e) => { return Err(e); },
    };
    if poll.votes == u64::MAX || contestant.votes == u64::MAX {
        return Err(ContractError::StorageFailure);
    }
    let ghost poll_before = poll@;
    let ghost contestant_before = contestant@;
    poll.votes = poll.votes + 1;
    poll.voters.push(sender.clone());
    contestant.votes = contestant.votes + 1;
    contestant.voters.push(sender.clone());
    assert(poll@ =~= voted_poll(poll_before, sender@));
    assert(contestant@ =~= voted_contestant(contestant_before, sender@));
    set_poll(store, poll_id, &poll);
    set_contestant(store, poll_id, &contestant);
    Ok(())
}

/// Sets the ledger up: there is nothing to do, and the store stays as it is.
pub fn init(store: &mut MemoryStorage, msg: InitMsg) -> (r: Result<HandleResponse, ContractError>)
    ensures
        r == Ok::<HandleResponse, ContractError>(HandleResponse::Empty),
        stored(*final(store)) == stored(*old(store)),
{
    Ok(HandleResponse::Empty)
}

/// What `handle` answers to a command: what the function of that command
/// answers, with the id where one was given out.
pub open spec fn handle_result(
    entries: Map<Seq<u8>, Seq<u8>>,
    now: u64,
    sender: Seq<u8>,
    msg: HandleMsg,
) -> Result<HandleResponse, ContractError> {
    match msg {
        HandleMsg::CreatePoll { .. } => match next_poll_id(entries) {
            Ok(id) => Ok(HandleResponse::PollCreated { id }),
            Err(e) => Err(e),
        },
        HandleMsg::UpdatePoll { id, .. } => match poll_found(entries, id) {
            Ok(_) => Ok(HandleResponse::Empty),
            Err(e) => Err(e),
        },
        HandleMsg::DeletePoll { id } => match poll_found(entries, id) {
            Ok(_) => Ok(HandleResponse::Empty),
            Err(e) => Err(e),
        },
        HandleMsg::Contest { poll_id, .. } => match contest_result(entries, poll_id) {
            Ok(id) => Ok(HandleResponse::ContestantRegistered { id }),
            Err(e) => Err(e),
        },
        HandleMsg::Vote { poll_id, contestant_id } => match vote_result(
            entries,
            sender,
            poll_id,
            contestant_id,
        ) {
            Ok(_) => Ok(HandleResponse::Empty),
            Err(e) => Err(e),
        },
    }
}

/// The entries after `handle`: those that the function of the command leaves.
pub open spec fn handle_entries(
    entries: Map<Seq<u8>, Seq<u8>>,
    now: u64,
    sender: Seq<u8>,
    msg: HandleMsg,
) -> Map<Seq<u8>, Seq<u8>> {
    match msg {
        HandleMsg::CreatePoll {
            image,
            title,
            description,
            starts_at,
            ends_at,
        } => create_poll_entries(
            entries,
            sender,
            now,
            image@,
            title@,
            description@,
            starts_at,
            ends_at,
        ),
        HandleMsg::UpdatePoll {
            id,
            image,
            title,
            description,
            starts_at,
            ends_at,
        } => update_poll_entries(entries, id, image@, title@, description@, starts_at, ends_at),
        HandleMsg::DeletePoll { id } => delete_poll_entries(entries, id),
        HandleMsg::Contest { poll_id, name, avatar } => contest_entries(
            entries,
            sender,
            poll_id,
            name@,
            avatar@,
        ),
        HandleMsg::Vote { poll_id, contestant_id } => vote_entries(
            entries,
            sender,
            poll_id,
            contestant_id,
        ),
    }
}

/// Carries out a command of the caller `sender` at the block time `now`.
pub fn handle(store: &mut MemoryStorage, now: u64, sender: &Vec<u8>, msg: HandleMsg) -> (r: Result<
    HandleResponse,
    ContractError,
>)
    ensures
        r == handle_result(stored(*old(store)), now, sender@, msg),
        stored(*final(store)) == handle_entries(stored(*old(store)), now, sender@, msg),
{
    match msg {
        HandleMsg::CreatePoll { image, title, description, starts_at, ends_at } => {
            match create_poll(store, now, sender, image, title, description, starts_at, ends_at) {
                Ok(id) => Ok(HandleResponse::PollCreated { id }),
                Err(e) => Err(e),
            }
        },
        HandleMsg::UpdatePoll { id, image, title, description, starts_at, ends_at } => {
            match update_poll(store, id, image, title, description, starts_at, ends_at) {
                Ok(_) => Ok(HandleResponse::Empty),
                Err(e) => Err(e),
            }
        },
        HandleMsg::DeletePoll { id } => {
            match delete_poll(store, id) {
                Ok(_) => Ok(HandleResponse::Empty),
                Err(e) => Err(e),
            }
        },
        HandleMsg::Contest { poll_id, name, avatar } => {
            match contest(store, sender, poll_id, name, avatar) {
                Ok(id) => Ok(HandleResponse::ContestantRegistered { id }),
                Err(e) => Err(e),
            }
        },
        HandleMsg::Vote { poll_id, contestant_id } => {
            match vote(store, sender, poll_id, contestant_id) {
                Ok(_) => Ok(HandleResponse::Empty),
                Err(e) => Err(e),
            }
        },
    }
}

/// What a successful query, or the failure of one, is as a mathematical value.
pub open spec fn query_outcome(r: Result<QueryResponse, ContractError>) -> Result<
    QueryResponseView,
    ContractError,
> {
    match r {
        Ok(response) => Ok(response@),
        Err(e) => Err(e),
    }
}

/// What `get_polls` answers: all polls, deleted ones included.
pub open spec fn get_polls_result(entries: Map<Seq<u8>, Seq<u8>>) -> Result<
    QueryResponseView,
    ContractError,
> {
    match all_polls(entries) {
        Ok(polls) => Ok(QueryResponseView::Polls(polls)),
        Err(e) => Err(e),
    }
}

/// What `get_poll` answers: the poll, also where it is marked as deleted. A
/// poll that is not in the store, or whose entry cannot be read as a poll, is
/// not found.
pub open spec fn get_poll_result(entries: Map<Seq<u8>, Seq<u8>>, id: u64) -> Result<
    QueryResponseView,
    ContractError,
> {
    match poll_at(entries, id) {
        Ok(poll) => Ok(QueryResponseView::Poll(poll)),
        Err(_) => Err(ContractError::NotFound),
    }
}

/// What `get_contestants` answers: the contestants of the one poll.
pub open spec fn get_contestants_result(entries: Map<Seq<u8>, Seq<u8>>, poll_id: u64) -> Result<
    QueryResponseView,
    ContractError,
> {
    match contestants_of(entries, poll_id) {
        Ok(contestants) => Ok(QueryResponseView::Contestants(contestants)),
        Err(e) => Err(e),
    }
}

/// What `get_contestant` answers.
pub open spec fn get_contestant_result(
    entries: Map<Seq<u8>, Seq<u8>>,
    poll_id: u64,
    contestant_id: u64,
) -> Result<QueryResponseView, ContractError> {
    match contestant_at(entries, poll_id, contestant_id) {
        Ok(contestant) => Ok(QueryResponseView::Contestant(contestant)),
        Err(e) => Err(e),
    }
}

/// What `query` answers: what the function of that query answers.
pub open spec fn query_result(entries: Map<Seq<u8>, Seq<u8>>, msg: QueryMsg) -> Result<
    QueryResponseView,
    ContractError,
> {
    match msg {
        QueryMsg::GetPolls {} => get_polls_result(entries),
        QueryMsg::GetPoll { id } => get_poll_result(entries, id),
        QueryMsg::GetContestants { poll_id } => get_contestants_result(entries, poll_id),
        QueryMsg::GetContestant { poll_id, contestant_id } => get_contestant_result(
            entries,
            poll_id,
            contestant_id,
        ),
    }
}

/// All polls, in ascending order of their ids, deleted ones included.
pub fn get_polls(store: &MemoryStorage) -> (r: Result<QueryResponse, ContractError>)
    ensures
        query_outcome(r) == get_polls_result(stored(*store)),
{
    match load_all_polls(store) {
        Ok(polls) => Ok(QueryResponse::Polls(polls)),
        Err(e) => Err(e),
    }
}

/// The poll `id`, also where it is marked as deleted. A poll that is not in
/// the store, or whose entry cannot be read as a poll, is not found.
pub fn get_poll(store: &MemoryStorage, id: u64) -> (r: Result<QueryResponse, ContractError>)
    ensures
        query_outcome(r) == get_poll_result(stored(*store), id),
{
    match load_poll(store, id) {
        Ok(poll) => Ok(QueryResponse::Poll(poll)),
        Err(_) => Err(ContractError::NotFound),
    }
}

/// The contestants of the poll `poll_id`, in ascending order of their keys.
pub fn get_contestants(store: &MemoryStorage, poll_id: u64) -> (r: Result<
    QueryResponse,
    ContractError,
>)
    ensures
        query_outcome(r) == get_contestants_result(stored(*store), poll_id),
{
    match load_contestants(store, poll_id) {
        Ok(contestants) => Ok(QueryResponse::Contestants(contestants)),
        Err(e) => Err(e),
    }
}

/// The contestant `contestant_id` of the poll `poll_id`.
pub fn get_contestant(store: &MemoryStorage, poll_id: u64, contestant_id: u64) -> (r: Result<
    QueryResponse,
    ContractError,
>)
    ensures
        query_outcome(r) == get_contestant_result(stored(*store), poll_id, contestant_id),
{
    match load_contestant(store, poll_id, contestant_id) {
        Ok(contestant) => Ok(QueryResponse::Contestant(contestant)),
        Err(e) => Err(e),
    }
}

/// Answers a query. The store is only read.
pub fn query(store: &MemoryStorage, msg: QueryMsg) -> (r: Result<QueryResponse, ContractError>)
    ensures
        query_outcome(r) == query_result(stored(*store), msg),
{
    match msg {
        QueryMsg::GetPolls {} => get_polls(store),
        QueryMsg::GetPoll { id } => get_poll(store, id),
        QueryMsg::GetContestants { poll_id } => get_contestants(store, poll_id),
        QueryMsg::GetContestant { poll_id, contestant_id } => get_contestant(
            store,
            poll_id,
            contestant_id,
        ),
    }
}

} // verus!
