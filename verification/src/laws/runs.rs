//! Runs of commands, and the poll ids that they give out.

use crate::contract::{
    contest_result, handle_entries, handle_result, new_contestant, new_poll, updated_poll,
    vote_result, voted_contestant, voted_poll, HandleMsg, HandleResponse,
};
use crate::error::ContractError;
use crate::keys::{counter_key, poll_key};
use crate::laws::frame::{lemma_contestant_written, lemma_counter_saved, lemma_poll_written};
use crate::ledger::{contestant_at, last_poll_id, next_poll_id, poll_at};
use crate::records::{contestant_encoding, poll_encoding, PollView};
use crate::wire::{be64, fits, text_fits};
use vstd::prelude::*;

verus! {

/// A command as it reaches the ledger: the block time, the caller and the
/// message.
pub struct Call {
    pub now: u64,
    pub sender: Seq<u8>,
    pub msg: HandleMsg,
}

/// The entries that a store with the entries `start` holds after the
/// commands `calls` were handled one after the other.
pub open spec fn entries_after(start: Map<Seq<u8>, Seq<u8>>, calls: Seq<Call>) -> Map<
    Seq<u8>,
    Seq<u8>,
>
    decreases calls.len(),
{
    if calls.len() == 0 {
        start
    } else {
        let call = calls.last();
        handle_entries(entries_after(start, calls.drop_last()), call.now, call.sender, call.msg)
    }
}

/// What the command `calls[i]` answers when `calls` are handled one after
/// the other on a store with the entries `start`.
pub open spec fn answer_to(start: Map<Seq<u8>, Seq<u8>>, calls: Seq<Call>, i: int) -> Result<
    HandleResponse,
    ContractError,
> {
    let call = calls[i];
    handle_result(entries_after(start, calls.take(i)), call.now, call.sender, call.msg)
}

impl Call {
    /// The caller and the texts of the message are values that the types of
    /// the executable commands can hold.
    pub open spec fn fits(self) -> bool {
        &&& fits(self.sender.len())
        &&& match self.msg {
            HandleMsg::CreatePoll { image, title, description, .. } => text_fits(image@)
                && text_fits(title@) && text_fits(description@),
            HandleMsg::UpdatePoll { image, title, description, .. } => text_fits(image@)
                && text_fits(title@) && text_fits(description@),
            HandleMsg::Contest { name, avatar, .. } => text_fits(name@) && text_fits(avatar@),
            _ => true,
        }
    }
}

/// Every command of `calls` fits.
pub open spec fn calls_fit(calls: Seq<Call>) -> bool {
    forall|i: int| 0 <= i < calls.len() ==> (#[trigger] calls[i]).fits()
}

/// A command that fails leaves every entry as it is.
pub proof fn lemma_failure_changes_nothing(entries: Map<Seq<u8>, Seq<u8>>, call: Call)
    requires
        handle_result(entries, call.now, call.sender, call.msg) is Err,
    ensures
        handle_entries(entries, call.now, call.sender, call.msg) == entries,
{
}

/// No command lowers the counter of poll ids, and a command that creates a
/// poll raises it by one, to the id that it answers.
pub proof fn lemma_counter_step(entries: Map<Seq<u8>, Seq<u8>>, call: Call)
    ensures
        last_poll_id(entries) matches Ok(last) ==> {
            &&& last_poll_id(
                handle_entries(entries, call.now, call.sender, call.msg),
            ) matches Ok(next)
            &&& last <= next
            &&& handle_result(entries, call.now, call.sender, call.msg) matches Ok(
                HandleResponse::PollCreated { id },
            ) ==> id == last + 1 && next == id
        },
        last_poll_id(entries) is Err ==> !(handle_result(
            entries,
            call.now,
            call.sender,
            call.msg,
        ) matches Ok(HandleResponse::PollCreated { id })),
{
    let after = handle_entries(entries, call.now, call.sender, call.msg);
    match call.msg {
        HandleMsg::CreatePoll { image, title, description, starts_at, ends_at } => {
            if let Ok(id) = next_poll_id(entries) {
                let counted = entries.insert(counter_key(), be64(id));
                lemma_counter_saved(entries, id);
                lemma_poll_written(
                    counted,
                    id,
                    poll_encoding(
                        new_poll(
                            id,
                            call.sender,
                            call.now,
                            image@,
                            title@,
                            description@,
                            starts_at,
                            ends_at,
                        ),
                    ),
                );
            }
        },
        HandleMsg::UpdatePoll { id, image, title, description, starts_at, ends_at } => {
            if let Ok(poll) = poll_at(entries, id) {
                lemma_poll_written(
                    entries,
                    id,
                    poll_encoding(
                        updated_poll(poll, image@, title@, description@, starts_at, ends_at),
                    ),
                );
            }
        },
        HandleMsg::DeletePoll { id } => {
            if let Ok(poll) = poll_at(entries, id) {
                lemma_poll_written(
                    entries,
                    id,
                    poll_encoding(PollView { deleted: true, ..poll }),
                );
            }
        },
        HandleMsg::Contest { poll_id, name, avatar } => {
            if let Ok(id) = contest_result(entries, poll_id) {
                let poll = poll_at(entries, poll_id).unwrap();
                let value = poll_encoding(PollView { contestants: id, ..poll });
                lemma_poll_written(entries, poll_id, value);
                lemma_contestant_written(
                    entries.insert(poll_key(poll_id), value),
                    poll_id,
                    id,
                    contestant_encoding(new_contestant(id, call.sender, name@, avatar@)),
                );
            }
        },
        HandleMsg::Vote { poll_id, contestant_id } => {
            if vote_result(entries, call.sender, poll_id, contestant_id) is Ok {
                let poll = poll_at(entries, poll_id).unwrap();
                let contestant = contestant_at(entries, poll_id, contestant_id).unwrap();
                let value = poll_encoding(voted_poll(poll, call.sender));
                lemma_poll_written(entries, poll_id, value);
                lemma_contestant_written(
                    entries.insert(poll_key(poll_id), value),
                    poll_id,
                    contestant.id,
                    contestant_encoding(voted_contestant(contestant, call.sender)),
                );
            }
        },
    }
}

/// Over any run of commands the counter of poll ids only grows.
pub proof fn lemma_counter_grows(start: Map<Seq<u8>, Seq<u8>>, calls: Seq<Call>, i: int, j: int)
    requires
        0 <= i <= j <= calls.len(),
        last_poll_id(entries_after(start, calls.take(i))) is Ok,
    ensures
        last_poll_id(entries_after(start, calls.take(j))) matches Ok(later) && last_poll_id(
            entries_after(start, calls.take(i)),
        ).unwrap() <= later,
    decreases j - i,
{
    if i < j {
        lemma_counter_grows(start, calls, i, j - 1);
        assert(calls.take(j).drop_last() =~= calls.take(j - 1));
        assert(calls.take(j).last() == calls[j - 1]);
        lemma_counter_step(entries_after(start, calls.take(j - 1)), calls[j - 1]);
    }
}

/// Poll ids are given out in strictly increasing order: of two commands of
/// one run that each created a poll, the later one answered the greater id.
/// This holds whatever other commands the run holds, deletes among them, so
/// no id is ever given out twice.
pub proof fn lemma_poll_ids_increase(
    start: Map<Seq<u8>, Seq<u8>>,
    calls: Seq<Call>,
    i: int,
    j: int,
    first: u64,
    second: u64,
)
    requires
        0 <= i < j < calls.len(),
        answer_to(start, calls, i) == Ok::<HandleResponse, ContractError>(
            HandleResponse::PollCreated { id: first },
        ),
        answer_to(start, calls, j) == Ok::<HandleResponse, ContractError>(
            HandleResponse::PollCreated { id: second },
        ),
    ensures
        first < second,
{
    let before_i = entries_after(start, calls.take(i));
    let before_j = entries_after(start, calls.take(j));
    lemma_counter_step(before_i, calls[i]);
    assert(calls.take(i + 1).drop_last() =~= calls.take(i));
    assert(calls.take(i + 1).last() == calls[i]);
    lemma_counter_grows(start, calls, i + 1, j);
    lemma_counter_step(before_j, calls[j]);
}

} // verus!
