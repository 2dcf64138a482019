//! What the listings hold: the contestants of one poll and no others, and
//! the polls in the order of their ids.

use crate::contract::{contest_entries, contest_result};
use crate::error::ContractError;
use crate::keys::{
    contestant_key, contestant_prefix, counter_key, lemma_contestant_key_scope,
    lemma_key_kinds_apart, lemma_poll_keys_ascend, poll_key, poll_prefix,
};
use crate::laws::consistency::{consistent, contestant_consistent, is_ledger_key, poll_consistent};
use crate::ledger::{all_polls, contestant_at, contestants_in, contestants_of, poll_at, polls_in};
use crate::lex::has_prefix;
use crate::records::{contestant_decoding, poll_decoding, ContestantView, PollView};
use crate::store::{is_listing, lemma_listing_unique, listed, listing};
use vstd::prelude::*;

verus! {

/// A listing of the contestants of a poll holds the entry of every
/// contestant of that poll that is in the store, and no entry of a
/// contestant of another poll, of a poll, or of the counter.
pub proof fn lemma_scan_scoping(
    entries: Map<Seq<u8>, Seq<u8>>,
    poll_id: u64,
    records: Seq<(Seq<u8>, Seq<u8>)>,
)
    requires
        is_listing(entries, contestant_prefix(poll_id), records),
    ensures
        forall|p: u64, c: u64|
            listed(records, #[trigger] contestant_key(p, c)) <==> p == poll_id
                && entries.contains_key(contestant_key(p, c)),
        forall|id: u64| !listed(records, #[trigger] poll_key(id)),
        !listed(records, counter_key()),
{
    let prefix = contestant_prefix(poll_id);
    assert forall|p: u64, c: u64|
        listed(records, #[trigger] contestant_key(p, c)) <==> p == poll_id
            && entries.contains_key(contestant_key(p, c)) by {
        lemma_contestant_key_scope(p, c, poll_id);
    }
    assert forall|id: u64| !listed(records, #[trigger] poll_key(id)) by {
        lemma_key_kinds_apart(id, poll_id, 0);
    }
    lemma_key_kinds_apart(0, poll_id, 0);
}

/// Two sets of entries that agree on the keys under a prefix have the same
/// listings under it.
proof fn lemma_same_under_prefix(
    a: Map<Seq<u8>, Seq<u8>>,
    b: Map<Seq<u8>, Seq<u8>>,
    prefix: Seq<u8>,
    records: Seq<(Seq<u8>, Seq<u8>)>,
)
    requires
        forall|k: Seq<u8>|
            has_prefix(k, prefix) ==> (#[trigger] a.contains_key(k) == b.contains_key(k)),
        forall|k: Seq<u8>|
            has_prefix(k, prefix) && #[trigger] a.contains_key(k) ==> a[k] == b[k],
        is_listing(a, prefix, records),
    ensures
        is_listing(b, prefix, records),
{
    assert forall|k: Seq<u8>| #[trigger]
        b.contains_key(k) && has_prefix(k, prefix) implies listed(records, k) by {
        assert(a.contains_key(k));
    }
}

/// In a ledger that is in order, every record of a listing of the
/// contestants of a poll is a contestant of that poll: it lies under the key
/// of the id that it carries, and the query for that id answers it. The
/// listing is what the query for the contestants of the poll answers.
pub proof fn lemma_listed_contestants(
    entries: Map<Seq<u8>, Seq<u8>>,
    poll_id: u64,
    records: Seq<(Seq<u8>, Seq<u8>)>,
)
    requires
        consistent(entries),
        is_listing(entries, contestant_prefix(poll_id), records),
    ensures
        contestants_of(entries, poll_id) == contestants_in(records),
        contestants_in(records) matches Ok(contestants) && contestants.len() == records.len()
            && forall|i: int|
            0 <= i < records.len() ==> {
                &&& (#[trigger] records[i]).0 == contestant_key(poll_id, contestants[i].id)
                &&& contestant_at(entries, poll_id, contestants[i].id) == Ok::<
                    ContestantView,
                    ContractError,
                >(contestants[i])
            },
{
    let prefix = contestant_prefix(poll_id);
    lemma_listing_unique(entries, prefix, records, listing(entries, prefix));
    assert forall|i: int| 0 <= i < records.len() implies {
        &&& contestant_decoding((#[trigger] records[i]).1) matches Some(c)
        &&& records[i].0 == contestant_key(poll_id, c.id)
        &&& contestant_at(entries, poll_id, c.id) == Ok::<ContestantView, ContractError>(c)
    } by {
        let key = records[i].0;
        assert(entries.contains_key(key) && is_ledger_key(key)) by {
            reveal(consistent);
        }
        lemma_key_kinds_apart(0, poll_id, 0);
        if exists|id: u64| key == #[trigger] poll_key(id) {
            let id = choose|id: u64| key == #[trigger] poll_key(id);
            lemma_key_kinds_apart(id, poll_id, 0);
        }
        let (p, c) = choose|p: u64, c: u64| key == #[trigger] contestant_key(p, c);
        lemma_contestant_key_scope(p, c, poll_id);
        assert(contestant_consistent(entries, poll_id, c)) by {
            reveal(consistent);
        }
    }
}

/// In a ledger that is in order, every record of a listing of the polls is a
/// poll: it lies under the key of the id that it carries, and the query for
/// that id answers it. The polls are listed in ascending order of their ids,
/// and the listing is what the query for all polls answers.
pub proof fn lemma_listed_polls(entries: Map<Seq<u8>, Seq<u8>>, records: Seq<(Seq<u8>, Seq<u8>)>)
    requires
        consistent(entries),
        is_listing(entries, poll_prefix(), records),
    ensures
        all_polls(entries) == polls_in(records),
        polls_in(records) matches Ok(polls) && polls.len() == records.len() && (forall|i: int|
            0 <= i < records.len() ==> {
                &&& (#[trigger] records[i]).0 == poll_key(polls[i].id)
                &&& poll_at(entries, polls[i].id) == Ok::<PollView, ContractError>(polls[i])
            }) && (forall|i: int, j: int|
            0 <= i < j < records.len() ==> (#[trigger] polls[i]).id < (#[trigger] polls[j]).id),
{
    let prefix = poll_prefix();
    lemma_listing_unique(entries, prefix, records, listing(entries, prefix));
    assert forall|i: int| 0 <= i < records.len() implies {
        &&& poll_decoding((#[trigger] records[i]).1) matches Some(p)
        &&& records[i].0 == poll_key(p.id)
        &&& poll_at(entries, p.id) == Ok::<PollView, ContractError>(p)
    } by {
        let key = records[i].0;
        assert(entries.contains_key(key) && is_ledger_key(key)) by {
            reveal(consistent);
        }
        lemma_key_kinds_apart(0, 0, 0);
        if exists|p: u64, c: u64| key == #[trigger] contestant_key(p, c) {
            let (p, c) = choose|p: u64, c: u64| key == #[trigger] contestant_key(p, c);
            lemma_key_kinds_apart(0, p, c);
        }
        let id = choose|id: u64| key == #[trigger] poll_key(id);
        assert(poll_consistent(entries, id)) by {
            reveal(consistent);
        }
    }
    let polls = polls_in(records).unwrap();
    assert forall|i: int, j: int| 0 <= i < j < records.len() implies (#[trigger] polls[i]).id < (
    #[trigger] polls[j]).id by {
        assert(records[i].0 == poll_key(polls[i].id));
        assert(records[j].0 == poll_key(polls[j].id));
        lemma_poll_keys_ascend(polls[i].id, polls[j].id);
    }
}

/// Registering a contestant in one poll leaves the contestants of every
/// other poll as they are listed: a listing of theirs before is their
/// listing after, and the query for them answers the same.
pub proof fn lemma_contest_scoped(
    entries: Map<Seq<u8>, Seq<u8>>,
    creator: Seq<u8>,
    poll_id: u64,
    name: Seq<char>,
    avatar: Seq<char>,
    other: u64,
    records: Seq<(Seq<u8>, Seq<u8>)>,
)
    requires
        other != poll_id,
        is_listing(entries, contestant_prefix(other), records),
    ensures
        is_listing(
            contest_entries(entries, creator, poll_id, name, avatar),
            contestant_prefix(other),
            records,
        ),
        contestants_of(contest_entries(entries, creator, poll_id, name, avatar), other)
            == contestants_of(entries, other),
{
    let after = contest_entries(entries, creator, poll_id, name, avatar);
    let prefix = contestant_prefix(other);
    if let Ok(id) = contest_result(entries, poll_id) {
        lemma_key_kinds_apart(poll_id, other, 0);
        lemma_contestant_key_scope(poll_id, id, other);
        lemma_same_under_prefix(entries, after, prefix, records);
    }
    lemma_listing_unique(entries, prefix, records, listing(entries, prefix));
    lemma_listing_unique(after, prefix, records, listing(after, prefix));
}

} // verus!
