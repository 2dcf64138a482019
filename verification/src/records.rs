//! Polls and contestants, and the bytes they are stored as.
//!
//! A record is written as one tag byte, which tells a poll from a
//! contestant, followed by the fields in the order of their declaration,
//! each in the layout of its kind. `poll_encoding` and `contestant_encoding`
//! say what is written; `poll_decoding` and `contestant_decoding` say what is
//! read, and nothing but an encoding is ever read as a record.

use crate::error::ContractError;
use crate::wire::{
    be64, byte_strings, encode_bool, encode_bytes, encode_bytes_list, encode_text,
    encode_text_list, lemma_parse_bool_exact, lemma_parse_bool_inverts, lemma_parse_bytes_exact,
    lemma_parse_bytes_inverts, lemma_parse_bytes_list_exact, lemma_parse_bytes_list_inverts,
    lemma_parse_text_exact, lemma_parse_text_inverts, lemma_parse_text_list_exact,
    lemma_parse_text_list_inverts, lemma_parse_u64_exact, lemma_parse_u64_inverts, list_fits,
    fits, parse_bool, parse_bytes, parse_bytes_list, parse_text, parse_text_list, parse_u64,
    put_bool, put_bytes, put_bytes_list, put_text, put_text_list, put_u64, take_bool,
    take_bytes, take_bytes_list, take_text, take_text_list, take_u64, text_fits,
    text_list_fits, texts_of,
};
use vstd::prelude::*;
use vstd::slice::slice_subrange;

verus! {

/// A proposal that callers vote on.
#[derive(Clone, Debug, PartialEq, Eq)]
pub struct PollStruct {
    /// Given out by the counter of poll ids when the poll is created.
    pub id: u64,
    pub image: String,
    pub title: String,
    pub description: String,
    /// How many votes were cast: the number of `voters`.
    pub votes: u64,
    /// How many contestants were registered: the id of the latest one.
    pub contestants: u64,
    /// Set by a delete; the poll stays in the store.
    pub deleted: bool,
    /// The address of the caller who created the poll.
    pub director: Vec<u8>,
    pub starts_at: u64,
    pub ends_at: u64,
    /// The block time at which the poll was created.
    pub timestamp: u64,
    /// The addresses that have voted in this poll, each once.
    pub voters: Vec<Vec<u8>>,
    pub avatars: Vec<String>,
    pub question: String,
    pub options: Vec<String>,
}

/// One of the options of a poll.
#[derive(Clone, Debug, PartialEq, Eq)]
pub struct ContestantStruct {
    /// Counts up from 1 within the poll.
    pub id: u64,
    pub image: String,
    pub name: String,
    /// The address of the caller who registered the contestant.
    pub voter: Vec<u8>,
    /// How many votes this contestant has: the number of `voters`.
    pub votes: u64,
    /// The addresses that have voted for this contestant.
    pub voters: Vec<Vec<u8>>,
}

/// What a `PollStruct` holds, as mathematical values.
#[verifier::ext_equal]
pub struct PollView {
    pub id: u64,
    pub image: Seq<char>,
    pub title: Seq<char>,
    pub description: Seq<char>,
    pub votes: u64,
    pub contestants: u64,
    pub deleted: bool,
    pub director: Seq<u8>,
    pub starts_at: u64,
    pub ends_at: u64,
    pub timestamp: u64,
    pub voters: Seq<Seq<u8>>,
    pub avatars: Seq<Seq<char>>,
    pub question: Seq<char>,
    pub options: Seq<Seq<char>>,
}

/// What a `ContestantStruct` holds, as mathematical values.
#[verifier::ext_equal]
pub struct ContestantView {
    pub id: u64,
    pub image: Seq<char>,
    pub name: Seq<char>,
    pub voter: Seq<u8>,
    pub votes: u64,
    pub voters: Seq<Seq<u8>>,
}

impl View for PollStruct {
    type V = PollView;

    open spec fn view(&self) -> PollView {
        PollView {
            id: self.id,
            image: self.image@,
            title: self.title@,
            description: self.description@,
            votes: self.votes,
            contestants: self.contestants,
            deleted: self.deleted,
            director: self.director@,
            starts_at: self.starts_at,
            ends_at: self.ends_at,
            timestamp: self.timestamp,
            voters: byte_strings(self.voters@),
            avatars: texts_of(self.avatars@),
            question: self.question@,
            options: texts_of(self.options@),
        }
    }
}

impl View for ContestantStruct {
    type V = ContestantView;

    open spec fn view(&self) -> ContestantView {
        ContestantView {
            id: self.id,
            image: self.image@,
            name: self.name@,
            voter: self.voter@,
            votes: self.votes,
            voters: byte_strings(self.voters@),
        }
    }
}

impl PollView {
    /// Every text, byte string and list of the poll has a length that an
    /// eight-byte count can hold. Every `PollStruct` is such a poll.
    pub open spec fn fits(self) -> bool {
        &&& text_fits(self.image)
        &&& text_fits(self.title)
        &&& text_fits(self.description)
        &&& fits(self.director.len())
        &&& list_fits(self.voters)
        &&& text_list_fits(self.avatars)
        &&& text_fits(self.question)
        &&& text_list_fits(self.options)
    }
}

impl ContestantView {
    /// Every text, byte string and list of the contestant has a length that
    /// an eight-byte count can hold. Every `ContestantStruct` is such a
    /// contestant.
    pub open spec fn fits(self) -> bool {
        &&& text_fits(self.image)
        &&& text_fits(self.name)
        &&& fits(self.voter.len())
        &&& list_fits(self.voters)
    }
}

/// The first byte of a stored poll.
pub const POLL_TAG: u8 = 0x50;

/// The first byte of a stored contestant.
pub const CONTESTANT_TAG: u8 = 0x43;

/// The bytes that a poll is stored as.
#[verifier::opaque]
pub open spec fn poll_encoding(p: PollView) -> Seq<u8>
    recommends
        p.fits(),
{
    seq![POLL_TAG] + (be64(p.id) + (encode_text(p.image) + (encode_text(p.title) + (encode_text(
        p.description,
    ) + (be64(p.votes) + (be64(p.contestants) + (encode_bool(p.deleted) + (encode_bytes(
        p.director,
    ) + (be64(p.starts_at) + (be64(p.ends_at) + (be64(p.timestamp) + (encode_bytes_list(
        p.voters,
    ) + (encode_text_list(p.avatars) + (encode_text(p.question) + encode_text_list(
        p.options,
    )))))))))))))))
}

/// The bytes that a contestant is stored as.
#[verifier::opaque]
pub open spec fn contestant_encoding(c: ContestantView) -> Seq<u8>
    recommends
        c.fits(),
{
    seq![CONTESTANT_TAG] + (be64(c.id) + (encode_text(c.image) + (encode_text(c.name) + (
    encode_bytes(c.voter) + (be64(c.votes) + encode_bytes_list(c.voters))))))
}

/// What is left of the input after a value was read off its front.
pub open spec fn rest<T>(read: Option<(T, Seq<u8>)>) -> Seq<u8> {
    read.unwrap().1
}

/// The value that was read off the front of the input.
pub open spec fn got<T>(read: Option<(T, Seq<u8>)>) -> T {
    read.unwrap().0
}

/// The poll that `s` is the stored form of, if it is one: the tag, then every
/// field in turn, and nothing after the last.
#[verifier::opaque]
pub open spec fn poll_decoding(s: Seq<u8>) -> Option<PollView> {
    let id = parse_u64(s.skip(1));
    let image = parse_text(rest(id));
    let title = parse_text(rest(image));
    let description = parse_text(rest(title));
    let votes = parse_u64(rest(description));
    let contestants = parse_u64(rest(votes));
    let deleted = parse_bool(rest(contestants));
    let director = parse_bytes(rest(deleted));
    let starts_at = parse_u64(rest(director));
    let ends_at = parse_u64(rest(starts_at));
    let timestamp = parse_u64(rest(ends_at));
    let voters = parse_bytes_list(rest(timestamp));
    let avatars = parse_text_list(rest(voters));
    let question = parse_text(rest(avatars));
    let options = parse_text_list(rest(question));
    if s.len() > 0 && s[0] == POLL_TAG && id is Some && image is Some && title is Some
        && description is Some && votes is Some && contestants is Some && deleted is Some
        && director is Some && starts_at is Some && ends_at is Some && timestamp is Some
        && voters is Some && avatars is Some && question is Some && options is Some && rest(
        options,
    ).len() == 0 {
        Some(
            PollView {
                id: got(id),
                image: got(image),
                title: got(title),
                description: got(description),
                votes: got(votes),
                contestants: got(contestants),
                deleted: got(deleted),
                director: got(director),
                starts_at: got(starts_at),
                ends_at: got(ends_at),
                timestamp: got(timestamp),
                voters: got(voters),
                avatars: got(avatars),
                question: got(question),
                options: got(options),
            },
        )
    } else {
        None
    }
}

/// The contestant that `s` is the stored form of, if it is one.
#[verifier::opaque]
pub open spec fn contestant_decoding(s: Seq<u8>) -> Option<ContestantView> {
    let id = parse_u64(s.skip(1));
    let image = parse_text(rest(id));
    let name = parse_text(rest(image));
    let voter = parse_bytes(rest(name));
    let votes = parse_u64(rest(voter));
    let voters = parse_bytes_list(rest(votes));
    if s.len() > 0 && s[0] == CONTESTANT_TAG && id is Some && image is Some && name is Some
        && voter is Some && votes is Some && voters is Some && rest(voters).len() == 0 {
        Some(
            ContestantView {
                id: got(id),
                image: got(image),
                name: got(name),
                voter: got(voter),
                votes: got(votes),
                voters: got(voters),
            },
        )
    } else {
        None
    }
}

/// A contestant that was encoded is decoded to itself.
pub proof fn lemma_contestant_round_trip(c: ContestantView)
    requires
        c.fits(),
    ensures
        contestant_decoding(contestant_encoding(c)) == Some(c),
{
    reveal(contestant_encoding);
    reveal(contestant_decoding);
    let s = contestant_encoding(c);
    let r6 = encode_bytes_list(c.voters);
    let r5 = be64(c.votes) + r6;
    let r4 = encode_bytes(c.voter) + r5;
    let r3 = encode_text(c.name) + r4;
    let r2 = encode_text(c.image) + r3;
    let r1 = be64(c.id) + r2;
    assert(s.skip(1) =~= r1);
    lemma_parse_u64_inverts(c.id, r2);
    lemma_parse_text_inverts(c.image, r3);
    lemma_parse_text_inverts(c.name, r4);
    lemma_parse_bytes_inverts(c.voter, r5);
    lemma_parse_u64_inverts(c.votes, r6);
    lemma_parse_bytes_list_inverts(c.voters, Seq::empty());
    assert(r6 + Seq::<u8>::empty() =~= r6);
    assert(contestant_decoding(s).unwrap() =~= c);
}

/// Only the encoding of a contestant is decoded to that contestant.
pub proof fn lemma_contestant_decoding_exact(s: Seq<u8>)
    ensures
        contestant_decoding(s) matches Some(c) ==> contestant_encoding(c) == s && c.fits(),
{
    reveal(contestant_encoding);
    reveal(contestant_decoding);
    if let Some(c) = contestant_decoding(s) {
        let id = parse_u64(s.skip(1));
        let image = parse_text(rest(id));
        let name = parse_text(rest(image));
        let voter = parse_bytes(rest(name));
        let votes = parse_u64(rest(voter));
        let voters = parse_bytes_list(rest(votes));
        lemma_parse_u64_exact(s.skip(1));
        lemma_parse_text_exact(rest(id));
        lemma_parse_text_exact(rest(image));
        lemma_parse_bytes_exact(rest(name));
        lemma_parse_u64_exact(rest(voter));
        lemma_parse_bytes_list_exact(rest(votes));
        assert(rest(votes) =~= encode_bytes_list(c.voters));
        assert(s =~= seq![CONTESTANT_TAG] + s.skip(1));
    }
}

/// Writes a contestant as the bytes it is stored as.
pub fn encode_contestant(c: &ContestantStruct) -> (bytes: Vec<u8>)
    ensures
        bytes@ == contestant_encoding(c@),
        bytes@.len() > 0,
        c@.fits(),
{
    proof {
        reveal(contestant_encoding);
    }
    let mut out: Vec<u8> = Vec::new();
    out.push(CONTESTANT_TAG);
    put_u64(&mut out, c.id);
    put_text(&mut out, &c.image);
    put_text(&mut out, &c.name);
    assert(fits(c.voter@.len())) by {
        assert(c.voter@.len() == c.voter.len());
    }
    put_bytes(&mut out, c.voter.as_slice());
    put_u64(&mut out, c.votes);
    put_bytes_list(&mut out, &c.voters);
    assert(out@ =~= contestant_encoding(c@));
    out
}

/// Reads a contestant back from the bytes it was stored as. Bytes that are
/// not the encoding of a contestant are a malformed record.
pub fn decode_contestant(bytes: &[u8]) -> (r: Result<ContestantStruct, ContractError>)
    ensures
        match r {
            Ok(c) => contestant_decoding(bytes@) == Some(c@),
            Err(e) => e == ContractError::MalformedRecord && contestant_decoding(bytes@) is None,
        },
{
    proof {
        reveal(contestant_decoding);
    }
    if bytes.len() == 0 || bytes[0] != CONTESTANT_TAG {
        return Err(ContractError::MalformedRecord);
    }
    let rest = slice_subrange(bytes, 1, bytes.len());
    let (id, rest) = match take_u64(rest) {
        Some(found) => found,
        None => { return Err(ContractError::MalformedRecord); },
    };
    let (image, rest) = match take_text(rest) {
        Some(found) => found,
        None => { return Err(ContractError::MalformedRecord); },
    };
    let (name, rest) = match take_text(rest) {
        Some(found) => found,
        None => { return Err(ContractError::MalformedRecord); },
    };
    let (voter, rest) = match take_bytes(rest) {
        Some(found) => found,
        None => { return Err(ContractError::MalformedRecord); },
    };
    let (votes, rest) = match take_u64(rest) {
        Some(found) => found,
        None => { return Err(ContractError::MalformedRecord); },
    };
    let (voters, rest) = match take_bytes_list(rest) {
        Some(found) => found,
        None => { return Err(ContractError::MalformedRecord); },
    };
    if rest.len() != 0 {
        return Err(ContractError::MalformedRecord);
    }
    let c = ContestantStruct { id, image, name, voter, votes, voters };
    assert(contestant_decoding(bytes@).unwrap() =~= c@);
    Ok(c)
}

/// A poll that was encoded is decoded to itself.
pub proof fn lemma_poll_round_trip(p: PollView)
    requires
        p.fits(),
    ensures
        poll_decoding(poll_encoding(p)) == Some(p),
{
    reveal(poll_encoding);
    reveal(poll_decoding);
    let s = poll_encoding(p);
    let r15 = encode_text_list(p.options);
    let r14 = encode_text(p.question) + r15;
    let r13 = encode_text_list(p.avatars) + r14;
    let r12 = encode_bytes_list(p.voters) + r13;
    let r11 = be64(p.timestamp) + r12;
    let r10 = be64(p.ends_at) + r11;
    let r9 = be64(p.starts_at) + r10;
    let r8 = encode_bytes(p.director) + r9;
    let r7 = encode_bool(p.deleted) + r8;
    let r6 = be64(p.contestants) + r7;
    let r5 = be64(p.votes) + r6;
    let r4 = encode_text(p.description) + r5;
    let r3 = encode_text(p.title) + r4;
    let r2 = encode_text(p.image) + r3;
    let r1 = be64(p.id) + r2;
    assert(s.skip(1) =~= r1);
    lemma_parse_u64_inverts(p.id, r2);
    lemma_parse_text_inverts(p.image, r3);
    lemma_parse_text_inverts(p.title, r4);
    lemma_parse_text_inverts(p.description, r5);
    lemma_parse_u64_inverts(p.votes, r6);
    lemma_parse_u64_inverts(p.contestants, r7);
    lemma_parse_bool_inverts(p.deleted, r8);
    lemma_parse_bytes_inverts(p.director, r9);
    lemma_parse_u64_inverts(p.starts_at, r10);
    lemma_parse_u64_inverts(p.ends_at, r11);
    lemma_parse_u64_inverts(p.timestamp, r12);
    lemma_parse_bytes_list_inverts(p.voters, r13);
    lemma_parse_text_list_inverts(p.avatars, r14);
    lemma_parse_text_inverts(p.question, r15);
    lemma_parse_text_list_inverts(p.options, Seq::empty());
    assert(r15 + Seq::<u8>::empty() =~= r15);
    assert(poll_decoding(s).unwrap() =~= p);
}

/// Only the encoding of a poll is decoded to that poll.
pub proof fn lemma_poll_decoding_exact(s: Seq<u8>)
    ensures
        poll_decoding(s) matches Some(p) ==> poll_encoding(p) == s && p.fits(),
{
    reveal(poll_encoding);
    reveal(poll_decoding);
    if let Some(p) = poll_decoding(s) {
        let id = parse_u64(s.skip(1));
        let image = parse_text(rest(id));
        let title = parse_text(rest(image));
        let description = parse_text(rest(title));
        let votes = parse_u64(rest(description));
        let contestants = parse_u64(rest(votes));
        let deleted = parse_bool(rest(contestants));
        let director = parse_bytes(rest(deleted));
        let starts_at = parse_u64(rest(director));
        let ends_at = parse_u64(rest(starts_at));
        let timestamp = parse_u64(rest(ends_at));
        let voters = parse_bytes_list(rest(timestamp));
        let avatars = parse_text_list(rest(voters));
        let question = parse_text(rest(avatars));
        let options = parse_text_list(rest(question));
        lemma_parse_u64_exact(s.skip(1));
        lemma_parse_text_exact(rest(id));
        lemma_parse_text_exact(rest(image));
        lemma_parse_text_exact(rest(title));
        lemma_parse_u64_exact(rest(description));
        lemma_parse_u64_exact(rest(votes));
        lemma_parse_bool_exact(rest(contestants));
        lemma_parse_bytes_exact(rest(deleted));
        lemma_parse_u64_exact(rest(director));
        lemma_parse_u64_exact(rest(starts_at));
        lemma_parse_u64_exact(rest(ends_at));
        lemma_parse_bytes_list_exact(rest(timestamp));
        lemma_parse_text_list_exact(rest(voters));
        lemma_parse_text_exact(rest(avatars));
        lemma_parse_text_list_exact(rest(question));
        assert(rest(question) =~= encode_text_list(p.options));
        assert(s =~= seq![POLL_TAG] + s.skip(1));
    }
}

/// Appending in two steps is appending the two pieces joined.
proof fn lemma_regroup(a: Seq<u8>, b: Seq<u8>, c: Seq<u8>)
    ensures
        (a + b) + c == a + (b + c),
{
    assert((a + b) + c =~= a + (b + c));
}

/// Writes a poll as the bytes it is stored as.
pub fn encode_poll(p: &PollStruct) -> (bytes: Vec<u8>)
    ensures
        bytes@ == poll_encoding(p@),
        bytes@.len() > 0,
        p@.fits(),
{
    proof {
        reveal(poll_encoding);
    }
    let mut out: Vec<u8> = Vec::new();
    out.push(POLL_TAG);
    let ghost l0 = out@;
    put_u64(&mut out, p.id);
    let ghost l1 = out@;
    put_text(&mut out, &p.image);
    let ghost l2 = out@;
    put_text(&mut out, &p.title);
    let ghost l3 = out@;
    put_text(&mut out, &p.description);
    let ghost l4 = out@;
    put_u64(&mut out, p.votes);
    let ghost l5 = out@;
    put_u64(&mut out, p.contestants);
    let ghost l6 = out@;
    put_bool(&mut out, p.deleted);
    let ghost l7 = out@;
    assert(fits(p.director@.len())) by {
        assert(p.director@.len() == p.director.len());
    }
    put_bytes(&mut out, p.director.as_slice());
    let ghost l8 = out@;
    put_u64(&mut out, p.starts_at);
    let ghost l9 = out@;
    put_u64(&mut out, p.ends_at);
    let ghost l10 = out@;
    put_u64(&mut out, p.timestamp);
    let ghost l11 = out@;
    put_bytes_list(&mut out, &p.voters);
    let ghost l12 = out@;
    put_text_list(&mut out, &p.avatars);
    let ghost l13 = out@;
    put_text(&mut out, &p.question);
    let ghost l14 = out@;
    put_text_list(&mut out, &p.options);
    proof {
        let v = p@;
        let e15 = encode_text_list(v.options);
        let e14 = encode_text(v.question) + e15;
        let e13 = encode_text_list(v.avatars) + e14;
        let e12 = encode_bytes_list(v.voters) + e13;
        let e11 = be64(v.timestamp) + e12;
        let e10 = be64(v.ends_at) + e11;
        let e9 = be64(v.starts_at) + e10;
        let e8 = encode_bytes(v.director) + e9;
        let e7 = encode_bool(v.deleted) + e8;
        let e6 = be64(v.contestants) + e7;
        let e5 = be64(v.votes) + e6;
        let e4 = encode_text(v.description) + e5;
        let e3 = encode_text(v.title) + e4;
        let e2 = encode_text(v.image) + e3;
        let e1 = be64(v.id) + e2;
        lemma_regroup(l13, encode_text(v.question), e15);
        lemma_regroup(l12, encode_text_list(v.avatars), e14);
        lemma_regroup(l11, encode_bytes_list(v.voters), e13);
        lemma_regroup(l10, be64(v.timestamp), e12);
        lemma_regroup(l9, be64(v.ends_at), e11);
        lemma_regroup(l8, be64(v.starts_at), e10);
        lemma_regroup(l7, encode_bytes(v.director), e9);
        lemma_regroup(l6, encode_bool(v.deleted), e8);
        lemma_regroup(l5, be64(v.contestants), e7);
        lemma_regroup(l4, be64(v.votes), e6);
        lemma_regroup(l3, encode_text(v.description), e5);
        lemma_regroup(l2, encode_text(v.title), e4);
        lemma_regroup(l1, encode_text(v.image), e3);
        lemma_regroup(l0, be64(v.id), e2);
        assert(l0 =~= seq![POLL_TAG]);
        assert(out@ == l0 + e1);
    }
    out
}

/// Reads a poll back from the bytes it was stored as. Bytes that are not the
/// encoding of a poll are a malformed record.
pub fn decode_poll(bytes: &[u8]) -> (r: Result<PollStruct, ContractError>)
    ensures
        match r {
            Ok(p) => poll_decoding(bytes@) == Some(p@),
            Err(e) => e == ContractError::MalformedRecord && poll_decoding(bytes@) is None,
        },
{
    proof {
        reveal(poll_decoding);
    }
    if bytes.len() == 0 || bytes[0] != POLL_TAG {
        return Err(ContractError::MalformedRecord);
    }
    let rest = slice_subrange(bytes, 1, bytes.len());
    let (id, rest) = match take_u64(rest) {
        Some(found) => found,
        None => { return Err(ContractError::MalformedRecord); },
    };
    let (image, rest) = match take_text(rest) {
        Some(found) => found,
        None => { return Err(ContractError::MalformedRecord); },
    };
    let (title, rest) = match take_text(rest) {
        Some(found) => found,
        None => { return Err(ContractError::MalformedRecord); },
    };
    let (description, rest) = match take_text(rest) {
        Some(found) => found,
        None => { return Err(ContractError::MalformedRecord); },
    };
    let (votes, rest) = match take_u64(rest) {
        Some(found) => found,
        None => { return Err(ContractError::MalformedRecord); },
    };
    let (contestants, rest) = match take_u64(rest) {
        Some(found) => found,
        None => { return Err(ContractError::MalformedRecord); },
    };
    let (deleted, rest) = match take_bool(rest) {
        Some(found) => found,
        None => { return Err(ContractError::MalformedRecord); },
    };
    let (director, rest) = match take_bytes(rest) {
        Some(found) => found,
        None => { return Err(ContractError::MalformedRecord); },
    };
    let (starts_at, rest) = match take_u64(rest) {
        Some(found) => found,
        None => { return Err(ContractError::MalformedRecord); },
    };
    let (ends_at, rest) = match take_u64(rest) {
        Some(found) => found,
        None => { return Err(ContractError::MalformedRecord); },
    };
    let (timestamp, rest) = match take_u64(rest) {
        Some(found) => found,
        None => { return Err(ContractError::MalformedRecord); },
    };
    let (voters, rest) = match take_bytes_list(rest) {
        Some(found) => found,
        None => { return Err(ContractError::MalformedRecord); },
    };
    let (avatars, rest) = match take_text_list(rest) {
        Some(found) => found,
        None => { return Err(ContractError::MalformedRecord); },
    };
    let (question, rest) = match take_text(rest) {
        Some(found) => found,
        None => { return Err(ContractError::MalformedRecord); },
    };
    let (options, rest) = match take_text_list(rest) {
        Some(found) => found,
        None => { return Err(ContractError::MalformedRecord); },
    };
    if rest.len() != 0 {
        return Err(ContractError::MalformedRecord);
    }
    let p = PollStruct {
        id,
        image,
        title,
        description,
        votes,
        contestants,
        deleted,
        director,
        starts_at,
        ends_at,
        timestamp,
        voters,
        avatars,
        question,
        options,
    };
    assert(poll_decoding(bytes@).unwrap() =~= p@);
    Ok(p)
}

} // verus!
