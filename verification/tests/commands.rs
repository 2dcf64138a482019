use cosmwasm_std::{MemoryStorage, Order, Storage};
use poll_ledger::contract::{
    contest, create_poll, delete_poll, get_contestant, get_contestants, get_poll, get_polls,
    handle, has_voted, init, query, same_bytes, update_poll, vote, HandleMsg, HandleResponse,
    InitMsg, QueryMsg, QueryResponse,
};
use poll_ledger::error::ContractError;
use poll_ledger::keys::{contestant_key_bytes, counter_key_bytes, poll_key_bytes};
use poll_ledger::ledger::{
    generate_unique_poll_id, load_all_polls, load_contestant, load_contestants, load_poll,
    set_contestant, set_poll,
};
use poll_ledger::records::{
    decode_poll, encode_contestant, encode_poll, ContestantStruct, PollStruct,
};
use poll_ledger::store::scan;

fn addr(name: &str) -> Vec<u8> {
    name.as_bytes().to_vec()
}

fn dump(store: &MemoryStorage) -> Vec<(Vec<u8>, Vec<u8>)> {
    store.range(None, None, Order::Ascending).collect()
}

fn new_poll(store: &mut MemoryStorage, director: &Vec<u8>, title: &str) -> u64 {
    create_poll(store, 42, director, "img".to_string(), title.to_string(), "D".to_string(), 100, 200)
        .unwrap()
}

fn new_contestant(store: &mut MemoryStorage, who: &Vec<u8>, poll_id: u64, name: &str) -> u64 {
    contest(store, who, poll_id, name.to_string(), format!("{}.png", name)).unwrap()
}

#[test]
fn init_answers_empty_and_writes_nothing() {
    let mut store = MemoryStorage::new();
    assert_eq!(init(&mut store, InitMsg {}), Ok(HandleResponse::Empty));
    assert!(dump(&store).is_empty());
}

#[test]
fn poll_ids_count_up_from_one() {
    let mut store = MemoryStorage::new();
    let x = addr("X");
    let mut last = 0;
    for expected in 1..=20u64 {
        let id = new_poll(&mut store, &x, "T");
        assert_eq!(id, expected);
        assert!(id > last);
        last = id;
    }
}

#[test]
fn poll_ids_are_not_reused_after_other_commands() {
    let mut store = MemoryStorage::new();
    let x = addr("X");
    assert_eq!(new_poll(&mut store, &x, "a"), 1);
    assert_eq!(delete_poll(&mut store, 1), Ok(()));
    assert_eq!(new_poll(&mut store, &x, "b"), 2);
    assert_eq!(new_contestant(&mut store, &x, 2, "Alice"), 1);
    assert_eq!(vote(&mut store, &x, 2, 1), Ok(()));
    assert_eq!(
        update_poll(&mut store, 1, "i".into(), "t".into(), "d".into(), 1, 2),
        Ok(())
    );
    assert_eq!(new_poll(&mut store, &x, "c"), 3);
    assert!(load_poll(&store, 1).unwrap().deleted);
}

#[test]
fn counter_allocates_and_persists() {
    let mut store = MemoryStorage::new();
    assert_eq!(store.get(&counter_key_bytes()), None);
    assert_eq!(generate_unique_poll_id(&mut store), Ok(1));
    assert_eq!(store.get(&counter_key_bytes()), Some(1u64.to_be_bytes().to_vec()));
    assert_eq!(generate_unique_poll_id(&mut store), Ok(2));
    assert_eq!(generate_unique_poll_id(&mut store), Ok(3));
    assert_eq!(store.get(&counter_key_bytes()), Some(3u64.to_be_bytes().to_vec()));
    assert_eq!(dump(&store).len(), 1);
}

#[test]
fn counter_continues_from_the_stored_value() {
    let mut store = MemoryStorage::new();
    store.set(&counter_key_bytes(), &41u64.to_be_bytes());
    assert_eq!(generate_unique_poll_id(&mut store), Ok(42));
    store.set(&counter_key_bytes(), &0x0100u64.to_be_bytes());
    assert_eq!(generate_unique_poll_id(&mut store), Ok(257));
}

#[test]
fn exhausted_counter_is_a_storage_failure() {
    let mut store = MemoryStorage::new();
    store.set(&counter_key_bytes(), &u64::MAX.to_be_bytes());
    let before = dump(&store);
    assert_eq!(generate_unique_poll_id(&mut store), Err(ContractError::StorageFailure));
    assert_eq!(
        create_poll(&mut store, 1, &addr("X"), "i".into(), "t".into(), "d".into(), 1, 2),
        Err(ContractError::StorageFailure)
    );
    assert_eq!(dump(&store), before);

    store.set(&counter_key_bytes(), &(u64::MAX - 1).to_be_bytes());
    assert_eq!(generate_unique_poll_id(&mut store), Ok(u64::MAX));
}

#[test]
fn malformed_counter_is_refused() {
    let mut store = MemoryStorage::new();
    store.set(&counter_key_bytes(), b"7");
    let before = dump(&store);
    assert_eq!(generate_unique_poll_id(&mut store), Err(ContractError::MalformedRecord));
    assert_eq!(
        create_poll(&mut store, 1, &addr("X"), "i".into(), "t".into(), "d".into(), 1, 2),
        Err(ContractError::MalformedRecord)
    );
    assert_eq!(dump(&store), before);
    store.set(&counter_key_bytes(), &[0; 9]);
    assert_eq!(generate_unique_poll_id(&mut store), Err(ContractError::MalformedRecord));
}

#[test]
fn created_poll_has_the_given_fields_and_no_votes() {
    let mut store = MemoryStorage::new();
    let x = addr("director");
    let id =
        create_poll(&mut store, 777, &x, "img".into(), "T".into(), "D".into(), 300, 200).unwrap();
    let expected = PollStruct {
        id: 1,
        image: "img".to_string(),
        title: "T".to_string(),
        description: "D".to_string(),
        votes: 0,
        contestants: 0,
        deleted: false,
        director: x.clone(),
        starts_at: 300,
        ends_at: 200,
        timestamp: 777,
        voters: vec![],
        avatars: vec![],
        question: String::new(),
        options: vec![],
    };
    assert_eq!(id, 1);
    assert_eq!(load_poll(&store, 1), Ok(expected.clone()));
    assert_eq!(store.get(&poll_key_bytes(1)), Some(encode_poll(&expected)));
    assert_eq!(store.get(&counter_key_bytes()), Some(1u64.to_be_bytes().to_vec()));
    assert_eq!(dump(&store).len(), 2);
}

#[test]
fn update_overwrites_the_five_fields_only() {
    let mut store = MemoryStorage::new();
    let x = addr("X");
    let y = addr("Y");
    new_poll(&mut store, &x, "T");
    new_contestant(&mut store, &x, 1, "Alice");
    vote(&mut store, &y, 1, 1).unwrap();
    delete_poll(&mut store, 1).unwrap();
    let before = load_poll(&store, 1).unwrap();

    assert_eq!(
        update_poll(&mut store, 1, "new.png".into(), "New".into(), "Desc".into(), 5, 6),
        Ok(())
    );
    let after = load_poll(&store, 1).unwrap();
    let expected = PollStruct {
        image: "new.png".to_string(),
        title: "New".to_string(),
        description: "Desc".to_string(),
        starts_at: 5,
        ends_at: 6,
        ..before.clone()
    };
    assert_eq!(after, expected);
    assert_eq!(after.id, 1);
    assert_eq!(after.director, x);
    assert_eq!(after.votes, 1);
    assert_eq!(after.voters, vec![y]);
    assert_eq!(after.contestants, 1);
    assert!(after.deleted);
    assert_eq!(after.timestamp, before.timestamp);
}

#[test]
fn update_and_delete_of_a_missing_poll_are_not_found() {
    let mut store = MemoryStorage::new();
    new_poll(&mut store, &addr("X"), "T");
    let before = dump(&store);
    assert_eq!(
        update_poll(&mut store, 2, "i".into(), "t".into(), "d".into(), 1, 2),
        Err(ContractError::NotFound)
    );
    assert_eq!(delete_poll(&mut store, 2), Err(ContractError::NotFound));
    assert_eq!(delete_poll(&mut store, 0), Err(ContractError::NotFound));
    assert_eq!(dump(&store), before);
}

#[test]
fn delete_is_soft_and_idempotent() {
    let mut store = MemoryStorage::new();
    new_poll(&mut store, &addr("X"), "T");
    let fresh = load_poll(&store, 1).unwrap();
    assert!(!fresh.deleted);
    assert_eq!(delete_poll(&mut store, 1), Ok(()));
    let once = dump(&store);
    assert_eq!(load_poll(&store, 1), Ok(PollStruct { deleted: true, ..fresh }));
    assert_eq!(delete_poll(&mut store, 1), Ok(()));
    assert_eq!(dump(&store), once);
}

#[test]
fn contest_counts_up_within_each_poll() {
    let mut store = MemoryStorage::new();
    let x = addr("X");
    let y = addr("Y");
    new_poll(&mut store, &x, "one");
    new_poll(&mut store, &x, "two");
    assert_eq!(new_contestant(&mut store, &y, 1, "Alice"), 1);
    assert_eq!(new_contestant(&mut store, &y, 2, "Bob"), 1);
    assert_eq!(new_contestant(&mut store, &x, 1, "Carol"), 2);
    assert_eq!(new_contestant(&mut store, &x, 1, "Dave"), 3);
    assert_eq!(load_poll(&store, 1).unwrap().contestants, 3);
    assert_eq!(load_poll(&store, 2).unwrap().contestants, 1);
    assert!(load_poll(&store, 1).unwrap().avatars.is_empty());

    let expected = ContestantStruct {
        id: 2,
        image: "Carol.png".to_string(),
        name: "Carol".to_string(),
        voter: x.clone(),
        votes: 0,
        voters: vec![],
    };
    assert_eq!(load_contestant(&store, 1, 2), Ok(expected.clone()));
    assert_eq!(store.get(&contestant_key_bytes(1, 2)), Some(encode_contestant(&expected)));
    assert_eq!(load_contestant(&store, 2, 2), Err(ContractError::NotFound));
}

#[test]
fn contest_in_a_missing_poll_is_not_found() {
    let mut store = MemoryStorage::new();
    let before = dump(&store);
    assert_eq!(
        contest(&mut store, &addr("X"), 1, "Alice".into(), "a.png".into()),
        Err(ContractError::NotFound)
    );
    assert_eq!(dump(&store), before);
}

#[test]
fn contest_in_a_deleted_poll_is_accepted() {
    let mut store = MemoryStorage::new();
    let x = addr("X");
    new_poll(&mut store, &x, "T");
    delete_poll(&mut store, 1).unwrap();
    assert_eq!(contest(&mut store, &x, 1, "Alice".into(), "a.png".into()), Ok(1));
    assert_eq!(vote(&mut store, &x, 1, 1), Ok(()));
    assert!(load_poll(&store, 1).unwrap().deleted);
}

#[test]
fn contest_with_a_full_counter_is_a_storage_failure() {
    let mut store = MemoryStorage::new();
    let x = addr("X");
    new_poll(&mut store, &x, "T");
    let mut poll = load_poll(&store, 1).unwrap();
    poll.contestants = u64::MAX;
    set_poll(&mut store, 1, &poll);
    let before = dump(&store);
    assert_eq!(
        contest(&mut store, &x, 1, "Alice".into(), "a.png".into()),
        Err(ContractError::StorageFailure)
    );
    assert_eq!(dump(&store), before);
}

#[test]
fn vote_updates_poll_and_contestant() {
    let mut store = MemoryStorage::new();
    let x = addr("X");
    let y = addr("Y");
    let z = addr("Z");
    new_poll(&mut store, &x, "T");
    new_contestant(&mut store, &x, 1, "Alice");
    new_contestant(&mut store, &x, 1, "Bob");

    assert_eq!(vote(&mut store, &x, 1, 1), Ok(()));
    assert_eq!(vote(&mut store, &y, 1, 2), Ok(()));
    assert_eq!(vote(&mut store, &z, 1, 1), Ok(()));

    let poll = load_poll(&store, 1).unwrap();
    let alice = load_contestant(&store, 1, 1).unwrap();
    let bob = load_contestant(&store, 1, 2).unwrap();
    assert_eq!(poll.votes, 3);
    assert_eq!(poll.voters, vec![x.clone(), y.clone(), z.clone()]);
    assert_eq!(alice.votes, 2);
    assert_eq!(alice.voters, vec![x.clone(), z.clone()]);
    assert_eq!(bob.votes, 1);
    assert_eq!(bob.voters, vec![y.clone()]);
    assert_eq!(alice.voter, x);
    assert_eq!(poll.contestants, 2);
}

#[test]
fn aggregates_stay_consistent() {
    let mut store = MemoryStorage::new();
    let director = addr("director");
    for p in 1..=3u64 {
        new_poll(&mut store, &director, "T");
        for _ in 0..3 {
            new_contestant(&mut store, &director, p, "C");
        }
    }
    for v in 0..30u64 {
        let who = format!("voter{}", v % 12).into_bytes();
        let poll_id = 1 + v % 3;
        let contestant_id = 1 + (v / 3) % 3;
        let answer = vote(&mut store, &who, poll_id, contestant_id);
        assert!(answer == Ok(()) || answer == Err(ContractError::AlreadyVoted));
        if v % 7 == 0 {
            delete_poll(&mut store, poll_id).unwrap();
        }
    }
    for p in 1..=3u64 {
        let poll = load_poll(&store, p).unwrap();
        assert_eq!(poll.votes as usize, poll.voters.len());
        let mut distinct = poll.voters.clone();
        distinct.sort();
        distinct.dedup();
        assert_eq!(distinct.len(), poll.voters.len());
        let mut sum = 0;
        for contestant in load_contestants(&store, p).unwrap() {
            assert_eq!(contestant.votes as usize, contestant.voters.len());
            for voter in contestant.voters.iter() {
                assert!(poll.voters.contains(voter));
            }
            sum += contestant.votes;
        }
        assert_eq!(sum, poll.votes);
        assert!(poll.votes > 0);
    }
}

#[test]
fn second_vote_is_refused_and_changes_nothing() {
    let mut store = MemoryStorage::new();
    let x = addr("X");
    new_poll(&mut store, &x, "T");
    new_contestant(&mut store, &x, 1, "Alice");
    new_contestant(&mut store, &x, 1, "Bob");
    assert_eq!(vote(&mut store, &x, 1, 1), Ok(()));
    let before = dump(&store);
    assert_eq!(vote(&mut store, &x, 1, 1), Err(ContractError::AlreadyVoted));
    assert_eq!(vote(&mut store, &x, 1, 2), Err(ContractError::AlreadyVoted));
    assert_eq!(dump(&store), before);
    assert_eq!(load_contestant(&store, 1, 2).unwrap().votes, 0);
}

#[test]
fn second_vote_is_refused_after_other_commands() {
    let mut store = MemoryStorage::new();
    let x = addr("X");
    let y = addr("Y");
    new_poll(&mut store, &x, "T");
    new_contestant(&mut store, &x, 1, "Alice");
    assert_eq!(vote(&mut store, &x, 1, 1), Ok(()));
    update_poll(&mut store, 1, "i".into(), "t".into(), "d".into(), 1, 2).unwrap();
    new_contestant(&mut store, &y, 1, "Bob");
    vote(&mut store, &y, 1, 2).unwrap();
    delete_poll(&mut store, 1).unwrap();
    new_poll(&mut store, &x, "other");
    assert_eq!(vote(&mut store, &x, 1, 2), Err(ContractError::AlreadyVoted));
    assert_eq!(vote(&mut store, &y, 1, 1), Err(ContractError::AlreadyVoted));
}

#[test]
fn one_caller_may_vote_in_several_polls() {
    let mut store = MemoryStorage::new();
    let x = addr("X");
    new_poll(&mut store, &x, "one");
    new_poll(&mut store, &x, "two");
    new_contestant(&mut store, &x, 1, "Alice");
    new_contestant(&mut store, &x, 2, "Bob");
    assert_eq!(vote(&mut store, &x, 1, 1), Ok(()));
    assert_eq!(vote(&mut store, &x, 2, 1), Ok(()));
    assert_eq!(load_poll(&store, 1).unwrap().votes, 1);
    assert_eq!(load_poll(&store, 2).unwrap().votes, 1);
}

#[test]
fn vote_for_what_is_missing_is_not_found() {
    let mut store = MemoryStorage::new();
    let x = addr("X");
    assert_eq!(vote(&mut store, &x, 1, 1), Err(ContractError::NotFound));
    new_poll(&mut store, &x, "T");
    let before = dump(&store);
    assert_eq!(vote(&mut store, &x, 1, 1), Err(ContractError::NotFound));
    assert_eq!(vote(&mut store, &x, 2, 1), Err(ContractError::NotFound));
    assert_eq!(dump(&store), before);
    assert_eq!(load_poll(&store, 1).unwrap().votes, 0);
}

#[test]
fn already_voted_is_checked_before_the_contestant() {
    let mut store = MemoryStorage::new();
    let x = addr("X");
    new_poll(&mut store, &x, "T");
    new_contestant(&mut store, &x, 1, "Alice");
    vote(&mut store, &x, 1, 1).unwrap();
    assert_eq!(vote(&mut store, &x, 1, 99), Err(ContractError::AlreadyVoted));
    assert_eq!(vote(&mut store, &addr("Y"), 1, 99), Err(ContractError::NotFound));
}

#[test]
fn vote_with_a_full_count_is_a_storage_failure() {
    let mut store = MemoryStorage::new();
    let x = addr("X");
    new_poll(&mut store, &x, "T");
    new_contestant(&mut store, &x, 1, "Alice");
    let mut poll = load_poll(&store, 1).unwrap();
    poll.votes = u64::MAX;
    set_poll(&mut store, 1, &poll);
    let before = dump(&store);
    assert_eq!(vote(&mut store, &x, 1, 1), Err(ContractError::StorageFailure));
    assert_eq!(dump(&store), before);

    poll.votes = 0;
    set_poll(&mut store, 1, &poll);
    let mut alice = load_contestant(&store, 1, 1).unwrap();
    alice.votes = u64::MAX;
    set_contestant(&mut store, 1, &alice);
    let before = dump(&store);
    assert_eq!(vote(&mut store, &x, 1, 1), Err(ContractError::StorageFailure));
    assert_eq!(dump(&store), before);
}

#[test]
fn undecodable_records_are_malformed() {
    let mut store = MemoryStorage::new();
    let x = addr("X");
    new_poll(&mut store, &x, "T");
    new_contestant(&mut store, &x, 1, "Alice");
    store.set(&contestant_key_bytes(1, 1), b"{\"id\":1}");
    assert_eq!(load_contestant(&store, 1, 1), Err(ContractError::MalformedRecord));
    assert_eq!(get_contestant(&store, 1, 1), Err(ContractError::MalformedRecord));
    assert_eq!(load_contestants(&store, 1), Err(ContractError::MalformedRecord));
    assert_eq!(vote(&mut store, &x, 1, 1), Err(ContractError::MalformedRecord));

    store.set(&poll_key_bytes(1), b"garbage");
    let before = dump(&store);
    assert_eq!(load_poll(&store, 1), Err(ContractError::MalformedRecord));
    assert_eq!(get_poll(&store, 1), Err(ContractError::NotFound));
    assert_eq!(query(&store, QueryMsg::GetPoll { id: 1 }), Err(ContractError::NotFound));
    assert_eq!(load_all_polls(&store), Err(ContractError::MalformedRecord));
    assert_eq!(get_polls(&store), Err(ContractError::MalformedRecord));
    assert_eq!(delete_poll(&mut store, 1), Err(ContractError::MalformedRecord));
    assert_eq!(
        update_poll(&mut store, 1, "i".into(), "t".into(), "d".into(), 1, 2),
        Err(ContractError::MalformedRecord)
    );
    assert_eq!(
        contest(&mut store, &x, 1, "Bob".into(), "b.png".into()),
        Err(ContractError::MalformedRecord)
    );
    assert_eq!(vote(&mut store, &x, 1, 1), Err(ContractError::MalformedRecord));
    assert_eq!(dump(&store), before);
}

#[test]
fn set_poll_writes_under_the_given_id() {
    let mut store = MemoryStorage::new();
    let x = addr("X");
    new_poll(&mut store, &x, "T");
    let poll = load_poll(&store, 1).unwrap();
    set_poll(&mut store, 9, &poll);
    assert_eq!(load_poll(&store, 9), Ok(poll.clone()));
    assert_eq!(store.get(&poll_key_bytes(9)), Some(encode_poll(&poll)));
    assert_eq!(decode_poll(&store.get(&poll_key_bytes(9)).unwrap()), Ok(poll));
}

#[test]
fn all_polls_are_listed_in_ascending_order_of_id() {
    let mut store = MemoryStorage::new();
    let x = addr("X");
    assert_eq!(load_all_polls(&store), Ok(vec![]));
    for _ in 0..300 {
        new_poll(&mut store, &x, "T");
    }
    new_contestant(&mut store, &x, 1, "Alice");
    new_contestant(&mut store, &x, 256, "Bob");
    delete_poll(&mut store, 2).unwrap();
    delete_poll(&mut store, 300).unwrap();

    let polls = load_all_polls(&store).unwrap();
    assert_eq!(polls.len(), 300);
    for (i, poll) in polls.iter().enumerate() {
        assert_eq!(poll.id, i as u64 + 1);
        assert_eq!(*poll, load_poll(&store, poll.id).unwrap());
    }
    assert!(polls[1].deleted);
    assert!(polls[299].deleted);
    assert!(!polls[0].deleted);
    assert_eq!(get_polls(&store), Ok(QueryResponse::Polls(polls)));
}

#[test]
fn contestants_are_listed_for_their_poll_only() {
    let mut store = MemoryStorage::new();
    let x = addr("X");
    for _ in 0..12 {
        new_poll(&mut store, &x, "T");
    }
    assert_eq!(load_contestants(&store, 1), Ok(vec![]));
    // Interleave the creation across the polls 1, 10, 11 and 12.
    new_contestant(&mut store, &x, 10, "j1");
    new_contestant(&mut store, &x, 1, "a1");
    new_contestant(&mut store, &x, 11, "k1");
    new_contestant(&mut store, &x, 1, "a2");
    new_contestant(&mut store, &x, 12, "l1");
    new_contestant(&mut store, &x, 10, "j2");
    new_contestant(&mut store, &x, 1, "a3");

    let names = |poll_id: u64| -> Vec<String> {
        load_contestants(&store, poll_id).unwrap().into_iter().map(|c| c.name).collect()
    };
    assert_eq!(names(1), vec!["a1", "a2", "a3"]);
    assert_eq!(names(10), vec!["j1", "j2"]);
    assert_eq!(names(11), vec!["k1"]);
    assert_eq!(names(12), vec!["l1"]);
    assert_eq!(names(2), Vec::<String>::new());
    assert_eq!(names(100), Vec::<String>::new());

    let ids: Vec<u64> = load_contestants(&store, 1).unwrap().into_iter().map(|c| c.id).collect();
    assert_eq!(ids, vec![1, 2, 3]);
    match get_contestants(&store, 10) {
        Ok(QueryResponse::Contestants(found)) => {
            assert_eq!(found, load_contestants(&store, 10).unwrap());
            assert_eq!(found[0], load_contestant(&store, 10, 1).unwrap());
            assert_eq!(found[1], load_contestant(&store, 10, 2).unwrap());
        }
        other => panic!("unexpected answer: {:?}", other),
    }
}

#[test]
fn contestants_are_listed_in_the_order_of_their_keys() {
    let mut store = MemoryStorage::new();
    let x = addr("X");
    new_poll(&mut store, &x, "T");
    for i in 1..=11u64 {
        assert_eq!(new_contestant(&mut store, &x, 1, &format!("c{}", i)), i);
    }
    let ids: Vec<u64> = load_contestants(&store, 1).unwrap().into_iter().map(|c| c.id).collect();
    assert_eq!(ids, vec![1, 10, 11, 2, 3, 4, 5, 6, 7, 8, 9]);
}

#[test]
fn scan_lists_the_entries_under_a_prefix_in_order() {
    let mut store = MemoryStorage::new();
    store.set(b"ab", b"1");
    store.set(b"abc", b"2");
    store.set(b"ab\xff", b"3");
    store.set(b"ac", b"4");
    store.set(b"aa", b"5");
    store.set(b"a", b"6");
    store.set(b"b", b"7");
    assert_eq!(
        scan(&store, &b"ab".to_vec()),
        vec![
            (b"ab".to_vec(), b"1".to_vec()),
            (b"abc".to_vec(), b"2".to_vec()),
            (b"ab\xff".to_vec(), b"3".to_vec()),
        ]
    );
    assert_eq!(scan(&store, &b"b".to_vec()), vec![(b"b".to_vec(), b"7".to_vec())]);
    assert_eq!(scan(&store, &b"c".to_vec()), vec![]);
    assert_eq!(scan(&store, &b"a".to_vec()).len(), 6);
    assert_eq!(scan(&store, &Vec::new()), dump(&store));
    assert_eq!(scan(&store, &b"ab\xff".to_vec()), vec![(b"ab\xff".to_vec(), b"3".to_vec())]);
}

#[test]
fn scan_under_a_prefix_of_high_bytes() {
    let mut store = MemoryStorage::new();
    store.set(b"\xfe", b"1");
    store.set(b"\xff", b"2");
    store.set(b"\xff\x00", b"3");
    store.set(b"\xff\xff", b"4");
    store.set(b"\xff\xff\x01", b"5");
    assert_eq!(scan(&store, &vec![0xff]).len(), 4);
    assert_eq!(
        scan(&store, &vec![0xff, 0xff]),
        vec![(vec![0xff, 0xff], b"4".to_vec()), (vec![0xff, 0xff, 1], b"5".to_vec())]
    );
    assert_eq!(scan(&store, &vec![0xfe, 0xff]), vec![]);
    assert_eq!(scan(&store, &vec![0xfe]), vec![(vec![0xfe], b"1".to_vec())]);
}

#[test]
fn handle_dispatches_every_command() {
    let mut store = MemoryStorage::new();
    let x = addr("X");
    let create = HandleMsg::CreatePoll {
        image: "img".into(),
        title: "T".into(),
        description: "D".into(),
        starts_at: 100,
        ends_at: 200,
    };
    assert_eq!(handle(&mut store, 9, &x, create.clone()), Ok(HandleResponse::PollCreated { id: 1 }));
    assert_eq!(handle(&mut store, 9, &x, create), Ok(HandleResponse::PollCreated { id: 2 }));
    assert_eq!(
        handle(
            &mut store,
            10,
            &x,
            HandleMsg::Contest { poll_id: 2, name: "Alice".into(), avatar: "a.png".into() }
        ),
        Ok(HandleResponse::ContestantRegistered { id: 1 })
    );
    assert_eq!(
        handle(&mut store, 11, &x, HandleMsg::Vote { poll_id: 2, contestant_id: 1 }),
        Ok(HandleResponse::Empty)
    );
    assert_eq!(
        handle(&mut store, 12, &x, HandleMsg::Vote { poll_id: 2, contestant_id: 1 }),
        Err(ContractError::AlreadyVoted)
    );
    assert_eq!(
        handle(
            &mut store,
            13,
            &x,
            HandleMsg::UpdatePoll {
                id: 2,
                image: "i2".into(),
                title: "T2".into(),
                description: "D2".into(),
                starts_at: 1,
                ends_at: 2
            }
        ),
        Ok(HandleResponse::Empty)
    );
    assert_eq!(handle(&mut store, 14, &x, HandleMsg::DeletePoll { id: 2 }), Ok(HandleResponse::Empty));
    assert_eq!(
        handle(&mut store, 15, &x, HandleMsg::DeletePoll { id: 3 }),
        Err(ContractError::NotFound)
    );

    let poll = load_poll(&store, 2).unwrap();
    assert_eq!(poll.title, "T2");
    assert_eq!(poll.timestamp, 9);
    assert_eq!(poll.votes, 1);
    assert!(poll.deleted);
    assert!(!load_poll(&store, 1).unwrap().deleted);
}

#[test]
fn query_dispatches_every_query() {
    let mut store = MemoryStorage::new();
    let x = addr("X");
    new_poll(&mut store, &x, "one");
    new_poll(&mut store, &x, "two");
    new_contestant(&mut store, &x, 2, "Alice");
    let before = dump(&store);

    assert_eq!(
        query(&store, QueryMsg::GetPolls {}),
        Ok(QueryResponse::Polls(vec![load_poll(&store, 1).unwrap(), load_poll(&store, 2).unwrap()]))
    );
    assert_eq!(
        query(&store, QueryMsg::GetPoll { id: 2 }),
        Ok(QueryResponse::Poll(load_poll(&store, 2).unwrap()))
    );
    assert_eq!(
        query(&store, QueryMsg::GetContestants { poll_id: 2 }),
        Ok(QueryResponse::Contestants(vec![load_contestant(&store, 2, 1).unwrap()]))
    );
    assert_eq!(query(&store, QueryMsg::GetContestants { poll_id: 1 }), Ok(QueryResponse::Contestants(vec![])));
    assert_eq!(
        query(&store, QueryMsg::GetContestant { poll_id: 2, contestant_id: 1 }),
        Ok(QueryResponse::Contestant(load_contestant(&store, 2, 1).unwrap()))
    );
    assert_eq!(
        query(&store, QueryMsg::GetContestant { poll_id: 1, contestant_id: 1 }),
        Err(ContractError::NotFound)
    );
    assert_eq!(query(&store, QueryMsg::GetPoll { id: 3 }), Err(ContractError::NotFound));
    assert_eq!(dump(&store), before);
}

#[test]
fn addresses_are_compared_byte_by_byte() {
    assert!(same_bytes(&vec![], &vec![]));
    assert!(same_bytes(&vec![1, 2, 3], &vec![1, 2, 3]));
    assert!(!same_bytes(&vec![1, 2, 3], &vec![1, 2, 4]));
    assert!(!same_bytes(&vec![1, 2, 3], &vec![1, 2]));
    assert!(!same_bytes(&vec![], &vec![0]));

    let voters = vec![vec![1u8], vec![2, 3], vec![]];
    assert!(has_voted(&voters, &vec![2, 3]));
    assert!(has_voted(&voters, &vec![]));
    assert!(!has_voted(&voters, &vec![2]));
    assert!(!has_voted(&vec![], &vec![1]));
}
