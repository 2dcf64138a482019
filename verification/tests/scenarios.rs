use cosmwasm_std::MemoryStorage;
use poll_ledger::contract::{
    contest, create_poll, delete_poll, get_poll, handle, query, vote, HandleMsg, HandleResponse,
    QueryMsg, QueryResponse,
};
use poll_ledger::error::ContractError;
use poll_ledger::ledger::{load_contestant, load_poll};

fn caller(name: &str) -> Vec<u8> {
    name.as_bytes().to_vec()
}

#[test]
fn first_poll_first_contestant_first_vote() {
    let mut store = MemoryStorage::new();
    let x = caller("X");

    let id = create_poll(
        &mut store,
        1_000,
        &x,
        "img".to_string(),
        "T".to_string(),
        "D".to_string(),
        100,
        200,
    );
    assert_eq!(id, Ok(1));

    let contestant_id = contest(&mut store, &x, 1, "Alice".to_string(), "a.png".to_string());
    assert_eq!(contestant_id, Ok(1));
    let alice = load_contestant(&store, 1, 1).unwrap();
    assert_eq!(alice.id, 1);
    assert_eq!(alice.votes, 0);
    assert_eq!(alice.name, "Alice");
    assert_eq!(alice.image, "a.png");
    assert!(alice.voters.is_empty());

    assert_eq!(vote(&mut store, &x, 1, 1), Ok(()));
    let poll = load_poll(&store, 1).unwrap();
    let alice = load_contestant(&store, 1, 1).unwrap();
    assert_eq!(poll.votes, 1);
    assert_eq!(alice.votes, 1);
    assert!(poll.voters.contains(&x));
    assert!(alice.voters.contains(&x));

    assert_eq!(vote(&mut store, &x, 1, 1), Err(ContractError::AlreadyVoted));
    assert_eq!(load_poll(&store, 1).unwrap(), poll);
    assert_eq!(load_contestant(&store, 1, 1).unwrap(), alice);
}

#[test]
fn get_poll_on_empty_store_is_not_found() {
    let store = MemoryStorage::new();
    assert_eq!(get_poll(&store, 999), Err(ContractError::NotFound));
    assert_eq!(query(&store, QueryMsg::GetPoll { id: 999 }), Err(ContractError::NotFound));
}

#[test]
fn deleted_poll_is_still_returned() {
    let mut store = MemoryStorage::new();
    let x = caller("X");
    let created = handle(
        &mut store,
        5,
        &x,
        HandleMsg::CreatePoll {
            image: "img".to_string(),
            title: "T".to_string(),
            description: "D".to_string(),
            starts_at: 100,
            ends_at: 200,
        },
    );
    assert_eq!(created, Ok(HandleResponse::PollCreated { id: 1 }));
    assert_eq!(delete_poll(&mut store, 1), Ok(()));
    match get_poll(&store, 1) {
        Ok(QueryResponse::Poll(poll)) => {
            assert!(poll.deleted);
            assert_eq!(poll.id, 1);
            assert_eq!(poll.title, "T");
            assert_eq!(poll.timestamp, 5);
            assert_eq!(poll.director, x);
        }
        other => panic!("unexpected answer: {:?}", other),
    }
}
