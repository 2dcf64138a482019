use poll_ledger::error::ContractError;
use poll_ledger::records::{
    decode_contestant, decode_poll, encode_contestant, encode_poll, ContestantStruct,
    PollStruct, CONTESTANT_TAG, POLL_TAG,
};

fn sample_poll() -> PollStruct {
    PollStruct {
        id: 7,
        image: "img.png".to_string(),
        title: "Best editor".to_string(),
        description: "Pick one — ☃".to_string(),
        votes: 2,
        contestants: 3,
        deleted: true,
        director: vec![1, 2, 3, 4],
        starts_at: 100,
        ends_at: 200,
        timestamp: 1_700_000_000,
        voters: vec![vec![9, 9], vec![8]],
        avatars: vec!["a.png".to_string(), "b.png".to_string()],
        question: "Which?".to_string(),
        options: vec!["x".to_string(), String::new(), "z".to_string()],
    }
}

fn empty_poll() -> PollStruct {
    PollStruct {
        id: 0,
        image: String::new(),
        title: String::new(),
        description: String::new(),
        votes: 0,
        contestants: 0,
        deleted: false,
        director: Vec::new(),
        starts_at: 0,
        ends_at: 0,
        timestamp: 0,
        voters: Vec::new(),
        avatars: Vec::new(),
        question: String::new(),
        options: Vec::new(),
    }
}

fn sample_contestant() -> ContestantStruct {
    ContestantStruct {
        id: 3,
        image: "a.png".to_string(),
        name: "Alice".to_string(),
        voter: vec![5, 6],
        votes: 1,
        voters: vec![vec![7]],
    }
}

#[test]
fn poll_round_trips() {
    for poll in [sample_poll(), empty_poll()] {
        let bytes = encode_poll(&poll);
        assert_eq!(decode_poll(&bytes), Ok(poll));
    }
}

#[test]
fn poll_with_extreme_values_round_trips() {
    let mut poll = sample_poll();
    poll.id = u64::MAX;
    poll.votes = u64::MAX;
    poll.contestants = u64::MAX;
    poll.starts_at = u64::MAX;
    poll.ends_at = 0;
    poll.timestamp = u64::MAX;
    poll.title = std::iter::repeat('é').take(100_000).collect();
    poll.voters = (0..1_000u32).map(|i| i.to_be_bytes().to_vec()).collect();
    poll.options = (0..500).map(|i| format!("option {}", i)).collect();
    let bytes = encode_poll(&poll);
    assert_eq!(decode_poll(&bytes), Ok(poll));
}

#[test]
fn poll_whose_votes_differ_from_its_voters_round_trips() {
    let mut poll = empty_poll();
    poll.votes = 5;
    let bytes = encode_poll(&poll);
    assert_eq!(decode_poll(&bytes), Ok(poll));
}

#[test]
fn empty_poll_has_the_expected_bytes() {
    let bytes = encode_poll(&empty_poll());
    let mut expected = vec![POLL_TAG];
    expected.extend_from_slice(&[0; 8]); // id
    expected.extend_from_slice(&[0; 8]); // image
    expected.extend_from_slice(&[0; 8]); // title
    expected.extend_from_slice(&[0; 8]); // description
    expected.extend_from_slice(&[0; 8]); // votes
    expected.extend_from_slice(&[0; 8]); // contestants
    expected.push(0); // deleted
    expected.extend_from_slice(&[0; 8]); // director
    expected.extend_from_slice(&[0; 8]); // starts_at
    expected.extend_from_slice(&[0; 8]); // ends_at
    expected.extend_from_slice(&[0; 8]); // timestamp
    expected.extend_from_slice(&[0; 8]); // voters
    expected.extend_from_slice(&[0; 8]); // avatars
    expected.extend_from_slice(&[0; 8]); // question
    expected.extend_from_slice(&[0; 8]); // options
    assert_eq!(bytes, expected);
    assert_eq!(POLL_TAG, b'P');
}

#[test]
fn contestant_has_the_expected_bytes() {
    let bytes = encode_contestant(&sample_contestant());
    let mut expected = vec![CONTESTANT_TAG];
    expected.extend_from_slice(&3u64.to_be_bytes());
    expected.extend_from_slice(&5u64.to_be_bytes());
    expected.extend_from_slice(b"a.png");
    expected.extend_from_slice(&5u64.to_be_bytes());
    expected.extend_from_slice(b"Alice");
    expected.extend_from_slice(&2u64.to_be_bytes());
    expected.extend_from_slice(&[5, 6]);
    expected.extend_from_slice(&1u64.to_be_bytes());
    expected.extend_from_slice(&1u64.to_be_bytes());
    expected.extend_from_slice(&1u64.to_be_bytes());
    expected.push(7);
    assert_eq!(bytes, expected);
    assert_eq!(CONTESTANT_TAG, b'C');
}

#[test]
fn contestant_round_trips() {
    let contestant = sample_contestant();
    assert_eq!(decode_contestant(&encode_contestant(&contestant)), Ok(contestant));

    let empty = ContestantStruct {
        id: 0,
        image: String::new(),
        name: String::new(),
        voter: Vec::new(),
        votes: 0,
        voters: Vec::new(),
    };
    assert_eq!(decode_contestant(&encode_contestant(&empty)), Ok(empty));

    let large = ContestantStruct {
        id: u64::MAX,
        image: std::iter::repeat("𝄞").take(50_000).collect(),
        name: "N".to_string(),
        voter: vec![0xff; 300],
        votes: u64::MAX,
        voters: (0..2_000u32).map(|i| i.to_le_bytes().to_vec()).collect(),
    };
    assert_eq!(decode_contestant(&encode_contestant(&large)), Ok(large));
}

#[test]
fn truncated_poll_is_malformed() {
    let bytes = encode_poll(&sample_poll());
    for cut in 0..bytes.len() {
        assert_eq!(decode_poll(&bytes[..cut]), Err(ContractError::MalformedRecord));
    }
}

#[test]
fn truncated_contestant_is_malformed() {
    let bytes = encode_contestant(&sample_contestant());
    for cut in 0..bytes.len() {
        assert_eq!(decode_contestant(&bytes[..cut]), Err(ContractError::MalformedRecord));
    }
}

#[test]
fn trailing_bytes_are_malformed() {
    let mut bytes = encode_poll(&sample_poll());
    bytes.push(0);
    assert_eq!(decode_poll(&bytes), Err(ContractError::MalformedRecord));
    let mut bytes = encode_contestant(&sample_contestant());
    bytes.push(0);
    assert_eq!(decode_contestant(&bytes), Err(ContractError::MalformedRecord));
}

#[test]
fn wrong_kind_of_record_is_malformed() {
    assert_eq!(
        decode_poll(&encode_contestant(&sample_contestant())),
        Err(ContractError::MalformedRecord)
    );
    assert_eq!(
        decode_contestant(&encode_poll(&sample_poll())),
        Err(ContractError::MalformedRecord)
    );
    let mut bytes = encode_poll(&sample_poll());
    bytes[0] = CONTESTANT_TAG;
    assert_eq!(decode_poll(&bytes), Err(ContractError::MalformedRecord));
    assert_eq!(decode_poll(&[]), Err(ContractError::MalformedRecord));
    assert_eq!(decode_contestant(&[]), Err(ContractError::MalformedRecord));
}

#[test]
fn wrong_field_contents_are_malformed() {
    // The flag of an empty poll sits behind the tag and six eight-byte fields.
    let mut bytes = encode_poll(&empty_poll());
    assert_eq!(bytes[49], 0);
    bytes[49] = 2;
    assert_eq!(decode_poll(&bytes), Err(ContractError::MalformedRecord));

    // A name that is not UTF-8.
    let mut bytes = encode_contestant(&sample_contestant());
    let name_at = 1 + 8 + 8 + 5 + 8;
    assert_eq!(bytes[name_at], b'A');
    bytes[name_at] = 0xff;
    assert_eq!(decode_contestant(&bytes), Err(ContractError::MalformedRecord));
}
