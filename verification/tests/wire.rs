use poll_ledger::wire::{
    put_bool, put_bytes, put_bytes_list, put_text, put_text_list, put_u64, take_bool,
    take_bytes, take_bytes_list, take_text, take_text_list, take_u64,
};

#[test]
fn integer_is_eight_bytes_most_significant_first() {
    for n in [0u64, 1, 255, 256, 0x0102_0304_0506_0708, u64::MAX - 1, u64::MAX] {
        let mut out = vec![9u8];
        put_u64(&mut out, n);
        let mut expected = vec![9u8];
        expected.extend_from_slice(&n.to_be_bytes());
        assert_eq!(out, expected);
        out.push(77);
        assert_eq!(take_u64(&out[1..]), Some((n, &[77u8][..])));
    }
    let mut out = Vec::new();
    put_u64(&mut out, 0x0102_0304_0506_0708);
    assert_eq!(out, vec![1, 2, 3, 4, 5, 6, 7, 8]);
}

#[test]
fn integer_needs_eight_bytes() {
    assert_eq!(take_u64(&[1, 2, 3, 4, 5, 6, 7]), None);
    assert_eq!(take_u64(&[]), None);
    assert_eq!(take_u64(&[0, 0, 0, 0, 0, 0, 1, 0, 7]), Some((256, &[7u8][..])));
    assert_eq!(take_u64(&[0, 0, 0, 0, 0, 0, 1, 0]), Some((256, &[][..])));
}

#[test]
fn flag_is_one_byte_zero_or_one() {
    let mut out = Vec::new();
    put_bool(&mut out, true);
    put_bool(&mut out, false);
    assert_eq!(out, vec![1, 0]);
    assert_eq!(take_bool(&out), Some((true, &[0u8][..])));
    assert_eq!(take_bool(&out[1..]), Some((false, &[][..])));
    assert_eq!(take_bool(&out[2..]), None);
    assert_eq!(take_bool(&[2]), None);
    assert_eq!(take_bool(&[255]), None);
}

#[test]
fn byte_string_follows_its_length() {
    let mut out = Vec::new();
    put_bytes(&mut out, &[10, 20, 30]);
    assert_eq!(out, vec![0, 0, 0, 0, 0, 0, 0, 3, 10, 20, 30]);
    assert_eq!(take_bytes(&out), Some((vec![10, 20, 30], &[][..])));
    out.extend_from_slice(&[1, 2]);
    assert_eq!(take_bytes(&out), Some((vec![10, 20, 30], &[1u8, 2][..])));

    let mut empty = Vec::new();
    put_bytes(&mut empty, &[]);
    assert_eq!(empty, vec![0; 8]);
    assert_eq!(take_bytes(&empty), Some((vec![], &[][..])));
}

#[test]
fn byte_string_shorter_than_its_length_is_refused() {
    assert_eq!(take_bytes(&[0, 0, 0, 0, 0, 0, 0, 3, 10, 20]), None);
    assert_eq!(take_bytes(&[255, 255, 255, 255, 255, 255, 255, 255, 1]), None);
    assert_eq!(take_bytes(&[0, 0, 0]), None);
}

#[test]
fn text_is_utf8_behind_its_length() {
    let mut out = Vec::new();
    put_text(&mut out, &"hé".to_string());
    assert_eq!(out, vec![0, 0, 0, 0, 0, 0, 0, 3, b'h', 0xc3, 0xa9]);
    assert_eq!(take_text(&out), Some(("hé".to_string(), &[][..])));

    for text in ["", "a", "Alice", "naïve ☃ 𝄞", "\"quoted\" \\ \n\t\0"] {
        let mut out = vec![1u8, 2];
        put_text(&mut out, &text.to_string());
        out.push(9);
        assert_eq!(take_text(&out[2..]), Some((text.to_string(), &[9u8][..])));
    }
}

#[test]
fn text_that_is_not_utf8_is_refused() {
    assert_eq!(take_text(&[0, 0, 0, 0, 0, 0, 0, 1, 0xff]), None);
    assert_eq!(take_text(&[0, 0, 0, 0, 0, 0, 0, 2, 0xc3, 0x28]), None);
    assert_eq!(take_text(&[0, 0, 0, 0, 0, 0, 0, 1, 0xc3]), None);
    assert_eq!(take_text(&[0, 0, 0, 0, 0, 0, 0, 3, 0xed, 0xa0, 0x80]), None);
}

#[test]
fn long_text_round_trips() {
    let text: String = std::iter::repeat("0123456789abcdef€").take(20_000).collect();
    let mut out = Vec::new();
    put_text(&mut out, &text);
    assert_eq!(out.len(), 8 + text.len());
    assert_eq!(&out[..8], &(text.len() as u64).to_be_bytes());
    assert_eq!(take_text(&out), Some((text, &[][..])));
}

#[test]
fn list_of_byte_strings_follows_its_count() {
    let items = vec![vec![1u8], vec![], vec![2, 3]];
    let mut out = Vec::new();
    put_bytes_list(&mut out, &items);
    assert_eq!(
        out,
        vec![
            0, 0, 0, 0, 0, 0, 0, 3, 0, 0, 0, 0, 0, 0, 0, 1, 1, 0, 0, 0, 0, 0, 0, 0, 0, 0, 0, 0, 0,
            0, 0, 0, 2, 2, 3
        ]
    );
    assert_eq!(take_bytes_list(&out), Some((items, &[][..])));

    let mut empty = Vec::new();
    put_bytes_list(&mut empty, &Vec::new());
    assert_eq!(empty, vec![0; 8]);
    assert_eq!(take_bytes_list(&empty), Some((vec![], &[][..])));
}

#[test]
fn list_with_fewer_items_than_its_count_is_refused() {
    let mut out = Vec::new();
    put_bytes_list(&mut out, &vec![vec![1u8], vec![2]]);
    out[7] = 3;
    assert_eq!(take_bytes_list(&out), None);
    assert_eq!(take_bytes_list(&[255, 255, 255, 255, 255, 255, 255, 255]), None);
}

#[test]
fn list_of_texts_round_trips() {
    let items = vec!["a.png".to_string(), String::new(), "ß☃".to_string()];
    let mut out = vec![7u8];
    put_text_list(&mut out, &items);
    out.push(3);
    assert_eq!(take_text_list(&out[1..]), Some((items, &[3u8][..])));

    let mut one = Vec::new();
    put_text_list(&mut one, &vec!["ab".to_string()]);
    assert_eq!(one, vec![0, 0, 0, 0, 0, 0, 0, 1, 0, 0, 0, 0, 0, 0, 0, 2, b'a', b'b']);
}

#[test]
fn list_of_texts_with_a_bad_text_is_refused() {
    let mut out = Vec::new();
    put_bytes_list(&mut out, &vec![b"ok".to_vec(), vec![0xff]]);
    assert_eq!(take_text_list(&out), None);
}
