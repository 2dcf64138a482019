//! The byte layout of the values that records are made of.
//!
//! Every value is written so that a reader knows where it ends: integers take
//! eight bytes, most significant first; a flag takes one byte; a byte string
//! or a text is preceded by its length in bytes, a list by the number of its
//! items. For each kind there is a writer (`encode_..`), a reader that hands
//! back the value and the unread rest (`parse_..`), and the two facts that
//! make them inverses of each other.

use vstd::prelude::*;
use vstd::slice::{slice_subrange, slice_to_vec};
use vstd::utf8::*;

verus! {

/// The eight bytes of `n`, most significant first: each is the remainder by
/// 256 of what is left after the bytes behind it were taken off.
#[verifier::opaque]
pub open spec fn be64(n: u64) -> Seq<u8> {
    let n1 = n / 256;
    let n2 = n1 / 256;
    let n3 = n2 / 256;
    let n4 = n3 / 256;
    let n5 = n4 / 256;
    let n6 = n5 / 256;
    let n7 = n6 / 256;
    seq![
        (n7 % 256) as u8,
        (n6 % 256) as u8,
        (n5 % 256) as u8,
        (n4 % 256) as u8,
        (n3 % 256) as u8,
        (n2 % 256) as u8,
        (n1 % 256) as u8,
        (n % 256) as u8,
    ]
}

/// The integer whose eight bytes, most significant first, are `s`.
#[verifier::opaque]
pub open spec fn be64_value(s: Seq<u8>) -> u64
    recommends
        s.len() == 8,
{
    (((((((s[0] * 256 + s[1]) * 256 + s[2]) * 256 + s[3]) * 256 + s[4]) * 256 + s[5]) * 256
        + s[6]) * 256 + s[7]) as u64
}

/// Reading back the bytes of an integer gives the integer.
pub proof fn lemma_be64_value_of_be64(n: u64)
    ensures
        be64(n).len() == 8,
        be64_value(be64(n)) == n,
{
    reveal(be64);
    reveal(be64_value);
}

/// Writing the integer that eight bytes stand for gives those bytes.
pub proof fn lemma_be64_of_be64_value(s: Seq<u8>)
    requires
        s.len() == 8,
    ensures
        be64(be64_value(s)) == s,
{
    reveal(be64);
    reveal(be64_value);
    let h1 = s[0] * 256 + s[1];
    let h2 = h1 * 256 + s[2];
    let h3 = h2 * 256 + s[3];
    let h4 = h3 * 256 + s[4];
    let h5 = h4 * 256 + s[5];
    let h6 = h5 * 256 + s[6];
    let h7 = h6 * 256 + s[7];
    assert(h7 == be64_value(s));
    assert(h7 / 256 == h6 && h7 % 256 == s[7]);
    assert(h6 / 256 == h5 && h6 % 256 == s[6]);
    assert(h5 / 256 == h4 && h5 % 256 == s[5]);
    assert(h4 / 256 == h3 && h4 % 256 == s[4]);
    assert(h3 / 256 == h2 && h3 % 256 == s[3]);
    assert(h2 / 256 == h1 && h2 % 256 == s[2]);
    assert(h1 / 256 == s[0] && h1 % 256 == s[1]);
    assert(be64(be64_value(s)) =~= s);
}

/// Different integers have different bytes.
pub proof fn lemma_be64_injective(a: u64, b: u64)
    requires
        be64(a) == be64(b),
    ensures
        a == b,
{
    lemma_be64_value_of_be64(a);
    lemma_be64_value_of_be64(b);
}

/// Reads an integer off the front of `s`.
pub open spec fn parse_u64(s: Seq<u8>) -> Option<(u64, Seq<u8>)> {
    if s.len() >= 8 {
        Some((be64_value(s.take(8)), s.skip(8)))
    } else {
        None
    }
}

/// An integer that was written is read back, and what followed it is left.
pub proof fn lemma_parse_u64_inverts(n: u64, rest: Seq<u8>)
    ensures
        parse_u64(be64(n) + rest) == Some((n, rest)),
{
    let s = be64(n) + rest;
    lemma_be64_value_of_be64(n);
    assert(s.take(8) =~= be64(n));
    assert(s.skip(8) =~= rest);
}

/// What was read as an integer is the writing of that integer.
pub proof fn lemma_parse_u64_exact(s: Seq<u8>)
    ensures
        parse_u64(s) matches Some((n, rest)) ==> s == be64(n) + rest,
{
    if s.len() >= 8 {
        lemma_be64_of_be64_value(s.take(8));
        assert(s =~= s.take(8) + s.skip(8));
    }
}

/// Appends the eight bytes of `n` to `out`.
pub fn put_u64(out: &mut Vec<u8>, n: u64)
    ensures
        final(out)@ == old(out)@ + be64(n),
{
    let n1: u64 = n / 256;
    let n2: u64 = n1 / 256;
    let n3: u64 = n2 / 256;
    let n4: u64 = n3 / 256;
    let n5: u64 = n4 / 256;
    let n6: u64 = n5 / 256;
    let n7: u64 = n6 / 256;
    out.push((n7 % 256) as u8);
    out.push((n6 % 256) as u8);
    out.push((n5 % 256) as u8);
    out.push((n4 % 256) as u8);
    out.push((n3 % 256) as u8);
    out.push((n2 % 256) as u8);
    out.push((n1 % 256) as u8);
    out.push((n % 256) as u8);
    proof {
        reveal(be64);
    }
    assert(out@ =~= old(out)@ + be64(n));
}

/// Reads an integer off the front of `bytes`, and gives what is left.
pub fn take_u64<'a>(bytes: &'a [u8]) -> (r: Option<(u64, &'a [u8])>)
    ensures
        match r {
            Some((n, rest)) => parse_u64(bytes@) == Some((n, rest@)),
            None => parse_u64(bytes@) is None,
        },
{
    if bytes.len() < 8 {
        return None;
    }
    let mut n: u64 = bytes[0] as u64;
    n = n * 256 + bytes[1] as u64;
    n = n * 256 + bytes[2] as u64;
    n = n * 256 + bytes[3] as u64;
    n = n * 256 + bytes[4] as u64;
    n = n * 256 + bytes[5] as u64;
    n = n * 256 + bytes[6] as u64;
    n = n * 256 + bytes[7] as u64;
    proof {
        reveal(be64_value);
    }
    Some((n, slice_subrange(bytes, 8, bytes.len())))
}

/// The one byte of a flag: 1 for true, 0 for false.
pub open spec fn encode_bool(b: bool) -> Seq<u8> {
    seq![if b { 1u8 } else { 0u8 }]
}

/// Reads a flag off the front of `s`; a byte other than 0 and 1 is no flag.
pub open spec fn parse_bool(s: Seq<u8>) -> Option<(bool, Seq<u8>)> {
    if s.len() >= 1 && s[0] <= 1 {
        Some((s[0] == 1, s.skip(1)))
    } else {
        None
    }
}

/// A flag that was written is read back, and what followed it is left.
pub proof fn lemma_parse_bool_inverts(b: bool, rest: Seq<u8>)
    ensures
        parse_bool(encode_bool(b) + rest) == Some((b, rest)),
{
    assert((encode_bool(b) + rest).skip(1) =~= rest);
}

/// What was read as a flag is the writing of that flag.
pub proof fn lemma_parse_bool_exact(s: Seq<u8>)
    ensures
        parse_bool(s) matches Some((b, rest)) ==> s == encode_bool(b) + rest,
{
    if let Some((b, rest)) = parse_bool(s) {
        assert(s =~= encode_bool(b) + rest);
    }
}

/// Appends the byte of `b` to `out`.
pub fn put_bool(out: &mut Vec<u8>, b: bool)
    ensures
        final(out)@ == old(out)@ + encode_bool(b),
{
    out.push(if b { 1u8 } else { 0u8 });
    assert(out@ =~= old(out)@ + encode_bool(b));
}

/// Reads a flag off the front of `bytes`, and gives what is left.
pub fn take_bool<'a>(bytes: &'a [u8]) -> (r: Option<(bool, &'a [u8])>)
    ensures
        match r {
            Some((b, rest)) => parse_bool(bytes@) == Some((b, rest@)),
            None => parse_bool(bytes@) is None,
        },
{
    if bytes.len() == 0 || bytes[0] > 1 {
        return None;
    }
    Some((bytes[0] == 1, slice_subrange(bytes, 1, bytes.len())))
}

/// A length that an eight-byte count can hold.
pub open spec fn fits(len: nat) -> bool {
    len <= u64::MAX
}

/// A byte string behind its length.
pub open spec fn encode_bytes(b: Seq<u8>) -> Seq<u8>
    recommends
        fits(b.len()),
{
    be64(b.len() as u64) + b
}

/// Reads a byte string off the front of `s`: a length, then that many bytes.
pub open spec fn parse_bytes(s: Seq<u8>) -> Option<(Seq<u8>, Seq<u8>)> {
    match parse_u64(s) {
        Some((n, r)) => if n <= r.len() {
            Some((r.take(n as int), r.skip(n as int)))
        } else {
            None
        },
        None => None,
    }
}

/// A byte string that was written is read back, and what followed it is left.
pub proof fn lemma_parse_bytes_inverts(b: Seq<u8>, rest: Seq<u8>)
    requires
        fits(b.len()),
    ensures
        parse_bytes(encode_bytes(b) + rest) == Some((b, rest)),
{
    let n = b.len() as u64;
    lemma_parse_u64_inverts(n, b + rest);
    assert(encode_bytes(b) + rest =~= be64(n) + (b + rest));
    assert((b + rest).take(n as int) =~= b);
    assert((b + rest).skip(n as int) =~= rest);
}

/// What was read as a byte string is the writing of that byte string.
pub proof fn lemma_parse_bytes_exact(s: Seq<u8>)
    ensures
        parse_bytes(s) matches Some((b, rest)) ==> s == encode_bytes(b) + rest && fits(b.len()),
{
    if let Some((b, rest)) = parse_bytes(s) {
        lemma_parse_u64_exact(s);
        let (n, r) = parse_u64(s).unwrap();
        assert(r =~= b + rest);
        assert(s =~= encode_bytes(b) + rest);
    }
}

/// Appends `b`, behind its length, to `out`.
pub fn put_bytes(out: &mut Vec<u8>, b: &[u8])
    ensures
        final(out)@ == old(out)@ + encode_bytes(b@),
{
    put_u64(out, b.len() as u64);
    out.extend_from_slice(b);
    assert(out@ =~= old(out)@ + encode_bytes(b@));
}

/// Reads a byte string off the front of `bytes`, and gives what is left.
pub fn take_bytes<'a>(bytes: &'a [u8]) -> (r: Option<(Vec<u8>, &'a [u8])>)
    ensures
        match r {
            Some((b, rest)) => parse_bytes(bytes@) == Some((b@, rest@)),
            None => parse_bytes(bytes@) is None,
        },
{
    let (n, after) = match take_u64(bytes) {
        Some(found) => found,
        None => { return None; },
    };
    if n > after.len() as u64 {
        return None;
    }
    let count: usize = n as usize;
    let b = slice_to_vec(slice_subrange(after, 0, count));
    Some((b, slice_subrange(after, count, after.len())))
}

/// A text whose UTF-8 form has a length that an eight-byte count can hold.
pub open spec fn text_fits(t: Seq<char>) -> bool {
    fits(encode_utf8(t).len())
}

/// A text: its UTF-8 bytes behind their length.
pub open spec fn encode_text(t: Seq<char>) -> Seq<u8>
    recommends
        text_fits(t),
{
    encode_bytes(encode_utf8(t))
}

/// Reads a text off the front of `s`: a byte string that is valid UTF-8.
pub open spec fn parse_text(s: Seq<u8>) -> Option<(Seq<char>, Seq<u8>)> {
    match parse_bytes(s) {
        Some((b, r)) => if valid_utf8(b) {
            Some((decode_utf8(b), r))
        } else {
            None
        },
        None => None,
    }
}

/// A text that was written is read back, and what followed it is left.
pub proof fn lemma_parse_text_inverts(t: Seq<char>, rest: Seq<u8>)
    requires
        text_fits(t),
    ensures
        parse_text(encode_text(t) + rest) == Some((t, rest)),
{
    lemma_parse_bytes_inverts(encode_utf8(t), rest);
    encode_utf8_valid_utf8(t);
    encode_utf8_decode_utf8(t);
}

/// What was read as a text is the writing of that text.
pub proof fn lemma_parse_text_exact(s: Seq<u8>)
    ensures
        parse_text(s) matches Some((t, rest)) ==> s == encode_text(t) + rest && text_fits(t),
{
    if let Some((t, rest)) = parse_text(s) {
        lemma_parse_bytes_exact(s);
        let (b, r) = parse_bytes(s).unwrap();
        decode_utf8_encode_utf8(b);
    }
}

/// `String::from_utf8` of std: a text comes back exactly when `bytes` are
/// valid UTF-8, and it is then the text that they encode.
#[verifier::external_body]
fn text_from_utf8(bytes: Vec<u8>) -> (text: Option<String>)
    ensures
        text is Some <==> valid_utf8(bytes@),
        text matches Some(t) ==> t@ == decode_utf8(bytes@),
{
    match String::from_utf8(bytes) {
        Ok(t) => Some(t),
        Err(_) => None,
    }
}

/// Appends `t`, as UTF-8 behind its length in bytes, to `out`.
pub fn put_text(out: &mut Vec<u8>, t: &String)
    ensures
        final(out)@ == old(out)@ + encode_text(t@),
        text_fits(t@),
{
    let b = t.as_str().as_bytes();
    assert(fits(b@.len())) by {
        assert(b@.len() == b.len());
    }
    put_bytes(out, b);
}

/// Reads a text off the front of `bytes`, and gives what is left.
pub fn take_text<'a>(bytes: &'a [u8]) -> (r: Option<(String, &'a [u8])>)
    ensures
        match r {
            Some((t, rest)) => parse_text(bytes@) == Some((t@, rest@)),
            None => parse_text(bytes@) is None,
        },
{
    let (b, rest) = match take_bytes(bytes) {
        Some(found) => found,
        None => { return None; },
    };
    match text_from_utf8(b) {
        Some(t) => Some((t, rest)),
        None => None,
    }
}

/// A list of byte strings whose count and whose lengths eight-byte counts can hold.
pub open spec fn list_fits(items: Seq<Seq<u8>>) -> bool {
    &&& fits(items.len())
    &&& forall|i: int| 0 <= i < items.len() ==> fits(#[trigger] items[i].len())
}

/// Byte strings one after the other, each behind its length.
pub open spec fn encode_items(items: Seq<Seq<u8>>) -> Seq<u8>
    decreases items.len(),
{
    if items.len() == 0 {
        Seq::empty()
    } else {
        encode_bytes(items[0]) + encode_items(items.drop_first())
    }
}

/// Reads `count` byte strings off the front of `s`.
pub open spec fn parse_items(s: Seq<u8>, count: nat) -> Option<(Seq<Seq<u8>>, Seq<u8>)>
    decreases count,
{
    if count == 0 {
        Some((Seq::empty(), s))
    } else {
        match parse_bytes(s) {
            Some((first, r)) => match parse_items(r, (count - 1) as nat) {
                Some((others, rest)) => Some((seq![first] + others, rest)),
                None => None,
            },
            None => None,
        }
    }
}

/// A list of byte strings: the items behind their count.
pub open spec fn encode_bytes_list(items: Seq<Seq<u8>>) -> Seq<u8>
    recommends
        list_fits(items),
{
    be64(items.len() as u64) + encode_items(items)
}

/// Reads a list of byte strings off the front of `s`: a count, then that many items.
pub open spec fn parse_bytes_list(s: Seq<u8>) -> Option<(Seq<Seq<u8>>, Seq<u8>)> {
    match parse_u64(s) {
        Some((n, r)) => parse_items(r, n as nat),
        None => None,
    }
}

/// Writing one more item at the end appends its encoding.
pub proof fn lemma_encode_items_push(items: Seq<Seq<u8>>, last: Seq<u8>)
    ensures
        encode_items(items.push(last)) == encode_items(items) + encode_bytes(last),
    decreases items.len(),
{
    let all = items.push(last);
    if items.len() == 0 {
        assert(all.drop_first() =~= Seq::<Seq<u8>>::empty());
        assert(encode_items(all.drop_first()) =~= Seq::<u8>::empty());
        assert(encode_items(all) =~= encode_bytes(last));
        assert(encode_items(items) + encode_bytes(last) =~= encode_bytes(last));
    } else {
        lemma_encode_items_push(items.drop_first(), last);
        assert(all.drop_first() =~= items.drop_first().push(last));
        assert(encode_items(all) =~= encode_items(items) + encode_bytes(last));
    }
}

/// Items that were written are read back, and what followed them is left.
pub proof fn lemma_parse_items_inverts(items: Seq<Seq<u8>>, rest: Seq<u8>)
    requires
        forall|i: int| 0 <= i < items.len() ==> fits(#[trigger] items[i].len()),
    ensures
        parse_items(encode_items(items) + rest, items.len()) == Some((items, rest)),
    decreases items.len(),
{
    if items.len() == 0 {
        assert(encode_items(items) + rest =~= rest);
        assert(items =~= Seq::<Seq<u8>>::empty());
    } else {
        let others = items.drop_first();
        let after = encode_items(others) + rest;
        assert(encode_items(items) + rest =~= encode_bytes(items[0]) + after);
        lemma_parse_bytes_inverts(items[0], after);
        assert forall|i: int| 0 <= i < others.len() implies fits(#[trigger] others[i].len()) by {
            assert(others[i] == items[i + 1]);
        }
        lemma_parse_items_inverts(others, rest);
        assert(seq![items[0]] + others =~= items);
    }
}

/// What was read as `count` items is the writing of those items.
pub proof fn lemma_parse_items_exact(s: Seq<u8>, count: nat)
    ensures
        parse_items(s, count) matches Some((items, rest)) ==> {
            &&& s == encode_items(items) + rest
            &&& items.len() == count
            &&& forall|i: int| 0 <= i < items.len() ==> fits(#[trigger] items[i].len())
        },
    decreases count,
{
    if let Some((items, rest)) = parse_items(s, count) {
        if count == 0 {
            assert(s =~= encode_items(items) + rest);
        } else {
            lemma_parse_bytes_exact(s);
            let (first, r) = parse_bytes(s).unwrap();
            lemma_parse_items_exact(r, (count - 1) as nat);
            let (others, rest2) = parse_items(r, (count - 1) as nat).unwrap();
            assert(items.drop_first() =~= others);
            assert(s =~= encode_items(items) + rest);
            assert forall|i: int| 0 <= i < items.len() implies fits(#[trigger] items[i].len()) by {
                if i > 0 {
                    assert(items[i] == others[i - 1]);
                }
            }
        }
    }
}

/// A list that was written is read back, and what followed it is left.
pub proof fn lemma_parse_bytes_list_inverts(items: Seq<Seq<u8>>, rest: Seq<u8>)
    requires
        list_fits(items),
    ensures
        parse_bytes_list(encode_bytes_list(items) + rest) == Some((items, rest)),
{
    let n = items.len() as u64;
    lemma_parse_u64_inverts(n, encode_items(items) + rest);
    assert(encode_bytes_list(items) + rest =~= be64(n) + (encode_items(items) + rest));
    lemma_parse_items_inverts(items, rest);
}

/// What was read as a list is the writing of that list.
pub proof fn lemma_parse_bytes_list_exact(s: Seq<u8>)
    ensures
        parse_bytes_list(s) matches Some((items, rest)) ==> {
            &&& s == encode_bytes_list(items) + rest
            &&& list_fits(items)
        },
{
    if let Some((items, rest)) = parse_bytes_list(s) {
        lemma_parse_u64_exact(s);
        let (n, r) = parse_u64(s).unwrap();
        lemma_parse_items_exact(r, n as nat);
        assert(s =~= encode_bytes_list(items) + rest);
    }
}

/// The byte strings that a vector of byte vectors holds.
pub open spec fn byte_strings(items: Seq<Vec<u8>>) -> Seq<Seq<u8>> {
    items.map_values(|item: Vec<u8>| item@)
}

/// Appends the list `items`, behind its count, to `out`.
pub fn put_bytes_list(out: &mut Vec<u8>, items: &Vec<Vec<u8>>)
    ensures
        final(out)@ == old(out)@ + encode_bytes_list(byte_strings(items@)),
        list_fits(byte_strings(items@)),
{
    let ghost all = byte_strings(items@);
    put_u64(out, items.len() as u64);
    let ghost base = out@;
    let mut i: usize = 0;
    assert(encode_items(all.take(0)) =~= Seq::<u8>::empty());
    assert(base + encode_items(all.take(0)) =~= base);
    while i < items.len()
        invariant
            i <= items.len(),
            all == byte_strings(items@),
            out@ == base + encode_items(all.take(i as int)),
            forall|j: int| 0 <= j < i ==> fits(#[trigger] all[j].len()),
        decreases items.len() - i,
    {
        let item = items[i].as_slice();
        assert(fits(item@.len())) by {
            assert(item@.len() == item.len());
        }
        put_bytes(out, item);
        proof {
            lemma_encode_items_push(all.take(i as int), all[i as int]);
            assert(all.take(i as int).push(all[i as int]) =~= all.take(i + 1));
            assert(out@ =~= base + encode_items(all.take(i + 1)));
        }
        i += 1;
    }
    assert(all.take(items.len() as int) =~= all);
    assert(out@ =~= old(out)@ + encode_bytes_list(all));
}

/// Reads a list of byte strings off the front of `bytes`, and gives what is
/// left.
pub fn take_bytes_list<'a>(bytes: &'a [u8]) -> (r: Option<(Vec<Vec<u8>>, &'a [u8])>)
    ensures
        match r {
            Some((items, rest)) => parse_bytes_list(bytes@) == Some(
                (byte_strings(items@), rest@),
            ),
            None => parse_bytes_list(bytes@) is None,
        },
{
    let (n, start) = match take_u64(bytes) {
        Some(found) => found,
        None => { return None; },
    };
    let ghost whole = parse_items(start@, n as nat);
    let mut items: Vec<Vec<u8>> = Vec::new();
    let mut cur: &[u8] = start;
    let mut i: u64 = 0;
    assert(byte_strings(items@) =~= Seq::<Seq<u8>>::empty());
    assert(whole == joined(byte_strings(items@), parse_items(cur@, n as nat))) by {
        if let Some((tail, rest)) = whole {
            assert(byte_strings(items@) + tail =~= tail);
        }
    }
    while i < n
        invariant
            i <= n,
            parse_u64(bytes@) == Some((n, start@)),
            whole == parse_items(start@, n as nat),
            whole == joined(byte_strings(items@), parse_items(cur@, (n - i) as nat)),
        decreases n - i,
    {
        let ghost before = byte_strings(items@);
        match take_bytes(cur) {
            Some((item, next)) => {
                proof {
                    let later = parse_items(next@, (n - i - 1) as nat);
                    if let Some((tail, rest)) = later {
                        assert(before.push(item@) + tail =~= before + (seq![item@] + tail));
                    }
                }
                items.push(item);
                assert(byte_strings(items@) =~= before.push(item@));
                cur = next;
            },
            None => {
                return None;
            },
        }
        i += 1;
    }
    proof {
        assert(byte_strings(items@) + Seq::<Seq<u8>>::empty() =~= byte_strings(items@));
    }
    Some((items, cur))
}

/// The items read so far, followed by what reading on gives.
pub open spec fn joined(
    front: Seq<Seq<u8>>,
    later: Option<(Seq<Seq<u8>>, Seq<u8>)>,
) -> Option<(Seq<Seq<u8>>, Seq<u8>)> {
    match later {
        Some((tail, rest)) => Some((front + tail, rest)),
        None => None,
    }
}

/// The UTF-8 form of each text of a list.
pub open spec fn utf8_forms(texts: Seq<Seq<char>>) -> Seq<Seq<u8>> {
    texts.map_values(|t: Seq<char>| encode_utf8(t))
}

/// A list of texts whose count and whose UTF-8 lengths eight-byte counts can hold.
pub open spec fn text_list_fits(texts: Seq<Seq<char>>) -> bool {
    list_fits(utf8_forms(texts))
}

/// A list of texts: the list of their UTF-8 forms.
pub open spec fn encode_text_list(texts: Seq<Seq<char>>) -> Seq<u8>
    recommends
        text_list_fits(texts),
{
    encode_bytes_list(utf8_forms(texts))
}

/// Reads a list of texts off the front of `s`: a list of byte strings, each
/// of them valid UTF-8.
pub open spec fn parse_text_list(s: Seq<u8>) -> Option<(Seq<Seq<char>>, Seq<u8>)> {
    match parse_bytes_list(s) {
        Some((items, rest)) => if forall|i: int|
            0 <= i < items.len() ==> valid_utf8(#[trigger] items[i]) {
            Some((items.map_values(|b: Seq<u8>| decode_utf8(b)), rest))
        } else {
            None
        },
        None => None,
    }
}

/// A list of texts that was written is read back, and what followed it is left.
pub proof fn lemma_parse_text_list_inverts(texts: Seq<Seq<char>>, rest: Seq<u8>)
    requires
        text_list_fits(texts),
    ensures
        parse_text_list(encode_text_list(texts) + rest) == Some((texts, rest)),
{
    let items = utf8_forms(texts);
    lemma_parse_bytes_list_inverts(items, rest);
    assert forall|i: int| 0 <= i < items.len() implies valid_utf8(#[trigger] items[i]) by {
        encode_utf8_valid_utf8(texts[i]);
    }
    let back = items.map_values(|b: Seq<u8>| decode_utf8(b));
    assert forall|i: int| 0 <= i < texts.len() implies back[i] == texts[i] by {
        encode_utf8_decode_utf8(texts[i]);
    }
    assert(back =~= texts);
}

/// What was read as a list of texts is the writing of that list.
pub proof fn lemma_parse_text_list_exact(s: Seq<u8>)
    ensures
        parse_text_list(s) matches Some((texts, rest)) ==> {
            &&& s == encode_text_list(texts) + rest
            &&& text_list_fits(texts)
        },
{
    if let Some((texts, rest)) = parse_text_list(s) {
        lemma_parse_bytes_list_exact(s);
        let (items, r) = parse_bytes_list(s).unwrap();
        assert forall|i: int| 0 <= i < items.len() implies utf8_forms(texts)[i] == items[i] by {
            assert(valid_utf8(items[i]));
            decode_utf8_encode_utf8(items[i]);
        }
        assert(utf8_forms(texts) =~= items);
    }
}

/// The texts that a vector of strings holds.
pub open spec fn texts_of(items: Seq<String>) -> Seq<Seq<char>> {
    items.map_values(|item: String| item@)
}

/// Appends the list of texts `items`, behind its count, to `out`.
pub fn put_text_list(out: &mut Vec<u8>, items: &Vec<String>)
    ensures
        final(out)@ == old(out)@ + encode_text_list(texts_of(items@)),
        text_list_fits(texts_of(items@)),
{
    let ghost all = utf8_forms(texts_of(items@));
    put_u64(out, items.len() as u64);
    let ghost base = out@;
    let mut i: usize = 0;
    assert(encode_items(all.take(0)) =~= Seq::<u8>::empty());
    assert(base + encode_items(all.take(0)) =~= base);
    while i < items.len()
        invariant
            i <= items.len(),
            all == utf8_forms(texts_of(items@)),
            out@ == base + encode_items(all.take(i as int)),
            forall|j: int| 0 <= j < i ==> fits(#[trigger] all[j].len()),
        decreases items.len() - i,
    {
        put_text(out, &items[i]);
        proof {
            assert(all[i as int] == encode_utf8(items@[i as int]@));
            lemma_encode_items_push(all.take(i as int), all[i as int]);
            assert(all.take(i as int).push(all[i as int]) =~= all.take(i + 1));
            assert(out@ =~= base + encode_items(all.take(i + 1)));
        }
        i += 1;
    }
    assert(all.take(items.len() as int) =~= all);
    assert(out@ =~= old(out)@ + encode_text_list(texts_of(items@)));
}

/// Reads a list of texts off the front of `bytes`, and gives what is left.
pub fn take_text_list<'a>(bytes: &'a [u8]) -> (r: Option<(Vec<String>, &'a [u8])>)
    ensures
        match r {
            Some((items, rest)) => parse_text_list(bytes@) == Some((texts_of(items@), rest@)),
            None => parse_text_list(bytes@) is None,
        },
{
    let (raw, rest) = match take_bytes_list(bytes) {
        Some(found) => found,
        None => { return None; },
    };
    let ghost forms = byte_strings(raw@);
    let mut items: Vec<String> = Vec::new();
    let mut i: usize = 0;
    while i < raw.len()
        invariant
            i <= raw.len(),
            forms == byte_strings(raw@),
            parse_bytes_list(bytes@) == Some((forms, rest@)),
            items@.len() == i,
            forall|j: int| 0 <= j < i ==> valid_utf8(#[trigger] forms[j]),
            forall|j: int| 0 <= j < i ==> (#[trigger] items@[j])@ == decode_utf8(forms[j]),
        decreases raw.len() - i,
    {
        match text_from_utf8(raw[i].clone()) {
            Some(t) => {
                items.push(t);
            },
            None => {
                assert(!valid_utf8(forms[i as int]));
                return None;
            },
        }
        i += 1;
    }
    assert(texts_of(items@) =~= forms.map_values(|b: Seq<u8>| decode_utf8(b)));
    Some((items, rest))
}

} // verus!
