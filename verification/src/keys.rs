//! Where each record lives in the store.
//!
//! Three kinds of key share the store and never meet:
//!
//! * the counter of poll ids, under the fixed key `last_poll_id`;
//! * a poll, under `poll` followed by the eight bytes of its id, most
//!   significant first, so that polls sort by id;
//! * a contestant, under `contestant_<poll id>_<contestant id>`, both ids
//!   in decimal, so that the contestants of one poll are the keys that start
//!   with `contestant_<poll id>_`.

use crate::lex::{
    has_prefix, lemma_lex_lt_at, lemma_lex_lt_common_front, lemma_lex_lt_irreflexive,
    lemma_lex_lt_transitive, lex_lt,
};
use crate::wire::{be64, lemma_be64_injective, lemma_be64_value_of_be64, put_u64};
use vstd::prelude::*;

verus! {

/// The bytes of `poll`: what every poll key starts with.
pub open spec fn poll_prefix() -> Seq<u8> {
    seq![112u8, 111, 108, 108]
}

/// The key of the poll `id`.
pub open spec fn poll_key(id: u64) -> Seq<u8> {
    poll_prefix() + be64(id)
}

/// The bytes of `last_poll_id`: the key of the counter of poll ids.
pub open spec fn counter_key() -> Seq<u8> {
    seq![108u8, 97, 115, 116, 95, 112, 111, 108, 108, 95, 105, 100]
}

/// The bytes of `contestant_`: what every contestant key starts with.
pub open spec fn contestant_stem() -> Seq<u8> {
    seq![99u8, 111, 110, 116, 101, 115, 116, 97, 110, 116, 95]
}

/// The byte of `_`, which closes the poll id in a contestant key.
pub open spec fn mark() -> u8 {
    95
}

/// `n` in decimal digits, without leading zeros.
pub open spec fn decimal(n: nat) -> Seq<u8>
    decreases n,
{
    if n < 10 {
        seq![(48 + n) as u8]
    } else {
        decimal(n / 10).push((48 + n % 10) as u8)
    }
}

/// What the keys of all contestants of the poll `poll_id` start with.
pub open spec fn contestant_prefix(poll_id: u64) -> Seq<u8> {
    contestant_stem() + decimal(poll_id as nat) + seq![mark()]
}

/// The key of the contestant `id` of the poll `poll_id`.
pub open spec fn contestant_key(poll_id: u64, id: u64) -> Seq<u8> {
    contestant_prefix(poll_id) + decimal(id as nat)
}

/// Every byte of `s` is a decimal digit.
pub open spec fn all_digits(s: Seq<u8>) -> bool {
    forall|i: int| 0 <= i < s.len() ==> 48 <= #[trigger] s[i] <= 57
}

/// A number in decimal has at least one byte, and all of them are digits.
pub proof fn lemma_decimal_digits(n: nat)
    ensures
        decimal(n).len() >= 1,
        all_digits(decimal(n)),
    decreases n,
{
    if n >= 10 {
        lemma_decimal_digits(n / 10);
    }
}

/// Different numbers have different decimal forms.
pub proof fn lemma_decimal_injective(a: nat, b: nat)
    requires
        decimal(a) == decimal(b),
    ensures
        a == b,
    decreases a,
{
    lemma_decimal_digits(a / 10);
    lemma_decimal_digits(b / 10);
    if a < 10 && b < 10 {
        assert(decimal(a)[0] == (48 + a) as u8);
        assert(decimal(b)[0] == (48 + b) as u8);
        assert(a == b);
    } else if a >= 10 && b >= 10 {
        let x = decimal(a / 10);
        let y = decimal(b / 10);
        assert(decimal(a) == x.push((48 + a % 10) as u8));
        assert(decimal(b) == y.push((48 + b % 10) as u8));
        assert(decimal(a).last() == (48 + a % 10) as u8);
        assert(decimal(b).last() == (48 + b % 10) as u8);
        assert(a % 10 == b % 10);
        assert(x =~= decimal(a).drop_last());
        assert(y =~= decimal(b).drop_last());
        lemma_decimal_injective(a / 10, b / 10);
        assert(a == b);
    } else if a < 10 {
        assert(decimal(a).len() == 1);
        assert(decimal(b).len() == decimal(b / 10).len() + 1);
    } else {
        assert(decimal(b).len() == 1);
        assert(decimal(a).len() == decimal(a / 10).len() + 1);
    }
}

/// Two strings of digits, each closed by the mark and followed by anything:
/// if one such string starts with the other up to its mark, the digits agree.
proof fn lemma_digits_up_to_mark(d1: Seq<u8>, r1: Seq<u8>, d2: Seq<u8>)
    requires
        all_digits(d1),
        all_digits(d2),
        has_prefix(d1 + seq![mark()] + r1, d2 + seq![mark()]),
    ensures
        d1 == d2,
{
    let key = d1 + seq![mark()] + r1;
    let prefix = d2 + seq![mark()];
    let front = key.subrange(0, prefix.len() as int);
    assert(forall|i: int| 0 <= i < prefix.len() ==> front[i] == key[i]);
    if d1.len() < d2.len() {
        assert(key[d1.len() as int] == mark());
        assert(front[d1.len() as int] == d2[d1.len() as int]);
    } else if d2.len() < d1.len() {
        assert(front[d2.len() as int] == mark());
        assert(key[d2.len() as int] == d1[d2.len() as int]);
    } else {
        assert forall|i: int| 0 <= i < d1.len() implies d1[i] == d2[i] by {
            assert(front[i] == d2[i]);
            assert(key[i] == d1[i]);
        }
        assert(d1 =~= d2);
    }
}

/// Putting the same bytes in front of two strings changes neither whether
/// one starts with the other nor whether they are equal.
proof fn lemma_common_front(a: Seq<u8>, x: Seq<u8>, y: Seq<u8>)
    ensures
        has_prefix(a + x, a + y) <==> has_prefix(x, y),
        a + x == a + y <==> x == y,
{
    if has_prefix(a + x, a + y) {
        let front = (a + x).subrange(0, (a + y).len() as int);
        assert forall|i: int| 0 <= i < y.len() implies x.subrange(0, y.len() as int)[i]
            == y[i] by {
            assert(front[a.len() + i] == (a + y)[a.len() + i]);
        }
        assert(x.subrange(0, y.len() as int) =~= y);
    }
    if has_prefix(x, y) {
        let front = x.subrange(0, y.len() as int);
        assert forall|i: int| 0 <= i < (a + y).len() implies (a + x).subrange(
            0,
            (a + y).len() as int,
        )[i] == (a + y)[i] by {
            if i >= a.len() {
                assert(front[i - a.len()] == y[i - a.len()]);
            }
        }
        assert((a + x).subrange(0, (a + y).len() as int) =~= a + y);
    }
    if a + x == a + y {
        assert((a + x).len() == (a + y).len());
        assert forall|i: int| 0 <= i < x.len() implies x[i] == y[i] by {
            assert((a + x)[a.len() + i] == (a + y)[a.len() + i]);
        }
        assert(x =~= y);
    }
}

/// Different polls have different keys.
pub proof fn lemma_poll_key_injective(a: u64, b: u64)
    requires
        poll_key(a) == poll_key(b),
    ensures
        a == b,
{
    lemma_common_front(poll_prefix(), be64(a), be64(b));
    lemma_be64_injective(a, b);
}

/// The bytes of a smaller integer come before the bytes of a greater one.
proof fn lemma_be64_ascends(a: u64, b: u64)
    requires
        a < b,
    ensures
        lex_lt(be64(a), be64(b)),
{
    reveal(be64);
    let x = be64(a);
    let y = be64(b);
    let a1 = a / 256;
    let a2 = a1 / 256;
    let a3 = a2 / 256;
    let a4 = a3 / 256;
    let a5 = a4 / 256;
    let a6 = a5 / 256;
    let a7 = a6 / 256;
    let b1 = b / 256;
    let b2 = b1 / 256;
    let b3 = b2 / 256;
    let b4 = b3 / 256;
    let b5 = b4 / 256;
    let b6 = b5 / 256;
    let b7 = b6 / 256;
    assert(a1 <= b1 && a2 <= b2 && a3 <= b3 && a4 <= b4 && a5 <= b5 && a6 <= b6 && a7 <= b7);
    assert(a7 < 256 && b7 < 256);
    if x[0] != y[0] {
        lemma_lex_lt_at(x, y, 0);
    } else if x[1] != y[1] {
        assert(a7 == b7);
        lemma_lex_lt_at(x, y, 1);
    } else if x[2] != y[2] {
        assert(a6 == b6);
        lemma_lex_lt_at(x, y, 2);
    } else if x[3] != y[3] {
        assert(a5 == b5);
        lemma_lex_lt_at(x, y, 3);
    } else if x[4] != y[4] {
        assert(a4 == b4);
        lemma_lex_lt_at(x, y, 4);
    } else if x[5] != y[5] {
        assert(a3 == b3);
        lemma_lex_lt_at(x, y, 5);
    } else if x[6] != y[6] {
        assert(a2 == b2);
        lemma_lex_lt_at(x, y, 6);
    } else {
        assert(a1 == b1);
        lemma_lex_lt_at(x, y, 7);
    }
}

/// Polls sort by id: the key of one poll comes before the key of another
/// exactly when its id is the smaller one.
pub proof fn lemma_poll_keys_ascend(a: u64, b: u64)
    ensures
        a < b <==> lex_lt(poll_key(a), poll_key(b)),
{
    lemma_lex_lt_common_front(poll_prefix(), be64(a), be64(b));
    if a < b {
        lemma_be64_ascends(a, b);
    } else if b < a {
        lemma_be64_ascends(b, a);
        if lex_lt(be64(a), be64(b)) {
            lemma_lex_lt_transitive(be64(a), be64(b), be64(a));
            lemma_lex_lt_irreflexive(be64(a));
        }
    } else {
        lemma_lex_lt_irreflexive(be64(a));
    }
}

/// A contestant key starts with the prefix of a poll exactly when the
/// contestant belongs to that poll.
pub proof fn lemma_contestant_key_scope(poll_id: u64, id: u64, other: u64)
    ensures
        has_prefix(contestant_key(poll_id, id), contestant_prefix(other)) <==> poll_id == other,
{
    let d1 = decimal(poll_id as nat);
    let d2 = decimal(other as nat);
    let r1 = decimal(id as nat);
    let key = contestant_key(poll_id, id);
    assert(key =~= contestant_stem() + (d1 + seq![mark()] + r1));
    assert(contestant_prefix(other) =~= contestant_stem() + (d2 + seq![mark()]));
    lemma_common_front(contestant_stem(), d1 + seq![mark()] + r1, d2 + seq![mark()]);
    if poll_id == other {
        assert(key.subrange(0, contestant_prefix(other).len() as int) =~= contestant_prefix(
            other,
        ));
    } else if has_prefix(key, contestant_prefix(other)) {
        lemma_decimal_digits(poll_id as nat);
        lemma_decimal_digits(other as nat);
        lemma_digits_up_to_mark(d1, r1, d2);
        lemma_decimal_injective(poll_id as nat, other as nat);
    }
}

/// Different contestants have different keys.
pub proof fn lemma_contestant_key_injective(poll_a: u64, id_a: u64, poll_b: u64, id_b: u64)
    requires
        contestant_key(poll_a, id_a) == contestant_key(poll_b, id_b),
    ensures
        poll_a == poll_b,
        id_a == id_b,
{
    let key = contestant_key(poll_a, id_a);
    assert(key.subrange(0, contestant_prefix(poll_a).len() as int) =~= contestant_prefix(poll_a));
    lemma_contestant_key_scope(poll_b, id_b, poll_a);
    lemma_common_front(contestant_prefix(poll_a), decimal(id_a as nat), decimal(id_b as nat));
    lemma_decimal_injective(id_a as nat, id_b as nat);
}

/// The three kinds of key never meet: no key of one kind is a key of another
/// kind or falls under the prefix of another kind.
pub proof fn lemma_key_kinds_apart(poll_id: u64, other_poll: u64, id: u64)
    ensures
        has_prefix(poll_key(poll_id), poll_prefix()),
        !has_prefix(counter_key(), poll_prefix()),
        !has_prefix(contestant_key(other_poll, id), poll_prefix()),
        !has_prefix(counter_key(), contestant_prefix(other_poll)),
        !has_prefix(poll_key(poll_id), contestant_prefix(other_poll)),
        poll_key(poll_id) != counter_key(),
        poll_key(poll_id) != contestant_key(other_poll, id),
        contestant_key(other_poll, id) != counter_key(),
{
    let p = poll_key(poll_id);
    let c = contestant_key(other_poll, id);
    let cp = contestant_prefix(other_poll);
    lemma_be64_value_of_be64(poll_id);
    assert(p.subrange(0, 4) =~= poll_prefix());
    assert(p[0] == 112);
    assert(c[0] == 99);
    assert(cp[0] == 99);
    assert(counter_key()[0] == 108);
    assert(counter_key().subrange(0, 4)[0] == 108);
    assert(c.subrange(0, 4)[0] == 99);
    if cp.len() <= counter_key().len() {
        assert(counter_key().subrange(0, cp.len() as int)[0] == 108);
    }
    if cp.len() <= p.len() {
        assert(p.subrange(0, cp.len() as int)[0] == 112);
    }
}

/// Builds `poll_prefix()`.
pub fn poll_prefix_bytes() -> (key: Vec<u8>)
    ensures
        key@ == poll_prefix(),
{
    let mut key: Vec<u8> = Vec::new();
    key.push(112);
    key.push(111);
    key.push(108);
    key.push(108);
    assert(key@ =~= poll_prefix());
    key
}

/// Builds `poll_key(id)`.
pub fn poll_key_bytes(id: u64) -> (key: Vec<u8>)
    ensures
        key@ == poll_key(id),
{
    let mut key = poll_prefix_bytes();
    put_u64(&mut key, id);
    key
}

/// Builds `counter_key()`.
pub fn counter_key_bytes() -> (key: Vec<u8>)
    ensures
        key@ == counter_key(),
{
    let mut key: Vec<u8> = Vec::new();
    key.push(108);
    key.push(97);
    key.push(115);
    key.push(116);
    key.push(95);
    key.push(112);
    key.push(111);
    key.push(108);
    key.push(108);
    key.push(95);
    key.push(105);
    key.push(100);
    assert(key@ =~= counter_key());
    key
}

/// Appends `n` in decimal to `out`.
pub fn push_decimal(out: &mut Vec<u8>, n: u64)
    ensures
        final(out)@ == old(out)@ + decimal(n as nat),
    decreases n,
{
    if n >= 10 {
        push_decimal(out, n / 10);
    }
    out.push(48 + (n % 10) as u8);
    assert(out@ =~= old(out)@ + decimal(n as nat));
}

/// Builds `contestant_prefix(poll_id)`.
pub fn contestant_prefix_bytes(poll_id: u64) -> (key: Vec<u8>)
    ensures
        key@ == contestant_prefix(poll_id),
{
    let mut key: Vec<u8> = Vec::new();
    key.push(99);
    key.push(111);
    key.push(110);
    key.push(116);
    key.push(101);
    key.push(115);
    key.push(116);
    key.push(97);
    key.push(110);
    key.push(116);
    key.push(95);
    assert(key@ =~= contestant_stem());
    push_decimal(&mut key, poll_id);
    key.push(95);
    assert(key@ =~= contestant_prefix(poll_id));
    key
}

/// Builds `contestant_key(poll_id, id)`.
pub fn contestant_key_bytes(poll_id: u64, id: u64) -> (key: Vec<u8>)
    ensures
        key@ == contestant_key(poll_id, id),
{
    let mut key = contestant_prefix_bytes(poll_id);
    push_decimal(&mut key, id);
    key
}

} // verus!
