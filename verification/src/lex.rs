//! Byte strings in dictionary order, and the range of keys that share a prefix.

use vstd::prelude::*;

verus! {

/// `a` comes strictly before `b` in dictionary order: at the first position
/// where they differ `a` has the smaller byte, or `a` ends there and `b` goes on.
pub open spec fn lex_lt(a: Seq<u8>, b: Seq<u8>) -> bool
    decreases a.len(),
{
    if b.len() == 0 {
        false
    } else if a.len() == 0 {
        true
    } else if a[0] != b[0] {
        a[0] < b[0]
    } else {
        lex_lt(a.drop_first(), b.drop_first())
    }
}

/// `a` comes before `b` or equals it.
pub open spec fn lex_le(a: Seq<u8>, b: Seq<u8>) -> bool {
    a == b || lex_lt(a, b)
}

/// `key` starts with `prefix`.
pub open spec fn has_prefix(key: Seq<u8>, prefix: Seq<u8>) -> bool {
    prefix.len() <= key.len() && key.subrange(0, prefix.len() as int) == prefix
}

/// The first byte string after all those that start with `prefix`: `prefix`
/// without the bytes 255 at its end, and the byte before them raised by one.
/// There is none where `prefix` is empty or made of bytes 255 only: the
/// strings that start with it then go on to the end of the order.
pub open spec fn prefix_end(prefix: Seq<u8>) -> Option<Seq<u8>>
    decreases prefix.len(),
{
    if prefix.len() == 0 {
        None
    } else {
        match prefix_end(prefix.drop_first()) {
            Some(end) => Some(seq![prefix[0]] + end),
            None => if prefix[0] < 255 {
                Some(seq![(prefix[0] + 1) as u8])
            } else {
                None
            },
        }
    }
}

/// `key` comes before `end`, or there is no end.
pub open spec fn before_end(key: Seq<u8>, end: Option<Seq<u8>>) -> bool {
    match end {
        Some(end) => lex_lt(key, end),
        None => true,
    }
}

/// No byte string comes before itself.
pub proof fn lemma_lex_lt_irreflexive(a: Seq<u8>)
    ensures
        !lex_lt(a, a),
    decreases a.len(),
{
    if a.len() > 0 {
        lemma_lex_lt_irreflexive(a.drop_first());
    }
}

/// Dictionary order is transitive.
pub proof fn lemma_lex_lt_transitive(a: Seq<u8>, b: Seq<u8>, c: Seq<u8>)
    requires
        lex_lt(a, b),
        lex_lt(b, c),
    ensures
        lex_lt(a, c),
    decreases a.len(),
{
    if a.len() > 0 && a[0] == b[0] && b[0] == c[0] {
        lemma_lex_lt_transitive(a.drop_first(), b.drop_first(), c.drop_first());
    }
}

/// A string comes before another where, behind a common front, it has the
/// smaller byte.
pub proof fn lemma_lex_lt_at(a: Seq<u8>, b: Seq<u8>, i: int)
    requires
        0 <= i < a.len(),
        i < b.len(),
        forall|j: int| 0 <= j < i ==> a[j] == b[j],
        a[i] < b[i],
    ensures
        lex_lt(a, b),
    decreases i,
{
    if i > 0 {
        assert(a[0] == b[0]);
        lemma_lex_lt_at(a.drop_first(), b.drop_first(), i - 1);
    }
}

/// Putting the same bytes in front of two strings does not change their order.
pub proof fn lemma_lex_lt_common_front(front: Seq<u8>, a: Seq<u8>, b: Seq<u8>)
    ensures
        lex_lt(front + a, front + b) <==> lex_lt(a, b),
    decreases front.len(),
{
    if front.len() == 0 {
        assert(front + a =~= a);
        assert(front + b =~= b);
    } else {
        let rest = front.drop_first();
        assert((front + a).drop_first() =~= rest + a);
        assert((front + b).drop_first() =~= rest + b);
        lemma_lex_lt_common_front(rest, a, b);
    }
}

/// The keys that start with `prefix` are exactly those from `prefix` up to,
/// and not including, `prefix_end(prefix)`.
pub proof fn lemma_prefix_is_range(prefix: Seq<u8>, key: Seq<u8>)
    ensures
        has_prefix(key, prefix) <==> lex_le(prefix, key) && before_end(key, prefix_end(prefix)),
    decreases prefix.len(),
{
    if prefix.len() == 0 {
        assert(key.subrange(0, 0) =~= prefix);
        if key.len() == 0 {
            assert(key =~= prefix);
        }
    } else if key.len() == 0 {
        assert(!lex_lt(prefix, key));
    } else {
        let p = prefix.drop_first();
        let k = key.drop_first();
        if key[0] == prefix[0] {
            lemma_prefix_is_range(p, k);
            lemma_drop_first_prefix(key, prefix);
            lemma_drop_first_equal(prefix, key);
            match prefix_end(p) {
                Some(end) => {
                    assert((seq![prefix[0]] + end).drop_first() =~= end);
                },
                None => {},
            }
        } else {
            if prefix.len() <= key.len() {
                assert(key.subrange(0, prefix.len() as int)[0] == key[0]);
            }
            match prefix_end(p) {
                Some(end) => {},
                None => {
                    if prefix[0] < 255 {
                        let end = seq![(prefix[0] + 1) as u8];
                        assert(!lex_lt(k, end.drop_first()));
                    }
                },
            }
        }
    }
}

/// Where a prefix ends in a byte 255, its end is that of the prefix without it.
proof fn lemma_prefix_end_skips(prefix: Seq<u8>)
    requires
        prefix.len() > 0,
        prefix.last() == 255,
    ensures
        prefix_end(prefix) == prefix_end(prefix.drop_last()),
    decreases prefix.len(),
{
    if prefix.len() == 1 {
        assert(prefix.drop_first().len() == 0);
        assert(prefix.drop_last().len() == 0);
    } else {
        let rest = prefix.drop_first();
        lemma_prefix_end_skips(rest);
        assert(prefix.drop_last().drop_first() =~= rest.drop_last());
        assert(prefix.drop_last()[0] == prefix[0]);
    }
}

/// Where a prefix ends in a byte below 255, its end is the prefix with that
/// byte raised by one.
proof fn lemma_prefix_end_raises(prefix: Seq<u8>)
    requires
        prefix.len() > 0,
        prefix.last() < 255,
    ensures
        prefix_end(prefix) == Some(
            prefix.update(prefix.len() - 1, (prefix.last() + 1) as u8),
        ),
    decreases prefix.len(),
{
    let raised = prefix.update(prefix.len() - 1, (prefix.last() + 1) as u8);
    if prefix.len() == 1 {
        assert(prefix.drop_first().len() == 0);
        assert(raised =~= seq![(prefix[0] + 1) as u8]);
    } else {
        let rest = prefix.drop_first();
        lemma_prefix_end_raises(rest);
        assert(seq![prefix[0]] + rest.update(rest.len() - 1, (rest.last() + 1) as u8)
            =~= raised);
    }
}

/// With equal first bytes, one string starts with the other exactly when the
/// same holds after the first byte is dropped from both.
proof fn lemma_drop_first_prefix(key: Seq<u8>, prefix: Seq<u8>)
    requires
        key.len() > 0,
        prefix.len() > 0,
        key[0] == prefix[0],
    ensures
        has_prefix(key, prefix) <==> has_prefix(key.drop_first(), prefix.drop_first()),
{
    let k = key.drop_first();
    let p = prefix.drop_first();
    if has_prefix(k, p) {
        let front = key.subrange(0, prefix.len() as int);
        assert forall|i: int| 0 <= i < prefix.len() implies front[i] == prefix[i] by {
            if i > 0 {
                assert(k.subrange(0, p.len() as int)[i - 1] == p[i - 1]);
            }
        }
        assert(front =~= prefix);
    }
    if has_prefix(key, prefix) {
        let front = k.subrange(0, p.len() as int);
        assert forall|i: int| 0 <= i < p.len() implies front[i] == p[i] by {
            assert(key.subrange(0, prefix.len() as int)[i + 1] == prefix[i + 1]);
        }
        assert(front =~= p);
    }
}

/// With equal first bytes, two strings are equal exactly when they are equal
/// after the first byte is dropped from both.
proof fn lemma_drop_first_equal(a: Seq<u8>, b: Seq<u8>)
    requires
        a.len() > 0,
        b.len() > 0,
        a[0] == b[0],
    ensures
        a == b <==> a.drop_first() == b.drop_first(),
{
    if a.drop_first() == b.drop_first() {
        assert(a.len() == a.drop_first().len() + 1);
        assert(b.len() == b.drop_first().len() + 1);
        assert forall|i: int| 0 <= i < a.len() implies a[i] == b[i] by {
            if i > 0 {
                assert(a.drop_first()[i - 1] == b.drop_first()[i - 1]);
            }
        }
        assert(a =~= b);
    }
}

/// Computes `prefix_end(prefix)`.
pub fn scan_end(prefix: &Vec<u8>) -> (end: Option<Vec<u8>>)
    ensures
        match end {
            Some(end) => prefix_end(prefix@) == Some(end@),
            None => prefix_end(prefix@) is None,
        },
{
    let mut end = prefix.clone();
    while end.len() > 0
        invariant
            prefix_end(prefix@) == prefix_end(end@),
        decreases end.len(),
    {
        let last = end.len() - 1;
        let byte = end[last];
        if byte < 255 {
            proof {
                lemma_prefix_end_raises(end@);
            }
            end.set(last, byte + 1);
            return Some(end);
        }
        proof {
            lemma_prefix_end_skips(end@);
        }
        end.pop();
    }
    None
}

} // verus!
