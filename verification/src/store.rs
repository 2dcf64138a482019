//! The ordered key-value store that the ledger lives in.
//!
//! The store is `cosmwasm_std::MemoryStorage`. Verus does not look inside it:
//! `stored` names its entries, and the three functions that reach it, `get`,
//! `set` and `range`, are believed to do to those entries what their
//! contracts here say.

use crate::lex::{
    before_end, has_prefix, lemma_lex_lt_irreflexive, lemma_lex_lt_transitive,
    lemma_prefix_is_range, lex_le, lex_lt, scan_end,
};
use cosmwasm_std::{MemoryStorage, Order, Storage};
use vstd::prelude::*;

verus! {

/// `cosmwasm_std::MemoryStorage`, an ordered map from byte keys to byte
/// values. Nothing inside it is visible here.
#[verifier::external_type_specification]
#[verifier::external_body]
pub struct ExMemoryStorage(MemoryStorage);

/// The entries of a store: every key that is in it, with the value under it.
/// The contracts of `store_get`, `store_set` and `store_range` say what each
/// call does to them.
pub uninterp spec fn stored(store: MemoryStorage) -> Map<Seq<u8>, Seq<u8>>;

/// The keys and values of a sequence of records.
pub open spec fn pairs(records: Seq<(Vec<u8>, Vec<u8>)>) -> Seq<(Seq<u8>, Seq<u8>)> {
    records.map_values(|r: (Vec<u8>, Vec<u8>)| (r.0@, r.1@))
}

/// `key` is the key of one of `records`.
pub open spec fn listed(records: Seq<(Seq<u8>, Seq<u8>)>, key: Seq<u8>) -> bool {
    exists|i: int| 0 <= i < records.len() && (#[trigger] records[i]).0 == key
}

/// `key` lies in the range from `start` up to, and not including, `end`;
/// without an end, the range goes on to the last key.
pub open spec fn in_range(key: Seq<u8>, start: Seq<u8>, end: Option<Seq<u8>>) -> bool {
    lex_le(start, key) && before_end(key, end)
}

/// `records` are the entries whose keys lie in the range from `start` to
/// `end`: each of them once, in ascending order of the keys.
pub open spec fn is_range_scan(
    entries: Map<Seq<u8>, Seq<u8>>,
    start: Seq<u8>,
    end: Option<Seq<u8>>,
    records: Seq<(Seq<u8>, Seq<u8>)>,
) -> bool {
    &&& forall|i: int|
        0 <= i < records.len() ==> {
            let r = #[trigger] records[i];
            entries.contains_key(r.0) && entries[r.0] == r.1 && in_range(r.0, start, end)
        }
    &&& forall|i: int, j: int|
        0 <= i < j < records.len() ==> lex_lt((#[trigger] records[i]).0, (#[trigger] records[j]).0)
    &&& forall|k: Seq<u8>|
        #[trigger] entries.contains_key(k) && in_range(k, start, end) ==> listed(records, k)
}

/// The bytes of a bound, where there is one.
pub open spec fn bound(end: Option<&[u8]>) -> Option<Seq<u8>> {
    match end {
        Some(end) => Some(end@),
        None => None,
    }
}

/// `records` are the entries whose keys start with `prefix`: each of them
/// once, in ascending order of the keys.
pub open spec fn is_listing(
    entries: Map<Seq<u8>, Seq<u8>>,
    prefix: Seq<u8>,
    records: Seq<(Seq<u8>, Seq<u8>)>,
) -> bool {
    &&& forall|i: int|
        0 <= i < records.len() ==> {
            let r = #[trigger] records[i];
            entries.contains_key(r.0) && entries[r.0] == r.1 && has_prefix(r.0, prefix)
        }
    &&& forall|i: int, j: int|
        0 <= i < j < records.len() ==> lex_lt((#[trigger] records[i]).0, (#[trigger] records[j]).0)
    &&& forall|k: Seq<u8>|
        #[trigger] entries.contains_key(k) && has_prefix(k, prefix) ==> listed(records, k)
}

/// The entries whose keys start with `prefix`, in ascending order of the keys.
pub open spec fn listing(entries: Map<Seq<u8>, Seq<u8>>, prefix: Seq<u8>) -> Seq<
    (Seq<u8>, Seq<u8>),
> {
    choose|records: Seq<(Seq<u8>, Seq<u8>)>| is_listing(entries, prefix, records)
}

/// The entries under `prefix` can be listed. This is so for every store:
/// it holds finitely many entries.
pub open spec fn has_listing(entries: Map<Seq<u8>, Seq<u8>>, prefix: Seq<u8>) -> bool {
    is_listing(entries, prefix, listing(entries, prefix))
}

/// Two listings of the same entries agree on their first `n` records.
proof fn lemma_listings_agree(
    entries: Map<Seq<u8>, Seq<u8>>,
    prefix: Seq<u8>,
    a: Seq<(Seq<u8>, Seq<u8>)>,
    b: Seq<(Seq<u8>, Seq<u8>)>,
    n: nat,
)
    requires
        is_listing(entries, prefix, a),
        is_listing(entries, prefix, b),
        n <= a.len(),
        n <= b.len(),
    ensures
        forall|i: int| 0 <= i < n ==> a[i] == b[i],
    decreases n,
{
    if n > 0 {
        let m = (n - 1) as int;
        lemma_listings_agree(entries, prefix, a, b, m as nat);
        let ka = a[m].0;
        let kb = b[m].0;
        assert(listed(b, ka));
        assert(listed(a, kb));
        let j = choose|j: int| 0 <= j < b.len() && (#[trigger] b[j]).0 == ka;
        let i = choose|i: int| 0 <= i < a.len() && (#[trigger] a[i]).0 == kb;
        lemma_lex_lt_irreflexive(ka);
        lemma_lex_lt_irreflexive(kb);
        if j < m {
            assert(a[j] == b[j]);
            assert(lex_lt(a[j].0, a[m].0));
        } else if i < m {
            assert(a[i] == b[i]);
            assert(lex_lt(b[i].0, b[m].0));
        } else if j > m && i > m {
            assert(lex_lt(b[m].0, b[j].0));
            assert(lex_lt(a[m].0, a[i].0));
            lemma_lex_lt_transitive(ka, kb, ka);
        }
        assert(ka == kb);
        assert(a[m].1 == entries[ka]);
        assert(b[m].1 == entries[kb]);
    }
}

/// The entries under a prefix have one listing only.
pub proof fn lemma_listing_unique(
    entries: Map<Seq<u8>, Seq<u8>>,
    prefix: Seq<u8>,
    a: Seq<(Seq<u8>, Seq<u8>)>,
    b: Seq<(Seq<u8>, Seq<u8>)>,
)
    requires
        is_listing(entries, prefix, a),
        is_listing(entries, prefix, b),
    ensures
        a == b,
{
    let n = if a.len() <= b.len() { a.len() } else { b.len() };
    lemma_listings_agree(entries, prefix, a, b, n);
    if a.len() < b.len() {
        let k = b[n as int].0;
        assert(listed(a, k));
        let i = choose|i: int| 0 <= i < a.len() && (#[trigger] a[i]).0 == k;
        assert(a[i] == b[i]);
        assert(lex_lt(b[i].0, b[n as int].0));
        lemma_lex_lt_irreflexive(k);
    } else if b.len() < a.len() {
        let k = a[n as int].0;
        assert(listed(b, k));
        let i = choose|i: int| 0 <= i < b.len() && (#[trigger] b[i]).0 == k;
        assert(a[i] == b[i]);
        assert(lex_lt(a[i].0, a[n as int].0));
        lemma_lex_lt_irreflexive(k);
    }
    assert(a =~= b);
}

/// `Storage::get` of `MemoryStorage`: the value under `key`, or `None` where
/// the store has no such key.
#[verifier::external_body]
pub(crate) fn store_get(store: &MemoryStorage, key: &[u8]) -> (value: Option<Vec<u8>>)
    ensures
        match value {
            Some(v) => stored(*store).contains_key(key@) && stored(*store)[key@] == v@,
            None => !stored(*store).contains_key(key@),
        },
{
    store.get(key)
}

/// `Storage::set` of `MemoryStorage`: `value` is put under `key`, in place
/// of what was there, and nothing else changes. The call panics on an empty
/// value, which the precondition rules out.
#[verifier::external_body]
pub(crate) fn store_set(store: &mut MemoryStorage, key: &[u8], value: &[u8])
    requires
        value@.len() > 0,
    ensures
        stored(*final(store)) == stored(*old(store)).insert(key@, value@),
{
    store.set(key, value)
}

/// `Storage::range` of `MemoryStorage`, ascending, from `start` on: the
/// entries with keys from `start` up to, and not including, `end`, or up to
/// the last key where no end is given, in ascending order of the keys, which
/// is the order of `Vec<u8>`. Where `end` comes before `start` there are none.
#[verifier::external_body]
pub(crate) fn store_range(store: &MemoryStorage, start: &[u8], end: Option<&[u8]>) -> (records:
    Vec<(Vec<u8>, Vec<u8>)>)
    ensures
        is_range_scan(stored(*store), start@, bound(end), pairs(records@)),
{
    store.range(Some(start), end, Order::Ascending).collect()
}

/// The entries whose keys start with `prefix`, in ascending order of the keys.
pub fn scan(store: &MemoryStorage, prefix: &Vec<u8>) -> (records: Vec<(Vec<u8>, Vec<u8>)>)
    ensures
        pairs(records@) == listing(stored(*store), prefix@),
        has_listing(stored(*store), prefix@),
{
    let end = scan_end(prefix);
    let records = match &end {
        Some(end) => store_range(store, prefix.as_slice(), Some(end.as_slice())),
        None => store_range(store, prefix.as_slice(), None),
    };
    proof {
        let entries = stored(*store);
        let found = pairs(records@);
        assert forall|i: int| 0 <= i < found.len() implies has_prefix(
            (#[trigger] found[i]).0,
            prefix@,
        ) by {
            lemma_prefix_is_range(prefix@, found[i].0);
        }
        assert forall|k: Seq<u8>| #[trigger]
            entries.contains_key(k) && has_prefix(k, prefix@) implies listed(found, k) by {
            lemma_prefix_is_range(prefix@, k);
        }
        assert(is_listing(entries, prefix@, found));
        lemma_listing_unique(entries, prefix@, found, listing(entries, prefix@));
    }
    records
}

} // verus!
