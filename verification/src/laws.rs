use vstd::prelude::*;

use crate::entry::Entry;
use crate::store::distinct_type_ids;
use crate::store::has_type_id;
use crate::store::is_collected;
use crate::store::last_index_of;
use crate::store::lemma_last_index_of;
use crate::store::rank_le;
use crate::store::rank_lt;
use crate::store::sorted_by_rank;

verus! {

/// In a rank-sorted, token-distinct sequence, consecutive-or-later
/// positions rank strictly: distinct tokens turn the non-strict rank
/// order into a strict one.
proof fn lemma_rank_strict<P>(s: Seq<Entry<P>>, i: int, j: int)
    requires
        sorted_by_rank(s),
        distinct_type_ids(s),
        0 <= i < j < s.len(),
    ensures
        rank_lt(s[i], s[j]),
{
    assert(rank_le(s[i], s[j]));
    assert(s[i].type_id != s[j].type_id);
}

/// Two rank-sorted, token-distinct sequences that hold the same entries
/// hold them in the same arrangement.
proof fn lemma_sorted_distinct_same_contents_equal<P>(a: Seq<Entry<P>>, b: Seq<Entry<P>>)
    requires
        sorted_by_rank(a),
        distinct_type_ids(a),
        sorted_by_rank(b),
        distinct_type_ids(b),
        forall|x: Entry<P>| a.contains(x) <==> b.contains(x),
    ensures
        a == b,
    decreases a.len(),
{
    if a.len() == 0 {
        if b.len() > 0 {
            assert(b.contains(b[0]));
            assert(a.contains(b[0]));
        }
        assert(a =~= b);
    } else {
        assert(a.contains(a[0]));
        assert(b.contains(a[0]));
        let j = choose|j: int| 0 <= j < b.len() && b[j] == a[0];
        assert(b.contains(b[0]));
        assert(a.contains(b[0]));
        let i = choose|i: int| 0 <= i < a.len() && a[i] == b[0];
        if i > 0 && j > 0 {
            lemma_rank_strict(a, 0, i);
            lemma_rank_strict(b, 0, j);
            assert(rank_lt(a[0], b[0]));
            assert(rank_lt(b[0], a[0]));
            assert(false);
        }
        assert(a[0] == b[0]);
        let a1 = a.drop_first();
        let b1 = b.drop_first();
        assert forall|x: Entry<P>| a1.contains(x) implies b1.contains(x) by {
            let k = choose|k: int| 0 <= k < a1.len() && a1[k] == x;
            assert(a[k + 1] == x);
            lemma_rank_strict(a, 0, k + 1);
            assert(a.contains(x));
            assert(b.contains(x));
            let m = choose|m: int| 0 <= m < b.len() && b[m] == x;
            if m == 0 {
                // x would equal the common head, yet ranks strictly after it
                assert(rank_lt(a[0], x));
                assert(false);
            }
            assert(b1[m - 1] == x);
        }
        assert forall|x: Entry<P>| b1.contains(x) implies a1.contains(x) by {
            let k = choose|k: int| 0 <= k < b1.len() && b1[k] == x;
            assert(b[k + 1] == x);
            lemma_rank_strict(b, 0, k + 1);
            assert(b.contains(x));
            assert(a.contains(x));
            let m = choose|m: int| 0 <= m < a.len() && a[m] == x;
            if m == 0 {
                assert(rank_lt(b[0], x));
                assert(false);
            }
            assert(a1[m - 1] == x);
        }
        lemma_sorted_distinct_same_contents_equal(a1, b1);
        assert(a.len() == b.len());
        assert forall|k: int| 0 <= k < a.len() implies a[k] == b[k] by {
            if k > 0 {
                assert(a1[k - 1] == a[k]);
                assert(b1[k - 1] == b[k]);
            }
        }
        assert(a =~= b);
    }
}

/// Determinism: collecting a fixed raw registration sequence always
/// yields the same store, so repeated `collect()` calls iterate their
/// entries in the same order.
pub proof fn lemma_collect_deterministic<P>(a: Seq<Entry<P>>, b: Seq<Entry<P>>, raw: Seq<
    Entry<P>,
>)
    requires
        is_collected(a, raw),
        is_collected(b, raw),
    ensures
        a == b,
{
    assert forall|x: Entry<P>| a.contains(x) implies b.contains(x) by {
        let i = choose|i: int| 0 <= i < a.len() && a[i] == x;
        lemma_last_index_of(raw, x.type_id);
        let l = last_index_of(raw, x.type_id);
        assert(has_type_id(b, raw[l].type_id));
        let m = choose|m: int| 0 <= m < b.len() && b[m].type_id == x.type_id;
        assert(b[m] == raw[last_index_of(raw, b[m].type_id)]);
        assert(b[m] == x);
    }
    assert forall|x: Entry<P>| b.contains(x) implies a.contains(x) by {
        let i = choose|i: int| 0 <= i < b.len() && b[i] == x;
        lemma_last_index_of(raw, x.type_id);
        let l = last_index_of(raw, x.type_id);
        assert(has_type_id(a, raw[l].type_id));
        let m = choose|m: int| 0 <= m < a.len() && a[m].type_id == x.type_id;
        assert(a[m] == raw[last_index_of(raw, a[m].type_id)]);
        assert(a[m] == x);
    }
    lemma_sorted_distinct_same_contents_equal(a, b);
}

/// Ordering correctness: an entry with a strictly smaller ordering key
/// stands strictly earlier in the iteration sequence of a store.
pub proof fn lemma_ordering_respected<P>(s: Seq<Entry<P>>, i: int, j: int)
    requires
        sorted_by_rank(s),
        0 <= i < s.len(),
        0 <= j < s.len(),
        s[i].ordering < s[j].ordering,
    ensures
        i < j,
{
    if j < i {
        assert(rank_le(s[j], s[i]));
    }
}

/// Deduplication: a collected store holds an entry for a type-identity
/// token exactly when the raw sequence registered that token, and never
/// more than one — registering the same concrete type twice leaves one
/// entry.
pub proof fn lemma_deduplicated<P>(res: Seq<Entry<P>>, raw: Seq<Entry<P>>, type_id: u64)
    requires
        is_collected(res, raw),
    ensures
        has_type_id(res, type_id) <==> has_type_id(raw, type_id),
        forall|i: int, j: int|
            0 <= i < res.len() && 0 <= j < res.len() && res[i].type_id == type_id
                && res[j].type_id == type_id ==> i == j,
{
    if has_type_id(res, type_id) {
        let i = choose|i: int| 0 <= i < res.len() && res[i].type_id == type_id;
        assert(has_type_id(raw, res[i].type_id));
    }
    if has_type_id(raw, type_id) {
        let j = choose|j: int| 0 <= j < raw.len() && raw[j].type_id == type_id;
        assert(has_type_id(res, raw[j].type_id));
    }
    assert forall|i: int, j: int|
        0 <= i < res.len() && 0 <= j < res.len() && res[i].type_id == type_id
            && res[j].type_id == type_id implies i == j by {
        if i < j {
            assert(res[i].type_id != res[j].type_id);
        } else if j < i {
            assert(res[j].type_id != res[i].type_id);
        }
    }
}

} // verus!
