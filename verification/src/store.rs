use vstd::prelude::*;

use itertools::Itertools;

use crate::entry::Entry;

verus! {

/// `a` ranks no later than `b`: ascending ordering key, ties broken by the
/// type-identity token. This is the order in which a store iterates.
pub open spec fn rank_le<P>(a: Entry<P>, b: Entry<P>) -> bool {
    a.ordering < b.ordering || (a.ordering == b.ordering && a.type_id <= b.type_id)
}

/// `a` ranks strictly earlier than `b`.
pub open spec fn rank_lt<P>(a: Entry<P>, b: Entry<P>) -> bool {
    a.ordering < b.ordering || (a.ordering == b.ordering && a.type_id < b.type_id)
}

/// The entries stand in ascending rank order.
pub open spec fn sorted_by_rank<P>(s: Seq<Entry<P>>) -> bool {
    forall|i: int, j: int| 0 <= i < j < s.len() ==> rank_le(s[i], s[j])
}

/// No two entries share a type-identity token.
pub open spec fn distinct_type_ids<P>(s: Seq<Entry<P>>) -> bool {
    forall|i: int, j: int| 0 <= i < j < s.len() ==> s[i].type_id != s[j].type_id
}

/// Some entry of `s` carries the token `type_id`.
pub open spec fn has_type_id<P>(s: Seq<Entry<P>>, type_id: u64) -> bool {
    exists|i: int| 0 <= i < s.len() && s[i].type_id == type_id
}

/// The greatest index of `s` whose entry carries the token `type_id`,
/// or `-1` when no entry does.
pub open spec fn last_index_of<P>(s: Seq<Entry<P>>, type_id: u64) -> int
    decreases s.len(),
{
    if s.len() == 0 {
        -1
    } else if s.last().type_id == type_id {
        s.len() - 1
    } else {
        last_index_of(s.drop_last(), type_id)
    }
}

/// What [`Store::collect`] promises: `res` is the deduplicated,
/// rank-sorted view of the raw registration sequence `raw`.
///
/// Deduplication is last-seen-wins: for every token in `raw`, `res` holds
/// exactly the raw entry at that token's greatest index, and nothing else.
/// Together with strict rank sorting this determines `res` uniquely
/// (see [`crate::laws::lemma_collect_deterministic`]).
pub open spec fn is_collected<P>(res: Seq<Entry<P>>, raw: Seq<Entry<P>>) -> bool {
    &&& sorted_by_rank(res)
    &&& distinct_type_ids(res)
    &&& forall|i: int|
        0 <= i < res.len() ==> has_type_id(raw, res[i].type_id) && res[i] == raw[last_index_of(
            raw,
            res[i].type_id,
        )]
    &&& forall|j: int| 0 <= j < raw.len() ==> has_type_id(res, #[trigger] raw[j].type_id)
}

/// Where the token `type_id` stands in `s`: at the index this function
/// returns and nowhere later; `-1` when the token is absent.
pub proof fn lemma_last_index_of<P>(s: Seq<Entry<P>>, type_id: u64)
    ensures
        has_type_id(s, type_id) ==> {
            &&& 0 <= last_index_of(s, type_id) < s.len()
            &&& s[last_index_of(s, type_id)].type_id == type_id
            &&& forall|j: int|
                last_index_of(s, type_id) < j < s.len() ==> s[j].type_id != type_id
        },
        !has_type_id(s, type_id) ==> last_index_of(s, type_id) == -1,
    decreases s.len(),
{
    if s.len() == 0 {
        assert(!has_type_id(s, type_id));
    } else if s.last().type_id == type_id {
        assert(s[s.len() - 1].type_id == type_id);
    } else {
        lemma_last_index_of(s.drop_last(), type_id);
        assert forall|i: int| 0 <= i < s.len() && s[i].type_id == type_id implies has_type_id(
            s.drop_last(),
            type_id,
        ) by {
            assert(i < s.len() - 1);
            assert(s.drop_last()[i].type_id == type_id);
        }
        assert(forall|i: int|
            0 <= i < s.drop_last().len() ==> s.drop_last()[i] == s[i]);
    }
}

/// Replacing an entry by one with the same ordering key and the same
/// type-identity token disturbs neither rank order nor token
/// distinctness.
proof fn lemma_wf_after_instance_update<P>(s: Seq<Entry<P>>, i: int, e: Entry<P>)
    requires
        0 <= i < s.len(),
        e.ordering == s[i].ordering,
        e.type_id == s[i].type_id,
    ensures
        sorted_by_rank(s) ==> sorted_by_rank(s.update(i, e)),
        distinct_type_ids(s) ==> distinct_type_ids(s.update(i, e)),
{
    let u = s.update(i, e);
    if sorted_by_rank(s) {
        assert forall|a: int, b: int| 0 <= a < b < u.len() implies rank_le(u[a], u[b]) by {
            assert(rank_le(s[a], s[b]));
        }
    }
    if distinct_type_ids(s) {
        assert forall|a: int, b: int| 0 <= a < b < u.len() implies u[a].type_id
            != u[b].type_id by {
            assert(s[a].type_id != s[b].type_id);
        }
    }
}

/// Three-way comparison of two entries by rank.
fn rank_cmp<P>(a: &Entry<P>, b: &Entry<P>) -> (o: core::cmp::Ordering)
    ensures
        (o == core::cmp::Ordering::Less) == rank_lt(*a, *b),
        (o == core::cmp::Ordering::Greater) == rank_lt(*b, *a),
        (o == core::cmp::Ordering::Equal) == (a.ordering == b.ordering && a.type_id
            == b.type_id),
{
    if a.ordering < b.ordering {
        core::cmp::Ordering::Less
    } else if b.ordering < a.ordering {
        core::cmp::Ordering::Greater
    } else if a.type_id < b.type_id {
        core::cmp::Ordering::Less
    } else if b.type_id < a.type_id {
        core::cmp::Ordering::Greater
    } else {
        core::cmp::Ordering::Equal
    }
}

/// Relies on `itertools::Itertools::sorted_by`: it sorts the iterator's
/// items into ascending order of the comparator (a stable sort through
/// `slice::sort_by`), so the result is a permutation of the input that is
/// ascending under [`rank_cmp`], that is, sorted by rank.
#[verifier::external_body]
fn sort_by_rank<P>(entries: Vec<Entry<P>>) -> (r: Vec<Entry<P>>)
    ensures
        r@.to_multiset() == entries@.to_multiset(),
        sorted_by_rank(r@),
{
    entries.into_iter().sorted_by(|a, b| rank_cmp(a, b)).collect()
}

/// Whether some entry of `v` carries the token `type_id`.
fn contains_type_id<P>(v: &Vec<Entry<P>>, type_id: u64) -> (b: bool)
    ensures
        b == has_type_id(v@, type_id),
{
    let n = v.len();
    let mut i: usize = 0;
    while i < n
        invariant
            n == v@.len(),
            0 <= i <= n,
            forall|k: int| 0 <= k < i ==> v@[k].type_id != type_id,
        decreases n - i,
    {
        if v[i].type_id == type_id {
            return true;
        }
        i = i + 1;
    }
    false
}

/// The deduplicated, rank-sorted, queryable snapshot of one interface's
/// registration records.
///
/// A store is built once by [`Store::collect`] and read-only thereafter,
/// except that the instance value inside an entry may be replaced through
/// [`Store::get_mut`]; the bookkeeping fields of the entries never change,
/// so the snapshot stays well formed.
pub struct Store<P> {
    entries: Vec<Entry<P>>,
}

impl<P> View for Store<P> {
    type V = Seq<Entry<P>>;

    /// The canonical iteration sequence of the store.
    closed spec fn view(&self) -> Seq<Entry<P>> {
        self.entries@
    }
}

impl<P> Store<P> {
    /// The store's entries stand in ascending rank order with pairwise
    /// distinct type-identity tokens. [`Store::collect`] establishes this
    /// and every method preserves it.
    pub open spec fn wf(&self) -> bool {
        sorted_by_rank(self@) && distinct_type_ids(self@)
    }

    /// Build the store from the raw registration records.
    ///
    /// The raw sequence may mention the same concrete type more than once
    /// (the same static registration observed twice); for every
    /// type-identity token the store keeps exactly the record at the
    /// token's greatest raw index (last-seen-wins), and arranges the kept
    /// records by ascending ordering key, ties in ascending token order.
    /// [`is_collected`] pins the result down completely.
    pub fn collect(raw: Vec<Entry<P>>) -> (s: Store<P>)
        ensures
            s.wf(),
            is_collected(s@, raw@),
    {
        let ghost raw0: Seq<Entry<P>> = raw@;
        let mut rest = raw;
        let mut dedup: Vec<Entry<P>> = Vec::new();
        proof {
            assert(rest@ =~= raw0.take(rest@.len() as int));
        }
        while rest.len() > 0
            invariant
                rest@ == raw0.take(rest@.len() as int),
                rest@.len() <= raw0.len(),
                distinct_type_ids(dedup@),
                forall|i: int|
                    #![trigger dedup@[i]]
                    0 <= i < dedup@.len() ==> {
                        &&& has_type_id(raw0, dedup@[i].type_id)
                        &&& dedup@[i] == raw0[last_index_of(raw0, dedup@[i].type_id)]
                        &&& last_index_of(raw0, dedup@[i].type_id) >= rest@.len()
                    },
                forall|j: int|
                    rest@.len() <= j < raw0.len() ==> has_type_id(
                        dedup@,
                        #[trigger] raw0[j].type_id,
                    ),
            decreases rest@.len(),
        {
            let ghost k = rest@.len() - 1;
            let e = rest.pop().unwrap();
            proof {
                assert(e == raw0.take(k + 1)[k]);
                assert(e == raw0[k]);
                assert(rest@ =~= raw0.take(k));
            }
            if !contains_type_id(&dedup, e.type_id) {
                proof {
                    assert forall|j: int| k < j < raw0.len() implies raw0[j].type_id
                        != e.type_id by {
                        if raw0[j].type_id == e.type_id {
                            assert(has_type_id(dedup@, raw0[j].type_id));
                        }
                    }
                    assert(has_type_id(raw0, e.type_id)) by {
                        assert(raw0[k].type_id == e.type_id);
                    }
                    lemma_last_index_of(raw0, e.type_id);
                    assert(last_index_of(raw0, e.type_id) == k) by {
                        let l = last_index_of(raw0, e.type_id);
                        assert(raw0[l].type_id == e.type_id);
                        assert(l <= k);
                        assert(forall|j: int| l < j < raw0.len() ==> raw0[j].type_id != e.type_id);
                    }
                }
                let ghost d0 = dedup@;
                dedup.push(e);
                proof {
                    assert forall|j: int| k <= j < raw0.len() implies has_type_id(
                        dedup@,
                        #[trigger] raw0[j].type_id,
                    ) by {
                        if j == k {
                            assert(dedup@[d0.len() as int] == e);
                            assert(dedup@[d0.len() as int].type_id == raw0[j].type_id);
                        } else {
                            assert(has_type_id(d0, raw0[j].type_id));
                            let w = choose|w: int|
                                0 <= w < d0.len() && d0[w].type_id == raw0[j].type_id;
                            assert(dedup@[w].type_id == raw0[j].type_id);
                        }
                    }
                }
            } else {
                proof {
                    assert forall|j: int| k <= j < raw0.len() implies has_type_id(
                        dedup@,
                        #[trigger] raw0[j].type_id,
                    ) by {
                        if j == k {
                            assert(raw0[j].type_id == e.type_id);
                        }
                    }
                }
            }
        }
        proof {
            assert(forall|j: int|
                0 <= j < raw0.len() ==> has_type_id(dedup@, #[trigger] raw0[j].type_id));
        }
        let entries = sort_by_rank(dedup);
        proof {
            broadcast use vstd::seq_lib::group_to_multiset_ensures;

            // Every entry of the sorted sequence is an entry of the
            // deduplicated one, and the other way round.
            assert forall|x: Entry<P>| entries@.contains(x) implies dedup@.contains(x) by {
                assert(entries@.to_multiset().count(x) > 0);
            }
            assert forall|x: Entry<P>| dedup@.contains(x) implies entries@.contains(x) by {
                assert(dedup@.to_multiset().count(x) > 0);
            }
            // Last-seen-wins membership carries over pointwise.
            assert forall|i: int|
                #![trigger entries@[i]]
                0 <= i < entries@.len() implies {
                &&& has_type_id(raw0, entries@[i].type_id)
                &&& entries@[i] == raw0[last_index_of(raw0, entries@[i].type_id)]
            } by {
                assert(entries@.contains(entries@[i]));
                assert(dedup@.contains(entries@[i]));
                let p = choose|p: int| 0 <= p < dedup@.len() && dedup@[p] == entries@[i];
                assert(dedup@[p] == entries@[i]);
            }
            // Completeness carries over.
            assert forall|j: int| 0 <= j < raw0.len() implies has_type_id(
                entries@,
                #[trigger] raw0[j].type_id,
            ) by {
                assert(has_type_id(dedup@, raw0[j].type_id));
                let p = choose|p: int|
                    0 <= p < dedup@.len() && dedup@[p].type_id == raw0[j].type_id;
                assert(dedup@.contains(dedup@[p]));
                assert(entries@.contains(dedup@[p]));
                let m = choose|m: int| 0 <= m < entries@.len() && entries@[m] == dedup@[p];
                assert(entries@[m].type_id == raw0[j].type_id);
            }
            // Distinct tokens carry over: the deduplicated entries are
            // pairwise distinct values, so multiplicities are all one, so
            // the sorted sequence repeats no value; two same-token slots
            // would then be distinct values that both sit in the
            // deduplicated sequence, against its token distinctness.
            assert(dedup@.no_duplicates()) by {
                assert forall|i: int, j: int|
                    0 <= i < dedup@.len() && 0 <= j < dedup@.len() && i != j implies dedup@[i]
                    != dedup@[j] by {
                    if i < j {
                        assert(dedup@[i].type_id != dedup@[j].type_id);
                    } else {
                        assert(dedup@[j].type_id != dedup@[i].type_id);
                    }
                }
            }
            dedup@.lemma_multiset_has_no_duplicates();
            entries@.lemma_multiset_has_no_duplicates_conv();
            assert forall|i: int, j: int| 0 <= i < j < entries@.len() implies entries@[i].type_id
                != entries@[j].type_id by {
                if entries@[i].type_id == entries@[j].type_id {
                    assert(entries@[i] != entries@[j]);
                    assert(entries@.contains(entries@[i]));
                    assert(entries@.contains(entries@[j]));
                    assert(dedup@.contains(entries@[i]));
                    assert(dedup@.contains(entries@[j]));
                    let p = choose|p: int| 0 <= p < dedup@.len() && dedup@[p] == entries@[i];
                    let q = choose|q: int| 0 <= q < dedup@.len() && dedup@[q] == entries@[j];
                    assert(p != q);
                    if p < q {
                        assert(dedup@[p].type_id != dedup@[q].type_id);
                    } else {
                        assert(dedup@[q].type_id != dedup@[p].type_id);
                    }
                }
            }
        }
        Store { entries }
    }

    /// How many implementations are registered, after deduplication.
    pub fn len(&self) -> (n: usize)
        ensures
            n == self@.len(),
    {
        self.entries.len()
    }

    /// The entries in canonical iteration order: ascending ordering key,
    /// ties in ascending token order.
    pub fn iter(&self) -> (r: &Vec<Entry<P>>)
        ensures
            r@ == self@,
    {
        &self.entries
    }

    /// Whether the type with the given token is stained, that is, whether
    /// some entry of the store carries it.
    pub fn stained(&self, type_id: u64) -> (b: bool)
        ensures
            b == has_type_id(self@, type_id),
    {
        let n = self.entries.len();
        let mut i: usize = 0;
        while i < n
            invariant
                n == self@.len(),
                0 <= i <= n,
                forall|k: int| 0 <= k < i ==> self@[k].type_id != type_id,
            decreases n - i,
        {
            if self.entries[i].type_id == type_id {
                return true;
            }
            i = i + 1;
        }
        false
    }

    /// Concrete lookup with write access: hands out the instance value of
    /// the entry registered for the type with the given token, or nothing
    /// when that type was never registered. Only that one instance value
    /// can change; the snapshot's bookkeeping fields are untouched, so a
    /// well-formed store stays well formed.
    pub fn get_mut(&mut self, type_id: u64) -> (r: Option<&mut P>)
        ensures
            match r {
                Some(p) => exists|i: int|
                    {
                        &&& 0 <= i < old(self)@.len()
                        &&& old(self)@[i].type_id == type_id
                        &&& *p == old(self)@[i].instance
                        &&& final(self)@ == old(self)@.update(
                            i,
                            (Entry {
                                ordering: old(self)@[i].ordering,
                                type_id: old(self)@[i].type_id,
                                name: old(self)@[i].name,
                                instance: *final(p),
                            }),
                        )
                    },
                None => !has_type_id(old(self)@, type_id) && final(self)@ == old(self)@,
            },
            old(self).wf() ==> final(self).wf(),
    {
        let n = self.entries.len();
        let mut i: usize = 0;
        while i < n
            invariant
                *self == *old(self),
                n == self@.len(),
                0 <= i <= n,
                forall|k: int| 0 <= k < i ==> self@[k].type_id != type_id,
            decreases n - i,
        {
            if self.entries[i].type_id == type_id {
                proof {
                    let s0 = self@;
                    let idx = i as int;
                    assert forall|e: Entry<P>|
                        #![trigger s0.update(idx, e)]
                        e.ordering == s0[idx].ordering && e.type_id == s0[idx].type_id implies {
                        &&& (sorted_by_rank(s0) ==> sorted_by_rank(s0.update(idx, e)))
                        &&& (distinct_type_ids(s0) ==> distinct_type_ids(s0.update(idx, e)))
                    } by {
                        lemma_wf_after_instance_update(s0, idx, e);
                    }
                }
                return Some(&mut self.entries[i].instance);
            }
            i = i + 1;
        }
        None
    }

    /// The bucket of entries whose ordering key equals `key`, in the same
    /// deterministic order in which [`Store::iter`] yields them — exactly
    /// the subsequence of the iteration sequence with that key — or
    /// nothing when no entry carries `key`.
    pub fn ordering(&self, key: u32) -> (r: Option<Vec<&Entry<P>>>)
        ensures
            match r {
                Some(bucket) => {
                    &&& bucket@.len() > 0
                    &&& bucket@.map_values(|e: &Entry<P>| *e) == self@.filter(
                        (|e: Entry<P>| e.ordering == key),
                    )
                },
                None => forall|i: int| 0 <= i < self@.len() ==> self@[i].ordering != key,
            },
    {
        let n = self.entries.len();
        let mut out: Vec<&Entry<P>> = Vec::new();
        let mut i: usize = 0;
        proof {
            assert(self@.take(0) =~= Seq::<Entry<P>>::empty());
            reveal(Seq::filter);
            assert(out@.map_values(|e: &Entry<P>| *e) =~= self@.take(0).filter(
                (|e: Entry<P>| e.ordering == key),
            ));
        }
        while i < n
            invariant
                n == self@.len(),
                0 <= i <= n,
                out@.map_values(|e: &Entry<P>| *e) == self@.take(i as int).filter(
                    (|e: Entry<P>| e.ordering == key),
                ),
            decreases n - i,
        {
            let ghost out0 = out@;
            if self.entries[i].ordering == key {
                out.push(&self.entries[i]);
            }
            proof {
                reveal(Seq::filter);
                assert(self@.take(i + 1).drop_last() =~= self@.take(i as int));
                assert(self@.take(i + 1).last() == self@[i as int]);
                if self@[i as int].ordering == key {
                    assert(out@ == out0.push(&self.entries@[i as int]));
                    assert(out@.map_values(|e: &Entry<P>| *e) =~= out0.map_values(
                        |e: &Entry<P>| *e,
                    ).push(self@[i as int]));
                } else {
                    assert(out@.map_values(|e: &Entry<P>| *e) == out0.map_values(
                        |e: &Entry<P>| *e,
                    ));
                }
            }
            i = i + 1;
        }
        proof {
            assert(self@.take(n as int) =~= self@);
        }
        if out.len() == 0 {
            proof {
                assert forall|j: int| 0 <= j < self@.len() implies self@[j].ordering != key by {
                    if self@[j].ordering == key {
                        self@.lemma_filter_contains((|e: Entry<P>| e.ordering == key), j);
                    }
                }
            }
            None
        } else {
            Some(out)
        }
    }

    /// Concrete lookup: the entry registered for the type with the given
    /// token, or nothing when that type was never registered.
    pub fn get(&self, type_id: u64) -> (r: Option<&Entry<P>>)
        ensures
            match r {
                Some(e) => e.type_id == type_id && self@.contains(*e),
                None => !has_type_id(self@, type_id),
            },
    {
        let n = self.entries.len();
        let mut i: usize = 0;
        while i < n
            invariant
                n == self@.len(),
                0 <= i <= n,
                forall|k: int| 0 <= k < i ==> self@[k].type_id != type_id,
            decreases n - i,
        {
            if self.entries[i].type_id == type_id {
                return Some(&self.entries[i]);
            }
            i = i + 1;
        }
        None
    }
}

} // verus!
