//! What the list of recordings is, mathematically: a sequence of entries, each an id and a
//! value, in which no id occurs twice.

use vstd::prelude::*;

verus! {

/// Some entry has this id.
pub open spec fn has_id<V>(s: Seq<(Seq<char>, V)>, id: Seq<char>) -> bool {
    exists|i: int| 0 <= i < s.len() && #[trigger] s[i].0 == id
}

/// No id occurs twice.
pub open spec fn distinct_ids<V>(s: Seq<(Seq<char>, V)>) -> bool {
    forall|i: int, j: int|
        0 <= i < s.len() && 0 <= j < s.len() && #[trigger] s[i].0 == #[trigger] s[j].0 ==> i == j
}

/// The place of the entry with this id.
pub open spec fn index_of_id<V>(s: Seq<(Seq<char>, V)>, id: Seq<char>) -> int
    recommends
        has_id(s, id),
{
    choose|i: int| 0 <= i < s.len() && #[trigger] s[i].0 == id
}

/// `s` with `value` under `id`: in the place that the id has, or at the end.
pub open spec fn upsert<V>(s: Seq<(Seq<char>, V)>, id: Seq<char>, value: V) -> Seq<(Seq<char>, V)> {
    if has_id(s, id) {
        s.update(index_of_id(s, id), (id, value))
    } else {
        s.push((id, value))
    }
}

/// `s` after `value`s were put into it one after another.
pub open spec fn upsert_all<V>(
    s: Seq<(Seq<char>, V)>,
    items: Seq<(Seq<char>, V)>,
) -> Seq<(Seq<char>, V)>
    decreases items.len(),
{
    if items.len() == 0 {
        s
    } else {
        upsert(upsert_all(s, items.drop_last()), items.last().0, items.last().1)
    }
}

/// `s` without the entries of these ids, the others in their order.
pub open spec fn without<V>(s: Seq<(Seq<char>, V)>, ids: Seq<Seq<char>>) -> Seq<(Seq<char>, V)> {
    s.filter(|e: (Seq<char>, V)| !ids.contains(e.0))
}

/// The values alone.
pub open spec fn values<V>(s: Seq<(Seq<char>, V)>) -> Seq<V> {
    s.map_values(|e: (Seq<char>, V)| e.1)
}

/// The places at which `keep` is `want`, in order.
pub open spec fn places(keep: Seq<bool>, want: bool) -> Seq<int>
    decreases keep.len(),
{
    if keep.len() == 0 {
        Seq::empty()
    } else if keep.last() == want {
        places(keep.drop_last(), want).push(keep.len() - 1)
    } else {
        places(keep.drop_last(), want)
    }
}

/// What `s` has at these places.
pub open spec fn pick<A>(s: Seq<A>, at: Seq<int>) -> Seq<A> {
    at.map_values(|i: int| s[i])
}

pub proof fn lemma_index_of_id<V>(s: Seq<(Seq<char>, V)>, i: int)
    requires
        distinct_ids(s),
        0 <= i < s.len(),
    ensures
        has_id(s, s[i].0),
        index_of_id(s, s[i].0) == i,
{
    let id = s[i].0;
    let j = index_of_id(s, id);
    assert(0 <= j < s.len() && s[j].0 == id);
}

/// Putting a value in leaves the ids distinct, and changes nothing under another id.
pub proof fn lemma_upsert<V>(s: Seq<(Seq<char>, V)>, id: Seq<char>, value: V)
    requires
        distinct_ids(s),
    ensures
        distinct_ids(upsert(s, id, value)),
        has_id(upsert(s, id, value), id),
        upsert(s, id, value)[index_of_id(upsert(s, id, value), id)] == (id, value),
        forall|other: Seq<char>|
            other != id ==> (#[trigger] has_id(upsert(s, id, value), other) <==> has_id(s, other)),
{
    let t = upsert(s, id, value);
    let at = if has_id(s, id) {
        index_of_id(s, id)
    } else {
        s.len() as int
    };
    if !has_id(s, id) {
        assert(forall|i: int| 0 <= i < s.len() ==> #[trigger] s[i].0 != id);
    }
    assert(t[at] == (id, value));
    assert forall|i: int, j: int|
        0 <= i < t.len() && 0 <= j < t.len() && #[trigger] t[i].0 == #[trigger] t[j].0 implies i
        == j by {
        if i < s.len() && j < s.len() {
            assert(s[i].0 == t[i].0 && s[j].0 == t[j].0);
        }
    }
    lemma_index_of_id(t, at);
    assert forall|other: Seq<char>| other != id implies (#[trigger] has_id(t, other) <==> has_id(
        s,
        other,
    )) by {
        if has_id(s, other) {
            let i = index_of_id(s, other);
            assert(t[i].0 == other);
        }
        if has_id(t, other) {
            let i = index_of_id(t, other);
            assert(s[i].0 == other);
        }
    }
}

/// Filtering twice is filtering by both.
proof fn lemma_filter_twice<A>(
    s: Seq<A>,
    p: spec_fn(A) -> bool,
    q: spec_fn(A) -> bool,
    both: spec_fn(A) -> bool,
)
    requires
        forall|i: int| 0 <= i < s.len() ==> both(#[trigger] s[i]) == (p(s[i]) && q(s[i])),
    ensures
        s.filter(both) == s.filter(p).filter(q),
    decreases s.len(),
{
    reveal(Seq::filter);
    if s.len() > 0 {
        let rest = s.drop_last();
        assert forall|i: int| 0 <= i < rest.len() implies both(#[trigger] rest[i]) == (p(rest[i])
            && q(rest[i])) by {
            assert(rest[i] == s[i]);
        }
        lemma_filter_twice(rest, p, q, both);
        assert(both(s[s.len() - 1]) == (p(s[s.len() - 1]) && q(s[s.len() - 1])));
        if p(s.last()) {
            assert(s.filter(p).drop_last() =~= rest.filter(p));
            assert(s.filter(p).last() == s.last());
        }
    }
}

/// Filtering by what holds of everything changes nothing.
pub proof fn lemma_filter_all<A>(s: Seq<A>, p: spec_fn(A) -> bool)
    requires
        forall|i: int| 0 <= i < s.len() ==> p(#[trigger] s[i]),
    ensures
        s.filter(p) == s,
    decreases s.len(),
{
    reveal(Seq::filter);
    if s.len() > 0 {
        assert forall|i: int| 0 <= i < s.drop_last().len() implies p(
            #[trigger] s.drop_last()[i],
        ) by {
            assert(s.drop_last()[i] == s[i]);
        }
        lemma_filter_all(s.drop_last(), p);
        assert(p(s[s.len() - 1]));
        assert(s.drop_last().push(s.last()) =~= s);
    } else {
        assert(s.filter(p) =~= s);
    }
}

/// Filtering out the only element on which `p` fails is taking it out.
proof fn lemma_filter_all_but_one<A>(s: Seq<A>, p: spec_fn(A) -> bool, at: int)
    requires
        0 <= at < s.len(),
        forall|i: int| 0 <= i < s.len() ==> p(#[trigger] s[i]) == (i != at),
    ensures
        s.filter(p) == s.remove(at),
    decreases s.len(),
{
    reveal(Seq::filter);
    let rest = s.drop_last();
    assert(p(s[s.len() - 1]) == (s.len() - 1 != at));
    assert forall|i: int| 0 <= i < rest.len() implies p(#[trigger] rest[i]) == (i != at) by {
        assert(rest[i] == s[i]);
    }
    if at == s.len() - 1 {
        lemma_filter_all(rest, p);
        assert(s.remove(at) =~= rest);
    } else {
        lemma_filter_all_but_one(rest, p, at);
        assert(s.remove(at) =~= rest.remove(at).push(s.last()));
    }
}

/// What stays of a list has distinct ids, and each of its entries is one of the list.
pub proof fn lemma_filter_entries<V>(
    s: Seq<(Seq<char>, V)>,
    p: spec_fn((Seq<char>, V)) -> bool,
)
    requires
        distinct_ids(s),
    ensures
        distinct_ids(s.filter(p)),
        forall|i: int|
            0 <= i < s.filter(p).len() ==> {
                &&& p(#[trigger] s.filter(p)[i])
                &&& has_id(s, s.filter(p)[i].0)
                &&& s[index_of_id(s, s.filter(p)[i].0)] == s.filter(p)[i]
            },
        forall|i: int|
            0 <= i < s.len() && p(#[trigger] s[i]) ==> {
                &&& has_id(s.filter(p), s[i].0)
                &&& s.filter(p)[index_of_id(s.filter(p), s[i].0)] == s[i]
            },
    decreases s.len(),
{
    reveal(Seq::filter);
    let t = s.filter(p);
    if s.len() > 0 {
        let rest = s.drop_last();
        let kept = rest.filter(p);
        assert(distinct_ids(rest)) by {
            assert forall|i: int, j: int|
                0 <= i < rest.len() && 0 <= j < rest.len() && #[trigger] rest[i].0
                    == #[trigger] rest[j].0 implies i == j by {
                assert(s[i].0 == s[j].0);
            }
        }
        lemma_filter_entries(rest, p);
        assert forall|i: int| 0 <= i < kept.len() implies {
            &&& p(#[trigger] kept[i])
            &&& has_id(s, kept[i].0)
            &&& s[index_of_id(s, kept[i].0)] == kept[i]
            &&& kept[i].0 != s.last().0
        } by {
            let j = index_of_id(rest, kept[i].0);
            assert(rest[j] == kept[i] && s[j] == rest[j] && 0 <= j < rest.len());
            lemma_index_of_id(s, j);
            assert(s[s.len() - 1].0 != s[j].0);
        }
        if p(s.last()) {
            assert(t == kept.push(s.last()));
            assert(distinct_ids(t)) by {
                assert forall|i: int, j: int|
                    0 <= i < t.len() && 0 <= j < t.len() && #[trigger] t[i].0
                        == #[trigger] t[j].0 implies i == j by {
                    if i < kept.len() {
                        assert(t[i] == kept[i]);
                    }
                    if j < kept.len() {
                        assert(t[j] == kept[j]);
                    }
                }
            }
            lemma_index_of_id(s, s.len() - 1);
            assert forall|i: int| 0 <= i < t.len() implies {
                &&& p(#[trigger] t[i])
                &&& has_id(s, t[i].0)
                &&& s[index_of_id(s, t[i].0)] == t[i]
            } by {
                if i < kept.len() {
                    assert(t[i] == kept[i]);
                }
            }
        } else {
            assert(t == kept);
        }
        assert forall|i: int| 0 <= i < s.len() && p(#[trigger] s[i]) implies {
            &&& has_id(t, s[i].0)
            &&& t[index_of_id(t, s[i].0)] == s[i]
        } by {
            if i < rest.len() {
                assert(rest[i] == s[i]);
                let k = index_of_id(kept, s[i].0);
                assert(0 <= k < kept.len() && kept[k] == s[i]);
                assert(t[k] == kept[k]);
                lemma_index_of_id(t, k);
            } else {
                assert(t[t.len() - 1] == s[i]);
                lemma_index_of_id(t, t.len() - 1);
            }
        }
    }
}

/// Taking out one more id is taking out one more entry.
pub proof fn lemma_without_step<V>(s: Seq<(Seq<char>, V)>, ids: Seq<Seq<char>>, k: int)
    requires
        distinct_ids(s),
        ids.no_duplicates(),
        0 <= k < ids.len(),
        has_id(s, ids[k]),
    ensures
        distinct_ids(without(s, ids.take(k))),
        has_id(without(s, ids.take(k)), ids[k]),
        without(s, ids.take(k))[index_of_id(without(s, ids.take(k)), ids[k])] == s[index_of_id(
            s,
            ids[k],
        )],
        without(s, ids.take(k + 1)) == without(s, ids.take(k)).remove(
            index_of_id(without(s, ids.take(k)), ids[k]),
        ),
{
    let id = ids[k];
    let before = |e: (Seq<char>, V)| !ids.take(k).contains(e.0);
    let after = |e: (Seq<char>, V)| !ids.take(k + 1).contains(e.0);
    let other = |e: (Seq<char>, V)| e.0 != id;
    let t = without(s, ids.take(k));
    let more = ids.take(k + 1);
    lemma_filter_entries(s, before);
    let i = index_of_id(s, id);
    assert(0 <= i < s.len() && s[i].0 == id);
    assert(!ids.take(k).contains(id));
    assert(before(s[i]));
    assert forall|j: int| 0 <= j < s.len() implies after(#[trigger] s[j]) == (before(s[j]) && other(
        s[j],
    )) by {
        let e = s[j].0;
        if ids.take(k).contains(e) {
            let m = choose|m: int| 0 <= m < ids.take(k).len() && ids.take(k)[m] == e;
            assert(more[m] == e);
        }
        if e == id {
            assert(more[k] == e);
        }
        if more.contains(e) {
            let m = choose|m: int| 0 <= m < more.len() && more[m] == e;
            if m < k {
                assert(ids.take(k)[m] == e);
            }
        }
    }
    lemma_filter_twice(s, before, other, after);
    let at = index_of_id(t, id);
    assert forall|j: int| 0 <= j < t.len() implies other(#[trigger] t[j]) == (j != at) by {
        if j != at {
            assert(t[at].0 == id);
            assert(t[j].0 != t[at].0);
        }
    }
    lemma_filter_all_but_one(t, other, at);
}

/// The places lie in `keep`, in order, and are all at which `keep` is `want`.
pub proof fn lemma_places(keep: Seq<bool>, want: bool)
    ensures
        forall|k: int|
            0 <= k < places(keep, want).len() ==> 0 <= #[trigger] places(keep, want)[k]
                < keep.len() && keep[places(keep, want)[k]] == want,
        forall|k: int, l: int|
            0 <= k < l < places(keep, want).len() ==> #[trigger] places(keep, want)[k]
                < #[trigger] places(keep, want)[l],
        forall|i: int|
            0 <= i < keep.len() && #[trigger] keep[i] == want ==> places(keep, want).contains(i),
    decreases keep.len(),
{
    if keep.len() > 0 {
        let rest = keep.drop_last();
        let before = places(rest, want);
        let all = places(keep, want);
        lemma_places(rest, want);
        assert forall|k: int| 0 <= k < all.len() implies 0 <= #[trigger] all[k] < keep.len()
            && keep[all[k]] == want by {
            if k < before.len() {
                assert(all[k] == before[k]);
                assert(rest[before[k]] == keep[before[k]]);
            }
        }
        assert forall|k: int, l: int| 0 <= k < l < all.len() implies #[trigger] all[k]
            < #[trigger] all[l] by {
            assert(all[k] == before[k]);
            if l < before.len() {
                assert(all[l] == before[l]);
            }
        }
        assert forall|i: int| 0 <= i < keep.len() && #[trigger] keep[i] == want implies all.contains(
            i,
        ) by {
            if i < rest.len() {
                assert(rest[i] == want);
                let k = choose|k: int| 0 <= k < before.len() && before[k] == i;
                assert(all[k] == i);
            } else {
                assert(all[all.len() - 1] == i);
            }
        }
    }
}

/// Filtering is picking the places at which the filter holds.
pub proof fn lemma_filter_is_pick<A>(
    s: Seq<A>,
    p: spec_fn(A) -> bool,
    keep: Seq<bool>,
    want: bool,
)
    requires
        keep.len() == s.len(),
        forall|i: int| 0 <= i < s.len() ==> p(#[trigger] s[i]) == (keep[i] == want),
    ensures
        s.filter(p) == pick(s, places(keep, want)),
    decreases s.len(),
{
    reveal(Seq::filter);
    if s.len() > 0 {
        let rest = s.drop_last();
        let rest_keep = keep.drop_last();
        assert forall|i: int| 0 <= i < rest.len() implies p(#[trigger] rest[i]) == (rest_keep[i]
            == want) by {
            assert(rest[i] == s[i]);
        }
        lemma_filter_is_pick(rest, p, rest_keep, want);
        lemma_places(rest_keep, want);
        let at = places(rest_keep, want);
        assert(pick(s, at) =~= pick(rest, at));
        assert(p(s[s.len() - 1]) == (keep[s.len() - 1] == want));
        assert(pick(s, places(keep, want)) =~= if keep.last() == want {
            pick(s, at).push(s.last())
        } else {
            pick(s, at)
        });
    } else {
        assert(s.filter(p) =~= pick(s, places(keep, want)));
    }
}

/// The ids of the entries at which `keep` is `true`.
pub open spec fn kept_ids<V>(s: Seq<(Seq<char>, V)>, keep: Seq<bool>) -> Seq<Seq<char>> {
    places(keep, true).map_values(|i: int| s[i].0)
}

/// Taking out, one after another, the entries at which `keep` is `true` leaves the others;
/// the entry that is taken out at turn `k` has moved up by `k` places until then.
pub proof fn lemma_without_kept<V>(s: Seq<(Seq<char>, V)>, keep: Seq<bool>)
    requires
        distinct_ids(s),
        keep.len() == s.len(),
    ensures
        kept_ids(s, keep).no_duplicates(),
        forall|k: int|
            0 <= k < kept_ids(s, keep).len() ==> has_id(s, #[trigger] kept_ids(s, keep)[k])
                && index_of_id(s, kept_ids(s, keep)[k]) == places(keep, true)[k],
        without(s, kept_ids(s, keep)) == pick(s, places(keep, false)),
        forall|k: int|
            0 <= k < kept_ids(s, keep).len() ==> index_of_id(
                without(s, kept_ids(s, keep).take(k)),
                #[trigger] kept_ids(s, keep)[k],
            ) == places(keep, true)[k] - k,
{
    let at = places(keep, true);
    let ids = kept_ids(s, keep);
    lemma_places(keep, true);
    assert forall|k: int| 0 <= k < ids.len() implies has_id(s, #[trigger] ids[k]) && index_of_id(
        s,
        ids[k],
    ) == at[k] by {
        lemma_index_of_id(s, at[k]);
    }
    assert(ids.no_duplicates()) by {
        assert forall|k: int, l: int|
            0 <= k < ids.len() && 0 <= l < ids.len() && k != l implies ids[k] != ids[l] by {
            assert(at[k] < at[l] || at[l] < at[k]);
            assert(s[at[k]].0 == ids[k] && s[at[l]].0 == ids[l]);
        }
    }
    let stays = |e: (Seq<char>, V)| !ids.contains(e.0);
    assert forall|i: int| 0 <= i < s.len() implies stays(#[trigger] s[i]) == (keep[i] == false) by {
        if keep[i] {
            assert(at.contains(i));
            let k = choose|k: int| 0 <= k < at.len() && at[k] == i;
            assert(ids[k] == s[i].0);
        }
        if ids.contains(s[i].0) {
            let k = choose|k: int| 0 <= k < ids.len() && ids[k] == s[i].0;
            assert(s[at[k]].0 == s[i].0);
            assert(keep[at[k]]);
        }
    }
    lemma_filter_is_pick(s, stays, keep, false);
    assert forall|k: int| 0 <= k < ids.len() implies index_of_id(
        without(s, ids.take(k)),
        #[trigger] ids[k],
    ) == at[k] - k by {
        lemma_moved_up(s, keep, k);
        lemma_without_step(s, ids, k);
        let t = without(s, ids.take(k));
        if k > 0 {
            assert(at[k - 1] < at[k]);
        }
        assert(k <= at[k]) by {
            lemma_increasing_from_zero(at, k);
        }
        assert(t[at[k] - k] == s[at[k]]);
        lemma_index_of_id(t, at[k] - k);
    }
}

/// Increasing places from zero on are at least their number.
proof fn lemma_increasing_from_zero(at: Seq<int>, k: int)
    requires
        0 <= k < at.len(),
        forall|i: int| 0 <= i < at.len() ==> 0 <= #[trigger] at[i],
        forall|i: int, j: int| 0 <= i < j < at.len() ==> #[trigger] at[i] < #[trigger] at[j],
    ensures
        k <= at[k],
    decreases k,
{
    if k > 0 {
        lemma_increasing_from_zero(at, k - 1);
        assert(at[k - 1] < at[k]);
    }
}

/// Once the first `k` are taken out, each entry behind them has moved up by `k` places.
proof fn lemma_moved_up<V>(s: Seq<(Seq<char>, V)>, keep: Seq<bool>, k: int)
    requires
        distinct_ids(s),
        keep.len() == s.len(),
        0 <= k < kept_ids(s, keep).len(),
        kept_ids(s, keep).no_duplicates(),
        forall|l: int|
            0 <= l < kept_ids(s, keep).len() ==> has_id(s, #[trigger] kept_ids(s, keep)[l]),
    ensures
        without(s, kept_ids(s, keep).take(k)).len() == s.len() - k,
        forall|j: int|
            (k > 0 ==> places(keep, true)[k - 1] < j) && k <= j < s.len()
                ==> without(s, kept_ids(s, keep).take(k))[j - k] == #[trigger] s[j],
    decreases k,
{
    let at = places(keep, true);
    let ids = kept_ids(s, keep);
    let t = without(s, ids.take(k));
    lemma_places(keep, true);
    if k == 0 {
        lemma_filter_all(s, |e: (Seq<char>, V)| !ids.take(k).contains(e.0));
    } else {
        let u = without(s, ids.take(k - 1));
        lemma_moved_up(s, keep, k - 1);
        lemma_without_step(s, ids, k - 1);
        lemma_increasing_from_zero(at, k - 1);
        if k > 1 {
            assert(at[k - 2] < at[k - 1]);
        }
        let gone = at[k - 1] - (k - 1);
        assert(u[gone] == s[at[k - 1]]);
        assert(s[at[k - 1]].0 == ids[k - 1]);
        lemma_index_of_id(u, gone);
        assert(t == u.remove(gone));
        assert forall|j: int| at[k - 1] < j && k <= j < s.len() implies t[j - k]
            == #[trigger] s[j] by {
            assert(u[j - (k - 1)] == s[j]);
        }
    }
}

} // verus!
