//! What holds of the list of recordings, of the recordings and of the database together,
//! whatever is done.

use vstd::prelude::*;

use super::entries::{
    distinct_ids, has_id, index_of_id, kept_ids, lemma_filter_all, lemma_filter_entries,
    lemma_filter_is_pick, lemma_index_of_id, lemma_places, lemma_upsert, lemma_without_kept,
    lemma_without_step, pick, places, upsert, upsert_all, without,
};
use super::recording::{
    BoxedRecognizeResult, Recording, RecordingData, RecordingDataView, RecordingView,
};
use super::recordings::{
    after_unbinding, among, answers, deletions, in_32_bits, lemma_without_nothing,
    lemma_without_wf, list_wf, notify_effects, numbered, numbers_of, put, read_items, removals,
    revived, EffectView, ItemsChanged,
};
use crate::db::{after_write, after_writes, DbError, DbWriteView};

verus! {

/// What a database that is in step with a list holds: what there is to keep of each recording,
/// under its id.
pub open spec fn stored(s: Seq<(Seq<char>, usize)>, objects: Seq<RecordingView>) -> Map<
    Seq<char>,
    RecordingDataView,
> {
    Map::new(
        |id: Seq<char>| has_id(s, id),
        |id: Seq<char>| objects[s[index_of_id(s, id)].1 as int].data,
    )
}

/// `items` is what reading a database yields: each of its ids once, with what it keeps there.
pub open spec fn reads(
    db: Map<Seq<char>, RecordingDataView>,
    items: Seq<Result<(String, RecordingData), DbError>>,
) -> bool {
    let read = read_items(items);
    &&& forall|i: int| 0 <= i < items.len() ==> #[trigger] items[i] is Ok
    &&& distinct_ids(read)
    &&& db == Map::new(
        |id: Seq<char>| has_id(read, id),
        |id: Seq<char>| read[index_of_id(read, id)].1,
    )
}

/// The list has recording `n` under this id.
pub open spec fn lists(s: Seq<(Seq<char>, usize)>, id: Seq<char>, n: int) -> bool {
    has_id(s, id) && s[index_of_id(s, id)].1 == n
}

/// Exactly the entries that refer to recording `n` hear of its changes.
pub open spec fn tied(
    s: Seq<(Seq<char>, usize)>,
    objects: Seq<RecordingView>,
    n: int,
) -> bool {
    forall|id: Seq<char>| #[trigger] objects[n].handlers().contains(id) <==> lists(s, id, n)
}

/// The writes of the handlers with these ids, one after another.
pub open spec fn puts(ids: Seq<Seq<char>>, recording: RecordingDataView) -> Seq<DbWriteView> {
    ids.map_values(|id: Seq<char>| put(id, recording)[0])
}

/// `change` tells an observer that saw `before` where `after` differs.
pub open spec fn announces(
    before: Seq<(Seq<char>, usize)>,
    after: Seq<(Seq<char>, usize)>,
    change: ItemsChanged,
) -> bool {
    &&& change.position + change.removed <= before.len()
    &&& after.len() == before.len() - change.removed + change.added
    &&& after.take(change.position as int) == before.take(change.position as int)
    &&& after.skip(change.position + change.added) == before.skip(
        change.position + change.removed,
    )
}

/// Loading what a database holds gives a list that the database is in step with, in the order
/// in which the database was read, and each entry hears of the changes of its recording.
pub proof fn law_load_in_step(
    db: Map<Seq<char>, RecordingDataView>,
    items: Seq<Result<(String, RecordingData), DbError>>,
    others: Seq<RecordingView>,
)
    requires
        reads(db, items),
        others.len() + items.len() <= usize::MAX,
    ensures
        upsert_all(Seq::empty(), read_items(items)) == read_items(items),
        stored(
            numbered(upsert_all(Seq::empty(), read_items(items)), others.len()),
            others + revived(upsert_all(Seq::empty(), read_items(items))),
        ) == db,
        forall|n: int|
            others.len() <= n < others.len() + items.len() ==> #[trigger] tied(
                numbered(upsert_all(Seq::empty(), read_items(items)), others.len()),
                others + revived(upsert_all(Seq::empty(), read_items(items))),
                n,
            ),
{
    let read = read_items(items);
    lemma_upsert_all_distinct(read);
    let s = numbered(read, others.len());
    let objects = others + revived(read);
    lemma_numbered(read, others);
    assert(stored(s, objects) =~= db);
    assert forall|n: int| others.len() <= n < others.len() + items.len() implies #[trigger] tied(
        s,
        objects,
        n,
    ) by {
        let p = n - others.len();
        let r = objects[n];
        assert(r == RecordingView::free(read[p].1).bound(read[p].0));
        assert(r.handlers() =~= seq![read[p].0]);
        assert(r.handlers()[0] == read[p].0);
        lemma_index_of_id(s, p);
        assert forall|id: Seq<char>| #[trigger] r.handlers().contains(id) <==> lists(s, id, n) by {
            if lists(s, id, n) {
                let i = index_of_id(s, id);
                assert(s[i].0 == id);
                assert(i == p);
            }
        }
    }
}

proof fn lemma_numbered(read: Seq<(Seq<char>, RecordingDataView)>, others: Seq<RecordingView>)
    requires
        distinct_ids(read),
        others.len() + read.len() <= usize::MAX,
    ensures
        distinct_ids(numbered(read, others.len())),
        forall|id: Seq<char>| #[trigger]
            has_id(numbered(read, others.len()), id) <==> has_id(read, id),
        forall|id: Seq<char>| #[trigger]
            has_id(read, id) ==> (others + revived(read))[numbered(
                read,
                others.len(),
            )[index_of_id(numbered(read, others.len()), id)].1 as int].data
                == read[index_of_id(read, id)].1,
{
    let s = numbered(read, others.len());
    assert forall|i: int, j: int|
        0 <= i < s.len() && 0 <= j < s.len() && #[trigger] s[i].0 == #[trigger] s[j].0 implies i
        == j by {
        assert(read[i].0 == read[j].0);
    }
    assert forall|id: Seq<char>| #[trigger] has_id(s, id) <==> has_id(read, id) by {
        if has_id(s, id) {
            let i = index_of_id(s, id);
            assert(read[i].0 == s[i].0);
        }
        if has_id(read, id) {
            let i = index_of_id(read, id);
            assert(s[i].0 == read[i].0);
        }
    }
    assert forall|id: Seq<char>| #[trigger] has_id(read, id) implies (others + revived(
        read,
    ))[s[index_of_id(s, id)].1 as int].data == read[index_of_id(read, id)].1 by {
        let i = index_of_id(read, id);
        assert(s[i].0 == read[i].0);
        lemma_index_of_id(s, i);
        assert((others + revived(read))[others.len() + i] == revived(read)[i]);
    }
}

/// A list that is loaded again from a database in step with it has as many entries, under the
/// same ids, and keeps the same of each.
pub proof fn law_reload(
    s: Seq<(Seq<char>, usize)>,
    objects: Seq<RecordingView>,
    items: Seq<Result<(String, RecordingData), DbError>>,
    others: Seq<RecordingView>,
)
    requires
        list_wf(s, objects),
        reads(stored(s, objects), items),
        others.len() + items.len() <= usize::MAX,
    ensures
        numbered(upsert_all(Seq::empty(), read_items(items)), others.len()).len() == s.len(),
        stored(
            numbered(upsert_all(Seq::empty(), read_items(items)), others.len()),
            others + revived(upsert_all(Seq::empty(), read_items(items))),
        ) == stored(s, objects),
{
    law_load_in_step(stored(s, objects), items, others);
    let read = read_items(items);
    let a = s.map_values(|e: (Seq<char>, usize)| e.0);
    let b = read.map_values(|e: (Seq<char>, RecordingDataView)| e.0);
    assert(a.no_duplicates()) by {
        assert forall|i: int, j: int| 0 <= i < a.len() && 0 <= j < a.len() && i != j implies a[i]
            != a[j] by {
            if a[i] == a[j] {
                assert(s[i].0 == s[j].0);
            }
        }
    }
    assert(b.no_duplicates()) by {
        assert forall|i: int, j: int| 0 <= i < b.len() && 0 <= j < b.len() && i != j implies b[i]
            != b[j] by {
            if b[i] == b[j] {
                assert(read[i].0 == read[j].0);
            }
        }
    }
    assert forall|id: Seq<char>| a.contains(id) <==> b.contains(id) by {
        assert(stored(s, objects).contains_key(id) == has_id(s, id));
        assert(stored(s, objects).contains_key(id) == has_id(read, id));
        if a.contains(id) {
            let i = choose|i: int| 0 <= i < a.len() && a[i] == id;
            assert(s[i].0 == id);
            let j = index_of_id(read, id);
            assert(b[j] == id);
        }
        if b.contains(id) {
            let j = choose|j: int| 0 <= j < b.len() && b[j] == id;
            assert(read[j].0 == id);
            let i = index_of_id(s, id);
            assert(a[i] == id);
        }
    }
    assert(a.to_set() =~= b.to_set());
    a.unique_seq_to_set();
    b.unique_seq_to_set();
}

pub proof fn lemma_upsert_all_distinct<V>(read: Seq<(Seq<char>, V)>)
    requires
        distinct_ids(read),
    ensures
        upsert_all(Seq::empty(), read) == read,
    decreases read.len(),
{
    if read.len() > 0 {
        let rest = read.drop_last();
        assert forall|i: int, j: int|
            0 <= i < rest.len() && 0 <= j < rest.len() && #[trigger] rest[i].0
                == #[trigger] rest[j].0 implies i == j by {
            assert(read[i].0 == read[j].0);
        }
        lemma_upsert_all_distinct(rest);
        if has_id(rest, read.last().0) {
            let i = index_of_id(rest, read.last().0);
            assert(rest[i].0 == read[i].0);
            assert(read[i].0 == read[read.len() - 1].0);
        }
        assert(rest.push(read.last()) =~= read);
    } else {
        assert(upsert_all(Seq::empty(), read) =~= read);
    }
}

proof fn lemma_one_write(db: Map<Seq<char>, RecordingDataView>, write: DbWriteView)
    ensures
        after_writes(db, seq![write]) == after_write(db, write),
{
    let writes = seq![write];
    assert(writes.drop_last() =~= Seq::empty());
    assert(after_writes(db, writes.drop_last()) == db);
}

/// Under another id, `upsert` changes nothing.
proof fn lemma_upsert_others(s: Seq<(Seq<char>, usize)>, id: Seq<char>, n: usize)
    requires
        distinct_ids(s),
    ensures
        forall|other: Seq<char>| #[trigger]
            has_id(upsert(s, id, n), other) && other != id ==> upsert(s, id, n)[index_of_id(
                upsert(s, id, n),
                other,
            )] == s[index_of_id(s, other)],
{
    let t = upsert(s, id, n);
    lemma_upsert(s, id, n);
    assert forall|other: Seq<char>| #[trigger] has_id(t, other) && other != id implies t[index_of_id(
        t,
        other,
    )] == s[index_of_id(s, other)] by {
        let i = index_of_id(t, other);
        assert(t[i].0 == other);
        assert(s[i] == t[i]);
        lemma_index_of_id(s, i);
    }
}

/// Inserting keeps list and database in step.
pub proof fn law_insert_in_step(
    s: Seq<(Seq<char>, usize)>,
    objects: Seq<RecordingView>,
    id: Seq<char>,
    n: usize,
)
    requires
        list_wf(s, objects),
        n < objects.len(),
    ensures
        stored(
            upsert(s, id, n),
            objects.update(n as int, objects[n as int].bound(id)),
        ) == after_writes(stored(s, objects), put(id, objects[n as int].data)),
{
    let t = upsert(s, id, n);
    let bound = objects.update(n as int, objects[n as int].bound(id));
    lemma_upsert(s, id, n);
    lemma_upsert_others(s, id, n);
    lemma_one_write(stored(s, objects), put(id, objects[n as int].data)[0]);
    assert forall|i: int| 0 <= i < objects.len() implies (#[trigger] bound[i]).data
        == objects[i].data by {}
    assert forall|other: Seq<char>| #[trigger] has_id(s, other) implies s[index_of_id(s, other)].1
        < objects.len() by {
        let i = index_of_id(s, other);
        assert(s[i].0 == other);
    }
    assert(stored(t, bound) =~= stored(s, objects).insert(id, objects[n as int].data));
}

/// An insertion under a new id leaves each recording tied to its entries.
pub proof fn law_insert_ties(
    s: Seq<(Seq<char>, usize)>,
    objects: Seq<RecordingView>,
    id: Seq<char>,
    n: usize,
    other: int,
)
    requires
        list_wf(s, objects),
        n < objects.len(),
        0 <= other < objects.len(),
        !has_id(s, id),
        tied(s, objects, other),
    ensures
        tied(
            upsert(s, id, n),
            objects.update(n as int, objects[n as int].bound(id)),
            other,
        ),
{
    let t = upsert(s, id, n);
    let bound = objects.update(n as int, objects[n as int].bound(id));
    lemma_upsert(s, id, n);
    lemma_upsert_others(s, id, n);
    let before = objects[other].handlers();
    let after = bound[other].handlers();
    if other == n {
        assert(after == before.push(id));
    }
    assert forall|i: Seq<char>| #[trigger] after.contains(i) <==> lists(t, i, other) by {
        assert(before.contains(i) <==> lists(s, i, other));
        if other == n {
            if before.contains(i) {
                let k = choose|k: int| 0 <= k < before.len() && before[k] == i;
                assert(after[k] == i);
            }
            if i == id {
                assert(after[before.len() as int] == i);
            }
            if after.contains(i) && i != id {
                let k = choose|k: int| 0 <= k < after.len() && after[k] == i;
                assert(before[k] == i);
            }
        }
    }
}

/// Who has been taken out is found nowhere, and who has not is found as before.
proof fn lemma_without_lookup(s: Seq<(Seq<char>, usize)>, ids: Seq<Seq<char>>)
    requires
        distinct_ids(s),
    ensures
        forall|id: Seq<char>| #[trigger]
            has_id(without(s, ids), id) <==> (has_id(s, id) && !ids.contains(id)),
        forall|id: Seq<char>| #[trigger]
            has_id(without(s, ids), id) ==> without(s, ids)[index_of_id(without(s, ids), id)]
                == s[index_of_id(s, id)],
{
    let t = without(s, ids);
    lemma_filter_entries(s, |e: (Seq<char>, usize)| !ids.contains(e.0));
    assert forall|id: Seq<char>| #[trigger] has_id(t, id) <==> (has_id(s, id) && !ids.contains(
        id,
    )) by {
        if has_id(t, id) {
            let i = index_of_id(t, id);
            assert(t[i].0 == id);
        }
        if has_id(s, id) && !ids.contains(id) {
            let i = index_of_id(s, id);
            assert(s[i].0 == id);
        }
    }
    assert forall|id: Seq<char>| #[trigger] has_id(t, id) implies t[index_of_id(t, id)]
        == s[index_of_id(s, id)] by {
        let i = index_of_id(t, id);
        assert(t[i].0 == id);
    }
}

/// Taking recordings out keeps list and database in step.
pub proof fn law_take_in_step(
    s: Seq<(Seq<char>, usize)>,
    objects: Seq<RecordingView>,
    ids: Seq<Seq<char>>,
)
    requires
        list_wf(s, objects),
    ensures
        stored(without(s, ids), after_unbinding(objects, numbers_of(s, ids))) == after_writes(
            stored(s, objects),
            deletions(ids),
        ),
{
    let t = without(s, ids);
    let unbound = after_unbinding(objects, numbers_of(s, ids));
    lemma_without_lookup(s, ids);
    lemma_after_deletions(stored(s, objects), ids);
    assert forall|i: int| 0 <= i < objects.len() implies (#[trigger] unbound[i]).data
        == objects[i].data by {}
    assert forall|id: Seq<char>| #[trigger] has_id(s, id) implies s[index_of_id(s, id)].1
        < objects.len() by {
        let i = index_of_id(s, id);
        assert(s[i].0 == id);
    }
    let kept = after_writes(stored(s, objects), deletions(ids));
    assert forall|id: Seq<char>| #[trigger] stored(t, unbound).contains_key(id)
        == kept.contains_key(id) by {
        assert(stored(t, unbound).contains_key(id) == has_id(t, id));
        assert(stored(s, objects).contains_key(id) == has_id(s, id));
    }
    assert forall|id: Seq<char>| #[trigger] stored(t, unbound).contains_key(id) implies stored(
        t,
        unbound,
    )[id] == kept[id] by {
        assert(has_id(t, id) && has_id(s, id));
        let i = index_of_id(s, id);
        assert(t[index_of_id(t, id)] == s[i]);
        assert(unbound[s[i].1 as int].data == objects[s[i].1 as int].data);
        assert(kept.contains_key(id));
        assert(kept[id] == stored(s, objects)[id]);
    }
    assert(stored(t, unbound) =~= kept);
}

proof fn lemma_after_deletions(db: Map<Seq<char>, RecordingDataView>, ids: Seq<Seq<char>>)
    ensures
        forall|id: Seq<char>| #[trigger]
            after_writes(db, deletions(ids)).contains_key(id) <==> (db.contains_key(id)
                && !ids.contains(id)),
        forall|id: Seq<char>| #[trigger]
            after_writes(db, deletions(ids)).contains_key(id) ==> after_writes(
                db,
                deletions(ids),
            )[id] == db[id],
    decreases ids.len(),
{
    if ids.len() > 0 {
        let rest = ids.drop_last();
        lemma_after_deletions(db, rest);
        assert(deletions(ids).drop_last() =~= deletions(rest));
        assert(deletions(ids).last() == DbWriteView::Delete { id: ids.last() });
        let before = after_writes(db, deletions(rest));
        assert(after_writes(db, deletions(ids)) == before.remove(ids.last()));
        assert forall|id: Seq<char>| before.remove(ids.last()).contains_key(id) == (id
            != ids.last() && #[trigger] before.contains_key(id)) by {}
        lemma_contains_last(ids);
    }
}

proof fn lemma_contains_last(ids: Seq<Seq<char>>)
    requires
        ids.len() > 0,
    ensures
        forall|id: Seq<char>| #[trigger]
            ids.contains(id) <==> (ids.drop_last().contains(id) || id == ids.last()),
{
    let rest = ids.drop_last();
    assert forall|id: Seq<char>| #[trigger] ids.contains(id) <==> (rest.contains(id) || id
        == ids.last()) by {
        if rest.contains(id) {
            let i = choose|i: int| 0 <= i < rest.len() && rest[i] == id;
            assert(ids[i] == id);
        }
        if id == ids.last() {
            assert(ids[ids.len() - 1] == id);
        }
        if ids.contains(id) && id != ids.last() {
            let i = choose|i: int| 0 <= i < ids.len() && ids[i] == id;
            assert(rest[i] == id);
        }
    }
}

/// Each deletion of a take finds what it deletes.
pub proof fn law_take_deletes_what_is_there(
    s: Seq<(Seq<char>, usize)>,
    objects: Seq<RecordingView>,
    ids: Seq<Seq<char>>,
    k: int,
)
    requires
        list_wf(s, objects),
        ids.no_duplicates(),
        0 <= k < ids.len(),
        has_id(s, ids[k]),
    ensures
        after_writes(stored(s, objects), deletions(ids).take(k)).contains_key(ids[k]),
{
    assert(deletions(ids).take(k) =~= deletions(ids.take(k)));
    lemma_after_deletions(stored(s, objects), ids.take(k));
    assert(!ids.take(k).contains(ids[k]));
}

/// Where each recording that is taken out was bound once, by the entry that goes, a take leaves
/// each recording tied to its entries.
pub proof fn law_take_ties(
    s: Seq<(Seq<char>, usize)>,
    objects: Seq<RecordingView>,
    ids: Seq<Seq<char>>,
    other: int,
)
    requires
        list_wf(s, objects),
        0 <= other < objects.len(),
        forall|k: int| 0 <= k < ids.len() ==> has_id(s, #[trigger] ids[k]),
        forall|k: int|
            0 <= k < ids.len() ==> {
                let r = objects[(#[trigger] numbers_of(s, ids)[k]) as int];
                r.earlier.len() == 0 && r.newest == Some(ids[k])
            },
        tied(s, objects, other),
    ensures
        tied(without(s, ids), after_unbinding(objects, numbers_of(s, ids)), other),
{
    let t = without(s, ids);
    let numbers = numbers_of(s, ids);
    let unbound = after_unbinding(objects, numbers);
    let before = objects[other].handlers();
    let after = unbound[other].handlers();
    lemma_without_lookup(s, ids);
    if among(numbers, other) {
        let k = choose|k: int| 0 <= k < numbers.len() && #[trigger] numbers[k] == other;
        assert(before =~= seq![ids[k]]);
        assert(after =~= Seq::empty());
        assert forall|id: Seq<char>| #[trigger] after.contains(id) <==> lists(t, id, other) by {
            if lists(t, id, other) {
                assert(lists(s, id, other));
                assert(before.contains(id));
                assert(id == ids[k]);
                assert(ids.contains(id));
            }
        }
    } else {
        assert(after == before);
        assert forall|id: Seq<char>| #[trigger] after.contains(id) <==> lists(t, id, other) by {
            assert(before.contains(id) <==> lists(s, id, other));
            if lists(s, id, other) && ids.contains(id) {
                let k = choose|k: int| 0 <= k < ids.len() && ids[k] == id;
                assert(numbers[k] == other);
                assert(among(numbers, other));
            }
        }
    }
}

/// What a recording that was bound once, and then taken out, goes through concerns no list.
pub proof fn law_taken_is_not_heard_of(
    s: Seq<(Seq<char>, usize)>,
    objects: Seq<RecordingView>,
    ids: Seq<Seq<char>>,
    k: int,
)
    requires
        list_wf(s, objects),
        0 <= k < ids.len(),
        has_id(s, ids[k]),
        objects[numbers_of(s, ids)[k] as int].earlier.len() == 0,
    ensures
        after_unbinding(objects, numbers_of(s, ids))[numbers_of(s, ids)[k] as int].handlers().len()
            == 0,
{
    let numbers = numbers_of(s, ids);
    let i = index_of_id(s, ids[k]);
    assert(s[i].0 == ids[k]);
    assert(numbers[k] == s[i].1);
    assert(among(numbers, numbers[k] as int));
}

/// Binding is undone by unbinding: a later change runs the handlers from before, whoever
/// connected them, and no other; and none is remembered any more.
pub proof fn law_unbind_undoes_bind(
    recording: RecordingView,
    id: Seq<char>,
    result: Option<BoxedRecognizeResult>,
)
    ensures
        recording.bound(id).handlers() == recording.handlers().push(id),
        recording.bound(id).unbound().handlers() == recording.handlers(),
        recording.bound(id).unbound().with_result(result).handlers() == recording.handlers(),
        recording.bound(id).unbound().newest is None,
        recording.bound(id).unbound().data == recording.data,
{
}

/// A recording that was bound once is heard of once: its handler alone runs, keeps the recording
/// as it is now under the id of the entry and nothing else, and then tells observers of the one
/// item.
pub proof fn law_bound_once_is_heard_of_once(
    s: Seq<(Seq<char>, usize)>,
    objects: Seq<RecordingView>,
    free: RecordingView,
    id: Seq<char>,
    n: usize,
    result: Option<BoxedRecognizeResult>,
)
    requires
        list_wf(s, objects),
        n < objects.len(),
        free.handlers().len() == 0,
        objects[n as int] == free.bound(id),
        lists(s, id, n as int),
    ensures
        objects[n as int].handlers() == seq![id],
        after_writes(
            stored(s, objects),
            put(id, objects[n as int].with_result(result).data),
        ) == stored(s, objects).insert(id, objects[n as int].with_result(result).data),
        notify_effects(s, id, objects[n as int].with_result(result).data) == seq![
            EffectView::Commit(put(id, objects[n as int].with_result(result).data)),
            EffectView::ItemsChanged(
                ItemsChanged { position: in_32_bits(index_of_id(s, id)), removed: 1, added: 1 },
            ),
        ],
{
    assert(objects[n as int].handlers() =~= seq![id]);
    lemma_one_write(stored(s, objects), put(id, objects[n as int].with_result(result).data)[0]);
}

/// Every entry that refers to a recording hears of its changes, however many there are.
pub proof fn law_every_entry_hears(
    s: Seq<(Seq<char>, usize)>,
    objects: Seq<RecordingView>,
    i: int,
    result: Option<BoxedRecognizeResult>,
)
    requires
        list_wf(s, objects),
        0 <= i < s.len(),
        tied(s, objects, s[i].1 as int),
    ensures
        objects[s[i].1 as int].handlers().contains(s[i].0),
        notify_effects(s, s[i].0, objects[s[i].1 as int].with_result(result).data) == seq![
            EffectView::Commit(put(s[i].0, objects[s[i].1 as int].with_result(result).data)),
            EffectView::ItemsChanged(
                ItemsChanged { position: in_32_bits(i), removed: 1, added: 1 },
            ),
        ],
{
    lemma_index_of_id(s, i);
    assert(lists(s, s[i].0, s[i].1 as int));
}

/// Each handler of a changed recording finds its entry, and once all of them have run, list and
/// database are in step.
pub proof fn law_change_in_step(
    s: Seq<(Seq<char>, usize)>,
    objects: Seq<RecordingView>,
    n: usize,
    result: Option<BoxedRecognizeResult>,
)
    requires
        list_wf(s, objects),
        n < objects.len(),
        tied(s, objects, n as int),
    ensures
        forall|k: int|
            0 <= k < objects[n as int].handlers().len() ==> has_id(
                s,
                #[trigger] objects[n as int].handlers()[k],
            ),
        after_writes(
            stored(s, objects),
            puts(objects[n as int].handlers(), objects[n as int].with_result(result).data),
        ) == stored(s, objects.update(n as int, objects[n as int].with_result(result))),
{
    let ids = objects[n as int].handlers();
    let data = objects[n as int].with_result(result).data;
    let changed = objects.update(n as int, objects[n as int].with_result(result));
    lemma_after_puts(stored(s, objects), ids, data);
    assert forall|id: Seq<char>| #[trigger] has_id(s, id) implies s[index_of_id(s, id)].1
        < objects.len() by {
        let i = index_of_id(s, id);
        assert(s[i].0 == id);
    }
    assert forall|id: Seq<char>| ids.contains(id) <==> lists(s, id, n as int) by {}
    assert forall|k: int| 0 <= k < ids.len() implies has_id(s, #[trigger] ids[k]) by {
        assert(ids.contains(ids[k]));
    }
    assert(after_writes(stored(s, objects), puts(ids, data)) =~= stored(s, changed));
}

proof fn lemma_after_puts(
    db: Map<Seq<char>, RecordingDataView>,
    ids: Seq<Seq<char>>,
    data: RecordingDataView,
)
    ensures
        forall|id: Seq<char>| #[trigger]
            after_writes(db, puts(ids, data)).contains_key(id) <==> (db.contains_key(id)
                || ids.contains(id)),
        forall|id: Seq<char>| #[trigger]
            after_writes(db, puts(ids, data)).contains_key(id) ==> after_writes(
                db,
                puts(ids, data),
            )[id] == if ids.contains(id) {
                data
            } else {
                db[id]
            },
    decreases ids.len(),
{
    if ids.len() > 0 {
        let rest = ids.drop_last();
        lemma_after_puts(db, rest, data);
        assert(puts(ids, data).drop_last() =~= puts(rest, data));
        assert(puts(ids, data).last() == DbWriteView::Put { id: ids.last(), recording: data });
        let before = after_writes(db, puts(rest, data));
        assert(after_writes(db, puts(ids, data)) == before.insert(ids.last(), data));
        assert forall|id: Seq<char>| before.insert(ids.last(), data).contains_key(id) == (id
            == ids.last() || #[trigger] before.contains_key(id)) by {}
        lemma_contains_last(ids);
    }
}

/// Observers are told of an insertion under a new id as the change that it is.
pub proof fn law_insert_announced(s: Seq<(Seq<char>, usize)>, id: Seq<char>, n: usize)
    requires
        distinct_ids(s),
        !has_id(s, id),
        s.len() <= u32::MAX,
    ensures
        announces(
            s,
            upsert(s, id, n),
            ItemsChanged {
                position: in_32_bits(index_of_id(upsert(s, id, n), id)),
                removed: 0,
                added: 1,
            },
        ),
{
    let t = upsert(s, id, n);
    lemma_upsert(s, id, n);
    assert(t[s.len() as int].0 == id);
    lemma_index_of_id(t, s.len() as int);
    assert(t.take(s.len() as int) =~= s.take(s.len() as int));
    assert(t.skip(s.len() as int + 1) =~= s.skip(s.len() as int));
}

/// Observers are told of each entry that is taken out as the change that it is: change `k` leads
/// from the list without the first `k` ids to the list without one more.
pub proof fn law_take_announced(s: Seq<(Seq<char>, usize)>, ids: Seq<Seq<char>>, k: int)
    requires
        distinct_ids(s),
        s.len() <= u32::MAX,
        ids.no_duplicates(),
        0 <= k < ids.len(),
        has_id(s, ids[k]),
    ensures
        announces(without(s, ids.take(k)), without(s, ids.take(k + 1)), removals(s, ids)[k]),
{
    let t = without(s, ids.take(k));
    lemma_without_step(s, ids, k);
    let at = index_of_id(t, ids[k]);
    assert(0 <= at < t.len() && t[at].0 == ids[k]);
    s.lemma_filter_len(|e: (Seq<char>, usize)| !ids.take(k).contains(e.0));
    let u = without(s, ids.take(k + 1));
    assert(u.take(at) =~= t.take(at));
    assert(u.skip(at) =~= t.skip(at + 1));
}

/// Observers are told of a changed recording as the change of the item with the handler's id; the
/// list itself stays as it is.
pub proof fn law_change_announced(s: Seq<(Seq<char>, usize)>, id: Seq<char>)
    requires
        distinct_ids(s),
        has_id(s, id),
        s.len() <= u32::MAX,
    ensures
        s[in_32_bits(index_of_id(s, id)) as int].0 == id,
        announces(
            s,
            s,
            ItemsChanged {
                position: in_32_bits(index_of_id(s, id)),
                removed: 1,
                added: 1,
            },
        ),
{
    let at = index_of_id(s, id);
    assert(0 <= at < s.len() && s[at].0 == id);
}

/// Taking entries out one at a time comes to the same as taking them out together.
pub proof fn law_take_one_at_a_time(
    s: Seq<(Seq<char>, usize)>,
    objects: Seq<RecordingView>,
    ids: Seq<Seq<char>>,
    k: int,
)
    requires
        list_wf(s, objects),
        ids.no_duplicates(),
        0 <= k < ids.len(),
        has_id(s, ids[k]),
    ensures
        without(s, ids.take(k + 1)) == without(without(s, ids.take(k)), seq![ids[k]]),
        removals(without(s, ids.take(k)), seq![ids[k]]) == seq![removals(s, ids)[k]],
        numbers_of(without(s, ids.take(k)), seq![ids[k]]) == seq![numbers_of(s, ids)[k]],
        after_unbinding(objects, numbers_of(s, ids).take(k + 1)) == after_unbinding(
            after_unbinding(objects, numbers_of(s, ids).take(k)),
            seq![numbers_of(s, ids)[k]],
        ),
{
    let t = without(s, ids.take(k));
    let one = seq![ids[k]];
    let numbers = numbers_of(s, ids);
    lemma_without_step(s, ids, k);
    assert(one.no_duplicates());
    assert(one[0] == ids[k]);
    lemma_without_step(t, one, 0);
    assert(one.take(0) =~= Seq::empty());
    assert(one.take(1) =~= one);
    lemma_without_nothing(t);
    assert(removals(t, one) =~= seq![removals(s, ids)[k]]);
    assert(numbers_of(t, one) =~= seq![numbers[k]]);
    let before = numbers.take(k);
    let more = numbers.take(k + 1);
    let last = seq![numbers[k]];
    assert forall|i: int| #[trigger] among(more, i) == (among(before, i) || among(last, i)) by {
        if among(before, i) {
            let j = choose|j: int| 0 <= j < before.len() && #[trigger] before[j] == i;
            assert(more[j] == i);
        }
        if among(last, i) {
            assert(more[k] == i);
        }
        if among(more, i) {
            let j = choose|j: int| 0 <= j < more.len() && #[trigger] more[j] == i;
            if j < k {
                assert(before[j] == i);
            } else {
                assert(last[0] == i);
            }
        }
    }
    assert(after_unbinding(objects, more) =~= after_unbinding(
        after_unbinding(objects, before),
        last,
    ));
}

/// A recording inserted under a new id is the last item, and every other item stays where it
/// is.
pub proof fn law_insert_is_last(s: Seq<(Seq<char>, usize)>, id: Seq<char>, n: usize)
    requires
        distinct_ids(s),
        !has_id(s, id),
    ensures
        upsert(s, id, n) == s.push((id, n)),
{
}

/// Taking out what was just inserted under a new id gives back the list that was, and the
/// recording has the handlers that it had.
pub proof fn law_take_undoes_insert(
    s: Seq<(Seq<char>, usize)>,
    objects: Seq<RecordingView>,
    id: Seq<char>,
    n: usize,
)
    requires
        list_wf(s, objects),
        n < objects.len(),
        !has_id(s, id),
    ensures
        without(upsert(s, id, n), seq![id]) == s,
        after_unbinding(
            objects.update(n as int, objects[n as int].bound(id)),
            numbers_of(upsert(s, id, n), seq![id]),
        )[n as int].handlers() == objects[n as int].handlers(),
        forall|i: int|
            0 <= i < objects.len() && i != n ==> #[trigger] after_unbinding(
                objects.update(n as int, objects[n as int].bound(id)),
                numbers_of(upsert(s, id, n), seq![id]),
            )[i] == objects[i],
{
    reveal(Seq::filter);
    let t = s.push((id, n));
    let p = |e: (Seq<char>, usize)| !seq![id].contains(e.0);
    assert(seq![id][0] == id);
    assert forall|i: int| 0 <= i < s.len() implies p(#[trigger] s[i]) by {
        assert(s[i].0 != id);
    }
    lemma_filter_all(s, p);
    assert(t.drop_last() =~= s);
    assert(!p(t.last()));
    lemma_upsert(s, id, n);
    assert(t[s.len() as int].0 == id);
    lemma_index_of_id(t, s.len() as int);
    let numbers = numbers_of(t, seq![id]);
    assert(numbers =~= seq![n]);
    assert(numbers[0] == n);
    assert(among(numbers, n as int));
}

/// A filter that goes by a predicate keeps the entries whose recordings have it, in order, and
/// leaves the others, in order; asked again of what is left, it keeps nothing.
pub proof fn law_filter_by_predicate<F: Fn(&Recording) -> bool>(
    filter_func: F,
    pred: spec_fn(Recording) -> bool,
    s: Seq<(Seq<char>, usize)>,
    recordings: Seq<Recording>,
    keep: Seq<bool>,
)
    requires
        forall|r: Recording, b: bool| #[trigger]
            call_ensures(filter_func, (&r,), b) ==> b == pred(r),
        answers(filter_func, s, recordings, keep),
    ensures
        pick(s, places(keep, true)) == s.filter(
            |e: (Seq<char>, usize)| pred(recordings[e.1 as int]),
        ),
        pick(s, places(keep, false)) == s.filter(
            |e: (Seq<char>, usize)| !pred(recordings[e.1 as int]),
        ),
        forall|i: int|
            0 <= i < pick(s, places(keep, false)).len() ==> !pred(
                recordings[(#[trigger] pick(s, places(keep, false))[i]).1 as int],
            ),
{
    assert forall|i: int| 0 <= i < s.len() implies pred(recordings[(#[trigger] s[i]).1 as int])
        == keep[i] by {
        assert(call_ensures(filter_func, (&recordings[s[i].1 as int],), keep[i]));
    }
    lemma_filter_is_pick(
        s,
        |e: (Seq<char>, usize)| pred(recordings[e.1 as int]),
        keep,
        true,
    );
    lemma_filter_is_pick(
        s,
        |e: (Seq<char>, usize)| !pred(recordings[e.1 as int]),
        keep,
        false,
    );
    lemma_places(keep, false);
}

/// Whatever the filter answers, what would be taken and what would be left make up the list, and
/// what would be left is a list.
pub proof fn law_taken_and_left_make_up_the_list(
    s: Seq<(Seq<char>, usize)>,
    objects: Seq<RecordingView>,
    keep: Seq<bool>,
)
    requires
        list_wf(s, objects),
        keep.len() == s.len(),
    ensures
        places(keep, true).len() + places(keep, false).len() == s.len(),
        list_wf(pick(s, places(keep, false)), objects),
        forall|i: int|
            0 <= i < s.len() ==> ((#[trigger] keep[i]) ==> pick(s, places(keep, true)).contains(
                s[i],
            )) && (!keep[i] ==> pick(s, places(keep, false)).contains(s[i])),
{
    lemma_places_split(keep);
    lemma_without_kept(s, keep);
    lemma_without_wf(s, objects, kept_ids(s, keep));
    lemma_places(keep, true);
    lemma_places(keep, false);
    assert forall|i: int| 0 <= i < s.len() implies ((#[trigger] keep[i]) ==> pick(
        s,
        places(keep, true),
    ).contains(s[i])) && (!keep[i] ==> pick(s, places(keep, false)).contains(s[i])) by {
        if keep[i] {
            let k = choose|k: int| 0 <= k < places(keep, true).len() && places(keep, true)[k] == i;
            assert(pick(s, places(keep, true))[k] == s[i]);
        } else {
            assert(keep[i] == false);
            let k = choose|k: int|
                0 <= k < places(keep, false).len() && places(keep, false)[k] == i;
            assert(pick(s, places(keep, false))[k] == s[i]);
        }
    }
}

proof fn lemma_places_split(keep: Seq<bool>)
    ensures
        places(keep, true).len() + places(keep, false).len() == keep.len(),
    decreases keep.len(),
{
    if keep.len() > 0 {
        lemma_places_split(keep.drop_last());
    }
}

/// A filter that keeps nothing takes nothing: the list stays as it is.
pub proof fn law_take_nothing(s: Seq<(Seq<char>, usize)>, keep: Seq<bool>)
    requires
        keep.len() == s.len(),
        forall|i: int| 0 <= i < keep.len() ==> !#[trigger] keep[i],
    ensures
        places(keep, true).len() == 0,
        pick(s, places(keep, false)) == s,
{
    lemma_places(keep, true);
    if places(keep, true).len() > 0 {
        let i = places(keep, true)[0];
        assert(keep[i]);
    }
    let p = |e: (Seq<char>, usize)| true;
    lemma_filter_is_pick(s, p, keep, false);
    lemma_filter_all(s, p);
}

} // verus!
