//! What comes out of each operation on recordings, said of what went in and what came out: which
//! entries, which recordings, which writes, in which order.

use vstd::prelude::*;

use super::entries::{
    distinct_ids, has_id, index_of_id, kept_ids, lemma_filter_all, lemma_filter_entries,
    lemma_filter_is_pick, lemma_index_of_id, lemma_places, lemma_upsert, lemma_without_kept,
    lemma_without_step, pick, places, upsert, upsert_all, values, without,
};
use super::laws::lemma_upsert_all_distinct;
use super::objects::RecordingObjects;
use super::recording::{
    ids_view, BoxedRecognizeResult, Recording, RecordingData, RecordingDataView, RecordingView,
};
use super::recordings::{
    after_unbinding, among, answers, can_ask, can_unbind, deletions, effects_view, in_32_bits,
    lemma_without_nothing, list_wf, notify_effects, numbered, numbers_of, put, read_items,
    removals, revived, Effect, EffectView, ItemsChanged, Recordings,
};
use crate::db::{after_write, after_writes, writes_view, DbError, DbWrite, DbWriteView};

verus! {

/// An empty list has no id, and a list with one more entry has the id of that entry and those
/// from before.
pub proof fn law_ids_of_a_list<V>(s: Seq<(Seq<char>, V)>, e: (Seq<char>, V), id: Seq<char>)
    ensures
        !has_id(Seq::<(Seq<char>, V)>::empty(), id),
        has_id(s.push(e), id) == (e.0 == id || has_id(s, id)),
{
    let t = s.push(e);
    assert(t[s.len() as int] == e);
    if has_id(s, id) {
        let i = index_of_id(s, id);
        assert(0 <= i < s.len() && s[i].0 == id);
        assert(t[i].0 == id);
    }
    if has_id(t, id) && e.0 != id {
        let i = index_of_id(t, id);
        assert(0 <= i < t.len() && t[i].0 == id);
        assert(s[i].0 == id);
    }
}

/// In an empty list no id occurs twice, and in a list with one more entry none does if and only
/// if none did and the id is new.
pub proof fn law_distinct_ids<V>(s: Seq<(Seq<char>, V)>, e: (Seq<char>, V))
    ensures
        distinct_ids(Seq::<(Seq<char>, V)>::empty()),
        distinct_ids(s.push(e)) == (distinct_ids(s) && forall|i: int|
            0 <= i < s.len() ==> (#[trigger] s[i]).0 != e.0),
{
    let t = s.push(e);
    assert(t[s.len() as int] == e);
    assert(forall|i: int| 0 <= i < s.len() ==> #[trigger] t[i] == s[i]);
    if distinct_ids(t) {
        assert forall|i: int, j: int|
            0 <= i < s.len() && 0 <= j < s.len() && #[trigger] s[i].0 == #[trigger] s[j].0 implies i
            == j by {
            assert(t[i].0 == t[j].0);
        }
        assert forall|i: int| 0 <= i < s.len() implies (#[trigger] s[i]).0 != e.0 by {
            assert(t[i].0 == s[i].0);
            if s[i].0 == e.0 {
                assert(t[i].0 == t[s.len() as int].0);
            }
        }
    }
    if distinct_ids(s) && forall|i: int| 0 <= i < s.len() ==> (#[trigger] s[i]).0 != e.0 {
        assert forall|i: int, j: int|
            0 <= i < t.len() && 0 <= j < t.len() && #[trigger] t[i].0 == #[trigger] t[j].0 implies i
            == j by {
            if i < s.len() {
                assert(t[i] == s[i]);
            }
            if j < s.len() {
                assert(t[j] == s[j]);
            }
        }
    }
}

/// The place of an id that a list has is a place of the list, and the id is there.
pub proof fn law_place_of_an_id<V>(s: Seq<(Seq<char>, V)>, id: Seq<char>, i: int)
    requires
        0 <= i < s.len(),
        s[i].0 == id,
    ensures
        has_id(s, id),
        0 <= index_of_id(s, id) < s.len(),
        s[index_of_id(s, id)].0 == id,
        distinct_ids(s) ==> index_of_id(s, id) == i,
{
    if distinct_ids(s) {
        lemma_index_of_id(s, i);
    }
}

/// A list is one of the recordings that there are if each entry has an id of its own and refers to
/// one of them, and only then.
pub proof fn law_list_of_recordings(
    s: Seq<(Seq<char>, usize)>,
    e: (Seq<char>, usize),
    objects: Seq<RecordingView>,
)
    ensures
        list_wf(Seq::empty(), objects),
        list_wf(s.push(e), objects) == (list_wf(s, objects) && e.1 < objects.len() && forall|i: int|
            0 <= i < s.len() ==> (#[trigger] s[i]).0 != e.0),
{
    let t = s.push(e);
    law_distinct_ids(s, e);
    assert(t[s.len() as int] == e);
    assert(forall|i: int| 0 <= i < s.len() ==> #[trigger] t[i] == s[i]);
    if list_wf(t, objects) {
        assert forall|i: int| 0 <= i < s.len() implies (#[trigger] s[i]).1 < objects.len() by {
            assert(t[i] == s[i]);
        }
    }
}

/// Whether a list is one of these recordings depends on its entries and on the values of the
/// recordings.
pub proof fn law_validity_of_a_list(list: Recordings, objects: RecordingObjects)
    ensures
        list.wf(&objects) == list_wf(list@, objects@),
{
}

/// Recordings can be unbound one after another if each of them is bound and none comes twice, and
/// only then.
pub proof fn law_what_can_be_unbound(
    objects: Seq<RecordingView>,
    numbers: Seq<usize>,
    number: usize,
)
    ensures
        can_unbind(objects, Seq::empty()),
        can_unbind(objects, numbers.push(number)) == (can_unbind(objects, numbers)
            && objects[number as int].newest is Some && forall|k: int|
            0 <= k < numbers.len() ==> #[trigger] numbers[k] != number),
{
    let more = numbers.push(number);
    assert(more[numbers.len() as int] == number);
    assert(forall|k: int| 0 <= k < numbers.len() ==> #[trigger] more[k] == numbers[k]);
    if can_unbind(objects, more) {
        assert forall|k: int| 0 <= k < numbers.len() implies objects[(#[trigger] numbers[k]) as int]
            .newest is Some by {
            assert(more[k] == numbers[k]);
        }
        assert forall|k: int| 0 <= k < numbers.len() implies #[trigger] numbers[k] != number by {
            assert(more[k] != more[numbers.len() as int]);
        }
        assert forall|k: int, l: int|
            0 <= k < numbers.len() && 0 <= l < numbers.len() && k != l implies numbers[k]
            != numbers[l] by {
            assert(more[k] != more[l]);
        }
    }
    if can_unbind(objects, numbers) && objects[number as int].newest is Some && forall|k: int|
        0 <= k < numbers.len() ==> #[trigger] numbers[k] != number {
        assert forall|k: int, l: int|
            0 <= k < more.len() && 0 <= l < more.len() && k != l implies more[k] != more[l] by {
            if k < numbers.len() && l < numbers.len() {
                assert(numbers[k] != numbers[l]);
            } else if k < numbers.len() {
                assert(numbers[k] != number);
            } else if l < numbers.len() {
                assert(numbers[l] != number);
            }
        }
        assert forall|k: int| 0 <= k < more.len() implies objects[(#[trigger] more[k]) as int]
            .newest is Some by {
            if k < numbers.len() {
                assert(objects[numbers[k] as int].newest is Some);
            }
        }
    }
}

/// A filter can be asked about a list if it can be asked about the recording of each entry, and
/// only then.
pub proof fn law_what_can_be_asked<F: Fn(&Recording) -> bool>(
    filter_func: F,
    s: Seq<(Seq<char>, usize)>,
    e: (Seq<char>, usize),
    recordings: Seq<Recording>,
)
    ensures
        can_ask(filter_func, Seq::empty(), recordings),
        can_ask(filter_func, s.push(e), recordings) == (can_ask(filter_func, s, recordings)
            && call_requires(filter_func, (&recordings[e.1 as int],))),
{
    let t = s.push(e);
    assert(t[s.len() as int] == e);
    assert(forall|i: int| 0 <= i < s.len() ==> #[trigger] t[i] == s[i]);
    if can_ask(filter_func, t, recordings) {
        assert forall|i: int| 0 <= i < s.len() implies call_requires(
            filter_func,
            (&recordings[(#[trigger] s[i]).1 as int],),
        ) by {
            assert(t[i] == s[i]);
        }
    }
}

/// Answers of a filter about a list are one answer of the filter about the recording of each
/// entry, in the order of the list, and nothing more.
pub proof fn law_one_answer_each<F: Fn(&Recording) -> bool>(
    filter_func: F,
    s: Seq<(Seq<char>, usize)>,
    e: (Seq<char>, usize),
    recordings: Seq<Recording>,
    keep: Seq<bool>,
    keeps: bool,
)
    requires
        keep.len() == s.len(),
    ensures
        answers(filter_func, Seq::empty(), recordings, Seq::empty()),
        !answers(filter_func, s.push(e), recordings, keep),
        answers(filter_func, s.push(e), recordings, keep.push(keeps)) == (answers(
            filter_func,
            s,
            recordings,
            keep,
        ) && call_ensures(filter_func, (&recordings[e.1 as int],), keeps)),
{
    let t = s.push(e);
    let all = keep.push(keeps);
    assert(t[s.len() as int] == e && all[s.len() as int] == keeps);
    assert(forall|i: int| 0 <= i < s.len() ==> #[trigger] t[i] == s[i] && all[i] == keep[i]);
    if answers(filter_func, t, recordings, all) {
        assert forall|i: int| 0 <= i < s.len() implies call_ensures(
            filter_func,
            (&recordings[(#[trigger] s[i]).1 as int],),
            keep[i],
        ) by {
            assert(t[i] == s[i]);
        }
    }
}

/// The places at which an answer was given are in order, lie among the answers, and are all of
/// them and no others.
pub proof fn law_places_of_an_answer(keep: Seq<bool>, want: bool)
    ensures
        forall|k: int, l: int|
            0 <= k < l < places(keep, want).len() ==> #[trigger] places(keep, want)[k]
                < #[trigger] places(keep, want)[l],
        forall|i: int| #[trigger]
            places(keep, want).contains(i) == (0 <= i < keep.len() && keep[i] == want),
        places(keep, want).len() + places(keep, !want).len() == keep.len(),
{
    lemma_places(keep, want);
    assert forall|i: int| #[trigger] places(keep, want).contains(i) implies (0 <= i < keep.len()
        && keep[i] == want) by {
        let k = choose|k: int| 0 <= k < places(keep, want).len() && places(keep, want)[k] == i;
        assert(places(keep, want)[k] == i);
    }
    lemma_places_both(keep, want);
}

proof fn lemma_places_both(keep: Seq<bool>, want: bool)
    ensures
        places(keep, want).len() + places(keep, !want).len() == keep.len(),
    decreases keep.len(),
{
    if keep.len() > 0 {
        lemma_places_both(keep.drop_last(), want);
    }
}

/// Observers, who count in 32 bits, see the true place, up to the largest that they can count, and
/// beyond that start over.
pub proof fn law_in_32_bits(i: int)
    ensures
        0 <= i <= u32::MAX ==> in_32_bits(i) == i,
        in_32_bits(i + 0x1_0000_0000) == in_32_bits(i),
{
}

/// Without any item read, nothing is kept. One more item under a new id is kept behind the
/// others; under an id that was read before, it is kept in the place of the former.
pub proof fn law_read_one_more<V>(read: Seq<(Seq<char>, V)>, item: (Seq<char>, V))
    ensures
        upsert_all(Seq::<(Seq<char>, V)>::empty(), Seq::empty()).len() == 0,
        ({
            let before = upsert_all(Seq::empty(), read);
            let after = upsert_all(Seq::empty(), read.push(item));
            &&& (forall|i: int| 0 <= i < before.len() ==> (#[trigger] before[i]).0 != item.0)
                ==> after == before.push(item)
            &&& forall|i: int|
                0 <= i < before.len() && (#[trigger] before[i]).0 == item.0 ==> after
                    == before.update(i, item)
        }),
{
    let before = upsert_all(Seq::empty(), read);
    assert(read.push(item).drop_last() =~= read);
    lemma_upsert_all_ids(read);
    if has_id(before, item.0) {
        let i = index_of_id(before, item.0);
        assert(0 <= i < before.len() && before[i].0 == item.0);
    }
    assert forall|i: int| 0 <= i < before.len() && (#[trigger] before[i]).0 == item.0 implies
        upsert_all(Seq::empty(), read.push(item)) == before.update(i, item) by {
        lemma_index_of_id(before, i);
    }
}

/// What is kept of what was read has distinct ids.
proof fn lemma_upsert_all_ids<V>(read: Seq<(Seq<char>, V)>)
    ensures
        distinct_ids(upsert_all(Seq::<(Seq<char>, V)>::empty(), read)),
    decreases read.len(),
{
    if read.len() > 0 {
        lemma_upsert_all_ids(read.drop_last());
        lemma_upsert(
            upsert_all(Seq::<(Seq<char>, V)>::empty(), read.drop_last()),
            read.last().0,
            read.last().1,
        );
    }
}

/// Of each id that was read, the list has one entry, with what was read last under that id; it has
/// no other entries.
pub proof fn law_last_read_is_kept<V>(read: Seq<(Seq<char>, V)>)
    ensures
        distinct_ids(upsert_all(Seq::<(Seq<char>, V)>::empty(), read)),
        forall|i: int|
            0 <= i < read.len() && (forall|j: int|
                i < j < read.len() ==> (#[trigger] read[j]).0 != read[i].0) ==> upsert_all(
                Seq::<(Seq<char>, V)>::empty(),
                read,
            ).contains(#[trigger] read[i]),
        forall|k: int|
            0 <= k < upsert_all(Seq::<(Seq<char>, V)>::empty(), read).len() ==> read.contains(
                #[trigger] upsert_all(Seq::<(Seq<char>, V)>::empty(), read)[k],
            ),
    decreases read.len(),
{
    let kept = upsert_all(Seq::<(Seq<char>, V)>::empty(), read);
    lemma_upsert_all_ids(read);
    if read.len() > 0 {
        let rest = read.drop_last();
        let before = upsert_all(Seq::<(Seq<char>, V)>::empty(), rest);
        let item = read.last();
        law_last_read_is_kept(rest);
        law_read_one_more(rest, item);
        assert(rest.push(item) =~= read);
        assert(read[read.len() - 1] == item);
        let at: int = if has_id(before, item.0) {
            index_of_id(before, item.0)
        } else {
            before.len() as int
        };
        if has_id(before, item.0) {
            assert(0 <= at < before.len() && before[at].0 == item.0);
        } else {
            assert(forall|i: int| 0 <= i < before.len() ==> (#[trigger] before[i]).0 != item.0);
        }
        assert(kept[at] == item);
        assert forall|i: int|
            0 <= i < read.len() && (forall|j: int|
                i < j < read.len() ==> (#[trigger] read[j]).0 != read[i].0) implies kept.contains(
            #[trigger] read[i],
        ) by {
            if i < rest.len() {
                assert(rest[i] == read[i]);
                assert(forall|j: int| i < j < rest.len() ==> #[trigger] rest[j] == read[j]);
                assert(before.contains(rest[i]));
                let k = choose|k: int| 0 <= k < before.len() && before[k] == rest[i];
                assert(read[read.len() - 1].0 != read[i].0);
                assert(k != at);
                assert(kept[k] == read[i]);
            } else {
                assert(kept[at] == read[i]);
            }
        }
        assert forall|k: int| 0 <= k < kept.len() implies read.contains(#[trigger] kept[k]) by {
            if k != at {
                assert(kept[k] == before[k]);
                assert(rest.contains(before[k]));
                let i = choose|i: int| 0 <= i < rest.len() && rest[i] == before[k];
                assert(read[i] == kept[k]);
            }
        }
    }
}

/// Items that were read under ids that differ are kept as they were read.
pub proof fn lemma_read_distinct(items: Seq<Result<(String, RecordingData), DbError>>)
    requires
        forall|i: int, j: int|
            0 <= i < j < items.len() ==> (#[trigger] items[i])->Ok_0.0@ != (
            #[trigger] items[j])->Ok_0.0@,
    ensures
        distinct_ids(read_items(items)),
        upsert_all(Seq::empty(), read_items(items)) == read_items(items),
{
    let read = read_items(items);
    assert forall|i: int, j: int|
        0 <= i < read.len() && 0 <= j < read.len() && #[trigger] read[i].0
            == #[trigger] read[j].0 implies i == j by {
        assert(read[i].0 == items[i]->Ok_0.0@ && read[j].0 == items[j]->Ok_0.0@);
        if i < j {
            assert(items[i]->Ok_0.0@ != items[j]->Ok_0.0@);
        }
        if j < i {
            assert(items[j]->Ok_0.0@ != items[i]->Ok_0.0@);
        }
    }
    lemma_upsert_all_distinct(read);
}

/// Loading leaves the other recordings alone. Where all ids differ, the list has one entry for
/// each item, in the order read, and the recording of each has the audio, the time and the result
/// that were read, whole, and the entry alone hears of it.
pub proof fn law_loaded_as_read(
    items: Seq<Result<(String, RecordingData), DbError>>,
    others: Seq<RecordingView>,
    list: Seq<(Seq<char>, usize)>,
    objects: Seq<RecordingView>,
)
    requires
        forall|i: int, j: int|
            0 <= i < j < items.len() ==> (#[trigger] items[i])->Ok_0.0@ != (
            #[trigger] items[j])->Ok_0.0@,
        items.len() > 0 ==> others.len() + items.len() - 1 <= usize::MAX,
        list == numbered(upsert_all(Seq::empty(), read_items(items)), others.len()),
        objects == others + revived(upsert_all(Seq::empty(), read_items(items))),
    ensures
        list.len() == items.len(),
        objects.len() == others.len() + items.len(),
        forall|i: int| 0 <= i < others.len() ==> #[trigger] objects[i] == others[i],
        forall|i: int|
            0 <= i < items.len() ==> {
                let read = (#[trigger] items[i])->Ok_0;
                let loaded = objects[list[i].1 as int];
                &&& list[i].0 == read.0@
                &&& list[i].1 == others.len() + i
                &&& loaded.data.bytes == read.1.bytes@
                &&& loaded.data.recorded_time == read.1.recorded_time
                &&& loaded.data.recognize_result == read.1.recognize_result
                &&& loaded.earlier.len() == 0
                &&& loaded.newest == Some(read.0@)
            },
{
    lemma_read_distinct(items);
    let read = read_items(items);
    assert forall|i: int| 0 <= i < items.len() implies {
        let item = (#[trigger] items[i])->Ok_0;
        let loaded = objects[list[i].1 as int];
        &&& list[i].0 == item.0@
        &&& list[i].1 == others.len() + i
        &&& loaded.data.bytes == item.1.bytes@
        &&& loaded.data.recorded_time == item.1.recorded_time
        &&& loaded.data.recognize_result == item.1.recognize_result
        &&& loaded.earlier.len() == 0
        &&& loaded.newest == Some(item.0@)
    } by {
        assert(read[i] == (items[i]->Ok_0.0@, items[i]->Ok_0.1@));
        assert(others.len() + i <= usize::MAX);
        assert(objects[others.len() + i] == revived(read)[i]);
    }
}

/// The recordings of a list that was loaded: whatever was read, entry `p` refers to the recording
/// behind the others by `p` places, which has what was kept under its id.
pub proof fn law_loaded_entries(
    kept: Seq<(Seq<char>, RecordingDataView)>,
    others: Seq<RecordingView>,
    p: int,
)
    requires
        0 <= p < kept.len(),
        others.len() + p <= usize::MAX,
    ensures
        numbered(kept, others.len()).len() == kept.len(),
        numbered(kept, others.len())[p].0 == kept[p].0,
        numbered(kept, others.len())[p].1 == others.len() + p,
        revived(kept).len() == kept.len(),
        (others + revived(kept))[others.len() + p].data == kept[p].1,
        (others + revived(kept))[others.len() + p].earlier.len() == 0,
        (others + revived(kept))[others.len() + p].newest == Some(kept[p].0),
{
    assert((others + revived(kept))[others.len() + p] == revived(kept)[p]);
}

/// What was read of an item is its id, its audio, its time and its result.
pub proof fn law_what_was_read(items: Seq<Result<(String, RecordingData), DbError>>, i: int)
    requires
        0 <= i < items.len(),
    ensures
        read_items(items).len() == items.len(),
        read_items(items)[i].0 == items[i]->Ok_0.0@,
        read_items(items)[i].1.bytes == items[i]->Ok_0.1.bytes@,
        read_items(items)[i].1.recorded_time == items[i]->Ok_0.1.recorded_time,
        read_items(items)[i].1.recognize_result == items[i]->Ok_0.1.recognize_result,
{
}

/// An insertion under a new id adds an entry at the end and moves no other; under an id in use it
/// replaces the entry where it is. Its recording gets one more handler and keeps what it has; no
/// other recording changes.
pub proof fn law_inserted(
    s: Seq<(Seq<char>, usize)>,
    objects: Seq<RecordingView>,
    id: Seq<char>,
    number: usize,
    list: Seq<(Seq<char>, usize)>,
    after: Seq<RecordingView>,
)
    requires
        distinct_ids(s),
        number < objects.len(),
        list == upsert(s, id, number),
        after == objects.update(number as int, objects[number as int].bound(id)),
    ensures
        (forall|i: int| 0 <= i < s.len() ==> (#[trigger] s[i]).0 != id) ==> {
            &&& list == s.push((id, number))
            &&& index_of_id(list, id) == s.len()
        },
        forall|i: int|
            0 <= i < s.len() && (#[trigger] s[i]).0 == id ==> {
                &&& list == s.update(i, (id, number))
                &&& index_of_id(list, id) == i
            },
        after.len() == objects.len(),
        forall|i: int|
            0 <= i < objects.len() && i != number ==> #[trigger] after[i] == objects[i],
        after[number as int].data == objects[number as int].data,
        after[number as int].newest == Some(id),
        objects[number as int].newest is None ==> after[number as int].earlier
            == objects[number as int].earlier,
        objects[number as int].newest is Some ==> after[number as int].earlier
            == objects[number as int].earlier.push(objects[number as int].newest->0),
{
    lemma_upsert(s, id, number);
    if has_id(s, id) {
        let i = index_of_id(s, id);
        assert(0 <= i < s.len() && s[i].0 == id);
        assert(list[i].0 == id);
        lemma_index_of_id(list, i);
    } else {
        assert(list[s.len() as int].0 == id);
        lemma_index_of_id(list, s.len() as int);
    }
    assert forall|i: int| 0 <= i < s.len() && (#[trigger] s[i]).0 == id implies list == s.update(
        i,
        (id, number),
    ) && index_of_id(list, id) == i by {
        lemma_index_of_id(s, i);
    }
}

/// An empty list stays empty when ids are taken out; of a list with one more entry, that entry
/// stays, last, if and only if its id is not among them.
pub proof fn law_what_stays<V>(s: Seq<(Seq<char>, V)>, e: (Seq<char>, V), ids: Seq<Seq<char>>)
    ensures
        without(Seq::<(Seq<char>, V)>::empty(), ids).len() == 0,
        ids.contains(e.0) ==> without(s.push(e), ids) == without(s, ids),
        !ids.contains(e.0) ==> without(s.push(e), ids) == without(s, ids).push(e),
{
    reveal(Seq::filter);
    assert(s.push(e).drop_last() =~= s);
}

/// What is taken out is all that was asked for: each id leaves the list, with one removal told for
/// it at the place that it had by then, and its recording is handed back and unbound. What was
/// not asked for stays, and no other recording changes.
pub proof fn law_taken(
    s: Seq<(Seq<char>, usize)>,
    objects: Seq<RecordingView>,
    ids: Seq<Seq<char>>,
    left: Seq<(Seq<char>, usize)>,
    after: Seq<RecordingView>,
    recordings: Seq<usize>,
    changes: Seq<ItemsChanged>,
)
    requires
        list_wf(s, objects),
        ids.no_duplicates(),
        forall|k: int| 0 <= k < ids.len() ==> has_id(s, #[trigger] ids[k]),
        left == without(s, ids),
        after == after_unbinding(objects, numbers_of(s, ids)),
        recordings == numbers_of(s, ids),
        changes == removals(s, ids),
    ensures
        left.len() == s.len() - ids.len(),
        forall|i: int|
            0 <= i < s.len() ==> left.contains(#[trigger] s[i]) == !ids.contains(s[i].0),
        forall|i: int| 0 <= i < left.len() ==> s.contains(#[trigger] left[i]),
        recordings.len() == ids.len(),
        forall|k: int|
            0 <= k < ids.len() ==> s.contains((ids[k], #[trigger] recordings[k])),
        after.len() == objects.len(),
        forall|i: int|
            0 <= i < objects.len() ==> {
                &&& (#[trigger] after[i]).data == objects[i].data
                &&& after[i].earlier == objects[i].earlier
                &&& recordings.contains(i as usize) && i <= usize::MAX ==> after[i].newest is None
                &&& !recordings.contains(i as usize) || i > usize::MAX ==> after[i].newest
                    == objects[i].newest
            },
        changes.len() == ids.len(),
        forall|k: int|
            0 <= k < ids.len() ==> (#[trigger] changes[k]).removed == 1 && changes[k].added == 0,
        forall|k: int, i: int|
            0 <= k < ids.len() && 0 <= i < without(s, ids.take(k)).len() && (
            #[trigger] without(s, ids.take(k))[i]).0 == ids[k] ==> changes[k].position
                == in_32_bits(i),
        s.len() <= u32::MAX ==> forall|k: int|
            0 <= k < ids.len() ==> {
                let then = without(s, ids.take(k));
                &&& (#[trigger] changes[k]).position < then.len()
                &&& then[changes[k].position as int].0 == ids[k]
            },
{
    let p = |e: (Seq<char>, usize)| !ids.contains(e.0);
    lemma_filter_entries(s, p);
    assert forall|i: int| 0 <= i < s.len() implies left.contains(#[trigger] s[i])
        == !ids.contains(s[i].0) by {
        if p(s[i]) {
            let k = index_of_id(left, s[i].0);
            assert(left[k] == s[i]);
            assert(0 <= k < left.len() && left[k].0 == s[i].0);
        }
        if left.contains(s[i]) {
            let k = choose|k: int| 0 <= k < left.len() && left[k] == s[i];
            assert(p(left[k]));
        }
    }
    assert forall|i: int| 0 <= i < left.len() implies s.contains(#[trigger] left[i]) by {
        let j = index_of_id(s, left[i].0);
        assert(has_id(s, left[i].0));
        assert(0 <= j < s.len() && s[j] == left[i]);
    }
    assert forall|k: int| 0 <= k < ids.len() implies s.contains(
        (ids[k], #[trigger] recordings[k]),
    ) by {
        let j = index_of_id(s, ids[k]);
        assert(has_id(s, ids[k]));
        assert(0 <= j < s.len() && s[j].0 == ids[k]);
        assert(s[j] == (ids[k], recordings[k]));
    }
    assert forall|i: int| 0 <= i < objects.len() implies {
        &&& (#[trigger] after[i]).data == objects[i].data
        &&& after[i].earlier == objects[i].earlier
        &&& recordings.contains(i as usize) && i <= usize::MAX ==> after[i].newest is None
        &&& !recordings.contains(i as usize) || i > usize::MAX ==> after[i].newest
            == objects[i].newest
    } by {
        if recordings.contains(i as usize) && i <= usize::MAX {
            let k = choose|k: int| 0 <= k < recordings.len() && recordings[k] == i as usize;
            assert(recordings[k] == i);
            assert(among(recordings, i));
        }
        if among(recordings, i) {
            let k = choose|k: int| 0 <= k < recordings.len() && #[trigger] recordings[k] == i;
            assert(recordings[k] == i as usize);
        }
    }
    lemma_without_len(s, ids, ids.len() as int);
    assert(ids.take(ids.len() as int) =~= ids);
    assert forall|k: int, i: int|
        0 <= k < ids.len() && 0 <= i < without(s, ids.take(k)).len() && (#[trigger] without(
            s,
            ids.take(k),
        )[i]).0 == ids[k] implies changes[k].position == in_32_bits(i) by {
        assert(has_id(s, ids[k]));
        lemma_without_step(s, ids, k);
        lemma_index_of_id(without(s, ids.take(k)), i);
    }
    if s.len() <= u32::MAX {
        assert forall|k: int| 0 <= k < ids.len() implies {
            let then = without(s, ids.take(k));
            &&& (#[trigger] changes[k]).position < then.len()
            &&& then[changes[k].position as int].0 == ids[k]
        } by {
            let then = without(s, ids.take(k));
            assert(has_id(s, ids[k]));
            lemma_without_step(s, ids, k);
            lemma_without_len(s, ids, k);
            let at = index_of_id(then, ids[k]);
            assert(0 <= at < then.len() && then[at].0 == ids[k]);
            law_in_32_bits(at);
        }
    }
}

/// Each id that is taken out makes the list shorter by one.
proof fn lemma_without_len(s: Seq<(Seq<char>, usize)>, ids: Seq<Seq<char>>, k: int)
    requires
        distinct_ids(s),
        ids.no_duplicates(),
        forall|l: int| 0 <= l < ids.len() ==> has_id(s, #[trigger] ids[l]),
        0 <= k <= ids.len(),
    ensures
        without(s, ids.take(k)).len() == s.len() - k,
    decreases k,
{
    if k == 0 {
        assert(ids.take(0) =~= Seq::empty());
        lemma_without_nothing(s);
    } else {
        lemma_without_len(s, ids, k - 1);
        assert(has_id(s, ids[k - 1]));
        lemma_without_step(s, ids, k - 1);
        let then = without(s, ids.take(k - 1));
        let at = index_of_id(then, ids[k - 1]);
        assert(0 <= at < then.len() && then[at].0 == ids[k - 1]);
    }
}

/// A peek hands back the recording of each entry that the filter keeps, and of no other, in the
/// order of the list.
pub proof fn law_peeked<F: Fn(&Recording) -> bool>(
    filter_func: F,
    s: Seq<(Seq<char>, usize)>,
    recordings: Seq<Recording>,
    keep: Seq<bool>,
    peeked: Seq<usize>,
)
    requires
        answers(filter_func, s, recordings, keep),
        peeked == values(pick(s, places(keep, true))),
    ensures
        keep.len() == s.len(),
        forall|i: int|
            0 <= i < s.len() ==> call_ensures(
                filter_func,
                (&recordings[(#[trigger] s[i]).1 as int],),
                keep[i],
            ),
        peeked.len() + places(keep, false).len() == s.len(),
        peeked.len() == places(keep, true).len(),
        forall|k: int|
            0 <= k < peeked.len() ==> #[trigger] peeked[k] == s[places(keep, true)[k]].1,
        forall|i: int| 0 <= i < s.len() && keep[i] ==> peeked.contains((#[trigger] s[i]).1),
{
    lemma_places_both(keep, true);
    lemma_places(keep, true);
    assert forall|i: int| 0 <= i < s.len() && keep[i] implies peeked.contains(
        (#[trigger] s[i]).1,
    ) by {
        assert(keep[i] == true);
        assert(places(keep, true).contains(i));
        let k = choose|k: int| 0 <= k < places(keep, true).len() && places(keep, true)[k] == i;
        assert(peeked[k] == s[i].1);
    }
}

/// A take by a filter takes every entry that the filter keeps, and no other: each of them is handed
/// back, in the order of the list, its id with its recording, and its recording is unbound; the
/// others are left, in the order of the list.
#[verifier::rlimit(50)]
#[verifier::spinoff_prover]
pub proof fn law_taken_by_a_filter<F: Fn(&Recording) -> bool>(
    filter_func: F,
    s: Seq<(Seq<char>, usize)>,
    objects: Seq<RecordingView>,
    recordings: Seq<Recording>,
    keep: Seq<bool>,
    left: Seq<(Seq<char>, usize)>,
    ids: Seq<Seq<char>>,
    taken: Seq<usize>,
    after: Seq<RecordingView>,
)
    requires
        list_wf(s, objects),
        answers(filter_func, s, recordings, keep),
        left == pick(s, places(keep, false)),
        ids == kept_ids(s, keep),
        taken == values(pick(s, places(keep, true))),
        after == after_unbinding(objects, taken),
    ensures
        keep.len() == s.len(),
        forall|i: int|
            0 <= i < s.len() ==> call_ensures(
                filter_func,
                (&recordings[(#[trigger] s[i]).1 as int],),
                keep[i],
            ),
        taken.len() == ids.len(),
        taken.len() + left.len() == s.len(),
        forall|k: int|
            0 <= k < taken.len() ==> {
                let i = places(keep, true)[k];
                &&& 0 <= i < s.len()
                &&& keep[i]
                &&& ids[k] == s[i].0
                &&& #[trigger] taken[k] == s[i].1
            },
        forall|i: int| 0 <= i < s.len() && keep[i] ==> taken.contains((#[trigger] s[i]).1),
        forall|i: int|
            0 <= i < s.len() ==> left.contains(#[trigger] s[i]) == !keep[i] && ids.contains(s[i].0)
                == keep[i],
        forall|k: int| 0 <= k < left.len() ==> #[trigger] left[k] == s[places(keep, false)[k]],
        after.len() == objects.len(),
        forall|i: int|
            0 <= i < s.len() && keep[i] ==> after[(#[trigger] s[i]).1 as int].newest is None,
        forall|n: int|
            0 <= n < objects.len() ==> (#[trigger] after[n]).data == objects[n].data
                && after[n].earlier == objects[n].earlier,
        forall|n: int|
            0 <= n < objects.len() && (forall|i: int|
                0 <= i < s.len() && keep[i] ==> (#[trigger] s[i]).1 != n) ==> #[trigger] after[n]
                == objects[n],
{
    law_peeked(filter_func, s, recordings, keep, taken);
    lemma_places_both(keep, false);
    lemma_places(keep, true);
    lemma_places(keep, false);
    lemma_without_kept(s, keep);
    assert forall|i: int| 0 <= i < s.len() implies left.contains(#[trigger] s[i]) == !keep[i]
        && ids.contains(s[i].0) == keep[i] by {
        if keep[i] {
            assert(keep[i] == true);
            assert(places(keep, true).contains(i));
            let k = choose|k: int| 0 <= k < places(keep, true).len() && places(keep, true)[k] == i;
            assert(ids[k] == s[i].0);
        } else {
            assert(keep[i] == false);
            assert(places(keep, false).contains(i));
            let k = choose|k: int|
                0 <= k < places(keep, false).len() && places(keep, false)[k] == i;
            assert(left[k] == s[i]);
        }
        if left.contains(s[i]) {
            let k = choose|k: int| 0 <= k < left.len() && left[k] == s[i];
            let j = places(keep, false)[k];
            assert(s[j].0 == s[i].0);
        }
        if ids.contains(s[i].0) {
            let k = choose|k: int| 0 <= k < ids.len() && ids[k] == s[i].0;
            let j = places(keep, true)[k];
            assert(s[j].0 == s[i].0);
        }
    }
    assert forall|i: int| 0 <= i < s.len() && keep[i] implies after[(#[trigger] s[i]).1 as int]
        .newest is None by {
        assert(taken.contains(s[i].1));
        let k = choose|k: int| 0 <= k < taken.len() && taken[k] == s[i].1;
        assert(taken[k] == s[i].1);
        assert(among(taken, s[i].1 as int));
    }
    assert forall|n: int|
        0 <= n < objects.len() && (forall|i: int|
            0 <= i < s.len() && keep[i] ==> (#[trigger] s[i]).1 != n) implies #[trigger] after[n]
        == objects[n] by {
        if among(taken, n) {
            let k = choose|k: int| 0 <= k < taken.len() && #[trigger] taken[k] == n;
            assert(s[places(keep, true)[k]].1 == n);
            assert(keep[places(keep, true)[k]]);
        }
    }
}

/// Where a filter goes by a predicate, what it takes is what has the predicate, ids and
/// recordings, and what it leaves is what has not; a peek sees the same recordings. So a filter
/// that keeps everything hands back the whole list and leaves nothing.
pub proof fn law_taken_by_a_predicate<F: Fn(&Recording) -> bool>(
    filter_func: F,
    pred: spec_fn(Recording) -> bool,
    s: Seq<(Seq<char>, usize)>,
    recordings: Seq<Recording>,
    keep: Seq<bool>,
)
    requires
        forall|r: Recording, b: bool| #[trigger]
            call_ensures(filter_func, (&r,), b) ==> b == pred(r),
        answers(filter_func, s, recordings, keep),
    ensures
        values(pick(s, places(keep, true))) == s.filter(
            |e: (Seq<char>, usize)| pred(recordings[e.1 as int]),
        ).map_values(|e: (Seq<char>, usize)| e.1),
        kept_ids(s, keep) == s.filter(
            |e: (Seq<char>, usize)| pred(recordings[e.1 as int]),
        ).map_values(|e: (Seq<char>, usize)| e.0),
        pick(s, places(keep, false)) == s.filter(
            |e: (Seq<char>, usize)| !pred(recordings[e.1 as int]),
        ),
        (forall|r: Recording| #[trigger] pred(r)) ==> values(pick(s, places(keep, true)))
            == s.map_values(|e: (Seq<char>, usize)| e.1) && pick(s, places(keep, false)).len()
            == 0,
{
    let has = |e: (Seq<char>, usize)| pred(recordings[e.1 as int]);
    let has_not = |e: (Seq<char>, usize)| !pred(recordings[e.1 as int]);
    assert forall|i: int| 0 <= i < s.len() implies pred(recordings[(#[trigger] s[i]).1 as int])
        == keep[i] by {
        assert(call_ensures(filter_func, (&recordings[s[i].1 as int],), keep[i]));
    }
    lemma_filter_is_pick(s, has, keep, true);
    lemma_filter_is_pick(s, has_not, keep, false);
    assert(values(pick(s, places(keep, true))) =~= s.filter(has).map_values(
        |e: (Seq<char>, usize)| e.1,
    ));
    assert(kept_ids(s, keep) =~= s.filter(has).map_values(|e: (Seq<char>, usize)| e.0));
    if forall|r: Recording| #[trigger] pred(r) {
        lemma_filter_all(s, has);
        lemma_places(keep, false);
        if places(keep, false).len() > 0 {
            let i = places(keep, false)[0];
            assert(!keep[i]);
            assert(pred(recordings[s[i].1 as int]));
        }
    }
}

/// A new result replaces the former one, whatever that was, and nothing else of the recording
/// changes; the last of two results stays.
pub proof fn law_result_is_replaced(
    recording: RecordingView,
    former: Option<BoxedRecognizeResult>,
    result: Option<BoxedRecognizeResult>,
)
    ensures
        recording.with_result(result).data.recognize_result == result,
        recording.with_result(result).data.bytes == recording.data.bytes,
        recording.with_result(result).data.recorded_time == recording.data.recorded_time,
        recording.with_result(result).earlier == recording.earlier,
        recording.with_result(result).newest == recording.newest,
        recording.with_result(former).with_result(result) == recording.with_result(result),
{
}

/// A recording that was made or read has what was given, and nobody hears of its changes.
pub proof fn law_free_recording(data: RecordingDataView)
    ensures
        RecordingView::free(data).data == data,
        RecordingView::free(data).earlier.len() == 0,
        RecordingView::free(data).newest is None,
{
}

/// All handlers hear of a change, the remembered one last.
pub proof fn law_all_handlers_hear(recording: RecordingView)
    ensures
        recording.newest is None ==> recording.handlers() == recording.earlier,
        recording.newest is Some ==> {
            &&& recording.handlers().len() == recording.earlier.len() + 1
            &&& recording.handlers().take(recording.earlier.len() as int) == recording.earlier
            &&& recording.handlers().last() == recording.newest->0
        },
{
    if recording.newest is Some {
        assert(recording.handlers().take(recording.earlier.len() as int) =~= recording.earlier);
    }
}

/// Binding adds a handler behind the others and remembers it; unbinding takes off the remembered
/// one alone. Neither changes what there is to keep.
pub proof fn law_bind_and_unbind(recording: RecordingView, id: Seq<char>)
    ensures
        recording.bound(id).newest == Some(id),
        recording.newest is None ==> recording.bound(id).earlier == recording.earlier,
        recording.newest is Some ==> recording.bound(id).earlier == recording.earlier.push(
            recording.newest->0,
        ),
        recording.bound(id).data == recording.data,
        recording.unbound().newest is None,
        recording.unbound().earlier == recording.earlier,
        recording.unbound().data == recording.data,
{
}

/// The value of what there is to keep is all of it.
pub proof fn law_value_of_data(data: RecordingData)
    ensures
        data@.bytes == data.bytes@,
        data@.recorded_time == data.recorded_time,
        data@.recognize_result == data.recognize_result,
{
}

/// Ids, writes and effects have the values of their parts, each in its place.
pub proof fn law_values_in_order(ids: Seq<String>, writes: Seq<DbWrite>, effects: Seq<Effect>)
    ensures
        ids_view(ids).len() == ids.len(),
        forall|k: int| 0 <= k < ids.len() ==> #[trigger] ids_view(ids)[k] == ids[k]@,
        writes_view(writes).len() == writes.len(),
        forall|k: int|
            0 <= k < writes.len() ==> #[trigger] writes_view(writes)[k] == match writes[k] {
                DbWrite::Put { id, recording } => DbWriteView::Put {
                    id: id@,
                    recording: RecordingDataView {
                        bytes: recording.bytes@,
                        recorded_time: recording.recorded_time,
                        recognize_result: recording.recognize_result,
                    },
                },
                DbWrite::Delete { id } => DbWriteView::Delete { id: id@ },
            },
        effects_view(effects).len() == effects.len(),
        forall|k: int|
            0 <= k < effects.len() ==> #[trigger] effects_view(effects)[k] == match effects[k] {
                Effect::Commit(writes) => EffectView::Commit(writes_view(writes@)),
                Effect::ItemsChanged(change) => EffectView::ItemsChanged(change),
            },
{
}

/// There are as many recordings as their values, each in its place.
pub proof fn law_values_of_recordings(objects: RecordingObjects)
    ensures
        objects.recordings().len() == objects@.len(),
        forall|i: int|
            0 <= i < objects@.len() ==> #[trigger] objects@[i] == objects.recordings()[i]@,
{
}

/// A recording is kept by one write, under its id and as it is.
pub proof fn law_one_write_keeps(id: Seq<char>, recording: RecordingDataView)
    ensures
        put(id, recording).len() == 1,
        put(id, recording)[0] == (DbWriteView::Put { id, recording }),
{
}

/// Each id is deleted, once and in order, and nothing else is written.
pub proof fn law_each_id_is_deleted(ids: Seq<Seq<char>>)
    ensures
        deletions(ids).len() == ids.len(),
        forall|k: int|
            0 <= k < ids.len() ==> #[trigger] deletions(ids)[k] == (DbWriteView::Delete {
                id: ids[k],
            }),
{
}

/// After a transaction, the database has under each id what was put there last, or nothing where
/// it was deleted after that, and has kept what no write was about.
pub proof fn law_last_write_stands(
    db: Map<Seq<char>, RecordingDataView>,
    writes: Seq<DbWriteView>,
    id: Seq<char>,
    recording: RecordingDataView,
    other: Seq<char>,
)
    ensures
        after_writes(db, Seq::empty()) == db,
        ({
            let before = after_writes(db, writes);
            let put = after_writes(db, writes.push(DbWriteView::Put { id, recording }));
            let deleted = after_writes(db, writes.push(DbWriteView::Delete { id }));
            &&& put.contains_key(id)
            &&& put[id] == recording
            &&& !deleted.contains_key(id)
            &&& other != id ==> {
                &&& put.contains_key(other) == before.contains_key(other)
                &&& put[other] == before[other]
                &&& deleted.contains_key(other) == before.contains_key(other)
                &&& before.contains_key(other) ==> deleted[other] == before[other]
            }
        }),
{
    assert(writes.push(DbWriteView::Put { id, recording }).drop_last() =~= writes);
    assert(writes.push(DbWriteView::Delete { id }).drop_last() =~= writes);
    let before = after_writes(db, writes);
    assert(after_writes(db, writes.push(DbWriteView::Put { id, recording })) == after_write(
        before,
        DbWriteView::Put { id, recording },
    ));
    assert(after_writes(db, writes.push(DbWriteView::Delete { id })) == after_write(
        before,
        DbWriteView::Delete { id },
    ));
}

/// The handler of an entry first keeps the changed recording under the id of the entry, and then
/// tells of the one item at its place.
pub proof fn law_handler_writes_then_tells(
    s: Seq<(Seq<char>, usize)>,
    recording: RecordingDataView,
    i: int,
)
    requires
        distinct_ids(s),
        0 <= i < s.len(),
    ensures
        notify_effects(s, s[i].0, recording).len() == 2,
        notify_effects(s, s[i].0, recording)[0] == EffectView::Commit(
            seq![DbWriteView::Put { id: s[i].0, recording }],
        ),
        notify_effects(s, s[i].0, recording)[1] == EffectView::ItemsChanged(
            ItemsChanged { position: in_32_bits(i), removed: 1, added: 1 },
        ),
{
    lemma_index_of_id(s, i);
}

} // verus!
