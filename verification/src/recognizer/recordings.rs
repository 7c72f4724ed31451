//! The saved recordings: a list that is kept in step with a database.
//!
//! The list itself does no input or output. Its operations say what has to be written to the
//! database, as [`DbWrite`]s of one transaction each, and which change of the list its
//! observers have to be told of, as [`ItemsChanged`].

use indexmap::IndexMap;
use vstd::prelude::*;

use super::entries::{
    distinct_ids, has_id, index_of_id, kept_ids, lemma_filter_all, lemma_filter_entries,
    lemma_index_of_id, lemma_places, lemma_upsert, lemma_without_kept, lemma_without_step, pick,
    places, upsert, upsert_all, values, without,
};
use super::index_map::{
    map_entries, map_get_index, map_get_index_of, map_insert_full, map_len, map_new,
    map_shift_remove_full,
};
use super::objects::RecordingObjects;
use super::outcomes::{law_in_32_bits, law_loaded_as_read, law_taken, lemma_read_distinct};
use super::recording::{ids_view, Recording, RecordingData, RecordingDataView, RecordingView};
use crate::db::{writes_view, DbError, DbWrite, DbWriteView};

verus! {

/// A change of the list: from `position` on, `removed` items gave way to `added` ones.
#[derive(Debug, Clone, Copy, PartialEq, Eq)]
pub struct ItemsChanged {
    pub position: u32,
    pub removed: u32,
    pub added: u32,
}

/// What came of an insertion.
#[derive(Debug, PartialEq, Eq)]
pub struct Inserted {
    pub items_changed: ItemsChanged,
    /// Whether the id was in use, and its recording was replaced.
    pub replaced: bool,
}

/// Recordings that were taken out of the list, with the ids that they had there and the
/// changes that their leaving was.
#[derive(Debug, PartialEq, Eq)]
pub struct Taken {
    pub ids: Vec<String>,
    pub recordings: Vec<usize>,
    pub items_changed: Vec<ItemsChanged>,
}

/// What a list has done in the world around it.
#[derive(Debug, PartialEq, Eq)]
pub enum Effect {
    /// Commit these writes in one transaction.
    Commit(Vec<DbWrite>),
    /// Tell the observers of the list.
    ItemsChanged(ItemsChanged),
}

/// The mathematical value of an [`Effect`].
pub enum EffectView {
    Commit(Seq<DbWriteView>),
    ItemsChanged(ItemsChanged),
}

impl View for Effect {
    type V = EffectView;

    open spec fn view(&self) -> EffectView {
        match self {
            Effect::Commit(writes) => EffectView::Commit(writes_view(writes@)),
            Effect::ItemsChanged(change) => EffectView::ItemsChanged(*change),
        }
    }
}

/// Effects by their values.
pub open spec fn effects_view(effects: Seq<Effect>) -> Seq<EffectView> {
    effects.map_values(|e: Effect| e@)
}

/// No id occurs twice, and each entry refers to a recording that there is.
pub open spec fn list_wf(s: Seq<(Seq<char>, usize)>, objects: Seq<RecordingView>) -> bool {
    &&& distinct_ids(s)
    &&& forall|i: int| 0 <= i < s.len() ==> (#[trigger] s[i]).1 < objects.len()
}

/// Observers count items and places in 32 bits.
pub open spec fn in_32_bits(i: int) -> u32 {
    (i % 0x1_0000_0000) as u32
}

/// The filter can be asked about every recording of the list.
pub open spec fn can_ask<F: Fn(&Recording) -> bool>(
    filter_func: F,
    s: Seq<(Seq<char>, usize)>,
    recordings: Seq<Recording>,
) -> bool {
    forall|i: int|
        0 <= i < s.len() ==> call_requires(
            filter_func,
            (&recordings[(#[trigger] s[i]).1 as int],),
        )
}

/// `keep` is what the filter may answer about each recording of the list.
pub open spec fn answers<F: Fn(&Recording) -> bool>(
    filter_func: F,
    s: Seq<(Seq<char>, usize)>,
    recordings: Seq<Recording>,
    keep: Seq<bool>,
) -> bool {
    &&& keep.len() == s.len()
    &&& forall|i: int|
        0 <= i < s.len() ==> call_ensures(
            filter_func,
            (&recordings[(#[trigger] s[i]).1 as int],),
            keep[i],
        )
}

/// What was read of a database.
pub open spec fn read_items(items: Seq<Result<(String, RecordingData), DbError>>) -> Seq<
    (Seq<char>, RecordingDataView),
> {
    items.map_values(
        |item: Result<(String, RecordingData), DbError>| (item->Ok_0.0@, item->Ok_0.1@),
    )
}

/// The list in which these are the recordings from number `from` on.
pub open spec fn numbered(kept: Seq<(Seq<char>, RecordingDataView)>, from: nat) -> Seq<
    (Seq<char>, usize),
> {
    Seq::new(kept.len(), |i: int| (kept[i].0, (from + i) as usize))
}

/// The recordings of which these were kept, each bound to its id.
pub open spec fn revived(kept: Seq<(Seq<char>, RecordingDataView)>) -> Seq<RecordingView> {
    kept.map_values(
        |e: (Seq<char>, RecordingDataView)| RecordingView::free(e.1).bound(e.0),
    )
}

/// The recordings that the entries with these ids refer to.
pub open spec fn numbers_of(s: Seq<(Seq<char>, usize)>, ids: Seq<Seq<char>>) -> Seq<usize> {
    ids.map_values(|id: Seq<char>| s[index_of_id(s, id)].1)
}

/// Each of these recordings can be unbound, one after another.
pub open spec fn can_unbind(objects: Seq<RecordingView>, numbers: Seq<usize>) -> bool {
    &&& numbers.no_duplicates()
    &&& forall|k: int|
        0 <= k < numbers.len() ==> objects[(#[trigger] numbers[k]) as int].newest is Some
}

/// The recording with number `i` is one of these.
pub open spec fn among(numbers: Seq<usize>, i: int) -> bool {
    exists|k: int| 0 <= k < numbers.len() && #[trigger] numbers[k] == i
}

/// The recordings once these were unbound.
pub open spec fn after_unbinding(objects: Seq<RecordingView>, numbers: Seq<usize>) -> Seq<
    RecordingView,
> {
    Seq::new(
        objects.len(),
        |i: int|
            if among(numbers, i) {
                objects[i].unbound()
            } else {
                objects[i]
            },
    )
}

/// The changes that taking out these ids, one after another, is.
pub open spec fn removals(s: Seq<(Seq<char>, usize)>, ids: Seq<Seq<char>>) -> Seq<ItemsChanged> {
    Seq::new(
        ids.len(),
        |k: int|
            ItemsChanged {
                position: in_32_bits(index_of_id(without(s, ids.take(k)), ids[k])),
                removed: 1,
                added: 0,
            },
    )
}

/// The deletions of these ids.
pub open spec fn deletions(ids: Seq<Seq<char>>) -> Seq<DbWriteView> {
    ids.map_values(|id: Seq<char>| DbWriteView::Delete { id })
}

/// The one write by which a recording is kept under an id.
pub open spec fn put(id: Seq<char>, recording: RecordingDataView) -> Seq<DbWriteView> {
    seq![DbWriteView::Put { id, recording }]
}

/// What the handler of an entry does when its recording has changed: the recording is kept as
/// it is now, and then observers are told that its item has changed.
pub open spec fn notify_effects(
    s: Seq<(Seq<char>, usize)>,
    id: Seq<char>,
    recording: RecordingDataView,
) -> Seq<EffectView> {
    seq![
        EffectView::Commit(put(id, recording)),
        EffectView::ItemsChanged(
            ItemsChanged { position: in_32_bits(index_of_id(s, id)), removed: 1, added: 1 },
        ),
    ]
}

fn to_u32(i: usize) -> (res: u32)
    ensures
        res == in_32_bits(i as int),
{
    let wide: u64 = i as u64;
    assert(wide as u32 == wide % 0x1_0000_0000) by (bit_vector);
    wide as u32
}

/// Binds a recording to an entry of a list: from now on, the handler of that entry has to hear
/// of each change of the recording.
pub fn bind_recording_to_items_changed_and_db(recording_id: &str, recording: &mut Recording)
    ensures
        final(recording)@ == old(recording)@.bound(recording_id@),
        final(recording)@.data == old(recording)@.data,
        final(recording)@.newest == Some(recording_id@),
        old(recording)@.newest is None ==> final(recording)@.earlier == old(recording)@.earlier,
        old(recording)@.newest is Some ==> final(recording)@.earlier == old(
            recording,
        )@.earlier.push(old(recording)@.newest->0),
{
    recording.connect_notify(recording_id.to_owned());
}

/// Undoes the newest binding of a recording.
pub fn unbind_recording_to_items_changed_and_db(recording: &mut Recording)
    requires
        old(recording)@.newest is Some,
    ensures
        final(recording)@ == old(recording)@.unbound(),
        final(recording)@.data == old(recording)@.data,
        final(recording)@.newest is None,
        final(recording)@.earlier == old(recording)@.earlier,
{
    recording.disconnect_notify();
}

/// The list of saved recordings, in the order in which they came, each under an id. An entry
/// refers to its recording by the recording's number.
pub struct Recordings {
    list: IndexMap<String, usize>,
}

impl View for Recordings {
    type V = Seq<(Seq<char>, usize)>;

    closed spec fn view(&self) -> Seq<(Seq<char>, usize)> {
        map_entries(self.list)
    }
}

impl Recordings {
    /// The list is one that its operations make of these recordings.
    pub open spec fn wf(&self, objects: &RecordingObjects) -> bool {
        list_wf(self@, objects@)
    }

    /// Loads the list from what was read of the `saved_recordings` table of the database, and
    /// adds its recordings to the others. The first item that could not be read decides.
    pub fn load_from_env(
        objects: &mut RecordingObjects,
        items: Vec<Result<(String, RecordingData), DbError>>,
    ) -> (res: Result<Self, DbError>)
        ensures
            match res {
                Ok(recordings) => {
                    let kept = upsert_all(Seq::empty(), read_items(items@));
                    &&& forall|i: int| 0 <= i < items@.len() ==> #[trigger] items@[i] is Ok
                    &&& recordings.wf(final(objects))
                    &&& recordings@ == numbered(kept, old(objects)@.len())
                    &&& final(objects)@ == old(objects)@ + revived(kept)
                    &&& forall|i: int|
                        0 <= i < old(objects)@.len() ==> #[trigger] final(objects)@[i] == old(
                            objects,
                        )@[i]
                    &&& (forall|i: int, j: int|
                        0 <= i < j < items@.len() ==> (#[trigger] items@[i])->Ok_0.0@ != (
                        #[trigger] items@[j])->Ok_0.0@) ==> {
                        &&& recordings@.len() == items@.len()
                        &&& final(objects)@.len() == old(objects)@.len() + items@.len()
                        &&& forall|i: int|
                            0 <= i < items@.len() ==> {
                                let read = (#[trigger] items@[i])->Ok_0;
                                let loaded = final(objects)@[recordings@[i].1 as int];
                                &&& recordings@[i].0 == read.0@
                                &&& recordings@[i].1 == old(objects)@.len() + i
                                &&& loaded.data.bytes == read.1.bytes@
                                &&& loaded.data.recorded_time == read.1.recorded_time
                                &&& loaded.data.recognize_result == read.1.recognize_result
                                &&& loaded.earlier.len() == 0
                                &&& loaded.newest == Some(read.0@)
                            }
                    }
                },
                Err(err) => {
                    &&& final(objects)@ == old(objects)@
                    &&& exists|i: int|
                        {
                            &&& 0 <= i < items@.len()
                            &&& #[trigger] items@[i] == Err::<(String, RecordingData), DbError>(
                                err,
                            )
                            &&& forall|j: int| 0 <= j < i ==> #[trigger] items@[j] is Ok
                        }
                },
            },
    {
        let mut seen = map_new();
        let mut kept: Vec<RecordingData> = Vec::new();
        let ghost read = read_items(items@);
        assert(kept_view(map_entries(seen), kept@) =~= upsert_all(Seq::empty(), read.take(0)));
        for item in iter: items
            invariant
                iter.seq() == items@,
                read == read_items(items@),
                objects@ == old(objects)@,
                forall|i: int| 0 <= i < iter.index() ==> #[trigger] items@[i] is Ok,
                map_entries(seen).len() == kept@.len(),
                distinct_ids(map_entries(seen)),
                kept_view(map_entries(seen), kept@) == upsert_all(
                    Seq::empty(),
                    read.take(iter.index() as int),
                ),
        {
            let ghost k = iter.index() as int;
            let ghost before = kept_view(map_entries(seen), kept@);
            let ghost entries = map_entries(seen);
            match item {
                Ok((id, data)) => {
                    proof {
                        assert(read.take(k + 1).drop_last() =~= read.take(k));
                        assert(read.take(k + 1).last() == (id@, data@));
                        lemma_kept_ids(entries, kept@);
                        lemma_upsert(before, id@, data@);
                    }
                    match map_get_index_of(&seen, id.as_str()) {
                        Some(position) => {
                            let ghost value = data@;
                            kept.set(position, data);
                            proof {
                                assert(before[position as int].0 == id@);
                                lemma_index_of_id(before, position as int);
                                assert(kept_view(map_entries(seen), kept@) =~= before.update(
                                    position as int,
                                    (id@, value),
                                ));
                            }
                        },
                        None => {
                            let ghost value = data@;
                            let ghost key = id@;
                            let position = kept.len();
                            kept.push(data);
                            let (at, last) = map_insert_full(&mut seen, id, position);
                            proof {
                                if last is Some {
                                    assert(entries[at as int].0 == key);
                                }
                                if has_id(before, key) {
                                    let i = index_of_id(before, key);
                                    assert(entries[i].0 == before[i].0);
                                }
                                assert(map_entries(seen) == entries.push((key, position)));
                                assert(kept_view(map_entries(seen), kept@) =~= before.push(
                                    (key, value),
                                ));
                                assert forall|i: int, j: int|
                                    0 <= i < map_entries(seen).len() && 0 <= j < map_entries(
                                        seen,
                                    ).len() && #[trigger] map_entries(seen)[i].0
                                        == #[trigger] map_entries(seen)[j].0 implies i == j by {
                                    let after = kept_view(map_entries(seen), kept@);
                                    assert(after[i].0 == after[j].0);
                                }
                            }
                        },
                    }
                },
                Err(err) => {
                    return Err(err);
                },
            }
        }
        assert(read.take(items@.len() as int) =~= read);
        let ghost all = kept_view(map_entries(seen), kept@);
        let ghost entries = map_entries(seen);
        let ghost from = objects@.len();
        let mut this = Recordings { list: map_new() };
        proof {
            lemma_kept_ids(entries, kept@);
            assert(this@ =~= numbered(all, from).take(0));
            assert(objects@ =~= old(objects)@ + revived(all).take(0));
        }
        let ghost data_seq = kept@;
        for data in iter: kept
            invariant
                iter.seq() == data_seq,
                entries == map_entries(seen),
                entries.len() == data_seq.len(),
                distinct_ids(all),
                all == kept_view(entries, data_seq),
                from == old(objects)@.len(),
                this@ == numbered(all, from).take(iter.index() as int),
                objects@ == old(objects)@ + revived(all).take(iter.index() as int),
                this.wf(objects),
                iter.index() > 0 ==> from + iter.index() - 1 <= usize::MAX,
        {
            let ghost p = iter.index() as int;
            let ghost objects_before = objects@;
            let ghost list_before = this@;
            if let Some((id, _)) = map_get_index(&seen, map_len(&this.list)) {
                let mut recording = Recording::from_data(data);
                bind_recording_to_items_changed_and_db(id.as_str(), &mut recording);
                let ghost value = recording@;
                let number = objects.add(recording);
                let (_, _) = map_insert_full(&mut this.list, id.clone(), number);
                proof {
                    assert(all[p] == (id@, data@));
                    assert(value == revived(all)[p]);
                    assert(objects@ =~= old(objects)@ + revived(all).take(p + 1));
                    if has_id(list_before, id@) {
                        let i = index_of_id(list_before, id@);
                        assert(list_before[i].0 == all[i].0);
                        assert(all[i].0 == all[p].0);
                    }
                    assert(number == from + p);
                    assert(this@ =~= numbered(all, from).take(p + 1));
                    assert forall|i: int, j: int|
                        0 <= i < this@.len() && 0 <= j < this@.len() && #[trigger] this@[i].0
                            == #[trigger] this@[j].0 implies i == j by {
                        assert(all[i].0 == all[j].0);
                    }
                    assert forall|i: int| 0 <= i < this@.len() implies (#[trigger] this@[i]).1
                        < objects@.len() by {
                        if i < p {
                            assert(this@[i] == list_before[i]);
                        }
                    }
                }
            }
        }
        proof {
            assert(numbered(all, from).take(all.len() as int) =~= numbered(all, from));
            assert(revived(all).take(all.len() as int) =~= revived(all));
            if forall|i: int, j: int|
                0 <= i < j < items@.len() ==> (#[trigger] items@[i])->Ok_0.0@ != (
                #[trigger] items@[j])->Ok_0.0@ {
                lemma_read_distinct(items@);
                law_loaded_as_read(items@, old(objects)@, this@, objects@);
            }
        }
        Ok(this)
    }

    /// The transaction that has to be committed before [`Recordings::insert`].
    pub fn insert_writes(
        objects: &RecordingObjects,
        recording_id: &str,
        recording: usize,
    ) -> (writes: Vec<DbWrite>)
        requires
            recording < objects@.len(),
        ensures
            writes_view(writes@) == put(recording_id@, objects@[recording as int].data),
            writes@.len() == 1,
            writes@[0] matches DbWrite::Put { id, recording: kept } && {
                &&& id@ == recording_id@
                &&& kept.bytes@ == objects@[recording as int].data.bytes
                &&& kept.recorded_time == objects@[recording as int].data.recorded_time
                &&& kept.recognize_result == objects@[recording as int].data.recognize_result
            },
    {
        let write = DbWrite::Put {
            id: recording_id.to_owned(),
            recording: objects.get(recording).data().clone(),
        };
        let mut writes: Vec<DbWrite> = Vec::new();
        writes.push(write);
        assert(writes_view(writes@) =~= seq![write@]);
        writes
    }

    /// Adds a recording under an id, last in the list, and binds it to the entry. Should the id
    /// be in use, the recording takes the place of the one that has it, which stays bound.
    pub fn insert(
        &mut self,
        objects: &mut RecordingObjects,
        recording_id: String,
        recording: usize,
    ) -> (res: Inserted)
        requires
            old(self).wf(old(objects)),
            recording < old(objects)@.len(),
        ensures
            final(self).wf(final(objects)),
            final(self)@ == upsert(old(self)@, recording_id@, recording),
            final(objects)@ == old(objects)@.update(
                recording as int,
                old(objects)@[recording as int].bound(recording_id@),
            ),
            res == (Inserted {
                items_changed: ItemsChanged {
                    position: in_32_bits(index_of_id(final(self)@, recording_id@)),
                    removed: 0,
                    added: 1,
                },
                replaced: has_id(old(self)@, recording_id@),
            }),
            (forall|i: int| 0 <= i < old(self)@.len() ==> (#[trigger] old(self)@[i]).0
                != recording_id@) ==> {
                &&& final(self)@ == old(self)@.push((recording_id@, recording))
                &&& !res.replaced
                &&& old(self)@.len() <= u32::MAX ==> res.items_changed.position == old(self)@.len()
            },
            forall|i: int|
                0 <= i < old(self)@.len() && (#[trigger] old(self)@[i]).0 == recording_id@ ==> {
                    &&& final(self)@ == old(self)@.update(i, (recording_id@, recording))
                    &&& res.replaced
                    &&& i <= u32::MAX ==> res.items_changed.position == i
                },
            final(objects)@.len() == old(objects)@.len(),
            forall|i: int|
                0 <= i < old(objects)@.len() && i != recording ==> #[trigger] final(objects)@[i]
                    == old(objects)@[i],
            final(objects)@[recording as int].data == old(objects)@[recording as int].data,
            final(objects)@[recording as int].newest == Some(recording_id@),
            old(objects)@[recording as int].newest is None
                ==> final(objects)@[recording as int].earlier
                == old(objects)@[recording as int].earlier,
            old(objects)@[recording as int].newest is Some
                ==> final(objects)@[recording as int].earlier
                == old(objects)@[recording as int].earlier.push(
                old(objects)@[recording as int].newest->0,
            ),
    {
        bind_recording_to_items_changed_and_db(recording_id.as_str(), objects.get_mut(recording));
        let (position, last_value) = map_insert_full(&mut self.list, recording_id, recording);
        proof {
            lemma_upsert(old(self)@, recording_id@, recording);
            match last_value {
                Some(_) => {
                    assert(old(self)@[position as int].0 == recording_id@);
                    lemma_index_of_id(old(self)@, position as int);
                },
                None => {},
            }
            assert(self@ =~= upsert(old(self)@, recording_id@, recording));
            assert(self@[position as int] == (recording_id@, recording));
            lemma_index_of_id(self@, position as int);
            law_in_32_bits(position as int);
            assert forall|i: int| 0 <= i < self@.len() implies (#[trigger] self@[i]).1
                < objects@.len() by {
                if i != position {
                    assert(self@[i] == old(self)@[i]);
                }
            }
        }
        Inserted {
            items_changed: ItemsChanged { position: to_u32(position), removed: 0, added: 1 },
            replaced: last_value.is_some(),
        }
    }

    /// The number of entries, in the 32 bits that observers count in.
    pub fn n_items(&self) -> (res: u32)
        ensures
            res == in_32_bits(self@.len() as int),
            self@.len() <= u32::MAX ==> res == self@.len(),
    {
        proof {
            law_in_32_bits(self@.len() as int);
        }
        to_u32(map_len(&self.list))
    }

    /// The recording at a place of the list, if there are that many.
    pub fn item(&self, position: u32) -> (res: Option<usize>)
        ensures
            res == if position < self@.len() {
                Some(self@[position as int].1)
            } else {
                None
            },
    {
        match map_get_index(&self.list, position as usize) {
            Some((_, recording)) => Some(*recording),
            None => None,
        }
    }

    /// The place of the entry with this id, if the list has one.
    pub fn index_of(&self, recording_id: &str) -> (res: Option<usize>)
        requires
            distinct_ids(self@),
        ensures
            match res {
                Some(index) => {
                    &&& has_id(self@, recording_id@)
                    &&& index == index_of_id(self@, recording_id@)
                    &&& index < self@.len()
                    &&& self@[index as int].0 == recording_id@
                },
                None => {
                    &&& !has_id(self@, recording_id@)
                    &&& forall|i: int|
                        0 <= i < self@.len() ==> (#[trigger] self@[i]).0 != recording_id@
                },
            },
    {
        let res = map_get_index_of(&self.list, recording_id);
        proof {
            if let Some(index) = res {
                assert(self@[index as int].0 == recording_id@);
                lemma_index_of_id(self@, index as int);
            }
        }
        res
    }

    /// Whether observers count no entry.
    pub fn is_empty(&self) -> (res: bool)
        ensures
            res == (in_32_bits(self@.len() as int) == 0),
            self@.len() <= u32::MAX ==> res == (self@.len() == 0),
    {
        self.n_items() == 0
    }

    /// The places at which the filter holds.
    fn places_filtered(
        &self,
        objects: &RecordingObjects,
        filter_func: impl Fn(&Recording) -> bool,
    ) -> (at: Vec<usize>)
        requires
            self.wf(objects),
            can_ask(filter_func, self@, objects.recordings()),
        ensures
            exists|keep: Seq<bool>|
                {
                    &&& #[trigger] answers(filter_func, self@, objects.recordings(), keep)
                    &&& at@.map_values(|i: usize| i as int) == places(keep, true)
                },
    {
        let mut at: Vec<usize> = Vec::new();
        let ghost mut keep: Seq<bool> = Seq::empty();
        let len = map_len(&self.list);
        let mut i: usize = 0;
        while i < len
            invariant
                len == self@.len(),
                i <= len,
                keep.len() == i,
                self.wf(objects),
                can_ask(filter_func, self@, objects.recordings()),
                forall|j: int|
                    0 <= j < i ==> call_ensures(
                        filter_func,
                        (&objects.recordings()[(#[trigger] self@[j]).1 as int],),
                        keep[j],
                    ),
                at@.map_values(|i: usize| i as int) == places(keep, true),
            decreases len - i,
        {
            if let Some((_, number)) = map_get_index(&self.list, i) {
                assert(self@[i as int].1 == number);
                let keeps = filter_func(objects.get(*number));
                let ghost before = (at@, keep);
                proof {
                    keep = keep.push(keeps);
                    assert(keep.drop_last() =~= before.1);
                }
                if keeps {
                    at.push(i);
                    assert(at@.map_values(|i: usize| i as int) =~= before.0.map_values(
                        |i: usize| i as int,
                    ).push(i as int));
                }
            }
            i += 1;
        }
        assert(answers(filter_func, self@, objects.recordings(), keep));
        at
    }

    /// The recordings for which the filter holds, in the order of the list.
    pub fn peek_filtered(
        &self,
        objects: &RecordingObjects,
        filter_func: impl Fn(&Recording) -> bool,
    ) -> (res: Vec<usize>)
        requires
            self.wf(objects),
            can_ask(filter_func, self@, objects.recordings()),
        ensures
            exists|keep: Seq<bool>|
                {
                    &&& #[trigger] answers(filter_func, self@, objects.recordings(), keep)
                    &&& res@ == values(pick(self@, places(keep, true)))
                    &&& res@.len() == places(keep, true).len()
                    &&& forall|k: int|
                        0 <= k < res@.len() ==> #[trigger] res@[k] == self@[places(
                            keep,
                            true,
                        )[k]].1
                },
    {
        let at = self.places_filtered(objects, filter_func);
        let ghost keep = choose|keep: Seq<bool>|
            {
                &&& #[trigger] answers(filter_func, self@, objects.recordings(), keep)
                &&& at@.map_values(|i: usize| i as int) == places(keep, true)
            };
        proof {
            lemma_places(keep, true);
        }
        let mut res: Vec<usize> = Vec::new();
        let mut k: usize = 0;
        while k < at.len()
            invariant
                k <= at@.len(),
                keep.len() == self@.len(),
                at@.map_values(|i: usize| i as int) == places(keep, true),
                forall|k: int|
                    0 <= k < places(keep, true).len() ==> 0 <= #[trigger] places(keep, true)[k]
                        < keep.len(),
                res@ == values(pick(self@, places(keep, true))).take(k as int),
            decreases at@.len() - k,
        {
            proof {
                assert(at@.map_values(|i: usize| i as int)[k as int] == at@[k as int]);
                assert(places(keep, true)[k as int] == at@[k as int]);
            }
            if let Some((_, number)) = map_get_index(&self.list, at[k]) {
                res.push(*number);
            }
            k += 1;
            assert(res@ =~= values(pick(self@, places(keep, true))).take(k as int));
        }
        assert(res@ =~= values(pick(self@, places(keep, true))));
        assert(answers(filter_func, self@, objects.recordings(), keep));
        res
    }

    /// The ids of the entries for whose recordings the filter holds, in the order of the list.
    pub fn ids_filtered(
        &self,
        objects: &RecordingObjects,
        filter_func: impl Fn(&Recording) -> bool,
    ) -> (ids: Vec<String>)
        requires
            self.wf(objects),
            can_ask(filter_func, self@, objects.recordings()),
        ensures
            exists|keep: Seq<bool>|
                {
                    &&& #[trigger] answers(filter_func, self@, objects.recordings(), keep)
                    &&& ids_view(ids@) == kept_ids(self@, keep)
                    &&& ids@.len() == places(keep, true).len()
                    &&& forall|k: int|
                        0 <= k < ids@.len() ==> (#[trigger] ids@[k])@ == self@[places(
                            keep,
                            true,
                        )[k]].0
                },
    {
        let at = self.places_filtered(objects, filter_func);
        let ghost keep = choose|keep: Seq<bool>|
            {
                &&& #[trigger] answers(filter_func, self@, objects.recordings(), keep)
                &&& at@.map_values(|i: usize| i as int) == places(keep, true)
            };
        proof {
            lemma_places(keep, true);
        }
        let mut ids: Vec<String> = Vec::new();
        let mut k: usize = 0;
        while k < at.len()
            invariant
                k <= at@.len(),
                keep.len() == self@.len(),
                at@.map_values(|i: usize| i as int) == places(keep, true),
                forall|k: int|
                    0 <= k < places(keep, true).len() ==> 0 <= #[trigger] places(keep, true)[k]
                        < keep.len(),
                ids_view(ids@) == kept_ids(self@, keep).take(k as int),
            decreases at@.len() - k,
        {
            let ghost before = ids@;
            proof {
                assert(at@.map_values(|i: usize| i as int)[k as int] == at@[k as int]);
                assert(places(keep, true)[k as int] == at@[k as int]);
            }
            if let Some((id, _)) = map_get_index(&self.list, at[k]) {
                ids.push(id.clone());
                assert(ids_view(ids@) =~= ids_view(before).push(id@));
            }
            k += 1;
            assert(ids_view(ids@) =~= kept_ids(self@, keep).take(k as int));
        }
        assert(ids_view(ids@) =~= kept_ids(self@, keep));
        assert(forall|k: int| 0 <= k < ids@.len() ==> (#[trigger] ids@[k])@ == ids_view(ids@)[k]);
        assert(answers(filter_func, self@, objects.recordings(), keep));
        ids
    }

    /// The transaction that has to be committed before [`Recordings::take`].
    pub fn take_writes(ids: &Vec<String>) -> (writes: Vec<DbWrite>)
        ensures
            writes_view(writes@) == deletions(ids_view(ids@)),
            writes@.len() == ids@.len(),
            forall|k: int|
                0 <= k < ids@.len() ==> (#[trigger] writes@[k] matches DbWrite::Delete { id }
                    && id@ == ids@[k]@),
    {
        let mut writes: Vec<DbWrite> = Vec::new();
        let mut i: usize = 0;
        while i < ids.len()
            invariant
                i <= ids@.len(),
                writes_view(writes@) == deletions(ids_view(ids@.take(i as int))),
                writes@.len() == i,
                forall|k: int|
                    0 <= k < i ==> (#[trigger] writes@[k] matches DbWrite::Delete { id } && id@
                        == ids@[k]@),
            decreases ids@.len() - i,
        {
            let ghost before = writes@;
            writes.push(DbWrite::Delete { id: ids[i].clone() });
            proof {
                assert(writes_view(writes@) =~= writes_view(before).push(
                    DbWriteView::Delete { id: ids@[i as int]@ },
                ));
                assert(deletions(ids_view(ids@.take(i + 1))) =~= deletions(
                    ids_view(ids@.take(i as int)),
                ).push(DbWriteView::Delete { id: ids@[i as int]@ }));
            }
            i += 1;
        }
        assert(ids@.take(ids@.len() as int) =~= ids@);
        writes
    }

    /// Whether there is an entry with this id that can be taken out by itself: its recording has
    /// to be bound.
    pub fn can_take(&self, objects: &RecordingObjects, recording_id: &str) -> (res: bool)
        requires
            self.wf(objects),
        ensures
            res == (has_id(self@, recording_id@) && can_unbind(
                objects@,
                numbers_of(self@, seq![recording_id@]),
            )),
            forall|i: int|
                0 <= i < self@.len() && (#[trigger] self@[i]).0 == recording_id@ ==> res
                    == objects@[self@[i].1 as int].newest is Some,
            (forall|i: int| 0 <= i < self@.len() ==> (#[trigger] self@[i]).0 != recording_id@)
                ==> !res,
    {
        let ghost numbers = numbers_of(self@, seq![recording_id@]);
        match self.index_of(recording_id) {
            Some(index) => match map_get_index(&self.list, index) {
                Some((_, number)) => {
                    proof {
                        assert(self@[index as int].1 == number);
                        assert(numbers.len() == 1 && numbers[0] == number);
                    }
                    objects.get(*number).is_bound()
                },
                None => false,
            },
            None => false,
        }
    }

    /// Takes the entries with these ids out of the list, one after another, and undoes the
    /// newest binding of each of their recordings.
    pub fn take(&mut self, objects: &mut RecordingObjects, ids: Vec<String>) -> (taken: Taken)
        requires
            old(self).wf(old(objects)),
            ids_view(ids@).no_duplicates(),
            forall|k: int|
                0 <= k < ids@.len() ==> has_id(old(self)@, #[trigger] ids_view(ids@)[k]),
            can_unbind(old(objects)@, numbers_of(old(self)@, ids_view(ids@))),
        ensures
            final(self).wf(final(objects)),
            final(self)@ == without(old(self)@, ids_view(ids@)),
            final(objects)@ == after_unbinding(
                old(objects)@,
                numbers_of(old(self)@, ids_view(ids@)),
            ),
            taken.ids == ids,
            taken.recordings@ == numbers_of(old(self)@, ids_view(ids@)),
            taken.items_changed@ == removals(old(self)@, ids_view(ids@)),
            final(self)@.len() == old(self)@.len() - ids@.len(),
            forall|i: int|
                0 <= i < old(self)@.len() ==> final(self)@.contains(#[trigger] old(self)@[i])
                    == !ids_view(ids@).contains(old(self)@[i].0),
            forall|i: int|
                0 <= i < final(self)@.len() ==> old(self)@.contains(#[trigger] final(self)@[i]),
            taken.recordings@.len() == ids@.len(),
            forall|k: int|
                0 <= k < ids@.len() ==> old(self)@.contains(
                    (ids@[k]@, #[trigger] taken.recordings@[k]),
                ),
            final(objects)@.len() == old(objects)@.len(),
            forall|i: int|
                0 <= i < old(objects)@.len() ==> {
                    &&& (#[trigger] final(objects)@[i]).data == old(objects)@[i].data
                    &&& final(objects)@[i].earlier == old(objects)@[i].earlier
                    &&& taken.recordings@.contains(i as usize) && i <= usize::MAX
                        ==> final(objects)@[i].newest is None
                    &&& !taken.recordings@.contains(i as usize) || i > usize::MAX
                        ==> final(objects)@[i].newest == old(objects)@[i].newest
                },
            taken.items_changed@.len() == ids@.len(),
            forall|k: int|
                0 <= k < ids@.len() ==> (#[trigger] taken.items_changed@[k]).removed == 1
                    && taken.items_changed@[k].added == 0,
    {
        let mut recordings: Vec<usize> = Vec::new();
        let mut items_changed: Vec<ItemsChanged> = Vec::new();
        let ghost s = self@;
        let ghost all = ids_view(ids@);
        let ghost numbers = numbers_of(s, all);
        let ghost bound = objects@;
        let mut i: usize = 0;
        proof {
            lemma_without_nothing(s);
            assert(all.take(0) =~= Seq::empty());
            assert(objects@ =~= after_unbinding(bound, numbers.take(0)));
        }
        while i < ids.len()
            invariant
                i <= ids@.len(),
                all == ids_view(ids@),
                numbers == numbers_of(s, all),
                list_wf(s, bound),
                all.no_duplicates(),
                forall|k: int| 0 <= k < ids@.len() ==> has_id(s, #[trigger] all[k]),
                can_unbind(bound, numbers),
                self@ == without(s, all.take(i as int)),
                list_wf(self@, bound),
                objects@ == after_unbinding(bound, numbers.take(i as int)),
                recordings@ == numbers.take(i as int),
                items_changed@ == removals(s, all).take(i as int),
            decreases ids@.len() - i,
        {
            let ghost before = (self@, objects@);
            proof {
                lemma_without_step(s, all, i as int);
            }
            match map_shift_remove_full(&mut self.list, ids[i].as_str()) {
                Some((index, _, number)) => {
                    proof {
                        assert(before.0[index as int] == (all[i as int], number));
                        lemma_index_of_id(before.0, index as int);
                        assert(number == numbers[i as int]);
                        let at = index_of_id(s, all[i as int]);
                        assert(s[at].0 == all[i as int]);
                        assert(number < bound.len());
                        assert(!among(numbers.take(i as int), number as int));
                        assert(objects@[number as int] == bound[number as int]);
                    }
                    unbind_recording_to_items_changed_and_db(objects.get_mut(number));
                    items_changed.push(
                        ItemsChanged { position: to_u32(index), removed: 1, added: 0 },
                    );
                    recordings.push(number);
                    proof {
                        assert(numbers.take(i + 1) =~= numbers.take(i as int).push(number));
                        assert(removals(s, all).take(i + 1) =~= removals(s, all).take(
                            i as int,
                        ).push(removals(s, all)[i as int]));
                        lemma_unbind_one_more(bound, numbers.take(i as int), number);
                        lemma_without_wf(s, bound, all.take(i + 1));
                    }
                },
                None => {
                    assert(false);
                },
            }
            i += 1;
        }
        proof {
            assert(all.take(ids@.len() as int) =~= all);
            assert(numbers.take(ids@.len() as int) =~= numbers);
            assert(removals(s, all).take(ids@.len() as int) =~= removals(s, all));
            law_taken(s, bound, all, self@, objects@, recordings@, items_changed@);
        }
        Taken { ids, recordings, items_changed }
    }

    /// Takes the entries for whose recordings the filter holds out of the list, in the order of
    /// the list, and undoes the newest binding of each of their recordings.
    ///
    /// This is [`Recordings::take`] of [`Recordings::ids_filtered`]; between the two,
    /// [`Recordings::take_writes`] of the ids is what the database has to be told.
    pub fn take_filtered(
        &mut self,
        objects: &mut RecordingObjects,
        filter_func: impl Fn(&Recording) -> bool,
    ) -> (taken: Taken)
        requires
            old(self).wf(old(objects)),
            can_ask(filter_func, old(self)@, old(objects).recordings()),
            forall|keep: Seq<bool>| #[trigger]
                answers(filter_func, old(self)@, old(objects).recordings(), keep) ==> can_unbind(
                    old(objects)@,
                    values(pick(old(self)@, places(keep, true))),
                ),
        ensures
            final(self).wf(final(objects)),
            exists|keep: Seq<bool>|
                {
                    &&& #[trigger] answers(
                        filter_func,
                        old(self)@,
                        old(objects).recordings(),
                        keep,
                    )
                    &&& final(self)@ == pick(old(self)@, places(keep, false))
                    &&& ids_view(taken.ids@) == kept_ids(old(self)@, keep)
                    &&& taken.recordings@ == values(pick(old(self)@, places(keep, true)))
                    &&& taken.recordings@.len() == places(keep, true).len()
                    &&& forall|k: int|
                        0 <= k < places(keep, true).len() ==> #[trigger] taken.recordings@[k]
                            == old(self)@[places(keep, true)[k]].1
                    &&& taken.ids@.len() == places(keep, true).len()
                    &&& forall|k: int|
                        0 <= k < places(keep, true).len() ==> (#[trigger] taken.ids@[k])@ == old(
                            self,
                        )@[places(keep, true)[k]].0
                    &&& final(self)@.len() == places(keep, false).len()
                    &&& forall|k: int|
                        0 <= k < places(keep, false).len() ==> #[trigger] final(self)@[k] == old(
                            self,
                        )@[places(keep, false)[k]]
                    &&& final(objects)@ == after_unbinding(old(objects)@, taken.recordings@)
                    &&& taken.items_changed@ == Seq::new(
                        places(keep, true).len(),
                        |k: int|
                            ItemsChanged {
                                position: in_32_bits(places(keep, true)[k] - k),
                                removed: 1,
                                added: 0,
                            },
                    )
                },
    {
        let to_take_ids = self.ids_filtered(objects, filter_func);
        let ghost s = self@;
        let ghost recordings = objects.recordings();
        let ghost keep = choose|keep: Seq<bool>|
            {
                &&& #[trigger] answers(filter_func, self@, objects.recordings(), keep)
                &&& ids_view(to_take_ids@) == kept_ids(self@, keep)
            };
        let ghost at = places(keep, true);
        let ghost all = kept_ids(s, keep);
        proof {
            lemma_without_kept(s, keep);
            assert(numbers_of(s, all) =~= values(pick(s, at))) by {
                assert(forall|k: int|
                    0 <= k < at.len() ==> index_of_id(s, #[trigger] all[k]) == at[k]);
            }
        }
        let taken = self.take(objects, to_take_ids);
        proof {
            assert(answers(filter_func, s, recordings, keep));
            assert(forall|k: int|
                0 <= k < taken.ids@.len() ==> (#[trigger] taken.ids@[k])@ == ids_view(
                    taken.ids@,
                )[k]);
            assert(taken.items_changed@ =~= Seq::new(
                at.len(),
                |k: int| ItemsChanged { position: in_32_bits(at[k] - k), removed: 1, added: 0 },
            )) by {
                assert(forall|k: int|
                    0 <= k < at.len() ==> index_of_id(without(s, all.take(k)), #[trigger] all[k])
                        == at[k] - k);
            }
        }
        taken
    }

    /// The handler of an entry, run when a recording that it is connected to has changed: what
    /// has to be done, in order.
    pub fn recording_notify(
        &self,
        objects: &RecordingObjects,
        recording_id: &str,
        recording: usize,
    ) -> (effects: Vec<Effect>)
        requires
            distinct_ids(self@),
            recording < objects@.len(),
            has_id(self@, recording_id@),
        ensures
            effects_view(effects@) == notify_effects(
                self@,
                recording_id@,
                objects@[recording as int].data,
            ),
            effects@.len() == 2,
            effects@[0] matches Effect::Commit(writes) && writes@.len() == 1 && (
            writes@[0] matches DbWrite::Put { id, recording: kept } && {
                &&& id@ == recording_id@
                &&& kept.bytes@ == objects@[recording as int].data.bytes
                &&& kept.recorded_time == objects@[recording as int].data.recorded_time
                &&& kept.recognize_result == objects@[recording as int].data.recognize_result
            }),
            effects@[1] matches Effect::ItemsChanged(change) && {
                &&& change.removed == 1
                &&& change.added == 1
                &&& forall|i: int|
                    0 <= i < self@.len() && i <= u32::MAX && (#[trigger] self@[i]).0
                        == recording_id@ ==> change.position == i
            },
    {
        let mut effects: Vec<Effect> = Vec::new();
        let writes = Self::insert_writes(objects, recording_id, recording);
        effects.push(Effect::Commit(writes));
        if let Some(index) = self.index_of(recording_id) {
            proof {
                law_in_32_bits(index as int);
            }
            effects.push(
                Effect::ItemsChanged(
                    ItemsChanged { position: to_u32(index), removed: 1, added: 1 },
                ),
            );
        }
        assert(effects_view(effects@) =~= notify_effects(
            self@,
            recording_id@,
            objects@[recording as int].data,
        ));
        effects
    }
}

/// Entries of which the values are kept beside them.
spec fn kept_view(entries: Seq<(Seq<char>, usize)>, kept: Seq<RecordingData>) -> Seq<
    (Seq<char>, RecordingDataView),
> {
    Seq::new(kept.len(), |i: int| (entries[i].0, kept[i]@))
}

proof fn lemma_kept_ids(entries: Seq<(Seq<char>, usize)>, kept: Seq<RecordingData>)
    requires
        distinct_ids(entries),
        entries.len() == kept.len(),
    ensures
        distinct_ids(kept_view(entries, kept)),
{
    let t = kept_view(entries, kept);
    assert forall|i: int, j: int|
        0 <= i < t.len() && 0 <= j < t.len() && #[trigger] t[i].0 == #[trigger] t[j].0 implies i
        == j by {
        assert(entries[i].0 == entries[j].0);
    }
}

/// Unbinding one more recording.
proof fn lemma_unbind_one_more(objects: Seq<RecordingView>, numbers: Seq<usize>, number: usize)
    requires
        number < objects.len(),
    ensures
        after_unbinding(objects, numbers).update(
            number as int,
            objects[number as int].unbound(),
        ) =~= after_unbinding(objects, numbers.push(number)),
{
    let more = numbers.push(number);
    assert forall|i: int| #[trigger] among(more, i) == (among(numbers, i) || i == number) by {
        if among(numbers, i) {
            let k = choose|k: int| 0 <= k < numbers.len() && #[trigger] numbers[k] == i;
            assert(more[k] == i);
        }
        if i == number {
            assert(more[numbers.len() as int] == i);
        }
        if among(more, i) && i != number {
            let k = choose|k: int| 0 <= k < more.len() && #[trigger] more[k] == i;
            assert(numbers[k] == i);
        }
    }
}

/// Taking out no id changes nothing.
pub proof fn lemma_without_nothing(s: Seq<(Seq<char>, usize)>)
    ensures
        without(s, Seq::empty()) == s,
{
    let p = |e: (Seq<char>, usize)| !Seq::<Seq<char>>::empty().contains(e.0);
    lemma_filter_all(s, p);
}

/// What is left after ids were taken out is a list as before.
pub proof fn lemma_without_wf(
    s: Seq<(Seq<char>, usize)>,
    objects: Seq<RecordingView>,
    ids: Seq<Seq<char>>,
)
    requires
        list_wf(s, objects),
    ensures
        list_wf(without(s, ids), objects),
{
    lemma_filter_entries(s, |e: (Seq<char>, usize)| !ids.contains(e.0));
    let t = without(s, ids);
    assert forall|i: int| 0 <= i < t.len() implies (#[trigger] t[i]).1 < objects.len() by {
        let j = index_of_id(s, t[i].0);
        assert(s[j] == t[i]);
    }
}

} // verus!
