use std::collections::BTreeMap;

use mousai::db::{DbError, DbWrite};
use mousai::model::Song;
use mousai::recognizer::objects::RecordingObjects;
use mousai::recognizer::provider::ProviderError;
use mousai::recognizer::recording::{BoxedRecognizeResult, Recording, RecordingData};
use mousai::recognizer::recordings::{
    bind_recording_to_items_changed_and_db, unbind_recording_to_items_changed_and_db, Effect,
    ItemsChanged, Recordings, Taken,
};

/// A list with a database beside it and an observer of its changes.
struct Fixture {
    objects: RecordingObjects,
    recordings: Recordings,
    db: BTreeMap<String, RecordingData>,
    calls: Vec<(u32, u32, u32)>,
    n_ids: u32,
}

fn new_test_data(bytes: &[u8]) -> RecordingData {
    RecordingData {
        bytes: bytes.to_vec(),
        recorded_time: String::from("2023-04-01T12:00:00+0000"),
        recognize_result: None,
    }
}

fn new_test_recording(bytes: &[u8]) -> Recording {
    Recording::new(bytes.to_vec(), String::from("2023-04-01T12:00:00+0000"))
}

fn new_test_song(id: &str) -> Song {
    Song {
        id: Some(id.to_string()),
        title: id.to_string(),
        artist: id.to_string(),
        album: Some(id.to_string()),
        info_link: None,
    }
}

fn recognized(id: &str) -> Option<BoxedRecognizeResult> {
    Some(BoxedRecognizeResult(Ok(new_test_song(id))))
}

fn load(
    objects: &mut RecordingObjects,
    items: Vec<Result<(String, RecordingData), DbError>>,
) -> Recordings {
    match Recordings::load_from_env(objects, items) {
        Ok(recordings) => recordings,
        Err(err) => panic!("{:?}", err),
    }
}

impl Fixture {
    fn load(db: BTreeMap<String, RecordingData>) -> Fixture {
        let items = db
            .iter()
            .map(|(id, data)| Ok((id.clone(), data.clone())))
            .collect();
        let mut objects = RecordingObjects::new();
        let recordings = load(&mut objects, items);
        Fixture {
            objects,
            recordings,
            db,
            calls: Vec::new(),
            n_ids: 0,
        }
    }

    fn new() -> Fixture {
        Fixture::load(BTreeMap::new())
    }

    fn commit(&mut self, writes: Vec<DbWrite>) {
        for write in writes {
            match write {
                DbWrite::Put { id, recording } => {
                    self.db.insert(id, recording);
                }
                DbWrite::Delete { id } => assert!(self.db.remove(&id).is_some()),
            }
        }
    }

    fn items_changed(&mut self, change: ItemsChanged) {
        self.calls
            .push((change.position, change.removed, change.added));
    }

    fn insert(&mut self, recording: Recording) -> usize {
        let number = self.objects.add(recording);
        self.insert_object(number);
        number
    }

    fn insert_object(&mut self, number: usize) {
        self.n_ids += 1;
        let id = format!("id-{}", self.n_ids);
        self.commit(Recordings::insert_writes(&self.objects, &id, number));
        let inserted = self.recordings.insert(&mut self.objects, id, number);
        assert!(!inserted.replaced);
        self.items_changed(inserted.items_changed);
    }

    fn take_filtered(&mut self, filter_func: impl Fn(&Recording) -> bool) -> Vec<usize> {
        let taken = self.recordings.take_filtered(&mut self.objects, filter_func);
        self.commit(Recordings::take_writes(&taken.ids));
        for change in taken.items_changed {
            self.items_changed(change);
        }
        taken.recordings
    }

    fn peek_filtered(&self, filter_func: impl Fn(&Recording) -> bool) -> Vec<usize> {
        self.recordings.peek_filtered(&self.objects, filter_func)
    }

    /// Changes a recording, and runs the handlers that have to hear of it.
    fn set_recognize_result(&mut self, number: usize, result: Option<BoxedRecognizeResult>) {
        for id in self.objects.set_recognize_result(number, result) {
            let effects = self
                .recordings
                .recording_notify(&self.objects, &id, number);
            for effect in effects {
                match effect {
                    Effect::Commit(writes) => self.commit(writes),
                    Effect::ItemsChanged(change) => self.items_changed(change),
                }
            }
        }
    }

    fn recording(&self, number: usize) -> &Recording {
        self.objects.get(number)
    }

    fn item(&self, position: u32) -> &Recording {
        self.recording(self.recordings.item(position).unwrap())
    }

    fn items(&self) -> Vec<usize> {
        (0..self.recordings.n_items())
            .map(|i| self.recordings.item(i).unwrap())
            .collect()
    }

    /// The ids of the entries with what there is to keep of their recordings.
    fn entries(&self) -> Vec<(String, RecordingData)> {
        let ids = self.recordings.ids_filtered(&self.objects, |_| true);
        let data = self.items().into_iter().map(|n| self.recording(n).data().clone());
        ids.into_iter().zip(data).collect()
    }

    fn take_calls(&mut self) -> Vec<(u32, u32, u32)> {
        std::mem::take(&mut self.calls)
    }
}

fn assert_n_items_and_db_count_eq(f: &Fixture, n: usize) {
    assert_eq!(f.recordings.n_items(), n as u32);
    assert_eq!(f.db.len(), n);
}

fn assert_items_in_db(f: &Fixture) {
    for (id, data) in f.entries() {
        assert_eq!(f.db[&id], data);
    }
}

/// Must have exactly 2 recordings
fn assert_synced_to_db(f: &mut Fixture) {
    assert_n_items_and_db_count_eq(f, 2);

    // The items are synced to the database
    assert!(f.db.values().all(|r| r.recognize_result.is_none()));
    assert_items_in_db(f);

    let first = f.recordings.item(0).unwrap();
    f.set_recognize_result(first, recognized("a"));
    assert_n_items_and_db_count_eq(f, 2);

    // The items are synced to the database even after the recording is modified
    assert_items_in_db(f);
    assert_eq!(f.item(0).recognize_result(), recognized("a"));

    let second = f.recordings.item(1).unwrap();
    f.set_recognize_result(second, recognized("b"));
    assert_n_items_and_db_count_eq(f, 2);

    assert!(f.db.values().all(|r| r.recognize_result.is_some()));
    assert_items_in_db(f);

    for number in f.items() {
        f.set_recognize_result(number, None);
    }
    assert!(f.db.values().all(|r| r.recognize_result.is_none()));
}

#[test]
fn load_from_db() {
    let mut db = BTreeMap::new();
    db.insert(String::from("a"), new_test_data(b"A"));
    db.insert(String::from("b"), new_test_data(b"B"));

    let mut f = Fixture::load(db);

    let items = f.peek_filtered(|_| true);
    assert!(items.iter().any(|i| f.recording(*i).bytes() == b"A"));
    assert!(items.iter().any(|i| f.recording(*i).bytes() == b"A"));
    assert!(items.iter().any(|i| f.recording(*i).bytes() == b"B"));

    assert_n_items_and_db_count_eq(&f, 2);
    assert_synced_to_db(&mut f);
}

#[test]
fn insert() {
    let mut f = Fixture::new();
    assert_n_items_and_db_count_eq(&f, 0);

    f.insert(new_test_recording(b"a"));
    assert_n_items_and_db_count_eq(&f, 1);
    assert_eq!(f.item(0).bytes(), b"a");

    f.insert(new_test_recording(b"b"));
    assert_n_items_and_db_count_eq(&f, 2);
    assert_eq!(f.item(1).bytes(), b"b");

    assert_synced_to_db(&mut f);
}

#[test]
fn insert_items_changed() {
    let mut f = Fixture::new();

    f.insert(new_test_recording(b"a"));

    let calls = f.take_calls();
    assert_eq!(calls.len(), 1);
    let (index, removed, added) = calls[0];
    assert_eq!(index, 0);
    assert_eq!(removed, 0);
    assert_eq!(added, 1);
}

#[test]
fn peek_filtered() {
    let mut f = Fixture::new();
    assert_n_items_and_db_count_eq(&f, 0);

    assert!(f.peek_filtered(|_| false).is_empty());
    assert!(f.peek_filtered(|_| true).is_empty());
    assert!(f.peek_filtered(|r| r.bytes() == b"a").is_empty());

    f.insert(new_test_recording(b"a"));
    assert!(f.peek_filtered(|_| false).is_empty());
    assert_eq!(f.peek_filtered(|_| true).len(), 1);
    assert_eq!(f.peek_filtered(|r| r.bytes() == b"a").len(), 1);
    assert_n_items_and_db_count_eq(&f, 1);

    f.insert(new_test_recording(b"b"));
    assert!(f.peek_filtered(|_| false).is_empty());
    assert_eq!(f.peek_filtered(|_| true).len(), 2);
    assert_eq!(f.peek_filtered(|r| r.bytes() == b"a").len(), 1);
    assert_n_items_and_db_count_eq(&f, 2);
}

#[test]
fn peek_filtered_items_changed() {
    let mut f = Fixture::new();

    f.peek_filtered(|_| true);
    f.peek_filtered(|_| false);
    assert!(f.take_calls().is_empty());

    f.insert(new_test_recording(b"a"));
    f.take_calls();

    let before = f.items();
    f.peek_filtered(|_| true);
    f.peek_filtered(|_| false);
    assert!(
        f.take_calls().is_empty() && f.items() == before,
        "Recordings::items_changed should not be emitted when peek_filtered is called"
    );
}

#[test]
fn take_filtered() {
    let mut f = Fixture::new();

    assert_n_items_and_db_count_eq(&f, 0);
    assert!(f.take_filtered(|_| false).is_empty());
    assert!(f.take_filtered(|_| true).is_empty());
    assert!(f.take_filtered(|r| r.bytes() == b"a").is_empty());

    f.insert(new_test_recording(b"a"));
    assert_n_items_and_db_count_eq(&f, 1);
    assert!(f.take_filtered(|_| false).is_empty());
    assert_n_items_and_db_count_eq(&f, 1);
    assert_eq!(f.take_filtered(|_| true).len(), 1);
    assert_n_items_and_db_count_eq(&f, 0);

    f.insert(new_test_recording(b"a"));
    f.insert(new_test_recording(b"b"));
    assert_n_items_and_db_count_eq(&f, 2);
    assert!(f.take_filtered(|_| false).is_empty());
    assert_n_items_and_db_count_eq(&f, 2);

    let taken = f.take_filtered(|_| true);
    assert_eq!(taken.len(), 2);
    assert_n_items_and_db_count_eq(&f, 0);

    // Ensure that the removed recordings is not added back to the database
    for number in taken {
        assert!(f.recording(number).recognize_result().is_none());
        f.set_recognize_result(number, recognized("a"));
    }
    assert_n_items_and_db_count_eq(&f, 0);

    f.insert(new_test_recording(b"a"));
    f.insert(new_test_recording(b"b"));
    assert_eq!(f.take_filtered(|r| r.bytes() == b"a").len(), 1);
    assert_n_items_and_db_count_eq(&f, 1);
    assert_eq!(f.item(0).bytes(), b"b");
}

#[test]
fn take_filtered_items_changed() {
    let mut f = Fixture::new();
    f.insert(new_test_recording(b"a"));
    f.insert(new_test_recording(b"b"));
    f.take_calls();

    f.take_filtered(|_| false);
    assert!(f.take_calls().is_empty());

    f.take_filtered(|_| true);
    assert_eq!(f.take_calls(), vec![(0, 1, 0), (0, 1, 0)]);

    f.insert(new_test_recording(b"a"));
    f.insert(new_test_recording(b"b"));
    f.take_calls();

    f.take_filtered(|r| r.bytes() == b"a");
    assert_eq!(f.take_calls(), vec![(0, 1, 0)]);
}

#[test]
fn recording_notify_items_changed() {
    let mut f = Fixture::new();

    f.insert(new_test_recording(b"a"));
    f.insert(new_test_recording(b"b"));
    f.take_calls();

    let recording_a = f.recordings.item(0).unwrap();
    assert_eq!(f.recording(recording_a).bytes(), b"a");
    f.set_recognize_result(recording_a, recognized("a"));
    assert_eq!(f.take_calls(), vec![(0, 1, 1)]);

    let recording_b = f.recordings.item(1).unwrap();
    assert_eq!(f.recording(recording_b).bytes(), b"b");
    f.set_recognize_result(recording_b, recognized("a"));
    assert_eq!(f.take_calls(), vec![(1, 1, 1)]);
}

#[test]
fn is_empty() {
    let mut f = Fixture::new();

    assert!(f.recordings.is_empty());
    assert_n_items_and_db_count_eq(&f, 0);

    f.insert(new_test_recording(b"a"));
    assert!(!f.recordings.is_empty());
    assert_n_items_and_db_count_eq(&f, 1);
}

#[test]
fn loading_keeps_the_order_read_and_binds_each_recording() {
    let items = vec![
        Ok((String::from("z"), new_test_data(b"1"))),
        Ok((String::from("a"), new_test_data(b"2"))),
        Ok((String::from("m"), new_test_data(b"3"))),
    ];
    let mut objects = RecordingObjects::new();
    assert_eq!(objects.add(new_test_recording(b"other")), 0);
    let recordings = load(&mut objects, items);
    assert_eq!(recordings.peek_filtered(&objects, |_| true), vec![1, 2, 3]);
    assert_eq!(
        recordings.ids_filtered(&objects, |_| true),
        vec!["z", "a", "m"]
    );
    for (number, id) in [(1, "z"), (2, "a"), (3, "m")] {
        assert_eq!(objects.get(number).handlers(), vec![id]);
    }
    assert!(objects.get(0).handlers().is_empty());
    assert_eq!(objects.get(3).data(), &new_test_data(b"3"));
    assert_eq!(recordings.item(2), Some(3));
    assert_eq!(recordings.item(3), None);
}

#[test]
fn loading_an_id_twice_keeps_its_place_and_the_later_recording() {
    let items = vec![
        Ok((String::from("x"), new_test_data(b"old"))),
        Ok((String::from("y"), new_test_data(b"y"))),
        Ok((String::from("x"), new_test_data(b"new"))),
    ];
    let mut objects = RecordingObjects::new();
    let recordings = load(&mut objects, items);
    assert_eq!(recordings.n_items(), 2);
    assert_eq!(objects.get(recordings.item(0).unwrap()).bytes(), b"new");
    assert_eq!(objects.get(recordings.item(1).unwrap()).bytes(), b"y");
}

#[test]
fn loading_fails_with_the_first_error() {
    let error = |message: &str| DbError {
        message: message.to_string(),
    };
    let items = vec![
        Ok((String::from("x"), new_test_data(b"x"))),
        Err(error("first")),
        Ok((String::from("y"), new_test_data(b"y"))),
        Err(error("second")),
    ];
    let mut objects = RecordingObjects::new();
    match Recordings::load_from_env(&mut objects, items) {
        Ok(_) => panic!("loaded"),
        Err(err) => assert_eq!(err, error("first")),
    }
    assert_eq!(objects, RecordingObjects::new());
}

#[test]
fn a_list_loaded_again_has_the_same_entries() {
    let mut f = Fixture::new();
    for bytes in [b"c", b"a", b"b"] {
        f.insert(new_test_recording(bytes));
    }
    f.take_filtered(|r| r.bytes() == b"a");
    let last = f.recordings.item(1).unwrap();
    f.set_recognize_result(last, recognized("b"));
    let again = Fixture::load(f.db.clone());
    assert_eq!(again.entries(), f.entries());
    assert_eq!(again.entries().len(), 2);
    assert_eq!(again.item(1).recognize_result(), recognized("b"));
}

#[test]
fn inserting_under_an_id_in_use_replaces_in_place() {
    let mut f = Fixture::new();
    let replaced = f.insert(new_test_recording(b"a"));
    f.insert(new_test_recording(b"b"));
    let number = f.objects.add(new_test_recording(b"c"));
    let inserted = f
        .recordings
        .insert(&mut f.objects, String::from("id-1"), number);
    assert!(inserted.replaced);
    assert_eq!(
        inserted.items_changed,
        ItemsChanged {
            position: 0,
            removed: 0,
            added: 1
        }
    );
    assert_eq!(f.recordings.n_items(), 2);
    assert_eq!(f.item(0).bytes(), b"c");
    assert_eq!(f.recording(number).handlers(), vec!["id-1"]);
    assert_eq!(f.recording(replaced).handlers(), vec!["id-1"]);
}

#[test]
fn writes_name_the_ids() {
    let mut objects = RecordingObjects::new();
    let number = objects.add(new_test_recording(b"a"));
    assert_eq!(
        Recordings::insert_writes(&objects, "id", number),
        vec![DbWrite::Put {
            id: String::from("id"),
            recording: new_test_data(b"a"),
        }]
    );
    assert_eq!(
        Recordings::take_writes(&vec![String::from("x"), String::from("y")]),
        vec![
            DbWrite::Delete {
                id: String::from("x")
            },
            DbWrite::Delete {
                id: String::from("y")
            },
        ]
    );
}

#[test]
fn a_change_is_written_before_it_is_told() {
    let mut f = Fixture::new();
    f.insert(new_test_recording(b"a"));
    let number = f.insert(new_test_recording(b"b"));
    assert_eq!(
        f.objects.set_recognize_result(number, recognized("b")),
        vec!["id-2"]
    );
    assert_eq!(
        f.recordings.recording_notify(&f.objects, "id-2", number),
        vec![
            Effect::Commit(vec![DbWrite::Put {
                id: String::from("id-2"),
                recording: RecordingData {
                    recognize_result: recognized("b"),
                    ..new_test_data(b"b")
                },
            }]),
            Effect::ItemsChanged(ItemsChanged {
                position: 1,
                removed: 1,
                added: 1
            }),
        ]
    );
}

#[test]
fn a_recording_that_is_listed_twice_is_heard_of_twice() {
    let mut f = Fixture::new();
    let number = f.insert(new_test_recording(b"a"));
    f.insert_object(number);
    assert_eq!(f.items(), vec![number, number]);
    assert_n_items_and_db_count_eq(&f, 2);
    f.take_calls();

    f.set_recognize_result(number, recognized("a"));
    assert_eq!(f.take_calls(), vec![(0, 1, 1), (1, 1, 1)]);
    assert_eq!(f.db["id-1"].recognize_result, recognized("a"));
    assert_eq!(f.db["id-2"].recognize_result, recognized("a"));
    assert_items_in_db(&f);
}

#[test]
fn taking_one_of_two_entries_undoes_the_newest_binding() {
    let mut f = Fixture::new();
    let number = f.insert(new_test_recording(b"a"));
    f.insert_object(number);
    assert!(f.recordings.can_take(&f.objects, "id-2"));
    let taken = f.recordings.take(&mut f.objects, vec![String::from("id-2")]);
    assert_eq!(taken.recordings, vec![number]);
    assert!(!f.recordings.can_take(&f.objects, "id-2"));
    assert!(!f.recordings.can_take(&f.objects, "id-1"));
    assert_eq!(f.recording(number).handlers(), vec!["id-1"]);
    f.take_calls();

    f.set_recognize_result(number, recognized("a"));
    assert_eq!(f.take_calls(), vec![(0, 1, 1)]);
    assert_eq!(f.db["id-1"].recognize_result, recognized("a"));
    assert_eq!(f.db["id-2"].recognize_result, None);
}

#[test]
fn a_recording_can_be_taken_and_inserted_again() {
    let mut f = Fixture::new();
    let number = f.insert(new_test_recording(b"a"));
    f.insert(new_test_recording(b"b"));
    assert_eq!(f.take_filtered(|r| r.bytes() == b"a"), vec![number]);
    assert!(f.recording(number).handlers().is_empty());
    f.insert_object(number);
    assert_eq!(f.recording(number).handlers(), vec!["id-3"]);
    f.take_calls();

    f.set_recognize_result(number, recognized("a"));
    assert_eq!(f.take_calls(), vec![(1, 1, 1)]);
    assert_eq!(f.db.len(), 2);
    assert_items_in_db(&f);
}

#[test]
fn a_later_recording_under_a_freed_id_is_not_touched_by_the_earlier_one() {
    let mut f = Fixture::new();
    let earlier = f.insert(new_test_recording(b"a"));
    f.take_filtered(|_| true);
    f.n_ids = 0;
    let later = f.insert(new_test_recording(b"b"));
    f.take_calls();

    f.set_recognize_result(earlier, recognized("a"));
    assert!(f.take_calls().is_empty());
    assert_eq!(f.db["id-1"], new_test_data(b"b"));
    assert_eq!(f.recording(later).recognize_result(), None);
}

#[test]
fn unbinding_undoes_binding() {
    let mut recording = new_test_recording(b"a");
    bind_recording_to_items_changed_and_db("x", &mut recording);
    bind_recording_to_items_changed_and_db("y", &mut recording);
    assert_eq!(recording.set_recognize_result(recognized("a")), vec!["x", "y"]);
    unbind_recording_to_items_changed_and_db(&mut recording);
    assert_eq!(recording.set_recognize_result(None), vec!["x"]);
    bind_recording_to_items_changed_and_db("z", &mut recording);
    assert_eq!(recording.handlers(), vec!["x", "z"]);
    unbind_recording_to_items_changed_and_db(&mut recording);
    assert_eq!(recording.handlers(), vec!["x"]);
    assert_eq!(recording.data(), &new_test_data(b"a"));
}

#[test]
fn taking_every_other_recording_tells_the_places_as_they_move_up() {
    let mut f = Fixture::new();
    for bytes in [b"0", b"1", b"2", b"3", b"4"] {
        f.insert(new_test_recording(bytes));
    }
    let odd = |r: &Recording| r.bytes() == b"1" || r.bytes() == b"3" || r.bytes() == b"4";
    let peeked = f.peek_filtered(odd);
    f.take_calls();
    let taken = f.take_filtered(odd);
    assert_eq!(f.take_calls(), vec![(1, 1, 0), (2, 1, 0), (2, 1, 0)]);
    assert_eq!(taken, peeked);
    assert_eq!(taken, vec![1, 3, 4]);
    assert_eq!(f.items(), vec![0, 2]);
    assert!(f.recording(1).handlers().is_empty());
    assert_eq!(f.recording(2).handlers(), vec!["id-3"]);
    assert!(f.peek_filtered(odd).is_empty());
    assert!(f.take_filtered(odd).is_empty());
}

#[test]
fn a_take_is_a_plan_and_its_execution() {
    let mut f = Fixture::new();
    for bytes in [b"a", b"b", b"c"] {
        f.insert(new_test_recording(bytes));
    }
    let ids = f
        .recordings
        .ids_filtered(&f.objects, |r| r.bytes() != b"b");
    assert_eq!(ids, vec!["id-1", "id-3"]);
    let taken: Taken = f
        .recordings
        .take(&mut f.objects, vec![ids[1].clone(), ids[0].clone()]);
    assert_eq!(taken.ids, vec!["id-3", "id-1"]);
    assert_eq!(taken.recordings, vec![2, 0]);
    let places: Vec<u32> = taken.items_changed.iter().map(|c| c.position).collect();
    assert_eq!(places, vec![2, 0]);
    assert_eq!(f.item(0).bytes(), b"b");
}

#[test]
fn taking_one_at_a_time_comes_to_the_same() {
    let mut together = Fixture::new();
    let mut one_by_one = Fixture::new();
    for bytes in [b"a", b"b", b"c", b"d"] {
        together.insert(new_test_recording(bytes));
        one_by_one.insert(new_test_recording(bytes));
    }
    let ids = vec![String::from("id-2"), String::from("id-4"), String::from("id-1")];
    let taken = together.recordings.take(&mut together.objects, ids.clone());
    let mut changes = Vec::new();
    for id in ids {
        let one = one_by_one.recordings.take(&mut one_by_one.objects, vec![id]);
        changes.extend(one.items_changed);
    }
    assert_eq!(taken.items_changed, changes);
    assert_eq!(together.entries(), one_by_one.entries());
    assert_eq!(together.entries().len(), 1);
    assert_eq!(together.objects, one_by_one.objects);
}

#[test]
fn an_id_has_the_place_of_its_recording() {
    let mut f = Fixture::new();
    assert_eq!(f.recordings.index_of("id-1"), None);
    for bytes in [b"a", b"b", b"c"] {
        f.insert(new_test_recording(bytes));
    }
    assert_eq!(f.recordings.index_of("id-3"), Some(2));
    f.take_filtered(|r| r.bytes() == b"a");
    assert_eq!(f.recordings.index_of("id-1"), None);
    assert_eq!(f.recordings.index_of("id-3"), Some(1));
}

#[test]
fn taking_what_was_inserted_gives_back_the_list() {
    let mut f = Fixture::new();
    f.insert(new_test_recording(b"a"));
    let before = f.entries();
    let number = f.insert(new_test_recording(b"b"));
    f.recordings.take(&mut f.objects, vec![String::from("id-2")]);
    assert_eq!(f.entries(), before);
    assert_eq!(f.recording(number), &new_test_recording(b"b"));
}

#[test]
fn a_failed_recognition_is_kept_as_well() {
    let mut f = Fixture::new();
    let number = f.insert(new_test_recording(b"a"));
    let failed = Some(BoxedRecognizeResult(Err(ProviderError {
        message: String::from("no match"),
    })));
    f.set_recognize_result(number, failed.clone());
    assert_eq!(f.item(0).recognize_result(), failed);
    assert_eq!(f.db["id-1"].recognize_result, failed);
}
