//! The database that recordings are kept in: how it is opened, and what is written to it.

use vstd::prelude::*;

use crate::recognizer::recording::{RecordingData, RecordingDataView};

verus! {

const N_NAMED_DB: u32 = 2;

pub const SONG_LIST_DB_NAME: &'static str = "song_list";

pub const RECORDINGS_DB_NAME: &'static str = "saved_recordings";

/// Where the environment lies below the directory of the user's data.
pub const ENV_DIR: &'static str = "mousai/db";

/// How a database environment is opened.
#[derive(Debug, PartialEq, Eq)]
pub struct EnvOptions {
    /// The size of the memory map, in bytes.
    pub map_size: usize,
    /// How many named databases the environment may hold.
    pub max_dbs: u32,
    /// Whether the memory map is writable.
    pub write_map: bool,
    /// Whether the memory map is flushed asynchronously.
    pub map_async: bool,
}

/// Why a database could not be read.
#[derive(Debug, PartialEq, Eq)]
pub struct DbError {
    pub message: String,
}

/// One write to the database of recordings.
#[derive(Debug, PartialEq, Eq)]
pub enum DbWrite {
    /// Keep `recording` under `id`, in place of what was there.
    Put { id: String, recording: RecordingData },
    /// Keep nothing under `id`.
    Delete { id: String },
}

/// The mathematical value of a [`DbWrite`].
pub enum DbWriteView {
    Put { id: Seq<char>, recording: RecordingDataView },
    Delete { id: Seq<char> },
}

impl View for DbWrite {
    type V = DbWriteView;

    open spec fn view(&self) -> DbWriteView {
        match self {
            DbWrite::Put { id, recording } => DbWriteView::Put {
                id: id@,
                recording: recording@,
            },
            DbWrite::Delete { id } => DbWriteView::Delete { id: id@ },
        }
    }
}

/// What writes are, each by its value.
pub open spec fn writes_view(writes: Seq<DbWrite>) -> Seq<DbWriteView> {
    writes.map_values(|w: DbWrite| w@)
}

/// What a database holds after a write.
pub open spec fn after_write(
    db: Map<Seq<char>, RecordingDataView>,
    write: DbWriteView,
) -> Map<Seq<char>, RecordingDataView> {
    match write {
        DbWriteView::Put { id, recording } => db.insert(id, recording),
        DbWriteView::Delete { id } => db.remove(id),
    }
}

/// What a database holds after a transaction.
pub open spec fn after_writes(
    db: Map<Seq<char>, RecordingDataView>,
    writes: Seq<DbWriteView>,
) -> Map<Seq<char>, RecordingDataView>
    decreases writes.len(),
{
    if writes.len() == 0 {
        db
    } else {
        after_write(after_writes(db, writes.drop_last()), writes.last())
    }
}

/// The environment lies in the directory of the application, and each of its databases has a name
/// of its own.
pub proof fn law_names()
    ensures
        ENV_DIR@ == "mousai/db"@,
        SONG_LIST_DB_NAME@ == "song_list"@,
        RECORDINGS_DB_NAME@ == "saved_recordings"@,
        SONG_LIST_DB_NAME@ != RECORDINGS_DB_NAME@,
{
    reveal_strlit("song_list");
    reveal_strlit("saved_recordings");
    assert("song_list"@.len() != "saved_recordings"@.len());
}

/// The options of the environment that the application opens: 100 MiB, and one named
/// database for the songs and one for the recordings.
pub fn env_options() -> (options: EnvOptions)
    ensures
        options == (EnvOptions {
            map_size: 104_857_600,
            max_dbs: 2,
            write_map: true,
            map_async: true,
        }),
{
    EnvOptions {
        map_size: 100 * 1024 * 1024,
        max_dbs: N_NAMED_DB,
        write_map: true,
        map_async: true,
    }
}

/// The options of an environment with one named database, for tests.
pub fn test_env_options() -> (options: EnvOptions)
    ensures
        options == (EnvOptions {
            map_size: 104_857_600,
            max_dbs: 1,
            write_map: true,
            map_async: true,
        }),
{
    EnvOptions { map_size: 100 * 1024 * 1024, max_dbs: 1, write_map: true, map_async: true }
}

} // verus!
