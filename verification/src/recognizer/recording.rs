//! One recording that waits to be recognised.

use vstd::prelude::*;

use super::provider::ProviderError;
use crate::model::Song;

verus! {

/// What a provider said of a recording.
#[derive(Debug, PartialEq, Eq)]
pub struct BoxedRecognizeResult(pub Result<Song, ProviderError>);

impl Clone for BoxedRecognizeResult {
    fn clone(&self) -> (res: Self)
        ensures
            res == *self,
    {
        match &self.0 {
            Ok(song) => BoxedRecognizeResult(Ok(song.clone())),
            Err(err) => BoxedRecognizeResult(Err(err.clone())),
        }
    }
}

/// What there is to keep of a recording: its audio, when it was made, and what came of
/// recognising it.
#[derive(Debug, PartialEq, Eq)]
pub struct RecordingData {
    pub bytes: Vec<u8>,
    pub recorded_time: String,
    pub recognize_result: Option<BoxedRecognizeResult>,
}

/// The mathematical value of a [`RecordingData`].
#[verifier::ext_equal]
pub struct RecordingDataView {
    pub bytes: Seq<u8>,
    pub recorded_time: String,
    pub recognize_result: Option<BoxedRecognizeResult>,
}

impl View for RecordingData {
    type V = RecordingDataView;

    open spec fn view(&self) -> RecordingDataView {
        RecordingDataView {
            bytes: self.bytes@,
            recorded_time: self.recorded_time,
            recognize_result: self.recognize_result,
        }
    }
}

impl Clone for RecordingData {
    fn clone(&self) -> (res: Self)
        ensures
            res@ == self@,
            res.bytes@ == self.bytes@,
            res.recorded_time == self.recorded_time,
            res.recognize_result == self.recognize_result,
    {
        let recognize_result = match &self.recognize_result {
            Some(result) => Some(result.clone()),
            None => None,
        };
        let res = RecordingData {
            bytes: self.bytes.clone(),
            recorded_time: self.recorded_time.clone(),
            recognize_result,
        };
        assert(res.bytes@ =~= self.bytes@);
        res
    }
}

/// A recording, with the handlers that have to hear of each change of it.
///
/// A handler stands for an entry of a list and is known by the id of that entry. The recording
/// remembers its newest handler, until that one is disconnected.
#[derive(Debug, PartialEq, Eq)]
pub struct Recording {
    data: RecordingData,
    /// The handlers that are connected but not remembered, oldest first.
    earlier: Vec<String>,
    /// The handler that is remembered. It is the newest.
    newest: Option<String>,
}

/// The mathematical value of a [`Recording`].
#[verifier::ext_equal]
pub struct RecordingView {
    pub data: RecordingDataView,
    pub earlier: Seq<Seq<char>>,
    pub newest: Option<Seq<char>>,
}

impl RecordingView {
    /// A recording that no list has to hear of.
    pub open spec fn free(data: RecordingDataView) -> RecordingView {
        RecordingView { data, earlier: Seq::empty(), newest: None }
    }

    /// The ids of all connected handlers, in the order in which they were connected.
    pub open spec fn handlers(self) -> Seq<Seq<char>> {
        match self.newest {
            Some(id) => self.earlier.push(id),
            None => self.earlier,
        }
    }

    /// The recording with one more handler, which it remembers.
    pub open spec fn bound(self, id: Seq<char>) -> RecordingView {
        RecordingView { earlier: self.handlers(), newest: Some(id), ..self }
    }

    /// The recording without the handler that it remembers.
    pub open spec fn unbound(self) -> RecordingView {
        RecordingView { newest: None, ..self }
    }

    /// The recording with another result.
    pub open spec fn with_result(self, result: Option<BoxedRecognizeResult>) -> RecordingView {
        RecordingView {
            data: RecordingDataView { recognize_result: result, ..self.data },
            ..self
        }
    }
}

impl View for Recording {
    type V = RecordingView;

    closed spec fn view(&self) -> RecordingView {
        RecordingView {
            data: self.data@,
            earlier: ids_view(self.earlier@),
            newest: match self.newest {
                Some(id) => Some(id@),
                None => None,
            },
        }
    }
}

/// Ids by their values.
pub open spec fn ids_view(ids: Seq<String>) -> Seq<Seq<char>> {
    ids.map_values(|id: String| id@)
}

impl Recording {
    /// A recording that has not been recognised yet and is in no list.
    pub fn new(bytes: Vec<u8>, recorded_time: String) -> (res: Self)
        ensures
            res@ == RecordingView::free(
                RecordingDataView { bytes: bytes@, recorded_time, recognize_result: None },
            ),
            res@.data.bytes == bytes@,
            res@.data.recorded_time == recorded_time,
            res@.data.recognize_result is None,
            res@.earlier.len() == 0,
            res@.newest is None,
    {
        Self::from_data(RecordingData { bytes, recorded_time, recognize_result: None })
    }

    /// The recording of which this was kept, in no list.
    pub fn from_data(data: RecordingData) -> (res: Self)
        ensures
            res@ == RecordingView::free(data@),
            res@.data.bytes == data.bytes@,
            res@.data.recorded_time == data.recorded_time,
            res@.data.recognize_result == data.recognize_result,
            res@.earlier.len() == 0,
            res@.newest is None,
    {
        let res = Recording { data, earlier: Vec::new(), newest: None };
        assert(ids_view(res.earlier@) =~= Seq::empty());
        res
    }

    /// What there is to keep of the recording.
    pub fn data(&self) -> (res: &RecordingData)
        ensures
            res@ == self@.data,
            res.bytes@ == self@.data.bytes,
            res.recorded_time == self@.data.recorded_time,
            res.recognize_result == self@.data.recognize_result,
    {
        &self.data
    }

    /// The recorded audio.
    pub fn bytes(&self) -> (res: &[u8])
        ensures
            res@ == self@.data.bytes,
    {
        self.data.bytes.as_slice()
    }

    /// What came of recognising the recording, if that was tried.
    pub fn recognize_result(&self) -> (res: Option<BoxedRecognizeResult>)
        ensures
            res == self@.data.recognize_result,
    {
        match &self.data.recognize_result {
            Some(result) => Some(result.clone()),
            None => None,
        }
    }

    /// The ids of the connected handlers, in the order in which they were connected.
    pub fn handlers(&self) -> (ids: Vec<String>)
        ensures
            ids_view(ids@) == self@.handlers(),
            forall|k: int|
                0 <= k < self@.earlier.len() ==> (#[trigger] ids@[k])@ == self@.earlier[k],
            self@.newest is None ==> ids@.len() == self@.earlier.len(),
            self@.newest is Some ==> ids@.len() == self@.earlier.len() + 1 && ids@.last()@
                == self@.newest->0,
    {
        let mut ids: Vec<String> = Vec::new();
        let mut i: usize = 0;
        while i < self.earlier.len()
            invariant
                i <= self.earlier@.len(),
                ids@ == self.earlier@.take(i as int),
            decreases self.earlier@.len() - i,
        {
            ids.push(self.earlier[i].clone());
            i += 1;
            assert(ids@ =~= self.earlier@.take(i as int));
        }
        assert(ids@ =~= self.earlier@);
        if let Some(id) = &self.newest {
            ids.push(id.clone());
        }
        assert(ids_view(ids@) =~= self@.handlers());
        assert(forall|k: int|
            0 <= k < self@.earlier.len() ==> #[trigger] ids_view(ids@)[k] == self@.earlier[k]);
        assert(forall|k: int| 0 <= k < ids@.len() ==> (#[trigger] ids@[k])@ == ids_view(ids@)[k]);
        ids
    }

    /// Whether the recording remembers a handler.
    pub(crate) fn is_bound(&self) -> (res: bool)
        ensures
            res == (self@.newest is Some),
    {
        self.newest.is_some()
    }

    /// Replaces the result. Returns the handlers that have to hear of it, in their order.
    pub fn set_recognize_result(&mut self, result: Option<BoxedRecognizeResult>) -> (ids: Vec<
        String,
    >)
        ensures
            final(self)@ == old(self)@.with_result(result),
            final(self)@.data.recognize_result == result,
            final(self)@.data.bytes == old(self)@.data.bytes,
            final(self)@.data.recorded_time == old(self)@.data.recorded_time,
            final(self)@.earlier == old(self)@.earlier,
            final(self)@.newest == old(self)@.newest,
            ids_view(ids@) == old(self)@.handlers(),
            forall|k: int|
                0 <= k < old(self)@.earlier.len() ==> (#[trigger] ids@[k])@ == old(
                    self,
                )@.earlier[k],
            old(self)@.newest is None ==> ids@.len() == old(self)@.earlier.len(),
            old(self)@.newest is Some ==> ids@.len() == old(self)@.earlier.len() + 1
                && ids@.last()@ == old(self)@.newest->0,
    {
        self.data.recognize_result = result;
        self.handlers()
    }

    /// Connects a handler and remembers it.
    pub(crate) fn connect_notify(&mut self, id: String)
        ensures
            final(self)@ == old(self)@.bound(id@),
            final(self)@.data == old(self)@.data,
            final(self)@.newest == Some(id@),
            old(self)@.newest is None ==> final(self)@.earlier == old(self)@.earlier,
            old(self)@.newest is Some ==> final(self)@.earlier == old(self)@.earlier.push(
                old(self)@.newest->0,
            ),
    {
        match self.newest.take() {
            Some(newest) => self.earlier.push(newest),
            None => {},
        }
        self.newest = Some(id);
        assert(ids_view(self.earlier@) =~= old(self)@.handlers());
    }

    /// Disconnects the handler that is remembered.
    pub(crate) fn disconnect_notify(&mut self)
        requires
            old(self)@.newest is Some,
        ensures
            final(self)@ == old(self)@.unbound(),
            final(self)@.data == old(self)@.data,
            final(self)@.newest is None,
            final(self)@.earlier == old(self)@.earlier,
    {
        self.newest = None;
    }
}

} // verus!
