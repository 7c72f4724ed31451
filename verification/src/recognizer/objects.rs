//! The recordings that there are.
//!
//! A recording is shared: lists and others refer to it, and all of them see a change of it. So
//! the recordings are held in one place, and whoever refers to one has its number.

use vstd::prelude::*;

use super::recording::{ids_view, BoxedRecognizeResult, Recording, RecordingView};

verus! {

/// All recordings, in or out of a list, by their numbers.
#[derive(Debug, PartialEq, Eq)]
pub struct RecordingObjects {
    objects: Vec<Recording>,
}

impl View for RecordingObjects {
    type V = Seq<RecordingView>;

    open spec fn view(&self) -> Seq<RecordingView> {
        self.recordings().map_values(|r: Recording| r@)
    }
}

impl RecordingObjects {
    /// The recordings by their numbers.
    pub closed spec fn recordings(&self) -> Seq<Recording> {
        self.objects@
    }

    /// No recordings.
    pub fn new() -> (res: Self)
        ensures
            res@ == Seq::<RecordingView>::empty(),
            res.recordings().len() == 0,
    {
        let res = RecordingObjects { objects: Vec::new() };
        assert(res@ =~= Seq::empty());
        res
    }

    /// One more recording. Returns its number.
    pub fn add(&mut self, recording: Recording) -> (number: usize)
        ensures
            number == old(self)@.len(),
            final(self)@ == old(self)@.push(recording@),
            final(self).recordings() == old(self).recordings().push(recording),
    {
        let number = self.objects.len();
        self.objects.push(recording);
        assert(self@ =~= old(self)@.push(recording@));
        number
    }

    /// The recording with this number.
    pub fn get(&self, number: usize) -> (res: &Recording)
        requires
            number < self@.len(),
        ensures
            *res == self.recordings()[number as int],
            res@ == self@[number as int],
    {
        &self.objects[number]
    }

    /// Access to the recording with this number.
    pub(crate) fn get_mut(&mut self, number: usize) -> (res: &mut Recording)
        requires
            number < old(self)@.len(),
        ensures
            res@ == old(self)@[number as int],
            final(self)@ == old(self)@.update(number as int, final(res)@),
    {
        &mut self.objects[number]
    }

    /// Replaces the result of a recording. Returns the handlers that have to hear of it, in
    /// their order; each is to be run by [`super::recordings::Recordings::recording_notify`] of
    /// the list that connected it.
    pub fn set_recognize_result(
        &mut self,
        number: usize,
        result: Option<BoxedRecognizeResult>,
    ) -> (ids: Vec<String>)
        requires
            number < old(self)@.len(),
        ensures
            final(self)@ == old(self)@.update(
                number as int,
                old(self)@[number as int].with_result(result),
            ),
            ids_view(ids@) == old(self)@[number as int].handlers(),
            final(self)@.len() == old(self)@.len(),
            forall|i: int|
                0 <= i < old(self)@.len() && i != number ==> #[trigger] final(self)@[i] == old(
                    self,
                )@[i],
            final(self)@[number as int].data.recognize_result == result,
            final(self)@[number as int].data.bytes == old(self)@[number as int].data.bytes,
            final(self)@[number as int].data.recorded_time == old(
                self,
            )@[number as int].data.recorded_time,
            final(self)@[number as int].earlier == old(self)@[number as int].earlier,
            final(self)@[number as int].newest == old(self)@[number as int].newest,
            forall|k: int|
                0 <= k < old(self)@[number as int].earlier.len() ==> (#[trigger] ids@[k])@ == old(
                    self,
                )@[number as int].earlier[k],
            old(self)@[number as int].newest is None ==> ids@.len() == old(
                self,
            )@[number as int].earlier.len(),
            old(self)@[number as int].newest is Some ==> ids@.len() == old(
                self,
            )@[number as int].earlier.len() + 1 && ids@.last()@ == old(
                self,
            )@[number as int].newest->0,
    {
        self.get_mut(number).set_recognize_result(result)
    }
}

} // verus!
