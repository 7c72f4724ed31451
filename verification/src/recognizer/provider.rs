//! What recognises a song.

use vstd::prelude::*;

use std::time::Duration;

use crate::model::Song;

verus! {

/// Why a recording could not be recognised.
#[derive(Debug, PartialEq, Eq)]
pub struct ProviderError {
    pub message: String,
}

impl Clone for ProviderError {
    fn clone(&self) -> (res: Self)
        ensures
            res == *self,
    {
        ProviderError { message: self.message.clone() }
    }
}

/// Recorded audio that is handed to a provider.
#[derive(Debug, PartialEq, Eq)]
pub struct AudioRecording {
    pub bytes: Vec<u8>,
}

/// A service that recognises songs.
pub trait Provider: core::fmt::Debug {
    /// The pending answer to [`Provider::recognize`]
    type Recognition<'a>: core::future::Future<Output = Result<Song, ProviderError>> where
        Self: 'a,
    ;

    /// Recognize a song from a recording
    fn recognize<'a>(&'a self, recording: &'a AudioRecording) -> Self::Recognition<'a>;

    /// How long to record the audio
    fn listen_duration(&self) -> Duration;

    /// Whether this supports a test mode
    fn is_test(&self) -> bool;
}

} // verus!
