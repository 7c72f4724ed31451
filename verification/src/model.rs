//! Songs, as plain values.

use vstd::prelude::*;

verus! {

/// A recognised song. A part that was not given is `None`.
#[derive(Debug, PartialEq, Eq)]
pub struct Song {
    pub id: Option<String>,
    pub title: String,
    pub artist: String,
    pub album: Option<String>,
    pub info_link: Option<String>,
}

/// The same text, or the same absence of one.
fn clone_text(text: &Option<String>) -> (res: Option<String>)
    ensures
        res == *text,
{
    match text {
        Some(t) => Some(t.clone()),
        None => None,
    }
}

impl Clone for Song {
    fn clone(&self) -> (res: Self)
        ensures
            res == *self,
    {
        Song {
            id: clone_text(&self.id),
            title: self.title.clone(),
            artist: self.artist.clone(),
            album: clone_text(&self.album),
            info_link: clone_text(&self.info_link),
        }
    }
}

} // verus!
