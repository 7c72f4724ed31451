//! The main window: what it shows, and what it asks of the recogniser.
//!
//! The window holds plain values. Its operations return, as [`WindowAction`]s in order, what
//! has to be done to the widgets and to the recogniser. Texts are message ids, to be
//! translated when they are shown.

pub mod laws;

use vstd::prelude::*;

use crate::model::Song;

verus! {

/// The pages of the stack.
#[derive(Debug, Clone, Copy, PartialEq, Eq)]
pub enum StackPage {
    Main,
    Empty,
    Listening,
}

/// What has to be done for the window.
#[derive(Debug, PartialEq, Eq)]
pub enum WindowAction {
    /// Give the window a style class.
    AddCssClass(&'static str),
    /// Tell observers of the `is-listening` property. They may set it again.
    NotifyIsListening,
    /// Perform what [`Window::update_listen_button`] then returns.
    UpdateListenButton,
    /// Perform what [`Window::update_stack`] then returns.
    UpdateStack,
    /// Give the listen button a style class.
    AddButtonCssClass(&'static str),
    /// Take a style class off the listen button.
    RemoveButtonCssClass(&'static str),
    SetButtonLabel(&'static str),
    SetButtonTooltip(&'static str),
    SetVisibleChild(StackPage),
    SetDefaultSize { width: i32, height: i32 },
    Maximize,
    /// Let the history view show a new list of these songs, and hand the changes of that list
    /// to [`Window::history_items_changed`].
    SetHistoryModel(Vec<Song>),
    /// Tie the window to the recogniser: hand [`Window::set_is_listening`] whether the recogniser
    /// is listening, at once and again after each notified change of that.
    BindIsListening,
    /// Hand the end of the recogniser's listening to [`Window::on_listen_done`].
    ConnectListenDone,
    CancelRecognizer,
    /// Start listening, and hand the outcome to [`Window::on_listen_started`].
    StartRecognizer,
    /// Append to the list of the history view.
    AppendSong(Song),
    /// Show a modal error dialog.
    ShowError { text: &'static str, secondary_text: String },
}

/// A value that is written to the settings.
#[derive(Debug, PartialEq, Eq)]
pub enum SettingWrite {
    Int { key: &'static str, value: i32 },
    Boolean { key: &'static str, value: bool },
}

/// The size of a window, as the settings keep it.
#[derive(Debug, Clone, Copy, PartialEq, Eq)]
pub struct WindowSize {
    pub width: i32,
    pub height: i32,
    pub is_maximized: bool,
}

/// The state of the window.
#[derive(Debug, PartialEq, Eq)]
pub struct Window {
    is_listening: bool,
    history: Option<usize>,
}

/// The mathematical value of a [`Window`].
pub struct WindowView {
    pub is_listening: bool,
    /// How many songs the list of the history view has, if the view has a list.
    pub history: Option<nat>,
}

impl View for Window {
    type V = WindowView;

    closed spec fn view(&self) -> WindowView {
        WindowView {
            is_listening: self.is_listening,
            history: match self.history {
                Some(n) => Some(n as nat),
                None => None,
            },
        }
    }
}

/// The page that belongs to a state.
pub open spec fn page_of(window: WindowView) -> StackPage {
    if window.is_listening {
        StackPage::Listening
    } else if window.history is Some && window.history->0 > 0 {
        StackPage::Main
    } else {
        StackPage::Empty
    }
}

/// How the listen button is brought to show whether the window is listening.
pub open spec fn button_actions(is_listening: bool) -> Seq<WindowAction> {
    if is_listening {
        seq![
            WindowAction::RemoveButtonCssClass("suggested-action"),
            WindowAction::AddButtonCssClass("destructive-action"),
            WindowAction::SetButtonLabel("Cancel"),
            WindowAction::SetButtonTooltip("Start Identifying Music"),
        ]
    } else {
        seq![
            WindowAction::RemoveButtonCssClass("destructive-action"),
            WindowAction::AddButtonCssClass("suggested-action"),
            WindowAction::SetButtonLabel("Listen"),
            WindowAction::SetButtonTooltip("Cancel Listening"),
        ]
    }
}

/// How the window is brought to show that it is listening or not. What there is to show is found
/// out after observers were told, as they may set it again.
pub open spec fn listening_actions() -> Seq<WindowAction> {
    seq![
        WindowAction::NotifyIsListening,
        WindowAction::UpdateListenButton,
        WindowAction::UpdateStack,
    ]
}

/// How a window is given its size.
pub open spec fn size_actions(size: WindowSize) -> Seq<WindowAction> {
    let default_size = WindowAction::SetDefaultSize { width: size.width, height: size.height };
    if size.is_maximized {
        seq![default_size, WindowAction::Maximize]
    } else {
        seq![default_size]
    }
}

/// A window of a development build looks like one.
pub open spec fn profile_actions(profile: Seq<char>) -> Seq<WindowAction> {
    if profile == "Devel"@ {
        seq![WindowAction::AddCssClass("devel")]
    } else {
        seq![]
    }
}

/// How a window is constructed: its look, its size, its list of songs, and its ties to the
/// recogniser.
pub open spec fn construction_actions(
    profile: Seq<char>,
    size: WindowSize,
    songs: Vec<Song>,
) -> Seq<WindowAction> {
    profile_actions(profile) + size_actions(size) + seq![
        WindowAction::SetHistoryModel(songs),
        WindowAction::BindIsListening,
        WindowAction::ConnectListenDone,
    ]
}

/// A song of which only title, artist and link are known.
pub open spec fn is_song(song: Song, title: Seq<char>, artist: Seq<char>, link: Seq<char>) -> bool {
    &&& song.id is None
    &&& song.title@ == title
    &&& song.artist@ == artist
    &&& song.album is None
    &&& song.info_link is Some
    &&& song.info_link->0@ == link
}

/// The songs that the history view starts with.
pub open spec fn first_songs(songs: Seq<Song>) -> bool {
    &&& songs.len() == 2
    &&& is_song(songs[0], "A song"@, "Someone"@, "A link"@)
    &&& is_song(songs[1], "Another song"@, "Someone else"@, "Another link"@)
}

fn song(title: &str, artist: &str, link: &str) -> (song: Song)
    ensures
        is_song(song, title@, artist@, link@),
{
    Song {
        id: None,
        title: title.to_owned(),
        artist: artist.to_owned(),
        album: None,
        info_link: Some(link.to_owned()),
    }
}

impl Window {
    /// A window that is not listening and has a list of two songs, and what has to be done to
    /// construct it.
    pub fn new(profile: &str, size: WindowSize) -> (res: (Self, Vec<WindowAction>))
        ensures
            res.0@ == (WindowView { is_listening: false, history: Some(2) }),
            exists|songs: Vec<Song>|
                {
                    &&& #[trigger] first_songs(songs@)
                    &&& res.1@ == construction_actions(profile@, size, songs)
                },
            res.1@.len() == 4 + (if profile@ == "Devel"@ {
                1int
            } else {
                0
            }) + (if size.is_maximized {
                1int
            } else {
                0
            }),
            profile@ == "Devel"@ ==> res.1@[0] == WindowAction::AddCssClass("devel"),
            res.1@[if profile@ == "Devel"@ {
                1int
            } else {
                0
            }] == (WindowAction::SetDefaultSize { width: size.width, height: size.height }),
            size.is_maximized ==> res.1@[res.1@.len() - 4] == WindowAction::Maximize,
            res.1@[res.1@.len() - 3] matches WindowAction::SetHistoryModel(songs) && {
                &&& songs@.len() == 2
                &&& songs@[0].title@ == "A song"@
                &&& songs@[0].artist@ == "Someone"@
                &&& songs@[0].info_link is Some
                &&& songs@[0].info_link->0@ == "A link"@
                &&& songs@[1].title@ == "Another song"@
                &&& songs@[1].artist@ == "Someone else"@
                &&& songs@[1].info_link is Some
                &&& songs@[1].info_link->0@ == "Another link"@
                &&& forall|i: int|
                    0 <= i < 2 ==> (#[trigger] songs@[i]).id is None && songs@[i].album is None
            },
            res.1@[res.1@.len() - 2] == WindowAction::BindIsListening,
            res.1@[res.1@.len() - 1] == WindowAction::ConnectListenDone,
    {
        let mut window = Window { is_listening: false, history: None };
        let actions = window.constructed(profile, size);
        (window, actions)
    }

    /// What has to be done to construct the window: its look, its size, its list of songs, and
    /// its ties to the recogniser.
    fn constructed(&mut self, profile: &str, size: WindowSize) -> (actions: Vec<WindowAction>)
        ensures
            final(self)@ == (WindowView { history: Some(2), ..old(self)@ }),
            exists|songs: Vec<Song>|
                {
                    &&& #[trigger] first_songs(songs@)
                    &&& actions@ == construction_actions(profile@, size, songs)
                },
    {
        let mut actions: Vec<WindowAction> = Vec::new();
        if profile.to_owned() == "Devel".to_owned() {
            actions.push(WindowAction::AddCssClass("devel"));
        }
        assert(actions@ =~= profile_actions(profile@));
        let mut sizing = Self::load_window_size(size);
        actions.append(&mut sizing);
        let songs = self.setup_history_view();
        actions.push(WindowAction::SetHistoryModel(songs));
        let mut ties = Self::setup_recognizer();
        actions.append(&mut ties);
        proof {
            assert(first_songs(songs@));
            assert(actions@ =~= construction_actions(profile@, size, songs));
        }
        actions
    }

    /// Makes the window listen, or not, and returns how it is brought to show it.
    pub fn set_is_listening(&mut self, is_listening: bool) -> (actions: Vec<WindowAction>)
        ensures
            final(self)@ == (WindowView { is_listening, ..old(self)@ }),
            actions@ == listening_actions(),
            actions@.len() == 3,
            actions@[0] == WindowAction::NotifyIsListening,
            actions@[1] == WindowAction::UpdateListenButton,
            actions@[2] == WindowAction::UpdateStack,
    {
        self.is_listening = is_listening;
        let mut actions: Vec<WindowAction> = Vec::new();
        actions.push(WindowAction::NotifyIsListening);
        actions.push(WindowAction::UpdateListenButton);
        actions.push(WindowAction::UpdateStack);
        actions
    }

    /// Whether the window is listening.
    pub fn is_listening(&self) -> (res: bool)
        ensures
            res == self@.is_listening,
    {
        self.is_listening
    }

    /// The toggle-listen action: a recogniser that is listening is cancelled, another is
    /// started.
    pub fn on_toggle_listen(recognizer_is_listening: bool) -> (action: WindowAction)
        ensures
            action == if recognizer_is_listening {
                WindowAction::CancelRecognizer
            } else {
                WindowAction::StartRecognizer
            },
    {
        if recognizer_is_listening {
            WindowAction::CancelRecognizer
        } else {
            WindowAction::StartRecognizer
        }
    }

    /// What follows from trying to start the recogniser: an error is shown.
    pub fn on_listen_started(outcome: Result<(), String>) -> (action: Option<WindowAction>)
        ensures
            action == match outcome {
                Ok(_) => None,
                Err(err) => Some(
                    WindowAction::ShowError {
                        text: "Failed to start recording",
                        secondary_text: err,
                    },
                ),
            },
    {
        match outcome {
            Ok(_) => None,
            Err(err) => Some(
                WindowAction::ShowError { text: "Failed to start recording", secondary_text: err },
            ),
        }
    }

    /// What follows from the end of listening: the song goes to the history, or an error is
    /// shown. Only a history view with a list can take a song.
    pub fn on_listen_done(&self, outcome: Result<Song, String>) -> (action: WindowAction)
        requires
            outcome is Ok ==> self@.history is Some,
        ensures
            action == match outcome {
                Ok(song) => WindowAction::AppendSong(song),
                Err(err) => WindowAction::ShowError {
                    text: "Something went wrong",
                    secondary_text: err,
                },
            },
    {
        match outcome {
            Ok(song) => WindowAction::AppendSong(song),
            Err(err) => WindowAction::ShowError {
                text: "Something went wrong",
                secondary_text: err,
            },
        }
    }

    /// Takes note that the list of the history view has now this many songs.
    pub fn history_items_changed(&mut self, n_items: usize) -> (action: WindowAction)
        ensures
            final(self)@ == (WindowView { history: Some(n_items as nat), ..old(self)@ }),
            action == WindowAction::SetVisibleChild(page_of(final(self)@)),
            old(self)@.is_listening ==> action == WindowAction::SetVisibleChild(
                StackPage::Listening,
            ),
            !old(self)@.is_listening && n_items == 0 ==> action == WindowAction::SetVisibleChild(
                StackPage::Empty,
            ),
            !old(self)@.is_listening && n_items > 0 ==> action == WindowAction::SetVisibleChild(
                StackPage::Main,
            ),
    {
        self.history = Some(n_items);
        self.update_stack()
    }

    /// Brings the listen button in line with the state.
    pub fn update_listen_button(&self) -> (actions: Vec<WindowAction>)
        ensures
            actions@ == button_actions(self@.is_listening),
            actions@.len() == 4,
            self@.is_listening ==> {
                &&& actions@[0] == WindowAction::RemoveButtonCssClass("suggested-action")
                &&& actions@[1] == WindowAction::AddButtonCssClass("destructive-action")
                &&& actions@[2] == WindowAction::SetButtonLabel("Cancel")
                &&& actions@[3] == WindowAction::SetButtonTooltip("Start Identifying Music")
            },
            !self@.is_listening ==> {
                &&& actions@[0] == WindowAction::RemoveButtonCssClass("destructive-action")
                &&& actions@[1] == WindowAction::AddButtonCssClass("suggested-action")
                &&& actions@[2] == WindowAction::SetButtonLabel("Listen")
                &&& actions@[3] == WindowAction::SetButtonTooltip("Cancel Listening")
            },
    {
        let mut actions: Vec<WindowAction> = Vec::new();
        if self.is_listening() {
            actions.push(WindowAction::RemoveButtonCssClass("suggested-action"));
            actions.push(WindowAction::AddButtonCssClass("destructive-action"));
            actions.push(WindowAction::SetButtonLabel("Cancel"));
            actions.push(WindowAction::SetButtonTooltip("Start Identifying Music"));
        } else {
            actions.push(WindowAction::RemoveButtonCssClass("destructive-action"));
            actions.push(WindowAction::AddButtonCssClass("suggested-action"));
            actions.push(WindowAction::SetButtonLabel("Listen"));
            actions.push(WindowAction::SetButtonTooltip("Cancel Listening"));
        }
        assert(actions@ =~= button_actions(self@.is_listening));
        actions
    }

    /// Brings the stack in line with the state.
    pub fn update_stack(&self) -> (action: WindowAction)
        ensures
            action == WindowAction::SetVisibleChild(page_of(self@)),
            self@.is_listening ==> action == WindowAction::SetVisibleChild(StackPage::Listening),
            !self@.is_listening && self@.history is None ==> action
                == WindowAction::SetVisibleChild(StackPage::Empty),
            !self@.is_listening && self@.history is Some && self@.history->0 == 0 ==> action
                == WindowAction::SetVisibleChild(StackPage::Empty),
            !self@.is_listening && self@.history is Some && self@.history->0 > 0 ==> action
                == WindowAction::SetVisibleChild(StackPage::Main),
    {
        if self.is_listening() {
            return WindowAction::SetVisibleChild(StackPage::Listening);
        }
        match self.history {
            Some(n_items) => {
                if n_items == 0 {
                    WindowAction::SetVisibleChild(StackPage::Empty)
                } else {
                    WindowAction::SetVisibleChild(StackPage::Main)
                }
            },
            None => WindowAction::SetVisibleChild(StackPage::Empty),
        }
    }

    /// What is written to the settings when the window closes, in this order; the first write
    /// that fails is the last.
    pub fn save_window_size(size: WindowSize) -> (writes: Vec<SettingWrite>)
        ensures
            writes@ == seq![
                SettingWrite::Int { key: "window-width", value: size.width },
                SettingWrite::Int { key: "window-height", value: size.height },
                SettingWrite::Boolean { key: "is-maximized", value: size.is_maximized },
            ],
    {
        let mut writes: Vec<SettingWrite> = Vec::new();
        writes.push(SettingWrite::Int { key: "window-width", value: size.width });
        writes.push(SettingWrite::Int { key: "window-height", value: size.height });
        writes.push(SettingWrite::Boolean { key: "is-maximized", value: size.is_maximized });
        writes
    }

    /// Gives the window the size that the settings keep.
    pub fn load_window_size(size: WindowSize) -> (actions: Vec<WindowAction>)
        ensures
            actions@ == size_actions(size),
            actions@[0] == (WindowAction::SetDefaultSize {
                width: size.width,
                height: size.height,
            }),
            size.is_maximized ==> actions@.len() == 2 && actions@[1] == WindowAction::Maximize,
            !size.is_maximized ==> actions@.len() == 1,
    {
        let mut actions: Vec<WindowAction> = Vec::new();
        actions.push(WindowAction::SetDefaultSize { width: size.width, height: size.height });
        if size.is_maximized {
            actions.push(WindowAction::Maximize);
        }
        assert(actions@ =~= size_actions(size));
        actions
    }

    /// Gives the history view its list, and returns the songs that the list starts with.
    fn setup_history_view(&mut self) -> (songs: Vec<Song>)
        ensures
            final(self)@ == (WindowView { history: Some(2), ..old(self)@ }),
            first_songs(songs@),
    {
        let mut songs: Vec<Song> = Vec::new();
        songs.push(song("A song", "Someone", "A link"));
        songs.push(song("Another song", "Someone else", "Another link"));
        self.history = Some(songs.len());
        songs
    }

    /// Ties the window to the recogniser.
    fn setup_recognizer() -> (actions: Vec<WindowAction>)
        ensures
            actions@ == seq![WindowAction::BindIsListening, WindowAction::ConnectListenDone],
    {
        let mut actions: Vec<WindowAction> = Vec::new();
        actions.push(WindowAction::BindIsListening);
        actions.push(WindowAction::ConnectListenDone);
        actions
    }
}

} // verus!
