use std::future::{ready, Future, Ready};
use std::pin::Pin;
use std::sync::Arc;
use std::task::{Context, Poll, Wake, Waker};
use std::time::Duration;

use mousai::db::{
    env_options, test_env_options, EnvOptions, RECORDINGS_DB_NAME, SONG_LIST_DB_NAME,
};
use mousai::model::Song;
use mousai::recognizer::provider::{AudioRecording, Provider, ProviderError};
use mousai::window::{SettingWrite, StackPage, Window, WindowAction, WindowSize};

const SIZE: WindowSize = WindowSize {
    width: 600,
    height: 400,
    is_maximized: false,
};

fn song(title: &str, artist: &str, link: &str) -> Song {
    Song {
        id: None,
        title: title.to_string(),
        artist: artist.to_string(),
        album: None,
        info_link: Some(link.to_string()),
    }
}

fn first_songs() -> Vec<Song> {
    vec![
        song("A song", "Someone", "A link"),
        song("Another song", "Someone else", "Another link"),
    ]
}

#[test]
fn a_new_window_takes_its_size_and_its_songs() {
    let (window, actions) = Window::new("default", SIZE);
    assert!(!window.is_listening());
    assert_eq!(
        actions,
        vec![
            WindowAction::SetDefaultSize {
                width: 600,
                height: 400
            },
            WindowAction::SetHistoryModel(first_songs()),
            WindowAction::BindIsListening,
            WindowAction::ConnectListenDone,
        ]
    );
}

#[test]
fn a_new_maximized_development_window() {
    let size = WindowSize {
        is_maximized: true,
        ..SIZE
    };
    let (_, actions) = Window::new("Devel", size);
    assert_eq!(
        actions,
        vec![
            WindowAction::AddCssClass("devel"),
            WindowAction::SetDefaultSize {
                width: 600,
                height: 400
            },
            WindowAction::Maximize,
            WindowAction::SetHistoryModel(first_songs()),
            WindowAction::BindIsListening,
            WindowAction::ConnectListenDone,
        ]
    );
}

/// Performs actions on a window with an observer, and returns what the widgets went through. The
/// observer, once told, sets the window as `answer` says, if it says anything.
fn perform(
    window: &mut Window,
    actions: Vec<WindowAction>,
    recognizer: bool,
    answer: &mut Option<bool>,
) -> Vec<WindowAction> {
    let mut done = Vec::new();
    for action in actions {
        match action {
            WindowAction::NotifyIsListening => {
                if let Some(is_listening) = answer.take() {
                    let nested = window.set_is_listening(is_listening);
                    done.extend(perform(window, nested, recognizer, answer));
                }
            }
            WindowAction::UpdateListenButton => done.extend(window.update_listen_button()),
            WindowAction::UpdateStack => done.push(window.update_stack()),
            WindowAction::BindIsListening => {
                let nested = window.set_is_listening(recognizer);
                done.extend(perform(window, nested, recognizer, answer));
            }
            action => done.push(action),
        }
    }
    done
}

fn listening() -> Vec<WindowAction> {
    vec![
        WindowAction::RemoveButtonCssClass("suggested-action"),
        WindowAction::AddButtonCssClass("destructive-action"),
        WindowAction::SetButtonLabel("Cancel"),
        WindowAction::SetButtonTooltip("Start Identifying Music"),
        WindowAction::SetVisibleChild(StackPage::Listening),
    ]
}

fn idle() -> Vec<WindowAction> {
    vec![
        WindowAction::RemoveButtonCssClass("destructive-action"),
        WindowAction::AddButtonCssClass("suggested-action"),
        WindowAction::SetButtonLabel("Listen"),
        WindowAction::SetButtonTooltip("Cancel Listening"),
        WindowAction::SetVisibleChild(StackPage::Main),
    ]
}

#[test]
fn listening_is_shown_and_unshown() {
    let (mut window, _) = Window::new("default", SIZE);
    for is_listening in [true, true, false] {
        let actions = window.set_is_listening(is_listening);
        assert_eq!(
            actions,
            vec![
                WindowAction::NotifyIsListening,
                WindowAction::UpdateListenButton,
                WindowAction::UpdateStack,
            ]
        );
        assert_eq!(window.is_listening(), is_listening);
        let shown = perform(&mut window, actions, false, &mut None);
        assert_eq!(shown, if is_listening { listening() } else { idle() });
    }
}

#[test]
fn an_observer_that_stops_listening_has_the_last_word() {
    let (mut window, _) = Window::new("default", SIZE);
    let actions = window.set_is_listening(true);
    let shown = perform(&mut window, actions, false, &mut Some(false));
    assert!(!window.is_listening());
    let mut twice = idle();
    twice.extend(idle());
    assert_eq!(shown, twice);
}

#[test]
fn the_window_mirrors_the_recognizer() {
    for recognizer in [true, false] {
        let (mut window, actions) = Window::new("default", SIZE);
        let shown = perform(&mut window, actions, recognizer, &mut None);
        assert_eq!(window.is_listening(), recognizer);
        let expected = if recognizer { listening() } else { idle() };
        assert_eq!(shown[2..7], expected[..]);
        assert_eq!(shown[7], WindowAction::ConnectListenDone);
        for change in [true, false, false, true] {
            let actions = window.set_is_listening(change);
            assert!(!actions.contains(&WindowAction::StartRecognizer));
            assert!(!actions.contains(&WindowAction::CancelRecognizer));
            let shown = perform(&mut window, actions, change, &mut None);
            assert_eq!(window.is_listening(), change);
            assert_eq!(shown, if change { listening() } else { idle() });
        }
    }
}

#[test]
fn the_page_follows_the_history() {
    let (mut window, _) = Window::new("default", SIZE);
    assert_eq!(
        window.update_stack(),
        WindowAction::SetVisibleChild(StackPage::Main)
    );
    assert_eq!(
        window.history_items_changed(0),
        WindowAction::SetVisibleChild(StackPage::Empty)
    );
    assert_eq!(
        window.history_items_changed(1),
        WindowAction::SetVisibleChild(StackPage::Main)
    );
    window.set_is_listening(true);
    assert_eq!(
        window.history_items_changed(0),
        WindowAction::SetVisibleChild(StackPage::Listening)
    );
}

#[test]
fn toggling_cancels_or_starts() {
    assert_eq!(
        Window::on_toggle_listen(true),
        WindowAction::CancelRecognizer
    );
    assert_eq!(
        Window::on_toggle_listen(false),
        WindowAction::StartRecognizer
    );
    assert_eq!(Window::on_listen_started(Ok(())), None);
    assert_eq!(
        Window::on_listen_started(Err(String::from("no microphone"))),
        Some(WindowAction::ShowError {
            text: "Failed to start recording",
            secondary_text: String::from("no microphone"),
        })
    );
}

#[test]
fn the_end_of_listening_gives_a_song_or_an_error() {
    let (window, _) = Window::new("default", SIZE);
    let found = song("T", "A", "L");
    assert_eq!(
        window.on_listen_done(Ok(found.clone())),
        WindowAction::AppendSong(found)
    );
    assert_eq!(
        window.on_listen_done(Err(String::from("offline"))),
        WindowAction::ShowError {
            text: "Something went wrong",
            secondary_text: String::from("offline"),
        }
    );
}

#[test]
fn the_size_is_saved() {
    assert_eq!(
        Window::save_window_size(WindowSize {
            width: 1,
            height: 2,
            is_maximized: true
        }),
        vec![
            SettingWrite::Int {
                key: "window-width",
                value: 1
            },
            SettingWrite::Int {
                key: "window-height",
                value: 2
            },
            SettingWrite::Boolean {
                key: "is-maximized",
                value: true
            },
        ]
    );
}

#[test]
fn database_environments() {
    let options = EnvOptions {
        map_size: 100 * 1024 * 1024,
        max_dbs: 2,
        write_map: true,
        map_async: true,
    };
    assert_eq!(env_options(), options);
    assert_eq!(
        test_env_options(),
        EnvOptions {
            max_dbs: 1,
            ..options
        }
    );
    assert_eq!(SONG_LIST_DB_NAME, "song_list");
    assert_eq!(RECORDINGS_DB_NAME, "saved_recordings");
}

#[derive(Debug)]
struct Silence;

impl Provider for Silence {
    type Recognition<'a> = Ready<Result<Song, ProviderError>>;

    fn recognize<'a>(&'a self, recording: &'a AudioRecording) -> Self::Recognition<'a> {
        ready(Err(ProviderError {
            message: format!("{} bytes of silence", recording.bytes.len()),
        }))
    }

    fn listen_duration(&self) -> Duration {
        Duration::from_secs(5)
    }

    fn is_test(&self) -> bool {
        true
    }
}

/// An answer that still reads the provider and the recording when it is polled.
struct Listening<'a> {
    provider: &'a Echo,
    recording: &'a AudioRecording,
}

#[derive(Debug)]
struct Echo {
    title: String,
}

impl<'a> Future for Listening<'a> {
    type Output = Result<Song, ProviderError>;

    fn poll(self: Pin<&mut Self>, _: &mut Context<'_>) -> Poll<Self::Output> {
        let link = format!("{:?}", self.recording.bytes);
        Poll::Ready(Ok(song(&self.provider.title, "Someone", &link)))
    }
}

impl Provider for Echo {
    type Recognition<'a> = Listening<'a>;

    fn recognize<'a>(&'a self, recording: &'a AudioRecording) -> Self::Recognition<'a> {
        Listening {
            provider: self,
            recording,
        }
    }

    fn listen_duration(&self) -> Duration {
        Duration::from_millis(1)
    }

    fn is_test(&self) -> bool {
        false
    }
}

struct NoWake;

impl Wake for NoWake {
    fn wake(self: Arc<Self>) {}
}

#[test]
fn an_answer_may_borrow_from_provider_and_recording() {
    let provider = Echo {
        title: String::from("T"),
    };
    let recording = AudioRecording { bytes: vec![7] };
    let waker = Waker::from(Arc::new(NoWake));
    let mut answer = provider.recognize(&recording);
    match Pin::new(&mut answer).poll(&mut Context::from_waker(&waker)) {
        Poll::Ready(result) => assert_eq!(result, Ok(song("T", "Someone", "[7]"))),
        Poll::Pending => panic!("pending"),
    }
}

#[test]
fn a_provider_can_be_written() {
    let recording = AudioRecording {
        bytes: vec![0, 0, 0],
    };
    assert_eq!(
        Silence.recognize(&recording).into_inner(),
        Err(ProviderError {
            message: String::from("3 bytes of silence")
        })
    );
    assert_eq!(Silence.listen_duration(), Duration::from_secs(5));
    assert!(Silence.is_test());
}
