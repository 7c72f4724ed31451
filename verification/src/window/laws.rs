//! What the widgets of the window show once the actions of the window were performed.

use vstd::prelude::*;

use super::{
    button_actions, construction_actions, first_songs, listening_actions, page_of,
    profile_actions, size_actions, StackPage, WindowAction, WindowSize, WindowView,
};
use crate::model::Song;

verus! {

/// What the window shows of its state.
#[verifier::ext_equal]
pub struct Shown {
    pub button_classes: Set<Seq<char>>,
    pub label: Seq<char>,
    pub tooltip: Seq<char>,
    pub page: StackPage,
}

/// The state of the window, what it shows, and what it is tied to.
pub struct Screen {
    pub window: WindowView,
    pub shown: Shown,
    pub classes: Set<Seq<char>>,
    pub width: i32,
    pub height: i32,
    pub is_maximized: bool,
    /// The songs that the history view was given.
    pub songs: Option<Vec<Song>>,
    /// The recogniser's listening is handed to `set_is_listening`.
    pub follows_recognizer: bool,
    /// The end of the recogniser's listening is handed to `on_listen_done`.
    pub hears_listen_done: bool,
}

/// What is shown after an action of `update_listen_button` or `update_stack`.
pub open spec fn after_widget_action(shown: Shown, action: WindowAction) -> Shown {
    match action {
        WindowAction::AddButtonCssClass(class) => Shown {
            button_classes: shown.button_classes.insert(class@),
            ..shown
        },
        WindowAction::RemoveButtonCssClass(class) => Shown {
            button_classes: shown.button_classes.remove(class@),
            ..shown
        },
        WindowAction::SetButtonLabel(label) => Shown { label: label@, ..shown },
        WindowAction::SetButtonTooltip(tooltip) => Shown { tooltip: tooltip@, ..shown },
        WindowAction::SetVisibleChild(page) => Shown { page, ..shown },
        _ => shown,
    }
}

/// What is shown after such actions.
pub open spec fn after_widget_actions(shown: Shown, actions: Seq<WindowAction>) -> Shown
    decreases actions.len(),
{
    if actions.len() == 0 {
        shown
    } else {
        after_widget_action(after_widget_actions(shown, actions.drop_last()), actions.last())
    }
}

/// What a window in this state shows after an action.
pub open spec fn after_action(shown: Shown, window: WindowView, action: WindowAction) -> Shown {
    match action {
        WindowAction::UpdateListenButton => after_widget_actions(
            shown,
            button_actions(window.is_listening),
        ),
        WindowAction::UpdateStack => after_widget_action(
            shown,
            WindowAction::SetVisibleChild(page_of(window)),
        ),
        _ => after_widget_action(shown, action),
    }
}

/// What a window in this state shows after actions.
pub open spec fn after_actions(
    shown: Shown,
    window: WindowView,
    actions: Seq<WindowAction>,
) -> Shown
    decreases actions.len(),
{
    if actions.len() == 0 {
        shown
    } else {
        after_action(after_actions(shown, window, actions.drop_last()), window, actions.last())
    }
}

/// The window was made to listen or not, by `set_is_listening`, its actions were performed, and no
/// observer set it again.
pub open spec fn set_listening(screen: Screen, is_listening: bool) -> Screen {
    let window = WindowView { is_listening, ..screen.window };
    Screen { window, shown: after_actions(screen.shown, window, listening_actions()), ..screen }
}

/// An action was performed, with a recogniser that is listening or not.
pub open spec fn performed(screen: Screen, recognizer: bool, action: WindowAction) -> Screen {
    match action {
        WindowAction::AddCssClass(class) => Screen {
            classes: screen.classes.insert(class@),
            ..screen
        },
        WindowAction::SetDefaultSize { width, height } => Screen { width, height, ..screen },
        WindowAction::Maximize => Screen { is_maximized: true, ..screen },
        WindowAction::SetHistoryModel(songs) => Screen { songs: Some(songs), ..screen },
        WindowAction::BindIsListening => set_listening(
            Screen { follows_recognizer: true, ..screen },
            recognizer,
        ),
        WindowAction::ConnectListenDone => Screen { hears_listen_done: true, ..screen },
        _ => Screen { shown: after_action(screen.shown, screen.window, action), ..screen },
    }
}

/// Actions were performed, with a recogniser that is listening or not.
pub open spec fn all_performed(
    screen: Screen,
    recognizer: bool,
    actions: Seq<WindowAction>,
) -> Screen
    decreases actions.len(),
{
    if actions.len() == 0 {
        screen
    } else {
        performed(
            all_performed(screen, recognizer, actions.drop_last()),
            recognizer,
            actions.last(),
        )
    }
}

/// The recogniser, tied to the window, came to listen or not, in this order.
pub open spec fn followed(screen: Screen, changes: Seq<bool>) -> Screen
    decreases changes.len(),
{
    if changes.len() == 0 {
        screen
    } else {
        set_listening(followed(screen, changes.drop_last()), changes.last())
    }
}

/// The action asks something of the recogniser.
pub open spec fn asks_recognizer(action: WindowAction) -> bool {
    action is StartRecognizer || action is CancelRecognizer
}

/// What is shown goes with the state: the button offers to stop what is going on, or to start,
/// never both, and the page is that of the state.
pub open spec fn in_line(shown: Shown, window: WindowView) -> bool {
    &&& shown.button_classes.contains("destructive-action"@) == window.is_listening
    &&& shown.button_classes.contains("suggested-action"@) == !window.is_listening
    &&& shown.label == if window.is_listening {
        "Cancel"@
    } else {
        "Listen"@
    }
    &&& shown.tooltip == if window.is_listening {
        "Start Identifying Music"@
    } else {
        "Cancel Listening"@
    }
    &&& window.is_listening ==> shown.page == StackPage::Listening
    &&& !window.is_listening && (window.history is None || window.history->0 == 0) ==> shown.page
        == StackPage::Empty
    &&& !window.is_listening && window.history is Some && window.history->0 > 0 ==> shown.page
        == StackPage::Main
}

proof fn lemma_class_names()
    ensures
        "suggested-action"@ != "destructive-action"@,
{
    reveal_strlit("suggested-action");
    reveal_strlit("destructive-action");
    assert("suggested-action"@.len() != "destructive-action"@.len());
}

proof fn lemma_after_widget_push(shown: Shown, actions: Seq<WindowAction>, action: WindowAction)
    ensures
        after_widget_actions(shown, actions.push(action)) == after_widget_action(
            after_widget_actions(shown, actions),
            action,
        ),
{
    assert(actions.push(action).drop_last() =~= actions);
}

proof fn lemma_after_push(
    shown: Shown,
    window: WindowView,
    actions: Seq<WindowAction>,
    action: WindowAction,
)
    ensures
        after_actions(shown, window, actions.push(action)) == after_action(
            after_actions(shown, window, actions),
            window,
            action,
        ),
{
    assert(actions.push(action).drop_last() =~= actions);
}

/// What a window in this state shows once its button and its page were brought in line.
spec fn updated(shown: Shown, window: WindowView) -> Shown {
    Shown {
        button_classes: if window.is_listening {
            shown.button_classes.remove("suggested-action"@).insert("destructive-action"@)
        } else {
            shown.button_classes.remove("destructive-action"@).insert("suggested-action"@)
        },
        label: if window.is_listening {
            "Cancel"@
        } else {
            "Listen"@
        },
        tooltip: if window.is_listening {
            "Start Identifying Music"@
        } else {
            "Cancel Listening"@
        },
        page: page_of(window),
    }
}

proof fn lemma_after_listening_actions(shown: Shown, window: WindowView)
    ensures
        after_actions(shown, window, listening_actions()) == updated(shown, window),
        after_actions(shown, window, listening_actions().skip(1)) == updated(shown, window),
{
    let none = Seq::<WindowAction>::empty();
    let button = button_actions(window.is_listening);
    let removed = none.push(button[0]);
    let added = removed.push(button[1]);
    let labelled = added.push(button[2]);
    lemma_after_widget_push(shown, none, button[0]);
    lemma_after_widget_push(shown, removed, button[1]);
    lemma_after_widget_push(shown, added, button[2]);
    lemma_after_widget_push(shown, labelled, button[3]);
    assert(button =~= labelled.push(button[3]));
    let told = none.push(WindowAction::NotifyIsListening);
    lemma_after_push(shown, window, none, WindowAction::NotifyIsListening);
    lemma_after_push(shown, window, told, WindowAction::UpdateListenButton);
    lemma_after_push(
        shown,
        window,
        told.push(WindowAction::UpdateListenButton),
        WindowAction::UpdateStack,
    );
    assert(listening_actions() =~= told.push(WindowAction::UpdateListenButton).push(
        WindowAction::UpdateStack,
    ));
    lemma_after_push(shown, window, none, WindowAction::UpdateListenButton);
    lemma_after_push(
        shown,
        window,
        none.push(WindowAction::UpdateListenButton),
        WindowAction::UpdateStack,
    );
    assert(listening_actions().skip(1) =~= none.push(WindowAction::UpdateListenButton).push(
        WindowAction::UpdateStack,
    ));
}

/// Whatever was shown, after `set_is_listening` it goes with the state.
pub proof fn law_listening_is_shown(screen: Screen, is_listening: bool)
    ensures
        set_listening(screen, is_listening).window == (WindowView {
            is_listening,
            ..screen.window
        }),
        in_line(
            set_listening(screen, is_listening).shown,
            set_listening(screen, is_listening).window,
        ),
{
    let window = WindowView { is_listening, ..screen.window };
    lemma_after_listening_actions(screen.shown, window);
    lemma_class_names();
}

/// Whatever observers that are told by `set_is_listening` do, be it to set the window again,
/// what follows their notification brings what is shown in line with the state that they left.
pub proof fn law_observers_have_the_last_word(left: Screen)
    ensures
        listening_actions()[0] == WindowAction::NotifyIsListening,
        in_line(
            after_actions(left.shown, left.window, listening_actions().skip(1)),
            left.window,
        ),
{
    lemma_after_listening_actions(left.shown, left.window);
    lemma_class_names();
}

/// Setting the same again changes nothing that is shown.
pub proof fn law_set_is_listening_twice(screen: Screen, is_listening: bool)
    ensures
        set_listening(set_listening(screen, is_listening), is_listening) == set_listening(
            screen,
            is_listening,
        ),
{
    let once = set_listening(screen, is_listening);
    lemma_after_listening_actions(screen.shown, once.window);
    lemma_after_listening_actions(once.shown, once.window);
    lemma_class_names();
    assert(set_listening(once, is_listening).shown =~= once.shown);
}

/// Starting to listen and stopping, or the other way round, brings back what was shown.
pub proof fn law_listening_and_back(screen: Screen)
    requires
        in_line(screen.shown, screen.window),
    ensures
        set_listening(
            set_listening(screen, !screen.window.is_listening),
            screen.window.is_listening,
        ) == screen,
{
    let between = set_listening(screen, !screen.window.is_listening);
    let back = set_listening(between, screen.window.is_listening);
    lemma_after_listening_actions(screen.shown, between.window);
    lemma_after_listening_actions(between.shown, back.window);
    lemma_class_names();
    assert(back.window == screen.window);
    assert(back.shown =~= screen.shown);
}

proof fn lemma_performed_push(
    screen: Screen,
    recognizer: bool,
    actions: Seq<WindowAction>,
    action: WindowAction,
)
    ensures
        all_performed(screen, recognizer, actions.push(action)) == performed(
            all_performed(screen, recognizer, actions),
            recognizer,
            action,
        ),
{
    assert(actions.push(action).drop_last() =~= actions);
}

/// How a window is constructed, step by step.
#[verifier::rlimit(50)]
#[verifier::spinoff_prover]
proof fn lemma_constructed(
    screen: Screen,
    profile: Seq<char>,
    size: WindowSize,
    songs: Vec<Song>,
    recognizer: bool,
)
    ensures
        all_performed(screen, recognizer, construction_actions(profile, size, songs)) == (Screen {
            hears_listen_done: true,
            ..set_listening(
                Screen {
                    classes: if profile == "Devel"@ {
                        screen.classes.insert("devel"@)
                    } else {
                        screen.classes
                    },
                    width: size.width,
                    height: size.height,
                    is_maximized: screen.is_maximized || size.is_maximized,
                    songs: Some(songs),
                    follows_recognizer: true,
                    ..screen
                },
                recognizer,
            )
        }),
{
    let none = Seq::<WindowAction>::empty();
    let class = WindowAction::AddCssClass("devel");
    let default_size = WindowAction::SetDefaultSize { width: size.width, height: size.height };
    let model = WindowAction::SetHistoryModel(songs);
    assert(all_performed(screen, recognizer, none) == screen);
    lemma_performed_push(screen, recognizer, none, class);
    let looks = profile_actions(profile);
    assert(looks =~= if profile == "Devel"@ {
        none.push(class)
    } else {
        none
    });
    lemma_performed_push(screen, recognizer, looks, default_size);
    lemma_performed_push(
        screen,
        recognizer,
        looks.push(default_size),
        WindowAction::Maximize,
    );
    let sized = looks + size_actions(size);
    assert(sized =~= if size.is_maximized {
        looks.push(default_size).push(WindowAction::Maximize)
    } else {
        looks.push(default_size)
    });
    let listed = sized.push(model);
    let bound = listed.push(WindowAction::BindIsListening);
    lemma_performed_push(screen, recognizer, sized, model);
    lemma_performed_push(screen, recognizer, listed, WindowAction::BindIsListening);
    lemma_performed_push(screen, recognizer, bound, WindowAction::ConnectListenDone);
    assert(construction_actions(profile, size, songs) =~= bound.push(
        WindowAction::ConnectListenDone,
    ));
}

/// Once it is constructed, a window is listening if and only if the recogniser is, and what is
/// shown goes with that.
pub proof fn law_new_window_mirrors_recognizer(
    screen: Screen,
    profile: Seq<char>,
    size: WindowSize,
    songs: Vec<Song>,
    recognizer: bool,
)
    ensures
        all_performed(
            screen,
            recognizer,
            construction_actions(profile, size, songs),
        ).window == (WindowView { is_listening: recognizer, ..screen.window }),
        in_line(
            all_performed(screen, recognizer, construction_actions(profile, size, songs)).shown,
            WindowView { is_listening: recognizer, ..screen.window },
        ),
{
    lemma_constructed(screen, profile, size, songs, recognizer);
    law_listening_is_shown(screen, recognizer);
}

/// Once it is constructed, whatever the profile and the size, a window has the size that was
/// asked for, shows these songs, follows the recogniser and hears of the end of listening; and
/// it looks like a development build if and only if it is one.
pub proof fn law_new_window_is_complete(
    screen: Screen,
    profile: Seq<char>,
    size: WindowSize,
    songs: Vec<Song>,
    recognizer: bool,
)
    requires
        !screen.classes.contains("devel"@),
        !screen.is_maximized,
    ensures
        ({
            let done = all_performed(
                screen,
                recognizer,
                construction_actions(profile, size, songs),
            );
            &&& done.hears_listen_done
            &&& done.follows_recognizer
            &&& done.songs == Some(songs)
            &&& done.width == size.width
            &&& done.height == size.height
            &&& done.is_maximized == size.is_maximized
            &&& done.classes.contains("devel"@) == (profile == "Devel"@)
        }),
{
    lemma_constructed(screen, profile, size, songs, recognizer);
}

/// Whatever the profile, the size and the songs, construction gives the history view its songs
/// before it ties the window to the recogniser, and ends with the tie to the end of listening;
/// each of these, and the size, is there once, and nothing else is but for a maximized window or
/// a development build.
pub proof fn law_construction_in_order(profile: Seq<char>, size: WindowSize, songs: Vec<Song>)
    ensures
        ({
            let actions = construction_actions(profile, size, songs);
            let n = actions.len() as int;
            &&& n == 4 + (if profile == "Devel"@ {
                1int
            } else {
                0
            }) + (if size.is_maximized {
                1int
            } else {
                0
            })
            &&& actions[n - 3] == WindowAction::SetHistoryModel(songs)
            &&& actions[n - 2] == WindowAction::BindIsListening
            &&& actions[n - 1] == WindowAction::ConnectListenDone
            &&& actions.contains(
                WindowAction::SetDefaultSize { width: size.width, height: size.height },
            )
            &&& actions.contains(WindowAction::Maximize) == size.is_maximized
            &&& actions.contains(WindowAction::AddCssClass("devel")) == (profile == "Devel"@)
        }),
{
    let actions = construction_actions(profile, size, songs);
    let n = actions.len() as int;
    let at: int = if profile == "Devel"@ {
        1
    } else {
        0
    };
    assert(actions[at] == (WindowAction::SetDefaultSize {
        width: size.width,
        height: size.height,
    }));
    if size.is_maximized {
        assert(actions[n - 4] == WindowAction::Maximize);
    }
    if profile == "Devel"@ {
        assert(actions[0] == WindowAction::AddCssClass("devel"));
    }
}

/// The songs that the history view starts with are these two, of which only title, artist and
/// link are known.
pub proof fn law_first_songs(songs: Seq<Song>)
    ensures
        first_songs(songs) <==> {
            &&& songs.len() == 2
            &&& songs[0].title@ == "A song"@ && songs[1].title@ == "Another song"@
            &&& songs[0].artist@ == "Someone"@ && songs[1].artist@ == "Someone else"@
            &&& songs[0].info_link is Some && songs[1].info_link is Some
            &&& songs[0].info_link->0@ == "A link"@
            &&& songs[1].info_link->0@ == "Another link"@
            &&& songs[0].id is None && songs[1].id is None
            &&& songs[0].album is None && songs[1].album is None
        },
{
}

/// While it listens, a window shows the listening page, whatever its history is.
pub proof fn law_listening_page_while_listening(window: WindowView)
    requires
        window.is_listening,
    ensures
        page_of(window) == StackPage::Listening,
{
}

/// A window that is not listening shows its history if there is a song in it, and else the empty
/// page.
pub proof fn law_history_or_empty_page(window: WindowView)
    requires
        !window.is_listening,
    ensures
        window.history is None ==> page_of(window) == StackPage::Empty,
        window.history is Some && window.history->0 == 0 ==> page_of(window) == StackPage::Empty,
        window.history is Some && window.history->0 > 0 ==> page_of(window) == StackPage::Main,
{
}

/// What brings the listen button in line takes off the one class, then gives the other, and sets
/// label and tooltip; it does nothing else.
pub proof fn law_button_is_brought_in_line(is_listening: bool)
    ensures
        button_actions(is_listening).len() == 4,
        button_actions(is_listening)[0] == WindowAction::RemoveButtonCssClass(
            if is_listening {
                "suggested-action"
            } else {
                "destructive-action"
            },
        ),
        button_actions(is_listening)[1] == WindowAction::AddButtonCssClass(
            if is_listening {
                "destructive-action"
            } else {
                "suggested-action"
            },
        ),
        button_actions(is_listening)[2] == WindowAction::SetButtonLabel(
            if is_listening {
                "Cancel"
            } else {
                "Listen"
            },
        ),
        button_actions(is_listening)[3] == WindowAction::SetButtonTooltip(
            if is_listening {
                "Start Identifying Music"
            } else {
                "Cancel Listening"
            },
        ),
{
}

/// Observers are told first, then the button is brought in line, then the page.
pub proof fn law_observers_are_told_first()
    ensures
        listening_actions().len() == 3,
        listening_actions()[0] == WindowAction::NotifyIsListening,
        listening_actions()[1] == WindowAction::UpdateListenButton,
        listening_actions()[2] == WindowAction::UpdateStack,
{
}

/// After any changes of the recogniser that it is tied to, the window is listening if and only
/// if the recogniser is, its list of songs is the one that it had, and what is shown goes with
/// that.
pub proof fn law_window_mirrors_recognizer(screen: Screen, recognizer: bool, changes: Seq<bool>)
    requires
        screen.window.is_listening == recognizer,
        in_line(screen.shown, screen.window),
    ensures
        followed(screen, changes).window == (WindowView {
            is_listening: if changes.len() > 0 {
                changes.last()
            } else {
                recognizer
            },
            ..screen.window
        }),
        in_line(followed(screen, changes).shown, followed(screen, changes).window),
    decreases changes.len(),
{
    if changes.len() > 0 {
        let before = changes.drop_last();
        law_window_mirrors_recognizer(screen, recognizer, before);
        law_listening_is_shown(followed(screen, before), changes.last());
    }
}

/// The tie goes one way: neither making the window listen, or not, nor constructing it asks
/// anything of the recogniser.
pub proof fn law_mirror_is_one_way(
    window: WindowView,
    profile: Seq<char>,
    size: WindowSize,
    songs: Vec<Song>,
)
    ensures
        forall|i: int| 0 <= i < 3 ==> !asks_recognizer(#[trigger] listening_actions()[i]),
        forall|i: int|
            0 <= i < 4 ==> !asks_recognizer(#[trigger] button_actions(window.is_listening)[i]),
        !asks_recognizer(WindowAction::SetVisibleChild(page_of(window))),
        forall|i: int|
            0 <= i < construction_actions(profile, size, songs).len() ==> !asks_recognizer(
                #[trigger] construction_actions(profile, size, songs)[i],
            ),
{
}

/// A change of the history keeps what is shown in line.
pub proof fn law_history_is_shown(shown: Shown, window: WindowView, n_items: nat)
    requires
        in_line(shown, window),
    ensures
        in_line(
            after_widget_action(
                shown,
                WindowAction::SetVisibleChild(
                    page_of(WindowView { history: Some(n_items), ..window }),
                ),
            ),
            WindowView { history: Some(n_items), ..window },
        ),
{
}

/// Once a song was appended, a window that is not listening shows the main page.
pub proof fn law_song_shows_main_page(window: WindowView)
    requires
        !window.is_listening,
        window.history is Some,
    ensures
        page_of(WindowView { history: Some(window.history->0 + 1), ..window })
            == StackPage::Main,
{
}

} // verus!
