//! What is laid over the game: the pause menu and the chat line.
use vstd::prelude::*;

use crate::chat::ChatUiAction;

verus! {

/// What the pause menu asks for.
#[derive(Copy, Clone, Debug, PartialEq, Eq, Structural)]
pub enum PauseAction {
    NoAction,
    Resume,
    SaveNow,
    ExitToLobby,
}

/// What the page shown after a lost connection asks for.
#[derive(Copy, Clone, Debug, PartialEq, Eq, Structural)]
pub enum DisconnectedAction {
    NoAction,
    BackToLobby,
}

/// What the user interface keeps besides.
#[derive(Clone, Debug)]
pub struct UiState {
    pub chat_history: Vec<String>,
    pub show_hud: bool,
    pub show_stats: bool,
}

impl Default for UiState {
    fn default() -> (r: UiState)
        ensures
            r.chat_history@ == Seq::<String>::empty(),
            !r.show_hud,
            !r.show_stats,
    {
        UiState { chat_history: Vec::new(), show_hud: false, show_stats: false }
    }
}

/// What is laid over the game, and what is to become of the pointer.
#[derive(Copy, Clone, Debug, PartialEq, Eq, Structural)]
pub struct Overlay {
    pub paused: bool,
    pub chat_open: bool,
    /// The game asks for the pointer.
    pub lock_pointer: bool,
    /// The game lets go of the pointer.
    pub release_pointer: bool,
    /// The line being typed is given up.
    pub clear_line: bool,
}

/// What is chosen in the menu. Leaving goes before the rest, and a button before a click beside the
/// menu.
pub open spec fn pause_choice(save: bool, resume: bool, exit: bool, beside: bool) -> PauseAction {
    if exit {
        PauseAction::ExitToLobby
    } else if resume {
        PauseAction::Resume
    } else if save {
        PauseAction::SaveNow
    } else if beside {
        PauseAction::Resume
    } else {
        PauseAction::NoAction
    }
}

/// What is laid over the game after the keys for menu and chat. The menu key closes what is open,
/// the chat line first; with nothing open it opens the menu. The chat key opens the chat line if
/// nothing is open.
pub open spec fn after_keys(paused: bool, chat_open: bool, menu_key: bool, chat_key: bool) -> Overlay {
    if menu_key && chat_open {
        Overlay {
            paused,
            chat_open: chat_key && !paused,
            lock_pointer: true,
            release_pointer: chat_key && !paused,
            clear_line: true,
        }
    } else if menu_key && paused {
        Overlay {
            paused: false,
            chat_open: chat_key,
            lock_pointer: true,
            release_pointer: chat_key,
            clear_line: false,
        }
    } else if menu_key {
        Overlay {
            paused: true,
            chat_open: false,
            lock_pointer: false,
            release_pointer: true,
            clear_line: false,
        }
    } else if chat_key && !paused && !chat_open {
        Overlay {
            paused: false,
            chat_open: true,
            lock_pointer: false,
            release_pointer: true,
            clear_line: false,
        }
    } else {
        Overlay {
            paused,
            chat_open,
            lock_pointer: false,
            release_pointer: false,
            clear_line: false,
        }
    }
}

/// What is laid over the game after what the player has done in the chat line and in the menu.
pub open spec fn after_ui(o: Overlay, chat: ChatUiAction, pause: PauseAction) -> Overlay {
    let ended = chat is Submit || chat is Cancel;
    Overlay {
        chat_open: o.chat_open && !ended,
        paused: o.paused && pause != PauseAction::Resume,
        lock_pointer: o.lock_pointer || ended || pause == PauseAction::Resume,
        ..o
    }
}

/// Menu and chat line are never open at the same time, if they were not before.
pub proof fn law_menu_and_chat_exclude_each_other(
    paused: bool,
    chat_open: bool,
    menu_key: bool,
    chat_key: bool,
    chat: ChatUiAction,
    pause: PauseAction,
)
    requires
        !(paused && chat_open),
    ensures
        ({
            let o = after_keys(paused, chat_open, menu_key, chat_key);
            let p = after_ui(o, chat, pause);
            !(o.paused && o.chat_open) && !(p.paused && p.chat_open)
        }),
{
}

/// The menu key, pressed again and again, gets out of everything that is open.
pub proof fn law_menu_key_closes_everything(paused: bool, chat_open: bool)
    ensures
        ({
            let one = after_keys(paused, chat_open, true, false);
            let two = after_keys(one.paused, one.chat_open, true, false);
            (paused || chat_open) ==> (!one.paused && !one.chat_open) || (!two.paused
                && !two.chat_open)
        }),
{
}

/// Takes up the keys for menu and chat.
pub fn overlay_after_keys(paused: bool, chat_open: bool, menu_key: bool, chat_key: bool) -> (r:
    Overlay)
    ensures
        r == after_keys(paused, chat_open, menu_key, chat_key),
{
    let mut o = Overlay {
        paused,
        chat_open,
        lock_pointer: false,
        release_pointer: false,
        clear_line: false,
    };
    if menu_key {
        if o.chat_open {
            o.chat_open = false;
            o.clear_line = true;
            o.lock_pointer = true;
        } else if o.paused {
            o.paused = false;
            o.lock_pointer = true;
        } else {
            o.paused = true;
            o.release_pointer = true;
        }
    }
    if chat_key && !o.paused && !o.chat_open {
        o.chat_open = true;
        o.release_pointer = true;
    }
    o
}

/// Takes up what the player has done in the chat line and in the menu.
pub fn overlay_after_ui(o: Overlay, chat: &ChatUiAction, pause: PauseAction) -> (r: Overlay)
    ensures
        r == after_ui(o, *chat, pause),
{
    let mut r = o;
    match chat {
        ChatUiAction::Submit(_) => {
            r.chat_open = false;
            r.lock_pointer = true;
        },
        ChatUiAction::Cancel => {
            r.chat_open = false;
            r.lock_pointer = true;
        },
        ChatUiAction::NoAction => {},
    }
    if pause == PauseAction::Resume {
        r.paused = false;
        r.lock_pointer = true;
    }
    r
}

/// Whether a click resumes the game: one with the main button beside everything that is drawn.
pub fn empty_click_should_resume(primary_clicked: bool, pointer_over_egui: bool) -> (r: bool)
    ensures
        r == (primary_clicked && !pointer_over_egui),
{
    primary_clicked && !pointer_over_egui
}

/// What the pause menu asks for, given the buttons that were pressed and whether the click went
/// beside the menu. Leaving counts before resuming, and resuming before saving.
pub fn pause_action_of(save: bool, resume: bool, exit: bool, beside: bool) -> (r: PauseAction)
    ensures
        r == pause_choice(save, resume, exit, beside),
        r == (if exit {
            PauseAction::ExitToLobby
        } else if resume {
            PauseAction::Resume
        } else if save {
            PauseAction::SaveNow
        } else if beside {
            PauseAction::Resume
        } else {
            PauseAction::NoAction
        }),
{
    if exit {
        PauseAction::ExitToLobby
    } else if resume {
        PauseAction::Resume
    } else if save {
        PauseAction::SaveNow
    } else if beside {
        PauseAction::Resume
    } else {
        PauseAction::NoAction
    }
}

/// Without a key and without a choice nothing changes, and the pointer is left alone.
pub proof fn law_without_keys_nothing_changes(paused: bool, chat_open: bool, chat: ChatUiAction)
    ensures
        ({
            let o = after_keys(paused, chat_open, false, false);
            &&& o.paused == paused && o.chat_open == chat_open
            &&& !o.lock_pointer && !o.release_pointer && !o.clear_line
            &&& after_ui(o, ChatUiAction::NoAction, PauseAction::NoAction) == o
            &&& after_ui(o, ChatUiAction::NoAction, PauseAction::SaveNow) == o
        }),
{
}

/// The menu key opens the menu in play, ends a line that is being typed without saying it, and
/// leaves the menu again.
pub proof fn law_the_menu_key_opens_and_closes(paused: bool, chat_open: bool)
    ensures
        ({
            let o = after_keys(paused, chat_open, true, false);
            &&& !paused && !chat_open ==> o.paused && !o.chat_open && o.release_pointer
                && !o.lock_pointer
            &&& paused && !chat_open ==> !o.paused && !o.chat_open && o.lock_pointer
                && !o.release_pointer
            &&& chat_open ==> !o.chat_open && o.paused == paused && o.lock_pointer
                && !o.release_pointer
            &&& o.clear_line == chat_open
        }),
{
}

/// The chat key opens a line in play alone, and typing it again into the line changes nothing.
pub proof fn law_the_chat_key_opens_a_line(paused: bool, chat_open: bool)
    ensures
        ({
            let o = after_keys(paused, chat_open, false, true);
            &&& o.paused == paused && !o.clear_line && !o.lock_pointer
            &&& !paused && !chat_open ==> o.chat_open && o.release_pointer
            &&& paused || chat_open ==> o.chat_open == chat_open && !o.release_pointer
        }),
{
}

/// The pointer is let go when the menu or a line opens and asked for when the last of them closes.
pub proof fn law_the_pointer_follows_the_overlay(
    paused: bool,
    chat_open: bool,
    menu_key: bool,
    chat_key: bool,
)
    requires
        !(paused && chat_open),
    ensures
        ({
            let o = after_keys(paused, chat_open, menu_key, chat_key);
            let before = paused || chat_open;
            let after = o.paused || o.chat_open;
            &&& !before && after ==> o.release_pointer && !o.lock_pointer
            &&& before && !after ==> o.lock_pointer && !o.release_pointer
            &&& o.release_pointer ==> after
            &&& o.lock_pointer ==> before
            &&& o.clear_line ==> chat_open
        }),
{
}

/// A line ends when it is said or given up, the menu when play is resumed, and either asks for the
/// pointer. What is not open does not open.
pub proof fn law_choices_close_what_is_open(o: Overlay, chat: ChatUiAction, pause: PauseAction)
    ensures
        ({
            let p = after_ui(o, chat, pause);
            &&& p.chat_open ==> o.chat_open
            &&& p.paused ==> o.paused
            &&& chat is Submit || chat is Cancel ==> !p.chat_open && p.lock_pointer
            &&& chat is NoAction ==> p.chat_open == o.chat_open
            &&& pause == PauseAction::Resume ==> !p.paused && p.lock_pointer
            &&& pause != PauseAction::Resume ==> p.paused == o.paused
            &&& chat is NoAction && pause != PauseAction::Resume ==> p == o
            &&& p.release_pointer == o.release_pointer && p.clear_line == o.clear_line
            &&& o.lock_pointer ==> p.lock_pointer
        }),
{
}

/// Every button of the menu does what it says when it is the only one, and a click beside the menu
/// resumes. Leaving is never lost to another button, and without a click nothing is chosen.
pub proof fn law_buttons_do_what_they_say(save: bool, resume: bool, exit: bool, beside: bool)
    ensures
        ({
            let r = pause_choice(save, resume, exit, beside);
            &&& exit <==> r == PauseAction::ExitToLobby
            &&& r == PauseAction::Resume ==> resume || beside
            &&& r == PauseAction::SaveNow ==> save
            &&& r == PauseAction::NoAction <==> !save && !resume && !exit && !beside
            &&& !exit && resume ==> r == PauseAction::Resume
            &&& !exit && !resume && save ==> r == PauseAction::SaveNow
        }),
{
}

} // verus!
