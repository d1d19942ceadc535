//! Where the events of the browser go: to the game or to what is laid over it.
use vstd::prelude::*;
use vstd::string::*;

use crate::input;
use crate::input::KeyCode;
use crate::text;
use crate::text::{chars_of, is_control_char, same_text};

verus! {

/// The keys that menus and text fields know.
#[derive(Copy, Clone, Debug, PartialEq, Eq, Structural)]
pub enum UiKey {
    Backspace,
    Delete,
    Enter,
    Tab,
    Escape,
    ArrowLeft,
    ArrowRight,
    ArrowUp,
    ArrowDown,
    Home,
    End,
    PageUp,
    PageDown,
    Space,
}

/// The buttons of a mouse.
#[derive(Copy, Clone, Debug, PartialEq, Eq, Structural)]
pub enum PointerButton {
    Primary,
    Middle,
    Secondary,
}

/// The keys held while another is pressed.
#[derive(Copy, Clone, Debug, PartialEq, Eq, Structural)]
pub struct KeyModifiers {
    pub alt: bool,
    pub ctrl: bool,
    pub shift: bool,
    pub meta: bool,
}

/// What menus and text fields learn of a key.
#[derive(Clone, Debug)]
pub struct KeyForward {
    pub key: Option<UiKey>,
    /// What the key types.
    pub typed: Option<String>,
    /// The browser is not to act on the key.
    pub prevent_default: bool,
}

/// Where a press or release of a mouse button goes.
#[derive(Copy, Clone, Debug, PartialEq, Eq, Structural)]
pub enum MouseRoute {
    /// To the game. Of the right button the browser does not learn.
    Game { prevent_default: bool },
    Ui { button: PointerButton },
    Nowhere,
}

/// Where a key goes: the game always learns of it, menus and text fields only if the player is not
/// playing.
#[derive(Copy, Clone, Debug, PartialEq, Eq, Structural)]
pub struct KeyRoute {
    pub to_ui: bool,
    pub prevent_default: bool,
}

/// The key of the game at a place of the keyboard.
pub open spec fn key_of_code(code: Seq<char>) -> Option<KeyCode> {
    if code == "KeyW"@ {
        Some(KeyCode::KeyW)
    } else if code == "KeyA"@ {
        Some(KeyCode::KeyA)
    } else if code == "KeyS"@ {
        Some(KeyCode::KeyS)
    } else if code == "KeyD"@ {
        Some(KeyCode::KeyD)
    } else if code == "KeyT"@ {
        Some(KeyCode::KeyT)
    } else if code == "Space"@ {
        Some(KeyCode::Space)
    } else if code == "ShiftLeft"@ {
        Some(KeyCode::ShiftLeft)
    } else if code == "ShiftRight"@ {
        Some(KeyCode::ShiftRight)
    } else if code == "Escape"@ {
        Some(KeyCode::Escape)
    } else if code == "Digit1"@ {
        Some(KeyCode::Digit1)
    } else if code == "Digit2"@ {
        Some(KeyCode::Digit2)
    } else if code == "Digit3"@ {
        Some(KeyCode::Digit3)
    } else if code == "Digit4"@ {
        Some(KeyCode::Digit4)
    } else if code == "Digit5"@ {
        Some(KeyCode::Digit5)
    } else if code == "Digit6"@ {
        Some(KeyCode::Digit6)
    } else if code == "Digit7"@ {
        Some(KeyCode::Digit7)
    } else if code == "Digit8"@ {
        Some(KeyCode::Digit8)
    } else if code == "Digit9"@ {
        Some(KeyCode::Digit9)
    } else {
        None
    }
}

/// The key of menus and text fields that has a name.
pub open spec fn ui_key_of(key: Seq<char>) -> Option<UiKey> {
    if key == "Backspace"@ {
        Some(UiKey::Backspace)
    } else if key == "Delete"@ {
        Some(UiKey::Delete)
    } else if key == "Enter"@ {
        Some(UiKey::Enter)
    } else if key == "Tab"@ {
        Some(UiKey::Tab)
    } else if key == "Escape"@ {
        Some(UiKey::Escape)
    } else if key == "ArrowLeft"@ {
        Some(UiKey::ArrowLeft)
    } else if key == "ArrowRight"@ {
        Some(UiKey::ArrowRight)
    } else if key == "ArrowUp"@ {
        Some(UiKey::ArrowUp)
    } else if key == "ArrowDown"@ {
        Some(UiKey::ArrowDown)
    } else if key == "Home"@ {
        Some(UiKey::Home)
    } else if key == "End"@ {
        Some(UiKey::End)
    } else if key == "PageUp"@ {
        Some(UiKey::PageUp)
    } else if key == "PageDown"@ {
        Some(UiKey::PageDown)
    } else if key == " "@ {
        Some(UiKey::Space)
    } else {
        None
    }
}

/// Keys on which the browser would move about or go back.
pub open spec fn moves_page(key: UiKey) -> bool {
    key == UiKey::Backspace || key == UiKey::Tab || key == UiKey::ArrowUp || key
        == UiKey::ArrowDown || key == UiKey::ArrowLeft || key == UiKey::ArrowRight || key
        == UiKey::Space
}

/// Whether a key is part of a command rather than of a text.
pub open spec fn is_command(m: KeyModifiers) -> bool {
    m.ctrl || m.alt || m.meta
}

/// What a pressed key types: a space, or a single visible character.
pub open spec fn typed_by(key: Seq<char>, m: KeyModifiers) -> Option<Seq<char>> {
    if is_command(m) {
        None
    } else {
        match ui_key_of(key) {
            Some(k) => if k == UiKey::Space {
                Some(" "@)
            } else {
                None
            },
            None => if key.len() == 1 && !text::is_control(key[0]) {
                Some(key)
            } else {
                None
            },
        }
    }
}

/// The key of the game at a place of the keyboard.
pub fn map_key(code: &str) -> (r: Option<KeyCode>)
    ensures
        r == key_of_code(code@),
{
    if same_text(code, "KeyW") {
        Some(KeyCode::KeyW)
    } else if same_text(code, "KeyA") {
        Some(KeyCode::KeyA)
    } else if same_text(code, "KeyS") {
        Some(KeyCode::KeyS)
    } else if same_text(code, "KeyD") {
        Some(KeyCode::KeyD)
    } else if same_text(code, "KeyT") {
        Some(KeyCode::KeyT)
    } else if same_text(code, "Space") {
        Some(KeyCode::Space)
    } else if same_text(code, "ShiftLeft") {
        Some(KeyCode::ShiftLeft)
    } else if same_text(code, "ShiftRight") {
        Some(KeyCode::ShiftRight)
    } else if same_text(code, "Escape") {
        Some(KeyCode::Escape)
    } else if same_text(code, "Digit1") {
        Some(KeyCode::Digit1)
    } else if same_text(code, "Digit2") {
        Some(KeyCode::Digit2)
    } else if same_text(code, "Digit3") {
        Some(KeyCode::Digit3)
    } else if same_text(code, "Digit4") {
        Some(KeyCode::Digit4)
    } else if same_text(code, "Digit5") {
        Some(KeyCode::Digit5)
    } else if same_text(code, "Digit6") {
        Some(KeyCode::Digit6)
    } else if same_text(code, "Digit7") {
        Some(KeyCode::Digit7)
    } else if same_text(code, "Digit8") {
        Some(KeyCode::Digit8)
    } else if same_text(code, "Digit9") {
        Some(KeyCode::Digit9)
    } else {
        None
    }
}

/// The key of menus and text fields that has a name.
pub fn map_web_key_to_egui(key: &str) -> (r: Option<UiKey>)
    ensures
        r == ui_key_of(key@),
{
    if same_text(key, "Backspace") {
        Some(UiKey::Backspace)
    } else if same_text(key, "Delete") {
        Some(UiKey::Delete)
    } else if same_text(key, "Enter") {
        Some(UiKey::Enter)
    } else if same_text(key, "Tab") {
        Some(UiKey::Tab)
    } else if same_text(key, "Escape") {
        Some(UiKey::Escape)
    } else if same_text(key, "ArrowLeft") {
        Some(UiKey::ArrowLeft)
    } else if same_text(key, "ArrowRight") {
        Some(UiKey::ArrowRight)
    } else if same_text(key, "ArrowUp") {
        Some(UiKey::ArrowUp)
    } else if same_text(key, "ArrowDown") {
        Some(UiKey::ArrowDown)
    } else if same_text(key, "Home") {
        Some(UiKey::Home)
    } else if same_text(key, "End") {
        Some(UiKey::End)
    } else if same_text(key, "PageUp") {
        Some(UiKey::PageUp)
    } else if same_text(key, "PageDown") {
        Some(UiKey::PageDown)
    } else if same_text(key, " ") {
        Some(UiKey::Space)
    } else {
        None
    }
}

/// The button that a number of the browser stands for.
pub open spec fn button_of(button: i16) -> Option<PointerButton> {
    match button {
        0 => Some(PointerButton::Primary),
        1 => Some(PointerButton::Middle),
        2 => Some(PointerButton::Secondary),
        _ => None,
    }
}

/// Where a press or release goes: to the game in play, else to what is laid over it.
pub open spec fn mouse_route(playing: bool, button: i16) -> MouseRoute {
    if playing {
        MouseRoute::Game { prevent_default: button == 2 }
    } else {
        match button_of(button) {
            Some(button) => MouseRoute::Ui { button },
            None => MouseRoute::Nowhere,
        }
    }
}

/// The button with a number of the browser.
pub fn map_pointer_button(button: i16) -> (r: Option<PointerButton>)
    ensures
        r == button_of(button),
        r == (if button == 0 {
            Some(PointerButton::Primary)
        } else if button == 1 {
            Some(PointerButton::Middle)
        } else if button == 2 {
            Some(PointerButton::Secondary)
        } else {
            None
        }),
{
    if button == 0 {
        Some(PointerButton::Primary)
    } else if button == 1 {
        Some(PointerButton::Middle)
    } else if button == 2 {
        Some(PointerButton::Secondary)
    } else {
        None
    }
}

/// What menus and text fields learn of a pressed key.
pub fn forward_keydown(key: &str, m: KeyModifiers) -> (r: KeyForward)
    ensures
        r.key == ui_key_of(key@),
        text::content_of(r.typed) == typed_by(key@, m),
        r.prevent_default == (ui_key_of(key@) matches Some(k) && moves_page(k)),
{
    let command = m.ctrl || m.alt || m.meta;
    match map_web_key_to_egui(key) {
        Some(k) => {
            let prevent_default = k == UiKey::Backspace || k == UiKey::Tab || k == UiKey::ArrowUp
                || k == UiKey::ArrowDown || k == UiKey::ArrowLeft || k == UiKey::ArrowRight || k
                == UiKey::Space;
            let typed = if k == UiKey::Space && !command {
                Some(" ".to_owned())
            } else {
                None
            };
            KeyForward { key: Some(k), typed, prevent_default }
        },
        None => {
            let chars = chars_of(key);
            let typed = if chars.len() == 1 && !command && !is_control_char(chars[0]) {
                Some(key.to_owned())
            } else {
                None
            };
            KeyForward { key: None, typed, prevent_default: false }
        },
    }
}

/// Where a pressed key goes.
pub fn route_key(playing: bool, pointer_locked: bool) -> (r: KeyRoute)
    ensures
        r.to_ui == !playing,
        r.prevent_default == (playing && pointer_locked),
{
    KeyRoute { to_ui: !playing, prevent_default: playing && pointer_locked }
}

/// Where a press or release of a mouse button goes.
pub fn route_mouse(playing: bool, button: i16) -> (r: MouseRoute)
    ensures
        r == mouse_route(playing, button),
        r == (if playing {
            MouseRoute::Game { prevent_default: button == 2 }
        } else if button == 0 {
            MouseRoute::Ui { button: PointerButton::Primary }
        } else if button == 1 {
            MouseRoute::Ui { button: PointerButton::Middle }
        } else if button == 2 {
            MouseRoute::Ui { button: PointerButton::Secondary }
        } else {
            MouseRoute::Nowhere
        }),
{
    if playing {
        return MouseRoute::Game { prevent_default: button == 2 };
    }
    match map_pointer_button(button) {
        Some(button) => MouseRoute::Ui { button },
        None => MouseRoute::Nowhere,
    }
}

/// No two codes stand for one key of the game, and no two names for one key of the menus.
pub proof fn law_keys_have_one_code(a: Seq<char>, b: Seq<char>)
    ensures
        key_of_code(a) is Some && key_of_code(a) == key_of_code(b) ==> a == b,
        ui_key_of(a) is Some && ui_key_of(a) == ui_key_of(b) ==> a == b,
{
}

/// The digit keys choose the places that are written on them: one chooses the first place, and
/// nine the last.
pub proof fn law_digit_keys_choose_their_place(d: nat)
    requires
        1 <= d <= 9,
    ensures
        key_of_code("Digit"@.push(text::digit_char(d))) matches Some(key) && input::slot_of(key)
            == Some((d - 1) as u8),
{
    reveal_strlit("Digit");
    reveal_strlit("KeyW");
    reveal_strlit("KeyA");
    reveal_strlit("KeyS");
    reveal_strlit("KeyD");
    reveal_strlit("KeyT");
    reveal_strlit("Space");
    reveal_strlit("ShiftLeft");
    reveal_strlit("ShiftRight");
    reveal_strlit("Escape");
    reveal_strlit("Digit1");
    reveal_strlit("Digit2");
    reveal_strlit("Digit3");
    reveal_strlit("Digit4");
    reveal_strlit("Digit5");
    reveal_strlit("Digit6");
    reveal_strlit("Digit7");
    reveal_strlit("Digit8");
    reveal_strlit("Digit9");
    let code = "Digit"@.push(text::digit_char(d));
    assert(code.len() == 6 && code[0] == 'D' && code[5] == text::digit_char(d));
    assert(d == 1 ==> code =~= "Digit1"@);
    assert(d == 2 ==> code =~= "Digit2"@);
    assert(d == 3 ==> code =~= "Digit3"@);
    assert(d == 4 ==> code =~= "Digit4"@);
    assert(d == 5 ==> code =~= "Digit5"@);
    assert(d == 6 ==> code =~= "Digit6"@);
    assert(d == 7 ==> code =~= "Digit7"@);
    assert(d == 8 ==> code =~= "Digit8"@);
    assert(d == 9 ==> code =~= "Digit9"@);
    assert("Escape"@[0] != code[0]);
    assert("Digit1"@[5] == '1' && "Digit2"@[5] == '2' && "Digit3"@[5] == '3');
    assert("Digit4"@[5] == '4' && "Digit5"@[5] == '5' && "Digit6"@[5] == '6');
    assert("Digit7"@[5] == '7' && "Digit8"@[5] == '8' && "Digit9"@[5] == '9');
}

/// A letter key walks the way that it shows, whatever is held: W ahead, S back, A to the left and
/// D to the right. T opens a line, and the space bar jumps.
pub proof fn law_letter_keys_walk(s: input::InputState, now_us: u64, c: char)
    ensures
        ({
            let code = "Key"@.push(c);
            &&& key_of_code(code) is Some <==> c == 'W' || c == 'A' || c == 'S' || c == 'D' || c
                == 'T'
            &&& key_of_code(code) matches Some(key) ==> {
                let t = input::after_key_down(s, key, now_us);
                &&& c == 'W' ==> t == (input::InputState { forward: true, ..s })
                &&& c == 'S' ==> t == (input::InputState { backward: true, ..s })
                &&& c == 'A' ==> t == (input::InputState { left: true, ..s })
                &&& c == 'D' ==> t == (input::InputState { right: true, ..s })
                &&& c == 'T' ==> t == (input::InputState { chat_open: true, ..s })
            }
        }),
{
    reveal_strlit("Key");
    reveal_strlit("KeyW");
    reveal_strlit("KeyA");
    reveal_strlit("KeyS");
    reveal_strlit("KeyD");
    reveal_strlit("KeyT");
    reveal_strlit("Space");
    reveal_strlit("ShiftLeft");
    reveal_strlit("ShiftRight");
    reveal_strlit("Escape");
    reveal_strlit("Digit1");
    reveal_strlit("Digit2");
    reveal_strlit("Digit3");
    reveal_strlit("Digit4");
    reveal_strlit("Digit5");
    reveal_strlit("Digit6");
    reveal_strlit("Digit7");
    reveal_strlit("Digit8");
    reveal_strlit("Digit9");
    let code = "Key"@.push(c);
    assert(code.len() == 4 && code[3] == c);
    assert("KeyW"@[3] == 'W' && "KeyA"@[3] == 'A' && "KeyS"@[3] == 'S' && "KeyD"@[3] == 'D'
        && "KeyT"@[3] == 'T');
    assert(c == 'W' ==> code =~= "KeyW"@);
    assert(c == 'A' ==> code =~= "KeyA"@);
    assert(c == 'S' ==> code =~= "KeyS"@);
    assert(c == 'D' ==> code =~= "KeyD"@);
    assert(c == 'T' ==> code =~= "KeyT"@);
}

/// A key with one sign on it types that sign, unless it is pressed for a command or stands for a
/// control character. No key of the menus types anything but the space bar.
pub proof fn law_keys_type_what_is_on_them(key: Seq<char>, m: KeyModifiers, c: char)
    ensures
        m.ctrl || m.alt || m.meta ==> typed_by(key, m) is None,
        typed_by(key, m) matches Some(typed) ==> typed == key && typed.len() == 1,
        !m.ctrl && !m.alt && !m.meta && !text::is_control(c) ==> typed_by(seq![c], m) == Some(
            seq![c],
        ),
        text::is_control(c) ==> typed_by(seq![c], m) is None,
        typed_by(key, m) == typed_by(key, KeyModifiers { shift: !m.shift, ..m }),
        key.len() > 1 ==> typed_by(key, m) is None,
{
    reveal_strlit("Backspace");
    reveal_strlit("Delete");
    reveal_strlit("Enter");
    reveal_strlit("Tab");
    reveal_strlit("Escape");
    reveal_strlit("ArrowLeft");
    reveal_strlit("ArrowRight");
    reveal_strlit("ArrowUp");
    reveal_strlit("ArrowDown");
    reveal_strlit("Home");
    reveal_strlit("End");
    reveal_strlit("PageUp");
    reveal_strlit("PageDown");
    reveal_strlit(" ");
    let one = seq![c];
    assert(one.len() == 1 && one[0] == c);
    assert(c == ' ' ==> one =~= " "@);
    assert(" "@[0] == ' ');
    assert(!text::is_control(' '));
}

/// The three buttons of the mouse are told apart. Over the game a press goes to the game whatever
/// the button, and only the menu of the browser is held back. Elsewhere it goes to the button that
/// it is, or nowhere.
pub proof fn law_presses_go_where_the_player_is(playing: bool, a: i16, b: i16)
    ensures
        button_of(a) is Some && button_of(a) == button_of(b) ==> a == b,
        button_of(a) is Some <==> 0 <= a <= 2,
        button_of(0) == Some(PointerButton::Primary),
        button_of(2) == Some(PointerButton::Secondary),
        mouse_route(playing, a) is Game <==> playing,
        mouse_route(playing, a) matches MouseRoute::Game { prevent_default } ==> (prevent_default
            <==> button_of(a) == Some(PointerButton::Secondary)),
        !playing ==> (mouse_route(playing, a) is Nowhere <==> button_of(a) is None),
        mouse_route(playing, a) matches MouseRoute::Ui { button } ==> button_of(a) == Some(button),
{
}

/// The keys that would move the page are held back, and those that end or leave a line are not.
pub proof fn law_keys_that_move_the_page_are_held_back(key: UiKey)
    ensures
        moves_page(key) <==> !(key == UiKey::Enter || key == UiKey::Escape || key == UiKey::Delete
            || key == UiKey::Home || key == UiKey::End || key == UiKey::PageUp || key
            == UiKey::PageDown),
{
}

} // verus!
