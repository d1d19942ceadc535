//! The state of keyboard and mouse between two frames.
use vstd::prelude::*;

verus! {

/// How soon the jump key has to be pressed again to count as a double press, in microseconds.
pub const DOUBLE_TAP_WINDOW_US: u64 = 250_000;

/// The keys that the game knows.
#[derive(Copy, Clone, Debug, PartialEq, Eq, Structural)]
pub enum KeyCode {
    KeyW,
    KeyA,
    KeyS,
    KeyD,
    KeyT,
    Space,
    ShiftLeft,
    ShiftRight,
    Escape,
    Digit1,
    Digit2,
    Digit3,
    Digit4,
    Digit5,
    Digit6,
    Digit7,
    Digit8,
    Digit9,
}

/// What keyboard and mouse have reported since the last frame. Fields that end in `held` last as
/// long as the key is down; those that end in `just_pressed` and the requests last for one frame.
#[derive(Copy, Clone, Debug, PartialEq, Eq, Structural)]
pub struct InputState {
    pub forward: bool,
    pub backward: bool,
    pub left: bool,
    pub right: bool,
    pub jump_held: bool,
    pub jump_just_pressed: bool,
    pub sneak: bool,
    pub break_held: bool,
    pub break_just_pressed: bool,
    pub place_held: bool,
    pub place_just_pressed: bool,
    /// The slot of the hotbar that was asked for, counted from zero.
    pub hotbar_request: Option<u8>,
    /// The jump key was pressed twice: change between walking and flying.
    pub fly_toggle_pending: bool,
    pub chat_open: bool,
    pub esc_menu: bool,
    /// How far the mouse has moved, in pixels.
    pub mouse_dx: i64,
    pub mouse_dy: i64,
    pub pointer_locked: bool,
    /// When the jump key was pressed last, unless that press completed a double press.
    pub last_space_press_at_us: Option<u64>,
}

/// The slot of the hotbar that a digit asks for.
pub open spec fn slot_of(key: KeyCode) -> Option<u8> {
    match key {
        KeyCode::Digit1 => Some(0),
        KeyCode::Digit2 => Some(1),
        KeyCode::Digit3 => Some(2),
        KeyCode::Digit4 => Some(3),
        KeyCode::Digit5 => Some(4),
        KeyCode::Digit6 => Some(5),
        KeyCode::Digit7 => Some(6),
        KeyCode::Digit8 => Some(7),
        KeyCode::Digit9 => Some(8),
        _ => None,
    }
}

/// Whether a press of the jump key completes a double press.
pub open spec fn is_double_tap(s: InputState, now_us: u64) -> bool {
    match s.last_space_press_at_us {
        Some(last) => now_us - last < DOUBLE_TAP_WINDOW_US,
        None => false,
    }
}

/// The state after a key was pressed. A key that is held repeats: only the first press counts as
/// one.
pub open spec fn after_key_down(s: InputState, key: KeyCode, now_us: u64) -> InputState {
    match key {
        KeyCode::KeyW => InputState { forward: true, ..s },
        KeyCode::KeyS => InputState { backward: true, ..s },
        KeyCode::KeyA => InputState { left: true, ..s },
        KeyCode::KeyD => InputState { right: true, ..s },
        KeyCode::Space => if s.jump_held {
            s
        } else {
            InputState {
                jump_held: true,
                jump_just_pressed: true,
                fly_toggle_pending: s.fly_toggle_pending || is_double_tap(s, now_us),
                last_space_press_at_us: if is_double_tap(s, now_us) {
                    None
                } else {
                    Some(now_us)
                },
                ..s
            }
        },
        KeyCode::ShiftLeft => InputState { sneak: true, ..s },
        KeyCode::ShiftRight => InputState { sneak: true, ..s },
        KeyCode::KeyT => InputState { chat_open: true, ..s },
        KeyCode::Escape => InputState { esc_menu: true, ..s },
        _ => InputState { hotbar_request: slot_of(key), ..s },
    }
}

/// The state after a key was released.
pub open spec fn after_key_up(s: InputState, key: KeyCode) -> InputState {
    match key {
        KeyCode::KeyW => InputState { forward: false, ..s },
        KeyCode::KeyS => InputState { backward: false, ..s },
        KeyCode::KeyA => InputState { left: false, ..s },
        KeyCode::KeyD => InputState { right: false, ..s },
        KeyCode::Space => InputState { jump_held: false, ..s },
        KeyCode::ShiftLeft => InputState { sneak: false, ..s },
        KeyCode::ShiftRight => InputState { sneak: false, ..s },
        _ => s,
    }
}

/// The state with everything gone that lasts for one frame.
pub open spec fn after_frame(s: InputState) -> InputState {
    InputState {
        mouse_dx: 0,
        mouse_dy: 0,
        jump_just_pressed: false,
        break_just_pressed: false,
        place_just_pressed: false,
        hotbar_request: None,
        fly_toggle_pending: false,
        chat_open: false,
        esc_menu: false,
        ..s
    }
}

/// The state with every key up.
pub open spec fn released(s: InputState) -> InputState {
    InputState {
        forward: false,
        backward: false,
        left: false,
        right: false,
        jump_held: false,
        sneak: false,
        break_held: false,
        place_held: false,
        ..s
    }
}

/// The state as physics takes it while the player does not steer.
pub open spec fn neutral(s: InputState) -> InputState {
    InputState {
        forward: false,
        backward: false,
        left: false,
        right: false,
        jump_held: false,
        jump_just_pressed: false,
        sneak: false,
        ..s
    }
}

/// The state in which nothing has been pressed.
pub open spec fn idle() -> InputState {
    InputState {
        forward: false,
        backward: false,
        left: false,
        right: false,
        jump_held: false,
        jump_just_pressed: false,
        sneak: false,
        break_held: false,
        break_just_pressed: false,
        place_held: false,
        place_just_pressed: false,
        hotbar_request: None,
        fly_toggle_pending: false,
        chat_open: false,
        esc_menu: false,
        mouse_dx: 0,
        mouse_dy: 0,
        pointer_locked: false,
        last_space_press_at_us: None,
    }
}

/// Of three presses of the jump key in quick succession only the second asks for a change between
/// walking and flying.
pub proof fn law_a_double_press_counts_once(s: InputState, a: u64, b: u64, c: u64)
    requires
        !s.jump_held,
        s.last_space_press_at_us is None,
        a <= b <= c,
        b - a < DOUBLE_TAP_WINDOW_US,
    ensures
        ({
            let one = after_key_up(after_key_down(s, KeyCode::Space, a), KeyCode::Space);
            let two = after_key_up(after_key_down(one, KeyCode::Space, b), KeyCode::Space);
            let three = after_key_down(after_frame(two), KeyCode::Space, c);
            &&& one.fly_toggle_pending == s.fly_toggle_pending
            &&& two.fly_toggle_pending
            &&& !three.fly_toggle_pending
        }),
{
}

/// The end of a frame keeps what is held.
pub proof fn law_held_keys_outlast_the_frame(s: InputState)
    ensures
        after_frame(s).forward == s.forward,
        after_frame(s).backward == s.backward,
        after_frame(s).left == s.left,
        after_frame(s).right == s.right,
        after_frame(s).jump_held == s.jump_held,
        after_frame(s).sneak == s.sneak,
        after_frame(s).break_held == s.break_held,
        after_frame(s).place_held == s.place_held,
        after_frame(after_frame(s)) == after_frame(s),
{
}

/// The input after a button of the mouse went down.
pub open spec fn after_button_down(s: InputState, button: u16) -> InputState {
    if button == 0 {
        InputState {
            break_held: true,
            break_just_pressed: s.break_just_pressed || !s.break_held,
            ..s
        }
    } else if button == 2 {
        InputState {
            place_held: true,
            place_just_pressed: s.place_just_pressed || !s.place_held,
            ..s
        }
    } else {
        s
    }
}

/// The input after a button of the mouse went up.
pub open spec fn after_button_up(s: InputState, button: u16) -> InputState {
    if button == 0 {
        InputState { break_held: false, ..s }
    } else if button == 2 {
        InputState { place_held: false, ..s }
    } else {
        s
    }
}

/// The input after the browser has given or taken the pointer.
pub open spec fn after_lock_change(s: InputState, locked: bool, playing: bool) -> InputState {
    InputState {
        pointer_locked: locked,
        esc_menu: s.esc_menu || (s.pointer_locked && !locked && playing),
        ..(if s.pointer_locked != locked {
            released(s)
        } else {
            s
        })
    }
}

/// The sum of two numbers of pixels, as far as it can be counted.
pub open spec fn pixel_sum(a: i64, b: int) -> i64 {
    if a + b > i64::MAX {
        i64::MAX
    } else if a + b < i64::MIN {
        i64::MIN
    } else {
        (a + b) as i64
    }
}

fn add_pixels(a: i64, b: i32) -> (r: i64)
    ensures
        r == pixel_sum(a, b as int),
{
    match a.checked_add(b as i64) {
        Some(sum) => sum,
        None => if b > 0 {
            i64::MAX
        } else {
            i64::MIN
        },
    }
}

impl Default for InputState {
    fn default() -> (r: InputState)
        ensures
            r == idle(),
    {
        InputState {
            forward: false,
            backward: false,
            left: false,
            right: false,
            jump_held: false,
            jump_just_pressed: false,
            sneak: false,
            break_held: false,
            break_just_pressed: false,
            place_held: false,
            place_just_pressed: false,
            hotbar_request: None,
            fly_toggle_pending: false,
            chat_open: false,
            esc_menu: false,
            mouse_dx: 0,
            mouse_dy: 0,
            pointer_locked: false,
            last_space_press_at_us: None,
        }
    }
}

impl InputState {
    /// Ends a frame: forgets what lasts for one frame, keeps what is held.
    pub fn reset_delta(&mut self)
        ensures
            *final(self) == after_frame(*old(self)),
    {
        self.mouse_dx = 0;
        self.mouse_dy = 0;
        self.jump_just_pressed = false;
        self.break_just_pressed = false;
        self.place_just_pressed = false;
        self.hotbar_request = None;
        self.fly_toggle_pending = false;
        self.chat_open = false;
        self.esc_menu = false;
    }

    /// A key was pressed.
    pub fn on_key_down(&mut self, key: KeyCode, now_us: u64)
        ensures
            *final(self) == after_key_down(*old(self), key, now_us),
    {
        let s = *self;
        *self = match key {
            KeyCode::KeyW => InputState { forward: true, ..s },
            KeyCode::KeyS => InputState { backward: true, ..s },
            KeyCode::KeyA => InputState { left: true, ..s },
            KeyCode::KeyD => InputState { right: true, ..s },
            KeyCode::Space => s.jump_pressed(now_us),
            KeyCode::ShiftLeft => InputState { sneak: true, ..s },
            KeyCode::ShiftRight => InputState { sneak: true, ..s },
            KeyCode::KeyT => InputState { chat_open: true, ..s },
            KeyCode::Escape => InputState { esc_menu: true, ..s },
            KeyCode::Digit1 => InputState { hotbar_request: Some(0), ..s },
            KeyCode::Digit2 => InputState { hotbar_request: Some(1), ..s },
            KeyCode::Digit3 => InputState { hotbar_request: Some(2), ..s },
            KeyCode::Digit4 => InputState { hotbar_request: Some(3), ..s },
            KeyCode::Digit5 => InputState { hotbar_request: Some(4), ..s },
            KeyCode::Digit6 => InputState { hotbar_request: Some(5), ..s },
            KeyCode::Digit7 => InputState { hotbar_request: Some(6), ..s },
            KeyCode::Digit8 => InputState { hotbar_request: Some(7), ..s },
            KeyCode::Digit9 => InputState { hotbar_request: Some(8), ..s },
        };
    }

    fn jump_pressed(self, now_us: u64) -> (r: InputState)
        ensures
            r == after_key_down(self, KeyCode::Space, now_us),
    {
        if self.jump_held {
            return self;
        }
        let triggered = match self.last_space_press_at_us {
            Some(last) => now_us < last || now_us - last < DOUBLE_TAP_WINDOW_US,
            None => false,
        };
        InputState {
            jump_held: true,
            jump_just_pressed: true,
            fly_toggle_pending: self.fly_toggle_pending || triggered,
            last_space_press_at_us: if triggered {
                None
            } else {
                Some(now_us)
            },
            ..self
        }
    }

    /// A key was released.
    pub fn on_key_up(&mut self, key: KeyCode)
        ensures
            *final(self) == after_key_up(*old(self), key),
    {
        let s = *self;
        *self = match key {
            KeyCode::KeyW => InputState { forward: false, ..s },
            KeyCode::KeyS => InputState { backward: false, ..s },
            KeyCode::KeyA => InputState { left: false, ..s },
            KeyCode::KeyD => InputState { right: false, ..s },
            KeyCode::Space => InputState { jump_held: false, ..s },
            KeyCode::ShiftLeft => InputState { sneak: false, ..s },
            KeyCode::ShiftRight => InputState { sneak: false, ..s },
            _ => s,
        };
    }

    /// A mouse button was pressed: the left one breaks, the right one places.
    pub fn on_mouse_down(&mut self, button: u16)
        ensures
            *final(self) == after_button_down(*old(self), button),
            *final(self) == (if button == 0 {
                InputState {
                    break_held: true,
                    break_just_pressed: old(self).break_just_pressed || !old(self).break_held,
                    ..*old(self)
                }
            } else if button == 2 {
                InputState {
                    place_held: true,
                    place_just_pressed: old(self).place_just_pressed || !old(self).place_held,
                    ..*old(self)
                }
            } else {
                *old(self)
            }),
    {
        if button == 0 {
            if !self.break_held {
                self.break_just_pressed = true;
            }
            self.break_held = true;
        } else if button == 2 {
            if !self.place_held {
                self.place_just_pressed = true;
            }
            self.place_held = true;
        }
    }

    /// A mouse button was released.
    pub fn on_mouse_up(&mut self, button: u16)
        ensures
            *final(self) == after_button_up(*old(self), button),
            *final(self) == (if button == 0 {
                InputState { break_held: false, ..*old(self) }
            } else if button == 2 {
                InputState { place_held: false, ..*old(self) }
            } else {
                *old(self)
            }),
    {
        if button == 0 {
            self.break_held = false;
        } else if button == 2 {
            self.place_held = false;
        }
    }

    /// The mouse was moved.
    pub fn on_mouse_move(&mut self, dx: i32, dy: i32)
        ensures
            *final(self) == (InputState {
                mouse_dx: pixel_sum(old(self).mouse_dx, dx as int),
                mouse_dy: pixel_sum(old(self).mouse_dy, dy as int),
                ..*old(self)
            }),
    {
        self.mouse_dx = add_pixels(self.mouse_dx, dx);
        self.mouse_dy = add_pixels(self.mouse_dy, dy);
    }

    /// Lets go of every key and button.
    pub fn clear_held(&mut self)
        ensures
            *final(self) == released(*old(self)),
    {
        self.forward = false;
        self.backward = false;
        self.left = false;
        self.right = false;
        self.jump_held = false;
        self.sneak = false;
        self.break_held = false;
        self.place_held = false;
    }

    /// The browser has locked or released the pointer. Where the player loses the pointer in the
    /// middle of the game, the browser may have kept the escape key to itself, so that the menu is
    /// asked for here.
    pub fn pointer_lock_changed(&mut self, locked: bool, playing: bool)
        ensures
            *final(self) == after_lock_change(*old(self), locked, playing),
            *final(self) == (InputState {
                pointer_locked: locked,
                esc_menu: old(self).esc_menu || (old(self).pointer_locked && !locked && playing),
                ..(if old(self).pointer_locked != locked {
                    released(*old(self))
                } else {
                    *old(self)
                })
            }),
    {
        let was_locked = self.pointer_locked;
        if was_locked != locked {
            self.clear_held();
            if !locked && was_locked && playing {
                self.esc_menu = true;
            }
        }
        self.pointer_locked = locked;
    }
}

/// Where the player steers: forward, to the right, and up, each one, minus one or zero.
#[derive(Copy, Clone, Debug, PartialEq, Eq, Structural)]
pub struct Steering {
    pub forward: i32,
    pub right: i32,
    pub up: i32,
}

/// The direction of two opposite keys.
pub open spec fn balance(one: bool, other: bool) -> int {
    (if one {
        1int
    } else {
        0
    }) - (if other {
        1int
    } else {
        0
    })
}

fn balance_of(one: bool, other: bool) -> (r: i32)
    ensures
        r == balance(one, other),
{
    if one == other {
        0
    } else if one {
        1
    } else {
        -1
    }
}

/// Where the player steers. Keys in opposite directions cancel out.
pub fn steering(input: &InputState) -> (r: Steering)
    ensures
        r.forward == balance(input.forward, input.backward),
        r.right == balance(input.right, input.left),
        r.up == balance(input.jump_held, input.sneak),
{
    Steering {
        forward: balance_of(input.forward, input.backward),
        right: balance_of(input.right, input.left),
        up: balance_of(input.jump_held, input.sneak),
    }
}

/// The input as physics takes it while the player does not steer.
pub fn neutral_input(orig: &InputState) -> (r: InputState)
    ensures
        r == neutral(*orig),
{
    let mut n = *orig;
    n.forward = false;
    n.backward = false;
    n.left = false;
    n.right = false;
    n.jump_held = false;
    n.jump_just_pressed = false;
    n.sneak = false;
    n
}

/// A key that is let go leaves no trace of the direction that it gave, and a key moves one way
/// only.
pub proof fn law_direction_keys_hold_and_release(s: InputState, now_us: u64)
    ensures
        after_key_down(s, KeyCode::KeyW, now_us).forward,
        after_key_down(s, KeyCode::KeyS, now_us).backward,
        after_key_down(s, KeyCode::KeyA, now_us).left,
        after_key_down(s, KeyCode::KeyD, now_us).right,
        after_key_down(s, KeyCode::ShiftLeft, now_us).sneak,
        !s.forward ==> after_key_up(after_key_down(s, KeyCode::KeyW, now_us), KeyCode::KeyW) == s,
        !s.backward ==> after_key_up(after_key_down(s, KeyCode::KeyS, now_us), KeyCode::KeyS) == s,
        !s.left ==> after_key_up(after_key_down(s, KeyCode::KeyA, now_us), KeyCode::KeyA) == s,
        !s.right ==> after_key_up(after_key_down(s, KeyCode::KeyD, now_us), KeyCode::KeyD) == s,
        after_key_down(s, KeyCode::ShiftLeft, now_us) == after_key_down(
            s,
            KeyCode::ShiftRight,
            now_us,
        ),
        after_key_up(s, KeyCode::ShiftLeft) == after_key_up(s, KeyCode::ShiftRight),
        !s.sneak ==> after_key_up(
            after_key_down(s, KeyCode::ShiftLeft, now_us),
            KeyCode::ShiftRight,
        ) == s,
{
}

/// Each key touches its own field: the directions come from the four letters alone, and chat, menu
/// and hotbar each from their own keys.
pub proof fn law_keys_have_their_own_fields(s: InputState, key: KeyCode, now_us: u64)
    ensures
        ({
            let down = after_key_down(s, key, now_us);
            &&& down.forward != s.forward ==> key == KeyCode::KeyW
            &&& down.backward != s.backward ==> key == KeyCode::KeyS
            &&& down.left != s.left ==> key == KeyCode::KeyA
            &&& down.right != s.right ==> key == KeyCode::KeyD
            &&& down.sneak != s.sneak ==> key == KeyCode::ShiftLeft || key == KeyCode::ShiftRight
            &&& down.jump_held != s.jump_held ==> key == KeyCode::Space
            &&& down.chat_open == (s.chat_open || key == KeyCode::KeyT)
            &&& down.esc_menu == (s.esc_menu || key == KeyCode::Escape)
            &&& down.hotbar_request == (if slot_of(key) is Some {
                slot_of(key)
            } else {
                s.hotbar_request
            })
            &&& down.mouse_dx == s.mouse_dx && down.mouse_dy == s.mouse_dy
            &&& down.break_held == s.break_held && down.place_held == s.place_held
            &&& down.break_just_pressed == s.break_just_pressed
            &&& down.place_just_pressed == s.place_just_pressed
            &&& down.pointer_locked == s.pointer_locked
        }),
{
}

/// Letting a key go touches nothing but what the key holds.
pub proof fn law_a_key_that_is_let_go_ends_what_it_held(s: InputState, key: KeyCode)
    ensures
        ({
            let up = after_key_up(s, key);
            &&& up == (InputState {
                forward: up.forward,
                backward: up.backward,
                left: up.left,
                right: up.right,
                sneak: up.sneak,
                jump_held: up.jump_held,
                ..s
            })
            &&& up.forward != s.forward ==> key == KeyCode::KeyW
            &&& up.backward != s.backward ==> key == KeyCode::KeyS
            &&& up.left != s.left ==> key == KeyCode::KeyA
            &&& up.right != s.right ==> key == KeyCode::KeyD
            &&& up.sneak != s.sneak ==> key == KeyCode::ShiftLeft || key == KeyCode::ShiftRight
            &&& up.jump_held != s.jump_held ==> key == KeyCode::Space
        }),
{
}

/// A press of the space bar jumps once, however long it is held, and two presses that are a
/// quarter of a second or more apart do not start or end flying.
pub proof fn law_the_space_bar_jumps(s: InputState, a: u64, b: u64)
    requires
        a <= b,
    ensures
        ({
            let one = after_key_down(s, KeyCode::Space, a);
            &&& one.jump_held
            &&& !s.jump_held ==> one.jump_just_pressed
            &&& after_key_down(one, KeyCode::Space, b) == one
            &&& !after_key_down(after_frame(one), KeyCode::Space, b).jump_just_pressed
            &&& !s.jump_held && s.last_space_press_at_us is None && b - a >= 250_000 ==> {
                let two = after_key_down(after_key_up(one, KeyCode::Space), KeyCode::Space, b);
                &&& two.fly_toggle_pending == s.fly_toggle_pending
                &&& two.jump_just_pressed
                &&& two.last_space_press_at_us == Some(b)
            }
            &&& !after_key_up(one, KeyCode::Space).jump_held
        }),
{
}

/// The nine digits choose the nine places of the hotbar, each its own and from left to right, and
/// no other key chooses one.
pub proof fn law_digits_choose_places(a: KeyCode, b: KeyCode)
    ensures
        slot_of(a) matches Some(n) ==> n < 9,
        slot_of(a) is Some && slot_of(a) == slot_of(b) ==> a == b,
        slot_of(a) is None <==> (a == KeyCode::KeyW || a == KeyCode::KeyA || a == KeyCode::KeyS || a
            == KeyCode::KeyD || a == KeyCode::KeyT || a == KeyCode::Space || a
            == KeyCode::ShiftLeft || a == KeyCode::ShiftRight || a == KeyCode::Escape),
        slot_of(KeyCode::Digit1)->0 + 1 == slot_of(KeyCode::Digit2)->0,
        slot_of(KeyCode::Digit2)->0 + 1 == slot_of(KeyCode::Digit3)->0,
        slot_of(KeyCode::Digit3)->0 + 1 == slot_of(KeyCode::Digit4)->0,
        slot_of(KeyCode::Digit4)->0 + 1 == slot_of(KeyCode::Digit5)->0,
        slot_of(KeyCode::Digit5)->0 + 1 == slot_of(KeyCode::Digit6)->0,
        slot_of(KeyCode::Digit6)->0 + 1 == slot_of(KeyCode::Digit7)->0,
        slot_of(KeyCode::Digit7)->0 + 1 == slot_of(KeyCode::Digit8)->0,
        slot_of(KeyCode::Digit8)->0 + 1 == slot_of(KeyCode::Digit9)->0,
{
}

/// The first button of the mouse breaks and the third places. Each is a fresh press only when it
/// was not held already, a release leaves the press to the next frame, and no other button does
/// anything.
pub proof fn law_mouse_buttons_break_and_place(s: InputState, button: u16)
    ensures
        ({
            let left = after_button_down(s, 0);
            let right = after_button_down(s, 2);
            &&& left.break_held && (!s.break_held ==> left.break_just_pressed)
            &&& left.place_held == s.place_held && left.place_just_pressed == s.place_just_pressed
            &&& right.place_held && (!s.place_held ==> right.place_just_pressed)
            &&& right.break_held == s.break_held && right.break_just_pressed == s.break_just_pressed
            &&& !after_button_down(after_frame(left), 0).break_just_pressed
            &&& !after_button_down(after_frame(right), 2).place_just_pressed
            &&& !after_button_up(left, 0).break_held
            &&& !after_button_up(right, 2).place_held
            &&& after_button_up(left, 0).break_just_pressed == left.break_just_pressed
            &&& after_button_up(right, 2).place_just_pressed == right.place_just_pressed
            &&& after_button_up(s, 0).place_held == s.place_held
            &&& after_button_up(s, 2).break_held == s.break_held
            &&& !s.break_held && s.break_just_pressed ==> after_button_up(left, 0) == s
            &&& !s.place_held && s.place_just_pressed ==> after_button_up(right, 2) == s
            &&& button != 0 && button != 2 ==> after_button_down(s, button) == s
                && after_button_up(s, button) == s
        }),
{
}

/// Losing the pointer in play opens the menu and lets every key go. Nothing else that happens to
/// the pointer opens it, and what is pressed stays pressed while nothing changes.
pub proof fn law_a_lost_pointer_opens_the_menu(s: InputState, locked: bool, playing: bool)
    ensures
        ({
            let t = after_lock_change(s, locked, playing);
            &&& t.pointer_locked == locked
            &&& s.pointer_locked && !locked && playing ==> t.esc_menu
            &&& !(s.pointer_locked && !locked && playing) ==> t.esc_menu == s.esc_menu
            &&& s.pointer_locked == locked ==> t == s
            &&& s.pointer_locked != locked ==> !t.forward && !t.backward && !t.left && !t.right
                && !t.jump_held && !t.sneak && !t.break_held && !t.place_held
            &&& t.hotbar_request == s.hotbar_request
            &&& t.mouse_dx == s.mouse_dx && t.mouse_dy == s.mouse_dy
            &&& t.chat_open == s.chat_open
            &&& t.fly_toggle_pending == s.fly_toggle_pending
            &&& t.jump_just_pressed == s.jump_just_pressed
        }),
{
}

/// Letting every key go is done at once and leaves what was asked for once to be taken up.
pub proof fn law_released_keys_are_all_up(s: InputState)
    ensures
        released(released(s)) == released(s),
        !released(s).forward && !released(s).backward && !released(s).left && !released(s).right,
        !released(s).jump_held && !released(s).sneak,
        !released(s).break_held && !released(s).place_held,
        released(s).break_just_pressed == s.break_just_pressed,
        released(s).place_just_pressed == s.place_just_pressed,
        released(s).hotbar_request == s.hotbar_request,
        released(s).esc_menu == s.esc_menu && released(s).chat_open == s.chat_open,
        !neutral(s).forward && !neutral(s).backward && !neutral(s).left && !neutral(s).right,
        !neutral(s).jump_held && !neutral(s).sneak && !neutral(s).jump_just_pressed,
        neutral(s).break_held == s.break_held && neutral(s).place_held == s.place_held,
        neutral(s).fly_toggle_pending == s.fly_toggle_pending,
        neutral(s).mouse_dx == s.mouse_dx && neutral(s).mouse_dy == s.mouse_dy,
        neutral(neutral(s)) == neutral(s),
        released(idle()) == idle() && neutral(idle()) == idle() && after_frame(idle()) == idle(),
{
}

/// What is asked for once is gone after the frame, and only that.
pub proof fn law_requests_last_one_frame(s: InputState)
    ensures
        ({
            let t = after_frame(s);
            &&& !t.jump_just_pressed && !t.break_just_pressed && !t.place_just_pressed
            &&& !t.fly_toggle_pending && !t.chat_open && !t.esc_menu
            &&& t.hotbar_request is None
            &&& t.mouse_dx == 0 && t.mouse_dy == 0
            &&& t.pointer_locked == s.pointer_locked
            &&& t.last_space_press_at_us == s.last_space_press_at_us
        }),
{
}

/// Two keys that pull in opposite directions cancel each other out.
pub proof fn law_opposite_keys_cancel(one: bool, other: bool)
    ensures
        balance(one, one) == 0,
        balance(one, other) == -balance(other, one),
        balance(true, false) == 1,
        balance(one, other) == 0 <==> one == other,
{
}

/// Movements of the mouse add up as long as the sum can be held, and stop at the end of what can.
pub proof fn law_mouse_movements_add_up(a: i64, b: i32, c: i32)
    ensures
        i64::MIN <= a + b <= i64::MAX ==> pixel_sum(a, b as int) == a + b,
        b >= 0 ==> pixel_sum(a, b as int) >= a,
        b <= 0 ==> pixel_sum(a, b as int) <= a,
        b <= c ==> pixel_sum(a, b as int) <= pixel_sum(a, c as int),
        a + b > i64::MAX ==> pixel_sum(a, b as int) == i64::MAX,
        a + b < i64::MIN ==> pixel_sum(a, b as int) == i64::MIN,
{
}

} // verus!
