//! The lines shown over the game.
use vstd::prelude::*;
use vstd::string::*;

use crate::app_state::{CameraMode, GameMode};
use crate::storage;
use crate::storage::{format_storage_bytes, QuotaInfo};
use crate::text;
use crate::text::{joined, push_decimal};

verus! {

/// The line about how the player moves.
pub open spec fn movement_text(mode: CameraMode, on_ground: bool) -> Seq<char> {
    "MODE "@ + (match mode {
        CameraMode::Walk => "Walk"@,
        CameraMode::Fly => "Fly"@,
    }) + "  "@ + (if on_ground {
        "[ground]"@
    } else {
        ""@
    })
}

/// The line about how the player moves.
pub fn movement_line(mode: CameraMode, on_ground: bool) -> (r: String)
    ensures
        r@ == movement_text(mode, on_ground),
{
    let mut out = "MODE ".to_owned();
    match mode {
        CameraMode::Walk => out.append("Walk"),
        CameraMode::Fly => out.append("Fly"),
    }
    out.append("  ");
    if on_ground {
        out.append("[ground]");
    } else {
        out.append("");
    }
    out
}

/// The line about the chunks.
pub fn chunks_line(loaded: usize, queued: usize) -> (r: String)
    ensures
        r@ == "CHUNKS "@ + text::decimal(loaded as nat) + "  MESH_Q "@ + text::decimal(
            queued as nat,
        ),
{
    let mut out = "CHUNKS ".to_owned();
    push_decimal(&mut out, loaded as u64);
    out.append("  MESH_Q ");
    push_decimal(&mut out, queued as u64);
    out
}

/// The line about the pass that draws depth first.
pub fn depth_line(enabled: bool) -> (r: &'static str)
    ensures
        r@ == (if enabled {
            "DEPTH_PRE ON"@
        } else {
            "DEPTH_PRE OFF"@
        }),
{
    if enabled {
        "DEPTH_PRE ON"
    } else {
        "DEPTH_PRE OFF"
    }
}

/// The space that a world may take: what the others leave of all.
pub open spec fn space_left(quota: u64, others: u64) -> u64 {
    if quota < others {
        0
    } else {
        (quota - others) as u64
    }
}

/// The space that a world may take: what the others leave of all.
pub fn available_for_world(quota: QuotaInfo, other_worlds_bytes: u64) -> (r: u64)
    ensures
        r == space_left(quota.quota, other_worlds_bytes),
{
    quota.quota.saturating_sub(other_worlds_bytes)
}

/// Whether a line tells how much of its space a world takes.
pub open spec fn tells_space(t: Seq<char>, taken: u64, left: u64) -> bool {
    exists|a: Seq<char>, b: Seq<char>|
        #[trigger] storage::shows_size(a, taken) && #[trigger] storage::shows_size(b, left) && t
            == "SAVE "@ + a + " / "@ + b
}

/// The line about the space that the world takes.
pub fn save_line(current_world_bytes: u64, available: u64) -> (r: String)
    ensures
        tells_space(r@, current_world_bytes, available),
{
    let taken = format_storage_bytes(current_world_bytes);
    let left = format_storage_bytes(available);
    let mut out = joined("SAVE ", taken.as_str());
    out.append(" / ");
    out.append(left.as_str());
    proof {
        assert(storage::shows_size(taken@, current_world_bytes));
        assert(storage::shows_size(left@, available));
    }
    out
}

/// The line about storage that does not work.
pub fn save_error_line(error: &str) -> (r: String)
    ensures
        r@ == "SAVE ERR "@ + error@,
{
    joined("SAVE ERR ", error)
}

/// The line about what is drawn.
pub fn drawing_line(visible: usize, culled: usize, vertices: u32, indices: u32) -> (r: String)
    ensures
        r@ == "VISIBLE "@ + text::decimal(visible as nat) + "  CULLED "@ + text::decimal(
            culled as nat,
        ) + "  DRAW_V/I "@ + text::decimal(vertices as nat) + "/"@ + text::decimal(indices as nat),
{
    let mut out = "VISIBLE ".to_owned();
    push_decimal(&mut out, visible as u64);
    out.append("  CULLED ");
    push_decimal(&mut out, culled as u64);
    out.append("  DRAW_V/I ");
    push_decimal(&mut out, vertices as u64);
    out.append("/");
    push_decimal(&mut out, indices as u64);
    out
}

/// The word for the part in which the player takes the game.
pub open spec fn mode_word(mode: GameMode) -> Seq<char> {
    match mode {
        GameMode::Local => "LOCAL"@,
        GameMode::Host => "HOST"@,
        GameMode::Remote => "REMOTE"@,
    }
}

/// The line about the connection: the part of the player, the time a message takes, as it was
/// written out, and the room.
pub fn network_line(mode: GameMode, round_trip: &str, room_id: &str) -> (r: String)
    ensures
        r@ == "NET "@ + mode_word(mode) + "  RTT "@ + round_trip@ + (if room_id@.len() == 0 {
            Seq::<char>::empty()
        } else {
            "  ROOM "@ + room_id@
        }),
{
    let mut out = "NET ".to_owned();
    match mode {
        GameMode::Local => out.append("LOCAL"),
        GameMode::Host => out.append("HOST"),
        GameMode::Remote => out.append("REMOTE"),
    }
    out.append("  RTT ");
    out.append(round_trip);
    if room_id.unicode_len() > 0 {
        let room = joined("  ROOM ", room_id);
        out.append(room.as_str());
    } else {
        proof {
            assert(out@ + Seq::<char>::empty() =~= out@);
        }
    }
    out
}

/// The line about players whose messages are relayed; none where there is none.
pub fn relay_line(relayed_peer_count: usize) -> (r: Option<String>)
    ensures
        text::content_of(r) == (if relayed_peer_count > 0 {
            Some("RELAY "@ + text::decimal(relayed_peer_count as nat) + " peer(s) (relaying)"@)
        } else {
            None
        }),
{
    if relayed_peer_count == 0 {
        return None;
    }
    let mut out = "RELAY ".to_owned();
    push_decimal(&mut out, relayed_peer_count as u64);
    out.append(" peer(s) (relaying)");
    Some(out)
}

/// What the player can do now.
pub fn hint_line(pointer_locked: bool) -> (r: &'static str)
    ensures
        r@ == (if pointer_locked {
            "WASD walk | Space jump (\u{d7}2 = fly) | LMB break | RMB place | 1-9 hotbar | ESC release"@
        } else {
            "Click to enter camera control"@
        }),
{
    if pointer_locked {
        "WASD walk | Space jump (\u{d7}2 = fly) | LMB break | RMB place | 1-9 hotbar | ESC release"
    } else {
        "Click to enter camera control"
    }
}

/// What is left for a world is what the others have not taken, and never less than nothing.
pub proof fn law_space_is_what_others_leave(quota: u64, others: u64)
    ensures
        others <= quota ==> space_left(quota, others) + others == quota,
        others >= quota ==> space_left(quota, others) == 0,
        space_left(quota, 0) == quota,
{
}

/// The modes are told apart by their words.
pub proof fn law_modes_have_their_own_words(a: GameMode, b: GameMode)
    ensures
        mode_word(a) == mode_word(b) <==> a == b,
        mode_word(GameMode::Local).len() == 5 && mode_word(GameMode::Local)[0] == 'L',
        mode_word(GameMode::Host).len() == 4 && mode_word(GameMode::Host)[0] == 'H',
        mode_word(GameMode::Remote).len() == 6 && mode_word(GameMode::Remote)[0] == 'R',
{
    reveal_strlit("LOCAL");
    reveal_strlit("HOST");
    reveal_strlit("REMOTE");
    assert(mode_word(a).len() == mode_word(b).len() <==> a == b);
}

/// Standing on the ground is shown behind the way of moving, and being in the air is not.
pub proof fn law_the_ground_is_shown(mode: CameraMode)
    ensures
        movement_text(mode, true) == movement_text(mode, false) + "[ground]"@,
        movement_text(CameraMode::Walk, false) == "MODE Walk  "@,
        movement_text(CameraMode::Fly, false) == "MODE Fly  "@,
{
    reveal_strlit("MODE ");
    reveal_strlit("Walk");
    reveal_strlit("Fly");
    reveal_strlit("  ");
    reveal_strlit("");
    reveal_strlit("MODE Walk  ");
    reveal_strlit("MODE Fly  ");
    assert(movement_text(mode, true) =~= movement_text(mode, false) + "[ground]"@);
    assert(movement_text(CameraMode::Walk, false) =~= "MODE Walk  "@);
    assert(movement_text(CameraMode::Fly, false) =~= "MODE Fly  "@);
}

/// The line on saving gives what is taken first and what is left behind it.
pub proof fn law_the_save_line_begins_with_what_is_taken(t: Seq<char>, taken: u64, left: u64)
    requires
        tells_space(t, taken, left),
    ensures
        exists|a: Seq<char>| #[trigger]
            storage::shows_size(a, taken) && ("SAVE "@ + a + " / "@).is_prefix_of(t),
        exists|b: Seq<char>| #[trigger]
            storage::shows_size(b, left) && (" / "@ + b).is_suffix_of(t),
{
    let (a, b) = choose|a: Seq<char>, b: Seq<char>|
        #[trigger] storage::shows_size(a, taken) && #[trigger] storage::shows_size(b, left) && t
            == "SAVE "@ + a + " / "@ + b;
    assert(("SAVE "@ + a + " / "@).is_prefix_of(t));
    assert(t =~= ("SAVE "@ + a) + (" / "@ + b));
    assert((" / "@ + b).is_suffix_of(t));
}

} // verus!
