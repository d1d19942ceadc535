//! The lobby: what the player types there, what its buttons ask for, and the list of saved worlds.
use vstd::prelude::*;
use vstd::string::*;

use crate::app_state::GameMode;
use crate::storage;
use crate::storage::{
    format_storage_bytes, seed_from_key, QuotaInfo, StorageOverview, WorldSummary,
};
use crate::text;
use crate::text::{chars_of, joined, parse_u64, push_decimal, trim_text};

verus! {

/// What a button of the lobby asks for.
#[allow(inconsistent_fields)]
#[derive(Clone, Debug)]
pub enum LobbyAction {
    /// Without a seed one is drawn.
    StartSinglePlayer { seed: Option<u64>, display_name: String },
    /// Without a room name one is drawn.
    CreateRoom { room_id: String, seed: Option<u64>, display_name: String },
    JoinRoom { room_id: String, display_name: String },
    /// `None` stands for a new world.
    SelectSave { key: Option<String> },
    DeleteSave { key: String },
    RefreshSaves,
}

/// What the page shown while connecting asks for.
#[derive(Clone, Debug)]
pub enum ConnectingAction {
    Cancel,
}

/// What the lobby keeps between frames.
#[derive(Clone, Debug)]
pub struct LobbyState {
    pub display_name: String,
    pub seed_input: String,
    pub room_id_input: String,
    pub error_message: Option<String>,
    /// The room name that was drawn last, shown so that it can be shared.
    pub last_generated_room: Option<String>,
    pub saved_worlds: Vec<WorldSummary>,
    pub storage_quota: Option<QuotaInfo>,
    pub saves_loading: bool,
    pub saves_loaded: bool,
    /// The chosen world; `None` stands for a new one.
    pub selected_save: Option<String>,
}

/// The name that a player goes by.
pub open spec fn name_of(typed: Seq<char>) -> Seq<char> {
    if text::trimmed(typed).len() == 0 {
        "Player"@
    } else {
        text::trimmed(typed)
    }
}

/// The message about a seed that is no number.
pub open spec fn seed_message() -> Seq<char> {
    "Seed must be an integer from 0 to 18446744073709551615"@
}

/// Whether what was typed as a seed comes out as `r`.
pub open spec fn reads_as_seed(typed: Seq<char>, r: Result<Option<u64>, Seq<char>>) -> bool {
    let inner = text::trimmed(typed);
    if inner.len() == 0 {
        r == Ok::<Option<u64>, Seq<char>>(None)
    } else {
        match text::number_of(inner) {
            Some(n) => if n <= u64::MAX {
                r == Ok::<Option<u64>, Seq<char>>(Some(n as u64))
            } else {
                r == Err::<Option<u64>, Seq<char>>(seed_message())
            },
            None => r == Err::<Option<u64>, Seq<char>>(seed_message()),
        }
    }
}

/// A result with the content of its message.
pub open spec fn seed_result(r: Result<Option<u64>, String>) -> Result<Option<u64>, Seq<char>> {
    match r {
        Ok(seed) => Ok(seed),
        Err(message) => Err(message@),
    }
}

/// Whether the seed for the chosen world, or for a new one, comes out as `r`.
pub open spec fn wants_seed(s: LobbyState, r: Result<Option<u64>, Seq<char>>) -> bool {
    match s.selected_save {
        Some(key) => match r {
            Ok(Some(seed)) => storage::names_seed(key@, seed),
            Ok(None) => forall|seed: u64| !storage::names_seed(key@, seed),
            Err(_) => false,
        },
        None => reads_as_seed(s.seed_input@, r),
    }
}

/// Characters of a room name.
pub open spec fn is_room_char(c: char) -> bool {
    ('a' <= c <= 'z') || ('0' <= c <= '9') || c == '_' || c == '-'
}

/// Names that a room can have.
pub open spec fn is_room_id(s: Seq<char>) -> bool {
    4 <= s.len() <= 12 && forall|i: int| 0 <= i < s.len() ==> is_room_char(#[trigger] s[i])
}

/// What is wrong with the name of a room.
pub open spec fn room_complaint(s: Seq<char>) -> Option<Seq<char>> {
    if s.len() == 0 {
        Some("Room ID cannot be empty"@)
    } else if s.len() < 4 || s.len() > 12 {
        Some("Room ID must be 4-12 characters"@)
    } else if !is_room_id(s) {
        Some("Room ID may only contain a-z, 0-9, _, -"@)
    } else {
        None
    }
}

/// A drawn character: the letters first, then the digits.
pub open spec fn drawn_char(b: u8) -> char {
    let k = b as int % 36;
    if k < 26 {
        (97 + k) as char
    } else {
        (48 + k - 26) as char
    }
}

/// Names of six letters and digits, as they are drawn.
pub open spec fn is_drawn_name(s: Seq<char>) -> bool {
    s.len() == 6 && forall|i: int|
        0 <= i < s.len() ==> ('a' <= #[trigger] s[i] <= 'z') || ('0' <= s[i] <= '9')
}

/// The room name that drawn bytes stand for.
pub open spec fn drawn_room(bytes: Seq<u8>) -> Seq<char> {
    Seq::new(bytes.len(), |i: int| drawn_char(bytes[i]))
}

/// The number that bytes stand for, the lowest first.
pub open spec fn number_of_bytes(bytes: Seq<u8>) -> nat
    decreases bytes.len(),
{
    if bytes.len() == 0 {
        0
    } else {
        bytes[0] as nat + 256 * number_of_bytes(bytes.drop_first())
    }
}

/// A room name drawn from any six bytes can be used, and so can the one that stands in for it.
pub proof fn law_drawn_rooms_are_valid(bytes: Seq<u8>)
    requires
        bytes.len() == 6,
    ensures
        is_drawn_name(drawn_room(bytes)),
        is_room_id(drawn_room(bytes)),
        is_room_id("voxweb"@),
{
    let name = drawn_room(bytes);
    assert forall|i: int| 0 <= i < 6 implies ('a' <= #[trigger] name[i] <= 'z') || ('0' <= name[i]
        <= '9') by {
        let k = bytes[i] as int % 36;
        assert(0 <= k < 36);
    }
    lemma_drawn_name_is_valid(name);
    lemma_stand_in_is_drawn_name();
    lemma_drawn_name_is_valid("voxweb"@);
}

proof fn lemma_drawn_name_is_valid(s: Seq<char>)
    requires
        is_drawn_name(s),
    ensures
        is_room_id(s),
{
}

proof fn lemma_stand_in_is_drawn_name()
    ensures
        is_drawn_name("voxweb"@),
{
    reveal_strlit("voxweb");
}

/// A name has no complaint exactly if it can be used.
pub proof fn law_only_room_ids_pass(s: Seq<char>)
    ensures
        room_complaint(s) is None <==> is_room_id(s),
{
}

/// Reads what was typed as a seed. Nothing typed asks for one to be drawn.
pub fn parse_seed(input: &str) -> (r: Result<Option<u64>, String>)
    ensures
        reads_as_seed(input@, seed_result(r)),
{
    let inner = trim_text(input);
    if inner.as_str().unicode_len() == 0 {
        return Ok(None);
    }
    match parse_u64(inner.as_str()) {
        Some(seed) => Ok(Some(seed)),
        None => Err("Seed must be an integer from 0 to 18446744073709551615".to_owned()),
    }
}

/// Looks whether a room can have a name.
pub fn validate_room_id(id: &str) -> (r: Result<(), String>)
    ensures
        match r {
            Ok(_) => room_complaint(id@) is None,
            Err(message) => room_complaint(id@) == Some(message@),
        },
{
    let chars = chars_of(id);
    if chars.len() == 0 {
        return Err("Room ID cannot be empty".to_owned());
    }
    if chars.len() < 4 || chars.len() > 12 {
        return Err("Room ID must be 4-12 characters".to_owned());
    }
    let mut i: usize = 0;
    while i < chars.len()
        invariant
            i <= chars@.len(),
            chars@ == id@,
            4 <= chars@.len() <= 12,
            forall|k: int| 0 <= k < i ==> is_room_char(#[trigger] chars@[k]),
        decreases chars@.len() - i,
    {
        let c: char = chars[i];
        let ok = ('a' <= c && c <= 'z') || ('0' <= c && c <= '9') || c == '_' || c == '-';
        if !ok {
            proof {
                assert(!is_room_char(id@[i as int]));
            }
            return Err("Room ID may only contain a-z, 0-9, _, -".to_owned());
        }
        i = i + 1;
    }
    Ok(())
}

/// Calls `getrandom::getrandom` on a buffer of the given length. Nothing is said of the bytes but
/// their number: they are random. `None` stands for an error of that function.
#[verifier::external_body]
fn random_bytes(n: usize) -> (r: Option<Vec<u8>>)
    ensures
        r matches Some(bytes) ==> bytes@.len() == n,
{
    let mut buf = vec![0u8; n];
    match getrandom::getrandom(&mut buf) {
        Ok(()) => Some(buf),
        Err(_) => None,
    }
}

/// The room name that drawn bytes stand for; without bytes a fixed name stands in.
pub fn room_id_of_bytes(bytes: Option<Vec<u8>>) -> (r: String)
    ensures
        match bytes {
            Some(bytes) => r@ == drawn_room(bytes@),
            None => r@ == "voxweb"@,
        },
{
    match bytes {
        Some(bytes) => {
            let mut out = String::new();
            let mut i: usize = 0;
            while i < bytes.len()
                invariant
                    i <= bytes@.len(),
                    out@ == drawn_room(bytes@.take(i as int)),
                decreases bytes@.len() - i,
            {
                let k: u8 = bytes[i] % 36;
                let c: char = if k < 26 {
                    (97 + k) as char
                } else {
                    (48 + (k - 26)) as char
                };
                out.push(c);
                proof {
                    assert(drawn_room(bytes@.take(i + 1)) =~= drawn_room(bytes@.take(i as int)).push(
                        drawn_char(bytes@[i as int]),
                    ));
                }
                i = i + 1;
            }
            proof {
                assert(bytes@.take(i as int) =~= bytes@);
            }
            out
        },
        None => "voxweb".to_owned(),
    }
}

/// Draws a room name of six letters and digits.
pub fn generate_room_id() -> (r: String)
    ensures
        is_drawn_name(r@),
        is_room_id(r@),
{
    let bytes = random_bytes(6);
    proof {
        if bytes is Some {
            law_drawn_rooms_are_valid(bytes->0@);
        }
        lemma_stand_in_is_drawn_name();
        lemma_drawn_name_is_valid("voxweb"@);
    }
    room_id_of_bytes(bytes)
}

/// The seed that drawn bytes stand for; without bytes it is zero.
pub fn seed_of_bytes(bytes: Option<Vec<u8>>) -> (r: u64)
    requires
        bytes matches Some(b) ==> b@.len() == 8,
    ensures
        match bytes {
            Some(bytes) => r == number_of_bytes(bytes@),
            None => r == 0,
        },
{
    match bytes {
        Some(b) => {
            proof {
                reveal_with_fuel(number_of_bytes, 9);
            }
            let low: u64 = b[0] as u64 + 256 * (b[1] as u64 + 256 * (b[2] as u64 + 256 * (b[3]
                as u64)));
            let high: u64 = b[4] as u64 + 256 * (b[5] as u64 + 256 * (b[6] as u64 + 256 * (b[7]
                as u64)));
            proof {
                let s = b@;
                assert(s.drop_first().drop_first()[0] == s[2]);
            }
            low + 0x1_0000_0000 * high
        },
        None => 0,
    }
}

/// Draws a seed; any number can come out of it. Where nothing can be drawn it is zero.
pub fn random_seed() -> u64 {
    seed_of_bytes(random_bytes(8))
}

/// What stands above the list of saved worlds.
pub open spec fn header_text(loading: bool, count: nat) -> Seq<char> {
    if loading {
        "My Saves (Loading...)"@
    } else {
        "My Saves ("@ + text::decimal(count) + ")"@
    }
}

/// What the lobby says about the storage.
pub open spec fn shows_storage(t: Seq<char>, quota: Option<QuotaInfo>, loading: bool) -> bool {
    match quota {
        Some(q) => exists|used: Seq<char>, total: Seq<char>|
            #[trigger] storage::shows_size(used, q.usage) && #[trigger] storage::shows_size(
                total,
                q.quota,
            ) && t == "Storage: "@ + used + " / "@ + total,
        None => if loading {
            t == "Storage: Loading..."@
        } else {
            t == "Storage: Unavailable"@
        },
    }
}

/// What stands above the steps while connecting.
pub open spec fn title_text(mode: GameMode, room: Seq<char>) -> Seq<char> {
    match mode {
        GameMode::Host => "Hosting room "@ + room + "\u{2026}"@,
        GameMode::Remote => "Joining room "@ + room + "\u{2026}"@,
        GameMode::Local => "Loading\u{2026}"@,
    }
}

/// What stands above the steps while connecting.
pub fn connecting_title(mode: GameMode, room: &str) -> (r: String)
    ensures
        r@ == title_text(mode, room@),
{
    match mode {
        GameMode::Host => {
            let mut out = joined("Hosting room ", room);
            out.append("\u{2026}");
            out
        },
        GameMode::Remote => {
            let mut out = joined("Joining room ", room);
            out.append("\u{2026}");
            out
        },
        GameMode::Local => "Loading\u{2026}".to_owned(),
    }
}

/// How a saved world is listed: when it was made, and how large it is.
pub fn world_label(time: &str, used_bytes: u64) -> (r: String)
    ensures
        exists|size: Seq<char>| #[trigger]
            storage::shows_size(size, used_bytes) && r@ == time@ + " \u{b7} "@ + size,
{
    let mut out = joined(time, " \u{b7} ");
    let size = format_storage_bytes(used_bytes);
    out.append(size.as_str());
    out
}

impl Default for LobbyState {
    fn default() -> (r: LobbyState)
        ensures
            r.display_name@ == "Player"@,
            r.seed_input@ == Seq::<char>::empty(),
            r.room_id_input@ == Seq::<char>::empty(),
            r.error_message is None,
            r.last_generated_room is None,
            r.saved_worlds@ == Seq::<WorldSummary>::empty(),
            r.storage_quota is None,
            !r.saves_loading,
            !r.saves_loaded,
            r.selected_save is None,
    {
        let r = LobbyState {
            display_name: "Player".to_owned(),
            seed_input: String::new(),
            room_id_input: String::new(),
            error_message: None,
            last_generated_room: None,
            saved_worlds: Vec::new(),
            storage_quota: None,
            saves_loading: false,
            saves_loaded: false,
            selected_save: None,
        };
        proof {
            assert(r.seed_input@ =~= Seq::empty());
            assert(r.room_id_input@ =~= Seq::empty());
        }
        r
    }
}

impl LobbyState {
    /// Nothing but the message to the player has changed.
    pub open spec fn only_message_changed(before: LobbyState, after: LobbyState) -> bool {
        after == (LobbyState { error_message: after.error_message, ..before })
    }

    /// The name that the player goes by.
    pub fn resolve_display_name(&self) -> (r: String)
        ensures
            r@ == name_of(self.display_name@),
    {
        let inner = trim_text(self.display_name.as_str());
        if inner.as_str().unicode_len() == 0 {
            "Player".to_owned()
        } else {
            inner
        }
    }

    fn seed_wanted(&self) -> (r: Result<Option<u64>, String>)
        ensures
            wants_seed(*self, seed_result(r)),
    {
        match &self.selected_save {
            Some(key) => Ok(seed_from_key(key.as_str())),
            None => parse_seed(self.seed_input.as_str()),
        }
    }

    /// The button that starts a game for one player.
    pub fn press_single_player(&mut self) -> (r: Option<LobbyAction>)
        ensures
            LobbyState::only_message_changed(*old(self), *final(self)),
            match r {
                Some(LobbyAction::StartSinglePlayer { seed, display_name }) => {
                    &&& wants_seed(*old(self), Ok(seed))
                    &&& display_name@ == name_of(old(self).display_name@)
                    &&& final(self).error_message is None
                },
                Some(_) => false,
                None => final(self).error_message matches Some(message) && wants_seed(
                    *old(self),
                    Err(message@),
                ),
            },
    {
        match self.seed_wanted() {
            Ok(seed) => {
                let display_name = self.resolve_display_name();
                self.error_message = None;
                Some(LobbyAction::StartSinglePlayer { seed, display_name })
            },
            Err(message) => {
                self.error_message = Some(message);
                None
            },
        }
    }

    /// The button that opens a room.
    pub fn press_create_room(&mut self) -> (r: Option<LobbyAction>)
        ensures
            LobbyState::only_message_changed(*old(self), *final(self)),
            match r {
                Some(LobbyAction::CreateRoom { room_id, seed, display_name }) => {
                    &&& room_id@ == text::trimmed(old(self).room_id_input@)
                    &&& wants_seed(*old(self), Ok(seed))
                    &&& display_name@ == name_of(old(self).display_name@)
                    &&& final(self).error_message is None
                },
                Some(_) => false,
                None => final(self).error_message matches Some(message) && wants_seed(
                    *old(self),
                    Err(message@),
                ),
            },
    {
        let room_id = trim_text(self.room_id_input.as_str());
        match self.seed_wanted() {
            Ok(seed) => {
                let display_name = self.resolve_display_name();
                self.error_message = None;
                Some(LobbyAction::CreateRoom { room_id, seed, display_name })
            },
            Err(message) => {
                self.error_message = Some(message);
                None
            },
        }
    }

    /// The button that joins a room.
    pub fn press_join_room(&mut self) -> (r: Option<LobbyAction>)
        ensures
            LobbyState::only_message_changed(*old(self), *final(self)),
            match r {
                Some(LobbyAction::JoinRoom { room_id, display_name }) => {
                    &&& room_id@ == text::trimmed(old(self).room_id_input@)
                    &&& is_room_id(room_id@)
                    &&& display_name@ == name_of(old(self).display_name@)
                    &&& final(self).error_message is None
                },
                Some(_) => false,
                None => room_complaint(text::trimmed(old(self).room_id_input@)) is Some
                    && text::content_of(final(self).error_message) == room_complaint(
                    text::trimmed(old(self).room_id_input@),
                ),
            },
    {
        let room_id = trim_text(self.room_id_input.as_str());
        match validate_room_id(room_id.as_str()) {
            Ok(_) => {
                let display_name = self.resolve_display_name();
                self.error_message = None;
                Some(LobbyAction::JoinRoom { room_id, display_name })
            },
            Err(message) => {
                self.error_message = Some(message);
                None
            },
        }
    }

    /// Settles the name of a room to be opened, given a name that was drawn: the drawn name is
    /// taken where none was typed.
    pub fn settle_room(&mut self, room_id: String, drawn: String) -> (r: Option<String>)
        ensures
            if room_id@.len() == 0 {
                &&& r matches Some(name) && name@ == drawn@
                &&& final(self).room_id_input@ == drawn@
                &&& text::content_of(final(self).last_generated_room) == Some(drawn@)
                &&& *final(self) == (LobbyState {
                    room_id_input: final(self).room_id_input,
                    last_generated_room: final(self).last_generated_room,
                    ..*old(self)
                })
            } else if is_room_id(room_id@) {
                &&& r == Some(room_id)
                &&& *final(self) == (LobbyState { last_generated_room: None, ..*old(self) })
            } else {
                &&& r is None
                &&& text::content_of(final(self).error_message) == room_complaint(room_id@)
                &&& LobbyState::only_message_changed(*old(self), *final(self))
            },
    {
        if room_id.as_str().unicode_len() == 0 {
            self.room_id_input = drawn.clone();
            self.last_generated_room = Some(drawn.clone());
            Some(drawn)
        } else {
            match validate_room_id(room_id.as_str()) {
                Ok(_) => {
                    self.last_generated_room = None;
                    Some(room_id)
                },
                Err(message) => {
                    self.error_message = Some(message);
                    None
                },
            }
        }
    }

    /// Settles the name of a room to be opened, drawing one where none was typed.
    pub fn room_to_open(&mut self, room_id: String) -> (r: Option<String>)
        ensures
            if room_id@.len() == 0 {
                &&& r matches Some(name) && is_drawn_name(name@) && is_room_id(name@)
                &&& final(self).room_id_input@ == r->0@
                &&& text::content_of(final(self).last_generated_room) == Some(r->0@)
                &&& *final(self) == (LobbyState {
                    room_id_input: final(self).room_id_input,
                    last_generated_room: final(self).last_generated_room,
                    ..*old(self)
                })
            } else if is_room_id(room_id@) {
                &&& r == Some(room_id)
                &&& *final(self) == (LobbyState { last_generated_room: None, ..*old(self) })
            } else {
                &&& r is None
                &&& text::content_of(final(self).error_message) == room_complaint(room_id@)
                &&& LobbyState::only_message_changed(*old(self), *final(self))
            },
    {
        let drawn = if room_id.as_str().unicode_len() == 0 {
            generate_room_id()
        } else {
            String::new()
        };
        self.settle_room(room_id, drawn)
    }

    /// Looks once more at the name of a room to be joined.
    pub fn room_to_join(&mut self, room_id: String) -> (r: Option<String>)
        ensures
            if is_room_id(room_id@) {
                r == Some(room_id) && *final(self) == *old(self)
            } else {
                &&& r is None
                &&& text::content_of(final(self).error_message) == room_complaint(room_id@)
                &&& LobbyState::only_message_changed(*old(self), *final(self))
            },
    {
        match validate_room_id(room_id.as_str()) {
            Ok(_) => Some(room_id),
            Err(message) => {
                self.error_message = Some(message);
                None
            },
        }
    }

    /// Whether the list of saved worlds has to be read now; if so, it counts as being read.
    pub fn begin_loading_saves(&mut self) -> (r: bool)
        ensures
            r == (!old(self).saves_loaded && !old(self).saves_loading),
            *final(self) == (LobbyState {
                saves_loading: old(self).saves_loading || r,
                ..*old(self)
            }),
    {
        if !self.saves_loaded && !self.saves_loading {
            self.saves_loading = true;
            true
        } else {
            false
        }
    }

    /// The list of saved worlds has been read for the first time, or could not be read.
    pub fn saves_arrived(&mut self, result: Result<StorageOverview, String>)
        ensures
            match result {
                Ok(overview) => *final(self) == (LobbyState {
                    saves_loading: false,
                    saves_loaded: true,
                    saved_worlds: overview.worlds,
                    storage_quota: overview.quota,
                    ..*old(self)
                }),
                Err(why) => {
                    &&& text::content_of(final(self).error_message) == Some(
                        "Failed to load saves: "@ + why@,
                    )
                    &&& *final(self) == (LobbyState {
                        saves_loading: false,
                        saves_loaded: true,
                        error_message: final(self).error_message,
                        ..*old(self)
                    })
                },
            },
    {
        self.saves_loading = false;
        self.saves_loaded = true;
        match result {
            Ok(overview) => {
                self.saved_worlds = overview.worlds;
                self.storage_quota = overview.quota;
            },
            Err(why) => {
                self.error_message = Some(joined("Failed to load saves: ", why.as_str()));
            },
        }
    }

    /// The list of saved worlds has been read again, after one was deleted or for its own sake.
    pub fn saves_refreshed(&mut self, result: Result<StorageOverview, String>, deleted: bool)
        ensures
            match result {
                Ok(overview) => *final(self) == (LobbyState {
                    saved_worlds: overview.worlds,
                    storage_quota: overview.quota,
                    selected_save: if deleted {
                        None
                    } else {
                        old(self).selected_save
                    },
                    ..*old(self)
                }),
                Err(why) => {
                    &&& text::content_of(final(self).error_message) == Some(
                        "Failed to refresh saves: "@ + why@,
                    )
                    &&& LobbyState::only_message_changed(*old(self), *final(self))
                },
            },
    {
        match result {
            Ok(overview) => {
                self.saved_worlds = overview.worlds;
                self.storage_quota = overview.quota;
                if deleted {
                    self.selected_save = None;
                }
            },
            Err(why) => {
                self.error_message = Some(joined("Failed to refresh saves: ", why.as_str()));
            },
        }
    }

    /// A saved world could not be deleted.
    pub fn delete_failed(&mut self, why: &str)
        ensures
            text::content_of(final(self).error_message) == Some("Failed to delete save: "@ + why@),
            LobbyState::only_message_changed(*old(self), *final(self)),
    {
        self.error_message = Some(joined("Failed to delete save: ", why));
    }

    /// Makes the lobby read the list of saved worlds again when it is shown next.
    pub fn mark_saves_stale(&mut self)
        ensures
            !final(self).saves_loaded,
            !final(self).saves_loading,
            final(self).saved_worlds@ == Seq::<WorldSummary>::empty(),
            final(self).selected_save is None,
            *final(self) == (LobbyState {
                saves_loaded: false,
                saves_loading: false,
                saved_worlds: final(self).saved_worlds,
                selected_save: None,
                ..*old(self)
            }),
    {
        self.saves_loaded = false;
        self.saves_loading = false;
        self.saved_worlds = Vec::new();
        self.selected_save = None;
    }

    /// What stands above the list of saved worlds.
    pub fn saves_header(&self) -> (r: String)
        ensures
            r@ == header_text(self.saves_loading, self.saved_worlds@.len()),
    {
        if self.saves_loading {
            "My Saves (Loading...)".to_owned()
        } else {
            let mut out = "My Saves (".to_owned();
            push_decimal(&mut out, self.saved_worlds.len() as u64);
            out.append(")");
            out
        }
    }

    /// What the lobby says about the storage.
    pub fn storage_line(&self) -> (r: String)
        ensures
            shows_storage(r@, self.storage_quota, self.saves_loading),
    {
        match self.storage_quota {
            Some(q) => {
                let used = format_storage_bytes(q.usage);
                let total = format_storage_bytes(q.quota);
                let mut out = joined("Storage: ", used.as_str());
                out.append(" / ");
                out.append(total.as_str());
                proof {
                    assert(storage::shows_size(used@, q.usage));
                    assert(storage::shows_size(total@, q.quota));
                }
                out
            },
            None => if self.saves_loading {
                "Storage: Loading...".to_owned()
            } else {
                "Storage: Unavailable".to_owned()
            },
        }
    }
}

/// Nobody is without a name: what is typed is taken without the white space around it, and a
/// player who types nothing has the common one.
pub proof fn law_everyone_has_a_name(typed: Seq<char>)
    ensures
        name_of(typed).len() > 0,
        text::trimmed(name_of(typed)) == name_of(typed),
        name_of(name_of(typed)) == name_of(typed),
        name_of(seq![' '] + typed) == name_of(typed),
        typed.len() > 0 && !text::is_space(typed[0]) && !text::is_space(typed.last()) ==> name_of(
            typed,
        ) == typed,
        name_of(Seq::empty()) == "Player"@,
{
    reveal_strlit("Player");
    text::law_trimming_twice_is_trimming_once(typed);
    assert((seq![' '] + typed).drop_first() =~= typed);
    assert(text::trimmed("Player"@) =~= "Player"@);
}

/// The seed that a text gives is one alone.
pub proof fn law_a_text_gives_one_seed(
    typed: Seq<char>,
    a: Result<Option<u64>, Seq<char>>,
    b: Result<Option<u64>, Seq<char>>,
)
    requires
        reads_as_seed(typed, a),
        reads_as_seed(typed, b),
    ensures
        a == b,
{
}

/// A number that is typed is the seed, with or without white space around it. Nothing leaves the
/// seed to chance, and what is no number or too large a one is refused.
pub proof fn law_seeds_are_read(n: nat, s: Seq<char>, r: Result<Option<u64>, Seq<char>>)
    ensures
        n <= u64::MAX ==> reads_as_seed(
            text::decimal(n),
            Ok::<Option<u64>, Seq<char>>(Some(n as u64)),
        ),
        n > u64::MAX ==> reads_as_seed(
            text::decimal(n),
            Err::<Option<u64>, Seq<char>>(seed_message()),
        ),
        reads_as_seed(Seq::empty(), Ok::<Option<u64>, Seq<char>>(None)),
        reads_as_seed(seq![' '] + s, r) <==> reads_as_seed(s, r),
        s.len() > 0 && !text::is_space(s.last()) ==> reads_as_seed(
            seq!['-'] + s,
            Err::<Option<u64>, Seq<char>>(seed_message()),
        ),
{
    text::lemma_decimal_digits(n);
    text::law_decimal_round_trip(n);
    let d = text::decimal(n);
    assert(text::is_digit(d[0]) && text::is_digit(d[d.len() - 1]));
    assert(text::trimmed(d) == d);
    assert((seq![' '] + s).drop_first() =~= s);
    if s.len() > 0 && !text::is_space(s.last()) {
        let t = seq!['-'] + s;
        assert(t[0] == '-' && t.last() == s.last());
        assert(text::trimmed(t) == t);
        assert(!text::is_digit(t[0]));
        text::law_signs_are_read(n, s);
    }
}

/// A chosen save gives its own seed, whatever is typed, and a world without one is made from what
/// is typed.
pub proof fn law_a_chosen_save_gives_the_seed(
    s: LobbyState,
    t: LobbyState,
    r: Result<Option<u64>, Seq<char>>,
)
    ensures
        s.selected_save is Some && t.selected_save == s.selected_save ==> (wants_seed(s, r)
            <==> wants_seed(t, r)),
        s.selected_save is Some && r is Err ==> !wants_seed(s, r),
        s.selected_save is Some && r is Ok && r->Ok_0 is Some ==> (wants_seed(s, r)
            <==> storage::names_seed(s.selected_save->0@, r->Ok_0->0)),
        s.selected_save is None ==> (wants_seed(s, r) <==> reads_as_seed(s.seed_input@, r)),
        wants_seed(s, r) && r is Err ==> r->Err_0 == seed_message(),
{
}

/// A room is named by four to twelve small letters, digits, dashes and low lines. Cutting a name
/// short of that or adding anything else to it spoils it.
pub proof fn law_rooms_have_plain_names(s: Seq<char>, c: char)
    ensures
        'a' <= c <= 'z' || '0' <= c <= '9' ==> is_room_char(c),
        is_room_char('_') && is_room_char('-'),
        'A' <= c <= 'Z' ==> !is_room_char(c),
        text::is_space(c) || text::is_control(c) || c as int >= 0x80 ==> !is_room_char(c),
        !is_room_char('/') && !is_room_char('.') && !is_room_char('?') && !is_room_char('#'),
        is_room_id(s) ==> 4 <= s.len() <= 12,
        is_room_id(s) && s.len() < 12 ==> (is_room_id(s.push(c)) <==> is_room_char(c)),
        is_room_id(s) && s.len() == 12 ==> !is_room_id(s.push(c)),
        is_room_id(s) && s.len() > 4 ==> is_room_id(s.drop_last()),
        is_room_id(s) && s.len() == 4 ==> !is_room_id(s.drop_last()),
{
    if is_room_id(s) {
        let t = s.push(c);
        assert(t[s.len() as int] == c);
        assert(forall|i: int| 0 <= i < s.len() ==> #[trigger] t[i] == s[i]);
        assert(forall|i: int| 0 <= i < s.len() - 1 ==> #[trigger] s.drop_last()[i] == s[i]);
        if is_room_char(c) {
            assert forall|i: int| 0 <= i < t.len() implies is_room_char(#[trigger] t[i]) by {
                if i < s.len() {
                    assert(t[i] == s[i]);
                }
            }
        }
        assert forall|i: int| 0 <= i < s.drop_last().len() implies is_room_char(
            #[trigger] s.drop_last()[i],
        ) by {
            assert(s.drop_last()[i] == s[i]);
        }
    }
}

/// What is wrong with a name is told: that there is none, that its length is wrong, or that it
/// holds a sign that it may not.
pub proof fn law_complaints_tell_what_is_wrong(s: Seq<char>)
    ensures
        room_complaint(s) == Some("Room ID cannot be empty"@) <==> s.len() == 0,
        room_complaint(s) == Some("Room ID must be 4-12 characters"@) <==> 0 < s.len() < 4 || s.len()
            > 12,
        room_complaint(s) == Some("Room ID may only contain a-z, 0-9, _, -"@) <==> 4 <= s.len()
            <= 12 && exists|i: int| 0 <= i < s.len() && !is_room_char(#[trigger] s[i]),
{
    reveal_strlit("Room ID cannot be empty");
    reveal_strlit("Room ID must be 4-12 characters");
    reveal_strlit("Room ID may only contain a-z, 0-9, _, -");
    assert("Room ID cannot be empty"@.len() == 23);
    assert("Room ID must be 4-12 characters"@.len() == 31);
    assert("Room ID may only contain a-z, 0-9, _, -"@.len() == 39);
}

/// Every letter and every digit can be drawn: two bytes draw one sign exactly when they leave the
/// same rest of thirty-six, the letters come before the digits, and each in their order.
pub proof fn law_signs_are_drawn_in_order(a: u8, b: u8, bytes: Seq<u8>, i: int)
    ensures
        drawn_char(a) == drawn_char(b) <==> a as int % 36 == b as int % 36,
        a < 25 ==> drawn_char((a + 1) as u8) as int == drawn_char(a) as int + 1,
        26 <= a < 35 ==> drawn_char((a + 1) as u8) as int == drawn_char(a) as int + 1,
        drawn_char(0) == 'a' && drawn_char(25) == 'z',
        drawn_char(26) == '0' && drawn_char(35) == '9',
        drawn_room(bytes).len() == bytes.len(),
        0 <= i < bytes.len() ==> drawn_room(bytes)[i] == drawn_char(bytes[i]),
{
}

/// A number is drawn byte by byte, the lowest first: the first byte is its rest of 256, and zeros
/// behind it change nothing.
pub proof fn law_the_first_byte_is_the_lowest(bytes: Seq<u8>)
    ensures
        bytes.len() > 0 ==> number_of_bytes(bytes) % 256 == bytes[0],
        bytes.len() > 0 ==> number_of_bytes(bytes) / 256 == number_of_bytes(bytes.drop_first()),
        number_of_bytes(bytes.push(0)) == number_of_bytes(bytes),
        bytes.len() == 1 ==> number_of_bytes(bytes) == bytes[0],
    decreases bytes.len(),
{
    let longer = bytes.push(0);
    if bytes.len() > 0 {
        law_the_first_byte_is_the_lowest(bytes.drop_first());
        assert(longer.drop_first() =~= bytes.drop_first().push(0));
        if bytes.len() == 1 {
            assert(bytes.drop_first() =~= Seq::<u8>::empty());
        }
    } else {
        assert(longer.drop_first() =~= Seq::<u8>::empty());
        assert(number_of_bytes(longer.drop_first()) == 0);
    }
}

/// Different draws of one length give different numbers.
pub proof fn law_every_byte_counts(a: Seq<u8>, b: Seq<u8>)
    requires
        a.len() == b.len(),
        number_of_bytes(a) == number_of_bytes(b),
    ensures
        a == b,
    decreases a.len(),
{
    if a.len() > 0 {
        law_every_byte_counts(a.drop_first(), b.drop_first());
        assert(a =~= seq![a[0]] + a.drop_first());
        assert(b =~= seq![b[0]] + b.drop_first());
    } else {
        assert(a =~= b);
    }
}

/// The heading says how many saves there are once they are known.
pub proof fn law_saves_are_counted(a: nat, b: nat)
    ensures
        header_text(false, a) == header_text(false, b) <==> a == b,
        header_text(true, a) == header_text(true, b),
        header_text(true, a) != header_text(false, b),
{
    reveal_strlit("My Saves (Loading...)");
    reveal_strlit("My Saves (");
    reveal_strlit(")");
    let x = header_text(false, a);
    let y = header_text(false, b);
    assert(x.subrange(10, x.len() - 1) =~= text::decimal(a));
    assert(y.subrange(10, y.len() - 1) =~= text::decimal(b));
    text::law_decimal_is_injective(a, b);
    text::lemma_decimal_digits(b);
    assert(y[10] == text::decimal(b)[0] && text::is_digit(text::decimal(b)[0]));
    assert(header_text(true, a)[10] == 'L');
}

/// The title tells who hosts from who joins, and names the room.
pub proof fn law_titles_name_the_room(room: Seq<char>, other: Seq<char>)
    ensures
        title_text(GameMode::Host, room) == "Hosting room "@ + room + "\u{2026}"@,
        title_text(GameMode::Host, room)[0] == 'H',
        title_text(GameMode::Remote, room)[0] == 'J',
        title_text(GameMode::Local, room)[0] == 'L',
        title_text(GameMode::Local, room) == title_text(GameMode::Local, other),
        title_text(GameMode::Host, room) == title_text(GameMode::Host, other) <==> room == other,
        title_text(GameMode::Remote, room) == title_text(GameMode::Remote, other) <==> room
            == other,
{
    reveal_strlit("Hosting room ");
    reveal_strlit("Joining room ");
    reveal_strlit("Loading\u{2026}");
    reveal_strlit("\u{2026}");
    let a = title_text(GameMode::Host, room);
    let b = title_text(GameMode::Host, other);
    let c = title_text(GameMode::Remote, room);
    let d = title_text(GameMode::Remote, other);
    assert(a.subrange(13, a.len() - 1) =~= room);
    assert(b.subrange(13, b.len() - 1) =~= other);
    assert(c.subrange(13, c.len() - 1) =~= room);
    assert(d.subrange(13, d.len() - 1) =~= other);
}

/// The line on storage gives what is used first and what there is behind it. Without an account it
/// says whether one is still to come.
pub proof fn law_the_storage_line_begins_with_what_is_used(
    t: Seq<char>,
    q: QuotaInfo,
    loading: bool,
)
    ensures
        shows_storage(t, Some(q), loading) <==> shows_storage(t, Some(q), !loading),
        shows_storage(t, Some(q), loading) ==> exists|a: Seq<char>| #[trigger]
            storage::shows_size(a, q.usage) && ("Storage: "@ + a + " / "@).is_prefix_of(t),
        shows_storage(t, Some(q), loading) ==> exists|b: Seq<char>| #[trigger]
            storage::shows_size(b, q.quota) && (" / "@ + b).is_suffix_of(t),
        !(shows_storage(t, None, true) && shows_storage(t, None, false)),
        shows_storage("Storage: Loading..."@, None, true),
{
    reveal_strlit("Storage: Loading...");
    reveal_strlit("Storage: Unavailable");
    assert("Storage: Loading..."@.len() != "Storage: Unavailable"@.len());
    if shows_storage(t, Some(q), loading) {
        let (a, b) = choose|a: Seq<char>, b: Seq<char>|
            #[trigger] storage::shows_size(a, q.usage) && #[trigger] storage::shows_size(b, q.quota)
                && t == "Storage: "@ + a + " / "@ + b;
        assert(("Storage: "@ + a + " / "@).is_prefix_of(t));
        assert(t =~= ("Storage: "@ + a) + (" / "@ + b));
        assert((" / "@ + b).is_suffix_of(t));
    }
}

} // verus!
