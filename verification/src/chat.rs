//! What has been said in the room, and the line that is being typed.
use std::collections::VecDeque;

use vstd::prelude::*;
use vstd::string::*;

use crate::prediction;
use crate::text;
use crate::text::{joined, trim_text};

verus! {

/// How many messages are kept.
pub const CHAT_HISTORY_CAP: usize = 100;

/// How long a message is shown while nobody types, in microseconds.
pub const OVERLAY_WINDOW_US: u64 = 5_000_000;

/// How many messages are shown while nobody types.
pub const OVERLAY_LINES: usize = 5;

/// Who has said something.
#[derive(Clone, Debug)]
pub enum ChatKind {
    User { from_eid: u32, from_name: String },
    System,
}

/// One message.
#[derive(Clone, Debug)]
pub struct ChatMessage {
    pub kind: ChatKind,
    pub content: String,
    /// When the message came in, in microseconds.
    pub received_at_us: u64,
}

/// What the player has done with the line being typed.
#[derive(Clone, Debug)]
pub enum ChatUiAction {
    NoAction,
    /// The line is to be sent.
    Submit(String),
    /// The line was given up.
    Cancel,
}

/// The latest messages, the oldest first, and the line being typed.
pub struct ChatHistory {
    history: VecDeque<ChatMessage>,
    cap: usize,
    pub input_buffer: String,
}

/// A message as mathematics.
#[verifier::ext_equal]
pub struct ChatLine {
    /// The player who has said it, with the name at that time; the game itself otherwise.
    pub from: Option<(u32, Seq<char>)>,
    pub content: Seq<char>,
    pub at_us: u64,
}

/// A message as mathematics.
pub open spec fn line_of(m: ChatMessage) -> ChatLine {
    ChatLine {
        from: match m.kind {
            ChatKind::User { from_eid, from_name } => Some((from_eid, from_name@)),
            ChatKind::System => None,
        },
        content: m.content@,
        at_us: m.received_at_us,
    }
}

/// Messages as mathematics.
pub open spec fn lines_of(s: Seq<ChatMessage>) -> Seq<ChatLine> {
    Seq::new(s.len(), |i: int| line_of(s[i]))
}

/// A history with one more message. The oldest messages go when there are too many.
pub open spec fn with_message(s: Seq<ChatLine>, cap: int, m: ChatLine) -> Seq<ChatLine> {
    prediction::latest(s.push(m), cap)
}

/// A history with some more messages.
pub open spec fn with_messages(s: Seq<ChatLine>, cap: int, more: Seq<ChatLine>) -> Seq<ChatLine>
    decreases more.len(),
{
    if more.len() == 0 {
        s
    } else {
        with_message(with_messages(s, cap, more.drop_last()), cap, more.last())
    }
}

/// A history holds the latest messages, as many as fit, in the order in which they came in.
pub proof fn law_history_is_the_latest_messages(cap: int, more: Seq<ChatLine>)
    requires
        cap >= 0,
    ensures
        with_messages(Seq::empty(), cap, more) == prediction::latest(more, cap),
    decreases more.len(),
{
    if more.len() > 0 {
        law_history_is_the_latest_messages(cap, more.drop_last());
        assert(with_messages(Seq::empty(), cap, more) =~= prediction::latest(more, cap));
    } else {
        assert(with_messages(Seq::empty(), cap, more) =~= prediction::latest(more, cap));
    }
}

/// Whether a message came in within a window of time before now.
pub open spec fn is_within(m: ChatLine, now_us: u64, window_us: u64) -> bool {
    m.at_us > now_us - window_us
}

/// The messages that came in within a window of time, in their order.
pub open spec fn within(s: Seq<ChatLine>, now_us: u64, window_us: u64) -> Seq<ChatLine>
    decreases s.len(),
{
    if s.len() == 0 {
        s
    } else {
        let rest = within(s.drop_last(), now_us, window_us);
        if is_within(s.last(), now_us, window_us) {
            rest.push(s.last())
        } else {
            rest
        }
    }
}

/// A text with its line breaks turned into spaces.
pub open spec fn on_one_line(s: Seq<char>) -> Seq<char> {
    Seq::new(
        s.len(),
        |i: int|
            if s[i] == '\n' || s[i] == '\r' {
                ' '
            } else {
                s[i]
            },
    )
}

/// Putting a text on one line leaves no line break in it, and doing it again changes nothing.
pub proof fn law_one_line_has_no_breaks(s: Seq<char>)
    ensures
        !on_one_line(s).contains('\n'),
        !on_one_line(s).contains('\r'),
        on_one_line(on_one_line(s)) == on_one_line(s),
{
    assert(on_one_line(on_one_line(s)) =~= on_one_line(s));
}

/// A text with its line breaks turned into spaces.
pub fn single_line_text(s: &str) -> (r: String)
    ensures
        r@ == on_one_line(s@),
{
    let mut out = String::new();
    for c in it: s.chars()
        invariant
            it.seq() == s@,
            out@ == on_one_line(s@.take(it.index())),
    {
        if c == '\n' || c == '\r' {
            out.push(' ');
        } else {
            out.push(c);
        }
        proof {
            assert(on_one_line(s@.take(it.index() + 1)) =~= on_one_line(s@.take(it.index())).push(
                if s@[it.index()] == '\n' || s@[it.index()] == '\r' {
                    ' '
                } else {
                    s@[it.index()]
                },
            ));
        }
    }
    proof {
        assert(s@.take(s@.len() as int) =~= s@);
    }
    out
}

/// Whose line it is, as it stands before what was said.
pub open spec fn speaker_text(kind: ChatKind) -> Seq<char> {
    match kind {
        ChatKind::System => "[System] "@,
        ChatKind::User { from_name, .. } => on_one_line(from_name@) + ": "@,
    }
}

/// Whose line it is, as it stands before what was said.
pub fn speaker(kind: &ChatKind) -> (r: String)
    ensures
        r@ == speaker_text(*kind),
{
    match kind {
        ChatKind::System => "[System] ".to_owned(),
        ChatKind::User { from_name, .. } => joined(
            single_line_text(from_name.as_str()).as_str(),
            ": ",
        ),
    }
}

impl Default for ChatHistory {
    fn default() -> (r: ChatHistory)
        ensures
            r@ == Seq::<ChatLine>::empty(),
            r.capacity() == CHAT_HISTORY_CAP,
            r.line() == Seq::<char>::empty(),
    {
        ChatHistory::with_cap(CHAT_HISTORY_CAP)
    }
}

/// What is said when a line ends: the line, if there is anything on it.
pub open spec fn submitted_by(line: Seq<char>, enter: bool) -> Option<Seq<char>> {
    if enter && text::trimmed(line).len() > 0 {
        Some(line)
    } else {
        None
    }
}

impl View for ChatHistory {
    type V = Seq<ChatLine>;

    closed spec fn view(&self) -> Seq<ChatLine> {
        lines_of(self.history@)
    }
}

impl ChatHistory {
    /// How many messages are kept.
    pub closed spec fn capacity(&self) -> usize {
        self.cap
    }

    /// The line being typed.
    pub closed spec fn line(&self) -> Seq<char> {
        self.input_buffer@
    }

    pub fn with_cap(cap: usize) -> (r: ChatHistory)
        ensures
            r@ == Seq::<ChatLine>::empty(),
            r.capacity() == cap,
            r.line() == Seq::<char>::empty(),
    {
        let r = ChatHistory { history: VecDeque::new(), cap, input_buffer: String::new() };
        proof {
            assert(r@ =~= Seq::empty());
            assert(r.line() =~= Seq::empty());
        }
        r
    }

    /// Adds what a player has said.
    pub fn push_user(&mut self, from_eid: u32, from_name: String, content: String, now_us: u64)
        ensures
            final(self)@ == with_message(
                old(self)@,
                old(self).capacity() as int,
                ChatLine {
                    from: Some((from_eid, from_name@)),
                    content: content@,
                    at_us: now_us,
                },
            ),
            final(self).capacity() == old(self).capacity(),
            final(self).line() == old(self).line(),
    {
        self.push(
            ChatMessage {
                kind: ChatKind::User { from_eid, from_name },
                content,
                received_at_us: now_us,
            },
        );
    }

    /// Adds a note of the game itself.
    pub fn push_system(&mut self, content: String, now_us: u64)
        ensures
            final(self)@ == with_message(
                old(self)@,
                old(self).capacity() as int,
                ChatLine { from: None, content: content@, at_us: now_us },
            ),
            final(self).capacity() == old(self).capacity(),
            final(self).line() == old(self).line(),
    {
        self.push(ChatMessage { kind: ChatKind::System, content, received_at_us: now_us });
    }

    fn push(&mut self, msg: ChatMessage)
        ensures
            final(self)@ == with_message(old(self)@, old(self).capacity() as int, line_of(msg)),
            final(self).capacity() == old(self).capacity(),
            final(self).line() == old(self).line(),
    {
        let ghost all = self.history@.push(msg);
        self.history.push_back(msg);
        let ghost mut gone: int = 0;
        proof {
            assert(all.skip(0) =~= all);
        }
        while self.history.len() > self.cap
            invariant
                0 <= gone <= all.len(),
                self.history@ == all.skip(gone),
                gone > 0 ==> all.len() - gone >= self.cap,
                self.cap == old(self).cap,
                self.input_buffer == old(self).input_buffer,
            decreases self.history@.len(),
        {
            self.history.pop_front();
            proof {
                assert(self.history@ =~= all.skip(gone + 1));
                gone = gone + 1;
            }
        }
        proof {
            assert(lines_of(all) =~= old(self)@.push(line_of(msg)));
            assert(self@ =~= prediction::latest(lines_of(all), self.cap as int));
        }
    }

    /// The latest messages, the oldest first.
    pub fn recent(&self, n: usize) -> (r: Vec<&ChatMessage>)
        ensures
            lines_of(r@.unref()) == prediction::latest(self@, n as int),
    {
        let mut out: Vec<&ChatMessage> = Vec::new();
        let len: usize = self.history.len();
        let start: usize = if len > n {
            len - n
        } else {
            0
        };
        let mut i: usize = start;
        while i < len
            invariant
                start <= i <= len,
                len == self.history@.len(),
                out@.len() == i - start,
                forall|k: int| 0 <= k < i - start ==> *#[trigger] out@[k] == self.history@[start + k],
            decreases len - i,
        {
            out.push(&self.history[i]);
            i = i + 1;
        }
        proof {
            assert(lines_of(out@.unref()) =~= prediction::latest(self@, n as int));
        }
        out
    }

    /// Of the latest messages those that came in within a window of time.
    pub fn recent_within(&self, now_us: u64, window_us: u64, n: usize) -> (r: Vec<&ChatMessage>)
        ensures
            lines_of(r@.unref()) == within(prediction::latest(self@, n as int), now_us, window_us),
    {
        let all = self.recent(n);
        let ghost latest = lines_of(all@.unref());
        let mut out: Vec<&ChatMessage> = Vec::new();
        let mut i: usize = 0;
        proof {
            assert(latest.take(0) =~= Seq::empty());
            assert(lines_of(out@.unref()) =~= Seq::empty());
        }
        while i < all.len()
            invariant
                i <= all@.len(),
                latest == lines_of(all@.unref()),
                lines_of(out@.unref()) == within(latest.take(i as int), now_us, window_us),
            decreases all@.len() - i,
        {
            let ghost shown = out@;
            proof {
                assert(latest.take(i + 1).drop_last() =~= latest.take(i as int));
                assert(latest.take(i + 1).last() == line_of(*all@[i as int]));
            }
            let m: &ChatMessage = all[i];
            if now_us < window_us || m.received_at_us > now_us - window_us {
                out.push(m);
                proof {
                    assert(lines_of(out@.unref()) =~= lines_of(shown.unref()).push(line_of(*m)));
                }
            }
            i = i + 1;
        }
        proof {
            assert(latest.take(i as int) =~= latest);
        }
        out
    }

    /// Takes up the keys that end the typing of a line: the line is sent if there is something in
    /// it, and given up otherwise.
    pub fn end_of_line(&mut self, enter: bool, escape: bool) -> (r: ChatUiAction)
        ensures
            final(self)@ == old(self)@,
            final(self).capacity() == old(self).capacity(),
            r is Submit <==> submitted_by(old(self).line(), enter) is Some,
            r matches ChatUiAction::Submit(line) ==> submitted_by(old(self).line(), enter) == Some(
                line@,
            ),
            final(self).line() == (if enter || escape {
                Seq::empty()
            } else {
                old(self).line()
            }),
            if enter && text::trimmed(old(self).line()).len() > 0 {
                r matches ChatUiAction::Submit(line) && line@ == old(self).line()
            } else if enter || escape {
                r is Cancel
            } else {
                r is NoAction
            },
    {
        if enter {
            let mut content = String::new();
            std::mem::swap(&mut content, &mut self.input_buffer);
            proof {
                assert(self.line() =~= Seq::empty());
            }
            let inner = trim_text(content.as_str());
            if inner.as_str().unicode_len() == 0 {
                ChatUiAction::Cancel
            } else {
                ChatUiAction::Submit(content)
            }
        } else if escape {
            self.clear_line();
            ChatUiAction::Cancel
        } else {
            ChatUiAction::NoAction
        }
    }

    /// Gives up the line being typed.
    pub fn clear_line(&mut self)
        ensures
            final(self)@ == old(self)@,
            final(self).capacity() == old(self).capacity(),
            final(self).line() == Seq::<char>::empty(),
    {
        self.input_buffer = String::new();
        proof {
            assert(self.line() =~= Seq::empty());
        }
    }

    pub fn len(&self) -> (r: usize)
        ensures
            r == self@.len(),
    {
        self.history.len()
    }

    pub fn is_empty(&self) -> (r: bool)
        ensures
            r == (self@.len() == 0),
    {
        self.history.len() == 0
    }
}

/// A message that has just come is the last of the history, the others keep their order before it,
/// and only the oldest goes when there is no room.
pub proof fn law_a_message_comes_last(s: Seq<ChatLine>, cap: int, m: ChatLine)
    requires
        0 < cap,
        s.len() <= cap,
    ensures
        with_message(s, cap, m).last() == m,
        s.len() < cap ==> with_message(s, cap, m) == s.push(m),
        s.len() == cap ==> with_message(s, cap, m) == s.drop_first().push(m),
        with_message(s, cap, m).len() <= cap,
{
    assert(s.len() == cap ==> with_message(s, cap, m) =~= s.drop_first().push(m));
}

/// A message is shown while it is younger than the window: a message of this moment is, one that
/// is as old as the window is not, and a message never comes back.
pub proof fn law_messages_are_shown_while_they_are_young(
    m: ChatLine,
    now_us: u64,
    later_us: u64,
    window_us: u64,
)
    requires
        m.at_us <= now_us <= later_us,
    ensures
        is_within(m, now_us, window_us) <==> now_us - m.at_us < window_us,
        is_within(m, later_us, window_us) ==> is_within(m, now_us, window_us),
        window_us > 0 && m.at_us == now_us ==> is_within(m, now_us, window_us),
        now_us - m.at_us == window_us ==> !is_within(m, now_us, window_us),
{
}

/// What is shown are exactly the young messages, in their order: each message that comes is shown
/// behind the others if it is young, and changes nothing if it is not.
pub proof fn law_young_messages_are_shown_in_order(
    s: Seq<ChatLine>,
    m: ChatLine,
    i: int,
    now_us: u64,
    window_us: u64,
)
    ensures
        m.at_us > now_us - window_us ==> within(s.push(m), now_us, window_us) == within(
            s,
            now_us,
            window_us,
        ).push(m),
        m.at_us <= now_us - window_us ==> within(s.push(m), now_us, window_us) == within(
            s,
            now_us,
            window_us,
        ),
        0 <= i < within(s, now_us, window_us).len() ==> s.contains(within(s, now_us, window_us)[i])
            && within(s, now_us, window_us)[i].at_us > now_us - window_us,
        0 <= i < s.len() && s[i].at_us > now_us - window_us ==> within(
            s,
            now_us,
            window_us,
        ).contains(s[i]),
    decreases s.len(),
{
    assert(s.push(m).drop_last() =~= s);
    if s.len() > 0 {
        let t = s.drop_last();
        let rest = within(t, now_us, window_us);
        let all = within(s, now_us, window_us);
        law_young_messages_are_shown_in_order(t, m, i, now_us, window_us);
        if 0 <= i < all.len() {
            if i < rest.len() {
                assert(all[i] == rest[i]);
                let k = choose|k: int| 0 <= k < t.len() && t[k] == rest[i];
                assert(s[k] == all[i]);
            } else {
                assert(s[s.len() - 1] == all[i]);
            }
        }
        if 0 <= i < s.len() && s[i].at_us > now_us - window_us {
            if i < t.len() {
                assert(t[i] == s[i]);
                let k = choose|k: int| 0 <= k < rest.len() && rest[k] == s[i];
                assert(all[k] == s[i]);
            } else {
                assert(all[all.len() - 1] == s[i]);
            }
        }
    }
}

/// Writing on one line changes breaks to spaces and nothing else.
pub proof fn law_one_line_keeps_the_rest(s: Seq<char>, i: int)
    requires
        0 <= i < s.len(),
    ensures
        on_one_line(s).len() == s.len(),
        s[i] != '\n' && s[i] != '\r' ==> on_one_line(s)[i] == s[i],
        s[i] == '\n' || s[i] == '\r' ==> on_one_line(s)[i] == ' ',
{
}

/// A line that a player says begins with their name and a colon, one that nobody says with the
/// word for the system.
pub proof fn law_speakers_are_named(eid: u32, name: String)
    requires
        !name@.contains('\n'),
        !name@.contains('\r'),
    ensures
        speaker_text(ChatKind::User { from_eid: eid, from_name: name }) == name@ + ": "@,
        speaker_text(ChatKind::System) == "[System] "@,
{
    assert(on_one_line(name@) =~= name@);
}

/// A line is said as it was typed, with the key that ends it and with something on it.
pub proof fn law_only_lines_with_words_are_said(line: Seq<char>, enter: bool, i: int)
    ensures
        submitted_by(line, enter) matches Some(said) ==> said == line && enter,
        !enter ==> submitted_by(line, enter) is None,
        submitted_by(Seq::empty(), enter) is None,
        enter && 0 <= i < line.len() && !text::is_space(line[i]) ==> submitted_by(line, enter)
            == Some(line),
{
    if 0 <= i < line.len() && !text::is_space(line[i]) {
        lemma_words_are_not_trimmed(line, i);
    }
}

/// A character that is no white space is never trimmed away.
proof fn lemma_words_are_not_trimmed(s: Seq<char>, i: int)
    requires
        0 <= i < s.len(),
        !text::is_space(s[i]),
    ensures
        text::trimmed(s).len() > 0,
    decreases s.len(),
{
    if text::is_space(s[0]) {
        assert(s.drop_first()[i - 1] == s[i]);
        lemma_words_are_not_trimmed(s.drop_first(), i - 1);
    } else if text::is_space(s.last()) {
        lemma_words_are_not_trimmed(s.drop_last(), i);
    }
}

} // verus!
