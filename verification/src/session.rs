//! The terminal client's reactions: to a key, to a voice event and to a
//! signal of the reply stream. The event loop performs what they return
//! (quitting, starting a reply stream).
use vstd::prelude::*;
use crate::agent::StreamSignal;
use crate::bytes::{byte_offset, char_width, utf8_len};
use crate::chat::{messages_view, with_token, followed_scroll, ChatWidget};
use crate::input::InputWidget;
use crate::status::AppState;
use crate::text::{concat, string_of};
use crate::voice::VoiceEvent;

verus! {

/// A key press, as the terminal reports it.
#[derive(Debug, Clone, Copy, PartialEq, Eq, Structural)]
pub enum KeyInput {
    Char(char),
    Backspace,
    Delete,
    Left,
    Right,
    Home,
    End,
    PageUp,
    PageDown,
    Enter,
    Esc,
    Other,
}

/// What the event loop does after a key.
#[derive(Debug)]
pub enum KeyOutcome {
    /// Keep going.
    Continue,
    /// Leave the application.
    Quit,
    /// Send this message to the agent (its reply is awaited).
    Send(String),
}

/// Lines scrolled by PageUp / PageDown.
pub const PAGE_LINES: u16 = 5;

/// The chat after the user sends `text`: the user's message, then an empty
/// reply of the assistant; the view follows them unless scrolled up.
pub open spec fn sent_chat(
    old_msgs: Seq<(Seq<char>, Seq<char>)>,
    text: Seq<char>,
) -> Seq<(Seq<char>, Seq<char>)> {
    old_msgs.push(("You"@, text)).push(("AI"@, Seq::<char>::empty()))
}

/// Adds a message of the user and opens the assistant's reply to it.
pub fn begin_exchange(chat: &mut ChatWidget, text: &str)
    ensures
        messages_view(final(chat).messages@) == sent_chat(messages_view(old(chat).messages@), text@),
        final(chat).scroll == followed_scroll(old(chat).scroll, old(chat).scrolled_up),
        final(chat).scrolled_up == old(chat).scrolled_up,
{
    chat.add_user(text);
    chat.start_ai();
}

/// Handles one key: editing keys act on the input line, PageUp/PageDown
/// scroll the chat, Enter sends a non-empty line, Esc (and `q` when
/// `quit_on_q`) quits.
pub fn handle_key(
    key: KeyInput,
    quit_on_q: bool,
    input: &mut InputWidget,
    chat: &mut ChatWidget,
    state: &mut AppState,
) -> (r: KeyOutcome)
    requires
        old(input).wf(),
        key matches KeyInput::Char(c) ==> utf8_len(old(input).buffer@) + char_width(c)
            <= isize::MAX,
    ensures
        final(input).wf(),
        match key {
            KeyInput::Char(c) => if c == 'q' && quit_on_q {
                r is Quit && *final(input) == *old(input)
            } else {
                r is Continue && final(input).buffer@ == old(input).buffer@.insert(
                    old(input).pos(),
                    c,
                ) && final(input).cursor == old(input).cursor + char_width(c)
            },
            KeyInput::Esc => r is Quit && *final(input) == *old(input),
            KeyInput::Backspace => r is Continue && (if old(input).cursor > 0 {
                final(input).buffer@ == old(input).buffer@.remove(old(input).pos() - 1)
                    && final(input).cursor == byte_offset(old(input).buffer@, old(input).pos() - 1)
            } else {
                final(input).buffer@ == old(input).buffer@ && final(input).cursor == 0
            }),
            KeyInput::Delete => r is Continue && final(input).cursor == old(input).cursor && (
            if old(input).pos() < old(input).buffer@.len() {
                final(input).buffer@ == old(input).buffer@.remove(old(input).pos())
            } else {
                final(input).buffer@ == old(input).buffer@
            }),
            KeyInput::Left => r is Continue && final(input).buffer@ == old(input).buffer@ && (
            if old(input).cursor > 0 {
                final(input).cursor == byte_offset(old(input).buffer@, old(input).pos() - 1)
            } else {
                final(input).cursor == 0
            }),
            KeyInput::Right => r is Continue && final(input).buffer@ == old(input).buffer@ && (
            if old(input).pos() < old(input).buffer@.len() {
                final(input).cursor == byte_offset(old(input).buffer@, old(input).pos() + 1)
            } else {
                final(input).cursor == old(input).cursor
            }),
            KeyInput::Home => r is Continue && final(input).buffer@ == old(input).buffer@
                && final(input).cursor == 0,
            KeyInput::End => r is Continue && final(input).buffer@ == old(input).buffer@
                && final(input).cursor == utf8_len(old(input).buffer@),
            KeyInput::Enter => final(input).buffer@ == Seq::<char>::empty() && final(input).cursor
                == 0 && if old(input).buffer@.len() > 0 {
                r matches KeyOutcome::Send(t) && t@ == old(input).buffer@
            } else {
                r is Continue
            },
            _ => r is Continue && *final(input) == *old(input),
        },
        match key {
            KeyInput::PageUp => final(chat).scroll == old(chat).scroll.saturating_add(5)
                && final(chat).scrolled_up == (final(chat).scroll > 0) && final(chat).messages@
                == old(chat).messages@,
            KeyInput::PageDown => final(chat).scroll == old(chat).scroll.saturating_sub(5)
                && final(chat).scrolled_up == (final(chat).scroll > 0) && final(chat).messages@
                == old(chat).messages@,
            KeyInput::Enter => if old(input).buffer@.len() > 0 {
                messages_view(final(chat).messages@) == sent_chat(
                    messages_view(old(chat).messages@),
                    old(input).buffer@,
                ) && final(chat).scroll == followed_scroll(old(chat).scroll, old(chat).scrolled_up)
                    && final(chat).scrolled_up == old(chat).scrolled_up
            } else {
                *final(chat) == *old(chat)
            },
            _ => *final(chat) == *old(chat),
        },
        (key is Enter && old(input).buffer@.len() > 0) ==> *final(state) == AppState::Processing,
        !(key is Enter && old(input).buffer@.len() > 0) ==> *final(state) == *old(state),
{
    match key {
        KeyInput::Char(c) => {
            if c == 'q' && quit_on_q {
                return KeyOutcome::Quit;
            }
            input.insert_char(c);
        },
        KeyInput::Esc => {
            return KeyOutcome::Quit;
        },
        KeyInput::Backspace => {
            input.backspace();
        },
        KeyInput::Delete => {
            input.delete();
        },
        KeyInput::Left => {
            input.cursor_left();
        },
        KeyInput::Right => {
            input.cursor_right();
        },
        KeyInput::Home => {
            input.cursor_home();
        },
        KeyInput::End => {
            input.cursor_end();
        },
        KeyInput::PageUp => {
            chat.scroll_up(PAGE_LINES);
        },
        KeyInput::PageDown => {
            chat.scroll_down(PAGE_LINES);
            if chat.scroll == 0 {
                chat.scrolled_up = false;
            }
        },
        KeyInput::Enter => {
            let text = input.take();
            if text.as_str().unicode_len() > 0 {
                begin_exchange(chat, text.as_str());
                *state = AppState::Processing;
                return KeyOutcome::Send(text);
            }
        },
        KeyInput::Other => {},
    }
    KeyOutcome::Continue
}

/// Handles an event of the voice pipeline: the status follows listening
/// and processing; recognised text is sent like a typed message (the
/// returned text is to be sent to the agent); errors leave the interface
/// alone.
pub fn apply_voice_event(evt: VoiceEvent, chat: &mut ChatWidget, state: &mut AppState) -> (r: Option<String>)
    ensures
        match evt {
            VoiceEvent::ListeningStarted => r is None && *final(state) == AppState::Listening
                && *final(chat) == *old(chat),
            VoiceEvent::ListeningStopped => r is None && *final(state) == AppState::Processing
                && *final(chat) == *old(chat),
            VoiceEvent::TextReady(t) => r matches Some(s) && s@ == t@ && *final(state)
                == AppState::Processing && messages_view(final(chat).messages@) == sent_chat(
                messages_view(old(chat).messages@),
                t@,
            ) && final(chat).scroll == followed_scroll(old(chat).scroll, old(chat).scrolled_up)
                && final(chat).scrolled_up == old(chat).scrolled_up,
            VoiceEvent::Error(_) => r is None && *final(state) == *old(state) && *final(chat)
                == *old(chat),
        },
{
    match evt {
        VoiceEvent::ListeningStarted => {
            *state = AppState::Listening;
            None
        },
        VoiceEvent::ListeningStopped => {
            *state = AppState::Processing;
            None
        },
        VoiceEvent::TextReady(text) => {
            begin_exchange(chat, text.as_str());
            *state = AppState::Processing;
            Some(text)
        },
        VoiceEvent::Error(_) => None,
    }
}

/// The note appended to the reply when the stream fails.
pub open spec fn error_note(msg: Seq<char>) -> Seq<char> {
    " [\u{26a0}\u{fe0f} "@ + msg + "]"@
}

/// Handles a signal of the reply stream: a token extends the reply; an
/// error is noted in the reply; both completion and error end the stream
/// and return the status to idle. Returns whether the stream ended.
pub fn apply_stream_signal(sig: StreamSignal, chat: &mut ChatWidget, state: &mut AppState) -> (done: bool)
    ensures
        match sig {
            StreamSignal::Token(t) => !done && messages_view(final(chat).messages@) == with_token(
                messages_view(old(chat).messages@),
                t@,
            ) && *final(state) == *old(state),
            StreamSignal::Done => done && *final(chat) == *old(chat) && *final(state)
                == AppState::Idle,
            StreamSignal::Error(m) => done && messages_view(final(chat).messages@) == with_token(
                messages_view(old(chat).messages@),
                error_note(m@),
            ) && *final(state) == AppState::Idle,
        },
        final(chat).scroll == old(chat).scroll,
        final(chat).scrolled_up == old(chat).scrolled_up,
{
    match sig {
        StreamSignal::Token(t) => {
            chat.append_token(t.as_str());
            false
        },
        StreamSignal::Done => {
            *state = AppState::Idle;
            true
        },
        StreamSignal::Error(m) => {
            let mut note = concat(" [\u{26a0}\u{fe0f} ", m.as_str());
            note.append("]");
            chat.append_token(note.as_str());
            *state = AppState::Idle;
            true
        },
    }
}

} // verus!
