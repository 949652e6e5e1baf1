//! The application's state outside of the GUI toolkit: the recording
//! sessions, the speakers' names, the chat windows and stored settings.

use vstd::prelude::*;
use crate::session::{Session, sessions_of, gaps_fit};
use crate::transcript::{Word, render, renderable_from, NO_SPEAKER};

verus! {

/// The number of speakers that always have a name.
pub const MIN_SPEAKER_NAMES: usize = 20;

/// The decimal digit for `d` (below 10).
pub open spec fn digit_char(d: nat) -> char {
    seq!['0', '1', '2', '3', '4', '5', '6', '7', '8', '9'][d as int]
}

/// The decimal notation of `n`, without leading zeros.
pub open spec fn decimal(n: nat) -> Seq<char>
    decreases n,
{
    if n < 10 {
        seq![digit_char(n)]
    } else {
        decimal(n / 10).push(digit_char(n % 10))
    }
}

/// The text of one decimal digit.
fn digit_str(d: usize) -> (s: &'static str)
    requires
        d < 10,
    ensures
        s@ == seq![digit_char(d as nat)],
{
    proof {
        reveal_strlit("0");
        reveal_strlit("1");
        reveal_strlit("2");
        reveal_strlit("3");
        reveal_strlit("4");
        reveal_strlit("5");
        reveal_strlit("6");
        reveal_strlit("7");
        reveal_strlit("8");
        reveal_strlit("9");
    }
    match d {
        0 => "0",
        1 => "1",
        2 => "2",
        3 => "3",
        4 => "4",
        5 => "5",
        6 => "6",
        7 => "7",
        8 => "8",
        _ => "9",
    }
}

/// The decimal notation of `n`.
pub fn decimal_string(n: usize) -> (s: String)
    ensures
        s@ == decimal(n as nat),
    decreases n,
{
    if n < 10 {
        let mut s = String::new();
        s.append(digit_str(n));
        s
    } else {
        let mut s = decimal_string(n / 10);
        s.append(digit_str(n % 10));
        s
    }
}

/// Everything in the state but the speaker names, the sessions and the
/// recording flag is the same in `a` and `b`.
pub open spec fn texts_unchanged(a: App, b: App) -> bool {
    &&& a.url == b.url
    &&& a.line_selected == b.line_selected
    &&& a.title_text == b.title_text
    &&& a.question_text == b.question_text
    &&& a.answer_text == b.answer_text
    &&& a.system_text == b.system_text
    &&& a.prompt_text == b.prompt_text
}

/// The application's state.
pub struct App {
    pub url: String,
    pub line_selected: i64,
    pub title_text: String,
    pub question_text: String,
    pub answer_text: String,
    pub speaker_names: Vec<String>,
    pub system_text: String,
    pub prompt_text: String,
    pub sessions: Vec<Session>,
    pub is_recording: bool,
}

impl App {
    /// A fresh state whose sessions are computed from the stored recording
    /// times; all texts are empty, no speaker is named, nothing is being
    /// recorded.
    pub fn new(record_ms: &[i64]) -> (app: App)
        requires
            gaps_fit(record_ms@),
        ensures
            app.sessions@ == sessions_of(record_ms@),
            app.url@.len() == 0,
            app.line_selected == 0,
            app.title_text@.len() == 0,
            app.question_text@.len() == 0,
            app.answer_text@.len() == 0,
            app.speaker_names@.len() == 0,
            app.system_text@.len() == 0,
            app.prompt_text@.len() == 0,
            !app.is_recording,
    {
        App {
            url: String::new(),
            line_selected: 0,
            title_text: String::new(),
            question_text: String::new(),
            answer_text: String::new(),
            speaker_names: Vec::new(),
            system_text: String::new(),
            prompt_text: String::new(),
            sessions: Session::calculate_sessions(record_ms),
            is_recording: false,
        }
    }

    /// The final transcript as text, with each speaker labelled by name.
    pub fn get_transcript(&self, words: &[Option<Word>]) -> (text: String)
        requires
            renderable_from(words@, self.speaker_names@.len(), NO_SPEAKER),
        ensures
            text@ == render(words@, self.speaker_names@),
    {
        crate::transcript::render_transcript(words, self.speaker_names.as_slice())
    }

    /// Gives every speaker below the minimum a name, its own number, keeping
    /// the names already there.
    pub fn pad_speaker_names(&mut self)
        ensures
            final(self).speaker_names@.len() == if old(self).speaker_names@.len() < MIN_SPEAKER_NAMES {
                MIN_SPEAKER_NAMES as nat
            } else {
                old(self).speaker_names@.len()
            },
            forall|i: int|
                0 <= i < old(self).speaker_names@.len() ==> #[trigger] final(self).speaker_names@[i]
                    == old(self).speaker_names@[i],
            forall|i: int|
                old(self).speaker_names@.len() <= i < final(self).speaker_names@.len() ==> (
                #[trigger] final(self).speaker_names@[i])@ == decimal(i as nat),
            final(self).sessions@ == old(self).sessions@,
            final(self).is_recording == old(self).is_recording,
            texts_unchanged(*old(self), *final(self)),
    {
        let ghost names0 = self.speaker_names@;
        while self.speaker_names.len() < MIN_SPEAKER_NAMES
            invariant
                names0.len() <= self.speaker_names@.len(),
                names0.len() < MIN_SPEAKER_NAMES ==> self.speaker_names@.len() <= MIN_SPEAKER_NAMES,
                names0.len() >= MIN_SPEAKER_NAMES ==> self.speaker_names@.len() == names0.len(),
                forall|i: int| 0 <= i < names0.len() ==> #[trigger] self.speaker_names@[i] == names0[i],
                forall|i: int|
                    names0.len() <= i < self.speaker_names@.len() ==> (
                    #[trigger] self.speaker_names@[i])@ == decimal(i as nat),
                self.sessions@ == old(self).sessions@,
                self.is_recording == old(self).is_recording,
                texts_unchanged(*old(self), *self),
            decreases MIN_SPEAKER_NAMES - self.speaker_names@.len(),
        {
            let n = self.speaker_names.len();
            let name = decimal_string(n);
            self.speaker_names.push(name);
        }
    }

    /// Starts recording unless a recording is already running: a session
    /// opens now, with no end yet. Returns whether recording started.
    pub fn start_recording(&mut self, now_ms: i64) -> (started: bool)
        ensures
            started == !old(self).is_recording,
            final(self).is_recording,
            started ==> final(self).sessions@ == old(self).sessions@.push(
                Session { start_ms: now_ms, end_ms: i64::MAX },
            ),
            !started ==> final(self).sessions@ == old(self).sessions@,
            final(self).speaker_names@ == old(self).speaker_names@,
            texts_unchanged(*old(self), *final(self)),
    {
        if self.is_recording {
            return false;
        }
        self.is_recording = true;
        self.sessions.push(Session { start_ms: now_ms, end_ms: i64::MAX });
        true
    }

    /// One frame of the window: every speaker below the minimum gets a
    /// name, and when the record button was clicked, recording starts
    /// (the button is disabled while recording). Returns whether recording
    /// started.
    ///
    /// Recording never stops within a frame; the sessions before the frame
    /// stay as they were, and one session is added exactly when recording
    /// starts.
    pub fn on_frame(&mut self, record_clicked: bool, now_ms: i64) -> (started: bool)
        ensures
            started == (record_clicked && !old(self).is_recording),
            old(self).is_recording ==> final(self).is_recording,
            final(self).is_recording == (old(self).is_recording || record_clicked),
            final(self).sessions@.subrange(0, old(self).sessions@.len() as int) == old(self).sessions@,
            old(self).sessions@.len() <= final(self).sessions@.len() <= old(self).sessions@.len() + 1,
            final(self).sessions@.len() == old(self).sessions@.len() + 1 <==> (!old(self).is_recording
                && final(self).is_recording),
            started ==> final(self).sessions@.last() == (Session { start_ms: now_ms, end_ms: i64::MAX }),
            final(self).speaker_names@.len() == if old(self).speaker_names@.len() < MIN_SPEAKER_NAMES {
                MIN_SPEAKER_NAMES as nat
            } else {
                old(self).speaker_names@.len()
            },
            forall|i: int|
                0 <= i < old(self).speaker_names@.len() ==> #[trigger] final(self).speaker_names@[i]
                    == old(self).speaker_names@[i],
            forall|i: int|
                old(self).speaker_names@.len() <= i < final(self).speaker_names@.len() ==> (
                #[trigger] final(self).speaker_names@[i])@ == decimal(i as nat),
            texts_unchanged(*old(self), *final(self)),
    {
        self.pad_speaker_names();
        if record_clicked {
            let started = self.start_recording(now_ms);
            assert(self.sessions@.subrange(0, old(self).sessions@.len() as int) =~= old(self).sessions@);
            started
        } else {
            assert(self.sessions@.subrange(0, old(self).sessions@.len() as int) =~= old(self).sessions@);
            false
        }
    }
}

/// Who a chat message comes from.
#[derive(Clone, Copy, Debug, PartialEq, Eq, Structural)]
pub enum ChatRole {
    System,
    User,
}

/// One message of a chat request.
pub struct ChatMessage {
    pub role: ChatRole,
    pub content: String,
}

/// A chat window: instructions for the model, a question about the
/// transcript, and the answer streamed back.
pub struct WheelWindow {
    pub system: String,
    pub prompt: String,
    pub completion: String,
}

impl WheelWindow {
    /// A window with empty texts.
    pub fn new() -> (w: WheelWindow)
        ensures
            w.system@.len() == 0,
            w.prompt@.len() == 0,
            w.completion@.len() == 0,
    {
        WheelWindow { system: String::new(), prompt: String::new(), completion: String::new() }
    }

    /// The request for the model: the window's instructions, then the
    /// transcript, then the window's question.
    pub fn chat_messages(&self, transcript: String) -> (messages: Vec<ChatMessage>)
        ensures
            messages@.len() == 3,
            messages@[0].role == ChatRole::System,
            messages@[0].content@ == self.system@,
            messages@[1].role == ChatRole::User,
            messages@[1].content@ == transcript@,
            messages@[2].role == ChatRole::User,
            messages@[2].content@ == self.prompt@,
    {
        let mut messages: Vec<ChatMessage> = Vec::new();
        messages.push(ChatMessage { role: ChatRole::System, content: self.system.clone() });
        messages.push(ChatMessage { role: ChatRole::User, content: transcript });
        messages.push(ChatMessage { role: ChatRole::User, content: self.prompt.clone() });
        messages
    }

    /// Forgets the previous answer before a new request.
    pub fn clear_completion(&mut self)
        ensures
            final(self).completion@.len() == 0,
            final(self).system@ == old(self).system@,
            final(self).prompt@ == old(self).prompt@,
    {
        self.completion = String::new();
    }

    /// Appends a streamed piece of the answer, if the piece holds text.
    pub fn push_delta(&mut self, content: Option<&str>)
        ensures
            final(self).completion@ == old(self).completion@ + match content {
                Some(c) => c@,
                None => Seq::empty(),
            },
            final(self).system@ == old(self).system@,
            final(self).prompt@ == old(self).prompt@,
    {
        match content {
            Some(c) => self.completion.append(c),
            None => {
                assert(self.completion@ + Seq::<char>::empty() =~= self.completion@);
            },
        }
    }
}

/// How a setting reaches the store.
#[derive(Clone, Copy, Debug, PartialEq, Eq, Structural)]
pub enum SaveKind {
    /// The setting was read from the store: its row is updated.
    Update,
    /// The setting is new: a row is inserted.
    Insert,
}

/// A stored key-value setting; `rowid` is set once it has been stored.
pub struct Setting {
    pub rowid: Option<i64>,
    pub key: String,
    pub value: String,
}

impl Setting {
    /// The setting for `key`: the stored one when there is one, otherwise a
    /// new, unstored setting for `key` with an empty value.
    pub fn get(key: &str, stored: Option<Setting>) -> (s: Setting)
        ensures
            stored matches Some(t) ==> s == t,
            stored is None ==> s.rowid is None && s.key@ == key@ && s.value@.len() == 0,
    {
        match stored {
            Some(t) => t,
            None => Setting { rowid: None, key: key.to_owned(), value: String::new() },
        }
    }

    /// Whether saving updates the stored row or inserts a new one.
    pub fn save_kind(&self) -> (k: SaveKind)
        ensures
            k == (if self.rowid is Some {
                SaveKind::Update
            } else {
                SaveKind::Insert
            }),
    {
        if self.rowid.is_some() {
            SaveKind::Update
        } else {
            SaveKind::Insert
        }
    }
}

} // verus!
