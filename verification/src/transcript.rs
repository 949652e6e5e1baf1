//! Transcribed words, the live and final transcripts they are gathered
//! into, and how a transcript is rendered as text with speaker labels.

use vstd::prelude::*;

verus! {

/// The speaker that no line starts with: a speaker label is written before
/// the first word of every line unless that word's speaker is this value.
pub const NO_SPEAKER: u8 = 100;

/// A word from the live transcription stream.
pub struct LiveWord {
    pub speaker: u8,
    pub word: String,
}

impl View for LiveWord {
    type V = (u8, Seq<char>);

    open spec fn view(&self) -> (u8, Seq<char>) {
        (self.speaker, self.word@)
    }
}

impl LiveWord {
    /// A copy of this word.
    pub fn duplicate(&self) -> (w: LiveWord)
        ensures
            w@ == self@,
    {
        LiveWord { speaker: self.speaker, word: self.word.clone() }
    }
}

/// A word from the transcription of a whole recording; the speaker is only
/// known when speakers were told apart.
pub struct PrerecordedWord {
    pub speaker: Option<usize>,
    pub word: String,
}

impl View for PrerecordedWord {
    type V = (Option<usize>, Seq<char>);

    open spec fn view(&self) -> (Option<usize>, Seq<char>) {
        (self.speaker, self.word@)
    }
}

/// A word of the final transcript.
pub enum Word {
    Live(LiveWord),
    Prerecorded(PrerecordedWord),
}

impl Word {
    /// Whether the word's speaker is known.
    pub open spec fn has_speaker(self) -> bool {
        match self {
            Word::Live(_) => true,
            Word::Prerecorded(w) => w.speaker is Some,
        }
    }

    /// The word's speaker; a prerecorded speaker number is taken modulo 256.
    pub open spec fn speaker_of(self) -> u8 {
        match self {
            Word::Live(w) => w.speaker,
            Word::Prerecorded(w) => (w.speaker->0 % 256) as u8,
        }
    }

    /// The text of the word.
    pub open spec fn text(self) -> Seq<char> {
        match self {
            Word::Live(w) => w.word@,
            Word::Prerecorded(w) => w.word@,
        }
    }

    /// The word's speaker.
    pub fn speaker(&self) -> (s: u8)
        requires
            self.has_speaker(),
        ensures
            s == self.speaker_of(),
    {
        match self {
            Word::Live(word) => word.speaker,
            Word::Prerecorded(word) => {
                let n = word.speaker.unwrap();
                assert((n as u8) == (n % 256) as u8) by (bit_vector);
                n as u8
            },
        }
    }

    /// The word's text.
    pub fn word(&self) -> (t: &str)
        ensures
            t@ == self.text(),
    {
        match self {
            Word::Live(word) => word.word.as_str(),
            Word::Prerecorded(word) => word.word.as_str(),
        }
    }
}

/// The label written before a speaker's words: a new line, then the name in
/// brackets, a colon and a space.
pub open spec fn speaker_label(name: Seq<char>) -> Seq<char> {
    seq!['\n', '['] + name + seq![']', ':', ' ']
}

/// The text of a transcript from `words` on, when the previous word was
/// spoken by `current`: a `None` ends a line; each word is written followed
/// by a space, preceded by its speaker's label when the speaker changes
/// within a line; the text ends with a new line.
pub open spec fn render_from(words: Seq<Option<Word>>, names: Seq<String>, current: u8) -> Seq<char>
    decreases words.len(),
{
    if words.len() == 0 {
        seq!['\n']
    } else {
        match words[0] {
            None => render_from(words.drop_first(), names, NO_SPEAKER),
            Some(w) => {
                let s = w.speaker_of();
                let label = if s != current {
                    speaker_label(names[s as int]@)
                } else {
                    Seq::empty()
                };
                label + w.text() + seq![' '] + render_from(words.drop_first(), names, s)
            },
        }
    }
}

/// The text of a whole transcript.
pub open spec fn render(words: Seq<Option<Word>>, names: Seq<String>) -> Seq<char> {
    render_from(words, names, NO_SPEAKER)
}

/// Every word from `words` on has a known speaker, and every speaker whose
/// label is written has a name.
pub open spec fn renderable_from(words: Seq<Option<Word>>, name_count: nat, current: u8) -> bool
    decreases words.len(),
{
    if words.len() == 0 {
        true
    } else {
        match words[0] {
            None => renderable_from(words.drop_first(), name_count, NO_SPEAKER),
            Some(w) => {
                &&& w.has_speaker()
                &&& (w.speaker_of() != current ==> w.speaker_of() < name_count)
                &&& renderable_from(words.drop_first(), name_count, w.speaker_of())
            },
        }
    }
}

/// Renders a transcript as text, labelling speakers by `speaker_names`.
pub fn render_transcript(words: &[Option<Word>], speaker_names: &[String]) -> (text: String)
    requires
        renderable_from(words@, speaker_names@.len(), NO_SPEAKER),
    ensures
        text@ == render(words@, speaker_names@),
{
    let mut transcript = String::new();
    let mut current_speaker: u8 = NO_SPEAKER;
    let n = words.len();
    let mut i: usize = 0;
    proof {
        reveal_strlit("\n[");
        reveal_strlit("]: ");
        reveal_strlit(" ");
        reveal_strlit("\n");
        assert(words@.skip(0) =~= words@);
    }
    while i < n
        invariant
            n == words@.len(),
            0 <= i <= n,
            renderable_from(words@.skip(i as int), speaker_names@.len(), current_speaker),
            transcript@ + render_from(words@.skip(i as int), speaker_names@, current_speaker)
                == render(words@, speaker_names@),
            "\n["@ == seq!['\n', '['],
            "]: "@ == seq![']', ':', ' '],
            " "@ == seq![' '],
        decreases n - i,
    {
        let ghost rest = words@.skip(i as int);
        assert(rest.drop_first() =~= words@.skip(i + 1));
        assert(rest[0] == words@[i as int]);
        match &words[i] {
            None => {
                current_speaker = NO_SPEAKER;
            },
            Some(word) => {
                let ghost before = transcript@;
                let ghost old_current = current_speaker;
                let ghost w = *word;
                let s = word.speaker();
                let ghost label = if s != old_current {
                    speaker_label(speaker_names@[s as int]@)
                } else {
                    Seq::<char>::empty()
                };
                if s != current_speaker {
                    transcript.append("\n[");
                    transcript.append(speaker_names[s as usize].as_str());
                    transcript.append("]: ");
                }
                assert(transcript@ =~= before + label);
                current_speaker = s;
                transcript.append(word.word());
                transcript.append(" ");
                assert(transcript@ =~= before + label + w.text() + seq![' ']);
                assert(render_from(rest, speaker_names@, old_current) == label + w.text() + seq![' ']
                    + render_from(rest.drop_first(), speaker_names@, s));
                assert(transcript@ + render_from(words@.skip(i + 1), speaker_names@, current_speaker)
                    =~= before + render_from(rest, speaker_names@, old_current));
            },
        }
        i = i + 1;
    }
    proof {
        reveal_strlit("\n");
    }
    transcript.append("\n");
    transcript
}

/// One piece of a transcript as it is laid out on screen.
pub enum DisplayItem {
    /// A new line of the transcript begins.
    LineStart,
    /// A speaker's label, `[name]: `, on a row of its own.
    SpeakerLabel(String),
    /// A word.
    Word(String),
}

/// What a display item shows.
pub enum DisplayView {
    LineStart,
    SpeakerLabel(Seq<char>),
    Word(Seq<char>),
}

impl View for DisplayItem {
    type V = DisplayView;

    open spec fn view(&self) -> DisplayView {
        match self {
            DisplayItem::LineStart => DisplayView::LineStart,
            DisplayItem::SpeakerLabel(t) => DisplayView::SpeakerLabel(t@),
            DisplayItem::Word(t) => DisplayView::Word(t@),
        }
    }
}

/// The label shown on screen for a speaker named `name`.
pub open spec fn screen_label(name: Seq<char>) -> Seq<char> {
    seq!['['] + name + seq![']', ':', ' ']
}

/// The display items of a transcript from `words` on, when the previous
/// word was spoken by `current`: a `None` starts a new line; a word is
/// preceded by its speaker's label when the speaker changes within a line.
pub open spec fn items_from(words: Seq<Option<Word>>, names: Seq<String>, current: u8) -> Seq<DisplayView>
    decreases words.len(),
{
    if words.len() == 0 {
        Seq::empty()
    } else {
        match words[0] {
            None => seq![DisplayView::LineStart] + items_from(words.drop_first(), names, NO_SPEAKER),
            Some(w) => {
                let s = w.speaker_of();
                let label = if s != current {
                    seq![DisplayView::SpeakerLabel(screen_label(names[s as int]@))]
                } else {
                    Seq::empty()
                };
                label + seq![DisplayView::Word(w.text())] + items_from(words.drop_first(), names, s)
            },
        }
    }
}

/// The display items of a whole transcript: it starts with a line.
pub open spec fn display_of(words: Seq<Option<Word>>, names: Seq<String>) -> Seq<DisplayView> {
    seq![DisplayView::LineStart] + items_from(words, names, NO_SPEAKER)
}

/// Lays out a transcript for the screen, labelling speakers by
/// `speaker_names`.
pub fn display_items(words: &[Option<Word>], speaker_names: &[String]) -> (items: Vec<DisplayItem>)
    requires
        renderable_from(words@, speaker_names@.len(), NO_SPEAKER),
    ensures
        items@.map_values(|d: DisplayItem| d@) == display_of(words@, speaker_names@),
{
    let mut items: Vec<DisplayItem> = Vec::new();
    items.push(DisplayItem::LineStart);
    let mut current_speaker: u8 = NO_SPEAKER;
    let n = words.len();
    let mut i: usize = 0;
    proof {
        reveal_strlit("[");
        reveal_strlit("]: ");
        assert(words@.skip(0) =~= words@);
        assert(items@.map_values(|d: DisplayItem| d@) =~= seq![DisplayView::LineStart]);
    }
    while i < n
        invariant
            n == words@.len(),
            0 <= i <= n,
            renderable_from(words@.skip(i as int), speaker_names@.len(), current_speaker),
            items@.map_values(|d: DisplayItem| d@) + items_from(
                words@.skip(i as int),
                speaker_names@,
                current_speaker,
            ) == display_of(words@, speaker_names@),
            "["@ == seq!['['],
            "]: "@ == seq![']', ':', ' '],
        decreases n - i,
    {
        let ghost rest = words@.skip(i as int);
        let ghost before = items@.map_values(|d: DisplayItem| d@);
        assert(rest.drop_first() =~= words@.skip(i + 1));
        assert(rest[0] == words@[i as int]);
        match &words[i] {
            None => {
                items.push(DisplayItem::LineStart);
                current_speaker = NO_SPEAKER;
                assert(items@.map_values(|d: DisplayItem| d@) =~= before + seq![DisplayView::LineStart]);
                assert(items@.map_values(|d: DisplayItem| d@) + items_from(
                    words@.skip(i + 1),
                    speaker_names@,
                    current_speaker,
                ) =~= before + items_from(rest, speaker_names@, NO_SPEAKER));
            },
            Some(word) => {
                let ghost old_current = current_speaker;
                let ghost w = *word;
                let s = word.speaker();
                let ghost label = if s != old_current {
                    seq![DisplayView::SpeakerLabel(screen_label(speaker_names@[s as int]@))]
                } else {
                    Seq::<DisplayView>::empty()
                };
                if s != current_speaker {
                    let mut text = String::new();
                    text.append("[");
                    text.append(speaker_names[s as usize].as_str());
                    text.append("]: ");
                    assert(text@ =~= screen_label(speaker_names@[s as int]@));
                    items.push(DisplayItem::SpeakerLabel(text));
                }
                assert(items@.map_values(|d: DisplayItem| d@) =~= before + label);
                current_speaker = s;
                let ghost with_label = items@.map_values(|d: DisplayItem| d@);
                let mut t = String::new();
                t.append(word.word());
                items.push(DisplayItem::Word(t));
                assert(items@.map_values(|d: DisplayItem| d@) =~= with_label + seq![DisplayView::Word(w.text())]);
                assert(items_from(rest, speaker_names@, old_current) == label + seq![DisplayView::Word(w.text())]
                    + items_from(rest.drop_first(), speaker_names@, s));
                assert(items@.map_values(|d: DisplayItem| d@) + items_from(
                    words@.skip(i + 1),
                    speaker_names@,
                    current_speaker,
                ) =~= before + items_from(rest, speaker_names@, old_current));
            },
        }
        i = i + 1;
    }
    assert(words@.skip(n as int) =~= Seq::<Option<Word>>::empty());
    assert(items@.map_values(|d: DisplayItem| d@) + Seq::<DisplayView>::empty() =~= items@.map_values(|d: DisplayItem| d@));
    items
}

/// The text that display items stand for: a label is written on a new
/// line, a word is followed by a space, a line start adds nothing.
pub open spec fn items_text(items: Seq<DisplayView>) -> Seq<char>
    decreases items.len(),
{
    if items.len() == 0 {
        Seq::empty()
    } else {
        let rest = items_text(items.drop_first());
        match items[0] {
            DisplayView::LineStart => rest,
            DisplayView::SpeakerLabel(t) => seq!['\n'] + t + rest,
            DisplayView::Word(t) => t + seq![' '] + rest,
        }
    }
}

proof fn lemma_items_text_concat(a: Seq<DisplayView>, b: Seq<DisplayView>)
    ensures
        items_text(a + b) == items_text(a) + items_text(b),
    decreases a.len(),
{
    if a.len() == 0 {
        assert(a + b =~= b);
    } else {
        assert((a + b).drop_first() =~= a.drop_first() + b);
        lemma_items_text_concat(a.drop_first(), b);
        assert((a + b)[0] == a[0]);
    }
}

proof fn lemma_items_text_one(d: DisplayView)
    ensures
        items_text(seq![d]) == match d {
            DisplayView::LineStart => Seq::<char>::empty(),
            DisplayView::SpeakerLabel(t) => seq!['\n'] + t,
            DisplayView::Word(t) => t + seq![' '],
        },
{
    let one = seq![d];
    assert(one.drop_first() =~= Seq::<DisplayView>::empty());
    assert(items_text(Seq::<DisplayView>::empty()) == Seq::<char>::empty());
    match d {
        DisplayView::LineStart => {},
        DisplayView::SpeakerLabel(t) => {
            assert(seq!['\n'] + t + Seq::<char>::empty() =~= seq!['\n'] + t);
        },
        DisplayView::Word(t) => {
            assert(t + seq![' '] + Seq::<char>::empty() =~= t + seq![' ']);
        },
    }
}

proof fn lemma_items_text_from(words: Seq<Option<Word>>, names: Seq<String>, current: u8)
    ensures
        items_text(items_from(words, names, current)) + seq!['\n'] == render_from(words, names, current),
    decreases words.len(),
{
    if words.len() == 0 {
        assert(items_text(Seq::<DisplayView>::empty()) + seq!['\n'] =~= seq!['\n']);
    } else {
        match words[0] {
            None => {
                lemma_items_text_from(words.drop_first(), names, NO_SPEAKER);
                let tail = items_from(words.drop_first(), names, NO_SPEAKER);
                lemma_items_text_concat(seq![DisplayView::LineStart], tail);
                lemma_items_text_one(DisplayView::LineStart);
                assert(items_text(tail) =~= Seq::<char>::empty() + items_text(tail));
            },
            Some(w) => {
                let s = w.speaker_of();
                lemma_items_text_from(words.drop_first(), names, s);
                let tail = items_from(words.drop_first(), names, s);
                let word_item = seq![DisplayView::Word(w.text())];
                lemma_items_text_one(DisplayView::Word(w.text()));
                lemma_items_text_concat(word_item, tail);
                if s != current {
                    let label_item = seq![DisplayView::SpeakerLabel(screen_label(names[s as int]@))];
                    lemma_items_text_one(DisplayView::SpeakerLabel(screen_label(names[s as int]@)));
                    assert(items_text(label_item) =~= speaker_label(names[s as int]@));
                    lemma_items_text_concat(label_item, word_item + tail);
                    assert(label_item + word_item + tail =~= label_item + (word_item + tail));
                    assert(items_text(items_from(words, names, current)) + seq!['\n'] =~= speaker_label(
                        names[s as int]@,
                    ) + w.text() + seq![' '] + (items_text(tail) + seq!['\n']));
                } else {
                    assert(Seq::<DisplayView>::empty() + word_item + tail =~= word_item + tail);
                    assert(items_text(items_from(words, names, current)) + seq!['\n'] =~= Seq::<char>::empty()
                        + w.text() + seq![' '] + (items_text(tail) + seq!['\n']));
                }
            },
        }
    }
}

/// The screen shows what the text says: the display items of a transcript,
/// written out, followed by a new line, are its rendered text.
pub proof fn lemma_display_matches_text(words: Seq<Option<Word>>, names: Seq<String>)
    ensures
        items_text(display_of(words, names)) + seq!['\n'] == render(words, names),
{
    lemma_items_text_from(words, names, NO_SPEAKER);
    lemma_items_text_concat(seq![DisplayView::LineStart], items_from(words, names, NO_SPEAKER));
    lemma_items_text_one(DisplayView::LineStart);
    assert(Seq::<char>::empty() + items_text(items_from(words, names, NO_SPEAKER)) =~= items_text(
        items_from(words, names, NO_SPEAKER),
    ));
}

/// Every entry is a word with a known speaker, and that speaker is `s`.
pub open spec fn one_speaker_run(words: Seq<Option<Word>>, s: u8) -> bool {
    forall|i: int|
        0 <= i < words.len() ==> (#[trigger] words[i] matches Some(w) && w.has_speaker()
            && w.speaker_of() == s)
}

/// The words of `words`, each followed by a space.
pub open spec fn words_text(words: Seq<Option<Word>>) -> Seq<char>
    decreases words.len(),
{
    if words.len() == 0 {
        Seq::empty()
    } else {
        let first = match words[0] {
            Some(w) => w.text(),
            None => Seq::empty(),
        };
        first + seq![' '] + words_text(words.drop_first())
    }
}

/// The screen items of the words of `words`, one per word.
pub open spec fn word_items(words: Seq<Option<Word>>) -> Seq<DisplayView> {
    words.map_values(
        |e: Option<Word>|
            match e {
                Some(w) => DisplayView::Word(w.text()),
                None => DisplayView::LineStart,
            },
    )
}

proof fn lemma_run_unlabelled(words: Seq<Option<Word>>, rest: Seq<Option<Word>>, names: Seq<String>, s: u8)
    requires
        one_speaker_run(words, s),
    ensures
        render_from(words + rest, names, s) == words_text(words) + render_from(rest, names, s),
        items_from(words + rest, names, s) == word_items(words) + items_from(rest, names, s),
    decreases words.len(),
{
    if words.len() == 0 {
        assert(words + rest =~= rest);
        assert(word_items(words) =~= Seq::<DisplayView>::empty());
        assert(Seq::<char>::empty() + render_from(rest, names, s) =~= render_from(rest, names, s));
        assert(Seq::<DisplayView>::empty() + items_from(rest, names, s) =~= items_from(rest, names, s));
    } else {
        let tail = words.drop_first();
        assert(one_speaker_run(tail, s)) by {
            assert forall|i: int| 0 <= i < tail.len() implies (#[trigger] tail[i] matches Some(w)
                && w.has_speaker() && w.speaker_of() == s) by {
                assert(tail[i] == words[i + 1]);
            }
        }
        lemma_run_unlabelled(tail, rest, names, s);
        assert((words + rest).drop_first() =~= tail + rest);
        assert((words + rest)[0] == words[0]);
        assert(words[0] matches Some(w) && w.speaker_of() == s);
        let w = words[0]->0;
        assert(render_from(words + rest, names, s) =~= w.text() + seq![' '] + (words_text(tail)
            + render_from(rest, names, s)));
        assert(word_items(words) =~= seq![DisplayView::Word(w.text())] + word_items(tail));
        assert(items_from(words + rest, names, s) =~= seq![DisplayView::Word(w.text())] + (word_items(
            tail,
        ) + items_from(rest, names, s)));
    }
}

proof fn lemma_run_from(words: Seq<Option<Word>>, rest: Seq<Option<Word>>, names: Seq<String>, s: u8, c: u8)
    requires
        words.len() > 0,
        one_speaker_run(words, s),
        s != c,
    ensures
        render_from(words + rest, names, c) == seq!['\n', '['] + names[s as int]@ + seq![']', ':', ' ']
            + words_text(words) + render_from(rest, names, s),
        items_from(words + rest, names, c) == seq![
            DisplayView::SpeakerLabel(seq!['['] + names[s as int]@ + seq![']', ':', ' ']),
        ] + word_items(words) + items_from(rest, names, s),
{
    let tail = words.drop_first();
    assert(one_speaker_run(tail, s)) by {
        assert forall|i: int| 0 <= i < tail.len() implies (#[trigger] tail[i] matches Some(w)
            && w.has_speaker() && w.speaker_of() == s) by {
            assert(tail[i] == words[i + 1]);
        }
    }
    lemma_run_unlabelled(tail, rest, names, s);
    assert((words + rest).drop_first() =~= tail + rest);
    assert((words + rest)[0] == words[0]);
    assert(words[0] matches Some(w) && w.speaker_of() == s);
    let w = words[0]->0;
    assert(words_text(words) == w.text() + seq![' '] + words_text(tail));
    assert(render_from(words + rest, names, c) =~= seq!['\n', '['] + names[s as int]@ + seq![
        ']',
        ':',
        ' ',
    ] + (w.text() + seq![' '] + words_text(tail)) + render_from(rest, names, s));
    assert(word_items(words) =~= seq![DisplayView::Word(w.text())] + word_items(tail));
    assert(items_from(words + rest, names, c) =~= seq![
        DisplayView::SpeakerLabel(seq!['['] + names[s as int]@ + seq![']', ':', ' ']),
    ] + (seq![DisplayView::Word(w.text())] + word_items(tail)) + items_from(rest, names, s));
}

/// A line spoken by one speaker carries one label: its text is a new line,
/// the speaker's name in brackets, a colon and a space, then every word
/// followed by a space, then the final new line; on screen it is a line
/// start, one label and the words.
pub proof fn lemma_one_speaker_line(words: Seq<Option<Word>>, names: Seq<String>, s: u8)
    requires
        words.len() > 0,
        one_speaker_run(words, s),
        s != NO_SPEAKER,
    ensures
        render(words, names) == seq!['\n', '['] + names[s as int]@ + seq![']', ':', ' '] + words_text(
            words,
        ) + seq!['\n'],
        display_of(words, names) == seq![
            DisplayView::LineStart,
            DisplayView::SpeakerLabel(seq!['['] + names[s as int]@ + seq![']', ':', ' ']),
        ] + word_items(words),
{
    let empty = Seq::<Option<Word>>::empty();
    lemma_run_from(words, empty, names, s, NO_SPEAKER);
    assert(words + empty =~= words);
    assert(items_from(empty, names, s) =~= Seq::<DisplayView>::empty());
    assert(display_of(words, names) =~= seq![
        DisplayView::LineStart,
        DisplayView::SpeakerLabel(seq!['['] + names[s as int]@ + seq![']', ':', ' ']),
    ] + word_items(words));
}

/// Within a line, a label is written exactly where the speaker changes: a
/// run by `s` followed by a run by `t` reads label of `s`, the first run's
/// words, label of `t`, the second run's words; on screen the same.
pub proof fn lemma_speaker_change(
    first: Seq<Option<Word>>,
    second: Seq<Option<Word>>,
    names: Seq<String>,
    s: u8,
    t: u8,
)
    requires
        first.len() > 0,
        second.len() > 0,
        one_speaker_run(first, s),
        one_speaker_run(second, t),
        s != t,
        s != NO_SPEAKER,
    ensures
        render(first + second, names) == seq!['\n', '['] + names[s as int]@ + seq![']', ':', ' ']
            + words_text(first) + seq!['\n', '['] + names[t as int]@ + seq![']', ':', ' '] + words_text(
            second,
        ) + seq!['\n'],
        display_of(first + second, names) == seq![
            DisplayView::LineStart,
            DisplayView::SpeakerLabel(seq!['['] + names[s as int]@ + seq![']', ':', ' ']),
        ] + word_items(first) + seq![
            DisplayView::SpeakerLabel(seq!['['] + names[t as int]@ + seq![']', ':', ' ']),
        ] + word_items(second),
{
    let empty = Seq::<Option<Word>>::empty();
    lemma_run_from(first, second, names, s, NO_SPEAKER);
    lemma_run_from(second, empty, names, t, s);
    assert(second + empty =~= second);
    assert(items_from(empty, names, t) =~= Seq::<DisplayView>::empty());
    assert(render(first + second, names) =~= seq!['\n', '['] + names[s as int]@ + seq![']', ':', ' ']
        + words_text(first) + seq!['\n', '['] + names[t as int]@ + seq![']', ':', ' '] + words_text(
        second,
    ) + seq!['\n']);
    assert(display_of(first + second, names) =~= seq![
        DisplayView::LineStart,
        DisplayView::SpeakerLabel(seq!['['] + names[s as int]@ + seq![']', ':', ' ']),
    ] + word_items(first) + seq![
        DisplayView::SpeakerLabel(seq!['['] + names[t as int]@ + seq![']', ':', ' ']),
    ] + word_items(second));
}

proof fn lemma_render_ends_with_newline(words: Seq<Option<Word>>, names: Seq<String>, c: u8)
    ensures
        render_from(words, names, c).len() > 0,
        render_from(words, names, c).last() == '\n',
    decreases words.len(),
{
    if words.len() > 0 {
        match words[0] {
            None => lemma_render_ends_with_newline(words.drop_first(), names, NO_SPEAKER),
            Some(w) => lemma_render_ends_with_newline(words.drop_first(), names, w.speaker_of()),
        }
    }
}

/// A line end separates independent lines: the text of `before`, a line
/// end and `after` is the text of `before` without its final new line,
/// followed by the text of `after` as a transcript of its own (the speaker
/// is forgotten at the line end). Every text ends with a new line.
pub proof fn lemma_line_break(before: Seq<Option<Word>>, after: Seq<Option<Word>>, names: Seq<String>, c: u8)
    ensures
        render_from(before + seq![None] + after, names, c) == render_from(before, names, c).drop_last()
            + render(after, names),
        render_from(before, names, c).last() == '\n',
    decreases before.len(),
{
    lemma_render_ends_with_newline(before, names, c);
    let joined = before + seq![None] + after;
    if before.len() == 0 {
        assert(joined.drop_first() =~= after);
        assert(joined[0] == None::<Word>);
        assert(render_from(before, names, c).drop_last() =~= Seq::<char>::empty());
        assert(Seq::<char>::empty() + render(after, names) =~= render(after, names));
    } else {
        let tail = before.drop_first();
        assert(joined.drop_first() =~= tail + seq![None] + after);
        assert(joined[0] == before[0]);
        match before[0] {
            None => {
                lemma_line_break(tail, after, names, NO_SPEAKER);
            },
            Some(w) => {
                let s = w.speaker_of();
                lemma_line_break(tail, after, names, s);
                lemma_render_ends_with_newline(tail, names, s);
                let label = if s != c {
                    speaker_label(names[s as int]@)
                } else {
                    Seq::<char>::empty()
                };
                let r = render_from(tail, names, s);
                assert((label + w.text() + seq![' '] + r).drop_last() =~= label + w.text() + seq![' ']
                    + r.drop_last());
                assert(render_from(joined, names, c) =~= label + w.text() + seq![' '] + (r.drop_last()
                    + render(after, names)));
            },
        }
    }
}

/// Whether a transcript can be rendered with `speaker_names`: every word
/// has a known speaker and every label written names a listed speaker.
pub fn can_render(words: &[Option<Word>], speaker_names: &[String]) -> (b: bool)
    ensures
        b == renderable_from(words@, speaker_names@.len(), NO_SPEAKER),
{
    let mut current_speaker: u8 = NO_SPEAKER;
    let n = words.len();
    let mut i: usize = 0;
    assert(words@.skip(0) =~= words@);
    while i < n
        invariant
            n == words@.len(),
            0 <= i <= n,
            renderable_from(words@, speaker_names@.len(), NO_SPEAKER) == renderable_from(
                words@.skip(i as int),
                speaker_names@.len(),
                current_speaker,
            ),
        decreases n - i,
    {
        let ghost rest = words@.skip(i as int);
        assert(rest.drop_first() =~= words@.skip(i + 1));
        assert(rest[0] == words@[i as int]);
        match &words[i] {
            None => {
                current_speaker = NO_SPEAKER;
            },
            Some(word) => {
                let known = match word {
                    Word::Live(_) => true,
                    Word::Prerecorded(w) => w.speaker.is_some(),
                };
                if !known {
                    return false;
                }
                let s = word.speaker();
                if s != current_speaker && s as usize >= speaker_names.len() {
                    return false;
                }
                current_speaker = s;
            },
        }
        i = i + 1;
    }
    true
}

/// The color a speaker's words are shown in.
#[derive(Clone, Copy, Debug, PartialEq, Eq, Structural)]
pub enum SpeakerColor {
    Red,
    Green,
    Blue,
    Yellow,
    LightGray,
    DarkRed,
    DarkGreen,
    Black,
    White,
}

/// Speakers 0 to 7 each have a color of their own; all others are white.
pub open spec fn color_of(speaker: u8) -> SpeakerColor {
    if speaker == 0 {
        SpeakerColor::Red
    } else if speaker == 1 {
        SpeakerColor::Green
    } else if speaker == 2 {
        SpeakerColor::Blue
    } else if speaker == 3 {
        SpeakerColor::Yellow
    } else if speaker == 4 {
        SpeakerColor::LightGray
    } else if speaker == 5 {
        SpeakerColor::DarkRed
    } else if speaker == 6 {
        SpeakerColor::DarkGreen
    } else if speaker == 7 {
        SpeakerColor::Black
    } else {
        SpeakerColor::White
    }
}

/// The color a speaker's words are shown in.
pub fn speaker_color(speaker: u8) -> (c: SpeakerColor)
    ensures
        c == color_of(speaker),
{
    match speaker {
        0 => SpeakerColor::Red,
        1 => SpeakerColor::Green,
        2 => SpeakerColor::Blue,
        3 => SpeakerColor::Yellow,
        4 => SpeakerColor::LightGray,
        5 => SpeakerColor::DarkRed,
        6 => SpeakerColor::DarkGreen,
        7 => SpeakerColor::Black,
        _ => SpeakerColor::White,
    }
}

/// `entry` holds a copy of the live word `w`.
pub open spec fn holds_live(entry: Option<LiveWord>, w: LiveWord) -> bool {
    entry matches Some(x) && x@ == w@
}

/// `entry` holds a copy of the live word `w` as a final word.
pub open spec fn holds_final_live(entry: Option<Word>, w: LiveWord) -> bool {
    entry matches Some(Word::Live(x)) && x@ == w@
}

/// The final words made of prerecorded words, in order.
pub open spec fn prerecorded_entries(words: Seq<PrerecordedWord>) -> Seq<Option<Word>> {
    words.map_values(|w: PrerecordedWord| Some(Word::Prerecorded(w)))
}

/// A recording's words become final words one for one, in order: entry `j`
/// holds word `j`.
pub proof fn lemma_prerecorded_entries(words: Seq<PrerecordedWord>)
    ensures
        prerecorded_entries(words).len() == words.len(),
        forall|j: int|
            0 <= j < words.len() ==> #[trigger] prerecorded_entries(words)[j] == Some(
                Word::Prerecorded(words[j]),
            ),
{
}

/// The words received so far: every live result as it arrives, and the
/// final transcript. In both, `None` ends a line.
pub struct Transcript {
    pub live: Vec<Option<LiveWord>>,
    pub final_words: Vec<Option<Word>>,
}

impl Transcript {
    /// No words yet.
    pub fn new() -> (t: Transcript)
        ensures
            t.live@.len() == 0,
            t.final_words@.len() == 0,
    {
        Transcript { live: Vec::new(), final_words: Vec::new() }
    }

    /// Takes in one result of live transcription: its words and a line end
    /// are appended to the live transcript, and, when the result is final,
    /// to the final transcript too.
    pub fn apply_live_result(&mut self, words: &[LiveWord], is_final: bool)
        ensures
            final(self).live@.len() == old(self).live@.len() + words@.len() + 1,
            final(self).live@.subrange(0, old(self).live@.len() as int) == old(self).live@,
            forall|j: int|
                0 <= j < words@.len() ==> holds_live(
                    #[trigger] final(self).live@[old(self).live@.len() + j],
                    words@[j],
                ),
            final(self).live@.last() is None,
            is_final ==> final(self).final_words@.len() == old(self).final_words@.len()
                + words@.len() + 1,
            is_final ==> final(self).final_words@.subrange(0, old(self).final_words@.len() as int)
                == old(self).final_words@,
            is_final ==> forall|j: int|
                0 <= j < words@.len() ==> holds_final_live(
                    #[trigger] final(self).final_words@[old(self).final_words@.len() + j],
                    words@[j],
                ),
            is_final ==> final(self).final_words@.last() is None,
            !is_final ==> final(self).final_words@ == old(self).final_words@,
    {
        let ghost live0 = self.live@;
        let ghost final0 = self.final_words@;
        let n = words.len();
        let mut i: usize = 0;
        while i < n
            invariant
                n == words@.len(),
                0 <= i <= n,
                self.live@.len() == live0.len() + i,
                self.live@.subrange(0, live0.len() as int) == live0,
                forall|j: int| 0 <= j < i ==> holds_live(#[trigger] self.live@[live0.len() + j], words@[j]),
                self.final_words@ == final0,
            decreases n - i,
        {
            self.live.push(Some(words[i].duplicate()));
            assert(self.live@.subrange(0, live0.len() as int) =~= live0);
            i = i + 1;
        }
        self.live.push(None);
        assert(self.live@.subrange(0, live0.len() as int) =~= live0);
        let ghost live1 = self.live@;
        if is_final {
            let mut k: usize = 0;
            while k < n
                invariant
                    n == words@.len(),
                    0 <= k <= n,
                    self.final_words@.len() == final0.len() + k,
                    self.final_words@.subrange(0, final0.len() as int) == final0,
                    self.live@ == live1,
                    forall|j: int|
                        0 <= j < k ==> holds_final_live(
                            #[trigger] self.final_words@[final0.len() + j],
                            words@[j],
                        ),
                decreases n - k,
            {
                self.final_words.push(Some(Word::Live(words[k].duplicate())));
                assert(self.final_words@.subrange(0, final0.len() as int) =~= final0);
                k = k + 1;
            }
            self.final_words.push(None);
            assert(self.final_words@.subrange(0, final0.len() as int) =~= final0);
        }
    }

    /// Appends the words of a transcribed recording to the final transcript.
    pub fn extend_final(&mut self, words: Vec<PrerecordedWord>)
        ensures
            final(self).final_words@ == old(self).final_words@ + prerecorded_entries(words@),
            final(self).final_words@.len() == old(self).final_words@.len() + words@.len(),
            forall|i: int|
                0 <= i < old(self).final_words@.len() ==> #[trigger] final(self).final_words@[i]
                    == old(self).final_words@[i],
            forall|j: int|
                0 <= j < words@.len() ==> #[trigger] final(self).final_words@[old(self).final_words@.len()
                    + j] == Some(Word::Prerecorded(words@[j])),
            final(self).live@ == old(self).live@,
    {
        proof {
            lemma_prerecorded_entries(words@);
        }
        let ghost base = self.final_words@;
        let ghost ws = words@;
        for w in it: words.into_iter()
            invariant
                it.seq() == ws,
                self.final_words@ == base + prerecorded_entries(ws.take(it.index() as int)),
                self.live@ == old(self).live@,
        {
            let ghost before = self.final_words@;
            self.final_words.push(Some(Word::Prerecorded(w)));
            assert(prerecorded_entries(ws.take(it.index() + 1)) =~= prerecorded_entries(
                ws.take(it.index() as int),
            ).push(Some(Word::Prerecorded(w))));
        }
        assert(ws.take(ws.len() as int) =~= ws);
    }

    /// Replaces the final transcript by the words of a transcribed recording.
    pub fn replace_final(&mut self, words: Vec<PrerecordedWord>)
        ensures
            final(self).final_words@ == prerecorded_entries(words@),
            final(self).final_words@.len() == words@.len(),
            forall|j: int|
                0 <= j < words@.len() ==> #[trigger] final(self).final_words@[j] == Some(
                    Word::Prerecorded(words@[j]),
                ),
            final(self).live@ == old(self).live@,
    {
        proof {
            lemma_prerecorded_entries(words@);
        }
        self.final_words.clear();
        self.extend_final(words);
        assert(Seq::<Option<Word>>::empty() + prerecorded_entries(words@) =~= prerecorded_entries(
            words@,
        ));
    }
}

} // verus!
