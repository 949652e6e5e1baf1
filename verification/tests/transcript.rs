use grace::transcript::{
    can_render, display_items, render_transcript, DisplayItem, speaker_color, LiveWord, PrerecordedWord, SpeakerColor, Transcript, Word,
};

fn live(speaker: u8, word: &str) -> LiveWord {
    LiveWord { speaker, word: word.to_string() }
}

fn pre(speaker: Option<usize>, word: &str) -> PrerecordedWord {
    PrerecordedWord { speaker, word: word.to_string() }
}

fn names(n: usize) -> Vec<String> {
    (0..n).map(|i| format!("name{}", i)).collect()
}

#[test]
fn word_speaker_and_text() {
    assert_eq!(Word::Live(live(3, "hi")).speaker(), 3);
    assert_eq!(Word::Prerecorded(pre(Some(2), "yo")).speaker(), 2);
    assert_eq!(Word::Prerecorded(pre(Some(300), "yo")).speaker(), 44);
    assert_eq!(Word::Live(live(3, "hi")).word(), "hi");
    assert_eq!(Word::Prerecorded(pre(None, "yo")).word(), "yo");
}

#[test]
fn an_empty_transcript_is_a_new_line() {
    assert_eq!(render_transcript(&[], &names(2)), "\n");
}

#[test]
fn speakers_are_labelled_when_they_change() {
    let words = vec![
        Some(Word::Live(live(0, "hello"))),
        Some(Word::Live(live(0, "there"))),
        Some(Word::Live(live(1, "hi"))),
        None,
        Some(Word::Live(live(1, "again"))),
        Some(Word::Prerecorded(pre(Some(0), "back"))),
    ];
    let names = vec!["Ann".to_string(), "Bob".to_string()];
    assert_eq!(
        render_transcript(&words, &names),
        "\n[Ann]: hello there \n[Bob]: hi \n[Bob]: again \n[Ann]: back \n"
    );
}

#[test]
fn speaker_one_hundred_gets_no_label_at_a_line_start() {
    let words = vec![Some(Word::Live(live(100, "quiet"))), Some(Word::Live(live(0, "loud")))];
    assert_eq!(render_transcript(&words, &names(1)), "quiet \n[name0]: loud \n");
}

#[test]
fn colors_of_speakers() {
    assert_eq!(speaker_color(0), SpeakerColor::Red);
    assert_eq!(speaker_color(1), SpeakerColor::Green);
    assert_eq!(speaker_color(2), SpeakerColor::Blue);
    assert_eq!(speaker_color(3), SpeakerColor::Yellow);
    assert_eq!(speaker_color(4), SpeakerColor::LightGray);
    assert_eq!(speaker_color(5), SpeakerColor::DarkRed);
    assert_eq!(speaker_color(6), SpeakerColor::DarkGreen);
    assert_eq!(speaker_color(7), SpeakerColor::Black);
    assert_eq!(speaker_color(8), SpeakerColor::White);
    assert_eq!(speaker_color(255), SpeakerColor::White);
}

#[test]
fn interim_live_results_only_reach_the_live_transcript() {
    let mut t = Transcript::new();
    t.apply_live_result(&[live(0, "a"), live(1, "b")], false);
    assert_eq!(t.live.len(), 3);
    assert_eq!(t.live[0].as_ref().map(|w| (w.speaker, w.word.as_str())), Some((0, "a")));
    assert_eq!(t.live[1].as_ref().map(|w| (w.speaker, w.word.as_str())), Some((1, "b")));
    assert!(t.live[2].is_none());
    assert!(t.final_words.is_empty());
}

#[test]
fn final_live_results_reach_both_transcripts() {
    let mut t = Transcript::new();
    t.apply_live_result(&[live(0, "a")], false);
    t.apply_live_result(&[live(2, "c")], true);
    assert_eq!(t.live.len(), 4);
    assert_eq!(t.final_words.len(), 2);
    match &t.final_words[0] {
        Some(Word::Live(w)) => assert_eq!((w.speaker, w.word.as_str()), (2, "c")),
        _ => panic!("expected a live word"),
    }
    assert!(t.final_words[1].is_none());
}

#[test]
fn recordings_extend_or_replace_the_final_transcript() {
    let mut t = Transcript::new();
    t.apply_live_result(&[live(0, "a")], true);
    t.extend_final(vec![pre(Some(1), "x"), pre(Some(0), "y")]);
    assert_eq!(t.final_words.len(), 4);
    assert_eq!(render_transcript(&t.final_words, &names(2)), "\n[name0]: a \n[name1]: x \n[name0]: y \n");
    t.replace_final(vec![pre(Some(1), "z")]);
    assert_eq!(t.final_words.len(), 1);
    assert_eq!(t.live.len(), 2);
    assert_eq!(render_transcript(&t.final_words, &names(2)), "\n[name1]: z \n");
}

#[test]
fn renderable_transcripts_name_every_labelled_speaker() {
    let words = vec![
        Some(Word::Live(live(0, "a"))),
        Some(Word::Live(live(1, "b"))),
    ];
    assert!(can_render(&words, &names(2)));
    assert!(!can_render(&words, &names(1)));
    assert!(can_render(&[Some(Word::Live(live(100, "q")))], &names(0)));
    assert!(!can_render(&[Some(Word::Prerecorded(pre(None, "q")))], &names(5)));
    assert!(can_render(&[None, None], &names(0)));
}

fn shown(items: &[DisplayItem]) -> Vec<String> {
    items
        .iter()
        .map(|item| match item {
            DisplayItem::LineStart => "|".to_string(),
            DisplayItem::SpeakerLabel(t) => format!("L{}", t),
            DisplayItem::Word(t) => format!("W{}", t),
        })
        .collect()
}

#[test]
fn the_screen_shows_lines_labels_and_words() {
    let words = vec![
        Some(Word::Live(live(0, "hello"))),
        Some(Word::Live(live(0, "there"))),
        Some(Word::Live(live(1, "hi"))),
        None,
        Some(Word::Live(live(1, "again"))),
    ];
    let names = vec!["Ann".to_string(), "Bob".to_string()];
    assert_eq!(
        shown(&display_items(&words, &names)),
        vec!["|", "L[Ann]: ", "Whello", "Wthere", "L[Bob]: ", "Whi", "|", "L[Bob]: ", "Wagain"]
    );
    assert_eq!(shown(&display_items(&[], &names)), vec!["|"]);
}

#[test]
fn the_screen_and_the_text_agree() {
    let words = vec![
        Some(Word::Prerecorded(pre(Some(1), "x"))),
        None,
        None,
        Some(Word::Live(live(100, "q"))),
        Some(Word::Live(live(0, "r"))),
    ];
    let names = names(2);
    let mut text = String::new();
    for item in display_items(&words, &names) {
        match item {
            DisplayItem::LineStart => {}
            DisplayItem::SpeakerLabel(t) => {
                text.push('\n');
                text.push_str(&t);
            }
            DisplayItem::Word(t) => {
                text.push_str(&t);
                text.push(' ');
            }
        }
    }
    text.push('\n');
    assert_eq!(text, render_transcript(&words, &names));
}
