use grace::app_state::{decimal_string, App, ChatRole, SaveKind, Setting, WheelWindow, MIN_SPEAKER_NAMES};
use grace::session::Session;
use grace::transcript::{LiveWord, Word};

#[test]
fn numbers_in_decimal() {
    assert_eq!(decimal_string(0), "0");
    assert_eq!(decimal_string(7), "7");
    assert_eq!(decimal_string(10), "10");
    assert_eq!(decimal_string(1234), "1234");
    assert_eq!(decimal_string(usize::MAX), usize::MAX.to_string());
}

#[test]
fn a_new_app_computes_its_sessions() {
    let app = App::new(&[1000, 2000, 9000, 9500]);
    assert_eq!(app.sessions, vec![Session { start_ms: 1000, end_ms: 2000 }, Session { start_ms: 9000, end_ms: 9000 }]);
    assert!(!app.is_recording);
    assert!(app.speaker_names.is_empty());
    assert_eq!(app.line_selected, 0);
    assert!(app.url.is_empty() && app.system_text.is_empty() && app.prompt_text.is_empty());
}

#[test]
fn speaker_names_are_padded_with_numbers() {
    let mut app = App::new(&[]);
    app.pad_speaker_names();
    assert_eq!(app.speaker_names.len(), MIN_SPEAKER_NAMES);
    assert_eq!(app.speaker_names[0], "0");
    assert_eq!(app.speaker_names[19], "19");

    let mut app = App::new(&[]);
    app.speaker_names = vec!["Ann".to_string(), "Bob".to_string()];
    app.pad_speaker_names();
    assert_eq!(app.speaker_names.len(), 20);
    assert_eq!(app.speaker_names[0], "Ann");
    assert_eq!(app.speaker_names[1], "Bob");
    assert_eq!(app.speaker_names[2], "2");

    let mut app = App::new(&[]);
    app.speaker_names = (0..25).map(|i| format!("s{}", i)).collect();
    app.pad_speaker_names();
    assert_eq!(app.speaker_names.len(), 25);
    assert_eq!(app.speaker_names[24], "s24");
}

#[test]
fn recording_opens_a_session() {
    let mut app = App::new(&[1000]);
    app.prompt_text = "keep".to_string();
    assert!(app.start_recording(50_000));
    assert!(app.is_recording);
    assert_eq!(app.sessions.last(), Some(&Session { start_ms: 50_000, end_ms: i64::MAX }));
    assert_eq!(app.sessions.len(), 2);
    assert_eq!(app.prompt_text, "keep");
    assert!(!app.start_recording(60_000));
    assert_eq!(app.sessions.len(), 2);
}

#[test]
fn a_frame_pads_names_and_starts_recording_once() {
    let mut app = App::new(&[1000, 2000]);
    app.url = "u".to_string();
    assert!(!app.on_frame(false, 10));
    assert_eq!(app.speaker_names.len(), MIN_SPEAKER_NAMES);
    assert!(!app.is_recording);
    assert_eq!(app.sessions.len(), 1);
    assert!(app.on_frame(true, 20));
    assert!(app.is_recording);
    assert_eq!(app.sessions.len(), 2);
    assert_eq!(app.sessions[1], Session { start_ms: 20, end_ms: i64::MAX });
    assert!(!app.on_frame(true, 30));
    assert_eq!(app.sessions.len(), 2);
    assert_eq!(app.speaker_names.len(), MIN_SPEAKER_NAMES);
    assert_eq!(app.url, "u");
}

#[test]
fn the_transcript_uses_the_speaker_names() {
    let mut app = App::new(&[]);
    app.pad_speaker_names();
    app.speaker_names[1] = "Bob".to_string();
    let words = vec![
        Some(Word::Live(LiveWord { speaker: 1, word: "hi".to_string() })),
        Some(Word::Live(LiveWord { speaker: 2, word: "yo".to_string() })),
        None,
    ];
    assert_eq!(app.get_transcript(&words), "\n[Bob]: hi \n[2]: yo \n");
}

#[test]
fn chat_requests_put_the_transcript_between_instructions_and_question() {
    let mut w = WheelWindow::new();
    w.system = "be brief".to_string();
    w.prompt = "summarize".to_string();
    let m = w.chat_messages("the transcript".to_string());
    assert_eq!(m.len(), 3);
    assert_eq!((m[0].role, m[0].content.as_str()), (ChatRole::System, "be brief"));
    assert_eq!((m[1].role, m[1].content.as_str()), (ChatRole::User, "the transcript"));
    assert_eq!((m[2].role, m[2].content.as_str()), (ChatRole::User, "summarize"));
}

#[test]
fn answers_are_streamed_into_the_window() {
    let mut w = WheelWindow::new();
    w.push_delta(Some("Hel"));
    w.push_delta(None);
    w.push_delta(Some("lo"));
    assert_eq!(w.completion, "Hello");
    w.clear_completion();
    assert_eq!(w.completion, "");
}

#[test]
fn settings_are_found_or_made() {
    let stored = Setting { rowid: Some(4), key: "openai_key".to_string(), value: "v".to_string() };
    let s = Setting::get("openai_key", Some(stored));
    assert_eq!((s.rowid, s.key.as_str(), s.value.as_str()), (Some(4), "openai_key", "v"));
    assert_eq!(s.save_kind(), SaveKind::Update);
    let s = Setting::get("other", None);
    assert_eq!((s.rowid, s.key.as_str(), s.value.as_str()), (None, "other", ""));
    assert_eq!(s.save_kind(), SaveKind::Insert);
}
