# grace

The verified core of grace, a desktop recorder that transcribes
conversations live and hands the transcript to a chat model.

- `src/` — the library, verified with Verus:
  - `session` — grouping stored recording times into sessions, a session's
    duration and audio;
  - `audio` — decoding stored 16-bit samples for a WAV file, encoding
    captured samples, buffering the captured stream for storage;
  - `transcript` — live and final words, rendering a transcript as text and
    for the screen, speaker colors;
  - `app_state` — the application state: sessions, speaker names, chat
    windows, settings;
  - `resource` — classifying fetched web resources;
  - `update` — the decisions of the self-update check.
- `app/` — the desktop program around it: window, microphone, database,
  transcription service, chat service and downloads.
- `tests/` — tests of the library.
