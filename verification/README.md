# Wonder of U

Wonder of U records the audio playing on a computer, transcribes it locally with Whisper,
and turns sentences into Anki cards. This crate is its core, written in Verus: every
function in `src/` carries a contract that the verifier proves.

## Layout

- `src/` — the verified library.
  - `text.rs`, `paths.rs`, `command.rs`: characters, file paths and command lines as
    sequences, with the std operations the rest is stated in.
  - `library/`: naming recordings, importing files and links, reading what yt-dlp and
    ffmpeg report, cleaning whisper's segments, and summarising batches.
  - `media/`: whisper's output lines, the speech envelope a cue is trimmed to, and the
    arguments and failure messages of a transcription run.
  - `progress/`: study time by local day, streaks, the calendar, Anki's card counts, the
    library's own evidence, word-list readings and how they group by list, and the
    progress file's rows.
  - `subtitles.rs`, `translation.rs`, `tokenizer.rs`, `sherpa.rs`, `recording.rs`,
    `scanner.rs`, `settings.rs`, `preview.rs`, `assets.rs`, `path_probe.rs`: the rules of
    the app's smaller surfaces.
- `app/` — ordinary Rust around the library: reading and writing the progress files with
  serde, running whisper-cli, ffmpeg and ffprobe, the playback samplers, and the
  floating-point measurements (loudness, playback rates, percentages).
- `tests/` — tests run against the compiled library.

The public proof functions named `law_*` state properties that hold across calls: a
horizon never moves later, credit never exceeds the wall time that passed, every note is
counted once, cleaning keeps a subsequence of real lines with no run of four, a trim
keeps its bounds in order and widens with its pad, each envelope frame is 10 ms, a
translation file's name reads back its language, and so on.
