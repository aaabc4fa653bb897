use wonder_of_u::library::transcripts::RecordingTranscript;
use wonder_of_u::progress::health::{advance, WriteFailure};
use wonder_of_u::progress::library::{summarise, LibraryItem};
use wonder_of_u::progress::liveness::{
    is_live, pack_mark, should_flush, FLUSH_AT_MS, MAX_CHUNK_MS, PLAYING,
};

fn failed(reason: &str) -> Result<(), String> {
    Err(reason.to_string())
}

#[test]
fn a_write_that_landed_is_always_announced() {
    let mut failure = None;
    assert!(advance(&mut failure, &Ok(()), 1));
    assert!(advance(&mut failure, &Ok(()), 2), "every landed write refreshes the page");
    assert_eq!(failure, None);
}

#[test]
fn the_first_failure_is_announced_and_remembered() {
    let mut failure = None;
    assert!(advance(&mut failure, &failed("Access is denied."), 10));
    assert_eq!(
        failure,
        Some(WriteFailure {
            since_ms: 10,
            reason: "Access is denied.".to_string(),
        })
    );
}

#[test]
fn a_later_failure_neither_announces_nor_moves_the_start() {
    let mut failure = None;
    advance(&mut failure, &failed("Access is denied."), 10);
    assert!(!advance(&mut failure, &failed("The disk is full."), 40));
    assert_eq!(failure.as_ref().map(|failure| failure.since_ms), Some(10));
    assert_eq!(
        failure.map(|failure| failure.reason),
        Some("Access is denied.".to_string())
    );
}

#[test]
fn a_landed_write_takes_the_notice_down() {
    let mut failure = None;
    advance(&mut failure, &failed("Access is denied."), 10);
    assert!(advance(&mut failure, &Ok(()), 70));
    assert_eq!(failure, None);
}

#[test]
fn a_surface_nobody_marked_is_not_live() {
    assert!(!is_live(0, 10_000));
}

#[test]
fn a_surface_marked_not_playing_is_not_live() {
    assert!(!is_live(5_000, 5_000), "a fresh stamp is not enough");
}

#[test]
fn a_surface_playing_now_is_live() {
    assert!(is_live(PLAYING | 5_000, 5_100));
}

#[test]
fn a_mark_older_than_the_cap_is_not_live() {
    assert!(is_live(PLAYING | 1_000, 1_000 + MAX_CHUNK_MS));
    assert!(!is_live(PLAYING | 1_000, 1_000 + MAX_CHUNK_MS + 1));
}

#[test]
fn the_player_is_live_only_while_it_says_it_is_playing() {
    let now = 42_000;
    assert!(is_live(pack_mark(now, true), now));
    assert!(!is_live(pack_mark(now, false), now));
    assert_eq!(pack_mark(now, true), PLAYING | now);
}

#[test]
fn a_settle_is_written_without_waiting_for_the_flush_mark() {
    assert!(should_flush(200, false, false), "a settle writes at once");
    assert!(!should_flush(200, true, false), "a heartbeat waits");
    assert!(should_flush(FLUSH_AT_MS, true, false), "until the mark");
    assert!(!should_flush(200, false, true), "nothing to write");
}

fn recording(duration_ms: u64, source: Option<&str>, transcripts: Vec<RecordingTranscript>, translated: bool) -> LibraryItem {
    LibraryItem {
        duration_ms,
        source: source.map(str::to_string),
        transcripts,
        translation_path: translated.then(|| "C:/a.txt".to_string()),
    }
}

fn ja() -> RecordingTranscript {
    RecordingTranscript {
        language: "ja".to_string(),
        file_path: "C:/a.ja.txt".to_string(),
        detected_language: Some("ja".to_string()),
        segments_path: None,
    }
}

#[test]
fn an_item_with_no_origin_is_counted_as_unknown_and_not_as_recorded() {
    let recordings = vec![
        recording(1000, Some("recording"), vec![], false),
        recording(1000, Some("youtube"), vec![], false),
        recording(1000, Some("import"), vec![], false),
        recording(1000, None, vec![], false),
        recording(1000, Some("something-new"), vec![], false),
    ];
    let library = summarise(&recordings);
    assert_eq!(library.recorded, 1);
    assert_eq!(library.imported_from_a_link, 1);
    assert_eq!(library.imported_from_a_file, 1);
    assert_eq!(library.unknown_origin, 2);
    assert_eq!(
        library.recorded + library.imported_from_a_link + library.imported_from_a_file
            + library.unknown_origin,
        library.items
    );
}

#[test]
fn a_total_says_how_many_items_it_could_not_measure() {
    let recordings = vec![
        recording(60_000, Some("recording"), vec![], false),
        recording(0, Some("recording"), vec![], false),
    ];
    let library = summarise(&recordings);
    assert_eq!(library.total_ms, 60_000);
    assert_eq!(library.items_without_length, 1);
}

#[test]
fn transcribed_japanese_and_translated_are_counted_per_item() {
    let auto = RecordingTranscript {
        language: " AUTO ".to_string(),
        file_path: "C:/b.txt".to_string(),
        detected_language: Some("Ja".to_string()),
        segments_path: None,
    };
    let recordings = vec![
        recording(1000, None, vec![ja()], true),
        recording(1000, None, vec![ja(), ja()], false),
        recording(1000, None, vec![], false),
        recording(1000, None, vec![auto], false),
    ];
    let library = summarise(&recordings);
    assert_eq!(library.transcribed, 3);
    assert_eq!(library.japanese, 3, "an item is Japanese once, not once per transcript");
    assert_eq!(library.translated, 1);
}

#[test]
fn an_empty_library_reports_nothing_rather_than_guessing() {
    let library = summarise(&[]);
    assert_eq!(library.items, 0);
    assert_eq!(library.total_ms, 0);
}
