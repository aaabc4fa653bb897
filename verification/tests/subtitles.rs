use wonder_of_u::library::segments::RecordingSegment;
use wonder_of_u::subtitles::{format_srt_timestamp, segments_to_srt};

fn segment(start_ms: u64, end_ms: u64, text: &str) -> RecordingSegment {
    RecordingSegment {
        text: text.to_string(),
        start_ms,
        end_ms,
    }
}

#[test]
fn timestamps_use_the_srt_comma_form() {
    assert_eq!(format_srt_timestamp(0), "00:00:00,000");
    assert_eq!(format_srt_timestamp(1_920), "00:00:01,920");
    assert_eq!(format_srt_timestamp(31_410), "00:00:31,410");
    assert_eq!(format_srt_timestamp(1_419_970), "00:23:39,970");
    assert_eq!(format_srt_timestamp(3_661_001), "01:01:01,001");
    assert_eq!(format_srt_timestamp(360_000_000), "100:00:00,000");
}

#[test]
fn a_transcript_becomes_a_well_formed_srt() {
    let srt = segments_to_srt(&[
        segment(1_920, 4_830, "生まれ変わる今"),
        segment(30_060, 31_410, "大丈夫ですか"),
    ]);
    assert_eq!(
        srt,
        "1\n00:00:01,920 --> 00:00:04,830\n生まれ変わる今\n\n\
         2\n00:00:30,060 --> 00:00:31,410\n大丈夫ですか\n\n"
    );
}

#[test]
fn a_cue_that_would_be_dropped_by_the_reader_is_given_a_readable_length() {
    let srt = segments_to_srt(&[segment(5_000, 5_000, "はい")]);
    assert!(srt.contains("00:00:05,000 --> 00:00:05,400"), "{srt}");
}

#[test]
fn interior_blank_lines_cannot_split_a_cue() {
    let srt = segments_to_srt(&[
        segment(0, 1_000, "first\n\n  \nsecond"),
        segment(2_000, 3_000, "next"),
    ]);
    assert_eq!(
        srt,
        "1\n00:00:00,000 --> 00:00:01,000\nfirst\nsecond\n\n\
         2\n00:00:02,000 --> 00:00:03,000\nnext\n\n"
    );
}

#[test]
fn empty_text_is_skipped_and_indices_stay_contiguous() {
    let srt = segments_to_srt(&[
        segment(0, 1_000, "one"),
        segment(2_000, 3_000, "   "),
        segment(4_000, 5_000, "two"),
    ]);
    assert!(srt.starts_with("1\n"), "{srt}");
    assert!(srt.contains("\n2\n00:00:04,000"), "no gap in the numbering: {srt}");
    assert_eq!(srt.matches(" --> ").count(), 2);
}

#[test]
fn no_segments_is_an_empty_file_rather_than_a_malformed_one() {
    assert_eq!(segments_to_srt(&[]), "");
}
