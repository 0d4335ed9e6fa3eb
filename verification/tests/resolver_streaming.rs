use spotify_web_server::errors::AudioError;
use spotify_web_server::resolver::{
    choose_alternative, container_header_len, needs_alternative, resolve_item, select_format,
    validate_track_id, AudioItemMeta, FileFormat, FileId,
};
use spotify_web_server::streamer::{
    open_failure_error, open_plan, run_schedule, OpenFailure, ReadEvent, StreamCursor,
    StreamPhase, StreamStep, CHUNK_DEADLINE_MILLIS, STREAM_BUFFER_BYTES,
};

fn item(available: bool, files: Vec<(FileFormat, FileId)>, alternatives: Option<Vec<String>>) -> AudioItemMeta {
    AudioItemMeta {
        id: String::from("primary"),
        available,
        files,
        alternatives,
    }
}

fn fid(b: u8) -> FileId {
    FileId(vec![b; 20])
}

#[test]
fn format_selection_prefers_high_over_low() {
    // Both a low and a high bitrate are present: the fixed preference
    // order always picks the high one.
    let files = vec![
        (FileFormat::OggVorbis96, fid(1)),
        (FileFormat::OggVorbis320, fid(2)),
    ];
    let (format, id) = select_format(&files).unwrap();
    assert_eq!(format, FileFormat::OggVorbis320);
    assert_eq!(id.0, vec![2; 20]);
}

#[test]
fn format_selection_takes_low_when_alone() {
    let files = vec![(FileFormat::OggVorbis96, fid(1))];
    let (format, id) = select_format(&files).unwrap();
    assert_eq!(format, FileFormat::OggVorbis96);
    assert_eq!(id.0, vec![1; 20]);
}

#[test]
fn format_selection_order_is_fixed() {
    let files = vec![
        (FileFormat::Mp396, fid(1)),
        (FileFormat::Mp3320, fid(2)),
        (FileFormat::OggVorbis160, fid(3)),
    ];
    let (format, _) = select_format(&files).unwrap();
    assert_eq!(format, FileFormat::Mp3320);
}

#[test]
fn empty_file_map_without_alternatives_is_no_playable_format() {
    let primary = item(true, vec![], None);
    let r = resolve_item(&primary, &vec![]);
    assert_eq!(r.err().unwrap(), AudioError::NoPlayableFormat);
}

#[test]
fn unavailable_without_alternatives_is_unplayable() {
    let primary = item(false, vec![(FileFormat::OggVorbis320, fid(1))], None);
    let r = resolve_item(&primary, &vec![]);
    assert_eq!(r.err().unwrap(), AudioError::Unplayable);
}

#[test]
fn failed_alternative_is_skipped_for_available_one() {
    // The primary is unavailable and declares alternatives [A, B];
    // A's fetch failed and B is available: resolution returns B's data.
    let primary = item(false, vec![], Some(vec![String::from("A"), String::from("B")]));
    let b = AudioItemMeta {
        id: String::from("B"),
        available: true,
        files: vec![(FileFormat::Mp3320, fid(9))],
        alternatives: None,
    };
    let results = vec![None, Some(b)];
    assert!(needs_alternative(&primary));
    assert_eq!(choose_alternative(&results), Some(1));
    let resolved = resolve_item(&primary, &results).unwrap();
    assert_eq!(resolved.format, FileFormat::Mp3320);
    assert_eq!(resolved.content_id.0, vec![9; 20]);
    assert_eq!(resolved.container_header_len, 0);
}

#[test]
fn no_qualifying_alternative_is_unplayable() {
    let primary = item(false, vec![], Some(vec![String::from("A")]));
    let unavailable = AudioItemMeta {
        id: String::from("A"),
        available: false,
        files: vec![(FileFormat::Mp3320, fid(9))],
        alternatives: None,
    };
    let r = resolve_item(&primary, &vec![None, Some(unavailable)]);
    assert_eq!(r.err().unwrap(), AudioError::Unplayable);
}

#[test]
fn ogg_variants_skip_the_custom_header() {
    assert_eq!(container_header_len(FileFormat::OggVorbis320), 0xa7);
    assert_eq!(container_header_len(FileFormat::OggVorbis160), 0xa7);
    assert_eq!(container_header_len(FileFormat::OggVorbis96), 0xa7);
    assert_eq!(container_header_len(FileFormat::Mp3320), 0);
    assert_eq!(container_header_len(FileFormat::Aac320), 0);
}

#[test]
fn resolved_ogg_track_opens_past_header() {
    let primary = item(true, vec![(FileFormat::OggVorbis320, fid(4))], None);
    let resolved = resolve_item(&primary, &vec![]).unwrap();
    assert_eq!(resolved.container_header_len, 0xa7);
    let plan = open_plan(&resolved);
    assert_eq!(plan.buffer_bytes, STREAM_BUFFER_BYTES);
    assert_eq!(plan.buffer_bytes, 500 * 1024);
    assert!(plan.sequential);
    assert_eq!(plan.initial_seek, 0xa7);
}

#[test]
fn open_failures_map_to_their_reason_class() {
    assert_eq!(open_failure_error(OpenFailure::KeyRequest), AudioError::KeyError);
    assert_eq!(open_failure_error(OpenFailure::ContentOpen), AudioError::ReadFailure);
    assert_eq!(open_failure_error(OpenFailure::HeaderSeek), AudioError::ReadFailure);
}

#[test]
fn track_id_validation() {
    assert!(validate_track_id("0aAbBcCdDeEfFgGhH12345").is_ok());
    assert!(validate_track_id("").is_err());
    assert!(validate_track_id("short").is_err());
    assert!(validate_track_id("0aAbBcCdDeEfFgGhH1234!").is_err());
    assert!(validate_track_id("0aAbBcCdDeEfFgGhH123456").is_err());
}

#[test]
fn stalled_reader_ends_stream_within_one_deadline() {
    // A simulated reader that never returns data within the chunk
    // deadline: the stream ends at the very first stall event and
    // delivers nothing.
    assert!(CHUNK_DEADLINE_MILLIS <= 1_000);
    let (chunks, cursor) = run_schedule(vec![ReadEvent::DeadlineExpired, ReadEvent::DeadlineExpired]);
    assert!(chunks.is_empty());
    assert_eq!(cursor.phase, StreamPhase::Ended);
    assert!(cursor.stalled);
    assert!(!cursor.failed);
}

#[test]
fn stall_truncates_stream_silently_after_partial_content() {
    let (chunks, cursor) = run_schedule(vec![
        ReadEvent::Data(vec![1, 2, 3]),
        ReadEvent::Data(vec![4]),
        ReadEvent::DeadlineExpired,
        ReadEvent::Data(vec![5, 6]),
    ]);
    // Partial content was delivered; nothing after the truncation.
    assert_eq!(chunks, vec![vec![1, 2, 3], vec![4]]);
    assert!(cursor.stalled);
    assert!(!cursor.failed);
}

#[test]
fn clean_eof_ends_stream_without_error() {
    let (chunks, cursor) = run_schedule(vec![
        ReadEvent::Data(vec![9, 9]),
        ReadEvent::Data(vec![]),
    ]);
    assert_eq!(chunks, vec![vec![9, 9]]);
    assert_eq!(cursor.phase, StreamPhase::Ended);
    assert!(!cursor.stalled);
    assert!(!cursor.failed);
}

#[test]
fn read_error_signals_one_error_frame_then_ends() {
    let mut cursor = StreamCursor::new();
    assert!(matches!(
        cursor.advance(ReadEvent::Data(vec![1])),
        StreamStep::Yield(c) if c == vec![1]
    ));
    assert!(matches!(cursor.advance(ReadEvent::Failed), StreamStep::ErrorFrame));
    assert_eq!(cursor.phase, StreamPhase::Ended);
    assert!(cursor.failed);
}
