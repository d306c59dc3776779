use call_recorder::transcription::live::{
    can_move, chunk_text, has_enough_audio, overlap_samples, LiveCall, LiveChannel, Turn, Window,
};
use call_recorder::transcription::model::{model_path, DownloadCount, MODEL_FILENAME, MODEL_URL};
use call_recorder::transcription::openai::{
    answer_of_response, chunk_segments, chunk_spans, speaker_error, times_in_range, upload_name, upload_name_in,
    Transcription, CHUNK_SAMPLES,
};
use call_recorder::transcription::whisper::{
    can_shift, format_transcript, label_segments, merge_segments, RawSegment, TimedSegment,
};

fn segment(start_ms: i64, end_ms: i64, text: &str, speaker: &str) -> TimedSegment {
    TimedSegment { start_ms, end_ms, text: text.to_string(), speaker: speaker.to_string() }
}

fn raw(start_ms: i64, end_ms: i64, text: &str) -> RawSegment {
    RawSegment { start_ms, end_ms, text: text.to_string() }
}

fn shape(segments: &[TimedSegment]) -> Vec<(i64, i64, &str, &str)> {
    segments
        .iter()
        .map(|s| (s.start_ms, s.end_ms, s.text.as_str(), s.speaker.as_str()))
        .collect()
}

#[test]
fn stretches_without_text_are_dropped() {
    let segments = label_segments(&vec![raw(0, 5, " a "), raw(5, 6, "  "), raw(6, 9, "b")], 100, "S");
    assert_eq!(shape(&segments), vec![(100, 105, "a", "S"), (106, 109, "b", "S")]);
}

#[test]
fn segments_are_merged_by_start_and_keep_their_order() {
    let mic = vec![segment(5, 6, "m1", "M"), segment(1, 2, "m2", "M"), segment(5, 9, "m3", "M")];
    let sys = vec![segment(1, 3, "s1", "S"), segment(5, 7, "s2", "S"), segment(0, 1, "s3", "S")];
    let merged = merge_segments(mic, sys);
    let order: Vec<&str> = merged.iter().map(|s| s.text.as_str()).collect();
    assert_eq!(order, vec!["s3", "m2", "s1", "m1", "m3", "s2"]);
}

#[test]
fn transcript_names_the_speaker_where_it_changes() {
    let segments = vec![
        segment(0, 1, "Hej", "Sælger"),
        segment(1, 2, "med dig", "Sælger"),
        segment(2, 3, "Goddag", "Lead"),
    ];
    assert_eq!(format_transcript(&segments), "Sælger:\nHej med dig \nLead:\nGoddag");
    assert_eq!(format_transcript(&[]), "");
    assert_eq!(format_transcript(&[segment(0, 1, "a", "")]), "a");
}

#[test]
fn live_window_reaches_back_by_the_overlap() {
    assert_eq!(overlap_samples(48000), 144000);
    let mut channel = LiveChannel::new();
    let window = channel.window(10, 3);
    assert_eq!((window.start, window.end, window.new_cursor, window.offset), (0, 10, 10, 0));
    channel.advance(window);
    let window = channel.window(15, 3);
    assert_eq!((window.start, window.end, window.new_cursor, window.offset), (7, 15, 15, 7));
    let window = channel.window(5, 3);
    assert_eq!((window.start, window.end, window.new_cursor, window.offset), (5, 5, 10, 10));
}

#[test]
fn live_turn_needs_twenty_seconds_of_new_audio() {
    assert!(!has_enough_audio(320000));
    assert!(!has_enough_audio(367999));
    assert!(has_enough_audio(368000));
    assert!(!has_enough_audio(0));
}

#[test]
fn live_segments_are_handed_out_once() {
    let mut channel = LiveChannel::new();
    let first = channel.accept(&vec![segment(0, 900, "a", "S"), segment(900, 2000, "b", "S")], 0);
    assert_eq!(shape(&first), vec![(0, 900, "a", "S"), (900, 2000, "b", "S")]);
    assert_eq!(channel.last_end_ms, 2000);
    let second = channel.accept(&vec![segment(0, 900, "b", "S"), segment(1000, 1500, "c", "S")], 1000);
    assert_eq!(shape(&second), vec![(2000, 2500, "c", "S")]);
    assert_eq!(channel.last_end_ms, 2500);
    let third = channel.accept(&vec![segment(0, 100, "x", "S")], 0);
    assert!(third.is_empty());
    assert_eq!(channel.last_end_ms, 2500);
    channel.advance(Window { start: 0, end: 4, new_cursor: 4, offset: 0 });
    assert_eq!((channel.cursor, channel.last_end_ms), (4, 2500));
}

#[test]
fn live_chunk_has_text_where_there_are_segments() {
    assert_eq!(chunk_text(vec![], vec![]), None);
    assert_eq!(
        chunk_text(vec![segment(2, 3, "b", "M")], vec![segment(1, 2, "a", "S")]).as_deref(),
        Some("S:\na \nM:\nb")
    );
}

#[test]
fn live_turn_covers_both_channels() {
    let turn = |end: usize, offset_ms: i64, segments: Vec<TimedSegment>| Turn {
        window: Window { start: 0, end, new_cursor: end, offset: 0 },
        offset_ms,
        segments,
    };
    let mut call = LiveCall::new();
    let text = call.finish_turn(
        turn(10, 0, vec![segment(500, 900, "b", "M")]),
        turn(12, 0, vec![segment(100, 400, "a", "S")]),
    );
    assert_eq!(text.as_deref(), Some("S:\na \nM:\nb"));
    assert_eq!((call.mic.cursor, call.mic.last_end_ms), (10, 900));
    assert_eq!((call.sys.cursor, call.sys.last_end_ms), (12, 400));
    let text = call.finish_turn(turn(20, 100, vec![segment(500, 900, "b", "M")]), turn(20, 0, vec![]));
    assert_eq!(text, None);
    assert_eq!((call.mic.cursor, call.mic.last_end_ms), (20, 900));
}

#[test]
fn times_stay_in_range() {
    assert!(can_move(&vec![segment(0, 1, "a", "S")], i64::MAX - 1));
    assert!(!can_move(&vec![segment(0, 1, "a", "S")], i64::MAX));
    assert!(can_shift(&vec![raw(0, 1, " ")], i64::MAX));
    assert!(!can_shift(&vec![raw(0, 1, "a")], i64::MAX));
    let mut answer = Transcription { text: "a".to_string(), duration_ms: Some(1), segments: None };
    assert!(!times_in_range(&answer, 0, i64::MAX));
    assert!(times_in_range(&answer, 0, 5));
    answer.duration_ms = None;
    assert!(times_in_range(&answer, 16, i64::MAX - 1));
    assert!(!times_in_range(&answer, 16, i64::MAX));
    answer.segments = Some(vec![raw(0, 1, "a")]);
    assert!(!times_in_range(&answer, 0, i64::MAX));
    answer.segments = None;
    answer.text = " ".to_string();
    assert!(times_in_range(&answer, 16, i64::MAX));
}

#[test]
fn uploads_cover_the_audio() {
    assert!(chunk_spans(0).is_empty());
    let spans = chunk_spans(CHUNK_SAMPLES * 2 + 5);
    let shape: Vec<(usize, usize, i64)> =
        spans.iter().map(|s| (s.start, s.end, s.offset_ms)).collect();
    assert_eq!(
        shape,
        vec![
            (0, 9600000, 0),
            (9600000, 19200000, 600000),
            (19200000, 19200005, 1200000)
        ]
    );
    assert_eq!(chunk_spans(CHUNK_SAMPLES).len(), 1);
}

#[test]
fn upload_is_named_after_the_speaker() {
    assert_eq!(upload_name("SÆLGER"), "sælger.wav");
    assert_eq!(upload_name("ΟΔΟΣ"), "οδος.wav");
    assert_eq!(upload_name_in("lead"), "lead.wav");
}

#[test]
fn answer_of_the_service_becomes_segments() {
    let answer = Transcription {
        text: "ignoreret".to_string(),
        duration_ms: Some(7),
        segments: Some(vec![raw(1, 2, " a "), raw(2, 3, "")]),
    };
    assert_eq!(shape(&chunk_segments(&answer, 16, "S", 10)), vec![(11, 12, "a", "S")]);
    let answer = Transcription { text: " hele ".to_string(), duration_ms: Some(7), segments: None };
    assert_eq!(shape(&chunk_segments(&answer, 16, "S", 10)), vec![(10, 17, "hele", "S")]);
    let answer =
        Transcription { text: "hele".to_string(), duration_ms: None, segments: Some(vec![]) };
    assert_eq!(shape(&chunk_segments(&answer, 32000, "S", 10)), vec![(10, 2010, "hele", "S")]);
    let answer = Transcription { text: "  ".to_string(), duration_ms: None, segments: None };
    assert!(chunk_segments(&answer, 16, "S", 10).is_empty());
}

#[test]
fn service_errors_have_messages() {
    let answer = || Transcription { text: "a".to_string(), duration_ms: None, segments: None };
    assert_eq!(
        answer_of_response(false, "401 Unauthorized", "nej", Some(answer())).err().as_deref(),
        Some("OpenAI transcription API fejl 401 Unauthorized: nej")
    );
    assert_eq!(
        answer_of_response(true, "200 OK", "nej", None).err().as_deref(),
        Some("Kunne ikke parse OpenAI transcription svar")
    );
    assert_eq!(answer_of_response(true, "200 OK", "", Some(answer())).ok().unwrap().text, "a");
    assert_eq!(speaker_error("Lead"), "OpenAI-transskription fejlede for Lead");
}

#[test]
fn model_is_kept_in_its_directory() {
    assert_eq!(MODEL_FILENAME, "ggml-large-v3-turbo.bin");
    assert!(MODEL_URL.ends_with(MODEL_FILENAME));
    let path = model_path("models");
    assert!(path.starts_with("models"));
    assert_eq!(path.len(), "models".len() + 1 + MODEL_FILENAME.len());
    assert!(path.ends_with(MODEL_FILENAME));
    assert_eq!(model_path("models/"), "models/ggml-large-v3-turbo.bin");
}

#[test]
fn download_is_counted() {
    let mut count = DownloadCount::new(Some(10));
    count.add_chunk(4);
    count.add_chunk(3);
    assert_eq!((count.downloaded, count.total), (7, Some(10)));
}
