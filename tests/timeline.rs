use quran_shorts::subtitle::{make_subtitle_file, TIMELINE_HEADER};
use quran_shorts::timeline::{
    get_full_audio_and_text, playlist_line, verse_path, SubtitleData, Timeline, TimelineError,
    VerseRange,
};

fn range(start: u16, end: u16) -> VerseRange {
    VerseRange { surah: "1".to_string(), start, end }
}

fn strings(items: &[&str]) -> Vec<String> {
    items.iter().map(|s| s.to_string()).collect()
}

fn build(r: &VerseRange, durations: &[&str], texts: &[&str]) -> Result<Timeline, TimelineError> {
    get_full_audio_and_text(r, "resources/audios", "arabic", &strings(durations), &strings(texts))
}

#[test]
fn verse_paths_are_zero_padded() {
    assert_eq!(verse_path("resources/audios", "arabic", "1", 7), "resources/audios/arabic/001007.mp3");
    assert_eq!(verse_path("a", "urdu", "114", 1234), "a/urdu/1141234.mp3");
    assert_eq!(verse_path("a", "english", "2345", 12), "a/english/2345012.mp3");
}

#[test]
fn playlist_lines_are_quoted() {
    assert_eq!(playlist_line("a/b.mp3"), "file 'a/b.mp3'\n");
}

#[test]
fn one_cue_and_one_line_per_verse() {
    let tl = build(&range(2, 4), &["1.5", "2.25", "3"], &["a", "b", "c"]).unwrap();
    assert_eq!(tl.cues.len(), 3);
    assert_eq!(tl.playlist, strings(&[
        "file 'resources/audios/arabic/001002.mp3'\n",
        "file 'resources/audios/arabic/001003.mp3'\n",
        "file 'resources/audios/arabic/001004.mp3'\n",
    ]));
    let texts: Vec<&str> = tl.cues.iter().map(|c| c.text.as_str()).collect();
    assert_eq!(texts, vec!["a", "b", "c"]);
    let starts: Vec<&str> = tl.cues.iter().map(|c| c.start_time.as_str()).collect();
    assert_eq!(starts, vec!["00:00:00.00", "00:00:01.50", "00:00:03.75"]);
}

#[test]
fn cue_end_is_the_clip_own_duration() {
    let tl = build(&range(1, 2), &["3.456", "2.789"], &["", ""]).unwrap();
    assert_eq!(tl.cues[0].start_time, "00:00:00.00");
    assert_eq!(tl.cues[0].end_time, "00:00:03.45");
    assert_eq!(tl.cues[1].start_time, "00:00:03.45");
    assert_eq!(tl.cues[1].end_time, "00:00:02.78");
}

#[test]
fn start_carries_across_minutes() {
    let tl = build(&range(1, 3), &["59.9", "0.2", "1"], &["", "", ""]).unwrap();
    assert_eq!(tl.cues[1].start_time, "00:00:59.90");
    assert_eq!(tl.cues[2].start_time, "00:01:00.10");
}

#[test]
fn empty_range_builds_nothing() {
    let tl = build(&range(5, 4), &[], &[]).unwrap();
    assert!(tl.cues.is_empty());
    assert!(tl.playlist.is_empty());
}

#[test]
fn unreadable_duration_aborts() {
    assert_eq!(build(&range(3, 6), &["1", "2", "oops", "4"], &["", "", "", ""]).err(), Some(TimelineError::Probe(5)));
    assert_eq!(build(&range(3, 6), &["x", "2", "oops", "4"], &["", "", "", ""]).err(), Some(TimelineError::Probe(3)));
}

#[test]
fn too_long_a_range_is_refused() {
    let r = build(&range(1, 2), &["18446744073709551615", "18446744073709551615"], &["", ""]);
    assert_eq!(r.err(), Some(TimelineError::TooLong));
}

#[test]
fn single_cue_dialogue_line() {
    let cue = SubtitleData {
        start_time: "00:00:00.00".to_string(),
        end_time: "00:00:03.45".to_string(),
        text: "X".to_string(),
    };
    let doc = make_subtitle_file(&vec![cue]);
    assert_eq!(doc, format!("{}Dialogue: 0,00:00:00.00,00:00:03.45,Default,,0,0,0,,X\n", TIMELINE_HEADER));
    assert!(doc.ends_with("Format: Layer, Start, End, Style, Name, MarginL, MarginR, MarginV, Effect, Text\nDialogue: 0,00:00:00.00,00:00:03.45,Default,,0,0,0,,X\n"));
}

#[test]
fn dialogue_lines_keep_timeline_order() {
    let tl = build(&range(1, 2), &["1", "2"], &["first", "second"]).unwrap();
    let doc = make_subtitle_file(&tl.cues);
    let first = doc.find("first").unwrap();
    let second = doc.find("second").unwrap();
    assert!(first < second);
    assert!(doc.starts_with("[Script Info]\nScriptType: v4.00+\n"));
    assert!(doc.contains("0, 5, 10, 10, 10, 1\n"));
}

#[test]
fn empty_timeline_document_is_the_header() {
    assert_eq!(make_subtitle_file(&Vec::new()), TIMELINE_HEADER);
}
