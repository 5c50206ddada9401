use cantus::lyrics::{
    caption_file_cues, caption_speech, line_voices, names_match, pick_result, reply_outcome, usable_token, section_spans, snippet_lines,
    CaptionCue, Performer, ReplyOutcome, StructurePart, TaggedLines, Voice,
};
use cantus::music::Track;

fn cue(start: &str, end: &str, text: &str) -> (String, String, String) {
    (start.to_string(), end.to_string(), text.to_string())
}

fn flat(cues: Vec<CaptionCue>) -> Vec<(String, String, String)> {
    cues.into_iter().map(|c| (c.start, c.end, c.text)).collect()
}

#[test]
fn reads_webvtt_cues() {
    let source = "WEBVTT\n\n00:00:01.000 --> 00:00:02.500 align:start\nHello <b>world</b>\n\n00:00:03.000 --> 00:00:04.000\n\n";
    assert_eq!(flat(caption_file_cues(source)), vec![cue("00:00:01.000 ", "00:00:02.500", "Hello world")]);
}

#[test]
fn reads_subrip_cues_with_crlf() {
    let source = "1\r\n00:00:01,000 --> 00:00:02,000\r\nLine one\r\nLine two\r\n\r\n2\r\n00:00:03,000 --> 00:00:04,000\r\n[Music] &amp; more\r\n";
    assert_eq!(
        flat(caption_file_cues(source)),
        vec![
            cue("00:00:01,000 ", "00:00:02,000", "Line one Line two"),
            cue("00:00:03,000 ", "00:00:04,000", "[Music] & more"),
        ]
    );
}

#[test]
fn skips_blocks_without_timing_or_text() {
    assert!(caption_file_cues("").is_empty());
    assert!(caption_file_cues("NOTE a comment\nstill a comment").is_empty());
    assert_eq!(
        flat(caption_file_cues("intro\n00:01 --> \n  spaced   out  ")),
        vec![cue("00:01 ", "", "spaced out")]
    );
}

#[test]
fn strips_annotations_from_caption_speech() {
    assert!(caption_speech(&vec![String::new(), String::from("\n")]).is_none());
    let speech = caption_speech(&vec![String::from("[Music]"), String::from(" Hello"), String::from(" world")]).unwrap();
    assert_eq!(speech.text, "Hello world ");
    assert_eq!(speech.first_spoken, Some(1));
    let spanning = caption_speech(&vec![String::from("Hi [app"), String::from("lause] there")]).unwrap();
    assert_eq!(spanning.text, "Hi there ");
    assert_eq!(spanning.first_spoken, Some(0));
    let silent = caption_speech(&vec![String::from("[Music]")]).unwrap();
    assert_eq!(silent.text, " ");
    assert_eq!(silent.first_spoken, None);
}

#[test]
fn keys_snippet_lines() {
    assert_eq!(snippet_lines("Hello, World!\n\n...\r\nSecond line\n"), vec![String::from("helloworld"), String::from("secondline")]);
    assert!(snippet_lines("").is_empty());
}

fn part(description: Option<&str>, snippet: &str) -> StructurePart {
    StructurePart { description: description.map(str::to_string), snippet: snippet.to_string() }
}

fn lyric_lines() -> Vec<String> {
    ["Hello there", "General Kenobi", "You are", "a bold one"].iter().map(|l| l.to_string()).collect()
}

#[test]
fn lays_sections_over_the_lines() {
    let spans = section_spans(&lyric_lines(), &vec![
        part(Some("verse"), "Hello there\nGeneral Kenobi"),
        part(Some("instrumental"), ""),
        part(Some("preChorus"), "You are\nA bold one!"),
    ]);
    let flat: Vec<(usize, usize, String)> = spans.into_iter().map(|s| (s.first, s.last, s.label)).collect();
    assert_eq!(flat, vec![(0, 1, String::from("Verse")), (2, 3, String::from("Pre Chorus"))]);
}

#[test]
fn drops_sections_that_do_not_line_up() {
    assert!(section_spans(&lyric_lines(), &vec![part(Some("verse"), "Hello there\nGeneral Grievous")]).is_empty());
    assert!(section_spans(&lyric_lines(), &vec![part(None, "Hello there")]).is_empty());
    assert!(section_spans(&lyric_lines(), &vec![part(Some("verse"), "Hello there\nGeneral Kenobi")]).is_empty());
    assert!(section_spans(&lyric_lines(), &vec![
        part(Some("verse"), "Hello there\nGeneral Kenobi\nYou are\na bold one\nextra"),
    ])
    .is_empty());
}

fn artist(id: &str) -> Performer {
    Performer { role: Some(String::from("artist")), id: Some(id.to_string()) }
}

fn role(name: &str) -> Performer {
    Performer { role: Some(name.to_string()), id: None }
}

fn tagged(performers: Vec<Performer>, snippet: &str) -> TaggedLines {
    TaggedLines { performers, snippet: snippet.to_string() }
}

fn lines(texts: &[&str]) -> Vec<String> {
    texts.iter().map(|t| t.to_string()).collect()
}

#[test]
fn numbers_singers_in_order_of_appearance() {
    let entries = vec![
        tagged(vec![artist("a")], "One\nTwo"),
        tagged(vec![artist("b"), role("backing_vocalist")], "Three"),
        tagged(vec![artist("a"), artist("b")], "Four"),
        tagged(vec![role("fan_chant"), artist("a")], "Five"),
        tagged(vec![], "Six"),
    ];
    let voices = line_voices(&lines(&["One", "Two", "Three", "Four", "Five", "Six"]), &entries);
    assert_eq!(voices, vec![
        Voice { singer: Some(0), backing: false },
        Voice { singer: Some(0), backing: false },
        Voice { singer: Some(1), backing: true },
        Voice { singer: None, backing: false },
        Voice { singer: None, backing: false },
        Voice { singer: Some(0), backing: false },
    ]);
}

#[test]
fn matches_voices_by_text_when_lines_differ() {
    let entries = vec![
        tagged(vec![artist("a"), role("backing_vocalist")], "Hey"),
        tagged(vec![artist("b")], "Hey\nThere"),
    ];
    let voices = line_voices(&lines(&["Hey", "There", "Else"]), &entries);
    assert_eq!(voices, vec![
        Voice::default(),
        Voice { singer: Some(1), backing: false },
        Voice::default(),
    ]);
    assert_eq!(Voice::default(), Voice { singer: Some(0), backing: false });
}

#[test]
fn matches_tracks_by_title_and_artist() {
    let track = Track {
        id: None,
        uri: String::from("spotify:track:x"),
        name: String::from("Bohemian Rhapsody - Remastered 2011"),
        original_title: Some(String::from("Bohemian Rhapsody")),
        artists: vec![String::from("Queen")],
        album: String::from("A Night at the Opera"),
        image: None,
        duration_ms: 354_000,
        interaction_id: 1,
    };
    assert!(names_match(&track, "Bohemian Rhapsody", "QUEEN"));
    assert!(names_match(&track, "bohemian rhapsody remastered 2011", "Queen"));
    assert!(!names_match(&track, "Bohemian Rhapsody", "Queens"));
    assert!(!names_match(&track, "", "Queen"));
    assert!(!names_match(&track, "Bohemian Rhapsody", "!!"));
}

#[test]
fn reads_service_statuses() {
    assert_eq!(reply_outcome(Some(200), false), ReplyOutcome::Body);
    assert_eq!(reply_outcome(Some(404), false), ReplyOutcome::Nothing);
    assert_eq!(reply_outcome(Some(401), false), ReplyOutcome::Rejected(401));
    assert_eq!(reply_outcome(None, true), ReplyOutcome::Nothing);
    assert_eq!(reply_outcome(None, false), ReplyOutcome::Malformed);
}

#[test]
fn prefers_word_timed_results() {
    let some = |t: &str| Some(t.to_string());
    assert_eq!(pick_result(&vec![some("line"), some("word")]), Some((1, true)));
    assert_eq!(pick_result(&vec![None, some("line"), some("line")]), Some((1, false)));
    assert_eq!(pick_result(&vec![some("plain"), None]), None);
    assert_eq!(pick_result(&vec![]), None);
}

#[test]
fn accepts_only_real_tokens() {
    assert!(usable_token("2203269256ff7abcb649269df00e14c833dbf4ddfb5b36a1aae8b0"));
    assert!(!usable_token(""));
    assert!(!usable_token("UpgradeOnlyUpgradeOnlyUpgradeOnly"));
    assert!(usable_token("Upgrade"));
}
