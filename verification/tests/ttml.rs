use cantus::clocks::clock_value;
use cantus::ttml::{parse_ttml, TtmlLyrics};

type Word = (String, Option<String>, String);

fn voices(lyrics: &TtmlLyrics) -> Vec<(Option<usize>, Vec<Word>)> {
    lyrics
        .voices
        .iter()
        .map(|voice| {
            (voice.singer, voice.words.iter().map(|w| (w.begin.clone(), w.end.clone(), w.text.clone())).collect())
        })
        .collect()
}

fn word(begin: &str, end: Option<&str>, text: &str) -> Word {
    (begin.to_string(), end.map(str::to_string), text.to_string())
}

const DOCUMENT: &str = r#"<tt xmlns="http://www.w3.org/ns/ttml" xmlns:ttm="http://www.w3.org/ns/ttml#metadata" xmlns:itunes="http://music.apple.com/lyric-ttml-internal">
<head><metadata><ttm:agent type="person" xml:id="v1"/><ttm:agent type="group" xml:id="v2"/></metadata></head>
<body><div begin="0.5" end="10.0" itunes:songPart="verse">
<p begin="0.5" end="5.0" ttm:agent="v1"><span begin="0.5" end="1.0">Hello</span> <span begin="1.0" end="2.0">world</span></p>
<p begin="5.0" end="10.0" ttm:agent="v2"><span begin="5.0" end="6.0">All</span><span ttm:role="x-bg"><span begin="6.0" end="7.0">(echo)</span></span><span ttm:role="x-translation" begin="5" end="6">Hola</span></p>
</div></body></tt>"#;

#[test]
fn reads_voices_in_key_order() {
    let lyrics = parse_ttml(DOCUMENT);
    assert_eq!(voices(&lyrics), vec![
        (None, vec![word("5.0", Some("6.0"), "All ")]),
        (None, vec![word("6.0", Some("7.0"), "(echo) ")]),
        (Some(0), vec![word("0.5", Some("1.0"), "Hello "), word("1.0", Some("2.0"), "world ")]),
    ]);
    let sections: Vec<(String, String, String)> =
        lyrics.sections.iter().map(|s| (s.label.clone(), s.begin.clone(), s.end.clone())).collect();
    assert_eq!(sections, vec![(String::from("Verse"), String::from("0.5"), String::from("10.0"))]);
}

#[test]
fn words_need_a_readable_start() {
    let document = r#"<tt><body><div><p begin="1s" end="oops"><span>one</span><span begin="x">two</span><span begin="2:01.5">three</span></p></div></body></tt>"#;
    let lyrics = parse_ttml(document);
    // Without agents the words go to an unnamed singer.
    assert_eq!(voices(&lyrics), vec![(Some(0), vec![word("1s", None, "one"), word("2:01.5", None, "three ")])]);
    assert!(lyrics.sections.is_empty());
}

#[test]
fn numbers_singers_among_solo_agents() {
    let document = r#"<tt><head><agent id="a"/><agent id="g" type="group"/><agent id="b"/></head><body>
<p agent="b" begin="1">bee</p><p agent="a" begin="2">ay</p><p agent="z" begin="3">zed</p></body></tt>"#;
    let lyrics = parse_ttml(document);
    assert_eq!(voices(&lyrics), vec![
        (Some(0), vec![word("2", None, "ay ")]),
        (Some(1), vec![word("1", None, "bee ")]),
        (Some(2), vec![word("3", None, "zed ")]),
    ]);
}

#[test]
fn malformed_documents_have_no_lyrics() {
    let lyrics = parse_ttml("<tt><p>unclosed</tt>");
    assert!(lyrics.voices.is_empty() && lyrics.sections.is_empty());
}

#[test]
fn reads_clock_values() {
    for good in ["1:23.456", "12.5s", "1e3", "inf", "+.5", "5.", "NaN", "-0:0:1", "7"] {
        assert!(clock_value(good), "{good}");
    }
    for bad in ["abc", "", "1::2", ".", "1e", " 1", "1.2.3", "s", "1:"] {
        assert!(!clock_value(bad), "{bad}");
    }
}
