use cantus::enrichment::Fetch;
use cantus::music::{CondensedPlaylist, Track};
use cantus::refresh::refresh_plan;
use std::time::{Duration, Instant};

fn song(uri: &str, name: &str, id: Option<&str>, image: Option<&str>) -> Track {
    Track {
        id: id.map(str::to_string),
        uri: uri.to_string(),
        name: name.to_string(),
        original_title: None,
        artists: Vec::new(),
        album: String::new(),
        image: image.map(str::to_string),
        duration_ms: 1000,
        interaction_id: 0,
    }
}

fn keys<T>(cache: &[(String, Fetch<T>)]) -> Vec<&str> {
    cache.iter().map(|entry| entry.0.as_str()).collect()
}

#[test]
fn plans_an_enrichment_refresh() {
    let queue = vec![
        song("a", "x", Some("i0"), Some("img0")),
        song("b", " ", None, None),
        song("c", "y", Some("i0"), Some("img0")),
    ];
    let playlists = vec![CondensedPlaylist {
        id: String::from("p"),
        image_url: Some(String::from("cover")),
        tracks: Vec::new(),
        rating_index: None,
    }];
    let start = Instant::now();
    let mut art: Vec<(String, Fetch<()>)> = vec![
        (String::from("old"), Fetch::Missing(start)),
        (String::from("img0"), Fetch::Ready(())),
        (String::from("gone"), Fetch::Fetching),
    ];
    let mut audio: Vec<(String, Fetch<()>)> = Vec::new();
    let mut lyrics: Vec<(String, Fetch<()>)> = vec![(String::from("z"), Fetch::Ready(()))];
    let later = start + Duration::from_secs(3600);
    let (lyric_fetches, audio_fetches, art_fetches) =
        refresh_plan(&mut art, &mut audio, &mut lyrics, &queue, &playlists, 1, true, later);
    assert_eq!(lyric_fetches, vec![0, 2]);
    assert_eq!(audio_fetches, vec![String::from("i0")]);
    assert_eq!(art_fetches, vec![String::from("cover")]);
    assert_eq!(keys(&art), ["img0", "gone", "cover"]);
    assert_eq!(keys(&audio), ["i0"]);
    assert_eq!(keys(&lyrics), ["a", "c"]);
    assert!(matches!(art[2].1, Fetch::Fetching));

    let (lyric_fetches, audio_fetches, art_fetches) =
        refresh_plan(&mut art, &mut audio, &mut lyrics, &queue, &playlists, 1, false, later);
    assert!(lyric_fetches.is_empty() && audio_fetches.is_empty() && art_fetches.is_empty());
}
