use cantus::enrichment::{
    art_in_use, audio_in_use, keeps, lyrics_in_use, lyrics_window, wants_lyrics, Fetch,
};
use cantus::spotify::{
    player_request, playlist_rating, track_from_provided, wanted_playlist, CatalogTrack, CoverImage, PlayerRequest,
    ProvidedTrack,
};
use cantus::music::{
    anchor_index, carry_over, playhead_index, playlist_buttons, rate_track, seek_action, toggle_action,
    toggle_playlist, track_badges, card_seed, CondensedPlaylist, PlaybackCommand, SeekAction, ToggleAction, Track,
};

fn track(uri: &str, card: u64) -> Track {
    Track {
        id: Some(format!("id-{uri}")),
        uri: uri.to_string(),
        name: format!("Song {uri}"),
        original_title: None,
        artists: vec![String::from("First"), String::from("Second")],
        album: String::from("Album"),
        image: Some(format!("https://art/{uri}")),
        duration_ms: 180_000,
        interaction_id: card,
    }
}

fn playlist(id: &str, tracks: &[&str], rating_index: Option<u8>) -> CondensedPlaylist {
    CondensedPlaylist {
        id: id.to_string(),
        image_url: Some(format!("https://cover/{id}")),
        tracks: tracks.iter().map(|t| t.to_string()).collect(),
        rating_index,
    }
}

fn changes(command: &PlaybackCommand) -> (String, Vec<(String, bool)>, Option<bool>) {
    match command {
        PlaybackCommand::UpdateLibrary { track_id, playlists, liked } => {
            (track_id.clone(), playlists.clone(), *liked)
        }
        _ => panic!("not a library update"),
    }
}

#[test]
fn rating_moves_the_track_between_rated_playlists() {
    let playlists = vec![
        playlist("three", &["t1"], Some(3)),
        playlist("four", &[], Some(4)),
        playlist("mix", &["t1"], None),
        playlist("five", &["t2"], Some(5)),
    ];
    let command = rate_track(&playlists, "t1", 4);
    let (id, edits, liked) = changes(&command);
    assert_eq!(id, "t1");
    assert_eq!(edits, vec![(String::from("three"), false), (String::from("four"), true)]);
    assert_eq!(liked, Some(false));
    let (_, edits, liked) = changes(&rate_track(&playlists, "t2", 5));
    assert!(edits.is_empty());
    assert_eq!(liked, Some(true));
}

#[test]
fn toggling_flips_membership_of_one_playlist() {
    let playlists = vec![playlist("a", &["t1"], None), playlist("b", &[], None)];
    let (id, edits, liked) = changes(&toggle_playlist(&playlists, "t1", "a").unwrap());
    assert_eq!(id, "t1");
    assert_eq!(edits, vec![(String::from("a"), false)]);
    assert_eq!(liked, None);
    let (_, edits, _) = changes(&toggle_playlist(&playlists, "t1", "b").unwrap());
    assert_eq!(edits, vec![(String::from("b"), true)]);
    assert!(toggle_playlist(&playlists, "t1", "missing").is_none());
}

#[test]
fn titles_and_artists() {
    let mut song = track("u", 1);
    assert_eq!(song.compact_title(), "Song u");
    song.original_title = Some(String::from("  \t "));
    assert_eq!(song.compact_title(), "Song u");
    song.original_title = Some(String::from("Canción"));
    assert_eq!(song.compact_title(), "Canción");
    assert_eq!(song.primary_artist(), "First");
    song.artists.clear();
    assert_eq!(song.primary_artist(), "");
}

#[test]
fn recognises_youtube_addresses() {
    let mut song = track("spotify:track:1", 1);
    assert!(!song.is_youtube());
    song.uri = String::from("https://www.youtube.com/watch?v=abc");
    assert!(song.is_youtube());
    song.uri = String::from("https://youtu.be/abc");
    assert!(song.is_youtube());
    song.uri = String::from("https://youtube.com");
    assert!(!song.is_youtube());
}

#[test]
fn replaced_queue_keeps_cards_of_continuing_tracks() {
    let old = vec![track("a", 10), track("b", 11), track("a", 12)];
    let mut fresh_b = track("b", 20);
    fresh_b.image = None;
    let mut fresh_a2 = track("a", 22);
    fresh_a2.image = Some(String::from("https://art/new"));
    let new = vec![track("c", 19), fresh_b, track("a", 21), fresh_a2, track("a", 23)];
    let art_ready = vec![false, false, true];
    let queue = carry_over(&old, new, &art_ready);
    let cards: Vec<u64> = queue.iter().map(|t| t.interaction_id).collect();
    // `c` is new; `b` continues old `b`; the first and second `a` continue the old ones in
    // order; the third `a` is new.
    assert_eq!(cards, vec![19, 11, 10, 12, 23]);
    // The old `b` image is taken because the new one has none.
    assert_eq!(queue[1].image.as_deref(), Some("https://art/b"));
    // The first `a`: old art not loaded, new image kept.
    assert_eq!(queue[2].image.as_deref(), Some("https://art/a"));
    // The second `a`: old art loaded, so the old image stays.
    assert_eq!(queue[3].image.as_deref(), Some("https://art/a"));
    assert_eq!(queue[3].uri, "a");
    assert_eq!(queue[0].image.as_deref(), Some("https://art/c"));
}

#[test]
fn same_snapshot_keeps_every_card() {
    let old = vec![track("a", 1), track("a", 2), track("b", 3)];
    let new = vec![track("a", 7), track("a", 8), track("b", 9)];
    let queue = carry_over(&old, new, &vec![true, true, true]);
    let cards: Vec<u64> = queue.iter().map(|t| t.interaction_id).collect();
    assert_eq!(cards, vec![1, 2, 3]);
}

#[test]
fn anchors_on_the_nearest_copy_of_the_current_track() {
    let old = vec![track("a", 1), track("b", 2), track("c", 3)];
    let queue = vec![track("b", 4), track("x", 5), track("x", 6), track("b", 7), track("c", 8)];
    assert_eq!(anchor_index(&old, 1, &queue, 2), Some(3));
    assert_eq!(anchor_index(&old, 1, &queue, 1), Some(0));
    // Equally near copies: the earlier one.
    let even = vec![track("b", 4), track("x", 5), track("b", 6)];
    assert_eq!(anchor_index(&old, 1, &even, 1), Some(0));
    // The old index is clamped to the last old track.
    assert_eq!(anchor_index(&old, 99, &queue, 0), Some(4));
    assert_eq!(anchor_index(&old, 0, &queue, 0), None);
    assert_eq!(anchor_index(&Vec::new(), 0, &queue, 0), None);
}

#[test]
fn clamps_the_playhead_to_the_queue() {
    assert_eq!(playhead_index(3, 5), 3);
    assert_eq!(playhead_index(9, 5), 4);
    assert_eq!(playhead_index(9, 0), 0);
}

#[test]
fn seeks_or_skips_at_most_ten_tracks() {
    assert_eq!(seek_action(4, 4, 10), SeekAction::SeekWithin);
    assert_eq!(seek_action(6, 4, 10), SeekAction::Skip(2));
    assert_eq!(seek_action(1, 4, 10), SeekAction::Skip(-3));
    assert_eq!(seek_action(25, 2, 30), SeekAction::Skip(10));
    assert_eq!(seek_action(2, 25, 30), SeekAction::Skip(-10));
    assert_eq!(seek_action(10, 4, 10), SeekAction::Ignore);
}

#[test]
fn toggles_the_player_in_front() {
    assert_eq!(toggle_action(true, None), ToggleAction::Service(false));
    assert_eq!(toggle_action(false, None), ToggleAction::Service(true));
    assert_eq!(toggle_action(true, Some((true, true))), ToggleAction::Service(false));
    assert_eq!(toggle_action(false, Some((true, true))), ToggleAction::Local(false));
    assert_eq!(toggle_action(false, Some((false, true))), ToggleAction::Local(true));
    assert_eq!(toggle_action(false, Some((true, false))), ToggleAction::Nothing);
}

#[test]
fn fetches_lyrics_around_the_current_track() {
    assert_eq!(lyrics_window(0, 10), (0, 3));
    assert_eq!(lyrics_window(5, 10), (4, 8));
    assert_eq!(lyrics_window(8, 10), (7, 10));
    assert_eq!(lyrics_window(12, 10), (10, 10));
    assert_eq!(lyrics_window(0, 0), (0, 0));
    let mut song = track("a", 1);
    assert!(wants_lyrics(&song));
    song.name = String::from("   ");
    assert!(!wants_lyrics(&song));
}

#[test]
fn keeps_cache_entries_still_in_use() {
    let queue = vec![track("a", 1), track("b", 2)];
    let playlists = vec![playlist("p", &[], None)];
    assert!(art_in_use(&String::from("https://art/b"), &queue, &playlists));
    assert!(art_in_use(&String::from("https://cover/p"), &queue, &playlists));
    assert!(!art_in_use(&String::from("https://art/z"), &queue, &playlists));
    assert!(audio_in_use(&String::from("id-a"), &queue));
    assert!(!audio_in_use(&String::from("id-z"), &queue));
    assert!(lyrics_in_use(&String::from("b"), &queue));
    assert!(!lyrics_in_use(&String::from("z"), &queue));
    assert!(keeps::<u8>(&Fetch::Fetching, false));
    assert!(keeps(&Fetch::Ready(1u8), true));
    assert!(!keeps(&Fetch::Ready(1u8), false));
    assert!(!keeps::<u8>(&Fetch::default(), false));
}

#[test]
fn requests_a_missing_resource_once() {
    let mut state: Fetch<u8> = Fetch::default();
    assert!(state.request(std::time::Instant::now()));
    assert!(matches!(state, Fetch::Fetching));
    assert!(!state.request(std::time::Instant::now()));
    let mut waiting: Fetch<u8> = Fetch::retry();
    assert!(!waiting.request(std::time::Instant::now()));
    assert!(matches!(waiting, Fetch::Missing(_)));
    assert_eq!(Fetch::Ready(7u8).ready(), Some(&7));
}

fn provided(title: Option<&str>, artist: Option<&str>, duration: Option<&str>) -> ProvidedTrack {
    ProvidedTrack {
        uri: String::from("spotify:track:abc"),
        title: title.map(str::to_string),
        artist_name: artist.map(str::to_string),
        album_title: Some(String::new()),
        image_url: Some(String::new()),
        image_large_url: Some(String::from("spotify:image:ab67")),
        image_xlarge_url: Some(String::from("https://elsewhere/x.png")),
        duration: duration.map(str::to_string),
    }
}

fn catalog(duration: i32) -> CatalogTrack {
    CatalogTrack {
        name: String::new(),
        original_title: String::from("Original"),
        artists: vec![String::new(), String::from("X"), String::from("Y")],
        album_name: String::from("Album"),
        cover_group: vec![CoverImage { file_id: String::from("g1"), width: 300 }],
        covers: vec![
            CoverImage { file_id: String::from("c1"), width: 64 },
            CoverImage { file_id: String::from("c2"), width: 192 },
        ],
        duration,
    }
}

#[test]
fn builds_tracks_from_player_metadata() {
    let track = track_from_provided(&provided(Some("T"), Some("A"), Some("2500")), None, Some(9), 5);
    assert_eq!(track.uri, "spotify:track:abc");
    assert_eq!(track.name, "T");
    assert_eq!(track.artists, vec![String::from("A")]);
    assert_eq!(track.album, "");
    assert_eq!(track.image.as_deref(), Some("https://i.scdn.co/image/ab67"));
    assert_eq!(track.duration_ms, 2500);
    assert_eq!(track.original_title, None);
    assert_eq!(track.interaction_id, 5);
    assert_eq!(track.id, None);
    let mut named = provided(Some(""), Some(""), Some("+42"));
    named.uri = String::from("spotify:track:5sWHDYs0csV6RS48xBl0tH");
    let bare = track_from_provided(&named, None, None, 6);
    assert_eq!(bare.name, "");
    assert!(bare.artists.is_empty());
    assert_eq!(bare.duration_ms, 42);
    assert_eq!(bare.id.as_deref(), Some("5sWHDYs0csV6RS48xBl0tH"));
}

#[test]
fn fills_in_from_the_catalog() {
    let mut player = provided(Some("Prov"), Some("A"), Some("abc"));
    player.image_large_url = None;
    player.image_xlarge_url = Some(String::new());
    let entry = catalog(9000);
    let track = track_from_provided(&player, Some(&entry), Some(7), 1);
    assert_eq!(track.name, "Prov");
    assert_eq!(track.artists, vec![String::from("X"), String::from("Y")]);
    assert_eq!(track.album, "Album");
    assert_eq!(track.original_title.as_deref(), Some("Original"));
    // Widths 300, 64 and 192 are 172, 64 and 64 away from 128: the first of the nearest wins.
    assert_eq!(track.image.as_deref(), Some("https://i.scdn.co/image/c1"));
    assert_eq!(track.duration_ms, 7);
    assert_eq!(track_from_provided(&player, Some(&entry), None, 1).duration_ms, 9000);
    assert_eq!(track_from_provided(&player, Some(&catalog(-5)), None, 1).duration_ms, 0);
    player.duration = Some(String::from("4294967296"));
    assert_eq!(track_from_provided(&player, Some(&entry), Some(3), 1).duration_ms, 3);
    let mut named = catalog(1);
    named.name = String::from("Catalog name");
    assert_eq!(track_from_provided(&player, Some(&named), None, 1).name, "Catalog name");
}

#[test]
fn rating_playlists_are_named_by_stars() {
    assert_eq!(playlist_rating("0.5", true), Some(0));
    assert_eq!(playlist_rating("2.5", true), Some(4));
    assert_eq!(playlist_rating("5.0", true), Some(9));
    assert_eq!(playlist_rating("2.5", false), None);
    assert_eq!(playlist_rating("6.0", true), None);
    assert_eq!(playlist_rating("5", true), None);
    let targets = vec![String::from("Road Trip")];
    assert!(wanted_playlist("Road Trip", &targets, false));
    assert!(wanted_playlist("3.5", &targets, true));
    assert!(!wanted_playlist("3.5", &targets, false));
    assert!(!wanted_playlist("Gym", &targets, true));
}

#[test]
fn playback_commands_become_connect_requests() {
    let play = player_request(&PlaybackCommand::PlayPlaylist(Some(String::from("37i9"))), "alice").unwrap();
    assert_eq!(play, (PlayerRequest::Play(String::from("spotify:playlist:37i9")), 1));
    assert_eq!(play.0.endpoint(), "play");
    let liked = player_request(&PlaybackCommand::PlayPlaylist(None), "alice").unwrap();
    assert_eq!(liked, (PlayerRequest::Play(String::from("spotify:user:alice:collection")), 1));
    assert_eq!(player_request(&PlaybackCommand::SetPlaying(true), "a"), Some((PlayerRequest::Resume, 1)));
    assert_eq!(player_request(&PlaybackCommand::SetPlaying(false), "a"), Some((PlayerRequest::Pause, 1)));
    assert_eq!(player_request(&PlaybackCommand::Seek(1500), "a"), Some((PlayerRequest::SeekTo(1500), 1)));
    let next = player_request(&PlaybackCommand::Skip(3), "a").unwrap();
    assert_eq!(next, (PlayerRequest::SkipNext, 3));
    assert_eq!(next.0.endpoint(), "skip_next");
    let back = player_request(&PlaybackCommand::Skip(-128), "a").unwrap();
    assert_eq!(back, (PlayerRequest::SkipPrevious, 128));
    assert_eq!(back.0.endpoint(), "skip_prev");
    assert_eq!(PlayerRequest::SeekTo(1).endpoint(), "seek_to");
    assert_eq!(PlayerRequest::Resume.endpoint(), "resume");
    assert_eq!(PlayerRequest::Pause.endpoint(), "pause");
    let update = PlaybackCommand::UpdateLibrary { track_id: String::from("t"), playlists: Vec::new(), liked: None };
    assert!(player_request(&update, "a").is_none());
}

#[test]
fn lists_track_card_badges() {
    let playlists = vec![
        playlist("p0", &["a"], None),
        playlist("r3", &["a"], Some(3)),
        playlist("p2", &["b"], None),
        playlist("p3", &["a", "b"], None),
        playlist("r7", &["a"], Some(7)),
    ];
    let id = Some(String::from("a"));
    let badges = track_badges(&playlists, &id, true, true);
    assert_eq!(badges.icons, vec![0, 3, 2]);
    assert_eq!(badges.primary, 2);
    assert_eq!(badges.rating, Some(8));
    let collapsed = track_badges(&playlists, &id, false, false);
    assert_eq!(collapsed.icons, vec![0, 3]);
    assert_eq!(collapsed.rating, None);
    let unknown = track_badges(&playlists, &None, true, true);
    assert!(unknown.icons.is_empty());
    assert_eq!(unknown.primary, 0);
    assert_eq!(unknown.rating, None);
    let unrated = track_badges(&playlists, &Some(String::from("z")), true, false);
    assert_eq!(unrated.rating, Some(0));
}

#[test]
fn offers_playlist_buttons() {
    let playlists = vec![playlist("p0", &[], None), playlist("r1", &[], Some(1)), playlist("p2", &[], None)];
    assert_eq!(playlist_buttons(&playlists, false), vec![None, Some(0), Some(2)]);
    let rated = vec![playlist("r1", &[], Some(1))];
    assert_eq!(playlist_buttons(&rated, false), Vec::new());
    assert_eq!(playlist_buttons(&rated, true), vec![None]);
}

#[test]
fn seeds_cards_by_address() {
    assert_eq!(card_seed(""), 2_216_829_733);
    assert_eq!(card_seed("spotify:track:abc"), 391_683_742);
    assert_eq!(card_seed("é"), 3_071_811_073);
}
