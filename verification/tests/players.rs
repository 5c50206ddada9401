use cantus::players::{carry_player, pick_player, read_player, LocalPlayer, PlayerReport};

fn report(status: &str, url: &str) -> PlayerReport {
    PlayerReport {
        status: Some(status.to_string()),
        url: Some(url.to_string()),
        track_id: Some(String::from("/org/mpris/MediaPlayer2/Track/1")),
        title: Some(String::from("Song")),
        artists: Some(vec![String::from("Singer")]),
        album: None,
        art_url: Some(String::from("file:///art.png")),
        length_us: Some(200_500_000),
        can_control: Some(true),
        can_seek: Some(true),
        can_pause: Some(true),
        can_play: Some(false),
    }
}

#[test]
fn reads_a_playing_browser_tab() {
    let player = read_player("org.mpris.MediaPlayer2.firefox.instance_1", report("Playing", "https://youtube.com/watch?v=1"), 9)
        .unwrap();
    assert!(player.playing);
    assert_eq!(player.track.uri, "https://youtube.com/watch?v=1");
    assert_eq!(player.track.name, "Song");
    assert_eq!(player.track.artists, vec![String::from("Singer")]);
    assert_eq!(player.track.album, "");
    assert_eq!(player.track.image.as_deref(), Some("file:///art.png"));
    assert_eq!(player.track.duration_ms, 200_500);
    assert_eq!(player.track.interaction_id, 9);
    assert_eq!(player.mpris_id, "/org/mpris/MediaPlayer2/Track/1");
    assert!(player.can_seek);
    assert!(player.can_toggle);
}

#[test]
fn paused_players_toggle_by_can_play() {
    let mut paused = report("Paused", "");
    paused.title = None;
    paused.length_us = Some(-5);
    let player = read_player("org.mpris.MediaPlayer2.vlc", paused, 1).unwrap();
    assert!(!player.playing);
    assert!(!player.can_toggle);
    assert_eq!(player.track.uri, "/org/mpris/MediaPlayer2/Track/1");
    assert_eq!(player.track.name, "Unknown track");
    assert_eq!(player.track.duration_ms, 0);
    let mut uncontrolled = report("Playing", "");
    uncontrolled.can_control = Some(false);
    let player = read_player("org.mpris.MediaPlayer2.vlc", uncontrolled, 1).unwrap();
    assert!(!player.can_seek && !player.can_toggle);
}

#[test]
fn ignores_stopped_spotify_and_unnamed_players() {
    assert!(read_player("org.mpris.MediaPlayer2.vlc", report("Stopped", ""), 1).is_none());
    let mut no_status = report("Playing", "");
    no_status.status = None;
    assert!(read_player("org.mpris.MediaPlayer2.vlc", no_status, 1).is_none());
    assert!(read_player("org.mpris.MediaPlayer2.Spotify", report("Playing", ""), 1).is_none());
    assert!(read_player("org.mpris.MediaPlayer2.vlc", report("Playing", "spotify:track:1"), 1).is_none());
    assert!(read_player("org.mpris.MediaPlayer2.chromium", report("Playing", "https://open.spotify.com/track/1"), 1).is_none());
    assert!(read_player("org.mpris.MediaPlayer2.chromium", report("Playing", "https://spotify.example.com/"), 1).is_some());
    let mut unnamed = report("Playing", "");
    unnamed.track_id = None;
    assert!(read_player("org.mpris.MediaPlayer2.vlc", unnamed, 1).is_none());
}

fn player(source: &str, playing: bool) -> LocalPlayer {
    let status = if playing { "Playing" } else { "Paused" };
    read_player(source, report(status, ""), 1).unwrap()
}

#[test]
fn follows_the_playing_then_the_previous_player() {
    let players = vec![player("a", false), player("b", true), player("c", true)];
    assert_eq!(pick_player(&players, ""), Some(1));
    assert_eq!(pick_player(&players, "c"), Some(2));
    assert_eq!(pick_player(&players, "a"), Some(1));
    let paused = vec![player("a", false), player("b", false)];
    assert_eq!(pick_player(&paused, "b"), Some(1));
    assert_eq!(pick_player(&paused, "z"), Some(0));
    assert_eq!(pick_player(&Vec::new(), "a"), None);
}

#[test]
fn keeps_the_card_of_the_same_session() {
    let mut previous = player("a", true);
    previous.track.interaction_id = 77;
    previous.track.duration_ms = 5000;
    let mut fresh = player("a", false);
    fresh.track.interaction_id = 3;
    fresh.track.duration_ms = 0;
    assert!(carry_player(&mut fresh, &previous));
    assert_eq!(fresh.track.interaction_id, 77);
    assert_eq!(fresh.track.duration_ms, 5000);
    let mut other = player("b", true);
    other.track.interaction_id = 4;
    assert!(!carry_player(&mut other, &previous));
    assert_eq!(other.track.interaction_id, 4);
}
