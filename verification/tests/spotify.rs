use cantus::spotify::{
    metadata_requests, playlist_choice, playlist_image, queue_from_snapshot, CatalogTrack, ProvidedTrack,
};
use cantus::spotify_ids::{is_track_address, playlist_id_of, raw_track_id, track_id_of};

fn reported(uri: &str, title: &str) -> ProvidedTrack {
    ProvidedTrack {
        uri: uri.to_string(),
        title: Some(title.to_string()),
        artist_name: None,
        album_title: None,
        image_url: None,
        image_large_url: None,
        image_xlarge_url: None,
        duration: None,
    }
}

#[test]
fn reads_ids_from_addresses() {
    assert_eq!(track_id_of("spotify:track:5sWHDYs0csV6RS48xBl0tH").as_deref(), Some("5sWHDYs0csV6RS48xBl0tH"));
    assert_eq!(track_id_of("spotify:user:me:track:4GNcXTGWmnZ3ySrqvol3o4").as_deref(), Some("4GNcXTGWmnZ3ySrqvol3o4"));
    assert_eq!(track_id_of("spotify:track:5sWHDYs0Bl0tH"), None);
    assert_eq!(track_id_of("spotify:episode:4GNcXTGWmnZ3ySrqvol3o4"), None);
    assert_eq!(track_id_of("cleary invalid uri"), None);
    assert_eq!(track_id_of("spotify:user:me"), None);
    assert_eq!(playlist_id_of("spotify:playlist:4GNcXTGWmnZ3ySrqvol3o4").as_deref(), Some("4GNcXTGWmnZ3ySrqvol3o4"));
    assert_eq!(playlist_id_of("spotify:track:4GNcXTGWmnZ3ySrqvol3o4"), None);
    assert!(is_track_address("spotify:track:4GNcXTGWmnZ3ySrqvol3o4"));
    assert!(!is_track_address("spotify:local:Artist:Album:Title:200"));
    assert!(!is_track_address("youtube.com/watch?v=1"));
}

#[test]
fn converts_ids_to_raw_bytes() {
    assert_eq!(
        raw_track_id("5sWHDYs0csV6RS48xBl0tH"),
        Some([179, 159, 232, 8, 30, 31, 76, 84, 190, 56, 232, 214, 249, 241, 43, 185])
    );
    assert_eq!(raw_track_id("0000000000000000000000"), Some([0; 16]));
    assert_eq!(raw_track_id("....................."), None);
}

#[test]
fn builds_the_queue_from_a_snapshot() {
    let provided = vec![
        reported("spotify:track:5sWHDYs0csV6RS48xBl0tH", "one"),
        reported("spotify:delimiter", "skip"),
        reported("spotify:track:4GNcXTGWmnZ3ySrqvol3o4", "two"),
        reported("spotify:episode:4GNcXTGWmnZ3ySrqvol3o4", "three"),
        reported("spotify:meta:delimiter", "end"),
    ];
    let catalog: Vec<Option<CatalogTrack>> = (0..provided.len()).map(|_| None).collect();
    let (queue, index) = queue_from_snapshot(&provided, 2, 180_000, &catalog, 40);
    assert_eq!(index, 1);
    let names: Vec<&str> = queue.iter().map(|track| track.name.as_str()).collect();
    assert_eq!(names, ["one", "two", "three"]);
    let cards: Vec<u64> = queue.iter().map(|track| track.interaction_id).collect();
    assert_eq!(cards, [40, 41, 42]);
    let lengths: Vec<u32> = queue.iter().map(|track| track.duration_ms).collect();
    assert_eq!(lengths, [0, 180_000, 0]);
    assert_eq!(queue[0].id.as_deref(), Some("5sWHDYs0csV6RS48xBl0tH"));
    assert_eq!(queue[2].id, None);
    let (_, later) = queue_from_snapshot(&provided, 3, -1, &catalog, 0);
    assert_eq!(later, 2);
    let (queue, _) = queue_from_snapshot(&provided, 2, -1, &catalog, 0);
    assert_eq!(queue[1].duration_ms, 0);
}

#[test]
fn asks_for_each_missing_track_once() {
    let listed = vec![
        String::from("spotify:track:5sWHDYs0csV6RS48xBl0tH"),
        String::from("spotify:track:4GNcXTGWmnZ3ySrqvol3o4"),
        String::from("spotify:episode:4GNcXTGWmnZ3ySrqvol3o4"),
        String::from("spotify:track:4GNcXTGWmnZ3ySrqvol3o4"),
    ];
    let mut known = vec![String::from("spotify:track:5sWHDYs0csV6RS48xBl0tH"), String::from("spotify:track:gone")];
    let requested = metadata_requests(&listed, &mut known);
    assert_eq!(requested, vec![String::from("spotify:track:4GNcXTGWmnZ3ySrqvol3o4")]);
    assert_eq!(
        known,
        vec![
            String::from("spotify:track:5sWHDYs0csV6RS48xBl0tH"),
            String::from("spotify:track:4GNcXTGWmnZ3ySrqvol3o4"),
        ]
    );
    assert!(metadata_requests(&listed, &mut known).is_empty());
}

#[test]
fn finds_playlist_pictures() {
    let sized = vec![String::from("https://a/small.jpg"), String::from("spotify:image:big"), String::new()];
    assert_eq!(playlist_image(&sized, &Vec::new()).as_deref(), Some("https://i.scdn.co/image/big"));
    let named = b"spotify:image:ab67".to_vec();
    assert_eq!(playlist_image(&Vec::new(), &named).as_deref(), Some("https://i.scdn.co/image/ab67"));
    let raw: Vec<u8> = (0..20).map(|b| b * 13).collect();
    assert_eq!(
        playlist_image(&vec![String::new()], &raw).as_deref(),
        Some("https://i.scdn.co/image/000d1a2734414e5b6875828f9ca9b6c3d0ddeaf7")
    );
    assert_eq!(playlist_image(&Vec::new(), &vec![1, 2, 3]), None);
}

#[test]
fn chooses_root_list_playlists() {
    let targets = vec![String::from("Gym")];
    assert_eq!(
        playlist_choice("spotify:playlist:4GNcXTGWmnZ3ySrqvol3o4", "Gym", &targets, true),
        Some((String::from("4GNcXTGWmnZ3ySrqvol3o4"), None))
    );
    assert_eq!(
        playlist_choice("spotify:playlist:4GNcXTGWmnZ3ySrqvol3o4", "4.5", &targets, true),
        Some((String::from("4GNcXTGWmnZ3ySrqvol3o4"), Some(8)))
    );
    assert_eq!(playlist_choice("spotify:playlist:4GNcXTGWmnZ3ySrqvol3o4", "4.5", &targets, false), None);
    assert_eq!(playlist_choice("spotify:track:4GNcXTGWmnZ3ySrqvol3o4", "Gym", &targets, true), None);
}
