//! Spotify resource names as they are shown and fetched, queue tracks built from what the
//! player reports, the catalog entries asked for, and the playlists and pictures of the
//! library.
use crate::chars::{chars_of, same_text, string_of};
use crate::music::{PlaybackCommand, Track};
use crate::platform::{parse_field, parse_u64};
use crate::spotify_ids::{
    file_id_text, is_track_address, item_of, lower_hex, playlist_id_of, playlist_id_text, text_view,
    track_id_of, track_id_text,
};
use vstd::prelude::*;

verus! {

/// The address of an image: a `spotify:image:` name points into Spotify's image host; any
/// other text is already an address.
pub open spec fn image_address(url: Seq<char>) -> Seq<char> {
    let prefix = "spotify:image:"@;
    if prefix.len() <= url.len() && url.take(prefix.len() as int) == prefix {
        "https://i.scdn.co/image/"@ + url.skip(prefix.len() as int)
    } else {
        url
    }
}

/// Resolves a `spotify:image:` name to its image address, keeping other addresses as they are.
pub fn image_url(url: &str) -> (address: String)
    ensures
        address@ == image_address(url@),
{
    let text = chars_of(url);
    let prefix = chars_of("spotify:image:");
    let mut same = prefix.len() <= text.len();
    let mut index: usize = 0;
    while same && index < prefix.len()
        invariant
            prefix@ == "spotify:image:"@,
            text@ == url@,
            index <= prefix@.len(),
            same ==> prefix@.len() <= text@.len(),
            same ==> forall|i: int| 0 <= i < index ==> text@[i] == prefix@[i],
            !same ==> !(prefix@.len() <= text@.len() && text@.take(prefix@.len() as int)
                == prefix@),
        decreases (prefix@.len() - index) * 2 + (if same {
            1int
        } else {
            0int
        }),
    {
        if text[index] != prefix[index] {
            proof {
                if prefix@.len() <= text@.len() && text@.take(prefix@.len() as int) == prefix@ {
                    assert(text@.take(prefix@.len() as int)[index as int] == text@[index as int]);
                }
            }
            same = false;
        } else {
            index += 1;
        }
    }
    if !same {
        return string_of(&text);
    }
    proof {
        assert(text@.take(prefix@.len() as int) =~= prefix@);
    }
    let mut address = chars_of("https://i.scdn.co/image/");
    let ghost head = address@;
    let mut k: usize = prefix.len();
    while k < text.len()
        invariant
            prefix@.len() <= k <= text@.len(),
            address@ == head + text@.subrange(prefix@.len() as int, k as int),
        decreases text@.len() - k,
    {
        address.push(text[k]);
        k += 1;
        proof {
            assert(text@.subrange(prefix@.len() as int, k as int) =~= text@.subrange(
                prefix@.len() as int,
                k - 1,
            ).push(text@[k - 1]));
        }
    }
    proof {
        assert(text@.subrange(prefix@.len() as int, k as int) =~= text@.skip(prefix@.len() as int));
    }
    string_of(&address)
}

/// What the player reports of a queued track: its address and the metadata entries the bar
/// reads (`title`, `artist_name`, `album_title`, `image_url`, `image_large_url`,
/// `image_xlarge_url` and `duration`), each absent when the player gave none.
pub struct ProvidedTrack {
    pub uri: String,
    pub title: Option<String>,
    pub artist_name: Option<String>,
    pub album_title: Option<String>,
    pub image_url: Option<String>,
    pub image_large_url: Option<String>,
    pub image_xlarge_url: Option<String>,
    pub duration: Option<String>,
}

/// An album cover in the catalog: the hexadecimal id of its image file and its width.
pub struct CoverImage {
    pub file_id: String,
    pub width: i32,
}

/// What the catalog knows of a track.
pub struct CatalogTrack {
    pub name: String,
    pub original_title: String,
    pub artists: Vec<String>,
    pub album_name: String,
    pub cover_group: Vec<CoverImage>,
    pub covers: Vec<CoverImage>,
    pub duration: i32,
}

/// The side of the album art the bar shows, in pixels.
pub const ART_SIZE: i32 = 128;

/// A metadata entry that is present and not empty.
pub open spec fn filled(entry: Option<String>) -> Option<Seq<char>> {
    match entry {
        Some(text) => if text@.len() > 0 {
            Some(text@)
        } else {
            None
        },
        None => None,
    }
}

/// A metadata entry, or `fallback` when it is absent or empty.
pub open spec fn entry_or(entry: Option<String>, fallback: Seq<char>) -> Seq<char> {
    match filled(entry) {
        Some(text) => text,
        None => fallback,
    }
}

/// The names of the catalog's artists that are not empty, in order.
pub open spec fn named_artists(names: Seq<String>) -> Seq<Seq<char>>
    decreases names.len(),
{
    if names.len() == 0 {
        Seq::empty()
    } else if names.last()@.len() > 0 {
        named_artists(names.drop_last()).push(names.last()@)
    } else {
        named_artists(names.drop_last())
    }
}

/// The artists of a queued track: the catalog's, else the one the player names, if any.
pub open spec fn artists_of(provided: ProvidedTrack, catalog: Option<CatalogTrack>) -> Seq<Seq<char>> {
    let listed = match catalog {
        Some(entry) => named_artists(entry.artists@),
        None => Seq::empty(),
    };
    if listed.len() > 0 {
        listed
    } else {
        match filled(provided.artist_name) {
            Some(name) => seq![name],
            None => Seq::empty(),
        }
    }
}

/// The distance between a cover's width and the size the art is shown at.
pub open spec fn width_gap(width: i32) -> int {
    if width >= ART_SIZE {
        width - ART_SIZE
    } else {
        ART_SIZE - width
    }
}

/// Whether cover `c` is the one whose width is nearest the art size, the first of equally
/// near ones.
pub open spec fn best_cover(covers: Seq<CoverImage>, c: int) -> bool {
    &&& 0 <= c < covers.len()
    &&& forall|d: int| 0 <= d < covers.len() ==> width_gap(covers[c].width) <= width_gap(#[trigger] covers[d].width)
    &&& forall|d: int| 0 <= d < c ==> width_gap(covers[c].width) < width_gap(#[trigger] covers[d].width)
}

/// The image of a queued track: the first of the player's image entries that is filled,
/// resolved to an address; else the catalog cover nearest the art size (the album's cover
/// group first, then its covers); else none.
pub open spec fn image_of(provided: ProvidedTrack, catalog: Option<CatalogTrack>) -> Option<Seq<char>> {
    if filled(provided.image_url) is Some {
        Some(image_address(filled(provided.image_url)->0))
    } else if filled(provided.image_large_url) is Some {
        Some(image_address(filled(provided.image_large_url)->0))
    } else if filled(provided.image_xlarge_url) is Some {
        Some(image_address(filled(provided.image_xlarge_url)->0))
    } else {
        match catalog {
            Some(entry) => {
                let covers = entry.cover_group@ + entry.covers@;
                if covers.len() > 0 {
                    let c = choose|c: int| best_cover(covers, c);
                    Some("https://i.scdn.co/image/"@ + covers[c].file_id@)
                } else {
                    None
                }
            },
            None => None,
        }
    }
}

/// A decimal text read as `u32::from_str` reads it.
pub open spec fn parse_u32(text: Seq<char>) -> Option<u32> {
    match parse_u64(text) {
        Some(value) => if value <= u32::MAX {
            Some(value as u32)
        } else {
            None
        },
        None => None,
    }
}

/// The duration of a queued track: the player's `duration` entry when it reads as a number,
/// else the fallback, else the catalog's when it is not negative, else zero.
pub open spec fn duration_of(provided: ProvidedTrack, catalog: Option<CatalogTrack>, fallback: Option<u32>) -> u32 {
    let reported = match provided.duration {
        Some(text) => parse_u32(text@),
        None => None,
    };
    if reported is Some {
        reported->0
    } else if fallback is Some {
        fallback->0
    } else {
        match catalog {
            Some(entry) => if entry.duration >= 0 {
                entry.duration as u32
            } else {
                0
            },
            None => 0,
        }
    }
}

/// The views of a list of texts.
pub open spec fn text_views(texts: Seq<String>) -> Seq<Seq<char>> {
    texts.map_values(|text: String| text@)
}

/// The catalog entry, if any.
pub open spec fn entry_of(catalog: Option<&CatalogTrack>) -> Option<CatalogTrack> {
    match catalog {
        Some(entry) => Some(*entry),
        None => None,
    }
}

/// An entry if it is present and not empty.
fn filled_entry(entry: &Option<String>) -> (text: Option<String>)
    ensures
        match text {
            Some(t) => filled(*entry) == Some(t@),
            None => filled(*entry) is None,
        },
{
    match entry {
        Some(value) => if value.as_str().is_empty() {
            None
        } else {
            Some(value.clone())
        },
        None => None,
    }
}

/// The gap between a width and the art size.
fn gap_of(width: i32) -> (gap: u32)
    ensures
        gap == width_gap(width),
{
    if width >= ART_SIZE {
        (width as i64 - ART_SIZE as i64) as u32
    } else {
        (ART_SIZE as i64 - width as i64) as u32
    }
}

/// Whether cover `c` is the nearest among the first `k`, the first of equally near ones.
pub open spec fn best_so_far(covers: Seq<CoverImage>, c: int, k: int) -> bool {
    &&& 0 <= c < k
    &&& forall|d: int| 0 <= d < k ==> width_gap(covers[c].width) <= width_gap(#[trigger] covers[d].width)
    &&& forall|d: int| 0 <= d < c ==> width_gap(covers[c].width) < width_gap(#[trigger] covers[d].width)
}

/// The cover nearest the art size among the cover group and then the covers.
fn nearest_cover(group: &Vec<CoverImage>, covers: &Vec<CoverImage>) -> (found: Option<String>)
    ensures
        match found {
            Some(id) => group@.len() + covers@.len() > 0 && id@ == (group@ + covers@)[choose|c: int|
                best_cover(group@ + covers@, c)].file_id@,
            None => group@.len() + covers@.len() == 0,
        },
{
    let ghost all = group@ + covers@;
    // The best cover so far: whether it is in the group, and where.
    let mut best: Option<(bool, usize)> = None;
    let mut best_gap: u32 = 0;
    let ghost mut at: int = 0;
    let mut k: usize = 0;
    while k < group.len()
        invariant
            all == group@ + covers@,
            k <= group@.len(),
            match best {
                Some((in_group, c)) => in_group && at == c && best_so_far(all, at, k as int) && best_gap
                    == width_gap(all[at].width),
                None => k == 0,
            },
        decreases group@.len() - k,
    {
        assert(all[k as int] == group@[k as int]);
        let gap = gap_of(group[k].width);
        let closer = match best {
            None => true,
            Some(_) => gap < best_gap,
        };
        if closer {
            best = Some((true, k));
            best_gap = gap;
            proof {
                at = k as int;
            }
        }
        k += 1;
    }
    let mut j: usize = 0;
    while j < covers.len()
        invariant
            all == group@ + covers@,
            j <= covers@.len(),
            match best {
                Some((in_group, c)) => (if in_group {
                    at == c && c < group@.len()
                } else {
                    at == group@.len() + c && c < j
                }) && best_so_far(all, at, group@.len() + j) && best_gap == width_gap(all[at].width),
                None => group@.len() + j == 0,
            },
        decreases covers@.len() - j,
    {
        assert(all[group@.len() + j] == covers@[j as int]);
        let gap = gap_of(covers[j].width);
        let closer = match best {
            None => true,
            Some(_) => gap < best_gap,
        };
        if closer {
            best = Some((false, j));
            best_gap = gap;
            proof {
                at = group@.len() + j;
            }
        }
        j += 1;
    }
    match best {
        Some((in_group, c)) => {
            proof {
                assert(best_cover(all, at));
                let chosen = choose|x: int| best_cover(all, x);
                if chosen < at {
                    assert(width_gap(all[at].width) < width_gap(all[chosen].width));
                } else if at < chosen {
                    assert(width_gap(all[chosen].width) < width_gap(all[at].width));
                }
            }
            let id = if in_group {
                assert(all[at] == group@[c as int]);
                group[c].file_id.clone()
            } else {
                assert(all[at] == covers@[c as int]);
                covers[c].file_id.clone()
            };
            Some(id)
        },
        None => None,
    }
}

/// `track` is the queue track built from what the player reports and, when the catalog knows
/// the track, what the catalog holds, with the id that the track's address names; and
/// `interaction_id` is the card the track gets.
pub open spec fn built_from(
    track: Track,
    provided: ProvidedTrack,
    catalog: Option<CatalogTrack>,
    fallback_duration_ms: Option<u32>,
    interaction_id: u64,
) -> bool {
    &&& text_view(track.id) == track_id_text(provided.uri@)
    &&& track.uri@ == provided.uri@
    &&& track.original_title == (match catalog {
        Some(entry) => Some(entry.original_title),
        None => None,
    })
    &&& track.name@ == (match catalog {
        Some(entry) if entry.name@.len() > 0 => entry.name@,
        _ => entry_or(provided.title, Seq::empty()),
    })
    &&& text_views(track.artists@) == artists_of(provided, catalog)
    &&& track.album@ == entry_or(
        provided.album_title,
        match catalog {
            Some(entry) => entry.album_name@,
            None => Seq::empty(),
        },
    )
    &&& match track.image {
        Some(image) => image_of(provided, catalog) == Some(image@),
        None => image_of(provided, catalog) is None,
    }
    &&& track.duration_ms == duration_of(provided, catalog, fallback_duration_ms)
    &&& track.interaction_id == interaction_id
}

/// Builds a queue track from what the player reports and, when the catalog knows the track,
/// what the catalog holds; `interaction_id` is the card the new track gets.
pub fn track_from_provided(
    provided: &ProvidedTrack,
    catalog: Option<&CatalogTrack>,
    fallback_duration_ms: Option<u32>,
    interaction_id: u64,
) -> (track: Track)
    ensures
        built_from(track, *provided, entry_of(catalog), fallback_duration_ms, interaction_id),
{
    let mut artists: Vec<String> = Vec::new();
    match catalog {
        Some(known) => {
            let mut k: usize = 0;
            while k < known.artists.len()
                invariant
                    k <= known.artists@.len(),
                    text_views(artists@) == named_artists(known.artists@.take(k as int)),
                decreases known.artists@.len() - k,
            {
                proof {
                    assert(known.artists@.take(k + 1).drop_last() =~= known.artists@.take(k as int));
                    assert(known.artists@.take(k + 1).last() == known.artists@[k as int]);
                }
                if !known.artists[k].as_str().is_empty() {
                    let ghost before = artists@;
                    artists.push(known.artists[k].clone());
                    proof {
                        assert(text_views(artists@) =~= text_views(before).push(known.artists@[k as int]@));
                    }
                }
                k += 1;
            }
            proof {
                assert(known.artists@.take(k as int) =~= known.artists@);
            }
        },
        None => {},
    }
    if artists.len() == 0 {
        match filled_entry(&provided.artist_name) {
            Some(name) => {
                artists.push(name);
                proof {
                    assert(text_views(artists@) =~= seq![name@]);
                }
            },
            None => {
                proof {
                    assert(text_views(artists@) =~= Seq::<Seq<char>>::empty());
                }
            },
        }
    }
    let name = match catalog {
        Some(known) if !known.name.as_str().is_empty() => known.name.clone(),
        _ => match filled_entry(&provided.title) {
            Some(title) => title,
            None => String::new(),
        },
    };
    let album = match filled_entry(&provided.album_title) {
        Some(title) => title,
        None => match catalog {
            Some(known) => known.album_name.clone(),
            None => String::new(),
        },
    };
    let image = match filled_entry(&provided.image_url) {
        Some(url) => Some(image_url(url.as_str())),
        None => match filled_entry(&provided.image_large_url) {
            Some(url) => Some(image_url(url.as_str())),
            None => match filled_entry(&provided.image_xlarge_url) {
                Some(url) => Some(image_url(url.as_str())),
                None => match catalog {
                    Some(known) => match nearest_cover(&known.cover_group, &known.covers) {
                        Some(file_id) => {
                            let mut address = String::from_str("https://i.scdn.co/image/");
                            address.append(file_id.as_str());
                            Some(address)
                        },
                        None => None,
                    },
                    None => None,
                },
            },
        },
    };
    let reported = match &provided.duration {
        Some(text) => match parse_field(&chars_of(text.as_str())) {
            Some(value) => if value <= u32::MAX as u64 {
                Some(value as u32)
            } else {
                None
            },
            None => None,
        },
        None => None,
    };
    let duration_ms = match reported {
        Some(value) => value,
        None => match fallback_duration_ms {
            Some(value) => value,
            None => match catalog {
                Some(known) => if known.duration >= 0 {
                    known.duration as u32
                } else {
                    0
                },
                None => 0,
            },
        },
    };
    Track {
        id: track_id_of(provided.uri.as_str()),
        uri: provided.uri.clone(),
        name,
        original_title: match catalog {
            Some(known) => Some(known.original_title.clone()),
            None => None,
        },
        artists,
        album,
        image,
        duration_ms,
        interaction_id,
    }
}

/// The names of the playlists that stand for star ratings, from half a star to five.
pub open spec fn rating_names() -> Seq<Seq<char>> {
    seq!["0.5"@, "1.0"@, "1.5"@, "2.0"@, "2.5"@, "3.0"@, "3.5"@, "4.0"@, "4.5"@, "5.0"@]
}

/// The place of the first rating name from `k` on that is `name`.
pub open spec fn rating_position(name: Seq<char>, k: int) -> Option<int>
    decreases 10 - k,
{
    if k < 0 || k >= 10 {
        None
    } else if rating_names()[k] == name {
        Some(k)
    } else {
        rating_position(name, k + 1)
    }
}

/// The rating a playlist stands for: the place of its name among the rating names, when
/// ratings are enabled.
pub open spec fn rating_of(name: Seq<char>, ratings_enabled: bool) -> Option<u8> {
    if ratings_enabled {
        match rating_position(name, 0) {
            Some(i) => Some(i as u8),
            None => None,
        }
    } else {
        None
    }
}

/// The rating a playlist with this name stands for.
pub fn playlist_rating(name: &str, ratings_enabled: bool) -> (rating: Option<u8>)
    ensures
        rating == rating_of(name@, ratings_enabled),
{
    if !ratings_enabled {
        return None;
    }
    let names = ["0.5", "1.0", "1.5", "2.0", "2.5", "3.0", "3.5", "4.0", "4.5", "5.0"];
    assert(names@.len() == 10);
    let mut k: usize = 0;
    while k < 10
        invariant
            k <= 10,
            names@.len() == 10,
            forall|i: int| 0 <= i < 10 ==> (#[trigger] names@[i])@ == rating_names()[i],
            rating_position(name@, 0) == rating_position(name@, k as int),
            ratings_enabled,
        decreases 10 - k,
    {
        if same_text(names[k], name) {
            proof {
                assert(names@[k as int]@ == rating_names()[k as int]);
                assert(rating_names()[k as int] == name@);
                assert(rating_position(name@, k as int) == Some(k as int));
            }
            return Some(k as u8);
        }
        proof {
            assert(names@[k as int]@ == rating_names()[k as int]);
            assert(rating_position(name@, k as int) == rating_position(name@, k + 1));
        }
        k += 1;
    }
    None
}

/// Whether a playlist of the library is loaded: it is one of the configured targets, or it
/// stands for a rating.
pub open spec fn loads_playlist(name: Seq<char>, targets: Seq<String>, ratings_enabled: bool) -> bool {
    (exists|i: int| 0 <= i < targets.len() && (#[trigger] targets[i])@ == name) || rating_of(name, ratings_enabled)
        is Some
}

/// Whether the bar loads the playlist with this name.
pub fn wanted_playlist(name: &str, targets: &Vec<String>, ratings_enabled: bool) -> (wanted: bool)
    ensures
        wanted == loads_playlist(name@, targets@, ratings_enabled),
{
    let mut k: usize = 0;
    while k < targets.len()
        invariant
            k <= targets@.len(),
            forall|i: int| 0 <= i < k ==> (#[trigger] targets@[i])@ != name@,
        decreases targets@.len() - k,
    {
        if same_text(targets[k].as_str(), name) {
            return true;
        }
        k += 1;
    }
    playlist_rating(name, ratings_enabled).is_some()
}

/// A request to the player that Spotify Connect forwards to the active device.
#[derive(Debug, PartialEq, Eq)]
pub enum PlayerRequest {
    /// Start playing a context (a playlist or the liked songs), shuffled.
    Play(String),
    Resume,
    Pause,
    SeekTo(u32),
    SkipNext,
    SkipPrevious,
}

impl PlayerRequest {
    /// The Connect endpoint of the request.
    pub open spec fn endpoint_text(&self) -> Seq<char> {
        match self {
            PlayerRequest::Play(_) => "play"@,
            PlayerRequest::Resume => "resume"@,
            PlayerRequest::Pause => "pause"@,
            PlayerRequest::SeekTo(_) => "seek_to"@,
            PlayerRequest::SkipNext => "skip_next"@,
            PlayerRequest::SkipPrevious => "skip_prev"@,
        }
    }

    /// The Connect endpoint of the request.
    pub fn endpoint(&self) -> (name: &'static str)
        ensures
            name@ == self.endpoint_text(),
    {
        match self {
            PlayerRequest::Play(_) => "play",
            PlayerRequest::Resume => "resume",
            PlayerRequest::Pause => "pause",
            PlayerRequest::SeekTo(_) => "seek_to",
            PlayerRequest::SkipNext => "skip_next",
            PlayerRequest::SkipPrevious => "skip_prev",
        }
    }
}

/// The context a playlist is played from: the playlist, or the user's liked songs.
pub open spec fn context_uri(playlist: Option<Seq<char>>, username: Seq<char>) -> Seq<char> {
    match playlist {
        Some(id) => "spotify:playlist:"@ + id,
        None => "spotify:user:"@ + username + ":collection"@,
    }
}

/// The Connect requests a playback command becomes, and how many times it is sent: a skip is
/// sent once per track skipped.  `None` for library updates, which go elsewhere.
pub fn player_request(command: &PlaybackCommand, username: &str) -> (request: Option<(PlayerRequest, u8)>)
    ensures
        match command {
            PlaybackCommand::PlayPlaylist(id) => request matches Some((PlayerRequest::Play(context), 1))
                && context@ == context_uri(
                match id {
                    Some(i) => Some(i@),
                    None => None,
                },
                username@,
            ),
            PlaybackCommand::SetPlaying(playing) => request == Some(
                (if *playing {
                    PlayerRequest::Resume
                } else {
                    PlayerRequest::Pause
                }, 1u8),
            ),
            PlaybackCommand::Seek(position) => request == Some((PlayerRequest::SeekTo(*position), 1u8)),
            PlaybackCommand::Skip(offset) => request == Some(
                (if *offset > 0 {
                    PlayerRequest::SkipNext
                } else {
                    PlayerRequest::SkipPrevious
                }, (if *offset < 0 {
                    -*offset
                } else {
                    *offset as int
                }) as u8),
            ),
            PlaybackCommand::UpdateLibrary { .. } => request is None,
        },
{
    match command {
        PlaybackCommand::PlayPlaylist(id) => {
            let context = match id {
                Some(id) => {
                    let mut uri = String::from_str("spotify:playlist:");
                    uri.append(id.as_str());
                    uri
                },
                None => {
                    let mut uri = String::from_str("spotify:user:");
                    uri.append(username);
                    uri.append(":collection");
                    uri
                },
            };
            Some((PlayerRequest::Play(context), 1))
        },
        PlaybackCommand::SetPlaying(playing) => Some(
            (if *playing {
                PlayerRequest::Resume
            } else {
                PlayerRequest::Pause
            }, 1),
        ),
        PlaybackCommand::Seek(position) => Some((PlayerRequest::SeekTo(*position), 1)),
        PlaybackCommand::Skip(offset) => {
            let count: u8 = if *offset < 0 {
                (-(*offset as i16)) as u8
            } else {
                *offset as u8
            };
            Some(
                (if *offset > 0 {
                    PlayerRequest::SkipNext
                } else {
                    PlayerRequest::SkipPrevious
                }, count),
            )
        },
        PlaybackCommand::UpdateLibrary { .. } => None,
    }
}

/// Whether a reported queue entry marks the end of a context rather than naming a track.
pub open spec fn is_delimiter(uri: Seq<char>) -> bool {
    let mark = ":delimiter"@;
    uri.len() >= mark.len() && uri.skip(uri.len() - mark.len()) == mark
}

/// How many of the first `n` reported entries name tracks.
pub open spec fn tracks_before(provided: Seq<ProvidedTrack>, n: int) -> nat
    decreases n,
{
    if n <= 0 {
        0
    } else {
        tracks_before(provided, n - 1) + if is_delimiter(provided[n - 1].uri@) {
            0nat
        } else {
            1nat
        }
    }
}

/// The length the player reports for the entry at `position`: only the entry that follows the
/// played ones gets it, and only when it fits in a `u32`.
pub open spec fn reported_length(position: int, current: int, duration: i64) -> Option<u32> {
    if position == current && 0 <= duration <= u32::MAX {
        Some(duration as u32)
    } else {
        None
    }
}

/// Whether the address ends in the context delimiter mark.
fn ends_in_delimiter(uri: &str) -> (found: bool)
    ensures
        found == is_delimiter(uri@),
{
    let text = chars_of(uri);
    let mark = chars_of(":delimiter");
    if mark.len() > text.len() {
        return false;
    }
    let at = text.len() - mark.len();
    let found = crate::chars::occurs_at(&text, at, &mark);
    proof {
        assert(text@.skip(at as int).take(mark@.len() as int) =~= text@.skip(at as int));
    }
    found
}

proof fn lemma_count_step(provided: Seq<ProvidedTrack>, n: int)
    requires
        0 <= n,
    ensures
        tracks_before(provided, n + 1) == tracks_before(provided, n) + if is_delimiter(
            provided[n].uri@,
        ) {
            0nat
        } else {
            1nat
        },
{
}

proof fn lemma_tracks_grow(provided: Seq<ProvidedTrack>, i: int, j: int)
    requires
        0 <= i <= j,
    ensures
        tracks_before(provided, i) <= tracks_before(provided, j),
        i < j && !is_delimiter(provided[i].uri@) ==> tracks_before(provided, i) < tracks_before(
            provided,
            j,
        ),
    decreases j - i,
{
    if i < j {
        lemma_tracks_grow(provided, i, j - 1);
        if i < j - 1 {
            lemma_tracks_grow(provided, i + 1, j);
        }
    }
}

/// The queue a player snapshot describes, and the position of the playing entry in it.
///
/// `provided` holds what the player reports, the played entries first (`previous` of them), then
/// the playing one and those that follow; `catalog` holds, entry by entry, what the catalog
/// knows of it.  Delimiter entries are left out;
/// each track gets the next card from `first_interaction` on, and the player's `duration`
/// serves as the length of the entry right after the played ones.
pub fn queue_from_snapshot(
    provided: &Vec<ProvidedTrack>,
    previous: usize,
    duration: i64,
    catalog: &Vec<Option<CatalogTrack>>,
    first_interaction: u64,
) -> (snapshot: (Vec<Track>, usize))
    requires
        previous <= provided@.len(),
        catalog@.len() == provided@.len(),
        first_interaction + provided@.len() <= u64::MAX,
    ensures
        snapshot.1 == tracks_before(provided@, previous as int),
        snapshot.0@.len() == tracks_before(provided@, provided@.len() as int),
        snapshot.1 <= snapshot.0@.len(),
        forall|i: int|
            0 <= i < provided@.len() && !is_delimiter(provided@[i].uri@) ==> built_from(
                snapshot.0@[#[trigger] tracks_before(provided@, i) as int],
                provided@[i],
                catalog@[i],
                reported_length(i, previous as int, duration),
                (first_interaction + tracks_before(provided@, i)) as u64,
            ),
{
    let mut queue: Vec<Track> = Vec::new();
    let mut index: usize = 0;
    let mut k: usize = 0;
    while k < provided.len()
        invariant
            k <= provided@.len(),
            previous <= provided@.len(),
            catalog@.len() == provided@.len(),
                first_interaction + provided@.len() <= u64::MAX,
            queue@.len() == tracks_before(provided@, k as int),
            tracks_before(provided@, k as int) <= k,
            index == tracks_before(provided@, if k < previous { k as int } else { previous as int }),
            forall|i: int|
                0 <= i < k && !is_delimiter(provided@[i].uri@) ==> built_from(
                    queue@[#[trigger] tracks_before(provided@, i) as int],
                    provided@[i],
                    catalog@[i],
                    reported_length(i, previous as int, duration),
                    (first_interaction + tracks_before(provided@, i)) as u64,
                ),
        decreases provided@.len() - k,
    {
        proof {
            lemma_count_step(provided@, k as int);
        }
        if !ends_in_delimiter(provided[k].uri.as_str()) {
            let fallback: Option<u32> = if k == previous && 0 <= duration && duration <= 4294967295 {
                Some(duration as u32)
            } else {
                None
            };
            let card: u64 = first_interaction + queue.len() as u64;
            let track = track_from_provided(&provided[k], catalog[k].as_ref(), fallback, card);
            let ghost before = queue@;
            queue.push(track);
            proof {
                assert forall|i: int|
                    0 <= i < k + 1 && !is_delimiter(provided@[i].uri@) implies built_from(
                    queue@[#[trigger] tracks_before(provided@, i) as int],
                    provided@[i],
                    catalog@[i],
                    reported_length(i, previous as int, duration),
                    (first_interaction + tracks_before(provided@, i)) as u64,
                ) by {
                    if i < k {
                        lemma_tracks_grow(provided@, i, k as int);
                        assert(queue@[tracks_before(provided@, i) as int] == before[tracks_before(
                            provided@,
                            i,
                        ) as int]);
                    }
                }
            }
            if k < previous {
                index += 1;
            }
        }
        k += 1;
    }
    proof {
        lemma_tracks_grow(provided@, previous as int, provided@.len() as int);
    }
    (queue, index)
}

/// Texts by their characters.
pub open spec fn texts(list: Seq<String>) -> Seq<Seq<char>> {
    list.map_values(|text: String| text@)
}

/// The cached addresses that stay: those the player still lists, in cache order.
pub open spec fn still_listed(known: Seq<Seq<char>>, listed: Seq<Seq<char>>) -> Seq<Seq<char>> {
    known.filter(|uri: Seq<char>| listed.contains(uri))
}

/// The track addresses whose catalog entries are asked for, reading the listed addresses in
/// order: a track address not cached yet and not asked for before in the same reading.
pub open spec fn metadata_wanted(listed: Seq<Seq<char>>, known: Seq<Seq<char>>) -> Seq<Seq<char>>
    decreases listed.len(),
{
    if listed.len() == 0 {
        Seq::empty()
    } else {
        let before = metadata_wanted(listed.drop_last(), known);
        let uri = listed.last();
        if item_of(uri) is Track && !(known + before).contains(uri) {
            before.push(uri)
        } else {
            before
        }
    }
}

/// Whether `text` is in `list`.
fn listed_in(list: &Vec<String>, text: &str) -> (found: bool)
    ensures
        found == texts(list@).contains(text@),
{
    let mut k: usize = 0;
    while k < list.len()
        invariant
            k <= list@.len(),
            forall|i: int| 0 <= i < k ==> (#[trigger] list@[i])@ != text@,
        decreases list@.len() - k,
    {
        if same_text(list[k].as_str(), text) {
            proof {
                assert(texts(list@)[k as int] == text@);
            }
            return true;
        }
        k += 1;
    }
    proof {
        if texts(list@).contains(text@) {
            let i = choose|i: int| 0 <= i < texts(list@).len() && texts(list@)[i] == text@;
            assert(list@[i]@ == text@);
        }
    }
    false
}

/// Brings the cache of catalog entries in line with the addresses the player lists: forgets
/// the addresses it no longer lists, then marks as asked for, and returns, each listed track
/// address that the cache does not hold, once and in order.
pub fn metadata_requests(listed: &Vec<String>, known: &mut Vec<String>) -> (requested: Vec<String>)
    ensures
        texts(requested@) == metadata_wanted(texts(listed@), still_listed(texts(old(known)@), texts(listed@))),
        texts(final(known)@) == still_listed(texts(old(known)@), texts(listed@)) + texts(requested@),
{
    let ghost listed_view = texts(listed@);
    let mut kept: Vec<String> = Vec::new();
    let mut k: usize = 0;
    while k < known.len()
        invariant
            k <= known@.len(),
            listed_view == texts(listed@),
            texts(kept@) == still_listed(texts(known@.take(k as int)), listed_view),
        decreases known@.len() - k,
    {
        proof {
            reveal(Seq::filter);
            assert(texts(known@.take(k + 1)).drop_last() =~= texts(known@.take(k as int)));
            assert(texts(known@.take(k + 1)).last() == known@[k as int]@);
        }
        if listed_in(listed, known[k].as_str()) {
            let ghost before = kept@;
            kept.push(known[k].clone());
            proof {
                assert(texts(kept@) =~= texts(before).push(known@[k as int]@));
            }
        }
        k += 1;
    }
    proof {
        assert(known@.take(k as int) =~= known@);
    }
    let ghost base = texts(kept@);
    let mut requested: Vec<String> = Vec::new();
    let mut j: usize = 0;
    while j < listed.len()
        invariant
            j <= listed@.len(),
            listed_view == texts(listed@),
            base == still_listed(texts(old(known)@), listed_view),
            texts(requested@) == metadata_wanted(listed_view.take(j as int), base),
            texts(kept@) == base + texts(requested@),
        decreases listed@.len() - j,
    {
        proof {
            assert(listed_view.take(j + 1).drop_last() =~= listed_view.take(j as int));
            assert(listed_view.take(j + 1).last() == listed@[j as int]@);
        }
        let uri = listed[j].as_str();
        if is_track_address(uri) && !listed_in(&kept, uri) {
            let ghost before = requested@;
            let ghost had = kept@;
            kept.push(listed[j].clone());
            requested.push(listed[j].clone());
            proof {
                assert(texts(requested@) =~= texts(before).push(listed@[j as int]@));
                assert(texts(kept@) =~= texts(had).push(listed@[j as int]@));
            }
        }
        j += 1;
    }
    proof {
        assert(listed_view.take(j as int) =~= listed_view);
    }
    *known = kept;
    requested
}

/// The text that bytes spell when they are valid UTF-8 (well-formed sequences, no overlong
/// encodings, no surrogates, nothing past U+10FFFF), and `None` otherwise.
pub open spec fn utf8_text(bytes: Seq<u8>) -> Option<Seq<char>> {
    if vstd::utf8::valid_utf8(bytes) {
        Some(vstd::utf8::decode_utf8(bytes))
    } else {
        None
    }
}

/// `std::str::from_utf8`: the text the bytes spell, or nothing when they are not valid UTF-8.
#[verifier::external_body]
fn utf8_of(bytes: &Vec<u8>) -> (text: Option<String>)
    ensures
        text_view(text) == utf8_text(bytes@),
{
    std::str::from_utf8(bytes.as_slice()).ok().map(|text| text.to_string())
}

/// The last address that is not empty.
pub open spec fn last_filled(urls: Seq<Seq<char>>) -> Option<Seq<char>>
    decreases urls.len(),
{
    if urls.len() == 0 {
        None
    } else if urls.last().len() > 0 {
        Some(urls.last())
    } else {
        last_filled(urls.drop_last())
    }
}

/// The image id a playlist's picture field holds: the name after `spotify:image:` when the
/// bytes spell such an address, else the hexadecimal id of a 20-byte raw file id.
pub open spec fn picture_id(picture: Seq<u8>) -> Option<Seq<char>> {
    let prefix = "spotify:image:"@;
    match utf8_text(picture) {
        Some(text) if prefix.len() <= text.len() && text.take(prefix.len() as int) == prefix => Some(
            text.skip(prefix.len() as int),
        ),
        _ => if picture.len() == 20 {
            Some(lower_hex(picture))
        } else {
            None
        },
    }
}

/// The image address of a playlist: the last sized picture that is not empty, else the one its
/// picture field names.
pub open spec fn playlist_picture(urls: Seq<Seq<char>>, picture: Seq<u8>) -> Option<Seq<char>> {
    match last_filled(urls) {
        Some(url) => Some(image_address(url)),
        None => match picture_id(picture) {
            Some(id) => Some("https://i.scdn.co/image/"@ + id),
            None => None,
        },
    }
}

/// The characters of `text` from `start` on.
fn chars_from(text: &Vec<char>, start: usize) -> (rest: Vec<char>)
    requires
        start <= text@.len(),
    ensures
        rest@ == text@.skip(start as int),
{
    let mut rest: Vec<char> = Vec::new();
    let mut k: usize = start;
    while k < text.len()
        invariant
            start <= k <= text@.len(),
            rest@ == text@.subrange(start as int, k as int),
        decreases text@.len() - k,
    {
        rest.push(text[k]);
        proof {
            assert(rest@ =~= text@.subrange(start as int, k + 1));
        }
        k += 1;
    }
    proof {
        assert(rest@ =~= text@.skip(start as int));
    }
    rest
}

/// The image id of a picture field.
fn picture_name(picture: &Vec<u8>) -> (id: Option<String>)
    ensures
        text_view(id) == picture_id(picture@),
{
    let prefix = chars_of("spotify:image:");
    match utf8_of(picture) {
        Some(text) => {
            let chars = chars_of(text.as_str());
            if prefix.len() <= chars.len() && crate::chars::occurs_at(&chars, 0, &prefix) {
                proof {
                    assert(chars@.skip(0) =~= chars@);
                }
                return Some(string_of(&chars_from(&chars, prefix.len())));
            }
            proof {
                assert(chars@.skip(0) =~= chars@);
            }
        },
        None => {},
    }
    if picture.len() == 20 {
        Some(file_id_text(picture))
    } else {
        None
    }
}

/// The image address of a playlist, from its sized pictures and its picture field.
pub fn playlist_image(urls: &Vec<String>, picture: &Vec<u8>) -> (image: Option<String>)
    ensures
        text_view(image) == playlist_picture(texts(urls@), picture@),
{
    let mut k: usize = urls.len();
    proof {
        assert(urls@.take(k as int) =~= urls@);
    }
    while k > 0
        invariant
            k <= urls@.len(),
            last_filled(texts(urls@)) == last_filled(texts(urls@.take(k as int))),
        decreases k,
    {
        proof {
            assert(texts(urls@.take(k as int)).drop_last() =~= texts(urls@.take(k - 1)));
            assert(texts(urls@.take(k as int)).last() == urls@[k - 1]@);
        }
        if !urls[k - 1].as_str().is_empty() {
            return Some(image_url(urls[k - 1].as_str()));
        }
        k -= 1;
    }
    proof {
        assert(texts(urls@.take(0)) =~= Seq::<Seq<char>>::empty());
    }
    match picture_name(picture) {
        Some(id) => {
            let mut address = String::from_str("https://i.scdn.co/image/");
            address.append(id.as_str());
            Some(address)
        },
        None => None,
    }
}

/// Which root-list entry the bar loads as a playlist: one whose address names a playlist and
/// whose name is a target or a rating; gives the playlist's id and the rating it stands for.
pub fn playlist_choice(uri: &str, name: &str, targets: &Vec<String>, ratings_enabled: bool) -> (choice:
    Option<(String, Option<u8>)>)
    ensures
        match choice {
            Some((id, rating)) => {
                &&& playlist_id_text(uri@) == Some(id@)
                &&& rating == rating_of(name@, ratings_enabled)
                &&& loads_playlist(name@, targets@, ratings_enabled)
            },
            None => playlist_id_text(uri@) is None || !loads_playlist(name@, targets@, ratings_enabled),
        },
{
    match playlist_id_of(uri) {
        Some(id) => {
            if wanted_playlist(name, targets, ratings_enabled) {
                Some((id, playlist_rating(name, ratings_enabled)))
            } else {
                None
            }
        },
        None => None,
    }
}

proof fn lemma_wanted_listed(listed: Seq<Seq<char>>, known: Seq<Seq<char>>)
    ensures
        forall|k: int|
            0 <= k < metadata_wanted(listed, known).len() ==> listed.contains(
                #[trigger] metadata_wanted(listed, known)[k],
            ),
    decreases listed.len(),
{
    if listed.len() > 0 {
        lemma_wanted_listed(listed.drop_last(), known);
        let before = metadata_wanted(listed.drop_last(), known);
        assert forall|k: int|
            0 <= k < metadata_wanted(listed, known).len() implies listed.contains(
            #[trigger] metadata_wanted(listed, known)[k],
        ) by {
            if k < before.len() {
                assert(metadata_wanted(listed, known)[k] == before[k]);
                assert(listed.drop_last().contains(before[k]));
                let j = choose|j: int| 0 <= j < listed.drop_last().len() && listed.drop_last()[j] == before[k];
                assert(listed[j] == before[k]);
            } else {
                assert(metadata_wanted(listed, known)[k] == listed[listed.len() - 1]);
            }
        }
    }
}

proof fn lemma_wanted_covers(listed: Seq<Seq<char>>, known: Seq<Seq<char>>)
    ensures
        forall|i: int|
            0 <= i < listed.len() && item_of(#[trigger] listed[i]) is Track ==> (known
                + metadata_wanted(listed, known)).contains(listed[i]),
    decreases listed.len(),
{
    if listed.len() > 0 {
        let rest = listed.drop_last();
        lemma_wanted_covers(rest, known);
        let before = metadata_wanted(rest, known);
        let after = metadata_wanted(listed, known);
        assert forall|i: int|
            0 <= i < listed.len() && item_of(#[trigger] listed[i]) is Track implies (known
            + after).contains(listed[i]) by {
            if i < listed.len() - 1 {
                assert(rest[i] == listed[i]);
                assert((known + before).contains(rest[i]));
                let j = choose|j: int| 0 <= j < (known + before).len() && (known + before)[j] == rest[i];
                assert((known + after)[j] == (known + before)[j]);
            } else {
                if !(known + before).contains(listed[i]) {
                    assert((known + after)[(known + before).len() as int] == listed[i]);
                } else {
                    let j = choose|j: int| 0 <= j < (known + before).len() && (known + before)[j] == listed[i];
                    assert((known + after)[j] == (known + before)[j]);
                }
            }
        }
    }
}

proof fn lemma_wanted_none(listed: Seq<Seq<char>>, known: Seq<Seq<char>>)
    requires
        forall|i: int| 0 <= i < listed.len() && item_of(#[trigger] listed[i]) is Track ==> known.contains(listed[i]),
    ensures
        metadata_wanted(listed, known) == Seq::<Seq<char>>::empty(),
    decreases listed.len(),
{
    if listed.len() > 0 {
        let rest = listed.drop_last();
        assert forall|i: int| 0 <= i < rest.len() && item_of(#[trigger] rest[i]) is Track implies known.contains(
            rest[i],
        ) by {
            assert(rest[i] == listed[i]);
        }
        lemma_wanted_none(rest, known);
        assert(known + Seq::<Seq<char>>::empty() =~= known);
        if item_of(listed.last()) is Track {
            assert(listed.last() == listed[listed.len() - 1]);
        }
    }
}

proof fn lemma_filter_keeps_all(known: Seq<Seq<char>>, listed: Seq<Seq<char>>)
    requires
        forall|k: int| 0 <= k < known.len() ==> listed.contains(#[trigger] known[k]),
    ensures
        still_listed(known, listed) == known,
    decreases known.len(),
{
    reveal(Seq::filter);
    if known.len() > 0 {
        let rest = known.drop_last();
        assert forall|k: int| 0 <= k < rest.len() implies listed.contains(#[trigger] rest[k]) by {
            assert(rest[k] == known[k]);
        }
        lemma_filter_keeps_all(rest, listed);
        assert(listed.contains(known[known.len() - 1]));
        assert(rest.push(known.last()) =~= known);
    }
}

/// Asking for catalog entries twice with the same listing asks for nothing the second time and
/// leaves the cache as the first call left it: each track is asked for once.
pub proof fn lemma_requests_settle(listed: Seq<Seq<char>>, known: Seq<Seq<char>>)
    ensures
        ({
            let kept = still_listed(known, listed);
            let after = kept + metadata_wanted(listed, kept);
            &&& still_listed(after, listed) == after
            &&& metadata_wanted(listed, still_listed(after, listed)) == Seq::<Seq<char>>::empty()
        }),
{
    let kept = still_listed(known, listed);
    let wanted = metadata_wanted(listed, kept);
    let after = kept + wanted;
    lemma_wanted_listed(listed, kept);
    lemma_wanted_covers(listed, kept);
    assert forall|k: int| 0 <= k < after.len() implies listed.contains(#[trigger] after[k]) by {
        if k < kept.len() {
            known.lemma_filter_pred(|uri: Seq<char>| listed.contains(uri), k);
        } else {
            assert(after[k] == wanted[k - kept.len()]);
        }
    }
    lemma_filter_keeps_all(after, listed);
    lemma_wanted_none(listed, after);
}

} // verus!
