//! Local media players seen over MPRIS: which of them the bar follows, and the track each
//! one reports.
use crate::chars::{chars_of, same_text};
use crate::launcher::{contains_text, starts_with, text_contains};
use crate::music::Track;
use vstd::prelude::*;
use vstd::string::*;

verus! {

/// What `url::Url::parse` and then `Url::host_str` give for a text: the host of the URL, or
/// `None` when the text is not a URL or the URL has no host.
pub uninterp spec fn url_host(text: Seq<char>) -> Option<Seq<char>>;

/// Calls `url::Url::parse` and, when it succeeds, `Url::host_str`.  The host depends on the
/// text alone; which host a text has is left to the name `url_host`.
#[verifier::external_body]
fn host_of(text: &str) -> (host: Option<String>)
    ensures
        match host {
            Some(name) => url_host(text@) == Some(name@),
            None => url_host(text@) is None,
        },
{
    url::Url::parse(text).ok().and_then(|url| url.host_str().map(str::to_owned))
}

/// A character lowercased if it is an ASCII uppercase letter, as `char::to_ascii_lowercase`
/// does.
pub open spec fn ascii_lower(c: char) -> char {
    if 'A' <= c <= 'Z' {
        ((c as u8) + 32) as char
    } else {
        c
    }
}

/// A text with its ASCII uppercase letters lowercased, as `str::to_ascii_lowercase` does.
pub open spec fn ascii_lowercase(text: Seq<char>) -> Seq<char> {
    text.map_values(|c: char| ascii_lower(c))
}

/// Lowercases the ASCII letters of a text.
fn to_ascii_lowercase(text: &str) -> (lower: Vec<char>)
    ensures
        lower@ == ascii_lowercase(text@),
{
    let chars = chars_of(text);
    let mut lower: Vec<char> = Vec::new();
    let mut k: usize = 0;
    while k < chars.len()
        invariant
            chars@ == text@,
            k <= chars@.len(),
            lower@ == ascii_lowercase(chars@.take(k as int)),
        decreases chars@.len() - k,
    {
        let c = chars[k];
        let l = if 'A' <= c && c <= 'Z' {
            ((c as u8) + 32) as char
        } else {
            c
        };
        lower.push(l);
        k += 1;
        proof {
            assert(ascii_lowercase(chars@.take(k as int)) =~= ascii_lowercase(chars@.take(k - 1)).push(
                ascii_lower(c),
            ));
        }
    }
    assert(chars@.take(k as int) =~= chars@);
    lower
}

/// The properties a media player reports over MPRIS that the bar reads: its playback status,
/// and from its metadata the track's address, MPRIS id, title, artists, album, art and length
/// (in microseconds); then whether it can be controlled, seeked, paused and played.  Each is
/// absent when the player did not report it in the expected form.
pub struct PlayerReport {
    pub status: Option<String>,
    pub url: Option<String>,
    pub track_id: Option<String>,
    pub title: Option<String>,
    pub artists: Option<Vec<String>>,
    pub album: Option<String>,
    pub art_url: Option<String>,
    pub length_us: Option<i64>,
    pub can_control: Option<bool>,
    pub can_seek: Option<bool>,
    pub can_pause: Option<bool>,
    pub can_play: Option<bool>,
}

/// A local player the bar can follow: its track, whether it plays, its bus name, the track's
/// MPRIS id, and whether it can be seeked and toggled.
pub struct LocalPlayer {
    pub track: Track,
    pub playing: bool,
    pub source: String,
    pub mpris_id: String,
    pub can_seek: bool,
    pub can_toggle: bool,
}

/// An optional text, or the empty text.
pub open spec fn text_or_empty(text: Option<String>) -> Seq<char> {
    match text {
        Some(t) => t@,
        None => Seq::empty(),
    }
}

/// Whether a player plays Spotify, which the bar follows through the service instead: its
/// bus name holds `spotify` in any case, or its track is a `spotify:` address or lives on
/// `open.spotify.com`.
pub open spec fn plays_spotify(source: Seq<char>, url: Seq<char>) -> bool {
    contains_text(ascii_lowercase(source), "spotify"@) || starts_with(url, "spotify:"@) || url_host(url)
        == Some("open.spotify.com"@)
}

/// Whether a report describes a followed player: it plays or is paused, does not play
/// Spotify, and names its track.
pub open spec fn follows(source: Seq<char>, report: PlayerReport) -> bool {
    let status = text_or_empty(report.status);
    &&& (status == "Playing"@ || status == "Paused"@)
    &&& !plays_spotify(source, text_or_empty(report.url))
    &&& report.track_id is Some
}

/// The track length in whole milliseconds, negative lengths as zero and long ones capped.
pub open spec fn length_ms(length_us: Option<i64>) -> u32 {
    let us: int = match length_us {
        Some(l) => if l < 0 {
            0
        } else {
            l as int
        },
        None => 0,
    };
    if us / 1000 > u32::MAX {
        u32::MAX
    } else {
        (us / 1000) as u32
    }
}

/// Reads the local player `source` from its report, `None` when the bar does not follow it.
/// `interaction_id` is the card its track gets.
pub fn read_player(source: &str, report: PlayerReport, interaction_id: u64) -> (player: Option<LocalPlayer>)
    ensures
        match player {
            None => !follows(source@, report),
            Some(local) => {
                let url = text_or_empty(report.url);
                let playing = text_or_empty(report.status) == "Playing"@;
                let control = report.can_control == Some(true);
                &&& follows(source@, report)
                &&& local.playing == playing
                &&& local.source@ == source@
                &&& local.mpris_id@ == report.track_id->0@
                &&& local.track.id is None
                &&& local.track.uri@ == (if url.len() == 0 {
                    report.track_id->0@
                } else {
                    url
                })
                &&& local.track.name@ == (match report.title {
                    Some(title) => title@,
                    None => "Unknown track"@,
                })
                &&& local.track.original_title is None
                &&& local.track.artists@ == (match report.artists {
                    Some(artists) => artists@,
                    None => Seq::empty(),
                })
                &&& local.track.album@ == text_or_empty(report.album)
                &&& local.track.image == report.art_url
                &&& local.track.duration_ms == length_ms(report.length_us)
                &&& local.track.interaction_id == interaction_id
                &&& local.can_seek == (control && report.can_seek == Some(true))
                &&& local.can_toggle == (control && (if playing {
                    report.can_pause
                } else {
                    report.can_play
                }) == Some(true))
            },
        },
{
    proof {
        reveal_strlit("Playing");
        reveal_strlit("Paused");
        reveal_strlit("spotify");
        reveal_strlit("spotify:");
        reveal_strlit("open.spotify.com");
        reveal_strlit("Unknown track");
    }
    let status = match &report.status {
        Some(s) => s.clone(),
        None => String::new(),
    };
    let playing = same_text(status.as_str(), "Playing");
    if !playing && !same_text(status.as_str(), "Paused") {
        return None;
    }
    let url = match &report.url {
        Some(u) => u.clone(),
        None => String::new(),
    };
    let url_chars = chars_of(url.as_str());
    let prefix = chars_of("spotify:");
    let spotify_prefix = prefix.len() <= url_chars.len() && text_contains_at_start(&url_chars, &prefix);
    let host = host_of(url.as_str());
    let spotify_host = match &host {
        Some(name) => same_text(name.as_str(), "open.spotify.com"),
        None => false,
    };
    if text_contains(&to_ascii_lowercase(source), &chars_of("spotify")) || spotify_prefix || spotify_host {
        return None;
    }
    let track_id = match &report.track_id {
        Some(id) => id.clone(),
        None => {
            return None;
        },
    };
    let uri = if url.as_str().is_empty() {
        track_id.clone()
    } else {
        url
    };
    let control = report.can_control == Some(true);
    let can_seek = control && report.can_seek == Some(true);
    let can_toggle = control && (if playing {
        report.can_pause
    } else {
        report.can_play
    }) == Some(true);
    let length: i64 = match report.length_us {
        Some(l) => if l < 0 {
            0
        } else {
            l
        },
        None => 0,
    };
    let millis = length / 1000;
    let duration_ms: u32 = if millis > u32::MAX as i64 {
        u32::MAX
    } else {
        millis as u32
    };
    let PlayerReport { title, artists, album, art_url, .. } = report;
    let track = Track {
        id: None,
        uri,
        name: match title {
            Some(title) => title,
            None => String::from_str("Unknown track"),
        },
        original_title: None,
        artists: match artists {
            Some(artists) => artists,
            None => Vec::new(),
        },
        album: match album {
            Some(album) => album,
            None => String::new(),
        },
        image: art_url,
        duration_ms,
        interaction_id,
    };
    Some(LocalPlayer { track, playing, source: source.to_owned(), mpris_id: track_id, can_seek, can_toggle })
}

/// Whether `text` starts with `prefix`.
fn text_contains_at_start(text: &Vec<char>, prefix: &Vec<char>) -> (starts: bool)
    requires
        prefix@.len() <= text@.len(),
    ensures
        starts == starts_with(text@, prefix@),
{
    let mut k: usize = 0;
    while k < prefix.len()
        invariant
            prefix@.len() <= text@.len(),
            k <= prefix@.len(),
            forall|i: int| 0 <= i < k ==> text@[i] == prefix@[i],
        decreases prefix@.len() - k,
    {
        if text[k] != prefix[k] {
            proof {
                assert(text@.take(prefix@.len() as int)[k as int] != prefix@[k as int]);
            }
            return false;
        }
        k += 1;
    }
    assert(text@.take(prefix@.len() as int) =~= prefix@);
    true
}

/// The rank of a player when choosing whom to follow: one that plays outranks one that is
/// paused, and among those the one followed before comes first.
pub open spec fn rank(player: LocalPlayer, followed: Seq<char>) -> int {
    (if player.playing {
        2int
    } else {
        0int
    }) + (if player.source@ == followed {
        1int
    } else {
        0int
    })
}

/// Whether player `c` is the one followed: the highest rank, the first (in bus-name order) of
/// equally ranked ones.
pub open spec fn chosen_player(players: Seq<LocalPlayer>, followed: Seq<char>, c: int) -> bool {
    &&& 0 <= c < players.len()
    &&& forall|d: int| 0 <= d < players.len() ==> rank(#[trigger] players[d], followed) <= rank(players[c], followed)
    &&& forall|d: int| 0 <= d < c ==> rank(#[trigger] players[d], followed) < rank(players[c], followed)
}

/// A player that plays is followed over any that is paused, and among players in the same
/// state the one followed before keeps being followed.
pub proof fn lemma_followed_player(players: Seq<LocalPlayer>, followed: Seq<char>, c: int, d: int)
    requires
        chosen_player(players, followed, c),
        0 <= d < players.len(),
    ensures
        players[d].playing ==> players[c].playing,
        players[d].playing == players[c].playing && players[d].source@ == followed
            ==> players[c].source@ == followed,
{
    assert(rank(players[d], followed) <= rank(players[c], followed));
}

/// The rank of a player.
fn rank_of(player: &LocalPlayer, followed: &str) -> (r: u8)
    ensures
        r as int == rank(*player, followed@),
{
    (if player.playing {
        2
    } else {
        0
    }) + (if same_text(player.source.as_str(), followed) {
        1
    } else {
        0
    })
}

/// Chooses which of the players read (in bus-name order) the bar follows; `followed` is the
/// bus name of the one followed before (empty for none).  `None` when there is no player.
pub fn pick_player(players: &Vec<LocalPlayer>, followed: &str) -> (choice: Option<usize>)
    ensures
        match choice {
            Some(c) => chosen_player(players@, followed@, c as int),
            None => players@.len() == 0,
        },
{
    let mut best: Option<usize> = None;
    let mut best_rank: u8 = 0;
    let mut k: usize = 0;
    while k < players.len()
        invariant
            k <= players@.len(),
            match best {
                Some(c) => c < k && best_rank == rank(players@[c as int], followed@) && (forall|d: int|
                    0 <= d < k ==> rank(#[trigger] players@[d], followed@) <= best_rank) && (forall|d: int|
                    0 <= d < c ==> rank(#[trigger] players@[d], followed@) < best_rank),
                None => k == 0,
            },
        decreases players@.len() - k,
    {
        let r = rank_of(&players[k], followed);
        let better = match best {
            None => true,
            Some(_) => r > best_rank,
        };
        if better {
            best = Some(k);
            best_rank = r;
        }
        k += 1;
    }
    best
}

/// Whether a freshly read player is the one read before, still on the same track.
pub open spec fn same_session(local: LocalPlayer, previous: LocalPlayer) -> bool {
    local.source@ == previous.source@ && local.track.uri@ == previous.track.uri@ && local.mpris_id@
        == previous.mpris_id@
}

/// Keeps what the bar knew of a player across reads: when it is the same player on the same
/// track, its track keeps its card, and its length when the player now reports none.  Says
/// whether it was the same.
pub fn carry_player(local: &mut LocalPlayer, previous: &LocalPlayer) -> (same: bool)
    ensures
        same == same_session(*old(local), *previous),
        same ==> final(local).track.interaction_id == previous.track.interaction_id,
        same ==> final(local).track.duration_ms == (if old(local).track.duration_ms == 0 {
            previous.track.duration_ms
        } else {
            old(local).track.duration_ms
        }),
        same ==> *final(local) == (LocalPlayer {
            track: Track {
                interaction_id: final(local).track.interaction_id,
                duration_ms: final(local).track.duration_ms,
                ..old(local).track
            },
            ..*old(local)
        }),
        !same ==> *final(local) == *old(local),
{
    let same = local.source == previous.source && local.track.uri == previous.track.uri && local.mpris_id
        == previous.mpris_id;
    if same {
        local.track.interaction_id = previous.track.interaction_id;
        if local.track.duration_ms == 0 {
            local.track.duration_ms = previous.track.duration_ms;
        }
    }
    same
}

} // verus!
