//! The playback queue and the library edits asked of the music service: carrying the state of
//! tracks across queue snapshots, rating a track and toggling playlist membership, and what a
//! track card shows: its playlist icons, its rating and its animation seed.
use crate::chars::{blank, chars_of, is_blank, same_text};
use crate::launcher::{contains_text, text_contains};
use vstd::prelude::*;
use vstd::string::*;

verus! {

/// A user playlist as the bar needs it: its tracks, and the star rating it stands for, if any.
pub struct CondensedPlaylist {
    pub id: String,
    pub image_url: Option<String>,
    pub tracks: Vec<String>,
    pub rating_index: Option<u8>,
}

/// A command for the music service.
pub enum PlaybackCommand {
    PlayPlaylist(Option<String>),
    SetPlaying(bool),
    Seek(u32),
    Skip(i8),
    UpdateLibrary { track_id: String, playlists: Vec<(String, bool)>, liked: Option<bool> },
}

/// Whether a playlist holds the track.
pub open spec fn holds(playlist: CondensedPlaylist, track: Seq<char>) -> bool {
    exists|i: int| 0 <= i < playlist.tracks@.len() && (#[trigger] playlist.tracks@[i])@ == track
}

/// The membership changes that rating a track asks for, playlist by playlist: each rated
/// playlist should hold the track exactly when its rating is the given one.
pub open spec fn rating_changes(playlists: Seq<CondensedPlaylist>, track: Seq<char>, rating: u8) -> Seq<
    (Seq<char>, bool),
>
    decreases playlists.len(),
{
    if playlists.len() == 0 {
        Seq::empty()
    } else {
        let earlier = rating_changes(playlists.drop_last(), track, rating);
        let playlist = playlists.last();
        match playlist.rating_index {
            Some(index) => if holds(playlist, track) != (index == rating) {
                earlier.push((playlist.id@, index == rating))
            } else {
                earlier
            },
            None => earlier,
        }
    }
}

/// The views of a list of membership changes.
pub open spec fn change_views(changes: Seq<(String, bool)>) -> Seq<(Seq<char>, bool)> {
    changes.map_values(|change: (String, bool)| (change.0@, change.1))
}

/// Whether a playlist holds the track.
fn playlist_holds(playlist: &CondensedPlaylist, track_id: &str) -> (held: bool)
    ensures
        held == holds(*playlist, track_id@),
{
    let mut index: usize = 0;
    while index < playlist.tracks.len()
        invariant
            index <= playlist.tracks@.len(),
            forall|i: int| 0 <= i < index ==> (#[trigger] playlist.tracks@[i])@ != track_id@,
        decreases playlist.tracks@.len() - index,
    {
        if same_text(playlist.tracks[index].as_str(), track_id) {
            return true;
        }
        index += 1;
    }
    false
}

/// The library update that rates a track: the rated playlists move it into the playlist of
/// its rating and out of the others, and a rating of five or more likes it.
pub fn rate_track(playlists: &[CondensedPlaylist], track_id: &str, rating: u8) -> (command:
    PlaybackCommand)
    ensures
        command matches PlaybackCommand::UpdateLibrary { track_id: id, playlists: changes, liked }
            && id@ == track_id@ && change_views(changes@) == rating_changes(
            playlists@,
            track_id@,
            rating,
        ) && liked == Some(rating >= 5),
{
    let mut changes: Vec<(String, bool)> = Vec::new();
    let mut index: usize = 0;
    while index < playlists.len()
        invariant
            index <= playlists@.len(),
            change_views(changes@) == rating_changes(playlists@.take(index as int), track_id@, rating),
        decreases playlists@.len() - index,
    {
        let playlist = &playlists[index];
        proof {
            assert(playlists@.take(index + 1).drop_last() =~= playlists@.take(index as int));
            assert(playlists@.take(index + 1).last() == *playlist);
        }
        match playlist.rating_index {
            Some(rating_index) => {
                let add = rating_index == rating;
                if playlist_holds(playlist, track_id) != add {
                    let ghost before = changes@;
                    changes.push((playlist.id.clone(), add));
                    proof {
                        assert(change_views(changes@) =~= change_views(before).push(
                            (playlist.id@, add),
                        ));
                    }
                }
            },
            None => {},
        }
        index += 1;
    }
    proof {
        assert(playlists@.take(index as int) =~= playlists@);
    }
    PlaybackCommand::UpdateLibrary {
        track_id: track_id.to_owned(),
        playlists: changes,
        liked: Some(rating >= 5),
    }
}

/// Adds the track to the playlist or removes it from it; `None` when no playlist has the id.
pub fn toggle_playlist(playlists: &[CondensedPlaylist], track_id: &str, playlist_id: &str) -> (command:
    Option<PlaybackCommand>)
    ensures
        match command {
            None => forall|i: int| 0 <= i < playlists@.len() ==> (#[trigger] playlists@[i]).id@
                != playlist_id@,
            Some(PlaybackCommand::UpdateLibrary { track_id: id, playlists: changes, liked }) => {
                &&& id@ == track_id@
                &&& liked is None
                &&& exists|i: int|
                    0 <= i < playlists@.len() && (#[trigger] playlists@[i]).id@ == playlist_id@
                        && (forall|j: int| 0 <= j < i ==> (#[trigger] playlists@[j]).id@ != playlist_id@)
                        && change_views(changes@) == seq![
                        (playlist_id@, !holds(playlists@[i], track_id@)),
                    ]
            },
            Some(_) => false,
        },
{
    let mut index: usize = 0;
    while index < playlists.len()
        invariant
            index <= playlists@.len(),
            forall|j: int| 0 <= j < index ==> (#[trigger] playlists@[j]).id@ != playlist_id@,
        decreases playlists@.len() - index,
    {
        let playlist = &playlists[index];
        if same_text(playlist.id.as_str(), playlist_id) {
            let add = !playlist_holds(playlist, track_id);
            let mut changes: Vec<(String, bool)> = Vec::new();
            changes.push((playlist_id.to_owned(), add));
            proof {
                assert(change_views(changes@) =~= seq![(playlist_id@, add)]);
                assert(playlists@[index as int] == *playlist);
            }
            return Some(
                PlaybackCommand::UpdateLibrary { track_id: track_id.to_owned(), playlists: changes, liked: None },
            );
        }
        index += 1;
    }
    None
}

/// A track of the playback queue.
pub struct Track {
    pub id: Option<String>,
    pub uri: String,
    pub name: String,
    pub original_title: Option<String>,
    pub artists: Vec<String>,
    pub album: String,
    pub image: Option<String>,
    pub duration_ms: u32,
    /// Identifies the track's rendered card across queue snapshots.
    pub interaction_id: u64,
}

impl Track {
    /// The title shown for the track: its original title unless that is blank, else its name.
    pub open spec fn title_view(&self) -> Seq<char> {
        match self.original_title {
            Some(title) => if blank(title@) {
                self.name@
            } else {
                title@
            },
            None => self.name@,
        }
    }

    /// The title shown for the track.
    pub fn compact_title(&self) -> (title: &str)
        ensures
            title@ == self.title_view(),
    {
        match &self.original_title {
            Some(original) => if is_blank(original.as_str()) {
                self.name.as_str()
            } else {
                original.as_str()
            },
            None => self.name.as_str(),
        }
    }

    /// The track's first artist, or nothing when it has none.
    pub fn primary_artist(&self) -> (artist: &str)
        ensures
            artist@ == (if self.artists@.len() > 0 {
                self.artists@[0]@
            } else {
                Seq::empty()
            }),
    {
        proof {
            reveal_strlit("");
        }
        if self.artists.len() > 0 {
            self.artists[0].as_str()
        } else {
            ""
        }
    }

    /// Whether the track plays from YouTube: its address holds `youtube.com/` or `youtu.be/`.
    pub open spec fn on_youtube(&self) -> bool {
        contains_text(self.uri@, "youtube.com/"@) || contains_text(self.uri@, "youtu.be/"@)
    }

    /// Whether the track plays from YouTube.
    pub fn is_youtube(&self) -> (youtube: bool)
        ensures
            youtube == self.on_youtube(),
    {
        let uri = chars_of(self.uri.as_str());
        text_contains(&uri, &chars_of("youtube.com/")) || text_contains(&uri, &chars_of("youtu.be/"))
    }
}

/// The addresses of a run of tracks.
pub open spec fn uris_of(tracks: Seq<Track>) -> Seq<Seq<char>> {
    tracks.map_values(|track: Track| track.uri@)
}

/// How many entries of `items` are `item`.
pub open spec fn count_of(items: Seq<Seq<char>>, item: Seq<char>) -> nat
    decreases items.len(),
{
    if items.len() == 0 {
        0
    } else {
        count_of(items.drop_last(), item) + if items.last() == item {
            1nat
        } else {
            0nat
        }
    }
}

/// Which repeat of its address the entry at `index` is: `0` for its first appearance.
pub open spec fn occurrence(items: Seq<Seq<char>>, index: int) -> nat {
    count_of(items.take(index), items[index])
}

/// Whether the new queue's `i`th entry continues the old queue's `j`th: the same address,
/// appearing for the same time in both queues.
pub open spec fn continues(old: Seq<Seq<char>>, new: Seq<Seq<char>>, i: int, j: int) -> bool {
    0 <= j < old.len() && old[j] == new[i] && occurrence(old, j) == occurrence(new, i)
}

/// The old entry that the new queue's `i`th entry continues, if any.
pub open spec fn inherited(old: Seq<Seq<char>>, new: Seq<Seq<char>>, i: int) -> Option<int> {
    if exists|j: int| continues(old, new, i, j) {
        Some(choose|j: int| continues(old, new, i, j))
    } else {
        None
    }
}

/// A new track that continues an earlier one: it keeps the earlier card, and the earlier
/// image when that one's art is loaded or the new track has none.
pub open spec fn adopted(track: Track, previous: Track, art_ready: bool) -> Track {
    Track {
        interaction_id: previous.interaction_id,
        image: if art_ready || track.image is None {
            previous.image
        } else {
            track.image
        },
        ..track
    }
}

/// The `i`th track of a replaced queue.
pub open spec fn carried(old: Seq<Track>, new: Seq<Track>, art_ready: Seq<bool>, i: int) -> Track {
    match inherited(uris_of(old), uris_of(new), i) {
        Some(j) => adopted(new[i], old[j], art_ready[j]),
        None => new[i],
    }
}

/// Counting one more entry of a prefix adds one exactly when that entry is the item.
proof fn lemma_count_step(items: Seq<Seq<char>>, item: Seq<char>, k: int)
    requires
        0 <= k < items.len(),
    ensures
        count_of(items.take(k + 1), item) == count_of(items.take(k), item) + if items[k] == item {
            1nat
        } else {
            0nat
        },
{
    assert(items.take(k + 1).drop_last() =~= items.take(k));
}

/// A longer prefix counts at least as many entries of an item.
proof fn lemma_count_grows(items: Seq<Seq<char>>, item: Seq<char>, a: int, b: int)
    requires
        0 <= a <= b <= items.len(),
    ensures
        count_of(items.take(a), item) <= count_of(items.take(b), item),
    decreases b - a,
{
    if a < b {
        lemma_count_grows(items, item, a, b - 1);
        lemma_count_step(items, item, b - 1);
    }
}

/// A later repeat of an address has a higher occurrence number.
proof fn lemma_occurrence_increases(items: Seq<Seq<char>>, i: int, k: int)
    requires
        0 <= i < k < items.len(),
        items[i] == items[k],
    ensures
        occurrence(items, i) < occurrence(items, k),
{
    lemma_count_step(items, items[i], i);
    lemma_count_grows(items, items[i], i + 1, k);
}

/// At most one old entry is continued by a new entry.
proof fn lemma_continues_unique(old: Seq<Seq<char>>, new: Seq<Seq<char>>, i: int, j: int, k: int)
    requires
        continues(old, new, i, j),
        continues(old, new, i, k),
    ensures
        j == k,
{
    if j < k {
        lemma_occurrence_increases(old, j, k);
    } else if k < j {
        lemma_occurrence_increases(old, k, j);
    }
}

/// How many of the first `upto` tracks have the address.
fn uri_count(tracks: &Vec<Track>, upto: usize, uri: &String) -> (count: usize)
    requires
        upto <= tracks@.len(),
    ensures
        count == count_of(uris_of(tracks@).take(upto as int), uri@),
{
    let ghost uris = uris_of(tracks@);
    let mut count: usize = 0;
    let mut k: usize = 0;
    while k < upto
        invariant
            uris == uris_of(tracks@),
            upto <= tracks@.len(),
            k <= upto,
            count <= k,
            count == count_of(uris.take(k as int), uri@),
        decreases upto - k,
    {
        proof {
            lemma_count_step(uris, uri@, k as int);
        }
        if tracks[k].uri == *uri {
            count += 1;
        }
        k += 1;
    }
    count
}

/// The old track holding the `repeat`th appearance of an address, if the old queue has one.
fn find_repeat(old: &Vec<Track>, uri: &String, repeat: usize) -> (found: Option<usize>)
    ensures
        match found {
            Some(j) => j < old@.len() && old@[j as int].uri@ == uri@ && count_of(
                uris_of(old@).take(j as int),
                uri@,
            ) == repeat,
            None => forall|j: int|
                0 <= j < old@.len() ==> !(old@[j].uri@ == uri@ && count_of(
                    #[trigger] uris_of(old@).take(j),
                    uri@,
                ) == repeat),
        },
{
    let ghost uris = uris_of(old@);
    let mut seen: usize = 0;
    let mut j: usize = 0;
    while j < old.len()
        invariant
            uris == uris_of(old@),
            j <= old@.len(),
            seen <= j,
            seen == count_of(uris.take(j as int), uri@),
            seen <= repeat,
            forall|k: int|
                0 <= k < j ==> !(old@[k].uri@ == uri@ && count_of(#[trigger] uris.take(k), uri@)
                    == repeat),
        decreases old@.len() - j,
    {
        proof {
            lemma_count_step(uris, uri@, j as int);
        }
        if old[j].uri == *uri {
            if seen == repeat {
                return Some(j);
            }
            seen += 1;
        }
        j += 1;
    }
    None
}

/// Carries the state of the tracks of the old queue over to a new snapshot of it, so that
/// cards stay put: each new track that continues an old one (the same address, appearing for
/// the same time) keeps that track's card, and its image when that image's art is loaded or
/// the new track has none.  `art_ready` tells, track by track of the old queue, whether its
/// art is loaded.
pub fn carry_over(old: &Vec<Track>, new: Vec<Track>, art_ready: &Vec<bool>) -> (queue: Vec<Track>)
    requires
        art_ready@.len() == old@.len(),
    ensures
        queue@.len() == new@.len(),
        forall|i: int| 0 <= i < new@.len() ==> queue@[i] == carried(old@, new@, art_ready@, i),
{
    let ghost fresh = new@;
    let ghost old_uris = uris_of(old@);
    let ghost new_uris = uris_of(fresh);
    let mut rest = new;
    let mut queue: Vec<Track> = Vec::new();
    let n = rest.len();
    let mut i: usize = 0;
    while i < n
        invariant
            n == fresh.len(),
            i <= n,
            old_uris == uris_of(old@),
            new_uris == uris_of(fresh),
            art_ready@.len() == old@.len(),
            rest@ == fresh.skip(i as int),
            queue@.len() == i,
            forall|k: int| 0 <= k < i ==> #[trigger] queue@[k] == carried(old@, fresh, art_ready@, k),
            forall|k: int| 0 <= k < i ==> (#[trigger] queue@[k]).uri == fresh[k].uri,
        decreases n - i,
    {
        let mut track = rest.remove(0);
        assert(track == fresh[i as int]);
        assert(uris_of(queue@) =~= new_uris.take(i as int));
        assert(uris_of(queue@).take(i as int) =~= new_uris.take(i as int));
        assert(new_uris[i as int] == track.uri@);
        let repeat = uri_count(&queue, i, &track.uri);
        assert(repeat == occurrence(new_uris, i as int));
        match find_repeat(old, &track.uri, repeat) {
            Some(j) => {
                proof {
                    assert(continues(old_uris, new_uris, i as int, j as int));
                    let chosen = choose|k: int| continues(old_uris, new_uris, i as int, k);
                    lemma_continues_unique(old_uris, new_uris, i as int, j as int, chosen);
                }
                track.interaction_id = old[j].interaction_id;
                if art_ready[j] || track.image.is_none() {
                    track.image = match &old[j].image {
                        Some(image) => Some(image.clone()),
                        None => None,
                    };
                }
            },
            None => {
                proof {
                    assert forall|k: int| !continues(old_uris, new_uris, i as int, k) by {
                        if 0 <= k < old@.len() && old_uris[k] == new_uris[i as int] {
                            assert(old@[k].uri@ == track.uri@);
                        }
                    }
                }
            },
        }
        queue.push(track);
        i += 1;
        proof {
            assert(rest@ =~= fresh.skip(i as int));
        }
    }
    queue
}

/// A queue snapshot that repeats the old queue keeps every track's state: each entry
/// continues itself.
pub proof fn lemma_same_queue_keeps_cards(uris: Seq<Seq<char>>, i: int)
    requires
        0 <= i < uris.len(),
    ensures
        inherited(uris, uris, i) == Some(i),
{
    assert(continues(uris, uris, i, i));
    let chosen = choose|k: int| continues(uris, uris, i, k);
    lemma_continues_unique(uris, uris, i, i, chosen);
}

/// No old track hands its state to two tracks of the new queue, and state only passes
/// between tracks with the same address.
pub proof fn lemma_carry_is_one_to_one(old: Seq<Seq<char>>, new: Seq<Seq<char>>, i: int, k: int)
    requires
        0 <= i < new.len(),
        0 <= k < new.len(),
        inherited(old, new, i) is Some,
        inherited(old, new, i) == inherited(old, new, k),
    ensures
        i == k,
        old[inherited(old, new, i)->0] == new[i],
{
    let j = inherited(old, new, i)->0;
    assert(continues(old, new, i, j));
    assert(continues(old, new, k, j));
    if i < k {
        lemma_occurrence_increases(new, i, k);
    } else if k < i {
        lemma_occurrence_increases(new, k, i);
    }
}

/// The distance between two queue positions.
pub open spec fn distance(a: int, b: int) -> int {
    if a >= b {
        a - b
    } else {
        b - a
    }
}

/// Whether entry `c` is the entry with the address nearest to `target`, the earliest of
/// equally near ones.
pub open spec fn nearest(uris: Seq<Seq<char>>, uri: Seq<char>, target: int, c: int) -> bool {
    &&& 0 <= c < uris.len()
    &&& uris[c] == uri
    &&& forall|d: int|
        0 <= d < uris.len() && uris[d] == uri ==> distance(c, target) <= distance(d, target)
    &&& forall|d: int| 0 <= d < c && uris[d] == uri ==> distance(c, target) < distance(d, target)
}

/// The entry with the address nearest to `target`, if the address is in the queue at all.
pub open spec fn nearest_entry(uris: Seq<Seq<char>>, uri: Seq<char>, target: int) -> Option<int> {
    if exists|c: int| nearest(uris, uri, target, c) {
        Some(choose|c: int| nearest(uris, uri, target, c))
    } else {
        None
    }
}

/// The last position of a queue that `index` may stand for: `index`, or the last entry when
/// it is past the end (`0` for an empty queue).
pub open spec fn within_queue(index: int, len: int) -> int {
    if len == 0 {
        0
    } else if index < len {
        index
    } else {
        len - 1
    }
}

/// Clamps a reported queue position to the queue, as the playhead is kept.
pub fn playhead_index(index: usize, len: usize) -> (position: usize)
    ensures
        position == within_queue(index as int, len as int),
{
    if len == 0 {
        0
    } else if index < len {
        index
    } else {
        len - 1
    }
}

/// The entry of the queue with the address nearest to `target`, the earliest of equally
/// near ones; `None` when no entry has the address.
fn nearest_uri(queue: &Vec<Track>, uri: &String, target: usize) -> (found: Option<usize>)
    ensures
        match found {
            Some(c) => nearest_entry(uris_of(queue@), uri@, target as int) == Some(c as int),
            None => forall|d: int| 0 <= d < queue@.len() ==> (#[trigger] queue@[d]).uri@ != uri@,
        },
{
    let ghost uris = uris_of(queue@);
    let ghost t = target as int;
    let mut best: Option<usize> = None;
    let mut k: usize = 0;
    while k < queue.len()
        invariant
            uris == uris_of(queue@),
            t == target as int,
            k <= queue@.len(),
            match best {
                Some(c) => {
                    &&& c < k
                    &&& uris[c as int] == uri@
                    &&& forall|d: int|
                        0 <= d < k && uris[d] == uri@ ==> distance(c as int, t) <= distance(d, t)
                    &&& forall|d: int|
                        0 <= d < c && uris[d] == uri@ ==> distance(c as int, t) < distance(d, t)
                },
                None => forall|d: int| 0 <= d < k ==> uris[d] != uri@,
            },
        decreases queue@.len() - k,
    {
        if queue[k].uri == *uri {
            let closer = match best {
                None => true,
                Some(c) => {
                    let here: usize = if k >= target { k - target } else { target - k };
                    let there: usize = if c >= target { c - target } else { target - c };
                    here < there
                },
            };
            if closer {
                best = Some(k);
            }
        }
        k += 1;
    }
    match best {
        Some(c) => {
            proof {
                assert(nearest(uris, uri@, t, c as int));
                let chosen = choose|x: int| nearest(uris, uri@, t, x);
                if chosen < c {
                    assert(uris[chosen] == uri@);
                } else if c < chosen {
                    assert(uris[c as int] == uri@);
                }
            }
            Some(c)
        },
        None => {
            proof {
                assert forall|d: int| 0 <= d < queue@.len() implies (#[trigger] queue@[d]).uri@ != uri@ by {
                    assert(uris[d] == queue@[d].uri@);
                }
            }
            None
        },
    }
}

/// Where a replaced queue is anchored so that what is on screen does not jump: the entry of
/// the new queue holding the track that was current, nearest the reported position.  `None`
/// when the old queue was empty or its current track is not in the new one; the queue then
/// starts from the reported position itself.
pub fn anchor_index(old: &Vec<Track>, old_index: usize, queue: &Vec<Track>, index: usize) -> (anchor:
    Option<usize>)
    ensures
        match anchor {
            Some(c) => old@.len() > 0 && nearest_entry(
                uris_of(queue@),
                old@[within_queue(old_index as int, old@.len() as int)].uri@,
                within_queue(index as int, queue@.len() as int),
            ) == Some(c as int),
            None => old@.len() == 0 || forall|d: int|
                0 <= d < queue@.len() ==> (#[trigger] queue@[d]).uri@ != old@[within_queue(
                    old_index as int,
                    old@.len() as int,
                )].uri@,
        },
{
    if old.len() == 0 {
        return None;
    }
    let current = playhead_index(old_index, old.len());
    let target = playhead_index(index, queue.len());
    nearest_uri(queue, &old[current].uri, target)
}

/// What seeking to a queue entry does.
#[derive(Clone, Copy, Debug, PartialEq, Eq, Structural)]
pub enum SeekAction {
    /// The entry is past the end of the queue: nothing.
    Ignore,
    /// The entry is the current track: seek within it.
    SeekWithin,
    /// Skip this many tracks forward (backward when negative), at most ten at a time.
    Skip(i8),
}

/// Decides what seeking to entry `index` asks of the music service while entry `current`
/// plays.
pub fn seek_action(index: usize, current: usize, queue_len: usize) -> (action: SeekAction)
    ensures
        action == (if index >= queue_len {
            SeekAction::Ignore
        } else if index == current {
            SeekAction::SeekWithin
        } else if index > current {
            SeekAction::Skip(if index - current > 10 { 10i8 } else { (index - current) as i8 })
        } else {
            SeekAction::Skip(if current - index > 10 { -10i8 } else { (index - current) as i8 })
        }),
{
    if index >= queue_len {
        SeekAction::Ignore
    } else if index == current {
        SeekAction::SeekWithin
    } else if index > current {
        let ahead = index - current;
        SeekAction::Skip(if ahead > 10 { 10 } else { ahead as i8 })
    } else {
        let behind = current - index;
        SeekAction::Skip(if behind > 10 { -10 } else { -(behind as i8) })
    }
}

/// Who the play/pause toggle speaks to, and what it asks.
#[derive(Clone, Copy, Debug, PartialEq, Eq, Structural)]
pub enum ToggleAction {
    /// Ask the local media player to play (`true`) or pause.
    Local(bool),
    /// Ask the music service to play (`true`) or pause.
    Service(bool),
    /// The local player is in front but cannot be toggled.
    Nothing,
}

/// Toggles playback: a local player shown in front (there is one and the service is paused)
/// is toggled if it allows it; otherwise the service is.  `local` is the local player's
/// `(playing, can_toggle)`, if there is one.
pub fn toggle_action(playing: bool, local: Option<(bool, bool)>) -> (action: ToggleAction)
    ensures
        action == (match local {
            Some((local_playing, can_toggle)) if !playing => if can_toggle {
                ToggleAction::Local(!local_playing)
            } else {
                ToggleAction::Nothing
            },
            _ => ToggleAction::Service(!playing),
        }),
{
    match local {
        Some((local_playing, can_toggle)) if !playing => if can_toggle {
            ToggleAction::Local(!local_playing)
        } else {
            ToggleAction::Nothing
        },
        _ => ToggleAction::Service(!playing),
    }
}

/// Whether the playlist holds the track, when the track has an id.
pub open spec fn holds_track(playlist: CondensedPlaylist, track_id: Option<Seq<char>>) -> bool {
    match track_id {
        Some(id) => holds(playlist, id),
        None => false,
    }
}

/// Reading the playlists in order, the playlist icons of a track card and its rating: the
/// playlists that hold the track, the other playlists it may be added to while the card is
/// expanded, and the rating (0 when ratings are on and the track has an id, then one more
/// than the index of the last rated playlist that holds it).
pub open spec fn badge_scan(
    playlists: Seq<CondensedPlaylist>,
    track_id: Option<Seq<char>>,
    ratings_enabled: bool,
    expanded: bool,
) -> (Seq<int>, Seq<int>, Option<int>)
    decreases playlists.len(),
{
    if playlists.len() == 0 {
        (Seq::empty(), Seq::empty(), if ratings_enabled && track_id is Some {
            Some(0)
        } else {
            None
        })
    } else {
        let (held, offered, rating) = badge_scan(playlists.drop_last(), track_id, ratings_enabled, expanded);
        let index = playlists.len() - 1;
        let playlist = playlists.last();
        let contains = holds_track(playlist, track_id);
        match playlist.rating_index {
            Some(value) => if contains && rating is Some {
                (held, offered, Some(value + 1))
            } else {
                (held, offered, rating)
            },
            None => if contains {
                (held.push(index), offered, rating)
            } else if expanded && track_id is Some {
                (held, offered.push(index), rating)
            } else {
                (held, offered, rating)
            },
        }
    }
}

/// The icons of a track card, as indices into the playlists: those holding the track first.
pub struct TrackBadges {
    pub icons: Vec<usize>,
    /// How many of the icons are playlists that hold the track.
    pub primary: usize,
    pub rating: Option<i32>,
}

/// Whether the playlist holds the track, when the track has an id.
fn playlist_holds_track(playlist: &CondensedPlaylist, track_id: &Option<String>) -> (held: bool)
    ensures
        held == holds_track(*playlist, match track_id {
            Some(id) => Some(id@),
            None => None,
        }),
{
    match track_id {
        Some(id) => playlist_holds(playlist, id.as_str()),
        None => false,
    }
}

/// The playlist icons and the rating a track card shows.
pub fn track_badges(
    playlists: &Vec<CondensedPlaylist>,
    track_id: &Option<String>,
    ratings_enabled: bool,
    expanded: bool,
) -> (badges: TrackBadges)
    ensures
        ({
            let (held, offered, rating) = badge_scan(
                playlists@,
                match track_id {
                    Some(id) => Some(id@),
                    None => None,
                },
                ratings_enabled,
                expanded,
            );
            &&& badges.icons@.map_values(|i: usize| i as int) == held + offered
            &&& badges.primary == held.len()
            &&& match badges.rating {
                Some(r) => rating == Some(r as int),
                None => rating is None,
            }
        }),
{
    let ghost id_view = match track_id {
        Some(id) => Some(id@),
        None => None,
    };
    let mut held: Vec<usize> = Vec::new();
    let mut offered: Vec<usize> = Vec::new();
    let mut rating: Option<i32> = if ratings_enabled && track_id.is_some() {
        Some(0)
    } else {
        None
    };
    let mut k: usize = 0;
    while k < playlists.len()
        invariant
            k <= playlists@.len(),
            id_view == (match track_id {
                Some(id) => Some(id@),
                None => None,
            }),
            ({
                let (h, o, r) = badge_scan(playlists@.take(k as int), id_view, ratings_enabled, expanded);
                &&& held@.map_values(|i: usize| i as int) == h
                &&& offered@.map_values(|i: usize| i as int) == o
                &&& match rating {
                    Some(v) => r == Some(v as int),
                    None => r is None,
                }
            }),
            match rating {
                Some(v) => 0 <= v <= 256,
                None => true,
            },
        decreases playlists@.len() - k,
    {
        proof {
            assert(playlists@.take(k + 1).drop_last() =~= playlists@.take(k as int));
            assert(playlists@.take(k + 1).last() == playlists@[k as int]);
        }
        let playlist = &playlists[k];
        let contains = playlist_holds_track(playlist, track_id);
        let ghost (h0, o0) = (held@, offered@);
        match playlist.rating_index {
            Some(value) => {
                if contains && rating.is_some() {
                    rating = Some(value as i32 + 1);
                }
            },
            None => {
                if contains {
                    held.push(k);
                    proof {
                        assert(held@.map_values(|i: usize| i as int) =~= h0.map_values(|i: usize| i as int).push(k as int));
                    }
                } else if expanded && track_id.is_some() {
                    offered.push(k);
                    proof {
                        assert(offered@.map_values(|i: usize| i as int) =~= o0.map_values(|i: usize| i as int).push(k as int));
                    }
                }
            },
        }
        k += 1;
    }
    proof {
        assert(playlists@.take(k as int) =~= playlists@);
    }
    let primary = held.len();
    let ghost (h1, o1) = (held@, offered@);
    let mut icons = held;
    let mut rest = offered;
    icons.append(&mut rest);
    proof {
        assert(icons@.map_values(|i: usize| i as int) =~= h1.map_values(|i: usize| i as int) + o1.map_values(|i: usize| i as int));
    }
    TrackBadges { icons, primary, rating }
}

/// The playlist buttons beside the queue: the liked songs (`None`), then each playlist that
/// stands for no rating; no buttons when there are no such playlists and ratings are off.
pub open spec fn button_slots(playlists: Seq<CondensedPlaylist>) -> Seq<Option<int>>
    decreases playlists.len(),
{
    if playlists.len() == 0 {
        seq![None]
    } else {
        let earlier = button_slots(playlists.drop_last());
        if playlists.last().rating_index is None {
            earlier.push(Some(playlists.len() - 1))
        } else {
            earlier
        }
    }
}

/// The playlist buttons shown beside the queue, as indices into the playlists.
pub fn playlist_buttons(playlists: &Vec<CondensedPlaylist>, ratings_enabled: bool) -> (buttons: Vec<
    Option<usize>,
>)
    ensures
        ({
            let slots = button_slots(playlists@);
            if ratings_enabled || slots.len() > 1 {
                buttons@.len() == slots.len() && forall|i: int|
                    0 <= i < slots.len() ==> #[trigger] slots[i] == match buttons@[i] {
                        Some(index) => Some(index as int),
                        None => None,
                    }
            } else {
                buttons@.len() == 0
            }
        }),
{
    let mut buttons: Vec<Option<usize>> = vec![None];
    let mut k: usize = 0;
    while k < playlists.len()
        invariant
            k <= playlists@.len(),
            buttons@.len() == button_slots(playlists@.take(k as int)).len(),
            forall|i: int|
                0 <= i < buttons@.len() ==> #[trigger] button_slots(playlists@.take(k as int))[i]
                    == match buttons@[i] {
                    Some(index) => Some(index as int),
                    None => None,
                },
        decreases playlists@.len() - k,
    {
        proof {
            assert(playlists@.take(k + 1).drop_last() =~= playlists@.take(k as int));
            assert(playlists@.take(k + 1).last() == playlists@[k as int]);
        }
        if playlists[k].rating_index.is_none() {
            buttons.push(Some(k));
        }
        k += 1;
    }
    proof {
        assert(playlists@.take(k as int) =~= playlists@);
    }
    if ratings_enabled || buttons.len() > 1 {
        buttons
    } else {
        Vec::new()
    }
}

/// The 64-bit FNV-1a hash of bytes.
pub open spec fn fnv1a(bytes: Seq<u8>) -> u64
    decreases bytes.len(),
{
    if bytes.len() == 0 {
        0xcbf2_9ce4_8422_2325u64
    } else {
        (((fnv1a(bytes.drop_last()) ^ (bytes.last() as u64)) as nat * 0x100_0000_01b3nat)
            % 0x1_0000_0000_0000_0000nat) as u64
    }
}

/// The seed that sets a track card's animation apart: the low 32 bits of the FNV-1a hash of
/// the UTF-8 bytes of its address.
pub fn card_seed(uri: &str) -> (seed: u32)
    ensures
        seed as int == fnv1a(vstd::utf8::encode_utf8(uri@)) as int % 0x1_0000_0000,
{
    let bytes = uri.as_bytes();
    let mut hash: u64 = 0xcbf2_9ce4_8422_2325;
    let mut k: usize = 0;
    while k < bytes.len()
        invariant
            k <= bytes@.len(),
            bytes@ == vstd::utf8::encode_utf8(uri@),
            hash == fnv1a(bytes@.take(k as int)),
        decreases bytes@.len() - k,
    {
        proof {
            assert(bytes@.take(k + 1).drop_last() =~= bytes@.take(k as int));
            assert(bytes@.take(k + 1).last() == bytes@[k as int]);
        }
        hash = (hash ^ bytes[k] as u64).wrapping_mul(0x0000_0100_0000_01b3);
        k += 1;
    }
    proof {
        assert(bytes@.take(k as int) =~= bytes@);
    }
    (hash % 0x1_0000_0000) as u32
}

} // verus!
