//! The fetch state of one piece of track enrichment (album art, audio features or lyrics),
//! and which pieces the queue still needs.
use crate::chars::{blank, is_blank};
use crate::music::{CondensedPlaylist, Track};
use crate::timer::{duration_from_secs, secs_duration};
use std::time::{Duration, Instant};
use vstd::prelude::*;

verus! {

/// A point in time, as `std::time::Instant` measures it.
#[verifier::external_type_specification]
#[verifier::external_body]
pub struct ExInstant(Instant);

/// Calls `Instant::now`, the current time of the monotonic clock.
#[verifier::external_body]
pub(crate) fn now() -> Instant {
    Instant::now()
}

/// The instant `delay` after `start`, as `Instant::checked_add` gives it: `None` when the clock
/// cannot represent it.
pub uninterp spec fn instant_plus(start: Instant, delay: Duration) -> Option<Instant>;

/// Whether instant `a` is later than instant `b`, as `Instant`'s `>` compares them.
pub uninterp spec fn is_later(a: Instant, b: Instant) -> bool;

/// Calls `Instant::checked_add`: the instant `delay` after `start`, or `None` when the clock
/// cannot represent it.
#[verifier::external_body]
pub(crate) fn after(start: Instant, delay: Duration) -> (later_instant: Option<Instant>)
    ensures
        later_instant == instant_plus(start, delay),
{
    start.checked_add(delay)
}

/// Calls `Instant::gt` (`>`): whether `a` is later than `b`.
#[verifier::external_body]
pub(crate) fn later(a: &Instant, b: &Instant) -> (is_after: bool)
    ensures
        is_after == is_later(*a, *b),
{
    *a > *b
}

/// How long a failed fetch waits before it is tried again.
pub const RETRY_SECONDS: u64 = 30;

/// The fetch state of one resource.
pub enum Fetch<T> {
    /// Not fetched; may be requested once this instant has come.
    Missing(Instant),
    /// A request is under way.
    Fetching,
    /// The fetched value.
    Ready(T),
}

impl<T> Fetch<T> {
    /// A resource whose fetch failed, to be tried again after the retry delay (or right away
    /// should the clock be unable to represent that instant): missing until `RETRY_SECONDS`
    /// after the clock's reading at the call.
    pub fn retry() -> (fetch: Self)
        ensures
            exists|start: Instant|
                fetch == Fetch::<T>::Missing(
                    match #[trigger] instant_plus(start, secs_duration(RETRY_SECONDS)) {
                        Some(retry_at) => retry_at,
                        None => start,
                    },
                ),
    {
        let start = now();
        let copy = start;
        match after(start, duration_from_secs(RETRY_SECONDS)) {
            Some(retry_at) => Fetch::Missing(retry_at),
            None => Fetch::Missing(copy),
        }
    }

    /// Marks the resource as being fetched if it is missing and its retry time has come,
    /// and says whether the caller should start the fetch.
    pub fn request(&mut self, now: Instant) -> (start: bool)
        ensures
            start == (match *old(self) {
                Fetch::Missing(retry_at) => !is_later(retry_at, now),
                _ => false,
            }),
            *final(self) == (if start {
                Fetch::<T>::Fetching
            } else {
                *old(self)
            }),
    {
        let due = match self {
            Fetch::Missing(retry_at) => !later(retry_at, &now),
            _ => false,
        };
        if due {
            *self = Fetch::Fetching;
        }
        due
    }

    /// The fetched value, once ready.
    pub fn ready(&self) -> (value: Option<&T>)
        ensures
            match *self {
                Fetch::Ready(v) => value == Some(&v),
                _ => value is None,
            },
    {
        match self {
            Fetch::Ready(value) => Some(value),
            _ => None,
        }
    }
}

impl<T> Default for Fetch<T> {
    /// A missing resource that may be requested right away.
    fn default() -> (fetch: Self)
        ensures
            fetch is Missing,
    {
        Fetch::Missing(now())
    }
}

/// The queue entries whose lyrics are fetched ahead: the track before the current one, the
/// current one and the two after it, as far as the queue reaches.
pub open spec fn lyrics_span(index: int, len: int) -> (int, int) {
    (if index - 1 < 0 {
        0
    } else if index - 1 > len {
        len
    } else {
        index - 1
    }, if index + 3 > len {
        len
    } else {
        index + 3
    })
}

/// The range `start..end` of queue entries whose lyrics are fetched while entry `index` is
/// current.
pub fn lyrics_window(index: usize, len: usize) -> (window: (usize, usize))
    ensures
        window.0 as int == lyrics_span(index as int, len as int).0,
        window.1 as int == lyrics_span(index as int, len as int).1,
        window.0 <= window.1 <= len,
{
    let before = if index == 0 { 0 } else { index - 1 };
    let start = if before > len { len } else { before };
    let end = if index >= len || len - index <= 3 { len } else { index + 3 };
    (start, end)
}

/// The lyrics window of a current entry holds that entry, and never more than four entries.
pub proof fn lemma_window_holds_current(index: int, len: int)
    requires
        0 <= index < len,
    ensures
        lyrics_span(index, len).0 <= index < lyrics_span(index, len).1,
        lyrics_span(index, len).1 - lyrics_span(index, len).0 <= 4,
{
}

/// Whether lyrics are fetched for a track: it has a name that is not blank.
pub fn wants_lyrics(track: &Track) -> (wanted: bool)
    ensures
        wanted == !blank(track.name@),
{
    !is_blank(track.name.as_str())
}

/// Whether an optional text is present and reads `text`.
pub open spec fn names(value: Option<String>, text: Seq<char>) -> bool {
    match value {
        Some(v) => v@ == text,
        None => false,
    }
}

/// Whether some track of the queue or some playlist shows the art at `url`.
pub open spec fn art_shown(url: Seq<char>, queue: Seq<Track>, playlists: Seq<CondensedPlaylist>) -> bool {
    (exists|i: int| 0 <= i < queue.len() && names((#[trigger] queue[i]).image, url))
        || (exists|i: int|
        0 <= i < playlists.len() && names((#[trigger] playlists[i]).image_url, url))
}

/// Whether the art at `url` is still shown by the queue or the playlists, so that its cache
/// entry is kept.
pub fn art_in_use(url: &String, queue: &Vec<Track>, playlists: &Vec<CondensedPlaylist>) -> (used: bool)
    ensures
        used == art_shown(url@, queue@, playlists@),
{
    let mut i: usize = 0;
    while i < queue.len()
        invariant
            i <= queue@.len(),
            forall|k: int| 0 <= k < i ==> !names((#[trigger] queue@[k]).image, url@),
        decreases queue@.len() - i,
    {
        match &queue[i].image {
            Some(image) => {
                if *image == *url {
                    return true;
                }
            },
            None => {},
        }
        i += 1;
    }
    let mut p: usize = 0;
    while p < playlists.len()
        invariant
            p <= playlists@.len(),
            forall|k: int| 0 <= k < queue@.len() ==> !names((#[trigger] queue@[k]).image, url@),
            forall|k: int|
                0 <= k < p ==> !names((#[trigger] playlists@[k]).image_url, url@),
        decreases playlists@.len() - p,
    {
        match &playlists[p].image_url {
            Some(image) => {
                if *image == *url {
                    return true;
                }
            },
            None => {},
        }
        p += 1;
    }
    false
}

/// Whether a track of the queue has the id, so that its audio features are kept.
pub fn audio_in_use(id: &String, queue: &Vec<Track>) -> (used: bool)
    ensures
        used == exists|i: int| 0 <= i < queue@.len() && names((#[trigger] queue@[i]).id, id@),
{
    let mut i: usize = 0;
    while i < queue.len()
        invariant
            i <= queue@.len(),
            forall|k: int| 0 <= k < i ==> !names((#[trigger] queue@[k]).id, id@),
        decreases queue@.len() - i,
    {
        match &queue[i].id {
            Some(track_id) => {
                if *track_id == *id {
                    return true;
                }
            },
            None => {},
        }
        i += 1;
    }
    false
}

/// Whether a track of the queue has the address, so that its lyrics are kept.
pub fn lyrics_in_use(uri: &String, queue: &Vec<Track>) -> (used: bool)
    ensures
        used == exists|i: int| 0 <= i < queue@.len() && (#[trigger] queue@[i]).uri@ == uri@,
{
    let mut i: usize = 0;
    while i < queue.len()
        invariant
            i <= queue@.len(),
            forall|k: int| 0 <= k < i ==> (#[trigger] queue@[k]).uri@ != uri@,
        decreases queue@.len() - i,
    {
        if queue[i].uri == *uri {
            return true;
        }
        i += 1;
    }
    false
}

/// Whether a cache entry survives a refresh: one being fetched always does (its reply still
/// has to land), any other only while something still uses it.
pub fn keeps<T>(state: &Fetch<T>, used: bool) -> (kept: bool)
    ensures
        kept == (*state is Fetching || used),
{
    match state {
        Fetch::Fetching => true,
        _ => used,
    }
}

} // verus!
