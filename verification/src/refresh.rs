//! The enrichment refresh after a queue change: which cache entries the bar drops, and which
//! lyrics, audio features and album art it starts fetching.
use crate::chars::blank;
use crate::enrichment::{
    art_in_use, art_shown, audio_in_use, is_later, lyrics_in_use, lyrics_span, lyrics_window, names,
    wants_lyrics, Fetch,
};
use crate::music::{CondensedPlaylist, Track};
use crate::spotify::texts;
use std::time::Instant;
use vstd::prelude::*;

verus! {

/// A cache by its keys' characters and its entries' states.
pub open spec fn cache_view<T>(cache: Seq<(String, Fetch<T>)>) -> Seq<(Seq<char>, Fetch<T>)> {
    cache.map_values(|entry: (String, Fetch<T>)| (entry.0@, entry.1))
}

/// No key occurs twice in the cache.
pub open spec fn distinct_keys<T>(cache: Seq<(Seq<char>, Fetch<T>)>) -> bool {
    forall|i: int, j: int| 0 <= i < j < cache.len() ==> #[trigger] cache[i].0 != #[trigger] cache[j].0
}

/// Whether the cache holds the key.
pub open spec fn has_key<T>(cache: Seq<(Seq<char>, Fetch<T>)>, key: Seq<char>) -> bool {
    exists|i: int| 0 <= i < cache.len() && (#[trigger] cache[i]).0 == key
}

/// Where the cache holds the key.
pub open spec fn key_slot<T>(cache: Seq<(Seq<char>, Fetch<T>)>, key: Seq<char>) -> int {
    choose|i: int| 0 <= i < cache.len() && (#[trigger] cache[i]).0 == key
}

/// Requesting one key at `now`: a cached entry is marked as being fetched when it is missing
/// and its retry time has come; a key not cached yet is added as missing since `reading` (the
/// clock's reading when it is added) and requested the same way.  Gives the cache after it and
/// whether the fetch starts.
pub open spec fn request_step<T>(
    cache: Seq<(Seq<char>, Fetch<T>)>,
    key: Seq<char>,
    reading: Instant,
    now: Instant,
) -> (Seq<(Seq<char>, Fetch<T>)>, bool) {
    if has_key(cache, key) {
        let i = key_slot(cache, key);
        let due = match cache[i].1 {
            Fetch::Missing(at) => !is_later(at, now),
            _ => false,
        };
        (if due {
            cache.update(i, (key, Fetch::Fetching))
        } else {
            cache
        }, due)
    } else {
        let due = !is_later(reading, now);
        (cache.push((key, if due {
            Fetch::Fetching
        } else {
            Fetch::Missing(reading)
        })), due)
    }
}

/// Requesting the keys in order, with the clock's reading for each key that gets added.
pub open spec fn request_all<T>(
    cache: Seq<(Seq<char>, Fetch<T>)>,
    keys: Seq<Seq<char>>,
    readings: Seq<Instant>,
    now: Instant,
) -> (Seq<(Seq<char>, Fetch<T>)>, Seq<bool>)
    decreases keys.len(),
{
    if keys.len() == 0 {
        (cache, Seq::empty())
    } else {
        let (before, started) = request_all(cache, keys.drop_last(), readings, now);
        let (after, due) = request_step(before, keys.last(), readings[keys.len() - 1], now);
        (after, started.push(due))
    }
}

/// Requests one key; see `request_step`.
fn request_key<T>(cache: &mut Vec<(String, Fetch<T>)>, key: &String, now: Instant) -> (started: bool)
    requires
        distinct_keys(cache_view(old(cache)@)),
    ensures
        distinct_keys(cache_view(final(cache)@)),
        exists|reading: Instant|
            (cache_view(final(cache)@), started) == #[trigger] request_step(
                cache_view(old(cache)@),
                key@,
                reading,
                now,
            ),
{
    let ghost before = cache_view(cache@);
    let mut k: usize = 0;
    while k < cache.len()
        invariant
            k <= cache@.len(),
            before == cache_view(cache@),
            before == cache_view(old(cache)@),
            distinct_keys(before),
            forall|i: int| 0 <= i < k ==> (#[trigger] cache@[i]).0@ != key@,
        decreases cache@.len() - k,
    {
        if cache[k].0 == *key {
            proof {
                assert(before[k as int].0 == key@);
                assert(has_key(before, key@));
                let slot = key_slot(before, key@);
                if slot != k {
                    if slot < k {
                        assert(before[slot].0 == key@);
                    } else {
                        assert(before[k as int].0 == before[slot].0);
                    }
                }
            }
            let ghost old_entries = cache@;
            let started = cache[k].1.request(now);
            proof {
                let reading: Instant = vstd::pervasive::arbitrary();
                assert(cache@ == old_entries.update(k as int, (old_entries[k as int].0, cache@[k as int].1)));
                assert(key_slot(before, key@) == k);
                assert(cache_view(cache@) =~= request_step(before, key@, reading, now).0);
                assert((cache_view(cache@), started) == request_step(before, key@, reading, now));
                assert(distinct_keys(cache_view(cache@))) by {
                    assert forall|i: int, j: int| 0 <= i < j < cache@.len() implies
                        #[trigger] cache_view(cache@)[i].0 != #[trigger] cache_view(cache@)[j].0 by {
                        assert(cache_view(cache@)[i].0 == before[i].0);
                        assert(cache_view(cache@)[j].0 == before[j].0);
                    }
                }
            }
            return started;
        }
        k += 1;
    }
    proof {
        assert(!has_key(before, key@)) by {
            if has_key(before, key@) {
                let i = choose|i: int| 0 <= i < before.len() && (#[trigger] before[i]).0 == key@;
                assert(cache@[i].0@ == key@);
            }
        }
    }
    let mut state: Fetch<T> = Fetch::default();
    let ghost reading = state->Missing_0;
    let started = state.request(now);
    cache.push((key.clone(), state));
    proof {
        assert(cache_view(cache@) =~= request_step(before, key@, reading, now).0);
        assert((cache_view(cache@), started) == request_step(before, key@, reading, now));
        assert(distinct_keys(cache_view(cache@))) by {
            assert forall|i: int, j: int| 0 <= i < j < cache@.len() implies
                #[trigger] cache_view(cache@)[i].0 != #[trigger] cache_view(cache@)[j].0 by {
                if j == cache@.len() - 1 {
                    assert(cache_view(cache@)[i].0 == before[i].0);
                    assert(before[i].0 == cache@[i].0@);
                } else {
                    assert(cache_view(cache@)[i].0 == before[i].0);
                    assert(cache_view(cache@)[j].0 == before[j].0);
                }
            }
        }
    }
    started
}


/// The clock readings count only up to the number of keys.
proof fn lemma_readings_prefix<T>(
    cache: Seq<(Seq<char>, Fetch<T>)>,
    keys: Seq<Seq<char>>,
    readings: Seq<Instant>,
    more: Seq<Instant>,
    now: Instant,
)
    requires
        readings.len() >= keys.len(),
        more.len() >= keys.len(),
        forall|i: int| 0 <= i < keys.len() ==> readings[i] == more[i],
    ensures
        request_all(cache, keys, readings, now) == request_all(cache, keys, more, now),
    decreases keys.len(),
{
    if keys.len() > 0 {
        lemma_readings_prefix(cache, keys.drop_last(), readings, more, now);
    }
}

/// Requesting keys says, of each key, whether its fetch starts.
proof fn lemma_request_all_len<T>(
    cache: Seq<(Seq<char>, Fetch<T>)>,
    keys: Seq<Seq<char>>,
    readings: Seq<Instant>,
    now: Instant,
)
    ensures
        request_all(cache, keys, readings, now).1.len() == keys.len(),
    decreases keys.len(),
{
    if keys.len() > 0 {
        lemma_request_all_len(cache, keys.drop_last(), readings, now);
    }
}

/// Requests the keys in order; see `request_all`.
fn request_keys<T>(cache: &mut Vec<(String, Fetch<T>)>, keys: &Vec<String>, now: Instant) -> (started: Vec<
    bool,
>)
    requires
        distinct_keys(cache_view(old(cache)@)),
    ensures
        distinct_keys(cache_view(final(cache)@)),
        started@.len() == keys@.len(),
        exists|readings: Seq<Instant>|
            readings.len() == keys@.len() && (cache_view(final(cache)@), started@)
                == #[trigger] request_all(cache_view(old(cache)@), texts(keys@), readings, now),
{
    let ghost start = cache_view(cache@);
    let ghost mut readings: Seq<Instant> = Seq::empty();
    let mut started: Vec<bool> = Vec::new();
    let mut k: usize = 0;
    proof {
        assert(texts(keys@).take(0) =~= Seq::<Seq<char>>::empty());
    }
    while k < keys.len()
        invariant
            k <= keys@.len(),
            start == cache_view(old(cache)@),
            distinct_keys(cache_view(cache@)),
            readings.len() == k,
            (cache_view(cache@), started@) == request_all(start, texts(keys@).take(k as int), readings, now),
        decreases keys@.len() - k,
    {
        let ghost before = cache_view(cache@);
        let due = request_key(cache, &keys[k], now);
        proof {
            let reading = choose|reading: Instant|
                (cache_view(cache@), due) == #[trigger] request_step(before, keys@[k as int]@, reading, now);
            let more = readings.push(reading);
            let taken = texts(keys@).take(k + 1);
            assert(taken.drop_last() =~= texts(keys@).take(k as int));
            assert(taken.last() == keys@[k as int]@);
            lemma_readings_prefix(start, texts(keys@).take(k as int), readings, more, now);
            readings = more;
        }
        started.push(due);
        k += 1;
    }
    proof {
        assert(texts(keys@).take(k as int) =~= texts(keys@));
        lemma_request_all_len(start, texts(keys@), readings, now);
    }
    started
}

/// The entries that survive a refresh, in order: those being fetched, and those whose key is
/// still used.
pub open spec fn kept<T>(cache: Seq<(Seq<char>, Fetch<T>)>, used: spec_fn(Seq<char>) -> bool) -> Seq<
    (Seq<char>, Fetch<T>),
>
    decreases cache.len(),
{
    if cache.len() == 0 {
        cache
    } else {
        let rest = kept(cache.drop_last(), used);
        if cache.last().1 is Fetching || used(cache.last().0) {
            rest.push(cache.last())
        } else {
            rest
        }
    }
}

proof fn lemma_kept_distinct<T>(cache: Seq<(Seq<char>, Fetch<T>)>, used: spec_fn(Seq<char>) -> bool)
    requires
        distinct_keys(cache),
    ensures
        distinct_keys(kept(cache, used)),
        forall|m: int|
            0 <= m < kept(cache, used).len() ==> exists|i: int|
                0 <= i < cache.len() && #[trigger] kept(cache, used)[m] == cache[i],
    decreases cache.len(),
{
    if cache.len() > 0 {
        let rest = cache.drop_last();
        assert(distinct_keys(rest)) by {
            assert forall|i: int, j: int| 0 <= i < j < rest.len() implies #[trigger] rest[i].0
                != #[trigger] rest[j].0 by {
                assert(rest[i] == cache[i] && rest[j] == cache[j]);
            }
        }
        lemma_kept_distinct(rest, used);
        let before = kept(rest, used);
        let after = kept(cache, used);
        assert forall|m: int| 0 <= m < after.len() implies exists|i: int|
            0 <= i < cache.len() && #[trigger] after[m] == cache[i] by {
            if m < before.len() {
                assert(after[m] == before[m]);
                let i = choose|i: int| 0 <= i < rest.len() && #[trigger] before[m] == rest[i];
                assert(cache[i] == rest[i]);
            } else {
                assert(after[m] == cache[cache.len() - 1]);
            }
        }
        assert forall|i: int, j: int| 0 <= i < j < after.len() implies #[trigger] after[i].0
            != #[trigger] after[j].0 by {
            if j < before.len() {
                assert(after[i] == before[i] && after[j] == before[j]);
            } else {
                assert(after[j] == cache[cache.len() - 1]);
                assert(after[i] == before[i]);
                let p = choose|p: int| 0 <= p < rest.len() && #[trigger] before[i] == rest[p];
                assert(rest[p] == cache[p]);
            }
        }
    }
}

/// Drops the entries that are neither being fetched nor used; `used` tells, entry by entry,
/// whether its key is used.
fn retain_used<T>(
    cache: &mut Vec<(String, Fetch<T>)>,
    used: &Vec<bool>,
    Ghost(uses): Ghost<spec_fn(Seq<char>) -> bool>,
)
    requires
        old(cache)@.len() == used@.len(),
        forall|i: int| 0 <= i < used@.len() ==> used@[i] == uses(#[trigger] old(cache)@[i].0@),
        distinct_keys(cache_view(old(cache)@)),
    ensures
        cache_view(final(cache)@) == kept(cache_view(old(cache)@), uses),
        distinct_keys(cache_view(final(cache)@)),
{
    let ghost whole = cache_view(cache@);
    let ghost original = cache@;
    let mut entries: Vec<(String, Fetch<T>)> = Vec::new();
    std::mem::swap(cache, &mut entries);
    let mut j: usize = 0;
    proof {
        assert(original.skip(0) =~= original);
        assert(whole.take(0) =~= Seq::<(Seq<char>, Fetch<T>)>::empty());
        assert(cache_view(cache@) =~= Seq::<(Seq<char>, Fetch<T>)>::empty());
    }
    while j < used.len()
        invariant
            j <= used@.len(),
            original.len() == used@.len(),
            whole == cache_view(original),
            forall|i: int| 0 <= i < used@.len() ==> used@[i] == uses(#[trigger] original[i].0@),
            entries@ == original.skip(j as int),
            cache_view(cache@) == kept(whole.take(j as int), uses),
        decreases used@.len() - j,
    {
        let entry = entries.remove(0);
        proof {
            assert(entry == original[j as int]);
            assert(entries@ =~= original.skip(j + 1));
            assert(whole.take(j + 1).drop_last() =~= whole.take(j as int));
            assert(whole.take(j + 1).last() == (original[j as int].0@, original[j as int].1));
        }
        let ghost before = cache@;
        if crate::enrichment::keeps(&entry.1, used[j]) {
            cache.push(entry);
            proof {
                assert(cache_view(cache@) =~= cache_view(before).push((original[j as int].0@, original[j as int].1)));
            }
        }
        j += 1;
    }
    proof {
        assert(whole.take(j as int) =~= whole);
        lemma_kept_distinct(whole, uses);
    }
}


/// Whether some track of the queue has the id.
pub open spec fn id_used(queue: Seq<Track>, id: Seq<char>) -> bool {
    exists|i: int| 0 <= i < queue.len() && names((#[trigger] queue[i]).id, id)
}

/// Whether some track of the queue has the address.
pub open spec fn uri_used(queue: Seq<Track>, uri: Seq<char>) -> bool {
    exists|i: int| 0 <= i < queue.len() && (#[trigger] queue[i]).uri@ == uri
}

/// Which album art keys are in use.
pub open spec fn art_use(queue: Seq<Track>, playlists: Seq<CondensedPlaylist>) -> spec_fn(Seq<char>) -> bool {
    |url: Seq<char>| art_shown(url, queue, playlists)
}

/// Which audio feature keys are in use.
pub open spec fn audio_use(queue: Seq<Track>) -> spec_fn(Seq<char>) -> bool {
    |id: Seq<char>| id_used(queue, id)
}

/// Which lyrics keys are in use.
pub open spec fn lyrics_use(queue: Seq<Track>) -> spec_fn(Seq<char>) -> bool {
    |uri: Seq<char>| uri_used(queue, uri)
}

/// The queue entries in `start..end` whose lyrics are wanted, in order.
pub open spec fn wanted_between(queue: Seq<Track>, start: int, end: int) -> Seq<int>
    decreases end - start,
{
    if end <= start {
        Seq::empty()
    } else {
        let rest = wanted_between(queue, start, end - 1);
        if !blank(queue[end - 1].name@) {
            rest.push(end - 1)
        } else {
            rest
        }
    }
}

/// The queue entries whose lyrics a refresh asks for: those of the lyrics window around the
/// current entry that have a name, when lyrics are on.
pub open spec fn lyric_targets(queue: Seq<Track>, index: int, enabled: bool) -> Seq<int> {
    if enabled {
        wanted_between(queue, lyrics_span(index, queue.len() as int).0, lyrics_span(index, queue.len() as int).1)
    } else {
        Seq::empty()
    }
}

/// The addresses of the given queue entries.
pub open spec fn uris_at(queue: Seq<Track>, entries: Seq<int>) -> Seq<Seq<char>> {
    entries.map_values(|i: int| queue[i].uri@)
}

/// The ids of the queue's tracks that have one, in order.
pub open spec fn track_ids(queue: Seq<Track>) -> Seq<Seq<char>>
    decreases queue.len(),
{
    if queue.len() == 0 {
        Seq::empty()
    } else {
        let rest = track_ids(queue.drop_last());
        match queue.last().id {
            Some(id) => rest.push(id@),
            None => rest,
        }
    }
}

/// The art addresses of the queue's tracks that have one, in order.
pub open spec fn track_images(queue: Seq<Track>) -> Seq<Seq<char>>
    decreases queue.len(),
{
    if queue.len() == 0 {
        Seq::empty()
    } else {
        let rest = track_images(queue.drop_last());
        match queue.last().image {
            Some(url) => rest.push(url@),
            None => rest,
        }
    }
}

/// The cover addresses of the playlists that have one, in order.
pub open spec fn playlist_covers(playlists: Seq<CondensedPlaylist>) -> Seq<Seq<char>>
    decreases playlists.len(),
{
    if playlists.len() == 0 {
        Seq::empty()
    } else {
        let rest = playlist_covers(playlists.drop_last());
        match playlists.last().image_url {
            Some(url) => rest.push(url@),
            None => rest,
        }
    }
}

/// The items whose flag is set, in order.
pub open spec fn picked<T>(items: Seq<T>, flags: Seq<bool>) -> Seq<T>
    decreases items.len(),
{
    if items.len() == 0 {
        Seq::empty()
    } else {
        let rest = picked(items.drop_last(), flags);
        if flags[items.len() - 1] {
            rest.push(items.last())
        } else {
            rest
        }
    }
}

/// The indices whose flag is set, in order.
fn pick_indices(items: &Vec<usize>, flags: &Vec<bool>) -> (chosen: Vec<usize>)
    requires
        flags@.len() == items@.len(),
    ensures
        chosen@.map_values(|i: usize| i as int) == picked(items@.map_values(|i: usize| i as int), flags@),
{
    let mut chosen: Vec<usize> = Vec::new();
    let mut k: usize = 0;
    while k < items.len()
        invariant
            k <= items@.len(),
            flags@.len() == items@.len(),
            chosen@.map_values(|i: usize| i as int) == picked(
                items@.map_values(|i: usize| i as int).take(k as int),
                flags@,
            ),
        decreases items@.len() - k,
    {
        proof {
            let all = items@.map_values(|i: usize| i as int);
            assert(all.take(k + 1).drop_last() =~= all.take(k as int));
        }
        if flags[k] {
            let ghost before = chosen@;
            chosen.push(items[k]);
            proof {
                assert(chosen@.map_values(|i: usize| i as int) =~= before.map_values(|i: usize| i as int).push(
                    items@[k as int] as int,
                ));
            }
        }
        k += 1;
    }
    proof {
        assert(items@.map_values(|i: usize| i as int).take(k as int) =~= items@.map_values(|i: usize| i as int));
    }
    chosen
}

/// The texts whose flag is set, in order.
fn pick_texts(items: &Vec<String>, flags: &Vec<bool>) -> (chosen: Vec<String>)
    requires
        flags@.len() == items@.len(),
    ensures
        texts(chosen@) == picked(texts(items@), flags@),
{
    let mut chosen: Vec<String> = Vec::new();
    let mut k: usize = 0;
    while k < items.len()
        invariant
            k <= items@.len(),
            flags@.len() == items@.len(),
            texts(chosen@) == picked(texts(items@).take(k as int), flags@),
        decreases items@.len() - k,
    {
        proof {
            assert(texts(items@).take(k + 1).drop_last() =~= texts(items@).take(k as int));
        }
        if flags[k] {
            let ghost before = chosen@;
            chosen.push(items[k].clone());
            proof {
                assert(texts(chosen@) =~= texts(before).push(items@[k as int]@));
            }
        }
        k += 1;
    }
    proof {
        assert(texts(items@).take(k as int) =~= texts(items@));
    }
    chosen
}


/// Whether each cached key is used, entry by entry.
fn art_marks<T>(cache: &Vec<(String, Fetch<T>)>, queue: &Vec<Track>, playlists: &Vec<CondensedPlaylist>) -> (marks:
    Vec<bool>)
    ensures
        marks@.len() == cache@.len(),
        forall|i: int|
            0 <= i < marks@.len() ==> marks@[i] == art_use(queue@, playlists@)(#[trigger] cache@[i].0@),
{
    let mut marks: Vec<bool> = Vec::new();
    let mut k: usize = 0;
    while k < cache.len()
        invariant
            k <= cache@.len(),
            marks@.len() == k,
            forall|i: int|
                0 <= i < k ==> marks@[i] == art_use(queue@, playlists@)(#[trigger] cache@[i].0@),
        decreases cache@.len() - k,
    {
        marks.push(art_in_use(&cache[k].0, queue, playlists));
        k += 1;
    }
    marks
}

/// Whether each cached track id is used, entry by entry.
fn audio_marks<T>(cache: &Vec<(String, Fetch<T>)>, queue: &Vec<Track>) -> (marks: Vec<bool>)
    ensures
        marks@.len() == cache@.len(),
        forall|i: int| 0 <= i < marks@.len() ==> marks@[i] == audio_use(queue@)(#[trigger] cache@[i].0@),
{
    let mut marks: Vec<bool> = Vec::new();
    let mut k: usize = 0;
    while k < cache.len()
        invariant
            k <= cache@.len(),
            marks@.len() == k,
            forall|i: int| 0 <= i < k ==> marks@[i] == audio_use(queue@)(#[trigger] cache@[i].0@),
        decreases cache@.len() - k,
    {
        marks.push(audio_in_use(&cache[k].0, queue));
        k += 1;
    }
    marks
}

/// Whether each cached track address is used, entry by entry.
fn lyrics_marks<T>(cache: &Vec<(String, Fetch<T>)>, queue: &Vec<Track>) -> (marks: Vec<bool>)
    ensures
        marks@.len() == cache@.len(),
        forall|i: int| 0 <= i < marks@.len() ==> marks@[i] == lyrics_use(queue@)(#[trigger] cache@[i].0@),
{
    let mut marks: Vec<bool> = Vec::new();
    let mut k: usize = 0;
    while k < cache.len()
        invariant
            k <= cache@.len(),
            marks@.len() == k,
            forall|i: int| 0 <= i < k ==> marks@[i] == lyrics_use(queue@)(#[trigger] cache@[i].0@),
        decreases cache@.len() - k,
    {
        marks.push(lyrics_in_use(&cache[k].0, queue));
        k += 1;
    }
    marks
}

/// The queue entries of the lyrics window that want lyrics, with their addresses.
fn lyric_requests(queue: &Vec<Track>, index: usize, enabled: bool) -> (requests: (Vec<usize>, Vec<String>))
    ensures
        requests.0@.map_values(|i: usize| i as int) == lyric_targets(queue@, index as int, enabled),
        texts(requests.1@) == uris_at(queue@, lyric_targets(queue@, index as int, enabled)),
{
    let mut entries: Vec<usize> = Vec::new();
    let mut keys: Vec<String> = Vec::new();
    if !enabled {
        proof {
            assert(entries@.map_values(|i: usize| i as int) =~= Seq::<int>::empty());
            assert(texts(keys@) =~= uris_at(queue@, Seq::<int>::empty()));
        }
        return (entries, keys);
    }
    let (start, end) = lyrics_window(index, queue.len());
    let mut k: usize = start;
    proof {
        assert(entries@.map_values(|i: usize| i as int) =~= wanted_between(queue@, start as int, start as int));
        assert(texts(keys@) =~= uris_at(queue@, wanted_between(queue@, start as int, start as int)));
    }
    while k < end
        invariant
            start <= k <= end <= queue@.len(),
            entries@.map_values(|i: usize| i as int) == wanted_between(queue@, start as int, k as int),
            texts(keys@) == uris_at(queue@, wanted_between(queue@, start as int, k as int)),
        decreases end - k,
    {
        if wants_lyrics(&queue[k]) {
            let ghost (e0, k0) = (entries@, keys@);
            entries.push(k);
            keys.push(queue[k].uri.clone());
            proof {
                assert(entries@.map_values(|i: usize| i as int) =~= e0.map_values(|i: usize| i as int).push(
                    k as int,
                ));
                assert(texts(keys@) =~= texts(k0).push(queue@[k as int].uri@));
                assert(uris_at(queue@, wanted_between(queue@, start as int, k + 1)) =~= uris_at(
                    queue@,
                    wanted_between(queue@, start as int, k as int),
                ).push(queue@[k as int].uri@));
            }
        }
        k += 1;
    }
    (entries, keys)
}

/// The ids of the queue's tracks that have one.
fn queue_ids(queue: &Vec<Track>) -> (ids: Vec<String>)
    ensures
        texts(ids@) == track_ids(queue@),
{
    let mut ids: Vec<String> = Vec::new();
    let mut k: usize = 0;
    while k < queue.len()
        invariant
            k <= queue@.len(),
            texts(ids@) == track_ids(queue@.take(k as int)),
        decreases queue@.len() - k,
    {
        proof {
            assert(queue@.take(k + 1).drop_last() =~= queue@.take(k as int));
        }
        match &queue[k].id {
            Some(id) => {
                let ghost before = ids@;
                ids.push(id.clone());
                proof {
                    assert(texts(ids@) =~= texts(before).push(id@));
                }
            },
            None => {},
        }
        k += 1;
    }
    proof {
        assert(queue@.take(k as int) =~= queue@);
    }
    ids
}

/// The art addresses of the queue's tracks, then the playlists' cover addresses.
fn art_addresses(queue: &Vec<Track>, playlists: &Vec<CondensedPlaylist>) -> (urls: Vec<String>)
    ensures
        texts(urls@) == track_images(queue@) + playlist_covers(playlists@),
{
    let mut urls: Vec<String> = Vec::new();
    let mut k: usize = 0;
    while k < queue.len()
        invariant
            k <= queue@.len(),
            texts(urls@) == track_images(queue@.take(k as int)),
        decreases queue@.len() - k,
    {
        proof {
            assert(queue@.take(k + 1).drop_last() =~= queue@.take(k as int));
        }
        match &queue[k].image {
            Some(url) => {
                let ghost before = urls@;
                urls.push(url.clone());
                proof {
                    assert(texts(urls@) =~= texts(before).push(url@));
                }
            },
            None => {},
        }
        k += 1;
    }
    proof {
        assert(queue@.take(k as int) =~= queue@);
        assert(track_images(queue@) + playlist_covers(playlists@).take(0) =~= track_images(queue@));
    }
    let mut p: usize = 0;
    while p < playlists.len()
        invariant
            p <= playlists@.len(),
            texts(urls@) == track_images(queue@) + playlist_covers(playlists@.take(p as int)),
        decreases playlists@.len() - p,
    {
        proof {
            assert(playlists@.take(p + 1).drop_last() =~= playlists@.take(p as int));
        }
        match &playlists[p].image_url {
            Some(url) => {
                let ghost before = urls@;
                urls.push(url.clone());
                proof {
                    assert(texts(urls@) =~= texts(before).push(url@));
                }
            },
            None => {},
        }
        p += 1;
    }
    proof {
        assert(playlists@.take(p as int) =~= playlists@);
    }
    urls
}

/// One enrichment refresh after the queue or the playlists changed, at the instant `now`.
/// First each cache drops the entries that are neither being fetched nor used (art shown by
/// a track or a playlist, audio features of a track's id, lyrics of a track's address).  Then
/// it requests, in order, the lyrics of the window around entry `index` whose tracks have a
/// name (when lyrics are on), the audio features of every track id, and the art of every
/// track and then every playlist; a key not cached yet is added as missing since the clock's
/// reading.  Returns the queue entries whose lyrics, the ids whose audio features and the
/// addresses whose art should now be fetched.
pub fn refresh_plan<A, B, C>(
    art: &mut Vec<(String, Fetch<A>)>,
    audio: &mut Vec<(String, Fetch<B>)>,
    lyrics: &mut Vec<(String, Fetch<C>)>,
    queue: &Vec<Track>,
    playlists: &Vec<CondensedPlaylist>,
    index: usize,
    lyrics_enabled: bool,
    now: Instant,
) -> (fetches: (Vec<usize>, Vec<String>, Vec<String>))
    requires
        distinct_keys(cache_view(old(art)@)),
        distinct_keys(cache_view(old(audio)@)),
        distinct_keys(cache_view(old(lyrics)@)),
    ensures
        distinct_keys(cache_view(final(art)@)),
        distinct_keys(cache_view(final(audio)@)),
        distinct_keys(cache_view(final(lyrics)@)),
        exists|readings: Seq<Instant>|
            #![trigger request_all(
                kept(cache_view(old(lyrics)@), lyrics_use(queue@)),
                uris_at(queue@, lyric_targets(queue@, index as int, lyrics_enabled)),
                readings,
                now,
            )]
            {
                let targets = lyric_targets(queue@, index as int, lyrics_enabled);
                let result = request_all(
                    kept(cache_view(old(lyrics)@), lyrics_use(queue@)),
                    uris_at(queue@, targets),
                    readings,
                    now,
                );
                &&& readings.len() == targets.len()
                &&& cache_view(final(lyrics)@) == result.0
                &&& fetches.0@.map_values(|i: usize| i as int) == picked(targets, result.1)
            },
        exists|readings: Seq<Instant>|
            #![trigger request_all(kept(cache_view(old(audio)@), audio_use(queue@)), track_ids(queue@), readings, now)]
            {
                let result = request_all(
                    kept(cache_view(old(audio)@), audio_use(queue@)),
                    track_ids(queue@),
                    readings,
                    now,
                );
                &&& readings.len() == track_ids(queue@).len()
                &&& cache_view(final(audio)@) == result.0
                &&& texts(fetches.1@) == picked(track_ids(queue@), result.1)
            },
        exists|readings: Seq<Instant>|
            #![trigger request_all(
                kept(cache_view(old(art)@), art_use(queue@, playlists@)),
                track_images(queue@) + playlist_covers(playlists@),
                readings,
                now,
            )]
            {
                let urls = track_images(queue@) + playlist_covers(playlists@);
                let result = request_all(
                    kept(cache_view(old(art)@), art_use(queue@, playlists@)),
                    urls,
                    readings,
                    now,
                );
                &&& readings.len() == urls.len()
                &&& cache_view(final(art)@) == result.0
                &&& texts(fetches.2@) == picked(urls, result.1)
            },
{
    let art_used = art_marks(art, queue, playlists);
    retain_used(art, &art_used, Ghost(art_use(queue@, playlists@)));
    let audio_used = audio_marks(audio, queue);
    retain_used(audio, &audio_used, Ghost(audio_use(queue@)));
    let lyrics_used = lyrics_marks(lyrics, queue);
    retain_used(lyrics, &lyrics_used, Ghost(lyrics_use(queue@)));

    let (targets, lyric_keys) = lyric_requests(queue, index, lyrics_enabled);
    let lyric_started = request_keys(lyrics, &lyric_keys, now);
    let lyric_fetches = pick_indices(&targets, &lyric_started);

    let ids = queue_ids(queue);
    let audio_started = request_keys(audio, &ids, now);
    let audio_fetches = pick_texts(&ids, &audio_started);

    let urls = art_addresses(queue, playlists);
    let art_started = request_keys(art, &urls, now);
    let art_fetches = pick_texts(&urls, &art_started);
    (lyric_fetches, audio_fetches, art_fetches)
}

} // verus!
