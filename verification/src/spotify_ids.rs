//! Spotify addresses and ids: which item a `spotify:` address names, and the base-62,
//! raw and hexadecimal forms of ids, as librespot reads and writes them.

use crate::chars::{chars_of, pieces};
use librespot_core::{FileId, SpotifyId, SpotifyUri};
use vstd::arithmetic::power::pow;
use vstd::prelude::*;

verus! {

/// The value of a base-62 digit: `0-9`, then `a-z`, then `A-Z`.
pub open spec fn base62_digit(c: char) -> Option<int> {
    if '0' <= c <= '9' {
        Some(c as int - '0' as int)
    } else if 'a' <= c <= 'z' {
        Some(c as int - 'a' as int + 10)
    } else if 'A' <= c <= 'Z' {
        Some(c as int - 'A' as int + 36)
    } else {
        None
    }
}

/// The number that base-62 digits spell, most significant first.
pub open spec fn base62_value(text: Seq<char>) -> int
    decreases text.len(),
{
    if text.len() == 0 {
        0
    } else {
        base62_value(text.drop_last()) * 62 + match base62_digit(text.last()) {
            Some(d) => d,
            None => 0,
        }
    }
}

/// The id a base-62 text names: exactly 22 digits whose number fits in 128 bits.
pub open spec fn base62_id(text: Seq<char>) -> Option<u128> {
    if text.len() == 22 && (forall|i: int| 0 <= i < 22 ==> #[trigger] base62_digit(text[i]) is Some)
        && base62_value(text) <= u128::MAX {
        Some(base62_value(text) as u128)
    } else {
        None
    }
}

/// The base-62 digit for a value below 62.
pub open spec fn base62_char(d: int) -> char {
    if d < 10 {
        (d + '0' as int) as char
    } else if d < 36 {
        (d - 10 + 'a' as int) as char
    } else {
        (d - 36 + 'A' as int) as char
    }
}

/// The canonical text of an id: 22 base-62 digits, most significant first, zero-padded.
pub open spec fn base62_text(id: u128) -> Seq<char> {
    Seq::new(22, |i: int| base62_char((id as int / pow(62, (21 - i) as nat)) % 62))
}

/// The 16 bytes of an id, most significant first.
pub open spec fn raw_bytes(id: u128) -> Seq<u8> {
    Seq::new(16, |i: int| ((id as int / pow(256, (15 - i) as nat)) % 256) as u8)
}

/// The lowercase hexadecimal digit of a value below 16.
pub open spec fn lower_hex_digit(d: int) -> char {
    if d < 10 {
        (d + '0' as int) as char
    } else {
        (d - 10 + 'a' as int) as char
    }
}

/// Bytes in lowercase hexadecimal, two digits each, high nibble first.
pub open spec fn lower_hex(bytes: Seq<u8>) -> Seq<char> {
    Seq::new(
        2 * bytes.len(),
        |i: int|
            if i % 2 == 0 {
                lower_hex_digit(bytes[i / 2] as int / 16)
            } else {
                lower_hex_digit(bytes[i / 2] as int % 16)
            },
    )
}

/// What a `spotify:` address names, as far as this crate looks at it.
#[derive(Clone, Copy, Debug, PartialEq, Eq, Structural)]
pub enum UriItem {
    Track(u128),
    Playlist(u128),
    Other,
}

/// The kind and the name an address spells: `spotify:{kind}:{name}` or
/// `spotify:user:{user}:{kind}:{name}`, further pieces ignored.
pub open spec fn kind_and_name(parts: Seq<Seq<char>>) -> Option<(Seq<char>, Seq<char>)> {
    if parts.len() >= 1 && parts[0] == "spotify"@ {
        if parts.len() >= 2 && parts[1] == "user"@ {
            if parts.len() >= 5 {
                Some((parts[3], parts[4]))
            } else {
                None
            }
        } else if parts.len() >= 3 {
            Some((parts[1], parts[2]))
        } else {
            None
        }
    } else {
        None
    }
}

/// The item an address names: a track or a playlist whose name is a valid base-62 id, or
/// something else (another kind, or no valid address at all).
pub open spec fn item_of(uri: Seq<char>) -> UriItem {
    match kind_and_name(pieces(uri, ":"@)) {
        Some((kind, name)) => match base62_id(name) {
            Some(id) => if kind == "track"@ {
                UriItem::Track(id)
            } else if kind == "playlist"@ {
                UriItem::Playlist(id)
            } else {
                UriItem::Other
            },
            None => UriItem::Other,
        },
        None => UriItem::Other,
    }
}

/// `SpotifyUri::from_uri`, read down to the items this crate tells apart: the address splits at
/// `:`, must start with `spotify`, may name a user first, and a track or playlist needs a name
/// that `SpotifyId::from_base62` accepts; every error and every other kind is `Other`.
#[verifier::external_body]
fn uri_item(uri: &str) -> (item: UriItem)
    ensures
        item == item_of(uri@),
{
    match SpotifyUri::from_uri(uri) {
        Ok(SpotifyUri::Track { id }) => UriItem::Track(id.id),
        Ok(SpotifyUri::Playlist { id, .. }) => UriItem::Playlist(id.id),
        _ => UriItem::Other,
    }
}

/// `SpotifyId::from_base62`: accepts exactly 22 base-62 digits whose number fits in 128 bits,
/// and gives that number.
#[verifier::external_body]
fn id_from_base62(text: &str) -> (id: Option<u128>)
    ensures
        id == base62_id(text@),
{
    SpotifyId::from_base62(text).ok().map(|id| id.id)
}

/// `SpotifyId::to_base62`: the 22 base-62 digits of the id, most significant first; the
/// digits are ASCII, so the text is always made.
#[verifier::external_body]
fn id_to_base62(id: u128) -> (text: Option<String>)
    ensures
        text is Some,
        text->0@ == base62_text(id),
{
    SpotifyId { id }.to_base62().ok()
}

/// `SpotifyId::to_raw`: the id's 16 bytes, most significant first.
#[verifier::external_body]
fn id_to_raw(id: u128) -> (raw: [u8; 16])
    ensures
        raw@ == raw_bytes(id),
{
    SpotifyId { id }.to_raw()
}

/// `FileId::from_raw` on 20 bytes, written with `Display`: the bytes in lowercase
/// hexadecimal.
#[verifier::external_body]
pub(crate) fn file_id_text(raw: &Vec<u8>) -> (text: String)
    requires
        raw@.len() == 20,
    ensures
        text@ == lower_hex(raw@),
{
    FileId::from_raw(raw.as_slice()).to_string()
}

/// A text that may be absent, by its characters.
pub open spec fn text_view(text: Option<String>) -> Option<Seq<char>> {
    match text {
        Some(t) => Some(t@),
        None => None,
    }
}

/// The id text of the track an address names.
pub open spec fn track_id_text(uri: Seq<char>) -> Option<Seq<char>> {
    match item_of(uri) {
        UriItem::Track(id) => Some(base62_text(id)),
        _ => None,
    }
}

/// The id text of the playlist an address names.
pub open spec fn playlist_id_text(uri: Seq<char>) -> Option<Seq<char>> {
    match item_of(uri) {
        UriItem::Playlist(id) => Some(base62_text(id)),
        _ => None,
    }
}

/// The id of the track an address names, in its canonical base-62 text.
pub fn track_id_of(uri: &str) -> (id: Option<String>)
    ensures
        text_view(id) == track_id_text(uri@),
{
    match uri_item(uri) {
        UriItem::Track(id) => id_to_base62(id),
        _ => None,
    }
}

/// The id of the playlist an address names, in its canonical base-62 text.
pub fn playlist_id_of(uri: &str) -> (id: Option<String>)
    ensures
        text_view(id) == playlist_id_text(uri@),
{
    match uri_item(uri) {
        UriItem::Playlist(id) => id_to_base62(id),
        _ => None,
    }
}

/// Whether the address names a track.
pub fn is_track_address(uri: &str) -> (track: bool)
    ensures
        track == (item_of(uri@) is Track),
{
    match uri_item(uri) {
        UriItem::Track(_) => true,
        _ => false,
    }
}

/// The 16 raw bytes of a track id given in base-62, if it is one.
pub fn raw_track_id(track_id: &str) -> (raw: Option<[u8; 16]>)
    ensures
        match base62_id(track_id@) {
            Some(id) => raw matches Some(bytes) && bytes@ == raw_bytes(id),
            None => raw is None,
        },
{
    match id_from_base62(track_id) {
        Some(id) => Some(id_to_raw(id)),
        None => None,
    }
}

} // verus!
