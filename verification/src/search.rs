//! The launcher's web search: choosing a provider by alias and building its search address.
use crate::chars::{chars_of, is_whitespace, replace_all, replace_chars, string_of, whitespace};
use crate::config::SearchProvider;
use vstd::prelude::*;
use vstd::string::*;

verus! {


/// A byte that `application/x-www-form-urlencoded` serialization leaves as it is.
pub open spec fn form_unchanged(byte: u8) -> bool {
    byte == 0x2a || byte == 0x2d || byte == 0x2e || byte == 0x5f || (0x30 <= byte <= 0x39) || (
    0x41 <= byte <= 0x5a) || (0x61 <= byte <= 0x7a)
}

/// The uppercase hexadecimal digit of a nibble.
pub open spec fn hex_digit(nibble: u8) -> char {
    if nibble < 10 {
        (48 + nibble) as char
    } else {
        (55 + nibble) as char
    }
}

/// The serialization of one byte: itself, `+` for a space, or `%XX` in uppercase hexadecimal.
pub open spec fn form_byte(byte: u8) -> Seq<char> {
    if form_unchanged(byte) {
        seq![byte as char]
    } else if byte == 0x20 {
        seq!['+']
    } else {
        seq!['%', hex_digit(byte / 16), hex_digit(byte % 16)]
    }
}

/// The `application/x-www-form-urlencoded` serialization of bytes, byte by byte.
pub open spec fn form_encoded(bytes: Seq<u8>) -> Seq<char>
    decreases bytes.len(),
{
    if bytes.len() == 0 {
        Seq::empty()
    } else {
        form_encoded(bytes.drop_last()) + form_byte(bytes.last())
    }
}

/// Calls `form_urlencoded::byte_serialize` on the UTF-8 bytes of a text and collects the
/// pieces: bytes in `*-._0-9A-Za-z` stay, a space becomes `+`, and every other byte becomes
/// `%` and two uppercase hexadecimal digits.
#[verifier::external_body]
pub(crate) fn form_encode(text: &str) -> (encoded: String)
    ensures
        encoded@ == form_encoded(text.spec_bytes()),
{
    form_urlencoded::byte_serialize(text.as_bytes()).collect()
}

/// The search address of a provider: its URL template with each `{searchTerms}` replaced by
/// the form-encoded terms.
pub open spec fn search_address(template: Seq<char>, terms: Seq<u8>) -> Seq<char> {
    replace_all(template, "{searchTerms}"@, form_encoded(terms))
}

/// Builds the address that searches a provider for the given terms.
pub fn search_url(template: &str, terms: &str) -> (address: String)
    ensures
        address@ == search_address(template@, terms.spec_bytes()),
{
    proof {
        reveal_strlit("{searchTerms}");
    }
    let encoded = form_encode(terms);
    let replaced = replace_chars(
        &chars_of(template),
        &chars_of("{searchTerms}"),
        &chars_of(encoded.as_str()),
    );
    string_of(&replaced)
}

/// A text without its leading and trailing whitespace, as `str::trim` gives it.
pub open spec fn trimmed(text: Seq<char>) -> Seq<char>
    decreases text.len(),
{
    if text.len() > 0 && whitespace(text[0]) {
        trimmed(text.drop_first())
    } else if text.len() > 0 && whitespace(text.last()) {
        trimmed(text.drop_last())
    } else {
        text
    }
}

/// Whether a query selects the provider with this alias: the query is the alias, or starts
/// with it followed by whitespace.
pub open spec fn selects(query: Seq<char>, alias: Seq<char>) -> bool {
    &&& alias.len() > 0
    &&& alias.len() <= query.len()
    &&& query.take(alias.len() as int) == alias
    &&& (query.len() == alias.len() || whitespace(query[alias.len() as int]))
}

/// The first provider whose alias the query selects.
pub open spec fn selected(query: Seq<char>, aliases: Seq<Seq<char>>) -> Option<int> {
    if exists|i: int| 0 <= i < aliases.len() && selects(query, #[trigger] aliases[i]) {
        Some(
            choose|i: int|
                0 <= i < aliases.len() && selects(query, #[trigger] aliases[i]) && forall|j: int|
                    0 <= j < i ==> !selects(query, #[trigger] aliases[j]),
        )
    } else {
        None
    }
}

/// The provider a launcher text selects, if any, and the search terms left for it.
pub open spec fn query_parts(text: Seq<char>, aliases: Seq<Seq<char>>) -> (Option<int>, Seq<char>) {
    let query = trimmed(text);
    match selected(query, aliases) {
        Some(index) => (Some(index), trimmed(query.skip(aliases[index].len() as int))),
        None => (None, query),
    }
}

/// Strips leading and trailing whitespace.
fn trim(text: &Vec<char>) -> (inner: Vec<char>)
    ensures
        inner@ == trimmed(text@),
{
    let mut start: usize = 0;
    let mut end: usize = text.len();
    assert(text@.subrange(0, end as int) =~= text@);
    while start < end && is_whitespace(text[start])
        invariant
            start <= end <= text@.len(),
            end == text@.len(),
            trimmed(text@.subrange(start as int, end as int)) == trimmed(text@),
        decreases end - start,
    {
        proof {
            assert(text@.subrange(start as int, end as int).drop_first() =~= text@.subrange(
                start + 1,
                end as int,
            ));
        }
        start += 1;
    }
    while start < end && is_whitespace(text[end - 1])
        invariant
            start <= end <= text@.len(),
            start == end || !whitespace(text@[start as int]),
            trimmed(text@.subrange(start as int, end as int)) == trimmed(text@),
        decreases end - start,
    {
        proof {
            let part = text@.subrange(start as int, end as int);
            assert(part.drop_last() =~= text@.subrange(start as int, end - 1));
            if start < end - 1 {
                assert(part[0] == text@[start as int]);
            }
        }
        end -= 1;
    }
    let mut inner: Vec<char> = Vec::new();
    let mut k: usize = start;
    while k < end
        invariant
            start <= k <= end <= text@.len(),
            inner@ == text@.subrange(start as int, k as int),
        decreases end - k,
    {
        inner.push(text[k]);
        k += 1;
        proof {
            assert(text@.subrange(start as int, k as int) =~= text@.subrange(start as int, k - 1).push(
                text@[k - 1],
            ));
        }
    }
    proof {
        let part = text@.subrange(start as int, end as int);
        if part.len() > 0 {
            assert(part[0] == text@[start as int]);
            assert(part.last() == text@[end - 1]);
        }
    }
    inner
}

/// Whether the query selects a provider with this alias.
fn alias_selects(query: &Vec<char>, alias: &Vec<char>) -> (chosen: bool)
    ensures
        chosen == selects(query@, alias@),
{
    if alias.len() == 0 || alias.len() > query.len() {
        return false;
    }
    let mut k: usize = 0;
    while k < alias.len()
        invariant
            0 < alias@.len() <= query@.len(),
            k <= alias@.len(),
            forall|i: int| 0 <= i < k ==> query@[i] == alias@[i],
        decreases alias@.len() - k,
    {
        if query[k] != alias[k] {
            proof {
                assert(query@.take(alias@.len() as int)[k as int] == query@[k as int]);
            }
            return false;
        }
        k += 1;
    }
    proof {
        assert(query@.take(alias@.len() as int) =~= alias@);
    }
    query.len() == alias.len() || is_whitespace(query[alias.len()])
}

/// Splits launcher text into the provider its alias selects, if any, and the search terms.
pub fn search_query(text: &str, providers: &[SearchProvider]) -> (parts: (Option<usize>, String))
    ensures
        parts.1@ == query_parts(
            text@,
            providers@.map_values(|provider: SearchProvider| provider.alias@),
        ).1,
        match query_parts(text@, providers@.map_values(|provider: SearchProvider| provider.alias@)).0 {
            Some(index) => parts.0 == Some(index as usize),
            None => parts.0 is None,
        },
        parts.0 matches Some(index) ==> index < providers@.len(),
{
    let ghost aliases = providers@.map_values(|provider: SearchProvider| provider.alias@);
    let query = trim(&chars_of(text));
    let mut index: usize = 0;
    while index < providers.len()
        invariant
            aliases == providers@.map_values(|provider: SearchProvider| provider.alias@),
            query@ == trimmed(text@),
            index <= providers@.len(),
            forall|j: int| 0 <= j < index ==> !selects(query@, #[trigger] aliases[j]),
        decreases providers@.len() - index,
    {
        let alias = chars_of(providers[index].alias.as_str());
        if alias_selects(&query, &alias) {
            proof {
                assert(aliases[index as int] == alias@);
                let chosen = choose|i: int|
                    0 <= i < aliases.len() && selects(query@, #[trigger] aliases[i]) && forall|j: int|
                        0 <= j < i ==> !selects(query@, #[trigger] aliases[j]);
                assert(selects(query@, aliases[index as int]));
                if chosen < index {
                    assert(!selects(query@, aliases[chosen]));
                } else if chosen > index {
                    assert(!selects(query@, aliases[index as int]));
                }
                assert(chosen == index);
            }
            let mut rest: Vec<char> = Vec::new();
            let mut k: usize = alias.len();
            while k < query.len()
                invariant
                    alias@.len() <= k <= query@.len(),
                    rest@ == query@.subrange(alias@.len() as int, k as int),
                decreases query@.len() - k,
            {
                rest.push(query[k]);
                k += 1;
                proof {
                    assert(query@.subrange(alias@.len() as int, k as int) =~= query@.subrange(
                        alias@.len() as int,
                        k - 1,
                    ).push(query@[k - 1]));
                }
            }
            proof {
                assert(query@.subrange(alias@.len() as int, k as int) =~= query@.skip(
                    alias@.len() as int,
                ));
            }
            let terms = trim(&rest);
            return (Some(index), string_of(&terms));
        }
        index += 1;
    }
    (None, string_of(&query))
}

} // verus!
