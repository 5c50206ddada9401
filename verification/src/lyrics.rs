//! Text clean-up of fetched lyrics: captions, section names and matching keys.
use crate::chars::{
    alphanumeric, chars_of, is_alphanumeric, join_spaced, join_words, push_char, replace_all,
    lines_of, pieces, replace_chars, same_text, split_at_pattern, split_on, split_runs,
    split_words, string_of, text_lines, words,
};
use crate::launcher::{contains_text, starts_with, text_contains};
use crate::chars::{blank, is_blank};
use crate::music::Track;
use vstd::prelude::*;

verus! {

/// The caption text outside `<...>` tags, and whether a tag is still open after it.
pub open spec fn untagged(text: Seq<char>) -> (Seq<char>, bool)
    decreases text.len(),
{
    if text.len() == 0 {
        (Seq::empty(), false)
    } else {
        let (kept, tag) = untagged(text.drop_last());
        let c = text.last();
        if c == '<' {
            (kept, true)
        } else if c == '>' && tag {
            (kept, false)
        } else if !tag {
            (kept.push(c), tag)
        } else {
            (kept, tag)
        }
    }
}

/// The five HTML entities of captions decoded in turn: `&amp;` first, then `&lt;`, `&gt;`,
/// `&quot;` and `&#39;`.
pub open spec fn unescaped(text: Seq<char>) -> Seq<char> {
    replace_all(
        replace_all(
            replace_all(
                replace_all(replace_all(text, "&amp;"@, "&"@), "&lt;"@, "<"@),
                "&gt;"@,
                ">"@,
            ),
            "&quot;"@,
            "\""@,
        ),
        "&#39;"@,
        "'"@,
    )
}

/// A caption without tags, with entities decoded and whitespace collapsed to single spaces.
pub open spec fn caption_text(text: Seq<char>) -> Seq<char> {
    join_spaced(words(unescaped(untagged(text).0)))
}

/// Replaces every occurrence of one literal by another.
fn replace_literal(text: &Vec<char>, pattern: &str, replacement: &str) -> (replaced: Vec<char>)
    requires
        pattern@.len() > 0,
    ensures
        replaced@ == replace_all(text@, pattern@, replacement@),
{
    replace_chars(text, &chars_of(pattern), &chars_of(replacement))
}

/// Strips tags and entities from a caption and collapses its whitespace.
pub fn clean_caption(text: &str) -> (cleaned: String)
    ensures
        cleaned@ == caption_text(text@),
{
    let chars = chars_of(text);
    let mut kept: Vec<char> = Vec::new();
    let mut tag = false;
    let mut index: usize = 0;
    while index < chars.len()
        invariant
            index <= chars@.len(),
            (kept@, tag) == untagged(chars@.take(index as int)),
        decreases chars@.len() - index,
    {
        let c = chars[index];
        proof {
            assert(chars@.take(index + 1).drop_last() =~= chars@.take(index as int));
            assert(chars@.take(index + 1).last() == c);
        }
        if c == '<' {
            tag = true;
        } else if c == '>' && tag {
            tag = false;
        } else if !tag {
            kept.push(c);
        }
        index += 1;
    }
    proof {
        assert(chars@.take(index as int) =~= text@);
        reveal_strlit("&amp;");
        reveal_strlit("&lt;");
        reveal_strlit("&gt;");
        reveal_strlit("&quot;");
        reveal_strlit("&#39;");
    }
    let step = replace_literal(&kept, "&amp;", "&");
    let step = replace_literal(&step, "&lt;", "<");
    let step = replace_literal(&step, "&gt;", ">");
    let step = replace_literal(&step, "&quot;", "\"");
    let step = replace_literal(&step, "&#39;", "'");
    let parts = split_words(&step);
    let joined = join_words(&parts);
    string_of(&joined)
}

/// The characters `char::to_lowercase` gives for a character.
pub uninterp spec fn char_lowercase(c: char) -> Seq<char>;

/// Calls `char::to_lowercase`, collecting the characters it yields.
#[verifier::external_body]
fn lowercase_of(c: char) -> (lower: String)
    ensures
        lower@ == char_lowercase(c),
{
    c.to_lowercase().collect()
}

/// The characters `char::to_uppercase` gives for a character.
pub uninterp spec fn char_uppercase(c: char) -> Seq<char>;

/// Calls `char::to_uppercase`, collecting the characters it yields.
#[verifier::external_body]
fn uppercase_of(c: char) -> (upper: String)
    ensures
        upper@ == char_uppercase(c),
{
    c.to_uppercase().collect()
}

/// Whether `char::is_uppercase` holds of a character (Unicode `Uppercase`).
pub uninterp spec fn uppercase(c: char) -> bool;

/// Calls `char::is_uppercase`.
#[verifier::external_body]
fn is_uppercase(c: char) -> (upper: bool)
    ensures
        upper == uppercase(c),
{
    c.is_uppercase()
}

/// Whether `char::is_lowercase` holds of a character (Unicode `Lowercase`).
pub uninterp spec fn lowercase_letter(c: char) -> bool;

/// Calls `char::is_lowercase`.
#[verifier::external_body]
fn is_lowercase(c: char) -> (lower: bool)
    ensures
        lower == lowercase_letter(c),
{
    c.is_lowercase()
}

/// A matching key: the alphanumeric characters of a text, each lowercased.
pub open spec fn normalized(text: Seq<char>) -> Seq<char>
    decreases text.len(),
{
    if text.len() == 0 {
        Seq::empty()
    } else if alphanumeric(text.last()) {
        normalized(text.drop_last()) + char_lowercase(text.last())
    } else {
        normalized(text.drop_last())
    }
}

/// Appends the characters of a string.
fn push_str(text: &mut String, more: &String)
    ensures
        final(text)@ == old(text)@ + more@,
{
    let chars = chars_of(more.as_str());
    let mut index: usize = 0;
    while index < chars.len()
        invariant
            index <= chars@.len(),
            chars@ == more@,
            text@ == old(text)@ + chars@.take(index as int),
        decreases chars@.len() - index,
    {
        push_char(text, chars[index]);
        index += 1;
        proof {
            assert(chars@.take(index as int) =~= chars@.take(index - 1).push(chars@[index - 1]));
        }
    }
    proof {
        assert(chars@.take(index as int) =~= chars@);
    }
}

/// Keeps the alphanumeric characters of a text, lowercased, for matching titles and artists.
pub fn normalize(text: &str) -> (key: String)
    ensures
        key@ == normalized(text@),
{
    let chars = chars_of(text);
    let mut key = String::new();
    let mut index: usize = 0;
    while index < chars.len()
        invariant
            index <= chars@.len(),
            key@ == normalized(chars@.take(index as int)),
        decreases chars@.len() - index,
    {
        let c = chars[index];
        proof {
            assert(chars@.take(index + 1).drop_last() =~= chars@.take(index as int));
            assert(chars@.take(index + 1).last() == c);
        }
        if is_alphanumeric(c) {
            let lower = lowercase_of(c);
            push_str(&mut key, &lower);
        }
        index += 1;
    }
    proof {
        assert(chars@.take(index as int) =~= text@);
    }
    key
}

/// A section name such as `preChorus` as a label: a space before each uppercase letter that
/// follows a lowercase one, and the first character uppercased.
pub open spec fn label_text(name: Seq<char>) -> Seq<char>
    decreases name.len(),
{
    if name.len() == 0 {
        Seq::empty()
    } else {
        let label = label_text(name.drop_last());
        let c = name.last();
        let spaced = if uppercase(c) && label.len() > 0 && lowercase_letter(label.last()) {
            label.push(' ')
        } else {
            label
        };
        if spaced.len() == 0 {
            char_uppercase(c)
        } else {
            spaced.push(c)
        }
    }
}

/// Turns a camel-case section name into a label, such as `preChorus` into `Pre Chorus`.
pub fn section_label(name: &str) -> (label: String)
    ensures
        label@ == label_text(name@),
{
    let chars = chars_of(name);
    let mut label: Vec<char> = Vec::new();
    let mut index: usize = 0;
    while index < chars.len()
        invariant
            index <= chars@.len(),
            label@ == label_text(chars@.take(index as int)),
        decreases chars@.len() - index,
    {
        let c = chars[index];
        proof {
            assert(chars@.take(index + 1).drop_last() =~= chars@.take(index as int));
            assert(chars@.take(index + 1).last() == c);
        }
        if is_uppercase(c) && label.len() > 0 && is_lowercase(label[label.len() - 1]) {
            label.push(' ');
        }
        if label.len() == 0 {
            let upper = chars_of(uppercase_of(c).as_str());
            let mut k: usize = 0;
            while k < upper.len()
                invariant
                    k <= upper@.len(),
                    label@ == upper@.take(k as int),
                decreases upper@.len() - k,
            {
                label.push(upper[k]);
                k += 1;
                proof {
                    assert(upper@.take(k as int) =~= upper@.take(k - 1).push(upper@[k - 1]));
                }
            }
            proof {
                assert(upper@.take(k as int) =~= upper@);
            }
        } else {
            label.push(c);
        }
        index += 1;
    }
    proof {
        assert(chars@.take(index as int) =~= name@);
    }
    string_of(&label)
}

/// The matching keys of the lines of a text: each line normalized, the empty ones dropped.
pub open spec fn keys_of(lines: Seq<Seq<char>>) -> Seq<Seq<char>>
    decreases lines.len(),
{
    if lines.len() == 0 {
        Seq::empty()
    } else {
        let key = normalized(lines.last());
        if key.len() > 0 {
            keys_of(lines.drop_last()).push(key)
        } else {
            keys_of(lines.drop_last())
        }
    }
}

/// The keys of the lines of a snippet, as they are matched against lyric lines.  (Lines that
/// are empty or hold no alphanumeric character have no key.)
pub open spec fn snippet_keys(text: Seq<char>) -> Seq<Seq<char>> {
    keys_of(split_runs(text, |c: char| c == '\n'))
}

/// The views of a list of texts.
pub open spec fn views_of(texts: Seq<String>) -> Seq<Seq<char>> {
    texts.map_values(|text: String| text@)
}

/// The keys of the lines of a snippet.
pub fn snippet_lines(text: &str) -> (keys: Vec<String>)
    ensures
        views_of(keys@) == snippet_keys(text@),
{
    let runs = split_on(&chars_of(text), '\n');
    let ghost lines = runs@.map_values(|run: Vec<char>| run@);
    let mut keys: Vec<String> = Vec::new();
    let mut index: usize = 0;
    while index < runs.len()
        invariant
            lines == runs@.map_values(|run: Vec<char>| run@),
            index <= runs@.len(),
            views_of(keys@) == keys_of(lines.take(index as int)),
        decreases runs@.len() - index,
    {
        proof {
            assert(lines.take(index + 1).drop_last() =~= lines.take(index as int));
            assert(lines.take(index + 1).last() == runs@[index as int]@);
        }
        let line = string_of(&runs[index]);
        let key = normalize(line.as_str());
        if !key.as_str().is_empty() {
            let ghost before = keys@;
            keys.push(key);
            proof {
                assert(views_of(keys@) =~= views_of(before).push(key@));
            }
        }
        index += 1;
    }
    proof {
        assert(lines.take(index as int) =~= lines);
    }
    keys
}

/// A part of a song's structure as the lyrics service describes it: its name (absent when
/// the service gave none) and the lines of lyrics it spans.
pub struct StructurePart {
    pub description: Option<String>,
    pub snippet: String,
}

/// A labelled section over the lyric lines `first..=last`.
pub struct SectionSpan {
    pub first: usize,
    pub last: usize,
    pub label: String,
}

/// Whether the keys from `start` on begin with the snippet's.
pub open spec fn runs_at(keys: Seq<Seq<char>>, snippet: Seq<Seq<char>>, start: int) -> bool {
    start + snippet.len() <= keys.len() && keys.subrange(start, start + snippet.len()) == snippet
}

/// Laying the parts over the lines in order: the spans of the parts that hold lines and the
/// line after the last one matched; `None` once a part has no name or its snippet does not
/// continue the lines.
pub open spec fn laid_out(keys: Seq<Seq<char>>, parts: Seq<StructurePart>) -> Option<
    (Seq<(int, int, Seq<char>)>, int),
>
    decreases parts.len(),
{
    if parts.len() == 0 {
        Some((Seq::empty(), 0))
    } else {
        match laid_out(keys, parts.drop_last()) {
            None => None,
            Some((spans, start)) => match parts.last().description {
                None => None,
                Some(name) => {
                    let snippet = snippet_keys(parts.last().snippet@);
                    if runs_at(keys, snippet, start) {
                        let end = start + snippet.len();
                        if snippet.len() > 0 {
                            Some((spans.push((start, end - 1, label_text(name@))), end))
                        } else {
                            Some((spans, end))
                        }
                    } else {
                        None
                    }
                },
            },
        }
    }
}

/// The sections of a song: its parts laid over the lines, kept only when they cover every
/// line exactly, so that a repeated chorus cannot shift a label.
pub open spec fn section_plan(keys: Seq<Seq<char>>, parts: Seq<StructurePart>) -> Seq<
    (int, int, Seq<char>),
> {
    match laid_out(keys, parts) {
        Some((spans, end)) => if end == keys.len() {
            spans
        } else {
            Seq::empty()
        },
        None => Seq::empty(),
    }
}

/// The views of a list of sections.
pub open spec fn span_views(spans: Seq<SectionSpan>) -> Seq<(int, int, Seq<char>)> {
    spans.map_values(|span: SectionSpan| (span.first as int, span.last as int, span.label@))
}

/// The keys of lyric lines.
pub open spec fn line_keys(lines: Seq<String>) -> Seq<Seq<char>> {
    lines.map_values(|line: String| normalized(line@))
}

/// Lays a song's structure over its lyric lines (given by their text), each part's snippet
/// matched line by line in order; no sections unless the parts cover all the lines.
pub fn section_spans(lines: &Vec<String>, parts: &Vec<StructurePart>) -> (spans: Vec<SectionSpan>)
    ensures
        span_views(spans@) == section_plan(line_keys(lines@), parts@),
{
    let ghost keys_view = line_keys(lines@);
    let keys = lyric_keys(lines);
    let mut spans: Vec<SectionSpan> = Vec::new();
    let mut index: usize = 0;
    let mut p: usize = 0;
    while p < parts.len()
        invariant
            keys_view == line_keys(lines@),
            views_of(keys@) == keys_view,
            p <= parts@.len(),
            laid_out(keys_view, parts@.take(p as int)) == Some((span_views(spans@), index as int)),
            index <= keys@.len(),
        decreases parts@.len() - p,
    {
        proof {
            assert(parts@.take(p + 1).drop_last() =~= parts@.take(p as int));
            assert(parts@.take(p + 1).last() == parts@[p as int]);
        }
        let part = &parts[p];
        let name = match &part.description {
            Some(name) => name,
            None => {
                proof {
                    assert(laid_out(keys_view, parts@.take(p + 1)) is None);
                    lemma_laid_out_stays_none(keys_view, parts@, p + 1);
                    assert(parts@.take(parts@.len() as int) =~= parts@);
                }
                return Vec::new();
            },
        };
        let snippet = snippet_lines(part.snippet.as_str());
        let ghost snippet_view = snippet_keys(part.snippet@);
        let first = index;
        let mut s: usize = 0;
        while s < snippet.len()
            invariant
                views_of(snippet@) == snippet_view,
                views_of(keys@) == keys_view,
                keys_view == line_keys(lines@),
                snippet_view == snippet_keys(parts@[p as int].snippet@),
                p < parts@.len(),
                parts@[p as int].description == Some(*name),
                parts@.take(p + 1).drop_last() == parts@.take(p as int),
                parts@.take(p + 1).last() == parts@[p as int],
                laid_out(keys_view, parts@.take(p as int)) == Some((span_views(spans@), first as int)),
                s <= snippet@.len(),
                index == first + s,
                index <= keys@.len(),
                keys_view.subrange(first as int, index as int) == snippet_view.take(s as int),
            decreases snippet@.len() - s,
        {
            if index >= keys.len() || !same_key(&keys[index], &snippet[s]) {
                proof {
                    assert(!runs_at(keys_view, snippet_view, first as int)) by {
                        if runs_at(keys_view, snippet_view, first as int) {
                            assert(keys_view.subrange(first as int, first + snippet_view.len())[s as int]
                                == snippet_view[s as int]);
                        }
                    }
                    assert(laid_out(keys_view, parts@.take(p + 1)) is None);
                    lemma_laid_out_stays_none(keys_view, parts@, p + 1);
                    assert(parts@.take(parts@.len() as int) =~= parts@);
                }
                return Vec::new();
            }
            index += 1;
            s += 1;
            proof {
                assert(keys_view.subrange(first as int, index as int) =~= keys_view.subrange(
                    first as int,
                    index - 1,
                ).push(keys_view[index - 1]));
                assert(snippet_view.take(s as int) =~= snippet_view.take(s - 1).push(
                    snippet_view[s - 1],
                ));
            }
        }
        proof {
            assert(snippet_view.take(s as int) =~= snippet_view);
            assert(runs_at(keys_view, snippet_view, first as int));
        }
        if index > first {
            let ghost before = spans@;
            spans.push(SectionSpan { first, last: index - 1, label: section_label(name.as_str()) });
            proof {
                assert(span_views(spans@) =~= span_views(before).push(
                    (first as int, index - 1, label_text(name@)),
                ));
            }
        }
        p += 1;
    }
    proof {
        assert(parts@.take(p as int) =~= parts@);
    }
    if index == keys.len() {
        spans
    } else {
        Vec::new()
    }
}

/// Once the parts fail to lay out, no longer run of them does.
proof fn lemma_laid_out_stays_none(keys: Seq<Seq<char>>, parts: Seq<StructurePart>, count: int)
    requires
        0 <= count <= parts.len(),
        laid_out(keys, parts.take(count)) is None,
    ensures
        laid_out(keys, parts) is None,
    decreases parts.len() - count,
{
    if count < parts.len() {
        assert(parts.take(count + 1).drop_last() =~= parts.take(count));
        lemma_laid_out_stays_none(keys, parts, count + 1);
    } else {
        assert(parts.take(count) =~= parts);
    }
}

/// Whether two keys are the same text.
fn same_key(a: &String, b: &String) -> (same: bool)
    ensures
        same == (a@ == b@),
{
    *a == *b
}

/// The matching keys of lyric lines.
pub fn lyric_keys(lines: &Vec<String>) -> (keys: Vec<String>)
    ensures
        views_of(keys@) == line_keys(lines@),
{
    let ghost keys_view = line_keys(lines@);
    let mut keys: Vec<String> = Vec::new();
    let mut k: usize = 0;
    while k < lines.len()
        invariant
            keys_view == line_keys(lines@),
            k <= lines@.len(),
            views_of(keys@) == keys_view.take(k as int),
        decreases lines@.len() - k,
    {
        let key = normalize(lines[k].as_str());
        let ghost before = keys@;
        keys.push(key);
        k += 1;
        proof {
            assert(views_of(keys@) =~= views_of(before).push(key@));
            assert(keys_view.take(k as int) =~= keys_view.take(k - 1).push(keys_view[k - 1]));
        }
    }
    assert(keys_view.take(k as int) =~= keys_view);
    keys
}

/// A performer tagged on a stretch of lyrics: their role (`artist`, `backing_vocalist`,
/// `fan_chant`, ...) when the service gave it as text, and their id, if any.
pub struct Performer {
    pub role: Option<String>,
    pub id: Option<String>,
}

/// A stretch of lyrics tagged with its performers.
pub struct TaggedLines {
    pub performers: Vec<Performer>,
    pub snippet: String,
}

/// Who sings a line: the number of its lead singer (`None` for a group or the crowd), and
/// whether it is a backing vocal.
#[derive(Clone, Copy, Debug, PartialEq, Eq, Structural, PartialOrd, Ord)]
pub struct Voice {
    pub singer: Option<usize>,
    pub backing: bool,
}

/// The voice of a line nobody was tagged on: the first singer, not backing.
pub open spec fn plain_voice() -> Voice {
    Voice { singer: Some(0), backing: false }
}

impl Default for Voice {
    fn default() -> (voice: Self)
        ensures
            voice == plain_voice(),
    {
        Voice { singer: Some(0), backing: false }
    }
}

/// Whether an optional text is present and reads `text`.
pub open spec fn reads(value: Option<String>, text: Seq<char>) -> bool {
    match value {
        Some(v) => v@ == text,
        None => false,
    }
}

/// Whether some performer has the role.
pub open spec fn has_role(performers: Seq<Performer>, role: Seq<char>) -> bool {
    exists|i: int| 0 <= i < performers.len() && reads(#[trigger] performers[i].role, role)
}

/// The ids of the artists among the performers, in order.
pub open spec fn artist_ids(performers: Seq<Performer>) -> Seq<Seq<char>>
    decreases performers.len(),
{
    if performers.len() == 0 {
        Seq::empty()
    } else {
        let earlier = artist_ids(performers.drop_last());
        let last = performers.last();
        if reads(last.role, "artist"@) && last.id is Some {
            earlier.push(last.id->0@)
        } else {
            earlier
        }
    }
}

/// The ids of the artists of every tagged stretch, in order.
pub open spec fn all_artist_ids(entries: Seq<TaggedLines>) -> Seq<Seq<char>>
    decreases entries.len(),
{
    if entries.len() == 0 {
        Seq::empty()
    } else {
        all_artist_ids(entries.drop_last()) + artist_ids(entries.last().performers@)
    }
}

/// The distinct ids in the order they first appear: an artist's singer number is their place
/// in it.
pub open spec fn first_seen(ids: Seq<Seq<char>>) -> Seq<Seq<char>>
    decreases ids.len(),
{
    if ids.len() == 0 {
        Seq::empty()
    } else {
        let earlier = first_seen(ids.drop_last());
        if earlier.contains(ids.last()) {
            earlier
        } else {
            earlier.push(ids.last())
        }
    }
}

/// The place of the first `id` in `ids`.
pub open spec fn position(ids: Seq<Seq<char>>, id: Seq<char>) -> int
    decreases ids.len(),
{
    if ids.len() == 0 {
        0
    } else if ids.drop_last().contains(id) {
        position(ids.drop_last(), id)
    } else {
        ids.len() - 1
    }
}

/// The voice of a tagged stretch, given the singer numbering: the crowd or several artists
/// sing as a group; one artist is their number; no artist is the first singer.
pub open spec fn voice_of(performers: Seq<Performer>, numbering: Seq<Seq<char>>) -> Voice {
    let ids = artist_ids(performers);
    let several = exists|i: int| 0 <= i < ids.len() && #[trigger] ids[i] != ids[0];
    Voice {
        singer: if has_role(performers, "fan_chant"@) || several {
            None
        } else if ids.len() > 0 {
            Some(position(numbering, ids[0]) as usize)
        } else {
            Some(0)
        },
        backing: has_role(performers, "backing_vocalist"@),
    }
}

/// Each snippet line of the tagged stretches with the voice tagged on it, in order.
pub open spec fn tagged(entries: Seq<TaggedLines>) -> Seq<(Seq<char>, Voice)>
    decreases entries.len(),
{
    if entries.len() == 0 {
        Seq::empty()
    } else {
        let voice = voice_of(entries.last().performers@, first_seen(all_artist_ids(entries)));
        tagged(entries.drop_last()) + snippet_keys(entries.last().snippet@).map_values(
            |key: Seq<char>| (key, voice),
        )
    }
}

/// Whether the tags follow the lines one to one.
pub open spec fn aligned(tags: Seq<(Seq<char>, Voice)>, keys: Seq<Seq<char>>) -> bool {
    tags.len() == keys.len() && forall|t: int| 0 <= t < tags.len() ==> (#[trigger] tags[t]).0 == keys[t]
}

/// Whether tag `t` is on the same text as the line with key `key`.
pub open spec fn candidate(tags: Seq<(Seq<char>, Voice)>, key: Seq<char>, t: int) -> bool {
    0 <= t < tags.len() && tags[t].0 == key
}

/// The voice of line `i`: its own tag when the tags follow the lines one to one; otherwise
/// the voice every tag on the same text agrees on, or the plain voice when they disagree or
/// there is none.
pub open spec fn voice_for(tags: Seq<(Seq<char>, Voice)>, keys: Seq<Seq<char>>, i: int) -> Voice {
    if aligned(tags, keys) {
        tags[i].1
    } else if (exists|t: int| candidate(tags, keys[i], t)) && (forall|t: int, u: int|
        candidate(tags, keys[i], t) && candidate(tags, keys[i], u) ==> tags[t].1 == tags[u].1) {
        tags[choose|t: int| candidate(tags, keys[i], t)].1
    } else {
        plain_voice()
    }
}

/// Whether an optional text reads `text`.
fn is_text(value: &Option<String>, text: &str) -> (same: bool)
    ensures
        same == reads(*value, text@),
{
    match value {
        Some(v) => same_text(v.as_str(), text),
        None => false,
    }
}

/// The place of the first `id` in `ids` is where it first occurs.
proof fn lemma_position(ids: Seq<Seq<char>>, id: Seq<char>, j: int)
    requires
        0 <= j < ids.len(),
        ids[j] == id,
        forall|k: int| 0 <= k < j ==> ids[k] != id,
    ensures
        position(ids, id) == j,
    decreases ids.len(),
{
    if j < ids.len() - 1 {
        assert(ids.drop_last()[j] == id);
        lemma_position(ids.drop_last(), id, j);
    } else {
        assert(!ids.drop_last().contains(id)) by {
            if ids.drop_last().contains(id) {
                let k = choose|k: int| 0 <= k < ids.drop_last().len() && ids.drop_last()[k] == id;
                assert(ids[k] == id);
            }
        }
    }
}

/// Every id appears in the ids first seen.
proof fn lemma_first_seen_covers(ids: Seq<Seq<char>>, i: int)
    requires
        0 <= i < ids.len(),
    ensures
        first_seen(ids).contains(ids[i]),
    decreases ids.len(),
{
    let earlier = first_seen(ids.drop_last());
    if i < ids.len() - 1 {
        lemma_first_seen_covers(ids.drop_last(), i);
        assert(ids.drop_last()[i] == ids[i]);
        if !earlier.contains(ids.last()) {
            let k = choose|k: int| 0 <= k < earlier.len() && earlier[k] == ids[i];
            assert(earlier.push(ids.last())[k] == ids[i]);
        }
    } else if !earlier.contains(ids.last()) {
        assert(earlier.push(ids.last())[earlier.len() as int] == ids[i]);
    }
}

/// The views of tags.
pub open spec fn tag_views(tags: Seq<(String, Voice)>) -> Seq<(Seq<char>, Voice)> {
    tags.map_values(|tag: (String, Voice)| (tag.0@, tag.1))
}

/// The ids first seen in `known` followed by `more`, given those first seen in `known`.
proof fn lemma_first_seen_push(known: Seq<Seq<char>>, more: Seq<Seq<char>>, id: Seq<char>)
    ensures
        first_seen(known + more.push(id)) == if first_seen(known + more).contains(id) {
            first_seen(known + more)
        } else {
            first_seen(known + more).push(id)
        },
{
    assert((known + more.push(id)).drop_last() =~= known + more);
}

/// Numbers the artists of a tagged stretch that were not seen before: `artists` holds the ids
/// first seen in `known`, and afterwards those first seen in `known` and the stretch's.
fn register_artists(performers: &Vec<Performer>, artists: &mut Vec<String>, Ghost(known): Ghost<
    Seq<Seq<char>>,
>)
    requires
        views_of(old(artists)@) == first_seen(known),
    ensures
        views_of(final(artists)@) == first_seen(known + artist_ids(performers@)),
{
    let mut k: usize = 0;
    assert(known + artist_ids(performers@.take(0)) =~= known);
    while k < performers.len()
        invariant
            k <= performers@.len(),
            views_of(artists@) == first_seen(known + artist_ids(performers@.take(k as int))),
        decreases performers@.len() - k,
    {
        let performer = &performers[k];
        proof {
            assert(performers@.take(k + 1).drop_last() =~= performers@.take(k as int));
            assert(performers@.take(k + 1).last() == *performer);
        }
        if is_text(&performer.role, "artist") {
            match &performer.id {
                Some(id) => {
                    proof {
                        reveal_strlit("artist");
                        lemma_first_seen_push(known, artist_ids(performers@.take(k as int)), id@);
                    }
                    let mut j: usize = 0;
                    let mut seen = false;
                    while j < artists.len()
                        invariant
                            j <= artists@.len(),
                            seen == exists|i: int| 0 <= i < j && artists@[i]@ == id@,
                        decreases artists@.len() - j,
                    {
                        if artists[j] == *id {
                            seen = true;
                        }
                        j += 1;
                    }
                    let ghost before = artists@;
                    proof {
                        if seen {
                            let i = choose|i: int| 0 <= i < j && artists@[i]@ == id@;
                            assert(views_of(artists@)[i] == id@);
                        } else {
                            assert(!views_of(artists@).contains(id@)) by {
                                if views_of(artists@).contains(id@) {
                                    let i = choose|i: int| 0 <= i < views_of(artists@).len() && views_of(artists@)[i] == id@;
                                    assert(artists@[i]@ == id@);
                                }
                            }
                        }
                    }
                    if !seen {
                        artists.push(id.clone());
                        proof {
                            assert(views_of(artists@) =~= views_of(before).push(id@));
                        }
                    }
                },
                None => {},
            }
        } else {
            proof {
                reveal_strlit("artist");
            }
        }
        k += 1;
    }
    assert(performers@.take(k as int) =~= performers@);
}

/// The voice of a tagged stretch whose artists have been numbered.
fn stretch_voice(performers: &Vec<Performer>, artists: &Vec<String>) -> (voice: Voice)
    requires
        forall|i: int|
            0 <= i < artist_ids(performers@).len() ==> views_of(artists@).contains(
                #[trigger] artist_ids(performers@)[i],
            ),
    ensures
        voice == voice_of(performers@, views_of(artists@)),
{
    let ghost ids = artist_ids(performers@);
    let mut fan = false;
    let mut backing = false;
    let mut first: Option<&String> = None;
    let mut several = false;
    let mut k: usize = 0;
    proof {
        reveal_strlit("artist");
        reveal_strlit("fan_chant");
        reveal_strlit("backing_vocalist");
    }
    while k < performers.len()
        invariant
            ids == artist_ids(performers@),
            k <= performers@.len(),
            fan == exists|i: int| 0 <= i < k && reads(#[trigger] performers@[i].role, "fan_chant"@),
            backing == exists|i: int| 0 <= i < k && reads(#[trigger] performers@[i].role, "backing_vocalist"@),
            match first {
                Some(id) => artist_ids(performers@.take(k as int)).len() > 0 && id@ == artist_ids(
                    performers@.take(k as int),
                )[0],
                None => artist_ids(performers@.take(k as int)).len() == 0,
            },
            several == exists|i: int|
                0 <= i < artist_ids(performers@.take(k as int)).len() && #[trigger] artist_ids(
                    performers@.take(k as int),
                )[i] != artist_ids(performers@.take(k as int))[0],
        decreases performers@.len() - k,
    {
        let performer = &performers[k];
        let ghost before = artist_ids(performers@.take(k as int));
        proof {
            assert(performers@.take(k + 1).drop_last() =~= performers@.take(k as int));
            assert(performers@.take(k + 1).last() == *performer);
        }
        if is_text(&performer.role, "fan_chant") {
            fan = true;
        }
        if is_text(&performer.role, "backing_vocalist") {
            backing = true;
        }
        if is_text(&performer.role, "artist") {
            match &performer.id {
                Some(id) => {
                    match first {
                        Some(lead) => {
                            if !same_text(lead.as_str(), id.as_str()) {
                                several = true;
                            }
                        },
                        None => {
                            first = Some(id);
                        },
                    }
                    proof {
                        let after = artist_ids(performers@.take(k + 1));
                        assert(after == before.push(id@));
                        if several {
                            if exists|i: int| 0 <= i < before.len() && #[trigger] before[i] != before[0] {
                                let i = choose|i: int| 0 <= i < before.len() && #[trigger] before[i] != before[0];
                                assert(after[i] != after[0]);
                            } else {
                                assert(after[before.len() as int] != after[0]);
                            }
                        } else {
                            assert forall|i: int| 0 <= i < after.len() implies !(#[trigger] after[i] != after[0]) by {
                                if i < before.len() {
                                    assert(after[i] == before[i]);
                                }
                            }
                        }
                    }
                },
                None => {},
            }
        }
        k += 1;
    }
    assert(performers@.take(k as int) =~= performers@);
    let singer = if fan || several {
        None
    } else {
        match first {
            Some(lead) => {
                proof {
                    assert(views_of(artists@).contains(ids[0]));
                }
                let mut j: usize = 0;
                while j < artists.len() && artists[j] != *lead
                    invariant
                        j <= artists@.len(),
                        forall|i: int| 0 <= i < j ==> artists@[i]@ != lead@,
                        views_of(artists@).contains(lead@),
                    decreases artists@.len() - j,
                {
                    j += 1;
                }
                proof {
                    if j == artists.len() {
                        let i = choose|i: int| 0 <= i < views_of(artists@).len() && views_of(artists@)[i] == lead@;
                        assert(artists@[i]@ == lead@);
                    }
                    lemma_position(views_of(artists@), lead@, j as int);
                }
                Some(j)
            },
            None => Some(0),
        }
    };
    Voice { singer, backing }
}

/// The voice of each lyric line (given by its text) from the performer tags of the lyrics
/// service: artists are numbered in the order they first appear; when the tags follow the
/// lines one to one each line takes its tag's voice, and otherwise the voice that every tag
/// on the same text agrees on.
pub fn line_voices(lines: &Vec<String>, entries: &Vec<TaggedLines>) -> (voices: Vec<Voice>)
    ensures
        voices@.len() == lines@.len(),
        forall|i: int|
            0 <= i < lines@.len() ==> #[trigger] voices@[i] == voice_for(
                tagged(entries@),
                line_keys(lines@),
                i,
            ),
{
    let keys = lyric_keys(lines);
    let ghost keys_view = line_keys(lines@);
    let mut tags: Vec<(String, Voice)> = Vec::new();
    let mut artists: Vec<String> = Vec::new();
    let mut e: usize = 0;
    while e < entries.len()
        invariant
            e <= entries@.len(),
            tag_views(tags@) == tagged(entries@.take(e as int)),
            views_of(artists@) == first_seen(all_artist_ids(entries@.take(e as int))),
        decreases entries@.len() - e,
    {
        let entry = &entries[e];
        let ghost taken = entries@.take(e + 1);
        proof {
            assert(taken.drop_last() =~= entries@.take(e as int));
            assert(taken.last() == *entry);
        }
        register_artists(&entry.performers, &mut artists, Ghost(all_artist_ids(entries@.take(e as int))));
        proof {
            assert(all_artist_ids(taken) == all_artist_ids(entries@.take(e as int)) + artist_ids(
                entry.performers@,
            ));
            assert forall|i: int| 0 <= i < artist_ids(entry.performers@).len() implies views_of(
                artists@,
            ).contains(#[trigger] artist_ids(entry.performers@)[i]) by {
                let all = all_artist_ids(taken);
                let offset = all_artist_ids(entries@.take(e as int)).len();
                assert(all[offset + i] == artist_ids(entry.performers@)[i]);
                lemma_first_seen_covers(all, offset + i);
            }
        }
        let voice = stretch_voice(&entry.performers, &artists);
        let snippet = snippet_lines(entry.snippet.as_str());
        let ghost start = tags@;
        let mut s: usize = 0;
        while s < snippet.len()
            invariant
                s <= snippet@.len(),
                tag_views(tags@) == tag_views(start) + views_of(snippet@).take(s as int).map_values(
                    |key: Seq<char>| (key, voice),
                ),
            decreases snippet@.len() - s,
        {
            let ghost before = tags@;
            tags.push((snippet[s].clone(), voice));
            s += 1;
            proof {
                assert(tag_views(tags@) =~= tag_views(before).push((snippet@[s - 1]@, voice)));
                assert(views_of(snippet@).take(s as int).map_values(|key: Seq<char>| (key, voice))
                    =~= views_of(snippet@).take(s - 1).map_values(|key: Seq<char>| (key, voice)).push(
                    (snippet@[s - 1]@, voice),
                ));
            }
        }
        proof {
            assert(views_of(snippet@).take(s as int) =~= views_of(snippet@));
        }
        e += 1;
    }
    assert(entries@.take(e as int) =~= entries@);
    let ghost tag_view = tag_views(tags@);
    let mut aligned_tags = tags.len() == keys.len();
    if aligned_tags {
        let mut t: usize = 0;
        while t < tags.len()
            invariant
                tag_view == tag_views(tags@),
                views_of(keys@) == keys_view,
                tags@.len() == keys@.len(),
                t <= tags@.len(),
                aligned_tags == forall|k: int| 0 <= k < t ==> (#[trigger] tag_view[k]).0 == keys_view[k],
            decreases tags@.len() - t,
        {
            if tags[t].0 != keys[t] {
                aligned_tags = false;
            }
            t += 1;
            proof {
                assert(tag_view[t - 1].0 == tags@[t - 1].0@);
                assert(keys_view[t - 1] == keys@[t - 1]@);
            }
        }
    }
    assert(aligned_tags == aligned(tag_view, keys_view));
    let mut voices: Vec<Voice> = Vec::new();
    let mut i: usize = 0;
    while i < keys.len()
        invariant
            tag_view == tag_views(tags@),
            tag_view == tagged(entries@),
            views_of(keys@) == keys_view,
            keys_view == line_keys(lines@),
            aligned_tags == aligned(tag_view, keys_view),
            i <= keys@.len(),
            voices@.len() == i,
            forall|k: int| 0 <= k < i ==> #[trigger] voices@[k] == voice_for(tag_view, keys_view, k),
        decreases keys@.len() - i,
    {
        if aligned_tags {
            voices.push(tags[i].1);
        } else {
            let ghost key = keys_view[i as int];
            let mut first: Option<Voice> = None;
            let mut agree = true;
            let mut t: usize = 0;
            while t < tags.len()
                invariant
                    tag_view == tag_views(tags@),
                    views_of(keys@) == keys_view,
                    i < keys@.len(),
                    key == keys_view[i as int],
                    t <= tags@.len(),
                    match first {
                        Some(v) => (exists|c: int| 0 <= c < t && candidate(tag_view, key, c) && tag_view[c].1 == v)
                            && (agree == forall|c: int| 0 <= c < t && candidate(tag_view, key, c) ==> tag_view[c].1 == v),
                        None => (forall|c: int| 0 <= c < t ==> !candidate(tag_view, key, c)) && agree,
                    },
                decreases tags@.len() - t,
            {
                proof {
                    assert(tag_view[t as int].0 == tags@[t as int].0@);
                    assert(tag_view[t as int].1 == tags@[t as int].1);
                }
                proof {
                    assert(keys_view[i as int] == keys@[i as int]@);
                }
                if tags[t].0 == keys[i] {
                    proof {
                        assert(candidate(tag_view, key, t as int));
                    }
                    match first {
                        Some(v) => {
                            if tags[t].1 != v {
                                agree = false;
                            }
                        },
                        None => {
                            first = Some(tags[t].1);
                        },
                    }
                } else {
                    proof {
                        assert(!candidate(tag_view, key, t as int));
                    }
                }
                t += 1;
            }
            let voice = match first {
                Some(v) => if agree {
                    v
                } else {
                    Voice::default()
                },
                None => Voice::default(),
            };
            proof {
                match first {
                    Some(v) => {
                        assert(exists|c: int| candidate(tag_view, key, c));
                        if agree {
                            assert forall|a: int, b: int|
                                candidate(tag_view, key, a) && candidate(tag_view, key, b) implies tag_view[a].1
                                == tag_view[b].1 by {}
                            let chosen = choose|c: int| candidate(tag_view, key, c);
                            assert(tag_view[chosen].1 == v);
                        } else {
                            let c = choose|c: int| 0 <= c < t && candidate(tag_view, key, c) && tag_view[c].1 == v;
                            let d = choose|d: int| 0 <= d < t && candidate(tag_view, key, d) && tag_view[d].1 != v;
                            assert(!(forall|a: int, b: int|
                                candidate(tag_view, key, a) && candidate(tag_view, key, b) ==> tag_view[a].1
                                == tag_view[b].1)) by {
                                assert(candidate(tag_view, key, c) && candidate(tag_view, key, d));
                            }
                        }
                    },
                    None => {
                        assert(!exists|c: int| candidate(tag_view, key, c));
                    },
                }
            }
            voices.push(voice);
        }
        i += 1;
    }
    proof {
        assert(views_of(keys@).len() == line_keys(lines@).len());
    }
    voices
}

/// Whether a match found by the lyrics service names the track: its title and artist have
/// keys, the title's is that of the track's name or shown title, and one of the track's
/// artists has the artist's.
pub open spec fn names_track(track: Track, title: Seq<char>, artist: Seq<char>) -> bool {
    let title_key = normalized(title);
    let artist_key = normalized(artist);
    &&& title_key.len() > 0
    &&& artist_key.len() > 0
    &&& (title_key == normalized(track.name@) || title_key == normalized(track.title_view()))
    &&& exists|i: int|
        0 <= i < track.artists@.len() && normalized((#[trigger] track.artists@[i])@) == artist_key
}

/// Whether the title and artist of a match found by the lyrics service name the track.  (The
/// match's length is checked against the track's apart from this.)
pub fn names_match(track: &Track, title: &str, artist: &str) -> (named: bool)
    ensures
        named == names_track(*track, title@, artist@),
{
    let title_key = normalize(title);
    let artist_key = normalize(artist);
    if title_key.as_str().is_empty() || artist_key.as_str().is_empty() {
        return false;
    }
    if !(title_key == normalize(track.name.as_str()) || title_key == normalize(track.compact_title())) {
        return false;
    }
    let mut i: usize = 0;
    while i < track.artists.len()
        invariant
            i <= track.artists@.len(),
            artist_key@ == normalized(artist@),
            title_key@ == normalized(title@),
            title_key@.len() > 0,
            artist_key@.len() > 0,
            title_key@ == normalized(track.name@) || title_key@ == normalized(track.title_view()),
            forall|k: int| 0 <= k < i ==> normalized((#[trigger] track.artists@[k])@) != artist_key@,
        decreases track.artists@.len() - i,
    {
        if normalize(track.artists[i].as_str()) == artist_key {
            return true;
        }
        i += 1;
    }
    false
}

/// The speech of a caption part once its annotations (text in `[...]`, which may run on
/// across parts) are taken out, each `]` standing as a space; and whether an annotation is
/// still open after it.  `inside` tells whether one was open before it.
pub open spec fn speech(text: Seq<char>, inside: bool) -> (Seq<char>, bool)
    decreases text.len(),
{
    if text.len() == 0 {
        (Seq::empty(), inside)
    } else {
        let (said, open) = speech(text.drop_last(), inside);
        let c = text.last();
        if c == '[' {
            (said, true)
        } else if c == ']' {
            (said.push(' '), false)
        } else if open {
            (said, open)
        } else {
            (said.push(c), open)
        }
    }
}

/// The speech of the parts of a caption event read in order: the text so far, whether an
/// annotation is open, and the part from whose offset the speech starts (the first part that
/// adds speech to a text still blank).
pub open spec fn event_speech(parts: Seq<Seq<char>>) -> (Seq<char>, bool, Option<int>)
    decreases parts.len(),
{
    if parts.len() == 0 {
        (Seq::empty(), false, None)
    } else {
        let (text, open, first) = event_speech(parts.drop_last());
        let (said, still) = speech(parts.last(), open);
        (text + said, still, if blank(text) && !blank(said) {
            Some(parts.len() - 1)
        } else {
            first
        })
    }
}

/// The text of a caption event and the part its speech starts at.
pub struct CaptionSpeech {
    pub text: String,
    pub first_spoken: Option<usize>,
}

/// What a caption event says: `None` when every part is blank (window definitions and line
/// breaks); otherwise its speech with the words joined by single spaces and a space after,
/// and the part whose offset starts it, if any part speaks.
pub fn caption_speech(parts: &Vec<String>) -> (speech_of: Option<CaptionSpeech>)
    ensures
        match speech_of {
            None => forall|p: int| 0 <= p < parts@.len() ==> blank((#[trigger] parts@[p])@),
            Some(result) => {
                &&& exists|p: int| 0 <= p < parts@.len() && !blank((#[trigger] parts@[p])@)
                &&& result.text@ == join_spaced(words(event_speech(views_of(parts@)).0)) + seq![' ']
                &&& match result.first_spoken {
                    Some(p) => event_speech(views_of(parts@)).2 == Some(p as int),
                    None => event_speech(views_of(parts@)).2 is None,
                }
            },
        },
{
    let ghost views = views_of(parts@);
    let mut any = false;
    let mut p: usize = 0;
    while p < parts.len()
        invariant
            p <= parts@.len(),
            !any ==> forall|q: int| 0 <= q < p ==> blank((#[trigger] parts@[q])@),
            any ==> exists|q: int| 0 <= q < parts@.len() && !blank((#[trigger] parts@[q])@),
        decreases parts@.len() - p,
    {
        if !is_blank(parts[p].as_str()) {
            any = true;
        }
        p += 1;
    }
    if !any {
        return None;
    }
    let mut text: Vec<char> = Vec::new();
    let mut open = false;
    let mut first: Option<usize> = None;
    let mut p: usize = 0;
    while p < parts.len()
        invariant
            views == views_of(parts@),
            p <= parts@.len(),
            (text@, open, match first {
                Some(q) => Some(q as int),
                None => None,
            }) == event_speech(views.take(p as int)),
        decreases parts@.len() - p,
    {
        proof {
            assert(views.take(p + 1).drop_last() =~= views.take(p as int));
            assert(views.take(p + 1).last() == parts@[p as int]@);
        }
        let part = chars_of(parts[p].as_str());
        let mut said: Vec<char> = Vec::new();
        let mut inside = open;
        let mut k: usize = 0;
        while k < part.len()
            invariant
                k <= part@.len(),
                (said@, inside) == speech(part@.take(k as int), open),
            decreases part@.len() - k,
        {
            let c = part[k];
            proof {
                assert(part@.take(k + 1).drop_last() =~= part@.take(k as int));
                assert(part@.take(k + 1).last() == c);
            }
            if c == '[' {
                inside = true;
            } else if c == ']' {
                said.push(' ');
                inside = false;
            } else if !inside {
                said.push(c);
            }
            k += 1;
        }
        proof {
            assert(part@.take(k as int) =~= part@);
        }
        let text_blank = is_blank(string_of(&text).as_str());
        let said_blank = is_blank(string_of(&said).as_str());
        if text_blank && !said_blank {
            first = Some(p);
        }
        let ghost before = text@;
        let mut j: usize = 0;
        while j < said.len()
            invariant
                j <= said@.len(),
                text@ == before + said@.take(j as int),
            decreases said@.len() - j,
        {
            text.push(said[j]);
            j += 1;
            proof {
                assert(said@.take(j as int) =~= said@.take(j - 1).push(said@[j - 1]));
            }
        }
        proof {
            assert(said@.take(j as int) =~= said@);
        }
        open = inside;
        p += 1;
    }
    proof {
        assert(views.take(p as int) =~= views);
    }
    let mut joined = join_words(&split_words(&text));
    joined.push(' ');
    Some(CaptionSpeech { text: string_of(&joined), first_spoken: first })
}

/// The first line of a block that holds `-->`: the cue's timing line.
pub open spec fn timing_line(lines: Seq<Seq<char>>) -> Option<int> {
    if exists|i: int| 0 <= i < lines.len() && contains_text(#[trigger] lines[i], "-->"@) {
        Some(
            choose|i: int|
                0 <= i < lines.len() && contains_text(#[trigger] lines[i], "-->"@) && forall|j: int|
                    0 <= j < i ==> !contains_text(#[trigger] lines[j], "-->"@),
        )
    } else {
        None
    }
}

/// The cue of a caption block: the text of its start time (before the first `-->` of its
/// timing line), of its end time (the first word after it), and its caption (the lines after
/// the timing line, joined by spaces and cleaned); `None` without a timing line.
pub open spec fn cue_in(block: Seq<char>) -> Option<(Seq<char>, Seq<char>, Seq<char>)> {
    let lines = text_lines(block);
    match timing_line(lines) {
        None => None,
        Some(i) => {
            let times = pieces(lines[i], "-->"@);
            if times.len() < 2 {
                None
            } else {
                let after = words(times[1]);
                Some(
                    (
                        times[0],
                        if after.len() > 0 {
                            after[0]
                        } else {
                            Seq::empty()
                        },
                        caption_text(join_spaced(lines.skip(i + 1))),
                    ),
                )
            }
        },
    }
}

/// The cues of caption blocks in order, without those that have no timing line or no
/// caption.
pub open spec fn cues_in(blocks: Seq<Seq<char>>) -> Seq<(Seq<char>, Seq<char>, Seq<char>)>
    decreases blocks.len(),
{
    if blocks.len() == 0 {
        Seq::empty()
    } else {
        let earlier = cues_in(blocks.drop_last());
        match cue_in(blocks.last()) {
            Some(cue) => if cue.2.len() > 0 {
                earlier.push(cue)
            } else {
                earlier
            },
            None => earlier,
        }
    }
}

/// The cues of a WebVTT or SubRip file: its blocks are separated by blank lines once `\r\n`
/// endings are read as `\n`.
pub open spec fn caption_cues(source: Seq<char>) -> Seq<(Seq<char>, Seq<char>, Seq<char>)> {
    cues_in(pieces(replace_all(source, "\r\n"@, "\n"@), "\n\n"@))
}

/// A cue of a caption file: the texts of its start and end times, and its caption.
pub struct CaptionCue {
    pub start: String,
    pub end: String,
    pub text: String,
}

/// The views of cues.
pub open spec fn cue_views(cues: Seq<CaptionCue>) -> Seq<(Seq<char>, Seq<char>, Seq<char>)> {
    cues.map_values(|cue: CaptionCue| (cue.start@, cue.end@, cue.text@))
}

/// Reads the cue of one caption block.
fn read_cue(block: &Vec<char>) -> (cue: Option<CaptionCue>)
    ensures
        match cue {
            Some(c) => cue_in(block@) == Some((c.start@, c.end@, c.text@)),
            None => cue_in(block@) is None,
        },
{
    let mut lines = lines_of(block);
    let ghost views = lines@.map_values(|line: Vec<char>| line@);
    let arrow = chars_of("-->");
    proof {
        reveal_strlit("-->");
    }
    let mut i: usize = 0;
    while i < lines.len() && !text_contains(&lines[i], &arrow)
        invariant
            views == lines@.map_values(|line: Vec<char>| line@),
            arrow@ == "-->"@,
            i <= lines@.len(),
            forall|j: int| 0 <= j < i ==> !contains_text(#[trigger] views[j], "-->"@),
        decreases lines@.len() - i,
    {
        proof {
            assert(views[i as int] == lines@[i as int]@);
        }
        i += 1;
    }
    if i == lines.len() {
        proof {
            assert(!exists|k: int| 0 <= k < views.len() && contains_text(#[trigger] views[k], "-->"@));
        }
        return None;
    }
    proof {
        assert(views[i as int] == lines@[i as int]@);
        assert(contains_text(views[i as int], "-->"@));
        let chosen = choose|k: int|
            0 <= k < views.len() && contains_text(#[trigger] views[k], "-->"@) && forall|j: int|
                0 <= j < k ==> !contains_text(#[trigger] views[j], "-->"@);
        if chosen < i {
        } else if chosen > i {
            assert(!contains_text(views[i as int], "-->"@));
        }
    }
    let times = split_at_pattern(&lines[i], &arrow);
    if times.len() < 2 {
        proof {
            assert(times@.map_values(|part: Vec<char>| part@).len() == times@.len());
        }
        return None;
    }
    proof {
        assert(times@.map_values(|part: Vec<char>| part@)[0] == times@[0]@);
        assert(times@.map_values(|part: Vec<char>| part@)[1] == times@[1]@);
    }
    let after = split_words(&times[1]);
    let end = if after.len() > 0 {
        proof {
            assert(after@.map_values(|word: Vec<char>| word@)[0] == after@[0]@);
        }
        string_of(&after[0])
    } else {
        proof {
            assert(after@.map_values(|word: Vec<char>| word@).len() == 0);
        }
        String::new()
    };
    let rest = lines.split_off(i + 1);
    proof {
        assert(rest@.map_values(|line: Vec<char>| line@) =~= views.skip(i + 1));
    }
    let joined = string_of(&join_words(&rest));
    let text = clean_caption(joined.as_str());
    Some(CaptionCue { start: string_of(&times[0]), end, text })
}

/// Reads the cues of a WebVTT or SubRip caption file in order, leaving out blocks without a
/// timing line or a caption.  The times are returned as written; reading them as seconds is
/// left to the caller.
pub fn caption_file_cues(source: &str) -> (cues: Vec<CaptionCue>)
    ensures
        cue_views(cues@) == caption_cues(source@),
{
    proof {
        reveal_strlit("\r\n");
        reveal_strlit("\n\n");
    }
    let unified = replace_literal(&chars_of(source), "\r\n", "\n");
    let blocks = split_at_pattern(&unified, &chars_of("\n\n"));
    let ghost block_views = blocks@.map_values(|block: Vec<char>| block@);
    let mut cues: Vec<CaptionCue> = Vec::new();
    let mut b: usize = 0;
    while b < blocks.len()
        invariant
            block_views == blocks@.map_values(|block: Vec<char>| block@),
            b <= blocks@.len(),
            cue_views(cues@) == cues_in(block_views.take(b as int)),
        decreases blocks@.len() - b,
    {
        proof {
            assert(block_views.take(b + 1).drop_last() =~= block_views.take(b as int));
            assert(block_views.take(b + 1).last() == blocks@[b as int]@);
        }
        match read_cue(&blocks[b]) {
            Some(cue) => {
                if !cue.text.as_str().is_empty() {
                    let ghost before = cues@;
                    cues.push(cue);
                    proof {
                        assert(cue_views(cues@) =~= cue_views(before).push((cue.start@, cue.end@, cue.text@)));
                    }
                }
            },
            None => {},
        }
        b += 1;
    }
    proof {
        assert(block_views.take(b as int) =~= block_views);
    }
    cues
}

/// What a reply of the lyrics service amounts to, by the status code in its header.
#[derive(Clone, Copy, Debug, PartialEq, Eq, Structural)]
pub enum ReplyOutcome {
    /// Status 200: the body holds the answer.
    Body,
    /// Status 404, or no reply at all: there is nothing to read.
    Nothing,
    /// Any other status: the session's token is dropped and requests back off.
    Rejected(u64),
    /// A reply without a status code.
    Malformed,
}

/// Reads the status code of a reply (`None` when it has none) and whether the reply is null.
pub fn reply_outcome(status: Option<u64>, null: bool) -> (outcome: ReplyOutcome)
    ensures
        outcome == (match status {
            Some(200) => ReplyOutcome::Body,
            Some(404) => ReplyOutcome::Nothing,
            Some(code) => ReplyOutcome::Rejected(code),
            None => if null {
                ReplyOutcome::Nothing
            } else {
                ReplyOutcome::Malformed
            },
        }),
{
    match status {
        Some(200) => ReplyOutcome::Body,
        Some(404) => ReplyOutcome::Nothing,
        Some(code) => ReplyOutcome::Rejected(code),
        None => if null {
            ReplyOutcome::Nothing
        } else {
            ReplyOutcome::Malformed
        },
    }
}

/// The first search result with the given timing type.
pub open spec fn first_with_timing(types: Seq<Option<String>>, timing: Seq<char>) -> Option<int> {
    if exists|i: int| 0 <= i < types.len() && reads(#[trigger] types[i], timing) {
        Some(
            choose|i: int|
                0 <= i < types.len() && reads(#[trigger] types[i], timing) && forall|j: int|
                    0 <= j < i ==> !reads(#[trigger] types[j], timing),
        )
    } else {
        None
    }
}

/// The search result whose lyrics are fetched, given each result's timing type: the first
/// word-timed one, else the first line-timed one; with whether it is word-timed.
pub open spec fn preferred_result(types: Seq<Option<String>>) -> Option<(int, bool)> {
    match first_with_timing(types, "word"@) {
        Some(i) => Some((i, true)),
        None => match first_with_timing(types, "line"@) {
            Some(i) => Some((i, false)),
            None => None,
        },
    }
}

/// The first result with the timing type.
fn find_timing(types: &Vec<Option<String>>, timing: &str) -> (found: Option<usize>)
    ensures
        match found {
            Some(i) => first_with_timing(types@, timing@) == Some(i as int),
            None => first_with_timing(types@, timing@) is None,
        },
{
    let mut k: usize = 0;
    while k < types.len()
        invariant
            k <= types@.len(),
            forall|j: int| 0 <= j < k ==> !reads(#[trigger] types@[j], timing@),
        decreases types@.len() - k,
    {
        if is_text(&types[k], timing) {
            proof {
                let chosen = choose|i: int|
                    0 <= i < types@.len() && reads(#[trigger] types@[i], timing@) && forall|j: int|
                        0 <= j < i ==> !reads(#[trigger] types@[j], timing@);
                assert(0 <= k < types@.len() && reads(types@[k as int], timing@));
                if chosen < k {
                    assert(!reads(types@[chosen], timing@));
                } else if chosen > k {
                    assert(!reads(types@[k as int], timing@));
                }
            }
            return Some(k);
        }
        k += 1;
    }
    None
}

/// Picks among the lyrics search results (given by their timing types) the one to fetch:
/// word timing is preferred over line timing.
pub fn pick_result(types: &Vec<Option<String>>) -> (picked: Option<(usize, bool)>)
    ensures
        match picked {
            Some((i, word)) => preferred_result(types@) == Some((i as int, word)),
            None => preferred_result(types@) is None,
        },
{
    match find_timing(types, "word") {
        Some(i) => Some((i, true)),
        None => match find_timing(types, "line") {
            Some(i) => Some((i, false)),
            None => None,
        },
    }
}

/// Whether a lyrics service token can be used: it is not empty and is not an `UpgradeOnly`
/// placeholder.
pub open spec fn usable_token_text(token: Seq<char>) -> bool {
    token.len() > 0 && !starts_with(token, "UpgradeOnly"@)
}

/// Whether the token handed out by the lyrics service can be used.
pub fn usable_token(token: &str) -> (usable: bool)
    ensures
        usable == usable_token_text(token@),
{
    let text = chars_of(token);
    let mark = chars_of("UpgradeOnly");
    if text.len() == 0 {
        return false;
    }
    if mark.len() > text.len() {
        return true;
    }
    let found = crate::chars::occurs_at(&text, 0, &mark);
    proof {
        assert(text@.skip(0) =~= text@);
    }
    !found
}

} // verus!
