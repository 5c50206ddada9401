//! Character-level building blocks shared by the readouts and the parsers.
use vstd::prelude::*;
use vstd::string::*;

verus! {

/// The character of a decimal digit.
pub open spec fn digit_char(digit: nat) -> char {
    (48 + digit) as char
}

/// Decimal digits of a number, without leading zeros (`0` for zero).
pub open spec fn decimal(n: nat) -> Seq<char>
    decreases n,
{
    if n < 10 {
        seq![digit_char(n)]
    } else {
        decimal(n / 10).push(digit_char(n % 10))
    }
}

/// Decimal digits padded with a leading zero to at least two places, as `{:02}` writes them.
pub open spec fn two_digits(n: nat) -> Seq<char> {
    if n < 10 {
        seq!['0'].add(decimal(n))
    } else {
        decimal(n)
    }
}

/// An ASCII decimal digit.
pub open spec fn is_digit(c: char) -> bool {
    '0' <= c && c <= '9'
}

/// Every character of `s` is an ASCII decimal digit.
pub open spec fn all_digits(s: Seq<char>) -> bool {
    forall|i: int| 0 <= i < s.len() ==> is_digit(#[trigger] s[i])
}

/// The decimal value of a run of ASCII digits.
pub open spec fn digits_value(s: Seq<char>) -> nat
    decreases s.len(),
{
    if s.len() == 0 {
        0
    } else {
        digits_value(s.drop_last()) * 10 + ((s.last() as int - 48) as nat)
    }
}

/// A digit's character is an ASCII digit whose code is 48 above it.
pub proof fn lemma_digit_char(d: nat)
    requires
        d < 10,
    ensures
        digit_char(d) as int == 48 + d,
        is_digit(digit_char(d)),
{
    assert((48 + d) as char as int == 48 + d);
}

/// Whether `char::is_alphanumeric` holds of a character (Unicode `Alphabetic` or `Numeric`).
pub uninterp spec fn alphanumeric(c: char) -> bool;

/// Calls `char::is_alphanumeric`.
#[verifier::external_body]
pub(crate) fn is_alphanumeric(c: char) -> (alnum: bool)
    ensures
        alnum == alphanumeric(c),
{
    c.is_alphanumeric()
}

/// The text `str::to_lowercase` gives for a text (Unicode lowercase mapping).
pub uninterp spec fn lowercase(text: Seq<char>) -> Seq<char>;

/// Calls `str::to_lowercase`, which returns the lowercase equivalent of the text as a new string.
#[verifier::external_body]
pub(crate) fn to_lowercase(text: &str) -> (lower: String)
    ensures
        lower@ == lowercase(text@),
{
    text.to_lowercase()
}

/// Calls `String::push`, which appends one character to the end of the string.
#[verifier::external_body]
pub(crate) fn push_char(text: &mut String, c: char)
    ensures
        final(text)@ == old(text)@.push(c),
{
    text.push(c);
}

/// The ASCII character of a digit below ten.
pub fn digit(value: u64) -> (c: char)
    requires
        value < 10,
    ensures
        c == digit_char(value as nat),
{
    let byte: u8 = 48u8 + (value as u8);
    byte as char
}

/// Appends the decimal digits of `value`.
pub fn push_decimal(text: &mut String, value: u64)
    ensures
        final(text)@ == old(text)@ + decimal(value as nat),
    decreases value,
{
    if value >= 10 {
        push_decimal(text, value / 10);
    }
    push_char(text, digit(value % 10));
    proof {
        if value >= 10 {
            assert(decimal(value as nat) == decimal((value / 10) as nat).push(
                digit_char((value % 10) as nat),
            ));
        }
    }
}

/// Appends the decimal digits of `value`, padded to two places.
pub fn push_two_digits(text: &mut String, value: u64)
    ensures
        final(text)@ == old(text)@ + two_digits(value as nat),
{
    if value < 10 {
        push_char(text, '0');
    }
    push_decimal(text, value);
}

/// The characters of a string, in order.
pub fn chars_of(text: &str) -> (chars: Vec<char>)
    ensures
        chars@ == text@,
{
    let mut chars: Vec<char> = Vec::new();
    for c in it: text.chars()
        invariant
            chars@ == it.seq().take(it.index() as int),
            it.seq() == text@,
    {
        chars.push(c);
    }
    chars
}

/// Whether two strings hold the same characters.
pub fn same_text(a: &str, b: &str) -> (same: bool)
    ensures
        same == (a@ == b@),
{
    let left = chars_of(a);
    let right = chars_of(b);
    if left.len() != right.len() {
        return false;
    }
    let mut index: usize = 0;
    while index < left.len()
        invariant
            left@ == a@,
            right@ == b@,
            left.len() == right.len(),
            index <= left.len(),
            forall|i: int| 0 <= i < index ==> left@[i] == right@[i],
        decreases left.len() - index,
    {
        if left[index] != right[index] {
            return false;
        }
        index += 1;
    }
    assert(a@ =~= b@);
    true
}

/// Finished runs and the run being built after reading `text` from the left, where the
/// characters satisfying `separator` end runs and are dropped.
pub open spec fn split_scan(text: Seq<char>, separator: spec_fn(char) -> bool) -> (
    Seq<Seq<char>>,
    Seq<char>,
)
    decreases text.len(),
{
    if text.len() == 0 {
        (Seq::empty(), Seq::empty())
    } else {
        let (done, current) = split_scan(text.drop_last(), separator);
        let c = text.last();
        if separator(c) {
            if current.len() > 0 {
                (done.push(current), Seq::empty())
            } else {
                (done, current)
            }
        } else {
            (done, current.push(c))
        }
    }
}

/// The non-empty runs of characters between separators.
pub open spec fn split_runs(text: Seq<char>, separator: spec_fn(char) -> bool) -> Seq<Seq<char>> {
    let (done, current) = split_scan(text, separator);
    if current.len() > 0 {
        done.push(current)
    } else {
        done
    }
}

/// Words joined with one space between each pair.
pub open spec fn join_spaced(words: Seq<Seq<char>>) -> Seq<char>
    decreases words.len(),
{
    if words.len() == 0 {
        Seq::empty()
    } else if words.len() == 1 {
        words[0]
    } else {
        join_spaced(words.drop_last()) + seq![' '] + words.last()
    }
}

/// The text with every non-overlapping occurrence of `pattern`, left to right, replaced by
/// `replacement`, as `str::replace` does.
pub open spec fn replace_all(text: Seq<char>, pattern: Seq<char>, replacement: Seq<char>) -> Seq<
    char,
>
    recommends
        pattern.len() > 0,
    decreases text.len(),
{
    if text.len() == 0 || pattern.len() == 0 {
        text
    } else if pattern.len() <= text.len() && text.take(pattern.len() as int) == pattern {
        replacement + replace_all(text.skip(pattern.len() as int), pattern, replacement)
    } else {
        seq![text[0]] + replace_all(text.drop_first(), pattern, replacement)
    }
}

/// Whether `pattern` occurs in `text` at `at`.
pub fn occurs_at(text: &Vec<char>, at: usize, pattern: &Vec<char>) -> (found: bool)
    requires
        at <= text@.len(),
    ensures
        found == (pattern@.len() <= text@.len() - at && text@.skip(at as int).take(
            pattern@.len() as int,
        ) == pattern@),
{
    let n = text.len();
    if pattern.len() > n - at {
        return false;
    }
    let mut k: usize = 0;
    while k < pattern.len()
        invariant
            text@.len() == n,
            pattern@.len() <= text@.len() - at,
            k <= pattern@.len(),
            forall|i: int| 0 <= i < k ==> text@[at + i] == pattern@[i],
        decreases pattern@.len() - k,
    {
        if text[at + k] != pattern[k] {
            proof {
                assert(text@.skip(at as int).take(pattern@.len() as int)[k as int] != pattern@[k as int]);
            }
            return false;
        }
        k += 1;
    }
    assert(text@.skip(at as int).take(pattern@.len() as int) =~= pattern@);
    true
}

/// Replaces every non-overlapping occurrence of `pattern`, left to right, as `str::replace` does.
pub fn replace_chars(text: &Vec<char>, pattern: &Vec<char>, replacement: &Vec<char>) -> (replaced:
    Vec<char>)
    requires
        pattern@.len() > 0,
    ensures
        replaced@ == replace_all(text@, pattern@, replacement@),
{
    let mut replaced: Vec<char> = Vec::new();
    let mut at: usize = 0;
    assert(text@.skip(0) =~= text@);
    assert(replaced@ + replace_all(text@, pattern@, replacement@) =~= replace_all(
        text@,
        pattern@,
        replacement@,
    ));
    while at < text.len()
        invariant
            pattern@.len() > 0,
            at <= text@.len(),
            replaced@ + replace_all(text@.skip(at as int), pattern@, replacement@) == replace_all(
                text@,
                pattern@,
                replacement@,
            ),
        decreases text@.len() - at,
    {
        let ghost rest = text@.skip(at as int);
        if occurs_at(text, at, pattern) {
            let mut k: usize = 0;
            let ghost before = replaced@;
            while k < replacement.len()
                invariant
                    k <= replacement@.len(),
                    replaced@ == before + replacement@.take(k as int),
                decreases replacement@.len() - k,
            {
                replaced.push(replacement[k]);
                k += 1;
                proof {
                    assert(replacement@.take(k as int) =~= replacement@.take(k - 1).push(
                        replacement@[k - 1],
                    ));
                }
            }
            proof {
                assert(replacement@.take(k as int) =~= replacement@);
                assert(rest.skip(pattern@.len() as int) =~= text@.skip(at + pattern@.len()));
                assert(before + replacement@ + replace_all(
                    text@.skip(at + pattern@.len()),
                    pattern@,
                    replacement@,
                ) =~= before + replace_all(rest, pattern@, replacement@));
            }
            at = at + pattern.len();
        } else {
            let ghost before = replaced@;
            replaced.push(text[at]);
            proof {
                assert(rest.drop_first() =~= text@.skip(at + 1));
                assert(before.push(text@[at as int]) + replace_all(
                    text@.skip(at + 1),
                    pattern@,
                    replacement@,
                ) =~= before + replace_all(rest, pattern@, replacement@));
            }
            at = at + 1;
        }
    }
    proof {
        assert(text@.skip(at as int) =~= Seq::<char>::empty());
        assert(replaced@ + Seq::<char>::empty() =~= replaced@);
    }
    replaced
}

/// Joins words with one space between each pair.
pub fn join_words(words: &Vec<Vec<char>>) -> (joined: Vec<char>)
    ensures
        joined@ == join_spaced(words@.map_values(|word: Vec<char>| word@)),
{
    let ghost views = words@.map_values(|word: Vec<char>| word@);
    let mut joined: Vec<char> = Vec::new();
    let mut index: usize = 0;
    while index < words.len()
        invariant
            views == words@.map_values(|word: Vec<char>| word@),
            index <= words@.len(),
            joined@ == join_spaced(views.take(index as int)),
        decreases words@.len() - index,
    {
        let ghost before = joined@;
        if index > 0 {
            joined.push(' ');
        }
        let word = &words[index];
        let mut k: usize = 0;
        let ghost with_space = joined@;
        while k < word.len()
            invariant
                k <= word@.len(),
                joined@ == with_space + word@.take(k as int),
            decreases word@.len() - k,
        {
            joined.push(word[k]);
            k += 1;
            proof {
                assert(word@.take(k as int) =~= word@.take(k - 1).push(word@[k - 1]));
            }
        }
        proof {
            assert(word@.take(k as int) =~= word@);
            assert(views.take(index + 1).drop_last() =~= views.take(index as int));
            assert(views.take(index + 1).last() == word@);
            if index == 0 {
                assert(views.take(1) =~= seq![word@]);
                assert(joined@ =~= word@);
            } else {
                assert(joined@ =~= before + seq![' '] + word@);
            }
        }
        index += 1;
    }
    proof {
        assert(views.take(index as int) =~= views);
    }
    joined
}

/// A string holding the given characters.
pub fn string_of(chars: &Vec<char>) -> (text: String)
    ensures
        text@ == chars@,
{
    let mut text = String::new();
    let mut index: usize = 0;
    while index < chars.len()
        invariant
            index <= chars@.len(),
            text@ == chars@.take(index as int),
        decreases chars@.len() - index,
    {
        push_char(&mut text, chars[index]);
        index += 1;
        proof {
            assert(chars@.take(index as int) =~= chars@.take(index - 1).push(chars@[index - 1]));
        }
    }
    proof {
        assert(chars@.take(index as int) =~= chars@);
    }
    text
}

/// Whether `char::is_whitespace` holds of a character (Unicode `White_Space`).
pub uninterp spec fn whitespace(c: char) -> bool;

/// Calls `char::is_whitespace`.
#[verifier::external_body]
pub(crate) fn is_whitespace(c: char) -> (space: bool)
    ensures
        space == whitespace(c),
{
    c.is_whitespace()
}

/// A text with nothing but whitespace in it, so that `str::trim` leaves it empty.
pub open spec fn blank(text: Seq<char>) -> bool {
    forall|i: int| 0 <= i < text.len() ==> whitespace(#[trigger] text[i])
}

/// Whether a text is blank: empty once trimmed.
pub fn is_blank(text: &str) -> (empty: bool)
    ensures
        empty == blank(text@),
{
    let chars = chars_of(text);
    let mut index: usize = 0;
    while index < chars.len()
        invariant
            chars@ == text@,
            index <= chars@.len(),
            forall|i: int| 0 <= i < index ==> whitespace(#[trigger] chars@[i]),
        decreases chars@.len() - index,
    {
        if !is_whitespace(chars[index]) {
            return false;
        }
        index += 1;
    }
    true
}

/// The words of a text, as `str::split_whitespace` yields them.
pub open spec fn words(text: Seq<char>) -> Seq<Seq<char>> {
    split_runs(text, |c: char| whitespace(c))
}

/// Splits a text into its whitespace-separated words.
pub fn split_words(text: &Vec<char>) -> (words_of: Vec<Vec<char>>)
    ensures
        words_of@.map_values(|word: Vec<char>| word@) == words(text@),
{
    let ghost separator = |c: char| whitespace(c);
    let mut done: Vec<Vec<char>> = Vec::new();
    let mut current: Vec<char> = Vec::new();
    let mut index: usize = 0;
    while index < text.len()
        invariant
            separator == (|c: char| whitespace(c)),
            index <= text@.len(),
            done@.len() == split_scan(text@.take(index as int), separator).0.len(),
            forall|i: int|
                0 <= i < done@.len() ==> #[trigger] done@[i]@ == split_scan(
                    text@.take(index as int),
                    separator,
                ).0[i],
            current@ == split_scan(text@.take(index as int), separator).1,
        decreases text@.len() - index,
    {
        let c = text[index];
        proof {
            assert(text@.take(index + 1).drop_last() =~= text@.take(index as int));
            assert(text@.take(index + 1).last() == c);
        }
        if is_whitespace(c) {
            if current.len() > 0 {
                done.push(current);
                current = Vec::new();
            }
        } else {
            current.push(c);
        }
        index += 1;
    }
    proof {
        assert(text@.take(index as int) =~= text@);
    }
    if current.len() > 0 {
        done.push(current);
    }
    assert(done@.map_values(|word: Vec<char>| word@) =~= words(text@));
    done
}

/// Splits a text into the non-empty runs between occurrences of `separator`.
pub fn split_on(text: &Vec<char>, separator: char) -> (runs: Vec<Vec<char>>)
    ensures
        runs@.map_values(|run: Vec<char>| run@) == split_runs(text@, |c: char| c == separator),
{
    let ghost split = |c: char| c == separator;
    let mut done: Vec<Vec<char>> = Vec::new();
    let mut current: Vec<char> = Vec::new();
    let mut index: usize = 0;
    while index < text.len()
        invariant
            split == (|c: char| c == separator),
            index <= text@.len(),
            done@.len() == split_scan(text@.take(index as int), split).0.len(),
            forall|i: int|
                0 <= i < done@.len() ==> #[trigger] done@[i]@ == split_scan(
                    text@.take(index as int),
                    split,
                ).0[i],
            current@ == split_scan(text@.take(index as int), split).1,
        decreases text@.len() - index,
    {
        let c = text[index];
        proof {
            assert(text@.take(index + 1).drop_last() =~= text@.take(index as int));
            assert(text@.take(index + 1).last() == c);
        }
        if c == separator {
            if current.len() > 0 {
                done.push(current);
                current = Vec::new();
            }
        } else {
            current.push(c);
        }
        index += 1;
    }
    proof {
        assert(text@.take(index as int) =~= text@);
    }
    if current.len() > 0 {
        done.push(current);
    }
    assert(done@.map_values(|run: Vec<char>| run@) =~= split_runs(text@, split));
    done
}

/// The pieces of `text` between the occurrences of `pattern`, found left to right without
/// overlapping, as `str::split` yields them (empty pieces included); `current` is the piece
/// read so far.
pub open spec fn pieces_from(text: Seq<char>, pattern: Seq<char>, current: Seq<char>) -> Seq<
    Seq<char>,
>
    decreases text.len(),
{
    if text.len() == 0 {
        seq![current]
    } else if pattern.len() > 0 && pattern.len() <= text.len() && text.take(pattern.len() as int)
        == pattern {
        seq![current] + pieces_from(text.skip(pattern.len() as int), pattern, Seq::empty())
    } else {
        pieces_from(text.drop_first(), pattern, current.push(text[0]))
    }
}

/// The pieces of `text` between the occurrences of a non-empty `pattern`, as `str::split`
/// yields them.
pub open spec fn pieces(text: Seq<char>, pattern: Seq<char>) -> Seq<Seq<char>> {
    pieces_from(text, pattern, Seq::empty())
}

/// There is always at least one piece.
pub proof fn lemma_pieces_nonempty(text: Seq<char>, pattern: Seq<char>, current: Seq<char>)
    ensures
        pieces_from(text, pattern, current).len() >= 1,
    decreases text.len(),
{
    if text.len() == 0 {
    } else if pattern.len() > 0 && pattern.len() <= text.len() && text.take(pattern.len() as int)
        == pattern {
        lemma_pieces_nonempty(text.skip(pattern.len() as int), pattern, Seq::empty());
    } else {
        lemma_pieces_nonempty(text.drop_first(), pattern, current.push(text[0]));
    }
}

/// Splits a text at the occurrences of a non-empty pattern, left to right.
pub fn split_at_pattern(text: &Vec<char>, pattern: &Vec<char>) -> (parts: Vec<Vec<char>>)
    requires
        pattern@.len() > 0,
    ensures
        parts@.map_values(|part: Vec<char>| part@) == pieces(text@, pattern@),
{
    let ghost whole = pieces(text@, pattern@);
    let mut done: Vec<Vec<char>> = Vec::new();
    let mut current: Vec<char> = Vec::new();
    let mut at: usize = 0;
    assert(text@.skip(0) =~= text@);
    assert(done@.map_values(|part: Vec<char>| part@) + pieces_from(text@.skip(0), pattern@, current@) =~= whole);
    while at < text.len()
        invariant
            pattern@.len() > 0,
            at <= text@.len(),
            whole == pieces(text@, pattern@),
            done@.map_values(|part: Vec<char>| part@) + pieces_from(text@.skip(at as int), pattern@, current@)
                == whole,
        decreases text@.len() - at,
    {
        let ghost rest = text@.skip(at as int);
        let ghost before = done@.map_values(|part: Vec<char>| part@);
        if occurs_at(text, at, pattern) {
            proof {
                assert(rest.take(pattern@.len() as int) =~= text@.skip(at as int).take(pattern@.len() as int));
                assert(rest.skip(pattern@.len() as int) =~= text@.skip(at + pattern@.len()));
            }
            let piece = current;
            current = Vec::new();
            done.push(piece);
            at = at + pattern.len();
            proof {
                assert(done@.map_values(|part: Vec<char>| part@) =~= before.push(piece@));
                assert(before.push(piece@) + pieces_from(text@.skip(at as int), pattern@, current@) =~= before
                    + (seq![piece@] + pieces_from(text@.skip(at as int), pattern@, current@)));
            }
        } else {
            proof {
                assert(rest[0] == text@[at as int]);
                assert(rest.drop_first() =~= text@.skip(at + 1));
            }
            current.push(text[at]);
            at += 1;
        }
    }
    proof {
        assert(text@.skip(at as int) =~= Seq::<char>::empty());
    }
    let ghost before = done@.map_values(|part: Vec<char>| part@);
    done.push(current);
    proof {
        assert(done@.map_values(|part: Vec<char>| part@) =~= before + seq![current@]);
    }
    done
}

/// A line without the `\r` of a `\r\n` ending.
pub open spec fn without_return(line: Seq<char>) -> Seq<char> {
    if line.len() > 0 && line.last() == '\r' {
        line.drop_last()
    } else {
        line
    }
}

/// The lines of a text, as `str::lines` yields them: the pieces between `\n`s, each that a
/// `\n` ends without a `\r` before it, and no empty last line after a final `\n`.
pub open spec fn text_lines(text: Seq<char>) -> Seq<Seq<char>> {
    let raw = pieces(text, seq!['\n']);
    let ended = raw.drop_last().map_values(|line: Seq<char>| without_return(line));
    if raw.last().len() == 0 {
        ended
    } else {
        ended.push(raw.last())
    }
}

/// Splits a text into its lines.
pub fn lines_of(text: &Vec<char>) -> (lines: Vec<Vec<char>>)
    ensures
        lines@.map_values(|line: Vec<char>| line@) == text_lines(text@),
{
    let mut newline: Vec<char> = Vec::new();
    newline.push('\n');
    assert(newline@ =~= seq!['\n']);
    let mut raw = split_at_pattern(text, &newline);
    let ghost raw_view = raw@.map_values(|part: Vec<char>| part@);
    proof {
        lemma_pieces_nonempty(text@, seq!['\n'], Seq::empty());
    }
    let last = raw.pop().unwrap();
    assert(raw@.map_values(|part: Vec<char>| part@) =~= raw_view.drop_last());
    let mut lines: Vec<Vec<char>> = Vec::new();
    let mut rest = raw;
    let ghost ended = raw_view.drop_last();
    let mut k: usize = 0;
    let count = rest.len();
    while k < count
        invariant
            count == ended.len(),
            k <= count,
            rest@.map_values(|part: Vec<char>| part@) == ended.skip(k as int),
            lines@.map_values(|line: Vec<char>| line@) == ended.take(k as int).map_values(
                |line: Seq<char>| without_return(line),
            ),
        decreases count - k,
    {
        proof {
            assert(rest@.map_values(|part: Vec<char>| part@).len() == rest@.len());
            assert(rest@.map_values(|part: Vec<char>| part@)[0] == rest@[0]@);
            assert(ended.skip(k as int)[0] == ended[k as int]);
        }
        let ghost old_rest = rest@;
        let mut line = rest.remove(0);
        proof {
            assert(line@ == ended[k as int]);
            assert(rest@ == old_rest.remove(0));
        }
        if line.len() > 0 && line[line.len() - 1] == '\r' {
            line.pop();
        }
        let ghost before = lines@.map_values(|l: Vec<char>| l@);
        lines.push(line);
        k += 1;
        proof {
            assert(lines@.map_values(|l: Vec<char>| l@) =~= before.push(without_return(ended[k - 1])));
            assert(ended.take(k as int).map_values(|l: Seq<char>| without_return(l)) =~= ended.take(
                k - 1,
            ).map_values(|l: Seq<char>| without_return(l)).push(without_return(ended[k - 1])));
            assert forall|j: int| 0 <= j < rest@.len() implies #[trigger] rest@[j]@ == ended.skip(k as int)[j] by {
                assert(rest@[j] == old_rest[j + 1]);
                assert(old_rest.map_values(|part: Vec<char>| part@)[j + 1] == old_rest[j + 1]@);
            }
            assert(rest@.map_values(|part: Vec<char>| part@) =~= ended.skip(k as int));
        }
    }
    assert(ended.take(k as int) =~= ended);
    if last.len() > 0 {
        let ghost before = lines@.map_values(|l: Vec<char>| l@);
        lines.push(last);
        assert(lines@.map_values(|l: Vec<char>| l@) =~= before.push(raw_view.last()));
    }
    lines
}

} // verus!
