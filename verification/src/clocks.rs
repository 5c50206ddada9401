//! Clock values of timed lyrics: which texts the lyrics' time reading accepts.
use crate::chars::{all_digits, chars_of, is_digit, pieces, split_at_pattern};
use crate::players::ascii_lowercase;
use vstd::prelude::*;
use vstd::string::*;

verus! {

/// A text without one leading `+` or `-`.
pub open spec fn unsigned(text: Seq<char>) -> Seq<char> {
    if text.len() > 0 && (text[0] == '+' || text[0] == '-') {
        text.drop_first()
    } else {
        text
    }
}

/// Digits with at most one decimal point and at least one digit: `Digit+`,
/// `Digit+ '.' Digit*` or `Digit* '.' Digit+`.
pub open spec fn decimal_digits(text: Seq<char>) -> bool {
    (text.len() > 0 && all_digits(text)) || exists|d: int|
        0 <= d < text.len() && text[d] == '.' && all_digits(text.take(d)) && all_digits(
            #[trigger] text.skip(d + 1),
        ) && (d > 0 || d + 1 < text.len())
}

/// An exponent after its `e`: an optional sign, then one or more digits.
pub open spec fn exponent_digits(text: Seq<char>) -> bool {
    unsigned(text).len() > 0 && all_digits(unsigned(text))
}

/// Whether a character is an exponent mark.
pub open spec fn exponent_mark(c: char) -> bool {
    c == 'e' || c == 'E'
}

/// A decimal number with an optional exponent.
pub open spec fn number_text(text: Seq<char>) -> bool {
    decimal_digits(text) || exists|e: int|
        0 <= e < text.len() && exponent_mark(text[e]) && decimal_digits(#[trigger] text.take(e))
            && exponent_digits(text.skip(e + 1))
}

/// Whether `f32::from_str` accepts a text, by the grammar its documentation gives: an
/// optional sign, then `inf`, `infinity` or `nan` in any case, or a decimal number with an
/// optional exponent; no surrounding whitespace.
pub open spec fn float_text(text: Seq<char>) -> bool {
    let body = unsigned(text);
    let lower = ascii_lowercase(body);
    lower == "inf"@ || lower == "infinity"@ || lower == "nan"@ || number_text(body)
}

/// Whether a run of characters are all digits.
fn digits_in(text: &Vec<char>, start: usize, end: usize) -> (digits: bool)
    requires
        start <= end <= text@.len(),
    ensures
        digits == all_digits(text@.subrange(start as int, end as int)),
{
    let mut k = start;
    while k < end
        invariant
            start <= k <= end <= text@.len(),
            all_digits(text@.subrange(start as int, k as int)),
        decreases end - k,
    {
        if !('0' <= text[k] && text[k] <= '9') {
            proof {
                assert(text@.subrange(start as int, end as int)[k - start] == text@[k as int]);
            }
            return false;
        }
        k += 1;
        proof {
            assert forall|i: int| 0 <= i < k - start implies is_digit(
                #[trigger] text@.subrange(start as int, k as int)[i],
            ) by {
                if i < k - 1 - start {
                    assert(text@.subrange(start as int, k as int)[i] == text@.subrange(
                        start as int,
                        k - 1,
                    )[i]);
                }
            }
        }
    }
    true
}

/// Whether `text[start..end]` is decimal digits with at most one point.
fn decimal_in(text: &Vec<char>, start: usize, end: usize) -> (ok: bool)
    requires
        start <= end <= text@.len(),
    ensures
        ok == decimal_digits(text@.subrange(start as int, end as int)),
{
    let ghost part = text@.subrange(start as int, end as int);
    let mut point = start;
    while point < end && text[point] != '.'
        invariant
            start <= point <= end <= text@.len(),
            forall|i: int| start <= i < point ==> text@[i] != '.',
        decreases end - point,
    {
        point += 1;
    }
    if point == end {
        let ok = start < end && digits_in(text, start, end);
        proof {
            if !ok && decimal_digits(part) {
                if !(part.len() > 0 && all_digits(part)) {
                    let d = choose|d: int|
                        0 <= d < part.len() && part[d] == '.' && all_digits(part.take(d)) && all_digits(
                            #[trigger] part.skip(d + 1),
                        ) && (d > 0 || d + 1 < part.len());
                    assert(text@[start + d] == '.');
                }
            }
        }
        return ok;
    }
    let before = digits_in(text, start, point);
    let after = digits_in(text, point + 1, end);
    let ok = before && after && (point > start || point + 1 < end);
    proof {
        let d = point - start;
        assert(part[d] == '.');
        assert(part.take(d) =~= text@.subrange(start as int, point as int));
        assert(part.skip(d + 1) =~= text@.subrange(point + 1, end as int));
        assert(before == all_digits(part.take(d)));
        assert(after == all_digits(part.skip(d + 1)));
        if ok {
            assert(0 <= d < part.len() && part[d] == '.' && all_digits(part.take(d)) && all_digits(
                part.skip(d + 1),
            ) && (d > 0 || d + 1 < part.len()));
        } else if decimal_digits(part) {
            if part.len() > 0 && all_digits(part) {
                assert(is_digit(part[d]));
            } else {
                let e = choose|e: int|
                    0 <= e < part.len() && part[e] == '.' && all_digits(part.take(e)) && all_digits(
                        #[trigger] part.skip(e + 1),
                    ) && (e > 0 || e + 1 < part.len());
                if e < d {
                    assert(part.skip(e + 1)[d - e - 1] == part[d]);
                    assert(is_digit(part.skip(e + 1)[d - e - 1]));
                } else if e > d {
                    assert(part.take(e)[d] == part[d]);
                    assert(is_digit(part.take(e)[d]));
                }
            }
        }
    }
    ok
}

/// Whether `f32::from_str` accepts `text[start..end]`.
fn float_in(text: &Vec<char>, start: usize, end: usize) -> (ok: bool)
    requires
        start <= end <= text@.len(),
    ensures
        ok == float_text(text@.subrange(start as int, end as int)),
{
    let ghost whole = text@.subrange(start as int, end as int);
    let mut from = start;
    if from < end && (text[from] == '+' || text[from] == '-') {
        from += 1;
    }
    let ghost body = text@.subrange(from as int, end as int);
    assert(body =~= unsigned(whole));
    proof {
        reveal_strlit("inf");
        reveal_strlit("infinity");
        reveal_strlit("nan");
    }
    if word_in(text, from, end, "inf") || word_in(text, from, end, "infinity") || word_in(
        text,
        from,
        end,
        "nan",
    ) {
        return true;
    }
    let mut mark = from;
    while mark < end && text[mark] != 'e' && text[mark] != 'E'
        invariant
            from <= mark <= end <= text@.len(),
            forall|i: int| from <= i < mark ==> !exponent_mark(text@[i]),
        decreases end - mark,
    {
        mark += 1;
    }
    if mark == end {
        let ok = decimal_in(text, from, end);
        proof {
            if !ok && number_text(body) {
                let e = choose|e: int|
                    0 <= e < body.len() && exponent_mark(body[e]) && decimal_digits(
                        #[trigger] body.take(e),
                    ) && exponent_digits(body.skip(e + 1));
                assert(body[e] == text@[from + e]);
            }
        }
        return ok;
    }
    let mantissa = decimal_in(text, from, mark);
    let mut digits_from = mark + 1;
    if digits_from < end && (text[digits_from] == '+' || text[digits_from] == '-') {
        digits_from += 1;
    }
    let exponent = digits_from < end && digits_in(text, digits_from, end);
    let ok = mantissa && exponent;
    proof {
        let e = mark - from;
        assert(body.take(e) =~= text@.subrange(from as int, mark as int));
        assert(body.skip(e + 1) =~= text@.subrange(mark + 1, end as int));
        assert(unsigned(body.skip(e + 1)) =~= text@.subrange(digits_from as int, end as int));
        assert(exponent_mark(body[e]));
        if ok {
            assert(number_text(body));
        } else if number_text(body) {
            if decimal_digits(body) {
                if body.len() > 0 && all_digits(body) {
                    assert(is_digit(body[e]));
                } else {
                    let d = choose|d: int|
                        0 <= d < body.len() && body[d] == '.' && all_digits(body.take(d)) && all_digits(
                            #[trigger] body.skip(d + 1),
                        ) && (d > 0 || d + 1 < body.len());
                    if d < e {
                        assert(body.skip(d + 1)[e - d - 1] == body[e]);
                        assert(is_digit(body.skip(d + 1)[e - d - 1]));
                    } else if d > e {
                        assert(body.take(d)[e] == body[e]);
                        assert(is_digit(body.take(d)[e]));
                    }
                }
            } else {
                let f = choose|f: int|
                    0 <= f < body.len() && exponent_mark(body[f]) && decimal_digits(
                        #[trigger] body.take(f),
                    ) && exponent_digits(body.skip(f + 1));
                if f > e {
                    assert(body.take(f)[e] == body[e]);
                    lemma_decimal_has_no_mark(body.take(f), e);
                } else if f < e {
                    assert(body[f] == text@[from + f]);
                }
            }
        }
    }
    ok
}

/// Decimal digits hold no exponent mark.
proof fn lemma_decimal_has_no_mark(text: Seq<char>, i: int)
    requires
        decimal_digits(text),
        0 <= i < text.len(),
    ensures
        !exponent_mark(text[i]),
{
    if text.len() > 0 && all_digits(text) {
        assert(is_digit(text[i]));
    } else {
        let d = choose|d: int|
            0 <= d < text.len() && text[d] == '.' && all_digits(text.take(d)) && all_digits(
                #[trigger] text.skip(d + 1),
            ) && (d > 0 || d + 1 < text.len());
        if i < d {
            assert(text.take(d)[i] == text[i]);
            assert(is_digit(text.take(d)[i]));
        } else if i > d {
            assert(text.skip(d + 1)[i - d - 1] == text[i]);
            assert(is_digit(text.skip(d + 1)[i - d - 1]));
        }
    }
}

/// Whether `text[start..end]`, ASCII-lowercased, is `word`.
fn word_in(text: &Vec<char>, start: usize, end: usize, word: &str) -> (same: bool)
    requires
        start <= end <= text@.len(),
    ensures
        same == (ascii_lowercase(text@.subrange(start as int, end as int)) == word@),
{
    let target = chars_of(word);
    if end - start != target.len() {
        proof {
            assert(ascii_lowercase(text@.subrange(start as int, end as int)).len() != word@.len());
        }
        return false;
    }
    let ghost lower = ascii_lowercase(text@.subrange(start as int, end as int));
    let mut k: usize = 0;
    while k < target.len()
        invariant
            target@ == word@,
            end - start == target@.len(),
            start <= end <= text@.len(),
            lower == ascii_lowercase(text@.subrange(start as int, end as int)),
            k <= target@.len(),
            forall|i: int| 0 <= i < k ==> lower[i] == target@[i],
        decreases target@.len() - k,
    {
        let c = text[start + k];
        let l = if 'A' <= c && c <= 'Z' {
            ((c as u8) + 32) as char
        } else {
            c
        };
        assert(lower[k as int] == l);
        if l != target[k] {
            return false;
        }
        k += 1;
    }
    assert(lower =~= target@);
    true
}

/// A clock value without one trailing `s`.
pub open spec fn without_seconds_mark(text: Seq<char>) -> Seq<char> {
    if text.len() > 0 && text.last() == 's' {
        text.drop_last()
    } else {
        text
    }
}

/// The parts of a clock value: the pieces between its colons.
pub open spec fn clock_parts(text: Seq<char>) -> Seq<Seq<char>> {
    pieces(without_seconds_mark(text), seq![':'])
}

/// Whether the lyrics' `time` reading accepts a clock value: without one trailing `s`, every
/// `:`-separated part is a number `f32::from_str` accepts.
pub open spec fn clock_text(text: Seq<char>) -> bool {
    forall|i: int| 0 <= i < clock_parts(text).len() ==> float_text(#[trigger] clock_parts(text)[i])
}

/// Whether the lyrics' `time` reading accepts a clock value.
pub fn clock_value(text: &str) -> (ok: bool)
    ensures
        ok == clock_text(text@),
{
    let mut value = chars_of(text);
    if value.len() > 0 && value[value.len() - 1] == 's' {
        value.pop();
    }
    let mut colon: Vec<char> = Vec::new();
    colon.push(':');
    assert(colon@ =~= seq![':']);
    assert(value@ =~= without_seconds_mark(text@));
    let parts = split_at_pattern(&value, &colon);
    let ghost views = parts@.map_values(|part: Vec<char>| part@);
    assert(views == clock_parts(text@));
    let mut k: usize = 0;
    while k < parts.len()
        invariant
            views == parts@.map_values(|part: Vec<char>| part@),
            views == clock_parts(text@),
            k <= parts@.len(),
            forall|i: int| 0 <= i < k ==> float_text(#[trigger] views[i]),
        decreases parts@.len() - k,
    {
        let part = &parts[k];
        let ok = float_in(part, 0, part.len());
        proof {
            assert(part@.subrange(0, part@.len() as int) =~= part@);
            assert(views[k as int] == part@);
        }
        if !ok {
            proof {
                assert(!float_text(clock_parts(text@)[k as int]));
            }
            return false;
        }
        k += 1;
    }
    true
}

} // verus!
