//! Platform services: the processor counters of `/proc/stat`, and the browser backend's stubs.
use crate::chars::{all_digits, chars_of, digits_value, is_digit};
use vstd::prelude::*;

verus! {

/// An ASCII whitespace character, as `char::is_ascii_whitespace` defines it.
pub open spec fn ascii_space(c: char) -> bool {
    c == ' ' || c == '\t' || c == '\n' || c == '\x0C' || c == '\r'
}

/// The text up to its first line feed.
pub open spec fn first_line(text: Seq<char>) -> Seq<char>
    decreases text.len(),
{
    if text.len() == 0 || text[0] == '\n' {
        Seq::empty()
    } else {
        seq![text[0]] + first_line(text.drop_first())
    }
}

/// Finished fields and the field being built after reading `text` from the left.
pub open spec fn field_scan(text: Seq<char>) -> (Seq<Seq<char>>, Seq<char>)
    decreases text.len(),
{
    if text.len() == 0 {
        (Seq::empty(), Seq::empty())
    } else {
        let (done, current) = field_scan(text.drop_last());
        let c = text.last();
        if ascii_space(c) {
            if current.len() > 0 {
                (done.push(current), Seq::empty())
            } else {
                (done, current)
            }
        } else {
            (done, current.push(c))
        }
    }
}

/// The non-empty runs of non-whitespace characters, as `str::split_ascii_whitespace` yields them.
pub open spec fn fields(text: Seq<char>) -> Seq<Seq<char>> {
    let (done, current) = field_scan(text);
    if current.len() > 0 {
        done.push(current)
    } else {
        done
    }
}

/// A field without its optional leading `+`.
pub open spec fn unsigned_digits(field: Seq<char>) -> Seq<char> {
    if field.len() > 0 && field[0] == '+' {
        field.drop_first()
    } else {
        field
    }
}

/// The value of a decimal field as `u64::from_str` reads it: an optional `+`, then one or more
/// ASCII digits whose value fits in 64 bits.
pub open spec fn parse_u64(field: Seq<char>) -> Option<u64> {
    let digits = unsigned_digits(field);
    if digits.len() > 0 && all_digits(digits) && digits_value(digits) <= u64::MAX {
        Some(digits_value(digits) as u64)
    } else {
        None
    }
}

/// The eight counters of the aggregate `cpu` line: the first line must start with the field
/// `cpu` followed by eight decimal fields.
pub open spec fn cpu_fields(stat: Seq<char>) -> Option<Seq<u64>> {
    let line = fields(first_line(stat));
    if line.len() >= 9 && line[0] == seq!['c', 'p', 'u'] && forall|i: int|
        1 <= i < 9 ==> #[trigger] parse_u64(line[i]) is Some {
        Some(Seq::new(8, |i: int| parse_u64(line[i + 1])->0))
    } else {
        None
    }
}

/// The sum of the eight counters.
pub open spec fn counter_total(values: Seq<u64>) -> int {
    values[0] + values[1] + values[2] + values[3] + values[4] + values[5] + values[6] + values[7]
}

/// Busy and total jiffies; idle and iowait are not busy time, and guest time is already
/// included in user and nice.
pub open spec fn cpu_usage(stat: Seq<char>) -> Option<(u64, u64)> {
    match cpu_fields(stat) {
        Some(values) => Some(
            (
                (counter_total(values) - values[3] - values[4]) as u64,
                counter_total(values) as u64,
            ),
        ),
        None => None,
    }
}

/// A run of digits reads the same as its prefixes scaled up, so a prefix that overflows means
/// the whole run does.
proof fn lemma_digits_value_grows(s: Seq<char>, k: int)
    requires
        0 <= k <= s.len(),
        all_digits(s),
    ensures
        digits_value(s.take(k)) <= digits_value(s),
    decreases s.len() - k,
{
    if k < s.len() {
        lemma_digits_value_grows(s, k + 1);
        assert(s.take(k + 1).drop_last() =~= s.take(k));
        assert(is_digit(s[k]));
        assert(s.take(k + 1).last() == s[k]);
        assert(digits_value(s.take(k + 1)) == digits_value(s.take(k)) * 10 + ((s[k] as int - 48) as nat));
    } else {
        assert(s.take(k) =~= s);
    }
}

/// Reads a decimal field as `u64::from_str` does.
pub fn parse_field(field: &Vec<char>) -> (value: Option<u64>)
    ensures
        value == parse_u64(field@),
{
    let mut start: usize = 0;
    if field.len() > 0 && field[0] == '+' {
        start = 1;
    }
    let ghost digits = unsigned_digits(field@);
    assert(digits =~= field@.skip(start as int));
    if start >= field.len() {
        return None;
    }
    let mut value: u64 = 0;
    let mut index: usize = start;
    while index < field.len()
        invariant
            start <= index <= field@.len(),
            digits == field@.skip(start as int),
            digits == unsigned_digits(field@),
            all_digits(digits.take(index - start)),
            value == digits_value(digits.take(index - start)),
        decreases field@.len() - index,
    {
        let c = field[index];
        if !('0' <= c && c <= '9') {
            proof {
                assert(digits[index - start] == c);
                assert(!is_digit(digits[index - start]));
                assert(!all_digits(digits));
            }
            return None;
        }
        let digit = (c as u32 - 48) as u64;
        proof {
            assert(digits.take(index + 1 - start).drop_last() =~= digits.take(index - start));
            assert(digits.take(index + 1 - start).last() == c);
            assert(digits_value(digits.take(index + 1 - start)) == value * 10 + digit);
            assert(all_digits(digits.take(index + 1 - start)));
        }
        match value.checked_mul(10) {
            Some(scaled) => match scaled.checked_add(digit) {
                Some(next) => {
                    value = next;
                },
                None => {
                    proof {
                        if all_digits(digits) {
                            lemma_digits_value_grows(digits, index + 1 - start);
                        }
                    }
                    return None;
                },
            },
            None => {
                proof {
                    if all_digits(digits) {
                        lemma_digits_value_grows(digits, index + 1 - start);
                    }
                }
                return None;
            },
        }
        index += 1;
    }
    proof {
        assert(digits.take(index - start) =~= digits);
    }
    Some(value)
}

/// Splits the first line of a text into its whitespace-separated fields.
fn first_line_fields(text: &Vec<char>) -> (line: Vec<Vec<char>>)
    ensures
        line@.len() == fields(first_line(text@)).len(),
        forall|i: int| 0 <= i < line@.len() ==> #[trigger] line@[i]@ == fields(first_line(text@))[i],
{
    let mut end: usize = 0;
    while end < text.len() && text[end] != '\n'
        invariant
            end <= text@.len(),
            forall|i: int| 0 <= i < end ==> text@[i] != '\n',
        decreases text@.len() - end,
    {
        end += 1;
    }
    proof {
        lemma_first_line(text@, end as int);
    }
    let ghost line_text = text@.take(end as int);
    let mut done: Vec<Vec<char>> = Vec::new();
    let mut current: Vec<char> = Vec::new();
    let mut index: usize = 0;
    while index < end
        invariant
            end <= text@.len(),
            line_text == text@.take(end as int),
            index <= end,
            done@.len() == field_scan(line_text.take(index as int)).0.len(),
            forall|i: int|
                0 <= i < done@.len() ==> #[trigger] done@[i]@ == field_scan(
                    line_text.take(index as int),
                ).0[i],
            current@ == field_scan(line_text.take(index as int)).1,
        decreases end - index,
    {
        let c = text[index];
        proof {
            assert(line_text.take(index + 1).drop_last() =~= line_text.take(index as int));
            assert(line_text.take(index + 1).last() == c);
        }
        if c == ' ' || c == '\t' || c == '\n' || c == '\x0C' || c == '\r' {
            if current.len() > 0 {
                done.push(current);
                current = Vec::new();
            }
        } else {
            current.push(c);
        }
        index += 1;
    }
    proof {
        assert(line_text.take(end as int) =~= line_text);
    }
    if current.len() > 0 {
        done.push(current);
    }
    done
}

proof fn lemma_first_line(text: Seq<char>, end: int)
    requires
        0 <= end <= text.len(),
        forall|i: int| 0 <= i < end ==> text[i] != '\n',
        end == text.len() || text[end] == '\n',
    ensures
        first_line(text) == text.take(end),
    decreases end,
{
    if end > 0 {
        lemma_first_line(text.drop_first(), end - 1);
        assert(seq![text[0]] + text.drop_first().take(end - 1) =~= text.take(end));
    } else {
        assert(text.take(end) =~= Seq::<char>::empty());
    }
}

/// Busy and total jiffies from `/proc/stat`, or `None` when its first line is not the aggregate
/// `cpu` line with eight counters.  The counters must not sum past 64 bits.
pub fn cpu_counters(stat: &str) -> (counters: Option<(u64, u64)>)
    requires
        cpu_fields(stat@) matches Some(values) ==> counter_total(values) <= u64::MAX,
    ensures
        counters == cpu_usage(stat@),
{
    let text = chars_of(stat);
    let line = first_line_fields(&text);
    if line.len() < 9 || line[0].len() != 3 || line[0][0] != 'c' || line[0][1] != 'p' || line[0][2]
        != 'u' {
        proof {
            if line@.len() >= 9 && fields(first_line(stat@))[0] == seq!['c', 'p', 'u'] {
                assert(line@[0]@[0] == 'c' && line@[0]@[1] == 'p' && line@[0]@[2] == 'u');
            }
        }
        return None;
    }
    proof {
        assert(line@[0]@ =~= seq!['c', 'p', 'u']);
    }
    let mut values: Vec<u64> = Vec::new();
    let mut index: usize = 1;
    while index < 9
        invariant
            1 <= index <= 9,
            line@.len() >= 9,
            line@.len() == fields(first_line(stat@)).len(),
            forall|i: int| 0 <= i < line@.len() ==> #[trigger] line@[i]@ == fields(first_line(stat@))[i],
            values@.len() == index - 1,
            forall|i: int|
                1 <= i < index ==> #[trigger] parse_u64(fields(first_line(stat@))[i]) == Some(
                    values@[i - 1],
                ),
        decreases 9 - index,
    {
        match parse_field(&line[index]) {
            Some(value) => values.push(value),
            None => {
                return None;
            },
        }
        index += 1;
    }
    proof {
        let expected = Seq::new(8, |i: int| parse_u64(fields(first_line(stat@))[i + 1])->0);
        assert forall|i: int| 1 <= i < 9 implies #[trigger] parse_u64(fields(first_line(stat@))[i]) is Some by {
            assert(parse_u64(fields(first_line(stat@))[i]) == Some(values@[i - 1]));
        }
        assert(values@ =~= expected) by {
            assert forall|i: int| 0 <= i < 8 implies values@[i] == expected[i] by {
                assert(parse_u64(fields(first_line(stat@))[i + 1]) == Some(values@[i]));
            }
        }
    }
    let total = values[0] + values[1] + values[2] + values[3] + values[4] + values[5] + values[6]
        + values[7];
    Some((total - values[3] - values[4], total))
}

/// The browser backend of the platform services.
pub struct Platform;

impl Platform {
    /// Launching programs is unavailable in a browser; the command is ignored.
    pub fn spawn(_command: &[String]) {
    }

    /// The browser drives the application from its own entry point; nothing runs here.
    pub fn run() {
    }
}

} // verus!
