//! Requests and readouts of the single countdown timer started from the launcher.
use crate::chars::{
    alphanumeric, chars_of, decimal, is_alphanumeric, lowercase, push_char, push_decimal,
    push_two_digits, same_text, string_of, to_lowercase, two_digits,
};
use crate::enrichment::{after, instant_plus, is_later, later, now};
use std::time::{Duration, Instant};
use vstd::prelude::*;
use vstd::string::*;

verus! {

/// Whole seconds of a duration, as `Duration::as_secs` reports them.
pub uninterp spec fn whole_seconds(duration: Duration) -> u64;

/// Calls `Duration::as_secs`, which returns the number of whole seconds in the duration.
#[verifier::external_body]
fn seconds_of(duration: Duration) -> (secs: u64)
    ensures
        secs == whole_seconds(duration),
{
    duration.as_secs()
}

/// The duration `Duration::from_secs` makes of whole seconds.
pub uninterp spec fn secs_duration(secs: u64) -> Duration;

/// Calls `Duration::from_secs`, which creates a duration of the given whole seconds.
#[verifier::external_body]
pub(crate) fn duration_from_secs(secs: u64) -> (duration: Duration)
    ensures
        duration == secs_duration(secs),
        whole_seconds(duration) == secs,
{
    Duration::from_secs(secs)
}

/// What the launcher asks of the timer.
#[derive(Clone, Copy, Debug, PartialEq, Eq)]
pub enum Request {
    Start(Duration),
    Cancel,
}

/// Human description of a duration in whole seconds, such as `30 Minute` or `2 Hour`.
pub open spec fn describe_text(secs: nat) -> Seq<char> {
    let hours = secs / 3600;
    let minutes = secs / 60 % 60;
    if hours == 0 {
        decimal(minutes) + " Minute"@
    } else if minutes == 0 {
        decimal(hours) + " Hour"@
    } else {
        decimal(hours) + " Hour "@ + decimal(minutes) + " Minute"@
    }
}

/// Remaining time as `15:32`, gaining an hours field only from one hour on.
pub open spec fn countdown_text(secs: nat) -> Seq<char> {
    let hours = secs / 3600;
    let minutes = secs / 60 % 60;
    let seconds = secs % 60;
    if hours > 0 {
        decimal(hours) + ":"@ + two_digits(minutes) + ":"@ + two_digits(seconds)
    } else {
        decimal(minutes) + ":"@ + two_digits(seconds)
    }
}

/// The number of field separators (`:`) in a readout.
pub open spec fn separators(text: Seq<char>) -> nat
    decreases text.len(),
{
    if text.len() == 0 {
        0
    } else {
        separators(text.drop_last()) + if text.last() == ':' {
            1nat
        } else {
            0nat
        }
    }
}

proof fn lemma_separators_add(a: Seq<char>, b: Seq<char>)
    ensures
        separators(a + b) == separators(a) + separators(b),
    decreases b.len(),
{
    if b.len() == 0 {
        assert(a + b =~= a);
    } else {
        lemma_separators_add(a, b.drop_last());
        assert((a + b).drop_last() =~= a + b.drop_last());
    }
}

proof fn lemma_digits_have_no_separator(n: nat)
    ensures
        separators(decimal(n)) == 0,
        separators(two_digits(n)) == 0,
    decreases n,
{
    crate::chars::lemma_digit_char(n % 10);
    assert(decimal(n).last() == crate::chars::digit_char(n % 10));
    assert(decimal(n).last() != ':');
    if n >= 10 {
        lemma_digits_have_no_separator(n / 10);
        assert(decimal(n).drop_last() =~= decimal(n / 10));
    } else {
        assert(decimal(n).drop_last() =~= Seq::<char>::empty());
        assert(separators(Seq::<char>::empty()) == 0);
        assert(separators(decimal(n)) == 0);
        lemma_separators_add(seq!['0'], decimal(n));
        assert(seq!['0'].drop_last() =~= Seq::<char>::empty());
        assert(separators(seq!['0']) == 0);
    }
}

/// A countdown has an hours field exactly from one hour on: it shows two separators then,
/// and one below.
pub proof fn lemma_countdown_fields(secs: nat)
    ensures
        separators(countdown_text(secs)) == if secs >= 3600 {
            2nat
        } else {
            1nat
        },
{
    let hours = secs / 3600;
    let minutes = secs / 60 % 60;
    let seconds = secs % 60;
    lemma_digits_have_no_separator(hours);
    lemma_digits_have_no_separator(minutes);
    lemma_digits_have_no_separator(seconds);
    assert(":"@ == seq![':']) by {
        reveal_strlit(":");
    }
    assert(seq![':'].drop_last() =~= Seq::<char>::empty());
    assert(separators(Seq::<char>::empty()) == 0);
    assert(separators(seq![':']) == 1);
    if hours > 0 {
        lemma_separators_add(decimal(hours), ":"@);
        lemma_separators_add(decimal(hours) + ":"@, two_digits(minutes));
        lemma_separators_add(decimal(hours) + ":"@ + two_digits(minutes), ":"@);
        lemma_separators_add(decimal(hours) + ":"@ + two_digits(minutes) + ":"@, two_digits(seconds));
    } else {
        lemma_separators_add(decimal(minutes), ":"@);
        lemma_separators_add(decimal(minutes) + ":"@, two_digits(seconds));
    }
}

/// The launcher row name of a request.
pub open spec fn label_text(request: Request) -> Seq<char> {
    match request {
        Request::Start(duration) => "Start "@ + describe_text(whole_seconds(duration) as nat)
            + " Timer"@,
        Request::Cancel => "Cancel Timer"@,
    }
}

/// The action label of a request's row.
pub open spec fn action_text(request: Request) -> Seq<char> {
    match request {
        Request::Start(_) => "Start"@,
        Request::Cancel => "Cancel"@,
    }
}

impl Request {
    /// Row name shown by the launcher.
    pub fn label(&self) -> (label: String)
        ensures
            label@ == label_text(*self),
    {
        match self {
            Request::Start(duration) => {
                let mut label = String::from_str("Start ");
                let description = describe(*duration);
                label.append(description.as_str());
                label.append(" Timer");
                label
            },
            Request::Cancel => String::from_str("Cancel Timer"),
        }
    }

    /// Action label for the row.
    pub fn action(&self) -> (action: &'static str)
        ensures
            action@ == action_text(*self),
    {
        match self {
            Request::Start(_) => "Start",
            Request::Cancel => "Cancel",
        }
    }
}

/// Human description of a whole number of seconds, such as `30 Minute` or `2 Hour`.
pub fn describe_seconds(secs: u64) -> (text: String)
    ensures
        text@ == describe_text(secs as nat),
{
    let hours = secs / 3600;
    let minutes = secs / 60 % 60;
    let mut text = String::new();
    if hours == 0 {
        push_decimal(&mut text, minutes);
        text.append(" Minute");
    } else if minutes == 0 {
        push_decimal(&mut text, hours);
        text.append(" Hour");
    } else {
        push_decimal(&mut text, hours);
        text.append(" Hour ");
        push_decimal(&mut text, minutes);
        text.append(" Minute");
    }
    text
}

/// Human description of a duration, such as `30 Minute` or `2 Hour`.
pub fn describe(duration: Duration) -> (text: String)
    ensures
        text@ == describe_text(whole_seconds(duration) as nat),
{
    describe_seconds(seconds_of(duration))
}

/// Remaining whole seconds as `15:32`, gaining an hours field only when needed.
pub fn countdown_seconds(secs: u64) -> (text: String)
    ensures
        text@ == countdown_text(secs as nat),
{
    let hours = secs / 3600;
    let minutes = secs / 60 % 60;
    let seconds = secs % 60;
    let mut text = String::new();
    if hours > 0 {
        push_decimal(&mut text, hours);
        text.append(":");
        push_two_digits(&mut text, minutes);
    } else {
        push_decimal(&mut text, minutes);
    }
    text.append(":");
    push_two_digits(&mut text, seconds);
    text
}

/// Remaining time as `15:32`, gaining an hours field only when needed.
pub fn countdown(remaining: Duration) -> (text: String)
    ensures
        text@ == countdown_text(whole_seconds(remaining) as nat),
{
    countdown_seconds(seconds_of(remaining))
}

/// A character that belongs to some token: alphanumeric, or the decimal point.
pub open spec fn kept(c: char) -> bool {
    alphanumeric(c) || c == '.'
}

/// A character of a number token: an ASCII digit or the decimal point.
pub open spec fn numeric(c: char) -> bool {
    ('0' <= c && c <= '9') || c == '.'
}

/// Finished tokens and the token being built after reading `query` from the left.
pub open spec fn scan(query: Seq<char>) -> (Seq<Seq<char>>, Seq<char>)
    decreases query.len(),
{
    if query.len() == 0 {
        (Seq::empty(), Seq::empty())
    } else {
        let (done, current) = scan(query.drop_last());
        let c = query.last();
        if !kept(c) {
            if current.len() > 0 {
                (done.push(current), Seq::empty())
            } else {
                (done, current)
            }
        } else if current.len() > 0 && numeric(current[0]) != numeric(c) {
            (done.push(current), seq![c])
        } else {
            (done, current.push(c))
        }
    }
}

/// The maximal runs of kept characters of one kind (number or word), before lowercasing.
pub open spec fn raw_tokens(query: Seq<char>) -> Seq<Seq<char>> {
    let (done, current) = scan(query);
    if current.len() > 0 {
        done.push(current)
    } else {
        done
    }
}

/// The tokens of a query: its runs of number and word characters, each lowercased.
pub open spec fn query_tokens(query: Seq<char>) -> Seq<Seq<char>> {
    raw_tokens(query).map_values(|token: Seq<char>| lowercase(token))
}

/// Splits a query into lowercase number and unit tokens, so `1h30m` reads as `1 h 30 m`.
pub fn tokens(query: &str) -> (tokens: Vec<String>)
    ensures
        tokens@.map_values(|token: String| token@) == query_tokens(query@),
{
    let chars = chars_of(query);
    let mut tokens: Vec<String> = Vec::new();
    let mut current = String::new();
    let mut current_numeric = false;
    let mut index: usize = 0;
    while index < chars.len()
        invariant
            chars@ == query@,
            index <= chars.len(),
            tokens@.len() == scan(chars@.take(index as int)).0.len(),
            forall|i: int|
                0 <= i < tokens@.len() ==> #[trigger] tokens@[i]@ == lowercase(
                    scan(chars@.take(index as int)).0[i],
                ),
            current@ == scan(chars@.take(index as int)).1,
            current@.len() > 0 ==> current_numeric == numeric(current@[0]),
        decreases chars.len() - index,
    {
        let c = chars[index];
        proof {
            assert(chars@.take(index + 1).drop_last() =~= chars@.take(index as int));
            assert(chars@.take(index + 1).last() == c);
        }
        let is_numeric = ('0' <= c && c <= '9') || c == '.';
        if !is_alphanumeric(c) && c != '.' {
            if !current.as_str().is_empty() {
                tokens.push(to_lowercase(current.as_str()));
                current = String::new();
            }
        } else {
            if !current.as_str().is_empty() && current_numeric != is_numeric {
                tokens.push(to_lowercase(current.as_str()));
                current = String::new();
            }
            if current.as_str().is_empty() {
                current_numeric = is_numeric;
            }
            push_char(&mut current, c);
        }
        index += 1;
    }
    proof {
        assert(chars@.take(chars.len() as int) =~= query@);
    }
    if !current.as_str().is_empty() {
        tokens.push(to_lowercase(current.as_str()));
    }
    assert(tokens@.map_values(|token: String| token@) =~= query_tokens(query@));
    tokens
}

/// Every character of a token is kept, and all are of the kind of its first.
pub open spec fn one_kind(token: Seq<char>) -> bool {
    forall|j: int|
        0 <= j < token.len() ==> kept(#[trigger] token[j]) && numeric(token[j]) == numeric(
            token[0],
        )
}

/// The characters of a query that belong to some token, in order.
pub open spec fn kept_chars(query: Seq<char>) -> Seq<char> {
    query.filter(|c: char| kept(c))
}

proof fn lemma_flatten_push(done: Seq<Seq<char>>, token: Seq<char>)
    ensures
        done.push(token).flatten() == done.flatten() + token,
{
    vstd::seq_lib::lemma_flatten_concat(done, seq![token]);
    assert(done.push(token) =~= done + seq![token]);
    assert(seq![token].drop_first() =~= Seq::<Seq<char>>::empty());
    assert(Seq::<Seq<char>>::empty().flatten() == Seq::<char>::empty());
    assert(seq![token].flatten() == seq![token].first() + seq![token].drop_first().flatten());
    assert(seq![token].flatten() =~= token);
}

proof fn lemma_scan_partition(query: Seq<char>)
    ensures
        scan(query).0.flatten() + scan(query).1 == kept_chars(query),
        forall|i: int|
            0 <= i < scan(query).0.len() ==> #[trigger] scan(query).0[i].len() > 0 && one_kind(
                scan(query).0[i],
            ),
        one_kind(scan(query).1),
    decreases query.len(),
{
    if query.len() == 0 {
        assert(kept_chars(query) =~= Seq::<char>::empty()) by {
            reveal(Seq::filter);
        }
        assert(Seq::<Seq<char>>::empty().flatten() =~= Seq::<char>::empty());
    } else {
        let prefix = query.drop_last();
        let c = query.last();
        lemma_scan_partition(prefix);
        assert(prefix.push(c) =~= query);
        prefix.lemma_filter_push(c, |c: char| kept(c));
        let (done, current) = scan(prefix);
        if !kept(c) {
            if current.len() > 0 {
                lemma_flatten_push(done, current);
                assert(done.push(current).flatten() + Seq::<char>::empty() =~= done.flatten()
                    + current);
            }
        } else if current.len() > 0 && numeric(current[0]) != numeric(c) {
            lemma_flatten_push(done, current);
            assert(done.push(current).flatten() + seq![c] =~= (done.flatten() + current).push(c));
        } else {
            assert(done.flatten() + current.push(c) =~= (done.flatten() + current).push(c));
        }
    }
}

/// Tokens partition a query's kept characters: each raw token is a non-empty run of kept
/// characters of one kind (number or word), and together, in order, they are exactly the
/// query's alphanumeric characters and decimal points.
pub proof fn lemma_tokens_partition(query: Seq<char>)
    ensures
        raw_tokens(query).flatten() == kept_chars(query),
        forall|i: int|
            0 <= i < raw_tokens(query).len() ==> #[trigger] raw_tokens(query)[i].len() > 0
                && one_kind(raw_tokens(query)[i]),
        query_tokens(query).len() == raw_tokens(query).len(),
{
    lemma_scan_partition(query);
    let (done, current) = scan(query);
    if current.len() > 0 {
        lemma_flatten_push(done, current);
    } else {
        assert(done.flatten() + current =~= done.flatten());
    }
}

/// Seconds in a unit name, or `None` when the word is not a unit.
pub open spec fn unit_seconds(word: Seq<char>) -> Option<u64> {
    if word == "h"@ || word == "hr"@ || word == "hrs"@ || word == "hour"@ || word == "hours"@ {
        Some(3600)
    } else if word == "m"@ || word == "min"@ || word == "mins"@ || word == "minute"@ || word
        == "minutes"@ {
        Some(60)
    } else if word == "s"@ || word == "sec"@ || word == "secs"@ || word == "second"@ || word
        == "seconds"@ {
        Some(1)
    } else {
        None
    }
}

/// Seconds in a unit name, or `None` when the word is not a unit.
pub fn unit(word: &str) -> (seconds: Option<u64>)
    ensures
        seconds == unit_seconds(word@),
{
    if same_text(word, "h") || same_text(word, "hr") || same_text(word, "hrs") || same_text(
        word,
        "hour",
    ) || same_text(word, "hours") {
        Some(3600)
    } else if same_text(word, "m") || same_text(word, "min") || same_text(word, "mins")
        || same_text(word, "minute") || same_text(word, "minutes") {
        Some(60)
    } else if same_text(word, "s") || same_text(word, "sec") || same_text(word, "secs")
        || same_text(word, "second") || same_text(word, "seconds") {
        Some(1)
    } else {
        None
    }
}

/// A moment in a time zone, as `jiff::Zoned` holds it.
#[verifier::external_type_specification]
#[verifier::external_body]
pub struct ExZoned(jiff::Zoned);

/// Calls `jiff::Zoned::now`, the current time in the system time zone.
#[verifier::external_body]
fn zoned_now() -> jiff::Zoned {
    jiff::Zoned::now()
}

/// What `jiff::Zoned::checked_add` gives for a moment and a duration: `None` when the sum
/// leaves the supported range.
pub uninterp spec fn zoned_plus(start: jiff::Zoned, duration: Duration) -> Option<jiff::Zoned>;

/// What `jiff::Zoned::strftime` with `%I:%M%p` writes for a moment.
pub uninterp spec fn twelve_hour_text(time: jiff::Zoned) -> Seq<char>;

/// What `Instant::saturating_duration_since` gives: the time from `from` to `deadline`, or
/// zero once `from` is later.
pub uninterp spec fn time_between(deadline: Instant, from: Instant) -> Duration;

/// Calls `jiff::Zoned::checked_add` with a duration; `None` when the sum leaves the supported
/// range.
#[verifier::external_body]
fn zoned_after(start: &jiff::Zoned, duration: Duration) -> (end: Option<jiff::Zoned>)
    ensures
        end == zoned_plus(*start, duration),
{
    start.checked_add(duration).ok()
}

/// Calls `jiff::Zoned::strftime` with `%I:%M%p`: the twelve-hour clock time, such as `06:15PM`.
#[verifier::external_body]
fn twelve_hour(time: &jiff::Zoned) -> (text: String)
    ensures
        text@ == twelve_hour_text(*time),
{
    time.strftime("%I:%M%p").to_string()
}

/// Calls `Instant::saturating_duration_since`: the time from `from` to `deadline`, or zero
/// once `from` is later.
#[verifier::external_body]
fn duration_until(deadline: &Instant, from: &Instant) -> (left: Duration)
    ensures
        left == time_between(*deadline, *from),
{
    deadline.saturating_duration_since(*from)
}

/// Whether a timer with this deadline has expired by the instant `at`: the deadline is not
/// later than it.
pub open spec fn expired_by(deadline: Option<Instant>, at: Instant) -> bool {
    match deadline {
        Some(d) => !is_later(d, at),
        None => false,
    }
}

/// The time a timer with this deadline has left at the instant `at`; zero without a deadline.
pub open spec fn left_at(deadline: Option<Instant>, at: Instant) -> Duration {
    match deadline {
        Some(d) => time_between(d, at),
        None => secs_duration(0),
    }
}

/// A text without its leading zeros.
pub open spec fn without_leading_zeros(text: Seq<char>) -> Seq<char>
    decreases text.len(),
{
    if text.len() > 0 && text[0] == '0' {
        without_leading_zeros(text.drop_first())
    } else {
        text
    }
}

/// A formatted twelve-hour time as the readout shows it: lowercase, without a leading zero.
pub open spec fn clock_text(formatted: Seq<char>) -> Seq<char> {
    lowercase(without_leading_zeros(formatted))
}

/// Lowercases a formatted twelve-hour time and drops its leading zero, so `06:15PM` reads
/// `6:15pm`.
pub fn clock_face(formatted: &str) -> (face: String)
    ensures
        face@ == clock_text(formatted@),
{
    let chars = chars_of(formatted);
    let mut start: usize = 0;
    assert(chars@.skip(0) =~= chars@);
    while start < chars.len() && chars[start] == '0'
        invariant
            start <= chars@.len(),
            chars@ == formatted@,
            without_leading_zeros(chars@.skip(start as int)) == without_leading_zeros(formatted@),
        decreases chars@.len() - start,
    {
        proof {
            assert(chars@.skip(start as int).drop_first() =~= chars@.skip(start + 1));
        }
        start += 1;
    }
    let mut rest: Vec<char> = Vec::new();
    let mut k: usize = start;
    while k < chars.len()
        invariant
            start <= k <= chars@.len(),
            rest@ == chars@.subrange(start as int, k as int),
        decreases chars@.len() - k,
    {
        rest.push(chars[k]);
        k += 1;
        proof {
            assert(chars@.subrange(start as int, k as int) =~= chars@.subrange(start as int, k - 1).push(
                chars@[k - 1],
            ));
        }
    }
    proof {
        assert(chars@.subrange(start as int, k as int) =~= chars@.skip(start as int));
        assert(chars@.skip(0) =~= chars@);
    }
    to_lowercase(string_of(&rest).as_str())
}

/// The readout of a running timer: once expired, its length and when it completed; until
/// then, the time left and when it ends.
pub open spec fn readout_text(duration: Duration, expired: bool, remaining: Duration, end: Seq<char>) -> Seq<
    char,
> {
    if expired {
        describe_text(whole_seconds(duration) as nat) + " Timer Complete at "@ + clock_text(end)
    } else {
        countdown_text(whole_seconds(remaining) as nat) + " · ends "@ + clock_text(end)
    }
}

/// One countdown timer; starting a new one replaces the running one.
pub struct Timer {
    start: Option<jiff::Zoned>,
    duration: Duration,
    deadline: Option<Instant>,
}

impl Timer {
    /// Whether a timer has been started and not cancelled.
    pub closed spec fn running(&self) -> bool {
        self.start is Some && self.deadline is Some
    }

    /// Whether a start time is recorded.
    pub closed spec fn started(&self) -> bool {
        self.start is Some
    }

    /// Whether a deadline is set.
    pub closed spec fn has_deadline(&self) -> bool {
        self.deadline is Some
    }

    /// The length of the last timer started.
    pub closed spec fn length(&self) -> Duration {
        self.duration
    }

    /// When the running timer was started, if it was.
    pub closed spec fn start_time(&self) -> Option<jiff::Zoned> {
        self.start
    }

    /// The instant the running timer ends, if it has one.
    pub closed spec fn deadline_at(&self) -> Option<Instant> {
        self.deadline
    }

    /// Starts a timer of the requested length, replacing any running one, or cancels it.  A
    /// started timer ends `duration` after the clock's reading at the start; a timer whose end
    /// the clock cannot represent does not start.
    pub fn apply(&mut self, request: Request)
        ensures
            match request {
                Request::Start(duration) => {
                    &&& final(self).length() == duration
                    &&& exists|s: Instant| #[trigger] instant_plus(s, duration) == final(self).deadline_at()
                    &&& final(self).started() == final(self).has_deadline()
                },
                Request::Cancel => {
                    &&& final(self).start_time() is None
                    &&& final(self).deadline_at() is None
                    &&& final(self).length() == old(self).length()
                },
            },
    {
        match request {
            Request::Start(duration) => {
                self.start = Some(zoned_now());
                self.duration = duration;
                let at = now();
                self.deadline = after(at, duration);
                if self.deadline.is_none() {
                    self.start = None;
                }
                assert(instant_plus(at, duration) == self.deadline_at());
            },
            Request::Cancel => {
                self.start = None;
                self.deadline = None;
            },
        }
    }

    /// Whether the running timer's deadline has passed.
    pub fn expired(&self) -> (expired: bool)
        ensures
            exists|at: Instant| expired == #[trigger] expired_by(self.deadline_at(), at),
    {
        match &self.deadline {
            Some(deadline) => {
                let at = now();
                let expired = !later(deadline, &at);
                proof {
                    assert(expired == expired_by(self.deadline_at(), at));
                }
                expired
            },
            None => {
                proof {
                    let any: Instant = vstd::pervasive::arbitrary();
                    assert(!expired_by(self.deadline_at(), any));
                }
                false
            },
        }
    }

    /// Remaining time, zero once the deadline passes.
    fn remaining(&self) -> (left: Duration)
        ensures
            exists|at: Instant| left == #[trigger] left_at(self.deadline_at(), at),
    {
        match &self.deadline {
            Some(deadline) => {
                let at = now();
                let left = duration_until(deadline, &at);
                proof {
                    assert(left == left_at(self.deadline_at(), at));
                }
                left
            },
            None => {
                let left = duration_from_secs(0);
                proof {
                    let any: Instant = vstd::pervasive::arbitrary();
                    assert(left == left_at(self.deadline_at(), any));
                }
                left
            },
        }
    }

    /// Readout for the weather pill, reporting completion once the deadline passes; `None`
    /// without a running timer, or when its end leaves the calendar's range.
    pub fn readout(&self) -> (text: Option<String>)
        ensures
            match self.start_time() {
                None => text is None,
                Some(start) => match zoned_plus(start, self.length()) {
                    None => text is None,
                    Some(end) => text is Some && exists|expired_at: Instant, left_when: Instant|
                        #![trigger expired_by(self.deadline_at(), expired_at), left_at(self.deadline_at(), left_when)]
                        text->0@ == readout_text(
                            self.length(),
                            expired_by(self.deadline_at(), expired_at),
                            left_at(self.deadline_at(), left_when),
                            twelve_hour_text(end),
                        ),
                },
            },
    {
        let start = match &self.start {
            Some(start) => start,
            None => return None,
        };
        let end = match zoned_after(start, self.duration) {
            Some(end) => end,
            None => return None,
        };
        let formatted = twelve_hour(&end);
        let face = clock_face(formatted.as_str());
        let expired = self.expired();
        let remaining = self.remaining();
        let mut text = if expired {
            let mut text = describe(self.duration);
            text.append(" Timer Complete at ");
            text
        } else {
            let mut text = countdown(remaining);
            text.append(" · ends ");
            text
        };
        text.append(face.as_str());
        proof {
            let expired_at = choose|at: Instant| expired == #[trigger] expired_by(self.deadline_at(), at);
            let left_when = choose|at: Instant| remaining == #[trigger] left_at(self.deadline_at(), at);
            assert(text@ == readout_text(
                self.length(),
                expired_by(self.deadline_at(), expired_at),
                left_at(self.deadline_at(), left_when),
                twelve_hour_text(end),
            ));
        }
        Some(text)
    }
}

impl Default for Timer {
    /// No timer running.
    fn default() -> (timer: Self)
        ensures
            timer.start_time() is None,
            timer.deadline_at() is None,
            timer.length() == secs_duration(0),
            whole_seconds(timer.length()) == 0,
    {
        Timer { start: None, duration: duration_from_secs(0), deadline: None }
    }
}


/// Starting a timer replaces the running one: once `apply` has started a timer of length `d`
/// from the clock's reading `s`, whatever ran before, the timer has a start time, it has
/// expired at an instant `at` exactly when `at` is not earlier than `s + d`, and its readout
/// (once its end lies within the calendar's range) reads "<d> Timer Complete at <end>" from
/// then on and "<time left> · ends <end>" until then.
pub proof fn lemma_start_replaces(
    timer: Timer,
    d: Duration,
    s: Instant,
    at: Instant,
    left: Duration,
    end: Seq<char>,
)
    requires
        timer.length() == d,
        instant_plus(s, d) == timer.deadline_at(),
        timer.started() == timer.has_deadline(),
        timer.has_deadline(),
    ensures
        timer.start_time() is Some,
        expired_by(timer.deadline_at(), at) == !is_later(instant_plus(s, d)->0, at),
        readout_text(timer.length(), expired_by(timer.deadline_at(), at), left, end) == if !is_later(
            instant_plus(s, d)->0,
            at,
        ) {
            describe_text(whole_seconds(d) as nat) + " Timer Complete at "@ + clock_text(end)
        } else {
            countdown_text(whole_seconds(left) as nat) + " · ends "@ + clock_text(end)
        },
{
}

} // verus!
