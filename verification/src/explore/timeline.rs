//! Dated facts of entities, in the order of time.
//!
//! Events come from the dates of a node. Where no ontology places a property,
//! a text that is a date by its shape counts too; a number there never does.

use vstd::prelude::*;
use crate::explore::calendar;
use crate::explore::calendar::Moment;
use crate::explore::dto::NodeView;
use crate::explore::dto::NodeViewModel;
use crate::explore::dto::Subgraph;
use crate::explore::dto::TimelineEvent;
use crate::explore::dto::TimelineEventModel;
use crate::json::Json;
use crate::json::JsonModel;
use crate::json::JsonNumber;
use crate::json::NumberModel;
use crate::seqs;
use crate::sorting;
use crate::text;

verus! {

broadcast use vstd::string::group_string_axioms;

/// The place of the first character of which `p` holds, or the end.
pub open spec fn first_at(s: Seq<char>, p: spec_fn(char) -> bool) -> int
    decreases s.len(),
{
    if s.len() == 0 || p(s[0]) {
        0
    } else {
        1 + first_at(s.drop_first(), p)
    }
}

pub(crate) proof fn first_at_is(s: Seq<char>, p: spec_fn(char) -> bool, i: int)
    requires
        0 <= i <= s.len(),
        forall|j: int| 0 <= j < i ==> !p(#[trigger] s[j]),
        i < s.len() ==> p(s[i]),
    ensures
        first_at(s, p) == i,
    decreases i,
{
    if i > 0 {
        assert(!p(s[0]));
        let rest = s.drop_first();
        assert forall|j: int| 0 <= j < i - 1 implies !p(#[trigger] rest[j]) by {
            assert(!p(s[j + 1]));
        }
        first_at_is(rest, p, i - 1);
    }
}

/// What stands before the first such character.
pub open spec fn before(s: Seq<char>, p: spec_fn(char) -> bool) -> Seq<char> {
    s.take(first_at(s, p))
}

/// What stands behind the first such character, if there is one.
pub open spec fn behind(s: Seq<char>, p: spec_fn(char) -> bool) -> Option<Seq<char>> {
    if first_at(s, p) < s.len() {
        Some(s.skip(first_at(s, p) + 1))
    } else {
        None
    }
}

/// The characters that a time zone starts with.
pub open spec fn zone_mark() -> spec_fn(char) -> bool {
    |c: char| c == 'Z' || c == '+' || c == '-'
}

/// The mark of a fraction.
pub open spec fn dot() -> spec_fn(char) -> bool {
    |c: char| c == '.'
}

/// The mark between hours, minutes and seconds.
pub open spec fn colon() -> spec_fn(char) -> bool {
    |c: char| c == ':'
}

/// A number from zero up to, and without, `end`.
pub open spec fn number_below(s: Seq<char>, end: int) -> Option<int> {
    match text::i64_of(s) {
        Some(n) => if 0 <= n < end {
            Some(n as int)
        } else {
            None
        },
        None => None,
    }
}

/// The time of day that a text writes, in seconds: hours and minutes, seconds
/// if they are given. A fraction, a zone and whatever follows the seconds are
/// passed over.
pub open spec fn time_of_day(body: Seq<char>) -> Option<int> {
    let core = before(before(body, zone_mark()), dot());
    match behind(core, colon()) {
        None => None,
        Some(rest) => {
            let sec = match behind(rest, colon()) {
                Some(tail) => number_below(before(tail, colon()), 61),
                None => Some(0int),
            };
            match (
                number_below(before(core, colon()), 24),
                number_below(before(rest, colon()), 60),
                sec,
            ) {
                (Some(h), Some(mi), Some(s)) => Some(h * 3600 + mi * 60 + s),
                _ => None,
            }
        },
    }
}

/// Does the text start with four digits, two and two, joined by hyphens?
pub open spec fn date_shape(s: Seq<char>) -> bool {
    s.len() >= 10 && text::is_digit(s[0]) && text::is_digit(s[1]) && text::is_digit(s[2])
        && text::is_digit(s[3]) && s[4] == '-' && text::is_digit(s[5]) && text::is_digit(s[6])
        && s[7] == '-' && text::is_digit(s[8]) && text::is_digit(s[9])
}

/// The seconds from the start of 1970 that a date, with or without a time,
/// names.
pub open spec fn iso_seconds(raw: Seq<char>) -> Option<int> {
    let s = text::trimmed(raw);
    if !date_shape(s) {
        None
    } else {
        let y = text::digits_value(s.subrange(0, 4)) as int;
        let m = text::digits_value(s.subrange(5, 7)) as int;
        let d = text::digits_value(s.subrange(8, 10)) as int;
        if !(1 <= m <= 12 && 1 <= d <= 31) {
            None
        } else if s.len() == 10 {
            Some(calendar::days_of(y, m, d) * 86400)
        } else if s[10] == 'T' || s[10] == ' ' {
            match time_of_day(s.skip(11)) {
                Some(t) => Some(calendar::days_of(y, m, d) * 86400 + t),
                None => None,
            }
        } else {
            None
        }
    }
}

/// Which character to look for.
#[derive(Clone, Copy, PartialEq, Eq, Structural)]
enum Mark {
    Zone,
    Dot,
    Colon,
}

spec fn mark_test(m: Mark) -> spec_fn(char) -> bool {
    match m {
        Mark::Zone => zone_mark(),
        Mark::Dot => dot(),
        Mark::Colon => colon(),
    }
}

fn is_mark(m: Mark, c: char) -> (r: bool)
    ensures
        r == mark_test(m)(c),
{
    match m {
        Mark::Zone => c == 'Z' || c == '+' || c == '-',
        Mark::Dot => c == '.',
        Mark::Colon => c == ':',
    }
}

/// The place of the first mark from `from` on, or `to`.
fn find_mark(cs: &Vec<char>, from: usize, to: usize, m: Mark) -> (r: usize)
    requires
        from <= to <= cs@.len(),
    ensures
        from <= r <= to,
        r - from == first_at(cs@.subrange(from as int, to as int), mark_test(m)),
{
    let ghost part = cs@.subrange(from as int, to as int);
    let mut i: usize = from;
    while i < to
        invariant
            from <= i <= to <= cs@.len(),
            part == cs@.subrange(from as int, to as int),
            forall|j: int| 0 <= j < i - from ==> !mark_test(m)(#[trigger] part[j]),
        decreases to - i,
    {
        assert(part[i - from] == cs@[i as int]);
        if is_mark(m, cs[i]) {
            proof {
                first_at_is(part, mark_test(m), i - from);
            }
            return i;
        }
        i += 1;
    }
    proof {
        first_at_is(part, mark_test(m), to - from);
    }
    to
}

fn parse_below(cs: &Vec<char>, from: usize, to: usize, end: i64) -> (r: Option<i64>)
    requires
        from <= to <= cs@.len(),
    ensures
        match r {
            Some(n) => number_below(cs@.subrange(from as int, to as int), end as int) == Some(
                n as int,
            ),
            None => number_below(cs@.subrange(from as int, to as int), end as int) is None,
        },
{
    let part = text::text_range(cs, from, to);
    match text::parse_i64(part.as_str()) {
        Some(n) => if 0 <= n && n < end {
            Some(n)
        } else {
            None
        },
        None => None,
    }
}

/// What stands before the first dot, if there is one.
pub fn text_before_dot(s: &str) -> (r: Option<String>)
    ensures
        r.deep_view() == (if behind(s@, dot()) is Some {
            Some(before(s@, dot()))
        } else {
            None
        }),
{
    let cs = text::chars_of(s);
    let n = cs.len();
    assert(s@ =~= cs@.subrange(0, n as int));
    let at = find_mark(&cs, 0, n, Mark::Dot);
    if at == n {
        return None;
    }
    assert(s@.take(at as int) =~= cs@.subrange(0, at as int));
    Some(text::text_range(&cs, 0, at))
}

/// The time of day that the characters from `from` on write.
#[verifier::spinoff_prover]
#[verifier::rlimit(60)]
fn parse_time_tail(cs: &Vec<char>, from: usize) -> (r: Option<i64>)
    requires
        from <= cs@.len(),
    ensures
        match r {
            Some(t) => time_of_day(cs@.skip(from as int)) == Some(t as int) && 0 <= t < 90000,
            None => time_of_day(cs@.skip(from as int)) is None,
        },
{
    let ghost body = cs@.skip(from as int);
    let n = cs.len();
    assert(body =~= cs@.subrange(from as int, n as int));
    let zone = find_mark(cs, from, n, Mark::Zone);
    let ghost no_zone = cs@.subrange(from as int, zone as int);
    assert(no_zone =~= before(body, zone_mark()));
    let end = find_mark(cs, from, zone, Mark::Dot);
    let ghost core = cs@.subrange(from as int, end as int);
    assert(core =~= before(no_zone, dot()));
    let c1 = find_mark(cs, from, end, Mark::Colon);
    assert(before(core, colon()) =~= cs@.subrange(from as int, c1 as int));
    if c1 == end {
        return None;
    }
    let ghost rest = cs@.subrange(c1 + 1, end as int);
    assert(core.skip(first_at(core, colon()) + 1) =~= rest);
    let c2 = find_mark(cs, c1 + 1, end, Mark::Colon);
    assert(before(rest, colon()) =~= cs@.subrange(c1 + 1, c2 as int));
    let sec = if c2 == end {
        Some(0i64)
    } else {
        let c3 = find_mark(cs, c2 + 1, end, Mark::Colon);
        proof {
            let tail = cs@.subrange(c2 + 1, end as int);
            assert(rest.skip(first_at(rest, colon()) + 1) =~= tail);
            assert(before(tail, colon()) =~= cs@.subrange(c2 + 1, c3 as int));
        }
        parse_below(cs, c2 + 1, c3, 61)
    };
    let h = parse_below(cs, from, c1, 24);
    let mi = parse_below(cs, c1 + 1, c2, 60);
    match (h, mi, sec) {
        (Some(h), Some(mi), Some(s)) => Some(h * 3600 + mi * 60 + s),
        _ => None,
    }
}

fn digit_value(c: char) -> (r: i64)
    requires
        text::is_digit(c),
    ensures
        r == c as int - '0' as int,
        0 <= r <= 9,
{
    c as i64 - '0' as i64
}

proof fn two_digits(s: Seq<char>)
    requires
        s.len() == 2,
        text::is_digit(s[0]),
        text::is_digit(s[1]),
    ensures
        text::digits_value(s) == (s[0] as int - '0' as int) * 10 + (s[1] as int - '0' as int),
{
    reveal_with_fuel(text::digits_value, 3);
    assert(s.drop_last().last() == s[0]);
    assert(s.drop_last().drop_last() =~= Seq::<char>::empty());
}

proof fn four_digits(s: Seq<char>)
    requires
        s.len() == 4,
        text::is_digit(s[0]),
        text::is_digit(s[1]),
        text::is_digit(s[2]),
        text::is_digit(s[3]),
    ensures
        text::digits_value(s) == (s[0] as int - '0' as int) * 1000 + (s[1] as int - '0' as int)
            * 100 + (s[2] as int - '0' as int) * 10 + (s[3] as int - '0' as int),
{
    let front = s.take(2);
    two_digits(front);
    assert(s.drop_last().drop_last() =~= front);
    assert(s.drop_last().last() == s[2]);
    reveal_with_fuel(text::digits_value, 3);
}

/// The seconds from the start of 1970 that a date, with or without a time,
/// names; nothing where the text is not one.
pub fn parse_iso_epoch(raw: &str) -> (r: Option<i64>)
    ensures
        match r {
            Some(n) => iso_seconds(raw@) == Some(n as int),
            None => iso_seconds(raw@) is None,
        },
{
    let trimmed = text::trim(raw);
    let s = text::chars_of(trimmed.as_str());
    if s.len() < 10 {
        return None;
    }
    let shape = text::digit_of(s[0]) && text::digit_of(s[1]) && text::digit_of(s[2])
        && text::digit_of(s[3]) && s[4] == '-' && text::digit_of(s[5]) && text::digit_of(s[6])
        && s[7] == '-' && text::digit_of(s[8]) && text::digit_of(s[9]);
    if !shape {
        return None;
    }
    proof {
        four_digits(s@.subrange(0, 4));
        two_digits(s@.subrange(5, 7));
        two_digits(s@.subrange(8, 10));
    }
    let y = digit_value(s[0]) * 1000 + digit_value(s[1]) * 100 + digit_value(s[2]) * 10
        + digit_value(s[3]);
    let m = (digit_value(s[5]) * 10 + digit_value(s[6])) as u32;
    let d = (digit_value(s[8]) * 10 + digit_value(s[9])) as u32;
    if !(1 <= m && m <= 12 && 1 <= d && d <= 31) {
        return None;
    }
    let days = calendar::days_from_civil(y, m, d);
    assert(-1_000_000 <= days <= 4_000_000);
    if s.len() == 10 {
        return Some(days * 86400);
    }
    if s[10] == 'T' || s[10] == ' ' {
        match parse_time_tail(&s, 11) {
            Some(t) => Some(days * 86400 + t),
            None => None,
        }
    } else {
        None
    }
}

/// Zeros in front of a text, up to a width.
pub open spec fn zero_filled(t: Seq<char>, width: int) -> Seq<char> {
    if t.len() >= width {
        t
    } else {
        Seq::new((width - t.len()) as nat, |i: int| '0') + t
    }
}

/// An integer of at least a width, filled with zeros behind the sign.
pub open spec fn padded(n: int, width: int) -> Seq<char> {
    if n < 0 {
        seq!['-'] + zero_filled(text::nat_text((-n) as nat), width - 1)
    } else {
        zero_filled(text::nat_text(n as nat), width)
    }
}

/// The date of a moment.
pub open spec fn date_text(m: Moment) -> Seq<char> {
    padded(m.year, 4) + "-"@ + padded(m.month, 2) + "-"@ + padded(m.day, 2)
}

/// The date and the time of day of a moment.
pub open spec fn stamp_text(m: Moment) -> Seq<char> {
    date_text(m) + "T"@ + padded(m.hour, 2) + ":"@ + padded(m.minute, 2) + ":"@ + padded(
        m.second,
        2,
    )
}

/// A moment as text: the date, and the time of day unless it is midnight.
pub open spec fn moment_text(m: Moment) -> Seq<char> {
    if m.hour == 0 && m.minute == 0 && m.second == 0 {
        date_text(m)
    } else {
        stamp_text(m)
    }
}

fn fill(t: String, width: usize) -> (r: String)
    ensures
        r@ == zero_filled(t@, width as int),
{
    let len = text::chars_of(t.as_str()).len();
    if len >= width {
        return t;
    }
    let mut out = String::new();
    let mut i: usize = 0;
    while i < width - len
        invariant
            len < width,
            0 <= i <= width - len,
            out@ == Seq::new(i as nat, |j: int| '0'),
        decreases width - len - i,
    {
        out.push('0');
        i += 1;
        assert(out@ =~= Seq::new(i as nat, |j: int| '0'));
    }
    out.append(t.as_str());
    out
}

fn pad(n: i64, width: usize) -> (r: String)
    requires
        width >= 1,
    ensures
        r@ == padded(n as int, width as int),
{
    if n < 0 {
        let magnitude = (-(n + 1)) as u64 + 1;
        let mut out = String::new();
        out.push('-');
        out.append(fill(text::u64_text(magnitude), width - 1).as_str());
        assert(out@ =~= padded(n as int, width as int));
        out
    } else {
        fill(text::u64_text(n as u64), width)
    }
}

/// The moment of a number of seconds from the start of 1970, as text.
pub fn format_epoch(secs: i64) -> (r: String)
    ensures
        r@ == moment_text(calendar::moment_of(secs as int)),
{
    let (y, m, d, h, mi, s) = calendar::epoch_to_ymdhms(secs);
    let mut out = pad(y, 4);
    out.append("-");
    out.append(pad(m as i64, 2).as_str());
    out.append("-");
    out.append(pad(d as i64, 2).as_str());
    if h == 0 && mi == 0 && s == 0 {
        return out;
    }
    out.append("T");
    out.append(pad(h as i64, 2).as_str());
    out.append(":");
    out.append(pad(mi as i64, 2).as_str());
    out.append(":");
    out.append(pad(s as i64, 2).as_str());
    out
}

proof fn filled_digits(n: nat, width: int)
    requires
        width >= 1,
        n < 10 || width >= 2,
        n < 100 || width >= 3,
        n < 1000 || width >= 4,
        n < 10000,
    ensures
        ({
            let t = zero_filled(text::nat_text(n), width);
            &&& t.len() == width
            &&& forall|i: int| 0 <= i < t.len() ==> #[trigger] text::is_digit(t[i])
            &&& text::digits_value(t) == n
        }),
    decreases width,
{
    let t = zero_filled(text::nat_text(n), width);
    if n < 10 {
        let zeros = Seq::new((width - 1) as nat, |i: int| '0');
        assert(t =~= zeros.push(text::digit_char(n)));
        zeros_value((width - 1) as nat);
        assert(t.drop_last() =~= zeros);
        assert(text::is_digit(text::digit_char(n)));
    } else {
        filled_digits(n / 10, width - 1);
        let u = zero_filled(text::nat_text(n / 10), width - 1);
        assert(text::nat_text(n) == text::nat_text(n / 10).push(text::digit_char(n % 10)));
        assert(t =~= u.push(text::digit_char(n % 10)));
        assert(t.drop_last() =~= u);
        assert(text::is_digit(text::digit_char(n % 10)));
        assert forall|i: int| 0 <= i < t.len() implies #[trigger] text::is_digit(t[i]) by {
            if i < u.len() {
                assert(t[i] == u[i]);
            }
        }
    }
}

proof fn zeros_value(n: nat)
    ensures
        text::digits_value(Seq::new(n, |i: int| '0')) == 0,
    decreases n,
{
    if n > 0 {
        let z = Seq::new(n, |i: int| '0');
        assert(z.drop_last() =~= Seq::new((n - 1) as nat, |i: int| '0'));
        zeros_value((n - 1) as nat);
    }
}

proof fn two_place_number(n: int, end: int)
    requires
        0 <= n < end <= 100,
    ensures
        padded(n, 2).len() == 2,
        text::is_digit(padded(n, 2)[0]),
        text::is_digit(padded(n, 2)[1]),
        text::digits_value(padded(n, 2)) == n,
        number_below(padded(n, 2), end) == Some(n),
{
    filled_digits(n as nat, 2);
    let t = padded(n, 2);
    assert(text::is_digit(t[0]) && text::is_digit(t[1]));
    assert(text::all_digits(t));
}

proof fn plain_text_stays(s: Seq<char>)
    requires
        s.len() > 0,
        !text::is_white(s[0]),
        !text::is_white(s.last()),
    ensures
        text::trimmed(s) == s,
{
}

proof fn written_time_is_read(hour: int, minute: int, second: int)
    requires
        0 <= hour < 24,
        0 <= minute < 60,
        0 <= second < 60,
    ensures
        time_of_day(
            padded(hour, 2) + ":"@ + padded(minute, 2) + ":"@ + padded(second, 2),
        ) == Some(hour * 3600 + minute * 60 + second),
{
    reveal_strlit(":");
    two_place_number(hour, 24);
    two_place_number(minute, 60);
    two_place_number(second, 61);
    let h = padded(hour, 2);
    let mi = padded(minute, 2);
    let se = padded(second, 2);
    let body = h + ":"@ + mi + ":"@ + se;
    assert(body.len() == 8);
    assert forall|i: int| 0 <= i < 8 implies !zone_mark()(#[trigger] body[i]) && !dot()(
        body[i],
    ) by {
        if i == 0 || i == 1 {
            assert(body[i] == h[i]);
        } else if i == 3 || i == 4 {
            assert(body[i] == mi[i - 3]);
        } else if i == 6 || i == 7 {
            assert(body[i] == se[i - 6]);
        }
    }
    first_at_is(body, zone_mark(), 8);
    assert(before(body, zone_mark()) =~= body);
    first_at_is(body, dot(), 8);
    assert(before(body, dot()) =~= body);
    assert(body[0] == h[0] && body[1] == h[1] && body[2] == ':');
    first_at_is(body, colon(), 2);
    assert(before(body, colon()) =~= h);
    let rest = body.skip(3);
    assert(rest[0] == mi[0] && rest[1] == mi[1] && rest[2] == ':');
    first_at_is(rest, colon(), 2);
    assert(before(rest, colon()) =~= mi);
    let tail = rest.skip(3);
    assert(tail =~= se);
    first_at_is(tail, colon(), 2);
    assert(before(tail, colon()) =~= se);
}

proof fn written_date_is_read(year: int, month: int, day: int, rest: Seq<char>)
    requires
        0 <= year <= 9999,
        1 <= month <= 12,
        1 <= day <= 31,
    ensures
        ({
            let date = padded(year, 4) + "-"@ + padded(month, 2) + "-"@ + padded(day, 2);
            let s = date + rest;
            &&& date.len() == 10
            &&& date_shape(s)
            &&& text::digits_value(s.subrange(0, 4)) == year
            &&& text::digits_value(s.subrange(5, 7)) == month
            &&& text::digits_value(s.subrange(8, 10)) == day
        }),
{
    reveal_strlit("-");
    filled_digits(year as nat, 4);
    two_place_number(month, 13);
    two_place_number(day, 32);
    let y = padded(year, 4);
    let m = padded(month, 2);
    let d = padded(day, 2);
    assert(text::is_digit(y[0]) && text::is_digit(y[1]) && text::is_digit(y[2]) && text::is_digit(
        y[3],
    ));
    let date = y + "-"@ + m + "-"@ + d;
    let s = date + rest;
    assert(s.subrange(0, 4) =~= y);
    assert(s.subrange(5, 7) =~= m);
    assert(s.subrange(8, 10) =~= d);
    assert(s[0] == y[0] && s[1] == y[1] && s[2] == y[2] && s[3] == y[3] && s[4] == '-');
    assert(s[5] == m[0] && s[6] == m[1] && s[7] == '-' && s[8] == d[0] && s[9] == d[1]);
}

/// A date and time that was written is read back, and so is a date alone, for
/// the years of four digits.
pub proof fn law_written_moments_are_read(secs: int)
    requires
        0 <= calendar::moment_of(secs).year <= 9999,
    ensures
        iso_seconds(stamp_text(calendar::moment_of(secs))) == Some(secs),
        iso_seconds(moment_text(calendar::moment_of(secs))) == Some(secs),
{
    let m = calendar::moment_of(secs);
    calendar::law_civil_ranges(secs / 86400);
    calendar::law_seconds_of_moment(secs);
    reveal_strlit("T");
    reveal_strlit(":");
    let date = date_text(m);
    let time = padded(m.hour, 2) + ":"@ + padded(m.minute, 2) + ":"@ + padded(m.second, 2);
    two_place_number(m.day, 32);
    two_place_number(m.second, 61);
    let stamp = stamp_text(m);
    assert(stamp =~= date + ("T"@ + time));
    written_date_is_read(m.year, m.month, m.day, "T"@ + time);
    assert(stamp.last() == padded(m.second, 2)[1]);
    plain_text_stays(stamp);
    assert(stamp[10] == 'T');
    assert(stamp.skip(11) =~= time);
    written_time_is_read(m.hour, m.minute, m.second);
    assert(iso_seconds(stamp) == Some(secs));
    if m.hour == 0 && m.minute == 0 && m.second == 0 {
        written_date_is_read(m.year, m.month, m.day, Seq::empty());
        assert(date + Seq::<char>::empty() =~= date);
        assert(date.last() == padded(m.day, 2)[1]);
        plain_text_stays(date);
        assert(iso_seconds(date) == Some(secs));
    }
}

/// An event of a node.
pub open spec fn event_of(
    n: NodeViewModel,
    property: Seq<char>,
    date: Seq<char>,
    epoch: Option<i64>,
) -> TimelineEventModel {
    TimelineEventModel {
        date,
        epoch_seconds: epoch,
        property,
        entity_id: n.id,
        entity_name: n.name,
        entity_type: n.entity_type,
    }
}

/// The seconds of a date text as a machine integer.
pub open spec fn epoch_of(s: Seq<char>) -> Option<i64> {
    match iso_seconds(s) {
        Some(n) => Some(n as i64),
        None => None,
    }
}

/// The events among the dates of a node. A number is seconds from the start of
/// 1970.
pub open spec fn date_events(n: NodeViewModel, dates: Seq<(Seq<char>, JsonModel)>) -> Seq<
    TimelineEventModel,
>
    decreases dates.len(),
{
    if dates.len() == 0 {
        Seq::empty()
    } else {
        let so_far = date_events(n, dates.drop_last());
        let (name, value) = dates.last();
        match value {
            JsonModel::Str(s) => so_far.push(event_of(n, name, s, epoch_of(s))),
            JsonModel::Number(NumberModel::Int(secs)) => so_far.push(
                event_of(
                    n,
                    name,
                    moment_text(calendar::moment_of(secs as int)),
                    Some(secs),
                ),
            ),
            _ => so_far,
        }
    }
}

/// The events among other properties: texts that are dates.
pub open spec fn other_events(n: NodeViewModel, props: Seq<(Seq<char>, JsonModel)>) -> Seq<
    TimelineEventModel,
>
    decreases props.len(),
{
    if props.len() == 0 {
        Seq::empty()
    } else {
        let so_far = other_events(n, props.drop_last());
        let (name, value) = props.last();
        match value {
            JsonModel::Str(s) => if epoch_of(s) is Some {
                so_far.push(event_of(n, name, s, epoch_of(s)))
            } else {
                so_far
            },
            _ => so_far,
        }
    }
}

/// The events of a node.
pub open spec fn events_of(n: NodeViewModel) -> Seq<TimelineEventModel> {
    date_events(n, n.properties.dates) + other_events(n, n.properties.other)
}

/// The events of nodes, in the order of the nodes.
pub open spec fn all_events(nodes: Seq<NodeViewModel>) -> Seq<TimelineEventModel>
    decreases nodes.len(),
{
    if nodes.len() == 0 {
        Seq::empty()
    } else {
        all_events(nodes.drop_last()) + events_of(nodes.last())
    }
}

/// Events by time; those without one come last, by their texts.
pub open spec fn event_order() -> spec_fn(TimelineEventModel, TimelineEventModel) -> bool {
    |a: TimelineEventModel, b: TimelineEventModel|
        match (a.epoch_seconds, b.epoch_seconds) {
            (Some(x), Some(y)) => x <= y,
            (Some(_), None) => true,
            (None, Some(_)) => false,
            (None, None) => text::lex_le(a.date, b.date),
        }
}

/// The timeline of nodes.
pub open spec fn timeline_of(nodes: Seq<NodeViewModel>) -> Seq<TimelineEventModel> {
    sorting::sorted_by(all_events(nodes), event_order())
}

/// The order of events is total, so that a timeline is in order.
pub proof fn law_event_order_is_total()
    ensures
        sorting::is_total_preorder(event_order()),
{
    let le = event_order();
    assert forall|a: TimelineEventModel, b: TimelineEventModel| #[trigger] le(a, b) || le(b, a) by {
        if text::lex_lt(b.date, a.date) {
            text::lex_lt_asymmetric(b.date, a.date);
        }
    }
    assert forall|a: TimelineEventModel, b: TimelineEventModel, c: TimelineEventModel|
        #[trigger] le(a, b) && #[trigger] le(b, c) implies le(a, c) by {
        if text::lex_le(a.date, b.date) && text::lex_le(b.date, c.date) {
            text::lex_le_transitive(a.date, b.date, c.date);
        }
    }
}

fn event_before(a: &TimelineEvent, b: &TimelineEvent) -> (r: bool)
    ensures
        r == event_order()(a.deep_view(), b.deep_view()),
{
    match (a.epoch_seconds, b.epoch_seconds) {
        (Some(x), Some(y)) => x <= y,
        (Some(_), None) => true,
        (None, Some(_)) => false,
        (None, None) => !text::text_lt(b.date.as_str(), a.date.as_str()),
    }
}

fn make_event(node: &NodeView, property: &str, date: String, epoch: Option<i64>) -> (r:
    TimelineEvent)
    ensures
        r.deep_view() == event_of(node.deep_view(), property@, date@, epoch),
{
    TimelineEvent {
        date,
        epoch_seconds: epoch,
        property: property.to_owned(),
        entity_id: node.id.clone(),
        entity_name: node.name.clone(),
        entity_type: node.entity_type.clone(),
    }
}

/// The events of a node.
pub fn node_events(node: &NodeView) -> (r: Vec<TimelineEvent>)
    ensures
        r.deep_view() == events_of(node.deep_view()),
{
    let ghost n = node.deep_view();
    let ghost dates = node.properties.dates.deep_view();
    let mut events: Vec<TimelineEvent> = seqs::no_items();
    let mut i: usize = 0;
    while i < node.properties.dates.entries.len()
        invariant
            n == node.deep_view(),
            dates == node.properties.dates.deep_view(),
            0 <= i <= node.properties.dates.entries@.len(),
            events.deep_view() == date_events(n, dates.take(i as int)),
        decreases node.properties.dates.entries@.len() - i,
    {
        proof {
            assert(dates.take(i + 1).drop_last() =~= dates.take(i as int));
            assert(dates.take(i + 1).last()
                == node.properties.dates.entries@[i as int].deep_view());
        }
        let name = node.properties.dates.entries[i].0.as_str();
        match &node.properties.dates.entries[i].1 {
            Json::Str(s) => {
                let epoch = parse_iso_epoch(s.as_str());
                seqs::push_item(&mut events, make_event(node, name, s.clone(), epoch));
            },
            Json::Number(JsonNumber::Int(secs)) => {
                seqs::push_item(
                    &mut events,
                    make_event(node, name, format_epoch(*secs), Some(*secs)),
                );
            },
            _ => {},
        }
        i += 1;
    }
    assert(dates.take(i as int) =~= dates);
    let ghost first = events.deep_view();
    let ghost others = node.properties.other.deep_view();
    let mut k: usize = 0;
    assert(first + other_events(n, others.take(0)) =~= first);
    while k < node.properties.other.entries.len()
        invariant
            n == node.deep_view(),
            others == node.properties.other.deep_view(),
            0 <= k <= node.properties.other.entries@.len(),
            events.deep_view() == first + other_events(n, others.take(k as int)),
        decreases node.properties.other.entries@.len() - k,
    {
        proof {
            assert(others.take(k + 1).drop_last() =~= others.take(k as int));
            assert(others.take(k + 1).last()
                == node.properties.other.entries@[k as int].deep_view());
        }
        if let Json::Str(s) = &node.properties.other.entries[k].1 {
            if let Some(epoch) = parse_iso_epoch(s.as_str()) {
                let name = node.properties.other.entries[k].0.as_str();
                seqs::push_item(&mut events, make_event(node, name, s.clone(), Some(epoch)));
                assert(events.deep_view() =~= first + other_events(n, others.take(k + 1)));
            }
        }
        k += 1;
    }
    assert(others.take(k as int) =~= others);
    events
}

/// The dated events of nodes in the order of time.
pub fn nodes_timeline(nodes: &Vec<NodeView>) -> (r: Vec<TimelineEvent>)
    ensures
        r.deep_view() == timeline_of(nodes.deep_view()),
{
    let ghost all = nodes.deep_view();
    let mut events: Vec<TimelineEvent> = seqs::no_items();
    let mut i: usize = 0;
    while i < nodes.len()
        invariant
            all == nodes.deep_view(),
            0 <= i <= nodes@.len(),
            events.deep_view() == all_events(all.take(i as int)),
        decreases nodes@.len() - i,
    {
        proof {
            assert(all.take(i + 1).drop_last() =~= all.take(i as int));
            assert(all.take(i + 1).last() == nodes@[i as int].deep_view());
        }
        seqs::append_items(&mut events, node_events(&nodes[i]));
        i += 1;
    }
    assert(all.take(i as int) =~= all);
    sorting::sort_items(&mut events, event_before, Ghost(event_order()));
    events
}

/// The dated events of a subgraph in the order of time.
pub fn subgraph_timeline(subgraph: &Subgraph) -> (r: Vec<TimelineEvent>)
    ensures
        r.deep_view() == timeline_of(subgraph.deep_view().nodes),
{
    nodes_timeline(&subgraph.nodes)
}

/// Do the date text and the seconds of an event agree? They do where the text reads as
/// these seconds, or where neither is known. The years beyond four digits are written
/// but not read.
pub open spec fn date_agrees(e: TimelineEventModel) -> bool {
    match e.epoch_seconds {
        Some(n) => 0 <= calendar::moment_of(n as int).year <= 9999 ==> iso_seconds(e.date) == Some(
            n as int,
        ),
        None => iso_seconds(e.date) is None,
    }
}

/// Is an event one of a date of the node: of a text as it stands, or of a whole number of
/// seconds?
pub open spec fn is_of_a_date(n: NodeViewModel, e: TimelineEventModel) -> bool {
    exists|i: int|
        0 <= i < n.properties.dates.len() && (#[trigger] n.properties.dates[i]).0 == e.property
            && (n.properties.dates[i].1 == JsonModel::Str(e.date) || (e.epoch_seconds is Some
            && n.properties.dates[i].1 == JsonModel::Number(
            NumberModel::Int(e.epoch_seconds->0),
        )))
}

/// Is an event one of another property of the node: of a text that is a date?
pub open spec fn is_of_another(n: NodeViewModel, e: TimelineEventModel) -> bool {
    e.epoch_seconds is Some && exists|i: int|
        0 <= i < n.properties.other.len() && (#[trigger] n.properties.other[i]).0 == e.property
            && n.properties.other[i].1 == JsonModel::Str(e.date)
}

/// Is an event of a node, under its name and type?
pub open spec fn is_of_node(n: NodeViewModel, e: TimelineEventModel) -> bool {
    e.entity_id == n.id && e.entity_name == n.name && e.entity_type == n.entity_type && (
    is_of_a_date(n, e) || is_of_another(n, e))
}

/// Has a node an event of a property, with a date text where there is one to keep, and
/// with the seconds where the value gives them?
pub open spec fn has_event(
    all: Seq<TimelineEventModel>,
    n: NodeViewModel,
    property: Seq<char>,
    value: JsonModel,
) -> bool {
    exists|k: int|
        0 <= k < all.len() && (#[trigger] all[k]).property == property && all[k].entity_id == n.id
            && all[k].entity_name == n.name && all[k].entity_type == n.entity_type && match value {
            JsonModel::Str(s) => all[k].date == s,
            JsonModel::Number(NumberModel::Int(secs)) => all[k].epoch_seconds == Some(secs),
            _ => false,
        }
}

proof fn iso_seconds_fit(s: Seq<char>)
    ensures
        match iso_seconds(s) {
            Some(n) => i64::MIN <= n <= i64::MAX,
            None => true,
        },
{
    let t = text::trimmed(s);
    if date_shape(t) {
        four_digits(t.subrange(0, 4));
        two_digits(t.subrange(5, 7));
        two_digits(t.subrange(8, 10));
        let y = text::digits_value(t.subrange(0, 4)) as int;
        let m = text::digits_value(t.subrange(5, 7)) as int;
        let d = text::digits_value(t.subrange(8, 10)) as int;
        if 1 <= m <= 12 && 1 <= d <= 31 {
            assert(-1_000_000 <= calendar::days_of(y, m, d) <= 4_000_000);
        }
    }
}

#[verifier::rlimit(40)]
proof fn date_events_hold(n: NodeViewModel, dates: Seq<(Seq<char>, JsonModel)>, k: int)
    requires
        0 <= k < date_events(n, dates).len(),
    ensures
        ({
            let e = date_events(n, dates)[k];
            &&& date_agrees(e)
            &&& e.entity_id == n.id && e.entity_name == n.name && e.entity_type == n.entity_type
            &&& exists|i: int|
                0 <= i < dates.len() && (#[trigger] dates[i]).0 == e.property && (dates[i].1
                    == JsonModel::Str(e.date) || (e.epoch_seconds is Some && dates[i].1
                    == JsonModel::Number(NumberModel::Int(e.epoch_seconds->0))))
        }),
    decreases dates.len(),
{
    let rest = dates.drop_last();
    let e = date_events(n, dates)[k];
    if k < date_events(n, rest).len() {
        date_events_hold(n, rest, k);
        let i = choose|i: int|
            0 <= i < rest.len() && (#[trigger] rest[i]).0 == e.property && (rest[i].1
                == JsonModel::Str(e.date) || (e.epoch_seconds is Some && rest[i].1
                == JsonModel::Number(NumberModel::Int(e.epoch_seconds->0))));
        assert(dates[i] == rest[i]);
    } else {
        let i = dates.len() - 1;
        assert(dates[i] == dates.last());
        match dates.last().1 {
            JsonModel::Str(s) => {
                iso_seconds_fit(s);
            },
            JsonModel::Number(NumberModel::Int(secs)) => {
                if 0 <= calendar::moment_of(secs as int).year <= 9999 {
                    law_written_moments_are_read(secs as int);
                }
            },
            _ => {},
        }
    }
}

proof fn other_events_hold(n: NodeViewModel, props: Seq<(Seq<char>, JsonModel)>, k: int)
    requires
        0 <= k < other_events(n, props).len(),
    ensures
        ({
            let e = other_events(n, props)[k];
            &&& date_agrees(e) && e.epoch_seconds is Some
            &&& e.entity_id == n.id && e.entity_name == n.name && e.entity_type == n.entity_type
            &&& exists|i: int|
                0 <= i < props.len() && (#[trigger] props[i]).0 == e.property && props[i].1
                    == JsonModel::Str(e.date)
        }),
    decreases props.len(),
{
    let rest = props.drop_last();
    let e = other_events(n, props)[k];
    if k < other_events(n, rest).len() {
        other_events_hold(n, rest, k);
        let i = choose|i: int|
            0 <= i < rest.len() && (#[trigger] rest[i]).0 == e.property && rest[i].1
                == JsonModel::Str(e.date);
        assert(props[i] == rest[i]);
    } else {
        let i = props.len() - 1;
        assert(props[i] == props.last());
        if let JsonModel::Str(s) = props.last().1 {
            iso_seconds_fit(s);
        }
    }
}

proof fn node_event_holds(nodes: Seq<NodeViewModel>, k: int)
    requires
        0 <= k < all_events(nodes).len(),
    ensures
        date_agrees(all_events(nodes)[k]),
        exists|i: int|
            0 <= i < nodes.len() && is_of_node(#[trigger] nodes[i], all_events(nodes)[k]),
    decreases nodes.len(),
{
    let rest = nodes.drop_last();
    let e = all_events(nodes)[k];
    let head = all_events(rest).len();
    if k < head {
        node_event_holds(rest, k);
        let i = choose|i: int| 0 <= i < rest.len() && is_of_node(#[trigger] rest[i], e);
        assert(nodes[i] == rest[i]);
    } else {
        let n = nodes[nodes.len() - 1];
        let dates = date_events(n, n.properties.dates).len();
        if k - head < dates {
            date_events_hold(n, n.properties.dates, k - head);
        } else {
            other_events_hold(n, n.properties.other, k - head - dates);
        }
        assert(is_of_node(n, e));
    }
}

proof fn date_has_event(n: NodeViewModel, dates: Seq<(Seq<char>, JsonModel)>, i: int)
    requires
        0 <= i < dates.len(),
        dates[i].1 is Str || (dates[i].1 matches JsonModel::Number(x) && x is Int),
    ensures
        has_event(date_events(n, dates), n, dates[i].0, dates[i].1),
    decreases dates.len(),
{
    let rest = dates.drop_last();
    let all = date_events(n, dates);
    let before = date_events(n, rest);
    if i < rest.len() {
        date_has_event(n, rest, i);
        let k = choose|k: int|
            0 <= k < before.len() && (#[trigger] before[k]).property == dates[i].0
                && before[k].entity_id == n.id && before[k].entity_name == n.name
                && before[k].entity_type == n.entity_type && match dates[i].1 {
                JsonModel::Str(s) => before[k].date == s,
                JsonModel::Number(NumberModel::Int(secs)) => before[k].epoch_seconds == Some(secs),
                _ => false,
            };
        assert(all[k] == before[k]);
    } else {
        assert(all[before.len() as int].property == dates[i].0);
    }
}

proof fn other_has_event(n: NodeViewModel, props: Seq<(Seq<char>, JsonModel)>, i: int)
    requires
        0 <= i < props.len(),
        props[i].1 is Str,
        iso_seconds(props[i].1->Str_0) is Some,
    ensures
        has_event(other_events(n, props), n, props[i].0, props[i].1),
    decreases props.len(),
{
    let rest = props.drop_last();
    let all = other_events(n, props);
    let before = other_events(n, rest);
    if i < rest.len() {
        other_has_event(n, rest, i);
        let k = choose|k: int|
            0 <= k < before.len() && (#[trigger] before[k]).property == props[i].0
                && before[k].entity_id == n.id && before[k].entity_name == n.name
                && before[k].entity_type == n.entity_type && match props[i].1 {
                JsonModel::Str(s) => before[k].date == s,
                JsonModel::Number(NumberModel::Int(secs)) => before[k].epoch_seconds == Some(secs),
                _ => false,
            };
        assert(all[k] == before[k]);
    } else {
        assert(all[before.len() as int].property == props[i].0);
    }
}

proof fn event_is_found(
    part: Seq<TimelineEventModel>,
    all: Seq<TimelineEventModel>,
    n: NodeViewModel,
    property: Seq<char>,
    value: JsonModel,
)
    requires
        has_event(part, n, property, value),
        forall|e: TimelineEventModel| part.contains(e) ==> all.contains(e),
    ensures
        has_event(all, n, property, value),
{
    let k = choose|k: int|
        0 <= k < part.len() && (#[trigger] part[k]).property == property && part[k].entity_id == n.id
            && part[k].entity_name == n.name && part[k].entity_type == n.entity_type && match value {
            JsonModel::Str(s) => part[k].date == s,
            JsonModel::Number(NumberModel::Int(secs)) => part[k].epoch_seconds == Some(secs),
            _ => false,
        };
    assert(part.contains(part[k]));
    let j = choose|j: int| 0 <= j < all.len() && all[j] == part[k];
    assert(all[j].property == property);
}

proof fn node_events_are_kept(nodes: Seq<NodeViewModel>, i: int)
    requires
        0 <= i < nodes.len(),
    ensures
        forall|e: TimelineEventModel|
            events_of(nodes[i]).contains(e) ==> #[trigger] all_events(nodes).contains(e),
    decreases nodes.len(),
{
    let rest = nodes.drop_last();
    let head = all_events(rest);
    let all = all_events(nodes);
    assert forall|e: TimelineEventModel| events_of(nodes[i]).contains(e) implies
        #[trigger] all.contains(e) by {
        if i < rest.len() {
            node_events_are_kept(rest, i);
            assert(head.contains(e));
            let k = choose|k: int| 0 <= k < head.len() && head[k] == e;
            assert(all[k] == e);
        } else {
            let mine = events_of(nodes[i]);
            let k = choose|k: int| 0 <= k < mine.len() && mine[k] == e;
            assert(all[head.len() + k] == e);
        }
    }
}

/// The date text of an event and its seconds agree, and every event is one of a date, or
/// of another text that is a date, of a node of the timeline, under that node's name and
/// type.
pub proof fn law_timeline_events_are_sound(nodes: Seq<NodeViewModel>)
    ensures
        forall|k: int|
            0 <= k < timeline_of(nodes).len() ==> date_agrees(#[trigger] timeline_of(nodes)[k])
                && exists|i: int|
                0 <= i < nodes.len() && is_of_node(#[trigger] nodes[i], timeline_of(nodes)[k]),
{
    let line = timeline_of(nodes);
    let all = all_events(nodes);
    assert forall|k: int| 0 <= k < line.len() implies date_agrees(#[trigger] line[k])
        && exists|i: int| 0 <= i < nodes.len() && is_of_node(#[trigger] nodes[i], line[k]) by {
        assert(line.contains(line[k]));
        sorting::sorting_adds_none(all, event_order(), line[k]);
        let j = choose|j: int| 0 <= j < all.len() && all[j] == line[k];
        node_event_holds(nodes, j);
    }
}

/// Nothing dated is missing from a timeline: every text and every whole number among the
/// dates of a node has its event, and so has every other text that is a date.
pub proof fn law_timeline_is_complete(nodes: Seq<NodeViewModel>, i: int, k: int)
    requires
        0 <= i < nodes.len(),
    ensures
        0 <= k < nodes[i].properties.dates.len() && (nodes[i].properties.dates[k].1 is Str || (
        nodes[i].properties.dates[k].1 matches JsonModel::Number(x) && x is Int)) ==> has_event(
            timeline_of(nodes),
            nodes[i],
            nodes[i].properties.dates[k].0,
            nodes[i].properties.dates[k].1,
        ),
        0 <= k < nodes[i].properties.other.len() && nodes[i].properties.other[k].1 is Str
            && iso_seconds(nodes[i].properties.other[k].1->Str_0) is Some ==> has_event(
            timeline_of(nodes),
            nodes[i],
            nodes[i].properties.other[k].0,
            nodes[i].properties.other[k].1,
        ),
{
    let n = nodes[i];
    let all = all_events(nodes);
    let line = timeline_of(nodes);
    node_events_are_kept(nodes, i);
    assert forall|e: TimelineEventModel| all.contains(e) implies line.contains(e) by {
        sorting::sorting_keeps(all, event_order(), e);
    }
    let dates = date_events(n, n.properties.dates);
    let others = other_events(n, n.properties.other);
    assert forall|e: TimelineEventModel| dates.contains(e) implies line.contains(e) by {
        let j = choose|j: int| 0 <= j < dates.len() && dates[j] == e;
        assert(events_of(n)[j] == e);
        assert(all.contains(e));
    }
    assert forall|e: TimelineEventModel| others.contains(e) implies line.contains(e) by {
        let j = choose|j: int| 0 <= j < others.len() && others[j] == e;
        assert(events_of(n)[dates.len() + j] == e);
        assert(all.contains(e));
    }
    if 0 <= k < n.properties.dates.len() && (n.properties.dates[k].1 is Str || (
    n.properties.dates[k].1 matches JsonModel::Number(x) && x is Int)) {
        date_has_event(n, n.properties.dates, k);
        event_is_found(dates, line, n, n.properties.dates[k].0, n.properties.dates[k].1);
    }
    if 0 <= k < n.properties.other.len() && n.properties.other[k].1 is Str && iso_seconds(
        n.properties.other[k].1->Str_0,
    ) is Some {
        other_has_event(n, n.properties.other, k);
        event_is_found(others, line, n, n.properties.other[k].0, n.properties.other[k].1);
    }
}

/// A timeline goes forward in time. Events without a time come last, by their texts.
pub proof fn law_timeline_goes_forward(nodes: Seq<NodeViewModel>, i: int, j: int)
    requires
        0 <= i < j < timeline_of(nodes).len(),
    ensures
        match (timeline_of(nodes)[i].epoch_seconds, timeline_of(nodes)[j].epoch_seconds) {
            (Some(x), Some(y)) => x <= y,
            (None, Some(_)) => false,
            (Some(_), None) => true,
            (None, None) => !text::lex_lt(timeline_of(nodes)[j].date, timeline_of(nodes)[i].date),
        },
        timeline_of(nodes).to_multiset() =~= all_events(nodes).to_multiset(),
{
    law_event_order_is_total();
    sorting::law_sorted_by(all_events(nodes), event_order());
    assert(event_order()(timeline_of(nodes)[i], timeline_of(nodes)[j]));
}

/// The timeline of two lists of nodes holds the events of both, each as often as they do.
pub proof fn law_timelines_add_up(a: Seq<NodeViewModel>, b: Seq<NodeViewModel>)
    ensures
        timeline_of(a + b).to_multiset() =~= timeline_of(a).to_multiset().add(
            timeline_of(b).to_multiset(),
        ),
    decreases b.len(),
{
    law_event_order_is_total();
    sorting::law_sorted_by(all_events(a + b), event_order());
    sorting::law_sorted_by(all_events(a), event_order());
    sorting::law_sorted_by(all_events(b), event_order());
    all_events_add_up(a, b);
    vstd::seq_lib::lemma_multiset_commutative(all_events(a), all_events(b));
}

proof fn all_events_add_up(a: Seq<NodeViewModel>, b: Seq<NodeViewModel>)
    ensures
        all_events(a + b) == all_events(a) + all_events(b),
    decreases b.len(),
{
    if b.len() == 0 {
        assert(a + b =~= a);
        assert(all_events(a) + all_events(b) =~= all_events(a));
    } else {
        all_events_add_up(a, b.drop_last());
        assert((a + b).drop_last() =~= a + b.drop_last());
        assert((a + b).last() == b.last());
        assert(all_events(a + b) =~= all_events(a) + all_events(b));
    }
}

/// Is a text without the marks of a zone and of a fraction?
pub open spec fn has_no_end_mark(s: Seq<char>) -> bool {
    forall|i: int|
        0 <= i < s.len() ==> #[trigger] s[i] != 'Z' && s[i] != '+' && s[i] != '-' && s[i] != '.'
}

/// A time of day is read without the zone and the fraction behind it.
pub proof fn law_zones_and_fractions_are_passed_over(t: Seq<char>, mark: char, rest: Seq<char>)
    requires
        has_no_end_mark(t),
        mark == 'Z' || mark == '+' || mark == '-' || mark == '.',
    ensures
        time_of_day(t.push(mark) + rest) == time_of_day(t),
{
    let body = t.push(mark) + rest;
    let n = t.len() as int;
    first_at_is(t, zone_mark(), n);
    first_at_is(t, dot(), n);
    assert(t.take(n) =~= t);
    assert(before(before(t, zone_mark()), dot()) == t);
    if mark == '.' {
        let k = first_mark(body, zone_mark());
        assert(k > n) by {
            if k <= n && k < body.len() {
                assert(zone_mark()(body[k]));
                if k < n {
                    assert(body[k] == t[k]);
                }
            }
        }
        let z = before(body, zone_mark());
        assert(z == body.take(k));
        assert forall|j: int| 0 <= j < n implies !dot()(#[trigger] z[j]) by {
            assert(z[j] == t[j]);
        }
        assert(z[n] == '.');
        first_at_is(z, dot(), n);
        assert(z.take(n) =~= t);
    } else {
        assert forall|j: int| 0 <= j < n implies !zone_mark()(#[trigger] body[j]) by {
            assert(body[j] == t[j]);
        }
        assert(body[n] == mark);
        first_at_is(body, zone_mark(), n);
        assert(body.take(n) =~= t);
    }
}

proof fn first_mark(s: Seq<char>, p: spec_fn(char) -> bool) -> (k: int)
    ensures
        k == first_at(s, p),
        0 <= k <= s.len(),
        k < s.len() ==> p(s[k]),
        forall|j: int| 0 <= j < k ==> !p(#[trigger] s[j]),
    decreases s.len(),
{
    if s.len() == 0 || p(s[0]) {
        0
    } else {
        let k = first_mark(s.drop_first(), p);
        assert forall|j: int| 0 <= j < k + 1 implies !p(#[trigger] s[j]) by {
            if j > 0 {
                assert(s.drop_first()[j - 1] == s[j]);
            }
        }
        if k < s.drop_first().len() {
            assert(s.drop_first()[k] == s[k + 1]);
        }
        k + 1
    }
}

/// A time is read behind a space as it is behind a `T`.
pub proof fn law_spaces_separate_times(date: Seq<char>, time: Seq<char>)
    requires
        date.len() == 10,
        time.len() > 0,
        !text::is_white(date[0]),
        !text::is_white(time.last()),
    ensures
        iso_seconds(date.push(' ') + time) == iso_seconds(date.push('T') + time),
{
    let a = date.push(' ') + time;
    let b = date.push('T') + time;
    assert(a[0] == date[0] && b[0] == date[0]);
    assert(a.last() == time.last() && b.last() == time.last());
    plain_text_stays(a);
    plain_text_stays(b);
    assert forall|i: int| 0 <= i < 10 implies a[i] == b[i] by {}
    assert(a.subrange(0, 4) =~= b.subrange(0, 4));
    assert(a.subrange(5, 7) =~= b.subrange(5, 7));
    assert(a.subrange(8, 10) =~= b.subrange(8, 10));
    assert(a.skip(11) =~= b.skip(11));
    assert(a[10] == ' ' && b[10] == 'T');
}

} // verus!
