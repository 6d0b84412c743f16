//! Points in time as whole seconds since the Unix epoch, and the validity
//! window that turns the current time into the expiry of a lease. No function
//! here reads the clock: the current time is an argument.

use vstd::prelude::*;
use vstd::string::*;

verus! {

/// The first second that a timestamp can denote: the start of the year -262143.
pub const MIN_UNIX: i64 = -8_334_601_228_800;

/// The last second that a timestamp can denote: the end of the year 262142.
pub const MAX_UNIX: i64 = 8_210_266_876_799;

/// Whether a number of seconds since the epoch is a date that can be written down.
pub open spec fn representable(secs: int) -> bool {
    MIN_UNIX <= secs <= MAX_UNIX
}

/// The RFC 3339 text of a number of seconds since the epoch, in UTC, as
/// `chrono` writes it.
pub uninterp spec fn rfc3339_text(secs: i64) -> Seq<char>;

/// Writes a number of seconds since the epoch as RFC 3339 text.
///
/// Trusted: stands for `chrono::DateTime::<Utc>::from_timestamp(secs, 0)`
/// followed by `DateTime::to_rfc3339`. The first returns a value exactly for
/// the seconds that fall into the years from -262143 to 262142, which are the
/// bounds `MIN_UNIX` and `MAX_UNIX`; the second writes that value and does not
/// fail. The text depends on the seconds alone.
#[verifier::external_body]
fn format_rfc3339(secs: i64) -> (r: Option<String>)
    ensures
        r.is_some() == representable(secs as int),
        r matches Some(s) ==> s@ == rfc3339_text(secs),
{
    match chrono::DateTime::from_timestamp(secs, 0) {
        Some(moment) => Some(moment.to_rfc3339()),
        None => None,
    }
}

/// A point in time, held as seconds since the epoch together with its
/// RFC 3339 text.
#[derive(Debug)]
pub struct Timestamp {
    timestamp: i64,
    time_str: String,
}

impl View for Timestamp {
    type V = i64;

    /// The seconds since the epoch.
    closed spec fn view(&self) -> i64 {
        self.timestamp
    }
}

impl Timestamp {
    /// The text that this value carries.
    pub closed spec fn text(&self) -> Seq<char> {
        self.time_str@
    }

    #[verifier::type_invariant]
    spec fn inv(&self) -> bool {
        &&& representable(self.timestamp as int)
        &&& self.time_str@ == rfc3339_text(self.timestamp)
    }

    /// The point in time `validity` seconds after `now`, or `None` where that
    /// is no representable date. The caller reads the clock and hands in what
    /// it shows.
    pub fn new(now: i64, validity: i64) -> (r: Option<Timestamp>)
        ensures
            r.is_some() == representable(now + validity),
            r matches Some(t) ==> t@ == now + validity && t.text() == rfc3339_text(t@),
    {
        match now.checked_add(validity) {
            Some(secs) => Timestamp::checked_from_unix(secs),
            None => None,
        }
    }

    /// The point in time `timestamp` seconds after the epoch, or `None` where
    /// that is no representable date.
    pub fn checked_from_unix(timestamp: i64) -> (r: Option<Timestamp>)
        ensures
            r.is_some() == representable(timestamp as int),
            r matches Some(t) ==> t@ == timestamp && t.text() == rfc3339_text(timestamp),
    {
        match format_rfc3339(timestamp) {
            Some(time_str) => Some(Timestamp { timestamp, time_str }),
            None => None,
        }
    }

    /// The point in time `timestamp` seconds after the epoch.
    pub fn from_unix(timestamp: i64) -> (r: Timestamp)
        requires
            representable(timestamp as int),
        ensures
            r@ == timestamp,
            r.text() == rfc3339_text(timestamp),
    {
        let time_str = format_rfc3339(timestamp).unwrap();
        Timestamp { timestamp, time_str }
    }

    /// The seconds since the epoch.
    pub fn unix(&self) -> (r: i64)
        ensures
            r == self@,
            representable(r as int),
    {
        proof {
            use_type_invariant(self);
        }
        self.timestamp
    }

    /// The RFC 3339 text of this point in time.
    pub fn to_string(&self) -> (r: String)
        ensures
            r@ == rfc3339_text(self@),
            r@ == self.text(),
    {
        proof {
            use_type_invariant(self);
        }
        format_rfc3339(self.timestamp).unwrap()
    }

    /// The text that was written down when this value was made.
    pub fn time_str(&self) -> (r: &str)
        ensures
            r@ == self.text(),
            r@ == rfc3339_text(self@),
    {
        proof {
            use_type_invariant(self);
        }
        self.time_str.as_str()
    }
}

impl PartialEq for Timestamp {
    fn eq(&self, other: &Self) -> (r: bool) {
        self.timestamp == other.timestamp
    }
}

impl vstd::std_specs::cmp::PartialEqSpecImpl for Timestamp {
    open spec fn obeys_eq_spec() -> bool {
        true
    }

    open spec fn eq_spec(&self, other: &Self) -> bool {
        self@ == other@
    }
}

impl Clone for Timestamp {
    fn clone(&self) -> (r: Self)
        ensures
            r == *self,
    {
        proof {
            use_type_invariant(self);
        }
        Timestamp { timestamp: self.timestamp, time_str: self.time_str.clone() }
    }
}

/// The validity window, in seconds, where none is configured or the
/// configured one cannot be read: an hour.
pub const DEFAULT_VALIDITY: i64 = 3600;

/// Whether a character is one of the ten decimal digits.
pub open spec fn is_digit(c: char) -> bool {
    '0' <= c <= '9'
}

/// Whether a text holds decimal digits only.
pub open spec fn all_digits(text: Seq<char>) -> bool {
    forall|i: int| 0 <= i < text.len() ==> is_digit(#[trigger] text[i])
}

/// The number that a text of decimal digits denotes.
pub open spec fn digits_value(text: Seq<char>) -> int
    decreases text.len(),
{
    if text.len() == 0 {
        0
    } else {
        10 * digits_value(text.drop_last()) + (text.last() as int - '0' as int)
    }
}

/// The number that a text denotes: decimal digits, at least one, after at
/// most one sign, with a value that a 64-bit integer holds. Any other text
/// denotes none.
pub open spec fn integer_of(text: Seq<char>) -> Option<int> {
    let signed = text.len() > 0 && (text[0] == '-' || text[0] == '+');
    let digits = if signed {
        text.skip(1)
    } else {
        text
    };
    let value = if signed && text[0] == '-' {
        -digits_value(digits)
    } else {
        digits_value(digits)
    };
    if digits.len() > 0 && all_digits(digits) && i64::MIN <= value <= i64::MAX {
        Some(value)
    } else {
        None
    }
}

/// The seconds that a unit of time stands for: `sec`, `min`, `hrs` or `day`.
/// Any other text stands for none.
pub open spec fn unit_seconds(unit: Seq<char>) -> Option<int> {
    if unit == "sec"@ {
        Some(1)
    } else if unit == "min"@ {
        Some(60)
    } else if unit == "hrs"@ {
        Some(3600)
    } else if unit == "day"@ {
        Some(86400)
    } else {
        None
    }
}

/// The validity window, in seconds, that a setting such as `60min` asks
/// for: a number followed by a unit of three letters. A setting that is
/// shorter than a unit, whose number or unit cannot be read, or whose window
/// does not fit into a 64-bit integer, asks for the default window.
pub open spec fn validity_of(setting: Seq<char>) -> int {
    if setting.len() < 3 {
        DEFAULT_VALIDITY as int
    } else {
        let number = integer_of(setting.take(setting.len() - 3));
        let unit = unit_seconds(setting.skip(setting.len() - 3));
        if number.is_some() && unit.is_some() && i64::MIN <= number->0 * unit->0 <= i64::MAX {
            number->0 * unit->0
        } else {
            DEFAULT_VALIDITY as int
        }
    }
}

/// A text of digits denotes no less than any of its beginnings, and neither
/// is negative.
proof fn lemma_digits_value_grows(text: Seq<char>, k: int)
    requires
        all_digits(text),
        0 <= k <= text.len(),
    ensures
        0 <= digits_value(text.take(k)) <= digits_value(text),
    decreases text.len(),
{
    if text.len() == 0 {
    } else if k == text.len() {
        assert(text.take(k) =~= text);
        lemma_digits_value_grows(text.drop_last(), k - 1);
    } else {
        assert(text.drop_last().take(k) =~= text.take(k));
        lemma_digits_value_grows(text.drop_last(), k);
    }
}

/// The characters of a text.
fn chars_of(text: &str) -> (chars: Vec<char>)
    ensures
        chars@ == text@,
{
    let len = text.unicode_len();
    let mut chars: Vec<char> = Vec::new();
    let mut i: usize = 0;
    while i < len
        invariant
            i <= len,
            len == text@.len(),
            chars@ == text@.take(i as int),
        decreases len - i,
    {
        chars.push(text.get_char(i));
        i += 1;
    }
    chars
}

/// The number that the first `end` characters denote, where they denote one.
fn parse_integer(chars: &Vec<char>, end: usize) -> (number: Option<i64>)
    requires
        end <= chars.len(),
    ensures
        match number {
            Some(n) => integer_of(chars@.take(end as int)) == Some(n as int),
            None => integer_of(chars@.take(end as int)).is_none(),
        },
{
    let ghost text = chars@.take(end as int);
    if end == 0 {
        return None;
    }
    let negative = chars[0] == '-';
    let start: usize = if chars[0] == '-' || chars[0] == '+' {
        1
    } else {
        0
    };
    let ghost digits = text.skip(start as int);
    if start == end {
        return None;
    }
    let limit: i128 = 9_223_372_036_854_775_808;
    let mut magnitude: i128 = 0;
    let mut i: usize = start;
    while i < end
        invariant
            start <= i <= end,
            end <= chars.len(),
            text == chars@.take(end as int),
            text.len() == end,
            start == (if text[0] == '-' || text[0] == '+' {
                1int
            } else {
                0int
            }),
            digits == text.skip(start as int),
            start == 0 ==> digits == text,
            digits.len() == end - start,
            limit == 9_223_372_036_854_775_808,
            all_digits(digits.take(i - start)),
            magnitude == digits_value(digits.take(i - start)),
            0 <= magnitude <= limit,
        decreases end - i,
    {
        let c = chars[i];
        if c < '0' || c > '9' {
            assert(!is_digit(digits[i - start]));
            return None;
        }
        let digit: i128 = (c as u32 - '0' as u32) as i128;
        magnitude = magnitude * 10 + digit;
        proof {
            assert(digits.take(i + 1 - start).drop_last() =~= digits.take(i - start));
        }
        if magnitude > limit {
            proof {
                if all_digits(digits) {
                    lemma_digits_value_grows(digits, i + 1 - start);
                }
            }
            return None;
        }
        i += 1;
    }
    proof {
        assert(digits.take(end - start) =~= digits);
    }
    let value: i128 = if negative {
        -magnitude
    } else {
        magnitude
    };
    if value < -9_223_372_036_854_775_808 || value > 9_223_372_036_854_775_807 {
        None
    } else {
        Some(value as i64)
    }
}

/// The validity window, in seconds, that a setting such as `60min` asks for.
pub fn parse_validity(setting: &str) -> (seconds: i64)
    ensures
        seconds == validity_of(setting@),
{
    let chars = chars_of(setting);
    let len = chars.len();
    if len < 3 {
        return DEFAULT_VALIDITY;
    }
    let ghost unit = setting@.skip(len - 3);
    proof {
        reveal_strlit("sec");
        reveal_strlit("min");
        reveal_strlit("hrs");
        reveal_strlit("day");
        assert(unit =~= seq![unit[0], unit[1], unit[2]]);
        assert("sec"@ =~= seq!['s', 'e', 'c']);
        assert("min"@ =~= seq!['m', 'i', 'n']);
        assert("hrs"@ =~= seq!['h', 'r', 's']);
        assert("day"@ =~= seq!['d', 'a', 'y']);
    }
    let a = chars[len - 3];
    let b = chars[len - 2];
    let c = chars[len - 1];
    let factor: i64 = if a == 's' && b == 'e' && c == 'c' {
        1
    } else if a == 'm' && b == 'i' && c == 'n' {
        60
    } else if a == 'h' && b == 'r' && c == 's' {
        60 * 60
    } else if a == 'd' && b == 'a' && c == 'y' {
        60 * 60 * 24
    } else {
        return DEFAULT_VALIDITY;
    };
    match parse_integer(&chars, len - 3) {
        Some(number) => match number.checked_mul(factor) {
            Some(seconds) => seconds,
            None => DEFAULT_VALIDITY,
        },
        None => DEFAULT_VALIDITY,
    }
}

} // verus!
