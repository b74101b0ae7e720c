//! Points in time, and the RFC 3339 texts under which the history stores them.

use crate::error::{ErrorView, StoreError};
use vstd::prelude::*;
use vstd::string::*;

verus! {

/// The first second of the earliest day that `chrono` can hold, 1 January of
/// the year -262143.
pub const MIN_SECS: i64 = -8_334_601_228_800;

/// The last second of the latest day that `chrono` can hold, 31 December of
/// the year 262142.
pub const MAX_SECS: i64 = 8_210_266_876_799;

/// The first second of the year 0.
pub const YEAR_0_SECS: i64 = -62_167_219_200;

/// The last second of the year 9999.
pub const YEAR_9999_SECS: i64 = 253_402_300_799;

/// A point in time: whole seconds since the start of 1970 in UTC, leap
/// seconds left out, and nanoseconds within the second. Within a leap second
/// the nanoseconds run on past one billion.
pub struct Instant {
    pub secs: int,
    pub nanos: int,
}

impl Instant {
    /// Whether a `chrono::DateTime<Utc>` can hold the instant.
    pub open spec fn in_range(self) -> bool {
        &&& MIN_SECS <= self.secs <= MAX_SECS
        &&& 0 <= self.nanos < 2_000_000_000
        &&& self.nanos >= 1_000_000_000 ==> self.secs % 60 == 59
    }

    /// Whether the instant lies in the years 0 to 9999, which are those that
    /// RFC 3339 has a form for.
    pub open spec fn has_rfc3339_form(self) -> bool {
        &&& self.in_range()
        &&& YEAR_0_SECS <= self.secs <= YEAR_9999_SECS
    }

    /// Whether the instant comes before `other`.
    pub open spec fn before(self, other: Instant) -> bool {
        self.secs < other.secs || (self.secs == other.secs && self.nanos < other.nanos)
    }

    /// The text that stands for the instant in the history.
    pub open spec fn text(self) -> Seq<char> {
        rfc3339_text(self.secs, self.nanos)
    }

    /// Whether `text` is the text of the instant, reads as the instant again,
    /// and sorts among the texts of other instants as the instant does among
    /// them.
    pub open spec fn faithfully_written(self, text: Seq<char>) -> bool {
        &&& self.has_rfc3339_form()
        &&& text == self.text()
        &&& read_instant(text) == Some(self)
        &&& forall|other: Instant|
            #![trigger other.text()]
            other.has_rfc3339_form() ==> (crate::text::text_before(text, other.text())
                <==> self.before(other))
    }
}

/// What `chrono`'s `DateTime::<Utc>::to_rfc3339` writes for the instant with
/// these seconds and nanoseconds.
pub uninterp spec fn rfc3339_text(secs: int, nanos: int) -> Seq<char>;

/// The seconds and nanoseconds of the instant that `chrono`'s
/// `DateTime::parse_from_rfc3339` reads in a text, if it accepts the text.
pub uninterp spec fn rfc3339_instant(text: Seq<char>) -> Option<(int, int)>;

/// The instant that a stored text stands for, if it stands for one.
pub open spec fn read_instant(text: Seq<char>) -> Option<Instant> {
    match rfc3339_instant(text) {
        Some((secs, nanos)) => Some(Instant { secs, nanos }),
        None => None,
    }
}

/// The error of `chrono`'s parsers.
#[verifier::external_type_specification]
#[verifier::external_body]
pub struct ExParseError(chrono::ParseError);

/// Calls `chrono::DateTime::<Utc>::to_rfc3339` on the moment that
/// `from_timestamp` makes of the two numbers. The text is a function of the
/// numbers. In the years 0 to 9999 it is made of digit groups of fixed width,
/// from the year down to the second, then an optional fraction of three, six
/// or nine digits and `+00:00`. So `parse_from_rfc3339` reads the same moment
/// in it, and, as `+` sorts before `.` and `.` before the digits, two such
/// texts sort as their moments do.
#[verifier::external_body]
fn format_rfc3339(secs: i64, nanos: u32) -> (text: String)
    requires
        (Instant { secs: secs as int, nanos: nanos as int }).in_range(),
    ensures
        text@ == rfc3339_text(secs as int, nanos as int),
        (Instant { secs: secs as int, nanos: nanos as int }).has_rfc3339_form()
            ==> rfc3339_instant(text@) == Some((secs as int, nanos as int)),
        (Instant { secs: secs as int, nanos: nanos as int }).has_rfc3339_form() ==> forall|
            other: Instant,
        |
            #![trigger other.text()]
            other.has_rfc3339_form() ==> (crate::text::text_before(text@, other.text())
                <==> (Instant { secs: secs as int, nanos: nanos as int }).before(other)),
{
    chrono::DateTime::<chrono::Utc>::from_timestamp(secs, nanos).unwrap().to_rfc3339()
}

/// Calls `chrono::DateTime::parse_from_rfc3339` and hands out the seconds and
/// nanoseconds of the moment in UTC, which a `chrono::DateTime<Utc>` can
/// always hold. The outcome is a function of the text.
#[verifier::external_body]
fn scan_rfc3339(raw: &str) -> (scanned: Result<(i64, u32), chrono::ParseError>)
    ensures
        match scanned {
            Ok((secs, nanos)) => {
                &&& rfc3339_instant(raw@) == Some((secs as int, nanos as int))
                &&& (Instant { secs: secs as int, nanos: nanos as int }).in_range()
            },
            Err(_) => rfc3339_instant(raw@) is None,
        },
{
    match chrono::DateTime::parse_from_rfc3339(raw) {
        Ok(moment) => {
            let utc = moment.with_timezone(&chrono::Utc);
            Ok((utc.timestamp(), utc.timestamp_subsec_nanos()))
        }
        Err(error) => Err(error),
    }
}

/// A point in time that `chrono` can hold.
#[derive(Debug, Clone, Copy, PartialEq, Eq)]
pub struct Timestamp {
    secs: i64,
    nanos: u32,
}

impl View for Timestamp {
    type V = Instant;

    closed spec fn view(&self) -> Instant {
        Instant { secs: self.secs as int, nanos: self.nanos as int }
    }
}

impl Timestamp {
    #[verifier::type_invariant]
    closed spec fn holds_range(self) -> bool {
        self@.in_range()
    }

    /// The timestamp with these seconds since the start of 1970 and these
    /// nanoseconds, if `chrono` can hold it.
    pub fn new(secs: i64, nanos: u32) -> (made: Option<Timestamp>)
        ensures
            match made {
                Some(timestamp) => timestamp@ == (Instant {
                    secs: secs as int,
                    nanos: nanos as int,
                }) && timestamp@.in_range(),
                None => !(Instant { secs: secs as int, nanos: nanos as int }).in_range(),
            },
            made is Some <==> {
                &&& -8_334_601_228_800 <= secs <= 8_210_266_876_799
                &&& nanos < 2_000_000_000
                &&& nanos >= 1_000_000_000 ==> (secs as int) % 60 == 59
            },
            made is Some ==> made->0@.secs == secs && made->0@.nanos == nanos,
    {
        if secs < MIN_SECS || secs > MAX_SECS || nanos >= 2_000_000_000 {
            return None;
        }
        if nanos >= 1_000_000_000 && (secs - MIN_SECS) % 60 != 59 {
            return None;
        }
        Some(Timestamp { secs, nanos })
    }

    /// The whole seconds since the start of 1970.
    pub fn secs(&self) -> (secs: i64)
        ensures
            secs == self@.secs,
            self@.in_range(),
    {
        proof {
            use_type_invariant(self);
        }
        self.secs
    }

    /// The nanoseconds within the second.
    pub fn nanos(&self) -> (nanos: u32)
        ensures
            nanos == self@.nanos,
            self@.in_range(),
    {
        proof {
            use_type_invariant(self);
        }
        self.nanos
    }

    /// The text under which the history stores the timestamp.
    pub fn to_rfc3339(&self) -> (text: String)
        ensures
            text@ == self@.text(),
            self@.has_rfc3339_form() ==> self@.faithfully_written(text@),
            text@ == rfc3339_text(self@.secs, self@.nanos),
            -62_167_219_200 <= self@.secs <= 253_402_300_799 ==> rfc3339_instant(text@) == Some(
                (self@.secs, self@.nanos),
            ),
    {
        proof {
            use_type_invariant(self);
        }
        format_rfc3339(self.secs, self.nanos)
    }
}

/// The timestamp that `raw` stands for, if it is in RFC 3339 form.
pub(crate) fn read_timestamp(raw: &str) -> (read: Option<Timestamp>)
    ensures
        match read {
            Some(timestamp) => read_instant(raw@) == Some(timestamp@),
            None => read_instant(raw@) is None,
        },
{
    match scan_rfc3339(raw) {
        Ok((secs, nanos)) => Some(Timestamp { secs, nanos }),
        Err(_) => None,
    }
}

/// The timestamp that was read in `raw`, or the error that tells of `raw`
/// where none could be read.
pub fn checked_timestamp(raw: &str, read: Option<Timestamp>) -> (checked: Result<
    Timestamp,
    StoreError,
>)
    ensures
        match checked {
            Ok(timestamp) => read == Some(timestamp),
            Err(error) => read is None && error@ == (ErrorView::InvalidTimestamp { raw: raw@ }),
        },
        checked matches Err(error) ==> error is InvalidTimestamp && error->raw@ == raw@,
{
    match read {
        Some(timestamp) => Ok(timestamp),
        None => Err(StoreError::InvalidTimestamp { raw: raw.to_owned() }),
    }
}

/// Reads a stored timestamp.
pub fn parse_rfc3339(raw: &str) -> (parsed: Result<Timestamp, StoreError>)
    ensures
        match parsed {
            Ok(timestamp) => read_instant(raw@) == Some(timestamp@),
            Err(error) => {
                &&& read_instant(raw@) is None
                &&& error@ == (ErrorView::InvalidTimestamp { raw: raw@ })
            },
        },
        parsed is Ok <==> rfc3339_instant(raw@) is Some,
        parsed matches Ok(timestamp) ==> rfc3339_instant(raw@) == Some(
            (timestamp@.secs, timestamp@.nanos),
        ),
        parsed matches Err(error) ==> error is InvalidTimestamp && error->raw@ == raw@,
{
    checked_timestamp(raw, read_timestamp(raw))
}

/// Texts that the store wrote sort as the instants do that they stand for.
pub proof fn law_written_texts_sort_by_time(
    a: Instant,
    text_a: Seq<char>,
    b: Instant,
    text_b: Seq<char>,
)
    requires
        a.faithfully_written(text_a),
        b.faithfully_written(text_b),
    ensures
        crate::text::text_before(text_a, text_b) <==> a.before(b),
        text_a == text_b <==> a == b,
        crate::text::text_before(text_a, text_b) <==> a.secs < b.secs || (a.secs == b.secs
            && a.nanos < b.nanos),
{
    assert(crate::text::text_before(text_a, b.text()) <==> a.before(b));
}

/// A text that faithfully stands for an instant is what `chrono` writes for it,
/// and `chrono` reads the instant back from it. Only instants of the years 0 to
/// 9999 have one.
pub proof fn law_written_text_reads_back(at: Instant, text: Seq<char>)
    requires
        at.faithfully_written(text),
    ensures
        text == rfc3339_text(at.secs, at.nanos),
        rfc3339_instant(text) == Some((at.secs, at.nanos)),
        -62_167_219_200 <= at.secs <= 253_402_300_799,
{
}

/// Every instant that `chrono` can hold and that lies in the years 0 to 9999
/// has an RFC 3339 form, and no other has one.
pub proof fn law_years_with_rfc3339_form(at: Instant)
    ensures
        at.in_range() <==> {
            &&& -8_334_601_228_800 <= at.secs <= 8_210_266_876_799
            &&& 0 <= at.nanos < 2_000_000_000
            &&& at.nanos < 1_000_000_000 || at.secs % 60 == 59
        },
        at.has_rfc3339_form() <==> at.in_range() && -62_167_219_200 <= at.secs <= 253_402_300_799,
{
}

/// Instants are ordered as the nanoseconds are that passed until then, with two
/// billion counted to a second to make room for a leap second.
pub proof fn law_instants_are_ordered_by_time(a: Instant, b: Instant)
    requires
        0 <= a.nanos < 2_000_000_000,
        0 <= b.nanos < 2_000_000_000,
    ensures
        a.before(b) <==> a.secs * 2_000_000_000 + a.nanos < b.secs * 2_000_000_000 + b.nanos,
{
}

/// A stored text stands for an instant exactly if `chrono` reads one in it, and
/// for that one.
pub proof fn law_stored_text_stands_for_what_chrono_reads(text: Seq<char>)
    ensures
        read_instant(text) is Some <==> rfc3339_instant(text) is Some,
        read_instant(text) matches Some(at) ==> rfc3339_instant(text) == Some((at.secs, at.nanos)),
{
}

} // verus!
