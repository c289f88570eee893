//! The validator: a wire packet becomes a reading once each of its three
//! timestamps is an instant of the local calendar.

use crate::wire::TelemetryPacket;
use chrono::{Local, LocalResult, TimeZone};
use vstd::prelude::*;

verus! {

/// Seconds in one day of the calendar, which has no leap seconds.
pub const SECONDS_PER_DAY: i64 = 86_400;

/// First day of the calendar, 1 January of the year -262143, counted in days
/// from 1 January 1970.
pub const FIRST_DAY: i64 = -96_465_292;

/// Last day of the calendar, 31 December of the year 262142, counted in days
/// from 1 January 1970.
pub const LAST_DAY: i64 = 95_026_236;

/// First second of the calendar: midnight UTC opening its first day.
pub const MIN_UNIX_SECONDS: i64 = FIRST_DAY * SECONDS_PER_DAY;

/// Last second of the calendar: the one before midnight UTC closing its last day.
pub const MAX_UNIX_SECONDS: i64 = LAST_DAY * SECONDS_PER_DAY + (SECONDS_PER_DAY - 1);

/// Whether a count of unix seconds is an instant of the local calendar.
pub open spec fn representable(secs: int) -> bool {
    MIN_UNIX_SECONDS <= secs <= MAX_UNIX_SECONDS
}

/// What the local time zone makes of a count of unix seconds. Each instant
/// is given by its unix seconds.
#[derive(Clone, Copy, Debug, PartialEq, Eq, Structural)]
pub enum LocalMapping {
    /// Exactly one instant.
    Single(i64),
    /// Two candidate instants, the earliest first.
    Ambiguous(i64, i64),
    /// No instant: the count lies outside the calendar.
    Absent,
}

impl LocalMapping {
    /// The earliest instant of the mapping, if it has any.
    pub open spec fn earliest_spec(self) -> Option<i64> {
        match self {
            LocalMapping::Single(t) => Some(t),
            LocalMapping::Ambiguous(first, _) => Some(first),
            LocalMapping::Absent => None,
        }
    }

    /// Resolves the mapping to its earliest instant, so that an ambiguous
    /// count always resolves the same way.
    pub fn earliest(self) -> (r: Option<i64>)
        ensures
            r == self.earliest_spec(),
    {
        match self {
            LocalMapping::Single(t) => Some(t),
            LocalMapping::Ambiguous(first, _) => Some(first),
            LocalMapping::Absent => None,
        }
    }
}

/// Asks chrono for the local time at `secs` whole seconds after the unix epoch:
/// `TimeZone::timestamp_opt` on `Local`, with zero nanoseconds. Each time
/// that comes back is handed on as its `timestamp()`.
///
/// Trusted, from chrono's source and documentation: the call answers `None`
/// exactly when `secs` falls on a day outside chrono's calendar, which runs
/// from `NaiveDate::MIN` to `NaiveDate::MAX`, here [`FIRST_DAY`] and
/// [`LAST_DAY`]; otherwise it always answers `Single`, with a time whose
/// `timestamp()` is `secs` again. The zone's offset plays no part in either.
/// The offset is looked up from the host's zone data, and chrono panics
/// where that lookup fails: on Unix only if the data gives an offset of a
/// whole day or more, which no zone of the IANA database does.
#[verifier::external_body]
fn local_timestamp_opt(secs: i64) -> (r: LocalMapping)
    ensures
        representable(secs as int) ==> r == LocalMapping::Single(secs),
        !representable(secs as int) ==> r == LocalMapping::Absent,
{
    match Local.timestamp_opt(secs, 0) {
        LocalResult::Single(t) => LocalMapping::Single(t.timestamp()),
        LocalResult::Ambiguous(first, second) => LocalMapping::Ambiguous(
            first.timestamp(),
            second.timestamp(),
        ),
        LocalResult::None => LocalMapping::Absent,
    }
}

/// An instant of the local calendar, to the second.
///
/// Every value is representable: there is no way to make one that is not.
#[derive(Clone, Copy, Debug, PartialEq, Eq, Structural)]
pub struct ReadingTime {
    unix_seconds: i64,
}

impl View for ReadingTime {
    type V = int;

    /// The instant as unix seconds.
    closed spec fn view(&self) -> int {
        self.unix_seconds as int
    }
}

impl ReadingTime {
    #[verifier::type_invariant]
    spec fn in_calendar(self) -> bool {
        representable(self.unix_seconds as int)
    }

    /// The instant at `secs` unix seconds.
    pub closed spec fn at(secs: int) -> ReadingTime {
        ReadingTime { unix_seconds: secs as i64 }
    }

    /// An instant is known by its unix seconds.
    pub proof fn lemma_at_view(self)
        ensures
            ReadingTime::at(self@) == self,
    {
    }

    /// The instant at `secs` has `secs` unix seconds.
    pub proof fn lemma_view_at(secs: int)
        requires
            representable(secs),
        ensures
            ReadingTime::at(secs)@ == secs,
    {
    }

    /// The instant at `secs` unix seconds, if the local calendar has one.
    pub fn from_unix(secs: i64) -> (r: Option<ReadingTime>)
        ensures
            representable(secs as int) ==> r == Some(ReadingTime::at(secs as int)),
            !representable(secs as int) ==> r.is_none(),
            r matches Some(time) ==> time@ == secs,
    {
        match local_timestamp_opt(secs).earliest() {
            Some(t) => Some(ReadingTime { unix_seconds: t }),
            None => None,
        }
    }

    /// The instant as unix seconds.
    pub fn timestamp(&self) -> (r: i64)
        ensures
            r == self@,
            representable(r as int),
    {
        proof {
            use_type_invariant(self);
        }
        self.unix_seconds
    }
}

/// One measurement with the instant at which it was taken: the bit pattern
/// of the measured value, as on the wire, and then the instant.
pub type TimedReading = (u64, ReadingTime);

/// A validated reading: both measurements with their instants, and the
/// instant at which the packet that carried them was complete and sent.
#[derive(Clone, Copy, Debug, PartialEq, Eq)]
pub struct ParsedTelemetry {
    /// The pH measurement.
    pub ph: TimedReading,
    /// The TDS measurement.
    pub tds: TimedReading,
    /// When the packet was sent.
    pub time: ReadingTime,
}

/// Which timestamp of a packet is not an instant of the local calendar.
#[derive(Clone, Copy, Debug, PartialEq, Eq, Structural)]
pub enum ValidationError {
    InvalidPhTimestamp,
    InvalidTdsTimestamp,
    InvalidPacketTimestamp,
}

impl ValidationError {
    /// The text of the error.
    pub open spec fn text(self) -> Seq<char> {
        match self {
            ValidationError::InvalidPhTimestamp => "Invalid pH timestamp in raw packet."@,
            ValidationError::InvalidTdsTimestamp => "Invalid TDS timestamp in raw packet."@,
            ValidationError::InvalidPacketTimestamp => "Invalid packet timestamp."@,
        }
    }

    /// The text of the error, for a log or a reply.
    pub fn message(&self) -> (r: &'static str)
        ensures
            r@ == self.text(),
    {
        match self {
            ValidationError::InvalidPhTimestamp => "Invalid pH timestamp in raw packet.",
            ValidationError::InvalidTdsTimestamp => "Invalid TDS timestamp in raw packet.",
            ValidationError::InvalidPacketTimestamp => "Invalid packet timestamp.",
        }
    }
}

/// What validation makes of a packet: the timestamps are tested in the order
/// pH, TDS, packet, and the first that fails names the error.
pub open spec fn validated(raw: TelemetryPacket) -> Result<ParsedTelemetry, ValidationError> {
    if !representable(raw.ph_timestamp as int) {
        Err(ValidationError::InvalidPhTimestamp)
    } else if !representable(raw.tds_timestamp as int) {
        Err(ValidationError::InvalidTdsTimestamp)
    } else if !representable(raw.packet_timestamp as int) {
        Err(ValidationError::InvalidPacketTimestamp)
    } else {
        Ok(
            ParsedTelemetry {
                ph: (raw.ph, ReadingTime::at(raw.ph_timestamp as int)),
                tds: (raw.tds, ReadingTime::at(raw.tds_timestamp as int)),
                time: ReadingTime::at(raw.packet_timestamp as int),
            },
        )
    }
}

impl ParsedTelemetry {
    /// Whether the three instants of the reading are instants of the local
    /// calendar. Every reading that the program holds is valid; a reading that
    /// a specification merely speaks of has to be said to be.
    pub open spec fn valid(self) -> bool {
        &&& representable(self.ph.1@)
        &&& representable(self.tds.1@)
        &&& representable(self.time@)
    }

    /// The packet that validates to this reading: the measurements as they
    /// are, and each instant as its unix seconds.
    pub open spec fn packet(self) -> TelemetryPacket {
        TelemetryPacket {
            ph: self.ph.0,
            ph_timestamp: self.ph.1@ as i64,
            tds: self.tds.0,
            tds_timestamp: self.tds.1@ as i64,
            packet_timestamp: self.time@ as i64,
        }
    }

    /// A reading comes back from its packet: validation undoes `packet`.
    pub proof fn lemma_validated_packet(self)
        requires
            self.valid(),
        ensures
            validated(self.packet()) == Ok::<ParsedTelemetry, ValidationError>(self),
    {
        self.ph.1.lemma_at_view();
        self.tds.1.lemma_at_view();
        self.time.lemma_at_view();
    }

    /// A validated packet comes back from its reading: `packet` undoes validation.
    pub proof fn lemma_packet_validated(raw: TelemetryPacket)
        requires
            validated(raw) is Ok,
        ensures
            validated(raw)->Ok_0.valid(),
            validated(raw)->Ok_0.packet() == raw,
    {
        ReadingTime::lemma_view_at(raw.ph_timestamp as int);
        ReadingTime::lemma_view_at(raw.tds_timestamp as int);
        ReadingTime::lemma_view_at(raw.packet_timestamp as int);
    }

    /// Turns the reading back into its packet, the shape in which it is stored.
    pub fn to_packet(&self) -> (r: TelemetryPacket)
        ensures
            self.valid(),
            r == self.packet(),
    {
        TelemetryPacket {
            ph: self.ph.0,
            ph_timestamp: self.ph.1.timestamp(),
            tds: self.tds.0,
            tds_timestamp: self.tds.1.timestamp(),
            packet_timestamp: self.time.timestamp(),
        }
    }
}

impl TryFrom<&TelemetryPacket> for ParsedTelemetry {
    type Error = ValidationError;

    /// Validates a packet. The measurements pass through untouched.
    fn try_from(raw: &TelemetryPacket) -> (r: Result<ParsedTelemetry, ValidationError>)
        ensures
            r == validated(*raw),
            r matches Ok(reading) ==> reading.valid() && reading.packet() == *raw,
            representable(raw.ph_timestamp as int) && representable(raw.tds_timestamp as int)
                && representable(raw.packet_timestamp as int) ==> {
                &&& r is Ok
                &&& r->Ok_0.ph.0 == raw.ph
                &&& r->Ok_0.tds.0 == raw.tds
            },
            !representable(raw.ph_timestamp as int) ==> r == Err::<
                ParsedTelemetry,
                ValidationError,
            >(ValidationError::InvalidPhTimestamp),
    {
        proof {
            if validated(*raw) is Ok {
                ParsedTelemetry::lemma_packet_validated(*raw);
            }
        }
        let ph_time = ReadingTime::from_unix(raw.ph_timestamp);
        let tds_time = ReadingTime::from_unix(raw.tds_timestamp);
        let sent_time = ReadingTime::from_unix(raw.packet_timestamp);
        match (ph_time, tds_time, sent_time) {
            (None, _, _) => Err(ValidationError::InvalidPhTimestamp),
            (_, None, _) => Err(ValidationError::InvalidTdsTimestamp),
            (_, _, None) => Err(ValidationError::InvalidPacketTimestamp),
            (Some(ph), Some(tds), Some(sent)) => Ok(
                ParsedTelemetry { ph: (raw.ph, ph), tds: (raw.tds, tds), time: sent },
            ),
        }
    }
}

impl vstd::std_specs::convert::TryFromSpecImpl<&TelemetryPacket> for ParsedTelemetry {
    open spec fn obeys_try_from_spec() -> bool {
        true
    }

    open spec fn try_from_spec(raw: &TelemetryPacket) -> Result<ParsedTelemetry, ValidationError> {
        validated(*raw)
    }
}

} // verus!
