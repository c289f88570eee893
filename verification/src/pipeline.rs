//! The two paths through the pipeline: a payload comes in and is stored or
//! turned away; a window is asked for and one metric's series comes out.

use crate::analysis::{project, projection, Metric};
use crate::parsing::{validated, ParsedTelemetry, ReadingTime, TimedReading, ValidationError};
use crate::store::{range_query, CorruptionError, DatabaseCtx};
use crate::window::{cutoff, PlotTimeUnit};
use crate::wire::{decode, decoding, DecodeError, TelemetryPacket};
use vstd::prelude::*;

verus! {

/// Why a payload was turned away.
#[derive(Clone, Copy, Debug, PartialEq, Eq, Structural)]
pub enum RejectReason {
    /// The payload is not a packet.
    Undecodable(DecodeError),
    /// The payload is a packet, and one of its timestamps is invalid.
    Invalid(ValidationError),
}

/// What ingestion makes of a payload: the reading it carries, or why it
/// carries none. The length is judged first, then the timestamps.
pub open spec fn ingested(body: Seq<u8>) -> Result<ParsedTelemetry, RejectReason> {
    if body.len() != 40 {
        Err(
            RejectReason::Undecodable(
                DecodeError::LengthMismatch { expected: 40, actual: body.len() as usize },
            ),
        )
    } else {
        match validated(decoding(body)) {
            Ok(reading) => Ok(reading),
            Err(e) => Err(RejectReason::Invalid(e)),
        }
    }
}

/// Decodes and validates one payload.
pub fn parse_packet(body: &[u8]) -> (r: Result<ParsedTelemetry, RejectReason>)
    ensures
        r == ingested(body@),
{
    match decode(body) {
        Err(e) => Err(RejectReason::Undecodable(e)),
        Ok(raw) => match ParsedTelemetry::try_from(&raw) {
            Err(e) => Err(RejectReason::Invalid(e)),
            Ok(reading) => Ok(reading),
        },
    }
}

/// Takes in one payload: a payload that decodes and validates is appended to
/// the relation as one row, which is handed back; any other is turned away
/// and the relation stays as it was.
pub fn post_packets(db: &mut DatabaseCtx, body: &[u8]) -> (r: Result<TelemetryPacket, RejectReason>)
    ensures
        match ingested(body@) {
            Ok(reading) => {
                &&& r == Ok::<TelemetryPacket, RejectReason>(decoding(body@))
                &&& reading.packet() == decoding(body@)
                &&& final(db)@ == old(db)@.push(decoding(body@))
            },
            Err(reason) => {
                &&& r == Err::<TelemetryPacket, RejectReason>(reason)
                &&& final(db)@ == old(db)@
            },
        },
{
    match parse_packet(body) {
        Err(reason) => Err(reason),
        Ok(reading) => {
            proof {
                ParsedTelemetry::lemma_packet_validated(decoding(body@));
            }
            Ok(db.submit_readings(&reading))
        },
    }
}

/// What a window query answers: the series of `metric` over the readings
/// sent after the cutoff, or the corruption that the range query met.
pub open spec fn windowed(
    rows: Seq<TelemetryPacket>,
    now: int,
    unit: PlotTimeUnit,
    metric: Metric,
) -> Result<Seq<TimedReading>, CorruptionError> {
    match range_query(rows, now - unit.seconds()) {
        Ok(readings) => Ok(projection(readings, metric)),
        Err(e) => Err(e),
    }
}

/// The series of one metric over the window of length `unit` that ends at `now`.
pub fn get_timed_readings(
    db: &DatabaseCtx,
    now: ReadingTime,
    unit: PlotTimeUnit,
    metric: Metric,
) -> (r: Result<Vec<TimedReading>, CorruptionError>)
    ensures
        r matches Ok(series) ==> windowed(db@, now@, unit, metric) == Ok::<
            Seq<TimedReading>,
            CorruptionError,
        >(series@),
        r matches Err(e) ==> windowed(db@, now@, unit, metric) == Err::<
            Seq<TimedReading>,
            CorruptionError,
        >(e),
{
    match db.get_readings_since(cutoff(now, unit)) {
        Ok(readings) => Ok(project(&readings, metric)),
        Err(e) => Err(e),
    }
}

} // verus!
