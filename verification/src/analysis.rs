//! Projection: the time series of one metric, drawn from a run of readings.

use crate::parsing::{ParsedTelemetry, TimedReading};
use vstd::prelude::*;

verus! {

/// Which of the two measurements of a reading is meant.
#[derive(Clone, Copy, Debug, PartialEq, Eq, Structural)]
pub enum Metric {
    Ph,
    Tds,
}

impl Metric {
    /// The measurement of `reading` that this metric selects, with its own instant.
    pub open spec fn of(self, reading: ParsedTelemetry) -> TimedReading {
        match self {
            Metric::Ph => reading.ph,
            Metric::Tds => reading.tds,
        }
    }
}

/// The series of one metric: for each reading its selected measurement, in
/// the order of the readings.
pub open spec fn projection(readings: Seq<ParsedTelemetry>, metric: Metric) -> Seq<TimedReading> {
    readings.map_values(|reading: ParsedTelemetry| metric.of(reading))
}

/// The values of a series, in order.
pub open spec fn values_of(series: Seq<TimedReading>) -> Seq<u64> {
    series.map_values(|point: TimedReading| point.0)
}

/// The instants of a series as unix seconds, in order.
pub open spec fn times_of(series: Seq<TimedReading>) -> Seq<i64> {
    series.map_values(|point: TimedReading| point.1@ as i64)
}

/// Draws the series of one metric from a run of readings. The order is kept,
/// and no readings give an empty series.
pub fn project(readings: &Vec<ParsedTelemetry>, metric: Metric) -> (series: Vec<TimedReading>)
    ensures
        series@ == projection(readings@, metric),
        series@.len() == readings@.len(),
        forall|i: int| 0 <= i < readings@.len() ==> series@[i] == metric.of(#[trigger] readings@[i]),
{
    let mut series: Vec<TimedReading> = Vec::new();
    let mut i: usize = 0;
    while i < readings.len()
        invariant
            i <= readings@.len(),
            series@ == projection(readings@.take(i as int), metric),
        decreases readings@.len() - i,
    {
        let point: TimedReading = match metric {
            Metric::Ph => readings[i].ph,
            Metric::Tds => readings[i].tds,
        };
        series.push(point);
        assert(readings@.take(i + 1) =~= readings@.take(i as int).push(readings@[i as int]));
        i += 1;
    }
    assert(readings@.take(i as int) =~= readings@);
    series
}

/// Splits a series into its two columns: the values, and the instants as
/// unix seconds. Row `i` of either column belongs to point `i` of the series.
pub fn unzip(series: &Vec<TimedReading>) -> (columns: (Vec<u64>, Vec<i64>))
    ensures
        columns.0@ == values_of(series@),
        columns.1@ == times_of(series@),
{
    let mut values: Vec<u64> = Vec::new();
    let mut times: Vec<i64> = Vec::new();
    let mut i: usize = 0;
    while i < series.len()
        invariant
            i <= series@.len(),
            values@ == values_of(series@.take(i as int)),
            times@ == times_of(series@.take(i as int)),
        decreases series@.len() - i,
    {
        values.push(series[i].0);
        times.push(series[i].1.timestamp());
        assert(series@.take(i + 1) =~= series@.take(i as int).push(series@[i as int]));
        i += 1;
    }
    assert(series@.take(i as int) =~= series@);
    (values, times)
}

} // verus!
