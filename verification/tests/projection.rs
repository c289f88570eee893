use water_telemetry::analysis::{project, unzip, Metric};
use water_telemetry::parsing::{ParsedTelemetry, TimedReading};
use water_telemetry::wire::TelemetryPacket;

fn reading(ph: f64, ph_at: i64, tds: f64, tds_at: i64, sent_at: i64) -> ParsedTelemetry {
    let raw = TelemetryPacket {
        ph: ph.to_bits(),
        ph_timestamp: ph_at,
        tds: tds.to_bits(),
        tds_timestamp: tds_at,
        packet_timestamp: sent_at,
    };
    ParsedTelemetry::try_from(&raw).unwrap()
}

fn three_readings() -> Vec<ParsedTelemetry> {
    vec![
        reading(7.2, 100, 650.0, 101, 105),
        reading(6.9, 300, 640.5, 302, 310),
        reading(7.0, 200, 655.25, 203, 205),
    ]
}

fn pairs(series: &[TimedReading]) -> Vec<(f64, i64)> {
    series.iter().map(|point| (f64::from_bits(point.0), point.1.timestamp())).collect()
}

#[test]
fn projection_of_ph_takes_the_ph_pairs_in_order() {
    let series = project(&three_readings(), Metric::Ph);
    assert_eq!(pairs(&series), vec![(7.2, 100), (6.9, 300), (7.0, 200)]);
}

#[test]
fn projection_of_tds_takes_the_tds_pairs_in_order() {
    let series = project(&three_readings(), Metric::Tds);
    assert_eq!(pairs(&series), vec![(650.0, 101), (640.5, 302), (655.25, 203)]);
}

#[test]
fn projection_of_no_readings_is_empty() {
    assert!(project(&Vec::new(), Metric::Ph).is_empty());
    assert!(project(&Vec::new(), Metric::Tds).is_empty());
}

#[test]
fn projection_keeps_one_point_per_reading() {
    let readings = three_readings();
    let series = project(&readings, Metric::Ph);
    assert_eq!(series.len(), readings.len());
    for (point, reading) in series.iter().zip(readings.iter()) {
        assert_eq!(*point, reading.ph);
    }
}

#[test]
fn unzip_splits_a_series_into_values_and_times() {
    let series = project(&three_readings(), Metric::Tds);
    let (values, times) = unzip(&series);
    assert_eq!(values, vec![650.0f64.to_bits(), 640.5f64.to_bits(), 655.25f64.to_bits()]);
    assert_eq!(times, vec![101, 302, 203]);
    let (no_values, no_times) = unzip(&Vec::new());
    assert!(no_values.is_empty());
    assert!(no_times.is_empty());
}
