use water_telemetry::parsing::{ReadingTime, MAX_UNIX_SECONDS, MIN_UNIX_SECONDS};
use water_telemetry::window::{cutoff, PlotTimeUnit};

#[test]
fn window_lengths_are_the_fixed_constants() {
    assert_eq!(PlotTimeUnit::Hour.to_seconds(), 3_600);
    assert_eq!(PlotTimeUnit::Day.to_seconds(), 86_400);
    assert_eq!(PlotTimeUnit::Month.to_seconds(), 2_592_000);
    assert_eq!(PlotTimeUnit::Year.to_seconds(), 31_536_000);
}

#[test]
fn window_lengths_are_multiples_of_a_day() {
    assert_eq!(PlotTimeUnit::Year.to_seconds(), 365 * 86_400);
    assert_eq!(PlotTimeUnit::Month.to_seconds(), 30 * 86_400);
    assert_eq!(PlotTimeUnit::Day.to_seconds(), 24 * PlotTimeUnit::Hour.to_seconds());
}

#[test]
fn cutoff_is_now_less_the_window() {
    let now = ReadingTime::from_unix(1_700_000_000).unwrap();
    assert_eq!(cutoff(now, PlotTimeUnit::Hour), 1_699_996_400);
    assert_eq!(cutoff(now, PlotTimeUnit::Day), 1_699_913_600);
    assert_eq!(cutoff(now, PlotTimeUnit::Month), 1_697_408_000);
    assert_eq!(cutoff(now, PlotTimeUnit::Year), 1_668_464_000);
}

#[test]
fn cutoff_may_fall_before_the_epoch_or_the_calendar() {
    let epoch = ReadingTime::from_unix(0).unwrap();
    assert_eq!(cutoff(epoch, PlotTimeUnit::Hour), -3_600);
    let first = ReadingTime::from_unix(MIN_UNIX_SECONDS).unwrap();
    assert_eq!(cutoff(first, PlotTimeUnit::Year), MIN_UNIX_SECONDS - 31_536_000);
    let last = ReadingTime::from_unix(MAX_UNIX_SECONDS).unwrap();
    assert_eq!(cutoff(last, PlotTimeUnit::Day), MAX_UNIX_SECONDS - 86_400);
}

#[test]
fn tokens_name_their_units() {
    assert_eq!(PlotTimeUnit::from_token(b"year"), Some(PlotTimeUnit::Year));
    assert_eq!(PlotTimeUnit::from_token(b"month"), Some(PlotTimeUnit::Month));
    assert_eq!(PlotTimeUnit::from_token(b"day"), Some(PlotTimeUnit::Day));
    assert_eq!(PlotTimeUnit::from_token(b"hour"), Some(PlotTimeUnit::Hour));
    assert_eq!(PlotTimeUnit::from_token("hour".as_bytes()), Some(PlotTimeUnit::Hour));
}

#[test]
fn other_tokens_name_no_unit() {
    let rejected: [&[u8]; 14] = [
        b"", b"Hour", b"HOUR", b"hours", b"hou", b" hour", b"hour ", b"week", b"minute", b"yea",
        b"years", b"Day", b"mont", b"h\x00ur",
    ];
    for token in rejected.iter() {
        assert_eq!(PlotTimeUnit::from_token(token), None);
    }
}
