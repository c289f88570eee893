//! The relation of persisted readings: rows are appended and never changed,
//! and a range query hands back the readings sent after a cutoff.

use crate::parsing::{validated, ParsedTelemetry, ValidationError, MIN_UNIX_SECONDS};
use crate::wire::TelemetryPacket;
use vstd::prelude::*;

verus! {

/// A persisted row that no longer validates.
#[derive(Clone, Copy, Debug, PartialEq, Eq, Structural)]
pub struct CorruptionError {
    /// Position of the row in the relation.
    pub row: usize,
    /// What is wrong with it.
    pub cause: ValidationError,
}

/// The rows sent after `since`, in the order of the relation.
pub open spec fn sent_after(rows: Seq<TelemetryPacket>, since: int) -> Seq<TelemetryPacket> {
    rows.filter(|row: TelemetryPacket| row.packet_timestamp > since)
}

/// The readings sent after `since`, in the order given.
pub open spec fn readings_sent_after(readings: Seq<ParsedTelemetry>, since: int) -> Seq<
    ParsedTelemetry,
> {
    readings.filter(|reading: ParsedTelemetry| reading.time@ > since)
}

/// The readings that rows validate to, row by row. Of a row that does not
/// validate this says nothing.
pub open spec fn readings_of(rows: Seq<TelemetryPacket>) -> Seq<ParsedTelemetry> {
    rows.map_values(|row: TelemetryPacket| validated(row)->Ok_0)
}

/// The rows under which readings are persisted, reading by reading.
pub open spec fn rows_of(readings: Seq<ParsedTelemetry>) -> Seq<TelemetryPacket> {
    readings.map_values(|reading: ParsedTelemetry| reading.packet())
}

/// Whether row `i` is one that a query after `since` selects and cannot validate.
pub open spec fn corrupt_at(rows: Seq<TelemetryPacket>, since: int, i: int) -> bool {
    &&& 0 <= i < rows.len()
    &&& rows[i].packet_timestamp > since
    &&& validated(rows[i]) is Err
}

/// Whether row `i` is the first that a query after `since` selects and cannot validate.
pub open spec fn first_corrupt_at(rows: Seq<TelemetryPacket>, since: int, i: int) -> bool {
    &&& corrupt_at(rows, since, i)
    &&& forall|j: int| 0 <= j < i ==> !corrupt_at(rows, since, j)
}

/// What a range query answers on a relation: the readings of the rows sent
/// after `since`, in the order of the relation; or, where one of those rows
/// does not validate, the first such row and what is wrong with it.
pub open spec fn range_query(rows: Seq<TelemetryPacket>, since: int) -> Result<
    Seq<ParsedTelemetry>,
    CorruptionError,
> {
    if exists|i: int| corrupt_at(rows, since, i) {
        let first = choose|i: int| first_corrupt_at(rows, since, i);
        Err(CorruptionError { row: first as usize, cause: validated(rows[first])->Err_0 })
    } else {
        Ok(readings_of(sent_after(rows, since)))
    }
}

/// The relation of persisted readings, in the order in which they were
/// appended. Each row holds a reading in its wire shape: the two measurements
/// and the three instants as unix seconds. Rows are only ever appended; none
/// is changed or removed.
///
/// The relation is held in memory. Keeping it on disk is the caller's part:
/// each submission hands back the row to persist, and [`DatabaseCtx::from_rows`]
/// takes the rows that were read back.
pub struct DatabaseCtx {
    rows: Vec<TelemetryPacket>,
}

impl View for DatabaseCtx {
    type V = Seq<TelemetryPacket>;

    /// The rows, in the order in which they were appended.
    closed spec fn view(&self) -> Seq<TelemetryPacket> {
        self.rows@
    }
}

impl DatabaseCtx {
    /// The empty relation.
    pub fn new() -> (r: DatabaseCtx)
        ensures
            r@ == Seq::<TelemetryPacket>::empty(),
    {
        DatabaseCtx { rows: Vec::new() }
    }

    /// The relation that holds the given rows, as read back from where they
    /// are kept. Nothing is tested here: a row that does not validate is
    /// found when a query selects it.
    pub fn from_rows(rows: Vec<TelemetryPacket>) -> (r: DatabaseCtx)
        ensures
            r@ == rows@,
    {
        DatabaseCtx { rows }
    }

    /// How many rows the relation holds.
    pub fn len(&self) -> (n: usize)
        ensures
            n == self@.len(),
    {
        self.rows.len()
    }

    /// Appends one reading as one row, and hands the row back for the caller
    /// to persist. No other row changes.
    pub fn submit_readings(&mut self, packet: &ParsedTelemetry) -> (row: TelemetryPacket)
        ensures
            row == packet.packet(),
            final(self)@ == old(self)@.push(row),
    {
        let row = packet.to_packet();
        self.rows.push(row);
        row
    }

    /// The readings sent strictly after `since`, in the order in which they
    /// were appended.
    ///
    /// Every selected row is validated again. One that fails is corruption:
    /// the query then answers with the first such row and hands out no reading
    /// at all, rather than pass over the row in silence.
    pub fn get_readings_since(&self, since: i64) -> (r: Result<Vec<ParsedTelemetry>, CorruptionError>)
        ensures
            r matches Ok(readings) ==> range_query(self@, since as int) == Ok::<
                Seq<ParsedTelemetry>,
                CorruptionError,
            >(readings@),
            r matches Err(e) ==> range_query(self@, since as int) == Err::<
                Seq<ParsedTelemetry>,
                CorruptionError,
            >(e),
    {
        let mut readings: Vec<ParsedTelemetry> = Vec::new();
        let mut i: usize = 0;
        proof {
            lemma_sent_after_empty(since as int);
            assert(self.rows@.take(0) =~= Seq::<TelemetryPacket>::empty());
        }
        while i < self.rows.len()
            invariant
                i <= self.rows@.len(),
                forall|j: int| 0 <= j < i ==> !corrupt_at(self.rows@, since as int, j),
                readings@ == readings_of(sent_after(self.rows@.take(i as int), since as int)),
            decreases self.rows@.len() - i,
        {
            let row: TelemetryPacket = self.rows[i];
            proof {
                lemma_sent_after_push(self.rows@.take(i as int), row, since as int);
                assert(self.rows@.take(i + 1) =~= self.rows@.take(i as int).push(row));
            }
            if row.packet_timestamp > since {
                match ParsedTelemetry::try_from(&row) {
                    Ok(reading) => {
                        readings.push(reading);
                        assert(readings@ =~= readings_of(
                            sent_after(self.rows@.take(i + 1), since as int),
                        ));
                    },
                    Err(cause) => {
                        proof {
                            lemma_first_corrupt_is_unique(self@, since as int, i as int);
                        }
                        return Err(CorruptionError { row: i, cause });
                    },
                }
            }
            i += 1;
        }
        assert(self.rows@.take(i as int) =~= self.rows@);
        Ok(readings)
    }
}

/// A query on the empty relation selects nothing.
pub proof fn lemma_sent_after_empty(since: int)
    ensures
        sent_after(Seq::<TelemetryPacket>::empty(), since) == Seq::<TelemetryPacket>::empty(),
{
    reveal(Seq::filter);
}

/// A query sees an appended row exactly when the row was sent after the
/// cutoff, and sees it last; what it selected before, it still selects.
pub proof fn lemma_sent_after_push(rows: Seq<TelemetryPacket>, row: TelemetryPacket, since: int)
    ensures
        sent_after(rows.push(row), since) == if row.packet_timestamp > since {
            sent_after(rows, since).push(row)
        } else {
            sent_after(rows, since)
        },
{
    reveal(Seq::filter);
    assert(rows.push(row).drop_last() =~= rows);
}

/// The row of one more reading goes after the rows of those before it.
pub proof fn lemma_rows_of_push(readings: Seq<ParsedTelemetry>, reading: ParsedTelemetry)
    ensures
        rows_of(readings.push(reading)) == rows_of(readings).push(reading.packet()),
{
    assert(rows_of(readings.push(reading)) =~= rows_of(readings).push(reading.packet()));
}

/// A relation has at most one first corrupt row, and that is the row that a
/// failing query names.
pub proof fn lemma_first_corrupt_is_unique(rows: Seq<TelemetryPacket>, since: int, i: int)
    requires
        first_corrupt_at(rows, since, i),
    ensures
        range_query(rows, since) == Err::<Seq<ParsedTelemetry>, CorruptionError>(
            CorruptionError { row: i as usize, cause: validated(rows[i])->Err_0 },
        ),
{
    let first = choose|k: int| first_corrupt_at(rows, since, k);
    assert(first_corrupt_at(rows, since, first));
    assert(corrupt_at(rows, since, first));
    assert(first == i);
}

/// Submitting a reading changes the answer of a query in one way only: the
/// reading joins the answer, as its last, exactly when it was sent after the
/// cutoff. A relation without corruption stays without.
pub proof fn lemma_query_after_submit(
    rows: Seq<TelemetryPacket>,
    reading: ParsedTelemetry,
    since: int,
)
    requires
        reading.valid(),
        range_query(rows, since) is Ok,
    ensures
        range_query(rows.push(reading.packet()), since) == Ok::<
            Seq<ParsedTelemetry>,
            CorruptionError,
        >(
            if reading.time@ > since {
                range_query(rows, since)->Ok_0.push(reading)
            } else {
                range_query(rows, since)->Ok_0
            },
        ),
{
    let row = reading.packet();
    let after = rows.push(row);
    reading.lemma_validated_packet();
    assert forall|i: int| !corrupt_at(after, since, i) by {
        if 0 <= i < rows.len() {
            assert(after[i] == rows[i]);
            assert(!corrupt_at(rows, since, i));
        }
    }
    lemma_sent_after_push(rows, row, since);
    if reading.time@ > since {
        assert(readings_of(sent_after(rows, since).push(row)) =~= readings_of(
            sent_after(rows, since),
        ).push(reading));
    }
}

/// After any run of submissions to an empty relation, a query answers with
/// exactly the submitted readings that were sent after the cutoff, in the
/// order of submission, whatever the cutoff. None is lost and none comes twice.
pub proof fn lemma_query_returns_what_was_submitted(readings: Seq<ParsedTelemetry>, since: int)
    requires
        forall|i: int| 0 <= i < readings.len() ==> (#[trigger] readings[i]).valid(),
    ensures
        range_query(rows_of(readings), since) == Ok::<Seq<ParsedTelemetry>, CorruptionError>(
            readings_sent_after(readings, since),
        ),
    decreases readings.len(),
{
    reveal(Seq::filter);
    if readings.len() == 0 {
        assert(rows_of(readings) =~= Seq::<TelemetryPacket>::empty());
        lemma_sent_after_empty(since);
        assert(readings_of(Seq::<TelemetryPacket>::empty()) =~= readings_sent_after(
            readings,
            since,
        ));
    } else {
        let earlier = readings.drop_last();
        let last = readings.last();
        assert(earlier.push(last) =~= readings);
        lemma_rows_of_push(earlier, last);
        lemma_query_returns_what_was_submitted(earlier, since);
        lemma_query_after_submit(rows_of(earlier), last, since);
    }
}

/// Whether each reading was sent after the one before it.
pub open spec fn sent_in_order(readings: Seq<ParsedTelemetry>) -> bool {
    forall|i: int, j: int|
        0 <= i < j < readings.len() ==> (#[trigger] readings[i]).time@ < (
        #[trigger] readings[j]).time@
}

/// After submissions with rising sent-times, a query answers with exactly
/// the subset of the submitted readings that were sent after the cutoff: a
/// reading is in the answer if and only if it was submitted and sent after
/// the cutoff, and none is there twice. The answer has rising sent-times too.
pub proof fn lemma_query_answers_with_the_subset(readings: Seq<ParsedTelemetry>, since: int)
    requires
        forall|i: int| 0 <= i < readings.len() ==> (#[trigger] readings[i]).valid(),
        sent_in_order(readings),
    ensures
        range_query(rows_of(readings), since) is Ok,
        forall|reading: ParsedTelemetry|
            #[trigger] range_query(rows_of(readings), since)->Ok_0.contains(reading) <==> (
            readings.contains(reading) && reading.time@ > since),
        range_query(rows_of(readings), since)->Ok_0.no_duplicates(),
        sent_in_order(range_query(rows_of(readings), since)->Ok_0),
{
    lemma_query_returns_what_was_submitted(readings, since);
    lemma_selection_is_a_subset(readings, since);
    lemma_selection_keeps_the_order(readings, since);
    let answer = readings_sent_after(readings, since);
    assert forall|i: int, j: int| 0 <= i < answer.len() && 0 <= j < answer.len() && i != j implies answer[i]
        != answer[j] by {
        if i < j {
            assert(answer[i].time@ < answer[j].time@);
        } else {
            assert(answer[j].time@ < answer[i].time@);
        }
    }
}

/// A reading is selected if and only if it is among the readings and was
/// sent after the cutoff.
proof fn lemma_selection_is_a_subset(readings: Seq<ParsedTelemetry>, since: int)
    ensures
        forall|reading: ParsedTelemetry|
            #[trigger] readings_sent_after(readings, since).contains(reading) <==> (
            readings.contains(reading) && reading.time@ > since),
    decreases readings.len(),
{
    reveal(Seq::filter);
    let selected = readings_sent_after(readings, since);
    if readings.len() > 0 {
        let earlier = readings.drop_last();
        let last = readings.last();
        let before = readings_sent_after(earlier, since);
        lemma_selection_is_a_subset(earlier, since);
        assert forall|reading: ParsedTelemetry| #[trigger]
            selected.contains(reading) <==> (readings.contains(reading) && reading.time@
                > since) by {
            if selected.contains(reading) {
                let i = choose|i: int| 0 <= i < selected.len() && selected[i] == reading;
                if i < before.len() {
                    assert(before[i] == reading);
                    assert(before.contains(reading));
                    let k = choose|k: int| 0 <= k < earlier.len() && earlier[k] == reading;
                    assert(readings[k] == reading);
                } else {
                    assert(reading == last);
                    assert(readings[readings.len() - 1] == reading);
                }
            }
            if readings.contains(reading) && reading.time@ > since {
                let k = choose|k: int| 0 <= k < readings.len() && readings[k] == reading;
                if k < earlier.len() {
                    assert(earlier[k] == reading);
                    assert(earlier.contains(reading));
                    assert(before.contains(reading));
                    let i = choose|i: int| 0 <= i < before.len() && before[i] == reading;
                    assert(selected[i] == reading);
                } else {
                    assert(selected[selected.len() - 1] == reading);
                }
            }
        }
    }
}

/// Selection keeps rising sent-times rising.
proof fn lemma_selection_keeps_the_order(readings: Seq<ParsedTelemetry>, since: int)
    requires
        sent_in_order(readings),
    ensures
        sent_in_order(readings_sent_after(readings, since)),
    decreases readings.len(),
{
    reveal(Seq::filter);
    if readings.len() > 0 {
        let earlier = readings.drop_last();
        let last = readings.last();
        let before = readings_sent_after(earlier, since);
        assert(sent_in_order(earlier)) by {
            assert forall|i: int, j: int| 0 <= i < j < earlier.len() implies (
            #[trigger] earlier[i]).time@ < (#[trigger] earlier[j]).time@ by {
                assert(readings[i].time@ < readings[j].time@);
            }
        }
        lemma_selection_keeps_the_order(earlier, since);
        lemma_selection_is_a_subset(earlier, since);
        if last.time@ > since {
            let selected = before.push(last);
            assert forall|i: int, j: int| 0 <= i < j < selected.len() implies (
            #[trigger] selected[i]).time@ < (#[trigger] selected[j]).time@ by {
                if j < before.len() {
                    assert(before[i].time@ < before[j].time@);
                } else {
                    assert(before.contains(before[i]));
                    let k = choose|k: int| 0 <= k < earlier.len() && earlier[k] == before[i];
                    assert(readings[k].time@ < readings[readings.len() - 1].time@);
                }
            }
        }
    }
}

/// A query whose cutoff lies before the calendar answers with every
/// submitted reading: as many readings as submissions.
pub proof fn lemma_unbounded_query_returns_everything(readings: Seq<ParsedTelemetry>, since: int)
    requires
        forall|i: int| 0 <= i < readings.len() ==> (#[trigger] readings[i]).valid(),
        since < MIN_UNIX_SECONDS,
    ensures
        range_query(rows_of(readings), since) == Ok::<Seq<ParsedTelemetry>, CorruptionError>(
            readings,
        ),
    decreases readings.len(),
{
    lemma_query_returns_what_was_submitted(readings, since);
    lemma_all_sent_after(readings, since);
}

/// Readings that were all sent after the cutoff are all selected.
proof fn lemma_all_sent_after(readings: Seq<ParsedTelemetry>, since: int)
    requires
        forall|i: int| 0 <= i < readings.len() ==> (#[trigger] readings[i]).time@ > since,
    ensures
        readings_sent_after(readings, since) == readings,
    decreases readings.len(),
{
    reveal(Seq::filter);
    if readings.len() > 0 {
        lemma_all_sent_after(readings.drop_last(), since);
        assert(readings.drop_last().push(readings.last()) =~= readings);
    }
}

} // verus!
