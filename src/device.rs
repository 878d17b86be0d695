//! Sensor class decoding and the fail-fast ingestion of reading batches.

use crate::shared::{hyphenated, uuid_text, AppData, Failure};
use vstd::prelude::*;
use vstd::string::StringExecFns;

verus! {

/// The measurement family that the top six bits of a class byte select.
pub open spec fn family_name(family: u8) -> Seq<char> {
    if family == 0 {
        "TEMPERATURE"@
    } else if family == 1 {
        "HUMIDITY"@
    } else if family == 2 {
        "SOUND"@
    } else if family == 3 {
        "CO2"@
    } else {
        "WEIGHT"@
    }
}

/// The measurement name of a class byte: the family alone for sub-index 0,
/// else the family, an underscore and the sub-index digit.
pub open spec fn sensor_name(class: u8) -> Seq<char> {
    let family = class >> 2u8;
    let index = class & 3u8;
    if index == 0 {
        family_name(family)
    } else {
        family_name(family) + seq!['_'] + seq![
            if index == 1 {
                '1'
            } else if index == 2 {
                '2'
            } else {
                '3'
            },
        ]
    }
}

/// Decodes a class byte into its measurement name.
pub fn decode_class(class: u8) -> (r: String)
    ensures
        r@ == sensor_name(class),
{
    let family = class >> 2u8;
    let index = class & 3u8;
    let mut name = match family {
        0 => "TEMPERATURE".to_string(),
        1 => "HUMIDITY".to_string(),
        2 => "SOUND".to_string(),
        3 => "CO2".to_string(),
        _ => "WEIGHT".to_string(),
    };
    if index != 0 {
        name.append("_");
        proof {
            reveal_strlit("_");
            reveal_strlit("1");
            reveal_strlit("2");
            reveal_strlit("3");
        }
        match index {
            1 => name.append("1"),
            2 => name.append("2"),
            _ => name.append("3"),
        }
    }
    name
}

/// One raw reading: a class byte and the IEEE 754 bit pattern of the
/// measured value.
#[derive(Debug, Clone, Copy, PartialEq, Eq, Structural)]
pub struct SensorReading {
    pub class: u8,
    pub value_bits: u64,
}

impl SensorReading {
    /// The measurement name of the reading; it depends on the class alone.
    pub fn to_string(&self) -> (r: String)
        ensures
            r@ == sensor_name(self.class),
    {
        decode_class(self.class)
    }
}

/// A batch of readings taken at one time (epoch milliseconds).
pub struct SensorReadings {
    pub id: u8,
    pub timestamp: i64,
    pub values: Vec<SensorReading>,
}

/// A reading as stored in the time-series collection.
pub struct DBSensorReading {
    pub serial_number: String,
    pub timestamp: i64,
    pub sensor_name: String,
    pub value_bits: u64,
}

/// A stored reading as plain values: serial number text, timestamp,
/// measurement name and value bits.
pub type RowView = (Seq<char>, i64, Seq<char>, u64);

impl View for DBSensorReading {
    type V = RowView;

    open spec fn view(&self) -> RowView {
        (self.serial_number@, self.timestamp, self.sensor_name@, self.value_bits)
    }
}

/// The stored form of one reading of a batch.
pub open spec fn reading_row(serial: u128, timestamp: i64, r: SensorReading) -> RowView {
    (hyphenated(serial), timestamp, sensor_name(r.class), r.value_bits)
}

/// The stored forms of a batch's readings, in order.
pub open spec fn batch_rows(serial: u128, b: SensorReadings) -> Seq<RowView> {
    b.values@.map_values(|r: SensorReading| reading_row(serial, b.timestamp, r))
}

/// The stored forms of all readings of all batches, in input order.
pub open spec fn submission_rows(serial: u128, batches: Seq<SensorReadings>) -> Seq<RowView>
    decreases batches.len(),
{
    if batches.len() == 0 {
        Seq::empty()
    } else {
        submission_rows(serial, batches.drop_last()) + batch_rows(serial, batches.last())
    }
}

/// The state of a submission: the rows to write, how many were written, and
/// whether a write failed.
pub struct IngestionState {
    pub rows: Seq<RowView>,
    pub written: nat,
    pub failed: bool,
}

/// A fresh submission of these rows.
pub open spec fn started(rows: Seq<RowView>) -> IngestionState {
    IngestionState { rows, written: 0, failed: false }
}

/// A write is still owed.
pub open spec fn pending(s: IngestionState) -> bool {
    !s.failed && s.written < s.rows.len()
}

/// The rows that are in the store.
pub open spec fn persisted(s: IngestionState) -> Seq<RowView> {
    s.rows.take(s.written as int)
}

/// The state after the pending write reported `ok`; nothing changes once no
/// write is pending.
pub open spec fn step(s: IngestionState, ok: bool) -> IngestionState {
    if !pending(s) {
        s
    } else if ok {
        IngestionState { written: s.written + 1, ..s }
    } else {
        IngestionState { failed: true, ..s }
    }
}

/// The state after a run of write results, one per step.
pub open spec fn replay(s: IngestionState, results: Seq<bool>) -> IngestionState
    decreases results.len(),
{
    if results.len() == 0 {
        s
    } else {
        replay(step(s, results[0]), results.drop_first())
    }
}

/// A submission in progress: its rows are written one at a time, in order,
/// and the first failed write ends it.
pub struct Ingestion {
    rows: Vec<DBSensorReading>,
    written: usize,
    failed: bool,
}

impl View for Ingestion {
    type V = IngestionState;

    closed spec fn view(&self) -> IngestionState {
        IngestionState {
            rows: self.rows@.map_values(|r: DBSensorReading| r@),
            written: self.written as nat,
            failed: self.failed,
        }
    }
}

impl Ingestion {
    #[verifier::type_invariant]
    spec fn inv(self) -> bool {
        &&& self.written <= self.rows.len()
        &&& self.failed ==> self.written < self.rows.len()
    }

    /// The row that is to be written next, while a write is pending.
    pub fn next_row(&self) -> (r: Option<&DBSensorReading>)
        ensures
            r is Some <==> pending(self@),
            r matches Some(row) ==> row@ == self@.rows[self@.written as int],
    {
        if !self.failed && self.written < self.rows.len() {
            Some(&self.rows[self.written])
        } else {
            None
        }
    }

    /// Records whether the pending write succeeded.
    pub fn record_write(&mut self, ok: bool)
        ensures
            final(self)@ == step(old(self)@, ok),
    {
        proof {
            use_type_invariant(&*self);
        }
        if !self.failed && self.written < self.rows.len() {
            if ok {
                self.written = self.written + 1;
            } else {
                self.failed = true;
            }
        }
    }

    /// How the submission ended: `None` while a write is pending, a format
    /// failure once a write failed, success once every row is written.
    pub fn outcome(&self) -> (r: Option<Result<(), Failure>>)
        ensures
            r == (if pending(self@) {
                None
            } else if self@.failed {
                Some(Err(Failure::Format))
            } else {
                Some(Ok(()))
            }),
    {
        if self.failed {
            Some(Err(Failure::Format))
        } else if self.written < self.rows.len() {
            None
        } else {
            Some(Ok(()))
        }
    }
}

/// Starts a submission from a device. An unknown token is an authorization
/// failure whatever the body; else a body that did not parse (`None`) is a
/// format failure; else every reading of every batch, in input order, is to
/// be written under the device's serial number and its batch's timestamp.
pub fn receive_readings(
    data: &AppData,
    token: u128,
    batches: Option<Vec<SensorReadings>>,
) -> (r: Result<Ingestion, Failure>)
    ensures
        !data@.contains_key(token) ==> r == Err::<Ingestion, Failure>(Failure::Authorization),
        data@.contains_key(token) && batches is None ==> r == Err::<Ingestion, Failure>(
            Failure::Format,
        ),
        data@.contains_key(token) && batches is Some ==> (r matches Ok(ing) && ing@ == started(
            submission_rows(data@[token], batches->Some_0@),
        )),
{
    let serial = match data.get_serial_number(token) {
        Some(s) => s,
        None => return Err(Failure::Authorization),
    };
    let batches = match batches {
        Some(b) => b,
        None => return Err(Failure::Format),
    };
    let serial_text = uuid_text(serial);
    let mut rows: Vec<DBSensorReading> = Vec::new();
    let mut b: usize = 0;
    while b < batches.len()
        invariant
            b <= batches@.len(),
            serial_text@ == hyphenated(serial),
            rows@.map_values(|r: DBSensorReading| r@) == submission_rows(
                serial,
                batches@.take(b as int),
            ),
        decreases batches.len() - b,
    {
        let batch = &batches[b];
        let ghost before = rows@.map_values(|r: DBSensorReading| r@);
        let mut k: usize = 0;
        while k < batch.values.len()
            invariant
                k <= batch.values@.len(),
                serial_text@ == hyphenated(serial),
                rows@.map_values(|r: DBSensorReading| r@) == before + batch_rows(
                    serial,
                    *batch,
                ).take(k as int),
            decreases batch.values.len() - k,
        {
            let reading = batch.values[k];
            let row = DBSensorReading {
                serial_number: serial_text.clone(),
                timestamp: batch.timestamp,
                sensor_name: reading.to_string(),
                value_bits: reading.value_bits,
            };
            let ghost old_rows = rows@;
            rows.push(row);
            proof {
                assert(rows@.map_values(|r: DBSensorReading| r@) =~= old_rows.map_values(
                    |r: DBSensorReading| r@,
                ).push(row@));
                assert(batch_rows(serial, *batch).take(k + 1) =~= batch_rows(
                    serial,
                    *batch,
                ).take(k as int).push(row@));
            }
            k = k + 1;
        }
        proof {
            let next = batches@.take(b + 1);
            assert(next.drop_last() =~= batches@.take(b as int));
            assert(batch_rows(serial, *batch).take(k as int) =~= batch_rows(serial, *batch));
        }
        b = b + 1;
    }
    proof {
        assert(batches@.take(b as int) =~= batches@);
    }
    Ok(Ingestion { rows, written: 0, failed: false })
}

/// The state with `w` rows written and no failure.
pub open spec fn written_state(rows: Seq<RowView>, w: nat) -> IngestionState {
    IngestionState { rows, written: w, failed: false }
}

/// Once no write is pending, further results change nothing.
pub proof fn lemma_settled(s: IngestionState, results: Seq<bool>)
    requires
        !pending(s),
    ensures
        replay(s, results) == s,
    decreases results.len(),
{
    if results.len() > 0 {
        lemma_settled(step(s, results[0]), results.drop_first());
    }
}

proof fn lemma_advance(rows: Seq<RowView>, results: Seq<bool>, w: nat, k: nat)
    requires
        w <= k <= rows.len(),
        k <= results.len(),
        forall|j: int| 0 <= j < k ==> results[j],
    ensures
        replay(written_state(rows, w), results.subrange(w as int, results.len() as int))
            == replay(written_state(rows, k), results.subrange(k as int, results.len() as int)),
    decreases k - w,
{
    if w < k {
        let rest = results.subrange(w as int, results.len() as int);
        assert(rest[0] == results[w as int]);
        assert(rest.drop_first() =~= results.subrange((w + 1) as int, results.len() as int));
        lemma_advance(rows, results, w + 1, k);
    }
}

/// Fail-fast ingestion: when the `k`-th write is the first to fail, the rows
/// before it stay written, the submission has failed, and no later row is
/// attempted.
pub proof fn lemma_fail_fast(rows: Seq<RowView>, results: Seq<bool>, k: int)
    requires
        0 <= k < rows.len(),
        k < results.len(),
        !results[k],
        forall|j: int| 0 <= j < k ==> results[j],
    ensures
        replay(started(rows), results).failed,
        replay(started(rows), results).written == k,
        persisted(replay(started(rows), results)) == rows.take(k),
        !pending(replay(started(rows), results)),
{
    assert(results.subrange(0, results.len() as int) =~= results);
    lemma_advance(rows, results, 0, k as nat);
    let rest = results.subrange(k, results.len() as int);
    assert(rest[0] == results[k]);
    let after = step(written_state(rows, k as nat), false);
    lemma_settled(after, rest.drop_first());
}

/// When every write succeeds, every row ends up written, in order, and the
/// submission succeeds.
pub proof fn lemma_all_written(rows: Seq<RowView>, results: Seq<bool>)
    requires
        rows.len() <= results.len(),
        forall|j: int| 0 <= j < results.len() ==> results[j],
    ensures
        !replay(started(rows), results).failed,
        persisted(replay(started(rows), results)) == rows,
        !pending(replay(started(rows), results)),
{
    assert(results.subrange(0, results.len() as int) =~= results);
    if rows.len() > 0 {
        lemma_advance(rows, results, 0, rows.len());
    }
    lemma_settled(
        written_state(rows, rows.len()),
        results.subrange(rows.len() as int, results.len() as int),
    );
    assert(rows.take(rows.len() as int) =~= rows);
}

} // verus!
