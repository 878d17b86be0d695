//! Idempotent provisioning of the store's collections.

use crate::shared::{contains_text, texts};
use vstd::prelude::*;

verus! {

/// How a time-series collection binds its rows: the field that holds the
/// time and the field that groups rows (its meta field). Buckets span a
/// minute.
pub struct SeriesOptions {
    pub time_field: String,
    pub meta_field: String,
}

/// A collection to create: its name, and its series options where it is a
/// time-series collection.
pub struct NewCollection {
    pub name: String,
    pub series: Option<SeriesOptions>,
}

/// A collection to create as plain values: its name, and the time and meta
/// fields of a time-series collection.
pub type CollectionView = (Seq<char>, Option<(Seq<char>, Seq<char>)>);

impl View for NewCollection {
    type V = CollectionView;

    open spec fn view(&self) -> CollectionView {
        (
            self.name@,
            match self.series {
                Some(o) => Some((o.time_field@, o.meta_field@)),
                None => None,
            },
        )
    }
}

/// Time series keyed by the reading time and grouped by serial number.
pub open spec fn reading_series() -> Option<(Seq<char>, Seq<char>)> {
    Some(("timestamp"@, "serial_number"@))
}

pub open spec fn pings_collection() -> CollectionView {
    ("gateway_pings"@, reading_series())
}

pub open spec fn readings_collection() -> CollectionView {
    ("sensor_readings"@, reading_series())
}

pub open spec fn devices_collection() -> CollectionView {
    ("devices"@, None)
}

/// The collection, unless one of its name already exists.
pub open spec fn missing(c: CollectionView, existing: Seq<Seq<char>>) -> Seq<CollectionView> {
    if existing.contains(c.0) {
        Seq::empty()
    } else {
        seq![c]
    }
}

/// What provisioning creates, in order, given the existing collection names.
pub open spec fn schema_plan(existing: Seq<Seq<char>>) -> Seq<CollectionView> {
    missing(pings_collection(), existing) + missing(readings_collection(), existing) + missing(
        devices_collection(),
        existing,
    )
}

fn minute_series() -> (r: SeriesOptions)
    ensures
        Some((r.time_field@, r.meta_field@)) == reading_series(),
{
    SeriesOptions { time_field: "timestamp".to_string(), meta_field: "serial_number".to_string() }
}

/// The pings time series, unless a collection of its name exists.
pub fn check_or_make_pings(created: &Vec<String>) -> (r: Option<NewCollection>)
    ensures
        r is None <==> texts(created@).contains(pings_collection().0),
        r matches Some(c) ==> c@ == pings_collection(),
{
    let name = "gateway_pings".to_string();
    if contains_text(created, &name) {
        return None;
    }
    Some(NewCollection { name, series: Some(minute_series()) })
}

/// The sensor readings time series, unless a collection of its name exists.
pub fn check_or_make_sensor_readings(created: &Vec<String>) -> (r: Option<NewCollection>)
    ensures
        r is None <==> texts(created@).contains(readings_collection().0),
        r matches Some(c) ==> c@ == readings_collection(),
{
    let name = "sensor_readings".to_string();
    if contains_text(created, &name) {
        return None;
    }
    Some(NewCollection { name, series: Some(minute_series()) })
}

/// The plain devices collection, unless a collection of its name exists.
pub fn check_or_make_devices(created: &Vec<String>) -> (r: Option<NewCollection>)
    ensures
        r is None <==> texts(created@).contains(devices_collection().0),
        r matches Some(c) ==> c@ == devices_collection(),
{
    let name = "devices".to_string();
    if contains_text(created, &name) {
        return None;
    }
    Some(NewCollection { name, series: None })
}

/// Every collection that provisioning must create, given the names of the
/// existing ones: pings, then sensor readings, then devices.
pub fn check_or_make_all(created: &Vec<String>) -> (r: Vec<NewCollection>)
    ensures
        r@.map_values(|c: NewCollection| c@) == schema_plan(texts(created@)),
{
    let mut plan: Vec<NewCollection> = Vec::new();
    if let Some(c) = check_or_make_pings(created) {
        plan.push(c);
    }
    if let Some(c) = check_or_make_sensor_readings(created) {
        plan.push(c);
    }
    if let Some(c) = check_or_make_devices(created) {
        plan.push(c);
    }
    assert(plan@.map_values(|c: NewCollection| c@) =~= schema_plan(texts(created@)));
    plan
}

proof fn lemma_still_listed(existing: Seq<Seq<char>>, made: Seq<Seq<char>>, name: Seq<char>, i: int)
    requires
        existing.contains(name) || (0 <= i < made.len() && made[i] == name),
    ensures
        (existing + made).contains(name),
{
    if existing.contains(name) {
        let j = choose|j: int| 0 <= j < existing.len() && existing[j] == name;
        assert((existing + made)[j] == name);
    } else {
        assert((existing + made)[existing.len() + i] == name);
    }
}

/// Provisioning is idempotent: once the collections of a first run exist, a
/// second run creates nothing.
pub proof fn lemma_provisioning_idempotent(existing: Seq<Seq<char>>)
    ensures
        schema_plan(existing + schema_plan(existing).map_values(|c: CollectionView| c.0))
            == Seq::<CollectionView>::empty(),
{
    let plan = schema_plan(existing);
    let made = plan.map_values(|c: CollectionView| c.0);
    let after = existing + made;
    let a = missing(pings_collection(), existing);
    let b = missing(readings_collection(), existing);
    lemma_still_listed(existing, made, pings_collection().0, 0);
    lemma_still_listed(existing, made, readings_collection().0, a.len() as int);
    lemma_still_listed(existing, made, devices_collection().0, (a.len() + b.len()) as int);
    assert(schema_plan(after) =~= Seq::<CollectionView>::empty());
}

} // verus!
