//! The report record, the atomic unit that is persisted, and the keys under
//! which the store holds it.

use vstd::prelude::*;
use crate::ident::{hyphenated, lemma_hyphenated_digits, lemma_hyphenated_injective, Uuid};

verus! {

/// The store's hash key of a vessel: `"{customer}:{vessel}"`, both in
/// hyphenated notation.
pub open spec fn hash_key(customer: Seq<u8>, vessel: Seq<u8>) -> Seq<char> {
    hyphenated(customer) + seq![':'] + hyphenated(vessel)
}

/// The store's sort key of a field: `"{report_name}:{field_name}"`.
pub open spec fn sort_key(report_name: Seq<char>, field_name: Seq<char>) -> Seq<char> {
    report_name + seq![':'] + field_name
}

pub fn hash_key_of(customer_id: &Uuid, vessel_id: &Uuid) -> (key: String)
    ensures
        key@ == hash_key(customer_id@, vessel_id@),
{
    let mut key = customer_id.to_hyphenated();
    key.push(':');
    let vessel = vessel_id.to_hyphenated();
    key.append(vessel.as_str());
    key
}

pub fn sort_key_of(report_name: &String, field_name: &String) -> (key: String)
    ensures
        key@ == sort_key(report_name@, field_name@),
{
    let mut key = report_name.clone();
    key.push(':');
    key.append(field_name.as_str());
    key
}

/// Distinct pairs of customer and vessel have distinct hash keys.
pub proof fn lemma_hash_key_injective(c1: Seq<u8>, v1: Seq<u8>, c2: Seq<u8>, v2: Seq<u8>)
    requires
        c1.len() == 16,
        v1.len() == 16,
        c2.len() == 16,
        v2.len() == 16,
        hash_key(c1, v1) == hash_key(c2, v2),
    ensures
        c1 == c2,
        v1 == v2,
{
    lemma_hyphenated_digits(c1);
    lemma_hyphenated_digits(v1);
    lemma_hyphenated_digits(c2);
    lemma_hyphenated_digits(v2);
    let k1 = hash_key(c1, v1);
    let k2 = hash_key(c2, v2);
    assert(k1.take(36) == hyphenated(c1));
    assert(k2.take(36) == hyphenated(c2));
    assert(k1.skip(37) == hyphenated(v1));
    assert(k2.skip(37) == hyphenated(v2));
    lemma_hyphenated_injective(c1, c2);
    lemma_hyphenated_injective(v1, v2);
}

/// Sort keys tell their fields apart where no report name holds a colon.
/// With a colon in a report name they need not: `"a:b"` with `"c"` and `"a"`
/// with `"b:c"` have one sort key.
pub proof fn lemma_sort_key_injective(r1: Seq<char>, f1: Seq<char>, r2: Seq<char>, f2: Seq<char>)
    requires
        !r1.contains(':'),
        !r2.contains(':'),
        sort_key(r1, f1) == sort_key(r2, f2),
    ensures
        r1 == r2,
        f1 == f2,
{
    let k1 = sort_key(r1, f1);
    let k2 = sort_key(r2, f2);
    if r1.len() < r2.len() {
        assert(k1[r1.len() as int] == ':');
        assert(k2[r1.len() as int] == r2[r1.len() as int]);
    }
    if r2.len() < r1.len() {
        assert(k2[r2.len() as int] == ':');
        assert(k1[r2.len() as int] == r1[r2.len() as int]);
    }
    assert(k1.take(r1.len() as int) == r1);
    assert(k2.take(r2.len() as int) == r2);
    assert(k1.skip(r1.len() as int + 1) == f1);
    assert(k2.skip(r2.len() as int + 1) == f2);
}

/// Report entry entity.
#[derive(Debug)]
pub struct Report {
    /// Owner ID.
    pub customer_id: Uuid,
    /// Vessel ID.
    pub vessel_id: Uuid,
    /// Report name.
    pub report_name: String,
    /// Report field.
    pub field_name: String,
    /// Field value.
    pub value: String,
    /// Description text.
    pub label: String,
}

/// What a report record holds.
pub struct ReportView {
    pub customer_id: Seq<u8>,
    pub vessel_id: Seq<u8>,
    pub report_name: Seq<char>,
    pub field_name: Seq<char>,
    pub value: Seq<char>,
    pub label: Seq<char>,
}

impl View for Report {
    type V = ReportView;

    open spec fn view(&self) -> ReportView {
        ReportView {
            customer_id: self.customer_id@,
            vessel_id: self.vessel_id@,
            report_name: self.report_name@,
            field_name: self.field_name@,
            value: self.value@,
            label: self.label@,
        }
    }
}

/// What each record of a list holds.
pub open spec fn views(records: Seq<Report>) -> Seq<ReportView> {
    records.map_values(|record: Report| record@)
}

impl ReportView {
    /// The hash key and the sort key under which the store holds the record.
    pub open spec fn key(self) -> (Seq<char>, Seq<char>) {
        (hash_key(self.customer_id, self.vessel_id), sort_key(self.report_name, self.field_name))
    }

    /// The attributes of the stored item, by name: the two keys, then the
    /// record's own.
    pub open spec fn attributes(self) -> Seq<(Seq<char>, Seq<char>)> {
        seq![
            ("customerAndVesselId"@, self.key().0),
            ("reportKey"@, self.key().1),
            ("customerId"@, hyphenated(self.customer_id)),
            ("vesselId"@, hyphenated(self.vessel_id)),
            ("reportName"@, self.report_name),
            ("fieldName"@, self.field_name),
            ("value"@, self.value),
            ("label"@, self.label),
        ]
    }
}

/// The primary key of a report record.
#[derive(Debug)]
pub struct ReportKey {
    pub customer_and_vessel_id: String,
    pub report_key: String,
}

/// Where a page of a vessel's fields ended, for the query that resumes there.
#[derive(Debug)]
pub struct VesselReportPageToken {
    pub customer_and_vessel_id: String,
    pub field_name: String,
}

/// The texts of a list of named attributes.
pub open spec fn attribute_views(attributes: Seq<(String, String)>) -> Seq<(Seq<char>, Seq<char>)> {
    attributes.map_values(|a: (String, String)| (a.0@, a.1@))
}

impl Report {
    /// The name of the attribute that holds the hash key.
    pub fn hash_key_name() -> (name: String)
        ensures
            name@ == "customerAndVesselId"@,
    {
        "customerAndVesselId".to_owned()
    }

    pub fn build_key(&self) -> (key: ReportKey)
        ensures
            (key.customer_and_vessel_id@, key.report_key@) == self@.key(),
    {
        ReportKey {
            customer_and_vessel_id: hash_key_of(&self.customer_id, &self.vessel_id),
            report_key: sort_key_of(&self.report_name, &self.field_name),
        }
    }

    /// The item that a write of this record puts into the store.
    pub fn attributes_for_write(&self) -> (attributes: Vec<(String, String)>)
        ensures
            attribute_views(attributes@) == self@.attributes(),
    {
        let key = self.build_key();
        let attributes = vec![
            ("customerAndVesselId".to_owned(), key.customer_and_vessel_id),
            ("reportKey".to_owned(), key.report_key),
            ("customerId".to_owned(), self.customer_id.to_hyphenated()),
            ("vesselId".to_owned(), self.vessel_id.to_hyphenated()),
            ("reportName".to_owned(), self.report_name.clone()),
            ("fieldName".to_owned(), self.field_name.clone()),
            ("value".to_owned(), self.value.clone()),
            ("label".to_owned(), self.label.clone()),
        ];
        assert(attribute_views(attributes@) =~= self@.attributes());
        attributes
    }
}

} // verus!
