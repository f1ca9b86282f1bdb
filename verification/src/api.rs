//! The read path: the query that a fetch request asks of the store, and the
//! response made from a page of its results.

use vstd::prelude::*;
use crate::ident::Uuid;
use crate::model::{hash_key, hash_key_of, views, Report, ReportView, VesselReportPageToken};

verus! {

/// A request for the fields of a vessel's report.
#[derive(Debug)]
pub struct FetchRequest {
    pub customer_id: Uuid,
    pub vessel_id: Uuid,
    pub report_name: String,
    pub page_token: Option<String>,
}

/// A query of an index of the store: the items under one hash key, from the
/// start or from where an earlier page ended.
#[derive(Debug)]
pub struct IndexQuery {
    pub index_name: String,
    pub hash_key_name: String,
    pub hash_key: String,
    pub page_token: Option<VesselReportPageToken>,
}

/// A page of the results of a query, with the key of its last item where
/// more may follow.
#[derive(Debug)]
pub struct DynamoDbResultsPage {
    pub items: Vec<Report>,
    pub last_evaluated_key: Option<VesselReportPageToken>,
}

/// The fields of a report, each name once, and the token for the next page.
#[derive(Debug)]
pub struct ReportResponse {
    pub fields: Vec<(String, String)>,
    pub page_token: Option<String>,
}

/// The value of each field after the records `items`: a later record of a
/// name replaces an earlier one.
pub open spec fn fields_of(items: Seq<ReportView>) -> Map<Seq<char>, Seq<char>>
    decreases items.len(),
{
    if items.len() == 0 {
        Map::empty()
    } else {
        fields_of(items.drop_last()).insert(items.last().field_name, items.last().value)
    }
}

/// The value of each name in a list of named values, where a later entry
/// of a name replaces an earlier one.
pub open spec fn named(fields: Seq<(String, String)>) -> Map<Seq<char>, Seq<char>>
    decreases fields.len(),
{
    if fields.len() == 0 {
        Map::empty()
    } else {
        named(fields.drop_last()).insert(fields.last().0@, fields.last().1@)
    }
}

/// No name occurs twice.
pub open spec fn distinct_names(fields: Seq<(String, String)>) -> bool {
    forall|i: int, j: int|
        0 <= i < j < fields.len() ==> (#[trigger] fields[i]).0@ != (#[trigger] fields[j]).0@
}

/// Replacing the value of one entry replaces the value of its name, where
/// no name occurs twice.
proof fn lemma_named_update(fields: Seq<(String, String)>, i: int, entry: (String, String))
    requires
        0 <= i < fields.len(),
        distinct_names(fields),
        entry.0@ == fields[i].0@,
    ensures
        named(fields.update(i, entry)) == named(fields).insert(entry.0@, entry.1@),
        distinct_names(fields.update(i, entry)),
    decreases fields.len(),
{
    let updated = fields.update(i, entry);
    if i == fields.len() - 1 {
        assert(updated.drop_last() == fields.drop_last());
        assert(named(updated) =~= named(fields).insert(entry.0@, entry.1@));
    } else {
        assert(updated.drop_last() == fields.drop_last().update(i, entry));
        assert(distinct_names(fields.drop_last())) by {
            assert forall|a: int, b: int| 0 <= a < b < fields.len() - 1 implies (
            #[trigger] fields.drop_last()[a]).0@ != (#[trigger] fields.drop_last()[b]).0@ by {
                assert(fields[a].0@ != fields[b].0@);
            }
        }
        lemma_named_update(fields.drop_last(), i, entry);
        assert(fields[i].0@ != fields.last().0@);
        assert(named(updated) =~= named(fields).insert(entry.0@, entry.1@));
    }
    assert forall|a: int, b: int| 0 <= a < b < updated.len() implies (#[trigger] updated[a]).0@ != (
    #[trigger] updated[b]).0@ by {
        assert(fields[a].0@ != fields[b].0@);
    }
}

impl View for ReportResponse {
    type V = Map<Seq<char>, Seq<char>>;

    open spec fn view(&self) -> Map<Seq<char>, Seq<char>> {
        named(self.fields@)
    }
}

impl FetchRequest {
    /// The query that answers this request: the index of a vessel's reports
    /// under the hash key of the vessel, resumed after the field that the
    /// page token names.
    pub fn query(self) -> (q: IndexQuery)
        ensures
            q.index_name@ == "vesselReports"@,
            q.hash_key_name@ == "customerAndVesselId"@,
            q.hash_key@ == hash_key(self.customer_id@, self.vessel_id@),
            match self.page_token {
                Some(field_name) => q.page_token matches Some(token) && token.field_name
                    == field_name && token.customer_and_vessel_id@ == q.hash_key@,
                None => q.page_token is None,
            },
    {
        let hash_key = hash_key_of(&self.customer_id, &self.vessel_id);
        let page_token = match self.page_token {
            Some(field_name) => Some(
                VesselReportPageToken { customer_and_vessel_id: hash_key.clone(), field_name },
            ),
            None => None,
        };
        IndexQuery {
            index_name: "vesselReports".to_owned(),
            hash_key_name: Report::hash_key_name(),
            hash_key,
            page_token,
        }
    }
}

/// Where the entry of `name` stands in `fields`, if it has one.
fn position_of(fields: &Vec<(String, String)>, name: &String) -> (r: Option<usize>)
    ensures
        match r {
            Some(i) => i < fields.len() && fields@[i as int].0@ == name@,
            None => forall|k: int| 0 <= k < fields.len() ==> (#[trigger] fields@[k]).0@ != name@,
        },
{
    let mut i: usize = 0;
    while i < fields.len()
        invariant
            i <= fields.len(),
            forall|k: int| 0 <= k < i ==> (#[trigger] fields@[k]).0@ != name@,
        decreases fields.len() - i,
    {
        if fields[i].0.as_str().eq(name.as_str()) {
            return Some(i);
        }
        i += 1;
    }
    None
}

impl ReportResponse {
    /// The response for a page of results: the value of each field of the
    /// page, and the name of the field from which the next page goes on.
    pub fn from(value: DynamoDbResultsPage) -> (response: ReportResponse)
        ensures
            response@ == fields_of(views(value.items@)),
            distinct_names(response.fields@),
            match value.last_evaluated_key {
                Some(key) => response.page_token == Some(key.field_name),
                None => response.page_token is None,
            },
    {
        let DynamoDbResultsPage { items, last_evaluated_key } = value;
        let ghost all = views(items@);
        let mut fields: Vec<(String, String)> = Vec::new();
        let mut i: usize = 0;
        assert(all.take(0) == Seq::<ReportView>::empty());
        while i < items.len()
            invariant
                i <= items.len(),
                all == views(items@),
                distinct_names(fields@),
                named(fields@) == fields_of(all.take(i as int)),
            decreases items.len() - i,
        {
            let name = items[i].field_name.clone();
            let value = items[i].value.clone();
            proof {
                assert(all.take(i + 1).drop_last() == all.take(i as int));
                assert(all.take(i + 1).last() == items@[i as int]@);
            }
            match position_of(&fields, &name) {
                Some(at) => {
                    proof {
                        lemma_named_update(fields@, at as int, (name, value));
                    }
                    fields.set(at, (name, value));
                },
                None => {
                    let ghost before = fields@;
                    fields.push((name, value));
                    assert(fields@.drop_last() == before);
                },
            }
            i += 1;
        }
        assert(all.take(items.len() as int) == all);
        let page_token = match last_evaluated_key {
            Some(key) => Some(key.field_name),
            None => None,
        };
        ReportResponse { fields, page_token }
    }

    /// The value of the field `name`, if the response has it.
    pub fn get(&self, name: &str) -> (r: Option<&String>)
        ensures
            match r {
                Some(value) => self@.contains_key(name@) && self@[name@] == value@,
                None => !self@.contains_key(name@),
            },
    {
        let mut i: usize = self.fields.len();
        assert(self.fields@.take(i as int) == self.fields@);
        while i > 0
            invariant
                i <= self.fields.len(),
                self@.contains_key(name@) == named(self.fields@.take(i as int)).contains_key(
                    name@,
                ),
                self@.contains_key(name@) ==> self@[name@] == named(
                    self.fields@.take(i as int),
                )[name@],
            decreases i,
        {
            i -= 1;
            proof {
                let upto = self.fields@.take(i + 1);
                assert(upto.drop_last() == self.fields@.take(i as int));
                assert(upto.last() == self.fields@[i as int]);
            }
            if self.fields[i].0.as_str().eq(name) {
                return Some(&self.fields[i].1);
            }
        }
        None
    }
}

} // verus!
