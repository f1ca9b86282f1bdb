//! Ingestion: the write buffer that collects the records of an archive and
//! seals them into batches for bulk writes, and the steps that fill it from
//! the entries of the archive.
//!
//! The buffer decides what is written and when; the caller performs the
//! writes. A record that is pushed waits in the queue. When the queue reaches
//! [`CHUNK_SIZE`] it is sealed as one batch, and [`DynamoDbBuffer::flush`]
//! seals what is left at the end. [`DynamoDbBuffer::save`] hands the sealed
//! batches over, each to be sent as one bulk write, in order.

use vstd::prelude::*;
use crate::archive::{
    customer_segment, is_archive_key, lemma_segment_is_plain, reports_file, resolve_archive_key,
    vessel_segment,
};
use crate::calendar::Date;
use crate::flatten::{
    all_series_records, column_counts, column_records, document_records, entry_records,
    field_record_of, fields_among, lemma_all_series_records_next, lemma_document_records_next,
    lemma_fields_among_next, lemma_rows_records_next, names_of, read_cell, row_fields,
    row_header, row_records, rows_records, series_records, zip_len,
};
use crate::ident::{
    hyphenated_bytes, is_hyphenated, lemma_hyphenated_is_ascii, read_uuid, Uuid,
};
use crate::json::{shape_error, values_of, Json, JsonValue};
use crate::model::{views, Report, ReportView};
use crate::runtime_error::RuntimeError;
use crate::schema::{
    DataView, ReportValueEntry, ReportsData, ReportsResults, ReportsSeries, ResultsView,
    SeriesView,
};
use crate::text::parses_as_float;

verus! {

/// The most records that one bulk write may carry.
pub const CHUNK_SIZE: usize = 25;

/// What each batch of a list holds.
pub open spec fn batch_views(batches: Seq<Vec<Report>>) -> Seq<Seq<ReportView>> {
    batches.map_values(|batch: Vec<Report>| views(batch@))
}

/// Full batches lie end to end in the list of their records.
pub proof fn lemma_full_batches(batches: Seq<Seq<ReportView>>)
    requires
        forall|i: int| 0 <= i < batches.len() ==> (#[trigger] batches[i]).len() == CHUNK_SIZE,
    ensures
        batches.flatten().len() == CHUNK_SIZE * batches.len(),
        forall|i: int|
            0 <= i < batches.len() ==> batches.flatten().subrange(
                CHUNK_SIZE * i,
                CHUNK_SIZE * i + CHUNK_SIZE,
            ) == #[trigger] batches[i],
    decreases batches.len(),
{
    if batches.len() == 0 {
        assert(batches.flatten() == Seq::<ReportView>::empty());
    } else {
        let init = batches.drop_last();
        lemma_full_batches(init);
        init.lemma_flatten_push(batches.last());
        assert(init.push(batches.last()) == batches);
        assert forall|i: int| 0 <= i < batches.len() implies batches.flatten().subrange(
            CHUNK_SIZE * i,
            CHUNK_SIZE * i + CHUNK_SIZE,
        ) == #[trigger] batches[i] by {
            if i < init.len() {
                assert(init[i] == batches[i]);
                assert(batches.flatten().subrange(CHUNK_SIZE * i, CHUNK_SIZE * i + CHUNK_SIZE)
                    == init.flatten().subrange(CHUNK_SIZE * i, CHUNK_SIZE * i + CHUNK_SIZE));
            } else {
                assert(batches.flatten().subrange(CHUNK_SIZE * i, CHUNK_SIZE * i + CHUNK_SIZE)
                    == batches.last());
            }
        }
    }
}

/// The write buffer of one archive.
pub struct DynamoDbBuffer {
    table_name: String,
    customer_id: Uuid,
    vessel_id: Uuid,
    buffer: Vec<Report>,
    sealed: Vec<Vec<Report>>,
}

impl DynamoDbBuffer {
    /// The table that the records go to.
    pub closed spec fn table(&self) -> Seq<char> {
        self.table_name@
    }

    /// The customer who owns the records.
    pub closed spec fn customer(&self) -> Seq<u8> {
        self.customer_id@
    }

    /// The vessel that the records are about.
    pub closed spec fn vessel(&self) -> Seq<u8> {
        self.vessel_id@
    }

    /// The queue: the records that wait to be sealed.
    pub closed spec fn pending(&self) -> Seq<ReportView> {
        views(self.buffer@)
    }

    /// The batches that wait to be written.
    pub closed spec fn sealed(&self) -> Seq<Seq<ReportView>> {
        batch_views(self.sealed@)
    }

    #[verifier::type_invariant]
    closed spec fn inv(&self) -> bool {
        self.wf()
    }

    /// All records that the buffer holds, in the order in which they came.
    pub open spec fn held(&self) -> Seq<ReportView> {
        self.sealed().flatten() + self.pending()
    }

    /// The queue is below its capacity, and no batch is empty or over it.
    /// This holds of every buffer.
    pub open spec fn wf(&self) -> bool {
        &&& self.pending().len() < CHUNK_SIZE
        &&& forall|i: int|
            0 <= i < self.sealed().len() ==> 0 < (#[trigger] self.sealed()[i]).len() <= CHUNK_SIZE
    }

    /// Both buffers write to the same table for the same vessel.
    pub open spec fn same_target(&self, other: &DynamoDbBuffer) -> bool {
        &&& self.table() == other.table()
        &&& self.customer() == other.customer()
        &&& self.vessel() == other.vessel()
    }

    /// This buffer is what `before` becomes by pushing `records` one by one:
    /// it holds what `before` held and then `records`, the batches of
    /// `before` are still its first, and each batch after those is full.
    pub open spec fn took(&self, before: &DynamoDbBuffer, records: Seq<ReportView>) -> bool {
        &&& self.wf()
        &&& self.same_target(before)
        &&& self.held() == before.held() + records
        &&& before.sealed().len() <= self.sealed().len()
        &&& self.sealed().take(before.sealed().len() as int) == before.sealed()
        &&& forall|i: int|
            before.sealed().len() <= i < self.sealed().len() ==> (#[trigger] self.sealed()[i]).len()
                == CHUNK_SIZE
    }

    /// A buffer that started empty has sealed a batch each time the queue
    /// reached its capacity, and at no other time: the batches are the
    /// records that came, in runs of `CHUNK_SIZE`, and the queue holds what
    /// is left over.
    pub proof fn lemma_sealed_at_capacity(&self, before: &DynamoDbBuffer, records: Seq<ReportView>)
        requires
            before.sealed().len() == 0,
            before.pending().len() == 0,
            self.took(before, records),
        ensures
            self.sealed().len() == records.len() / (CHUNK_SIZE as nat),
            self.pending().len() == records.len() % (CHUNK_SIZE as nat),
            forall|i: int|
                0 <= i < self.sealed().len() ==> #[trigger] self.sealed()[i] == records.subrange(
                    CHUNK_SIZE * i,
                    CHUNK_SIZE * i + CHUNK_SIZE,
                ),
            self.pending() == records.skip(CHUNK_SIZE * self.sealed().len()),
    {
        let batches = self.sealed();
        lemma_full_batches(batches);
        assert(before.sealed() =~= Seq::<Seq<ReportView>>::empty());
        assert(before.held() =~= Seq::<ReportView>::empty());
        assert(records == batches.flatten() + self.pending());
        vstd::arithmetic::div_mod::lemma_fundamental_div_mod_converse(
            records.len() as int,
            CHUNK_SIZE as int,
            batches.len() as int,
            self.pending().len() as int,
        );
        assert forall|i: int| 0 <= i < batches.len() implies #[trigger] batches[i]
            == records.subrange(CHUNK_SIZE * i, CHUNK_SIZE * i + CHUNK_SIZE) by {
            assert(batches.flatten().subrange(CHUNK_SIZE * i, CHUNK_SIZE * i + CHUNK_SIZE)
                == records.subrange(CHUNK_SIZE * i, CHUNK_SIZE * i + CHUNK_SIZE));
        }
        assert(self.pending() == records.skip(CHUNK_SIZE * batches.len()));
    }

    /// Pushing nothing changes nothing.
    pub proof fn lemma_took_nothing(&self)
        requires
            self.wf(),
        ensures
            self.took(self, Seq::empty()),
    {
        assert(self.held() + Seq::<ReportView>::empty() == self.held());
        assert(self.sealed().take(self.sealed().len() as int) == self.sealed());
    }

    /// Pushing `first` and then `second` is pushing `first + second`.
    pub proof fn lemma_took_more(
        &self,
        middle: &DynamoDbBuffer,
        before: &DynamoDbBuffer,
        first: Seq<ReportView>,
        second: Seq<ReportView>,
    )
        requires
            middle.took(before, first),
            self.took(middle, second),
        ensures
            self.took(before, first + second),
    {
        assert(before.held() + first + second == before.held() + (first + second));
        assert(self.sealed().take(before.sealed().len() as int) == self.sealed().take(
            middle.sealed().len() as int,
        ).take(before.sealed().len() as int));
        assert forall|i: int| before.sealed().len() <= i < self.sealed().len() implies (
        #[trigger] self.sealed()[i]).len() == CHUNK_SIZE by {
            if i < middle.sealed().len() {
                assert(self.sealed().take(middle.sealed().len() as int)[i] == self.sealed()[i]);
            }
        }
    }

    /// A buffer for the archive of one vessel, the identifiers given as
    /// texts. It starts empty.
    pub fn new(table_name: String, customer_id: &str, vessel_id: &str) -> (r: Result<
        DynamoDbBuffer,
        RuntimeError,
    >)
        ensures
            match r {
                Ok(buffer) => {
                    &&& buffer.table() == table_name@
                    &&& read_uuid(customer_id@) == Some(buffer.customer())
                    &&& read_uuid(vessel_id@) == Some(buffer.vessel())
                    &&& buffer.pending().len() == 0
                    &&& buffer.sealed().len() == 0
                    &&& buffer.wf()
                },
                Err(e) => e is UuidError && (read_uuid(customer_id@) is None || read_uuid(
                    vessel_id@,
                ) is None),
            },
    {
        let customer_id = match Uuid::parse_str(customer_id) {
            Ok(id) => id,
            Err(e) => { return Err(RuntimeError::UuidError(e)); },
        };
        let vessel_id = match Uuid::parse_str(vessel_id) {
            Ok(id) => id,
            Err(e) => { return Err(RuntimeError::UuidError(e)); },
        };
        Ok(
            DynamoDbBuffer {
                table_name,
                customer_id,
                vessel_id,
                buffer: Vec::new(),
                sealed: Vec::new(),
            },
        )
    }

    pub fn table_name(&self) -> (name: &String)
        ensures
            name@ == self.table(),
    {
        &self.table_name
    }

    pub fn customer_id(&self) -> (id: Uuid)
        ensures
            id@ == self.customer(),
    {
        self.customer_id
    }

    pub fn vessel_id(&self) -> (id: Uuid)
        ensures
            id@ == self.vessel(),
    {
        self.vessel_id
    }

    /// How many records wait in the queue.
    pub fn len(&self) -> (n: usize)
        ensures
            n == self.pending().len(),
    {
        self.buffer.len()
    }

    /// Pushes a record. The queue is sealed as a batch exactly when this
    /// record brings it to its capacity.
    pub fn write(&mut self, record: Report)
        ensures
            final(self).took(old(self), seq![record@]),
            old(self).pending().len() + 1 == CHUNK_SIZE ==> final(self).sealed() == old(
                self,
            ).sealed().push(old(self).pending().push(record@)) && final(self).pending().len() == 0,
            old(self).pending().len() + 1 < CHUNK_SIZE ==> final(self).sealed() == old(
                self,
            ).sealed() && final(self).pending() == old(self).pending().push(record@),
    {
        proof {
            use_type_invariant(&*self);
            broadcast use Seq::lemma_flatten_push;

        }
        let ghost before = self.pending();
        let ghost sealed_before = self.sealed();
        let mut queue: Vec<Report> = Vec::new();
        std::mem::swap(&mut queue, &mut self.buffer);
        queue.push(record);
        assert(views(queue@) == before.push(record@));
        if queue.len() >= CHUNK_SIZE {
            let mut sealed: Vec<Vec<Report>> = Vec::new();
            std::mem::swap(&mut sealed, &mut self.sealed);
            sealed.push(queue);
            assert(batch_views(sealed@) == sealed_before.push(before.push(record@)));
            self.sealed = sealed;
            assert(self.pending() == Seq::<ReportView>::empty());
        } else {
            self.buffer = queue;
        }
        assert(self.sealed().take(sealed_before.len() as int) == sealed_before);
        assert(self.held() == sealed_before.flatten() + before + seq![record@]);
    }

    /// Seals what is left in the queue, if anything is: to be called once
    /// the last record of the archive has been pushed.
    pub fn flush(&mut self)
        ensures
            final(self).wf(),
            final(self).same_target(old(self)),
            final(self).held() == old(self).held(),
            final(self).sealed().flatten() == old(self).held(),
            final(self).pending().len() == 0,
            old(self).pending().len() == 0 ==> final(self).sealed() == old(self).sealed(),
            old(self).pending().len() > 0 ==> final(self).sealed() == old(self).sealed().push(
                old(self).pending(),
            ),
    {
        proof {
            use_type_invariant(&*self);
            broadcast use Seq::lemma_flatten_push;

        }
        let ghost before = self.pending();
        let ghost sealed_before = self.sealed();
        if self.buffer.len() > 0 {
            let mut queue: Vec<Report> = Vec::new();
            std::mem::swap(&mut queue, &mut self.buffer);
            let mut sealed: Vec<Vec<Report>> = Vec::new();
            std::mem::swap(&mut sealed, &mut self.sealed);
            sealed.push(queue);
            assert(batch_views(sealed@) == sealed_before.push(before));
            self.sealed = sealed;
            assert(self.pending() == Seq::<ReportView>::empty());
            assert(self.held() == sealed_before.flatten() + before);
        } else {
            assert(before == Seq::<ReportView>::empty());
        }
    }

    /// Hands over the sealed batches. Each is to be sent as one bulk write,
    /// in this order. The queue stays as it is.
    pub fn save(&mut self) -> (batches: Vec<Vec<Report>>)
        ensures
            batch_views(batches@) == old(self).sealed(),
            final(self).sealed().len() == 0,
            final(self).pending() == old(self).pending(),
            final(self).same_target(old(self)),
            final(self).wf(),
    {
        proof {
            use_type_invariant(&*self);
        }
        let mut batches: Vec<Vec<Report>> = Vec::new();
        std::mem::swap(&mut batches, &mut self.sealed);
        batches
    }

    /// Pushes one record.
    pub fn save_record(&mut self, entity: Report)
        ensures
            final(self).took(old(self), seq![entity@]),
    {
        self.write(entity);
    }
}

impl DynamoDbBuffer {
    /// The record that column `i` of a row gives to the report
    /// `report_name`, if it gives one.
    fn column_record(
        &self,
        report_name: &String,
        columns: &Vec<&String>,
        row: &Vec<Json>,
        n: usize,
        i: usize,
    ) -> (r: Option<Report>)
        requires
            i < n,
            n == zip_len(names_of(columns@), values_of(row@)),
        ensures
            column_records(
                self.customer(),
                self.vessel(),
                report_name@,
                names_of(columns@),
                values_of(row@),
                i as int,
            ) == match r {
                Some(record) => seq![record@],
                None => seq![],
            },
    {
        if !parses_as_float(columns[i].as_str()) {
            return None;
        }
        if !column_counts(columns, n, i) {
            return None;
        }
        let json = match read_cell(&row[i]) {
            Some(json) => json,
            None => { return None; },
        };
        let entry = match ReportValueEntry::decode(&json) {
            Some(entry) => entry,
            None => { return None; },
        };
        field_record_of(self.customer_id, self.vessel_id, report_name, columns[i], &entry)
    }

    /// Pushes the records of a row that belongs to the report
    /// `report_name`, in the order of the columns.
    pub fn save_report(&mut self, report_name: String, columns: &Vec<&String>, row: &Vec<Json>)
        ensures
            final(self).took(
                old(self),
                row_fields(
                    old(self).customer(),
                    old(self).vessel(),
                    report_name@,
                    names_of(columns@),
                    values_of(row@),
                ),
            ),
    {
        let n = if columns.len() <= row.len() {
            columns.len()
        } else {
            row.len()
        };
        proof {
            use_type_invariant(&*self);
        }
        let ghost start = *self;
        let ghost customer = self.customer();
        let ghost vessel = self.vessel();
        proof {
            start.lemma_took_nothing();
            lemma_fields_among_next(
                customer,
                vessel,
                report_name@,
                names_of(columns@),
                values_of(row@),
                0,
            );
        }
        let mut i: usize = 0;
        while i < n
            invariant
                i <= n,
                n == zip_len(names_of(columns@), values_of(row@)),
                customer == start.customer(),
                vessel == start.vessel(),
                self.took(
                    &start,
                    fields_among(
                        customer,
                        vessel,
                        report_name@,
                        names_of(columns@),
                        values_of(row@),
                        i as nat,
                    ),
                ),
            decreases n - i,
        {
            proof {
                use_type_invariant(&*self);
            }
            let ghost middle = *self;
            match self.column_record(&report_name, columns, row, n, i) {
                Some(record) => {
                    self.save_record(record);
                },
                None => {
                    proof {
                        middle.lemma_took_nothing();
                    }
                },
            }
            proof {
                lemma_fields_among_next(
                    customer,
                    vessel,
                    report_name@,
                    names_of(columns@),
                    values_of(row@),
                    i as nat,
                );
                self.lemma_took_more(
                    &middle,
                    &start,
                    fields_among(
                        customer,
                        vessel,
                        report_name@,
                        names_of(columns@),
                        values_of(row@),
                        i as nat,
                    ),
                    column_records(
                        customer,
                        vessel,
                        report_name@,
                        names_of(columns@),
                        values_of(row@),
                        i as int,
                    ),
                );
            }
            i += 1;
        }
    }

    /// Pushes the records of one row.
    pub fn save_row(&mut self, columns: &Vec<&String>, row: &Vec<Json>)
        ensures
            final(self).took(
                old(self),
                row_records(
                    old(self).customer(),
                    old(self).vessel(),
                    names_of(columns@),
                    values_of(row@),
                ),
            ),
    {
        proof {
            use_type_invariant(&*self);
            self.lemma_took_nothing();
        }
        match row_header(columns, row) {
            Some((secs, event_text)) => match Date::from_timestamp(secs) {
                Some(date) => {
                    self.save_report(date.report_name(event_text.as_str()), columns, row);
                },
                None => {},
            },
            None => {},
        }
    }

    /// Pushes the records of a series, row by row.
    pub fn save_data_series(&mut self, series: &ReportsSeries)
        ensures
            final(self).took(
                old(self),
                series_records(old(self).customer(), old(self).vessel(), series@),
            ),
    {
        proof {
            use_type_invariant(&*self);
        }
        let ghost start = *self;
        let ghost customer = self.customer();
        let ghost vessel = self.vessel();
        let ghost columns = names_of(series.columns@);
        let ghost rows = series@.values;
        proof {
            start.lemma_took_nothing();
            lemma_rows_records_next(customer, vessel, columns, Seq::empty(), Seq::empty());
            assert(rows.take(0) == Seq::<Seq<JsonValue>>::empty());
            assert(series@.columns == columns);
        }
        let mut i: usize = 0;
        while i < series.values.len()
            invariant
                i <= series.values.len(),
                customer == start.customer(),
                vessel == start.vessel(),
                columns == names_of(series.columns@),
                rows == series@.values,
                rows.len() == series.values.len(),
                self.took(&start, rows_records(customer, vessel, columns, rows.take(i as int))),
            decreases series.values.len() - i,
        {
            let ghost middle = *self;
            self.save_row(&series.columns, series.values[i]);
            proof {
                let row = rows[i as int];
                assert(row == values_of(series.values@[i as int]@));
                assert(rows.take(i + 1) == rows.take(i as int).push(row));
                lemma_rows_records_next(customer, vessel, columns, rows.take(i as int), row);
                self.lemma_took_more(
                    &middle,
                    &start,
                    rows_records(customer, vessel, columns, rows.take(i as int)),
                    row_records(customer, vessel, columns, row),
                );
            }
            i += 1;
        }
        proof {
            assert(rows.take(rows.len() as int) == rows);
        }
    }

    /// Pushes the records of the series of one result, series by series.
    pub fn save_results(&mut self, results: &ReportsResults)
        ensures
            final(self).took(
                old(self),
                all_series_records(old(self).customer(), old(self).vessel(), results@.series),
            ),
    {
        proof {
            use_type_invariant(&*self);
        }
        let ghost start = *self;
        let ghost customer = self.customer();
        let ghost vessel = self.vessel();
        let ghost all = results@.series;
        proof {
            start.lemma_took_nothing();
            lemma_all_series_records_next(
                customer,
                vessel,
                Seq::empty(),
                SeriesView { columns: Seq::empty(), values: Seq::empty() },
            );
            assert(all.take(0) == Seq::<SeriesView>::empty());
        }
        let mut i: usize = 0;
        while i < results.series.len()
            invariant
                i <= results.series.len(),
                customer == start.customer(),
                vessel == start.vessel(),
                all == results@.series,
                all.len() == results.series.len(),
                self.took(&start, all_series_records(customer, vessel, all.take(i as int))),
            decreases results.series.len() - i,
        {
            let ghost middle = *self;
            self.save_data_series(&results.series[i]);
            proof {
                let series = all[i as int];
                assert(series == results.series@[i as int]@);
                assert(all.take(i + 1) == all.take(i as int).push(series));
                lemma_all_series_records_next(customer, vessel, all.take(i as int), series);
                self.lemma_took_more(
                    &middle,
                    &start,
                    all_series_records(customer, vessel, all.take(i as int)),
                    series_records(customer, vessel, series),
                );
            }
            i += 1;
        }
        proof {
            assert(all.take(all.len() as int) == all);
        }
    }

    /// Pushes the records of a document, in the order of the document.
    pub fn save_document(&mut self, document: &ReportsData)
        ensures
            final(self).took(
                old(self),
                document_records(old(self).customer(), old(self).vessel(), document@),
            ),
    {
        proof {
            use_type_invariant(&*self);
        }
        let ghost start = *self;
        let ghost customer = self.customer();
        let ghost vessel = self.vessel();
        let ghost all = document@.results;
        proof {
            start.lemma_took_nothing();
            lemma_document_records_next(
                customer,
                vessel,
                Seq::empty(),
                ResultsView { series: Seq::empty() },
            );
            assert(all.take(0) == Seq::<ResultsView>::empty());
        }
        let mut i: usize = 0;
        while i < document.results.len()
            invariant
                i <= document.results.len(),
                customer == start.customer(),
                vessel == start.vessel(),
                all == document@.results,
                all.len() == document.results.len(),
                self.took(
                    &start,
                    document_records(customer, vessel, DataView { results: all.take(i as int) }),
                ),
            decreases document.results.len() - i,
        {
            let ghost middle = *self;
            self.save_results(&document.results[i]);
            proof {
                let results = all[i as int];
                assert(results == document.results@[i as int]@);
                assert(all.take(i + 1) == all.take(i as int).push(results));
                lemma_document_records_next(customer, vessel, all.take(i as int), results);
                self.lemma_took_more(
                    &middle,
                    &start,
                    document_records(customer, vessel, DataView { results: all.take(i as int) }),
                    all_series_records(customer, vessel, results.series),
                );
            }
            i += 1;
        }
        proof {
            assert(all.take(all.len() as int) == all);
            assert(DataView { results: all } == document@);
        }
    }

    /// Reads the text of the data file and pushes the records of the
    /// document. A text that is no document of the schema is an error, and
    /// nothing is pushed.
    pub fn save_sensors_data(&mut self, data: &str) -> (r: Result<(), RuntimeError>)
        ensures
            match entry_records(old(self).customer(), old(self).vessel(), data@) {
                Some(records) => r is Ok && final(self).took(old(self), records),
                None => r is Err && r->Err_0 is SerializationError && *final(self) == *old(self),
            },
    {
        let json = match Json::parse(data) {
            Ok(json) => json,
            Err(e) => { return Err(RuntimeError::SerializationError(e)); },
        };
        match ReportsData::decode(&json) {
            Some(document) => {
                self.save_document(&document);
                Ok(())
            },
            None => Err(
                RuntimeError::SerializationError(
                    shape_error("the document does not follow the schema of reports"),
                ),
            ),
        }
    }

    /// Takes the payload of one entry of the archive: the records of the
    /// data file are pushed, any other entry is passed over.
    pub fn process_entry(&mut self, filename: &str, data: &str) -> (r: Result<(), RuntimeError>)
        ensures
            filename@ != reports_file() ==> r is Ok && *final(self) == *old(self),
            filename@ == reports_file() ==> match entry_records(
                old(self).customer(),
                old(self).vessel(),
                data@,
            ) {
                Some(records) => r is Ok && final(self).took(old(self), records),
                None => r is Err && r->Err_0 is SerializationError && *final(self) == *old(self),
            },
    {
        if filename.eq("data/reports.json") {
            self.save_sensors_data(data)
        } else {
            Ok(())
        }
    }
}

/// Starts the ingestion of the archive under `object_key`: the buffer for
/// its records, or `None` where the key is not that of an archive, which
/// leaves nothing to do. Identifiers of the right length that are no UUIDs
/// are an error.
pub fn load_reports(table_name: String, object_key: &str) -> (r: Result<
    Option<DynamoDbBuffer>,
    RuntimeError,
>)
    ensures
        !is_archive_key(object_key@) ==> r matches Ok(None),
        is_archive_key(object_key@) ==> {
            let customer = customer_segment(object_key@);
            let vessel = vessel_segment(object_key@);
            if is_hyphenated(customer) && is_hyphenated(vessel) {
                &&& r matches Ok(Some(buffer))
                &&& buffer.table() == table_name@
                &&& buffer.customer() == hyphenated_bytes(customer)
                &&& buffer.vessel() == hyphenated_bytes(vessel)
                &&& buffer.pending().len() == 0
                &&& buffer.sealed().len() == 0
                &&& buffer.wf()
            } else {
                r matches Err(e) && e is UuidError
            }
        },
{
    match resolve_archive_key(object_key) {
        None => Ok(None),
        Some((customer_id, vessel_id)) => {
            proof {
                lemma_segment_is_plain(object_key@);
                if is_hyphenated(customer_segment(object_key@)) {
                    lemma_hyphenated_is_ascii(customer_segment(object_key@));
                }
                if is_hyphenated(vessel_segment(object_key@)) {
                    lemma_hyphenated_is_ascii(vessel_segment(object_key@));
                }
            }
            match DynamoDbBuffer::new(table_name, customer_id.as_str(), vessel_id.as_str()) {
                Ok(buffer) => Ok(Some(buffer)),
                Err(e) => Err(e),
            }
        },
    }
}

} // verus!
