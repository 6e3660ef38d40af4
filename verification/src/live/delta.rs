//! The changes that a live query reports.

use std::sync::Arc;

use arrow_schema::Schema;
use vstd::prelude::*;

use crate::kvs::lance::columns;
use crate::kvs::lance::columns::{make_batch, make_schema, Batch, Column, ColumnField, ColumnKind};
use crate::kvs::lance::columns::{ColumnView, FieldView};

verus! {

/// What happened to a record.
#[derive(Clone, Copy, Debug, PartialEq, Eq, Structural)]
pub enum Action {
    Create,
    Update,
    Delete,
}

/// A change, with the record in an Arrow batch: one row whose `payload` column
/// holds the record as JSON.
#[derive(Debug)]
pub enum LiveDelta {
    Create(Batch),
    /// A notification carries no earlier state, so `before` holds the same
    /// record as `after`.
    Update { before: Batch, after: Batch },
    Delete(Batch),
}

/// Why a delta cannot be built or read.
#[derive(Debug)]
pub enum DeltaError {
    /// The batch cannot be built.
    Batch(String),
    /// The batch has no typed column for a primary key.
    NoTypedColumns,
}

impl View for DeltaError {
    type V = Seq<char>;

    /// The text of the error.
    open spec fn view(&self) -> Seq<char> {
        match *self {
            DeltaError::Batch(s) => s@,
            DeltaError::NoTypedColumns => "primary_key() is not yet implemented (Sprint 1 uses opaque JSON payload column); wire typed columns in Sprint 2"@,
        }
    }
}

impl DeltaError {
    /// The text of the error.
    pub fn message(&self) -> (text: String)
        ensures
            text@ == self@,
    {
        match self {
            DeltaError::Batch(s) => s.clone(),
            DeltaError::NoTypedColumns => "primary_key() is not yet implemented (Sprint 1 uses opaque JSON payload column); wire typed columns in Sprint 2".to_owned(),
        }
    }
}

/// The one field of a delta's batch.
pub open spec fn payload_fields() -> Seq<FieldView> {
    seq![FieldView { name: "payload"@, kind: ColumnKind::Utf8, nullable: true }]
}

/// The batch holds `json` in its one row.
pub open spec fn holds_json(batch: Batch, json: Seq<char>) -> bool {
    &&& columns::batch_columns(batch) == map!["payload"@ => ColumnView::Utf8(seq![json])]
    &&& columns::batch_rows(batch) == 1
}

/// The bytes of `json` fit one Arrow array.
pub open spec fn within_array(json: Seq<char>) -> bool {
    vstd::utf8::encode_utf8(json).len() <= i32::MAX
}

/// The delta reports the action with the record `json`.
pub open spec fn reports(delta: LiveDelta, action: Action, json: Seq<char>) -> bool {
    match action {
        Action::Create => delta matches LiveDelta::Create(b) && holds_json(b, json),
        Action::Update => delta matches LiveDelta::Update { before, after } && holds_json(
            before,
            json,
        ) && holds_json(after, json),
        Action::Delete => delta matches LiveDelta::Delete(b) && holds_json(b, json),
    }
}

impl LiveDelta {
    /// The schema of a delta's batch: one column `payload` of text.
    pub fn sprint1_schema() -> (schema: Arc<Schema>)
        ensures
            columns::schema_fields(*schema) == payload_fields(),
    {
        Arc::new(payload_schema())
    }

    /// The batch of a record.
    pub fn batch_from_json(json: String) -> (batch: Result<Batch, DeltaError>)
        requires
            within_array(json@),
        ensures
            batch matches Ok(b) && holds_json(b, json@),
    {
        let ghost text = json@;
        let mut values: Vec<String> = Vec::new();
        values.push(json);
        let mut cols: Vec<Column> = Vec::new();
        cols.push(Column::Utf8(values));
        let ghost views = columns::column_views(cols@);
        proof {
            let encoded = Seq::new(1, |i: int| vstd::utf8::encode_utf8(seq![text][i]));
            assert(views[0] == ColumnView::Utf8(Seq::new(1, |i: int| values@[i]@)));
            assert(Seq::new(1, |i: int| values@[i]@) =~= seq![text]);
            assert(columns::total_bytes(encoded) == vstd::utf8::encode_utf8(text).len()) by {
                reveal_with_fuel(columns::total_bytes, 2);
                assert(encoded.drop_last().len() == 0);
            }
            assert(columns::within_offsets(cols@[0]@));
            let fields = payload_fields();
            assert(columns::first_named(fields, "payload"@, 0));
            assert(columns::named_columns(fields, views) =~= map![
                "payload"@ => ColumnView::Utf8(seq![text])
            ]);
        }
        match make_batch(payload_schema(), cols) {
            Ok(b) => Ok(b),
            Err(_) => Err(DeltaError::Batch("columns do not fit the schema".to_owned())),
        }
    }

    /// The delta of one notification.
    pub fn from_notification(action: Action, json: String) -> (delta: Result<
        LiveDelta,
        DeltaError,
    >)
        requires
            within_array(json@),
        ensures
            delta matches Ok(d) && reports(d, action, json@),
    {
        let copy = json.clone();
        let after = match Self::batch_from_json(json) {
            Ok(b) => b,
            Err(e) => {
                return Err(e);
            },
        };
        match action {
            Action::Create => Ok(LiveDelta::Create(after)),
            Action::Delete => Ok(LiveDelta::Delete(after)),
            Action::Update => match Self::batch_from_json(copy) {
                Ok(before) => Ok(LiveDelta::Update { before, after }),
                Err(e) => Err(e),
            },
        }
    }

    /// The primary key of the record. The batch holds one opaque column of
    /// text, so there is no typed column to read it from.
    pub fn primary_key<T>(&self, name: &str) -> (key: Result<T, DeltaError>)
        ensures
            key matches Err(e) && e is NoTypedColumns && e@
                == "primary_key() is not yet implemented (Sprint 1 uses opaque JSON payload column); wire typed columns in Sprint 2"@,
    {
        Err(DeltaError::NoTypedColumns)
    }

    /// The record after the change; for a deletion, the deleted record.
    pub fn into_record_batch(self) -> (batch: Batch)
        ensures
            match self {
                LiveDelta::Create(b) => batch == b,
                LiveDelta::Update { after, .. } => batch == after,
                LiveDelta::Delete(b) => batch == b,
            },
    {
        match self {
            LiveDelta::Create(b) => b,
            LiveDelta::Update { before: _, after } => after,
            LiveDelta::Delete(b) => b,
        }
    }
}

fn payload_schema() -> (schema: Schema)
    ensures
        columns::schema_fields(schema) == payload_fields(),
{
    let mut fields: Vec<ColumnField> = Vec::new();
    fields.push(ColumnField { name: "payload", kind: ColumnKind::Utf8, nullable: true });
    proof {
        assert(columns::field_views(fields@) =~= payload_fields());
    }
    make_schema(&fields)
}

/// Whatever the action, the record of a notification is the record of its
/// delta.
pub proof fn delta_carries_the_record(delta: LiveDelta, action: Action, json: Seq<char>)
    requires
        reports(delta, action, json),
    ensures
        match delta {
            LiveDelta::Create(b) => action is Create && holds_json(b, json),
            LiveDelta::Update { after, .. } => action is Update && holds_json(after, json),
            LiveDelta::Delete(b) => action is Delete && holds_json(b, json),
        },
{
}

/// A delta is of its action, and each batch in it has one column, `payload`,
/// which holds the record in its one row.
pub proof fn a_delta_has_one_row_of_payload(delta: LiveDelta, action: Action, json: Seq<char>)
    requires
        reports(delta, action, json),
    ensures
        match action {
            Action::Create => delta is Create,
            Action::Update => delta is Update,
            Action::Delete => delta is Delete,
        },
        forall|b: Batch|
            delta == LiveDelta::Create(b) || delta == LiveDelta::Delete(b) || (
            delta matches LiveDelta::Update { before, after } && (b == before || b == after))
                ==> #[trigger] columns::batch_rows(b) == 1 && columns::batch_columns(b).contains_key(
                "payload"@,
            ) && columns::batch_columns(b)["payload"@] == ColumnView::Utf8(seq![json]) && forall|
                name: Seq<char>,
            | #[trigger]
                columns::batch_columns(b).contains_key(name) ==> name == "payload"@,
{
}

/// The schema of a delta asks for one column of text that may be null.
pub proof fn the_payload_is_text()
    ensures
        payload_fields().len() == 1,
        payload_fields()[0].name == "payload"@,
        payload_fields()[0].kind is Utf8,
        payload_fields()[0].nullable,
{
}

} // verus!
