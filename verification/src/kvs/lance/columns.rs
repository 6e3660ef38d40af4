//! Arrow record batches as columns of plain values.

use std::sync::Arc;

use arrow_array::cast::AsArray;
use arrow_array::types::UInt64Type;
use arrow_array::{Array, ArrayRef, BinaryArray, BooleanArray, RecordBatch, StringArray, UInt64Array};
use arrow_schema::{ArrowError, DataType, Field, Schema};
use vstd::prelude::*;

use crate::kvs::err::Error;
use crate::kvs::err::ErrorView;
use crate::kvs::order;

verus! {

/// The type of a column.
#[derive(Clone, Copy, Debug, PartialEq, Eq, Structural)]
pub enum ColumnKind {
    Binary,
    UInt64,
    Boolean,
    Utf8,
}

/// A field of a schema.
#[derive(Clone, Copy, Debug)]
pub struct ColumnField {
    pub name: &'static str,
    pub kind: ColumnKind,
    pub nullable: bool,
}

/// What a [`ColumnField`] says.
pub struct FieldView {
    pub name: Seq<char>,
    pub kind: ColumnKind,
    pub nullable: bool,
}

impl View for ColumnField {
    type V = FieldView;

    open spec fn view(&self) -> FieldView {
        FieldView { name: self.name@, kind: self.kind, nullable: self.nullable }
    }
}

/// A column without nulls. `Other` stands for any column of another type.
#[derive(Debug)]
pub enum Column {
    Binary(Vec<Vec<u8>>),
    UInt64(Vec<u64>),
    Boolean(Vec<bool>),
    Utf8(Vec<String>),
    Other,
}

/// The values of a column.
pub enum ColumnView {
    Binary(Seq<Seq<u8>>),
    UInt64(Seq<u64>),
    Boolean(Seq<bool>),
    Utf8(Seq<Seq<char>>),
    Other,
}

impl View for Column {
    type V = ColumnView;

    open spec fn view(&self) -> ColumnView {
        match *self {
            Column::Binary(v) => ColumnView::Binary(order::key_views(v@)),
            Column::UInt64(v) => ColumnView::UInt64(v@),
            Column::Boolean(v) => ColumnView::Boolean(v@),
            Column::Utf8(v) => ColumnView::Utf8(Seq::new(v@.len(), |i: int| v@[i]@)),
            Column::Other => ColumnView::Other,
        }
    }
}

/// The number of values in a column of a known type.
pub open spec fn column_len(c: ColumnView) -> nat {
    match c {
        ColumnView::Binary(v) => v.len(),
        ColumnView::UInt64(v) => v.len(),
        ColumnView::Boolean(v) => v.len(),
        ColumnView::Utf8(v) => v.len(),
        ColumnView::Other => 0,
    }
}

/// Whether a column has the type `kind`.
pub open spec fn column_has_kind(c: ColumnView, kind: ColumnKind) -> bool {
    match c {
        ColumnView::Binary(_) => kind is Binary,
        ColumnView::UInt64(_) => kind is UInt64,
        ColumnView::Boolean(_) => kind is Boolean,
        ColumnView::Utf8(_) => kind is Utf8,
        ColumnView::Other => false,
    }
}

/// The bytes of all values together.
pub open spec fn total_bytes(values: Seq<Seq<u8>>) -> nat
    decreases values.len(),
{
    if values.len() == 0 {
        0
    } else {
        total_bytes(values.drop_last()) + values.last().len()
    }
}

/// The values of a column fit one Arrow array, whose offsets are `i32`.
pub open spec fn within_offsets(c: ColumnView) -> bool {
    match c {
        ColumnView::Binary(v) => total_bytes(v) <= i32::MAX,
        ColumnView::Utf8(v) => total_bytes(
            Seq::new(v.len(), |i: int| vstd::utf8::encode_utf8(v[i])),
        ) <= i32::MAX,
        _ => true,
    }
}

/// The columns are those that the schema asks for, all of one length.
pub open spec fn fits(fields: Seq<FieldView>, columns: Seq<ColumnView>) -> bool {
    &&& columns.len() > 0
    &&& columns.len() == fields.len()
    &&& forall|i: int|
        0 <= i < columns.len() ==> column_has_kind(#[trigger] columns[i], fields[i].kind)
            && column_len(columns[i]) == column_len(columns[0])
}

/// Field `i` is the first one of the name `name`.
pub open spec fn first_named(fields: Seq<FieldView>, name: Seq<char>, i: int) -> bool {
    &&& 0 <= i < fields.len()
    &&& fields[i].name == name
    &&& forall|j: int| 0 <= j < i ==> fields[j].name != name
}

/// The columns by name; of two that share a name, the first.
pub open spec fn named_columns(
    fields: Seq<FieldView>,
    columns: Seq<ColumnView>,
) -> Map<Seq<char>, ColumnView> {
    Map::new(
        |name: Seq<char>| exists|i: int| first_named(fields, name, i),
        |name: Seq<char>| columns[choose|i: int| first_named(fields, name, i)],
    )
}

/// The schema type of the `arrow_schema` crate.
#[verifier::external_type_specification]
#[verifier::external_body]
pub struct ExSchema(arrow_schema::Schema);

/// The error type of the `arrow_schema` crate.
#[verifier::external_type_specification]
#[verifier::external_body]
pub struct ExArrowError(arrow_schema::ArrowError);

/// A record batch of the `arrow_array` crate.
#[verifier::external_body]
#[derive(Debug)]
pub struct Batch(pub RecordBatch);

/// The fields of a schema, in order.
pub uninterp spec fn schema_fields(schema: Schema) -> Seq<FieldView>;

/// The columns of a batch by name. Where a slot is null, the column holds the
/// value that the array stores for it.
pub uninterp spec fn batch_columns(batch: Batch) -> Map<Seq<char>, ColumnView>;

/// The number of rows of a batch.
pub uninterp spec fn batch_rows(batch: Batch) -> nat;

/// The views of a vector of fields.
pub open spec fn field_views(fields: Seq<ColumnField>) -> Seq<FieldView> {
    Seq::new(fields.len(), |i: int| fields[i]@)
}

/// The views of a vector of columns.
pub open spec fn column_views(columns: Seq<Column>) -> Seq<ColumnView> {
    Seq::new(columns.len(), |i: int| columns[i]@)
}

/// `Schema::new`, with `Field::new` for each field: the schema has these
/// fields in this order.
#[verifier::external_body]
pub(crate) fn make_schema(fields: &Vec<ColumnField>) -> (schema: Schema)
    ensures
        schema_fields(schema) == field_views(fields@),
{
    let arrow_type = |kind| match kind {
        ColumnKind::Binary => DataType::Binary,
        ColumnKind::UInt64 => DataType::UInt64,
        ColumnKind::Boolean => DataType::Boolean,
        ColumnKind::Utf8 => DataType::Utf8,
    };
    let to_field = |f: &ColumnField| Field::new(f.name, arrow_type(f.kind), f.nullable);
    Schema::new(fields.iter().map(to_field).collect::<Vec<Field>>())
}

/// `RecordBatch::try_new` on arrays made from the columns: where the columns
/// are those that the schema asks for, all of one length, it makes the batch
/// of these columns. An array whose bytes exceed its `i32` offsets cannot be
/// made.
#[verifier::external_body]
pub(crate) fn make_batch(schema: Schema, columns: Vec<Column>) -> (batch: Result<Batch, ArrowError>)
    requires
        fits(schema_fields(schema), column_views(columns@)),
        forall|i: int| 0 <= i < columns@.len() ==> within_offsets((#[trigger] columns@[i])@),
    ensures
        match batch {
            Ok(b) => {
                &&& batch_columns(b) == named_columns(
                    schema_fields(schema),
                    column_views(columns@),
                )
                &&& batch_rows(b) == column_len(columns@[0]@)
            },
            Err(_) => false,
        },
{
    let to_array = |c: Column| -> ArrayRef {
        match c {
            Column::Binary(v) => Arc::new(BinaryArray::from_iter_values(v)),
            Column::UInt64(v) => Arc::new(UInt64Array::from(v)),
            Column::Boolean(v) => Arc::new(BooleanArray::from(v)),
            Column::Utf8(v) => Arc::new(StringArray::from(v)),
            Column::Other => Arc::new(arrow_array::NullArray::new(0)),
        }
    };
    RecordBatch::try_new(Arc::new(schema), columns.into_iter().map(to_array).collect()).map(Batch)
}

/// `RecordBatch::num_rows`.
#[verifier::external_body]
pub(crate) fn num_rows(batch: &Batch) -> (n: usize)
    ensures
        n == batch_rows(*batch),
{
    batch.0.num_rows()
}

/// `RecordBatch::column_by_name`, with a cast to each known array type:
/// the column of that name, copied out. A column is as long as its batch.
#[verifier::external_body]
pub(crate) fn read_column(batch: &Batch, name: &str) -> (column: Option<Column>)
    ensures
        match column {
            Some(c) => {
                &&& batch_columns(*batch).contains_key(name@)
                &&& batch_columns(*batch)[name@] == c@
                &&& (!(c is Other) ==> column_len(c@) == batch_rows(*batch))
            },
            None => !batch_columns(*batch).contains_key(name@),
        },
{
    let c = batch.0.column_by_name(name)?;
    Some(match c.data_type() {
        DataType::Binary => Column::Binary(
            (0..c.len()).map(|i| c.as_binary::<i32>().value(i).to_vec()).collect(),
        ),
        DataType::UInt64 => Column::UInt64(c.as_primitive::<UInt64Type>().values().to_vec()),
        DataType::Boolean => Column::Boolean(c.as_boolean().values().iter().collect()),
        DataType::Utf8 => Column::Utf8(
            (0..c.len()).map(|i| c.as_string::<i32>().value(i).to_string()).collect(),
        ),
        _ => Column::Other,
    })
}

/// The binary column `name` of a batch, or the message that says what is
/// wrong with it.
pub open spec fn binary_of(
    batch: Batch,
    name: Seq<char>,
    missing: Seq<char>,
    mismatch: Seq<char>,
) -> Result<Seq<Seq<u8>>, Seq<char>> {
    if !batch_columns(batch).contains_key(name) {
        Err(missing)
    } else {
        match batch_columns(batch)[name] {
            ColumnView::Binary(v) => Ok(v),
            _ => Err(mismatch),
        }
    }
}

/// The boolean column `name` of a batch, or the message that says what is
/// wrong with it.
pub open spec fn boolean_of(
    batch: Batch,
    name: Seq<char>,
    missing: Seq<char>,
    mismatch: Seq<char>,
) -> Result<Seq<bool>, Seq<char>> {
    if !batch_columns(batch).contains_key(name) {
        Err(missing)
    } else {
        match batch_columns(batch)[name] {
            ColumnView::Boolean(v) => Ok(v),
            _ => Err(mismatch),
        }
    }
}

/// The integer column `name` of a batch, or the message that says what is
/// wrong with it.
pub open spec fn u64_of(
    batch: Batch,
    name: Seq<char>,
    missing: Seq<char>,
    mismatch: Seq<char>,
) -> Result<Seq<u64>, Seq<char>> {
    if !batch_columns(batch).contains_key(name) {
        Err(missing)
    } else {
        match batch_columns(batch)[name] {
            ColumnView::UInt64(v) => Ok(v),
            _ => Err(mismatch),
        }
    }
}

/// Reads a binary column.
pub fn binary_column(
    batch: &Batch,
    name: &str,
    missing: &str,
    mismatch: &str,
) -> (values: Result<Vec<Vec<u8>>, Error>)
    ensures
        match values {
            Ok(v) => {
                &&& binary_of(*batch, name@, missing@, mismatch@) == Ok::<
                    Seq<Seq<u8>>,
                    Seq<char>,
                >(order::key_views(v@))
                &&& v@.len() == batch_rows(*batch)
            },
            Err(e) => {
                &&& binary_of(*batch, name@, missing@, mismatch@) is Err
                &&& e@ == ErrorView::Datastore(
                    binary_of(*batch, name@, missing@, mismatch@)->Err_0,
                )
            },
        },
{
    match read_column(batch, name) {
        None => Err(Error::datastore(missing)),
        Some(Column::Binary(v)) => Ok(v),
        Some(_) => Err(Error::datastore(mismatch)),
    }
}

/// Reads a boolean column.
pub fn boolean_column(
    batch: &Batch,
    name: &str,
    missing: &str,
    mismatch: &str,
) -> (values: Result<Vec<bool>, Error>)
    ensures
        match values {
            Ok(v) => {
                &&& boolean_of(*batch, name@, missing@, mismatch@) == Ok::<Seq<bool>, Seq<char>>(
                    v@,
                )
                &&& v@.len() == batch_rows(*batch)
            },
            Err(e) => {
                &&& boolean_of(*batch, name@, missing@, mismatch@) is Err
                &&& e@ == ErrorView::Datastore(
                    boolean_of(*batch, name@, missing@, mismatch@)->Err_0,
                )
            },
        },
{
    match read_column(batch, name) {
        None => Err(Error::datastore(missing)),
        Some(Column::Boolean(v)) => Ok(v),
        Some(_) => Err(Error::datastore(mismatch)),
    }
}

/// Reads an integer column.
pub fn u64_column(
    batch: &Batch,
    name: &str,
    missing: &str,
    mismatch: &str,
) -> (values: Result<Vec<u64>, Error>)
    ensures
        match values {
            Ok(v) => {
                &&& u64_of(*batch, name@, missing@, mismatch@) == Ok::<Seq<u64>, Seq<char>>(v@)
                &&& v@.len() == batch_rows(*batch)
            },
            Err(e) => {
                &&& u64_of(*batch, name@, missing@, mismatch@) is Err
                &&& e@ == ErrorView::Datastore(u64_of(*batch, name@, missing@, mismatch@)->Err_0)
            },
        },
{
    match read_column(batch, name) {
        None => Err(Error::datastore(missing)),
        Some(Column::UInt64(v)) => Ok(v),
        Some(_) => Err(Error::datastore(mismatch)),
    }
}

} // verus!
