//! How key-value rows stand in the dataset.
//!
//! A row has an opaque binary key and value, the version and the sequence
//! number that it was written with, and a flag that marks a deletion.

use std::sync::Arc;

use arrow_schema::Schema;
use vstd::prelude::*;

use crate::kvs::lance::columns;
use crate::kvs::lance::columns::{make_batch, make_schema, Batch, Column, ColumnField, ColumnKind};
use crate::kvs::lance::columns::{ColumnView, FieldView};
use crate::kvs::order;
use crate::kvs::order::{copy_bytes, Key, Val};
use crate::text;
use crate::text::{decimal_text, joined};

verus! {

/// Why a batch cannot be built.
#[derive(Debug)]
pub enum BatchError {
    /// The arguments do not fit together.
    InvalidArgument(String),
}

impl View for BatchError {
    type V = Seq<char>;

    /// What is wrong with the arguments.
    open spec fn view(&self) -> Seq<char> {
        match *self {
            BatchError::InvalidArgument(s) => s@,
        }
    }
}

impl BatchError {
    /// The text of the error.
    pub fn message(&self) -> (text: String)
        ensures
            text@ == "Invalid argument error: "@ + self@,
    {
        match self {
            BatchError::InvalidArgument(s) => joined("Invalid argument error: ", s.as_str()),
        }
    }
}

/// A hexadecimal digit in lower case.
pub open spec fn hex_digit(d: int) -> char {
    if d < 10 {
        (0x30 + d) as char
    } else {
        (0x57 + d) as char
    }
}

/// Two hexadecimal digits for each byte, the high one first.
pub open spec fn hex_text(bytes: Seq<u8>) -> Seq<char> {
    Seq::new(
        2 * bytes.len(),
        |i: int|
            if i % 2 == 0 {
                hex_digit(bytes[i / 2] as int / 16)
            } else {
                hex_digit(bytes[i / 2] as int % 16)
            },
    )
}

/// `hex::encode`: each byte as two hexadecimal digits in lower case, the high
/// one first.
#[verifier::external_body]
fn hex_encode(bytes: &Vec<u8>) -> (s: String)
    ensures
        s@ == hex_text(bytes@),
{
    hex::encode(bytes)
}

/// A key as a binary literal of the filter language.
pub open spec fn literal(key: Seq<u8>) -> Seq<char> {
    "X'"@ + hex_text(key) + "'"@
}

/// The literals of the keys, with a comma between two.
pub open spec fn literal_list(keys: Seq<Seq<u8>>) -> Seq<char>
    decreases keys.len(),
{
    if keys.len() == 0 {
        Seq::empty()
    } else if keys.len() == 1 {
        literal(keys[0])
    } else {
        literal_list(keys.drop_last()) + ", "@ + literal(keys.last())
    }
}

/// The filter for the live row of `key`.
pub open spec fn get_predicate(key: Seq<u8>) -> Seq<char> {
    "key = "@ + literal(key) + " AND tombstone = false"@
}

/// The filter for the live rows whose keys lie from `start` up to, but not
/// including, `end`.
pub open spec fn range_predicate(start: Seq<u8>, end: Seq<u8>) -> Seq<char> {
    "key >= "@ + literal(start) + " AND key < "@ + literal(end) + " AND tombstone = false"@
}

/// The filter for the rows of the given keys.
pub open spec fn delete_predicate(keys: Seq<Seq<u8>>) -> Seq<char> {
    if keys.len() == 0 {
        "false"@
    } else {
        "key IN ("@ + literal_list(keys) + ")"@
    }
}

/// The fields of a key-value row.
pub open spec fn kv_fields() -> Seq<FieldView> {
    seq![
        FieldView { name: "key"@, kind: ColumnKind::Binary, nullable: false },
        FieldView { name: "val"@, kind: ColumnKind::Binary, nullable: false },
        FieldView { name: "version"@, kind: ColumnKind::UInt64, nullable: false },
        FieldView { name: "tombstone"@, kind: ColumnKind::Boolean, nullable: false },
    ]
}

/// The fields of a row of the dataset, which carries its sequence number too.
pub open spec fn dataset_fields() -> Seq<FieldView> {
    kv_fields().push(FieldView { name: "seq"@, kind: ColumnKind::UInt64, nullable: false })
}

/// The columns of a batch of key-value rows.
pub open spec fn kv_columns(
    keys: Seq<Seq<u8>>,
    vals: Seq<Seq<u8>>,
    version: u64,
    tombstone: bool,
) -> Map<Seq<char>, ColumnView> {
    map![
        "key"@ => ColumnView::Binary(keys),
        "val"@ => ColumnView::Binary(vals),
        "version"@ => ColumnView::UInt64(Seq::new(keys.len(), |i: int| version)),
        "tombstone"@ => ColumnView::Boolean(Seq::new(keys.len(), |i: int| tombstone)),
    ]
}

/// The columns of a batch of dataset rows.
pub open spec fn dataset_columns(
    keys: Seq<Seq<u8>>,
    vals: Seq<Seq<u8>>,
    version: u64,
    tombstone: bool,
    seqs: Seq<u64>,
) -> Map<Seq<char>, ColumnView> {
    kv_columns(keys, vals, version, tombstone).insert("seq"@, ColumnView::UInt64(seqs))
}

/// The keys of key-value pairs.
pub open spec fn pair_keys(pairs: Seq<(Vec<u8>, Vec<u8>)>) -> Seq<Seq<u8>> {
    Seq::new(pairs.len(), |i: int| pairs[i].0@)
}

/// The values of key-value pairs.
pub open spec fn pair_vals(pairs: Seq<(Vec<u8>, Vec<u8>)>) -> Seq<Seq<u8>> {
    Seq::new(pairs.len(), |i: int| pairs[i].1@)
}

/// `n` empty byte strings.
pub open spec fn no_vals(n: nat) -> Seq<Seq<u8>> {
    Seq::new(n, |i: int| Seq::empty())
}

/// The message for sequence numbers that are not one per row.
pub open spec fn not_parallel(
    function: Seq<char>,
    seqs: nat,
    rows: Seq<char>,
    n: nat,
) -> Seq<char> {
    function + ": seqs ("@ + text::decimal(seqs) + ") must be parallel to "@ + rows + " ("@
        + text::decimal(n) + ")"@
}

/// The columns have different names.
pub proof fn lemma_names()
    ensures
        "key"@ != "val"@,
        "key"@ != "version"@,
        "key"@ != "tombstone"@,
        "key"@ != "seq"@,
        "val"@ != "version"@,
        "val"@ != "tombstone"@,
        "val"@ != "seq"@,
        "version"@ != "tombstone"@,
        "version"@ != "seq"@,
        "tombstone"@ != "seq"@,
{
    reveal_strlit("key");
    reveal_strlit("val");
    reveal_strlit("version");
    reveal_strlit("tombstone");
    reveal_strlit("seq");
    assert("key"@.len() == 3 && "val"@.len() == 3 && "seq"@.len() == 3);
    assert("version"@.len() == 7 && "tombstone"@.len() == 9);
    assert("key"@[0] != "val"@[0]);
    assert("key"@[0] != "seq"@[0]);
    assert("val"@[0] != "seq"@[0]);
}

proof fn lemma_kv_columns(
    columns: Seq<ColumnView>,
    keys: Seq<Seq<u8>>,
    vals: Seq<Seq<u8>>,
    version: u64,
    tombstone: bool,
)
    requires
        columns.len() == 4,
        columns[0] == ColumnView::Binary(keys),
        columns[1] == ColumnView::Binary(vals),
        columns[2] == ColumnView::UInt64(Seq::new(keys.len(), |i: int| version)),
        columns[3] == ColumnView::Boolean(Seq::new(keys.len(), |i: int| tombstone)),
    ensures
        columns::named_columns(kv_fields(), columns) == kv_columns(keys, vals, version, tombstone),
{
    lemma_names();
    let fields = kv_fields();
    assert(columns::first_named(fields, "key"@, 0));
    assert(columns::first_named(fields, "val"@, 1));
    assert(columns::first_named(fields, "version"@, 2));
    assert(columns::first_named(fields, "tombstone"@, 3));
    let named = columns::named_columns(fields, columns);
    let wanted = kv_columns(keys, vals, version, tombstone);
    assert forall|name: Seq<char>| #[trigger]
        named.contains_key(name) == wanted.contains_key(name) by {}
    assert(named =~= wanted);
}

proof fn lemma_dataset_columns(
    columns: Seq<ColumnView>,
    keys: Seq<Seq<u8>>,
    vals: Seq<Seq<u8>>,
    version: u64,
    tombstone: bool,
    seqs: Seq<u64>,
)
    requires
        columns.len() == 5,
        columns[0] == ColumnView::Binary(keys),
        columns[1] == ColumnView::Binary(vals),
        columns[2] == ColumnView::UInt64(Seq::new(keys.len(), |i: int| version)),
        columns[3] == ColumnView::Boolean(Seq::new(keys.len(), |i: int| tombstone)),
        columns[4] == ColumnView::UInt64(seqs),
    ensures
        columns::named_columns(dataset_fields(), columns) == dataset_columns(
            keys,
            vals,
            version,
            tombstone,
            seqs,
        ),
{
    lemma_names();
    let fields = dataset_fields();
    assert(columns::first_named(fields, "key"@, 0));
    assert(columns::first_named(fields, "val"@, 1));
    assert(columns::first_named(fields, "version"@, 2));
    assert(columns::first_named(fields, "tombstone"@, 3));
    assert(columns::first_named(fields, "seq"@, 4));
    let named = columns::named_columns(fields, columns);
    let wanted = dataset_columns(keys, vals, version, tombstone, seqs);
    assert forall|name: Seq<char>| #[trigger]
        named.contains_key(name) == wanted.contains_key(name) by {}
    assert(named =~= wanted);
}

fn copy_pairs(pairs: &[(Key, Val)]) -> (parts: (Vec<Vec<u8>>, Vec<Vec<u8>>))
    ensures
        order::key_views(parts.0@) == pair_keys(pairs@),
        order::key_views(parts.1@) == pair_vals(pairs@),
{
    let mut keys: Vec<Vec<u8>> = Vec::new();
    let mut vals: Vec<Vec<u8>> = Vec::new();
    let mut i: usize = 0;
    while i < pairs.len()
        invariant
            i <= pairs@.len(),
            keys@.len() == i,
            vals@.len() == i,
            forall|j: int| 0 <= j < i ==> (#[trigger] keys@[j])@ == pairs@[j].0@,
            forall|j: int| 0 <= j < i ==> (#[trigger] vals@[j])@ == pairs@[j].1@,
        decreases pairs@.len() - i,
    {
        keys.push(copy_bytes(&pairs[i].0));
        vals.push(copy_bytes(&pairs[i].1));
        i += 1;
    }
    proof {
        assert(order::key_views(keys@) =~= pair_keys(pairs@));
        assert(order::key_views(vals@) =~= pair_vals(pairs@));
    }
    (keys, vals)
}

fn copy_keys(keys: &[Key]) -> (parts: (Vec<Vec<u8>>, Vec<Vec<u8>>))
    ensures
        order::key_views(parts.0@) == order::key_views(keys@),
        order::key_views(parts.1@) == no_vals(keys@.len()),
{
    let mut out: Vec<Vec<u8>> = Vec::new();
    let mut vals: Vec<Vec<u8>> = Vec::new();
    let mut i: usize = 0;
    while i < keys.len()
        invariant
            i <= keys@.len(),
            out@.len() == i,
            vals@.len() == i,
            forall|j: int| 0 <= j < i ==> (#[trigger] out@[j])@ == keys@[j]@,
            forall|j: int| 0 <= j < i ==> (#[trigger] vals@[j])@ == Seq::<u8>::empty(),
        decreases keys@.len() - i,
    {
        out.push(copy_bytes(&keys[i]));
        vals.push(Vec::new());
        i += 1;
    }
    proof {
        assert(order::key_views(out@) =~= order::key_views(keys@));
        assert(order::key_views(vals@) =~= no_vals(keys@.len()));
    }
    (out, vals)
}

proof fn lemma_no_bytes(n: nat)
    ensures
        columns::total_bytes(no_vals(n)) == 0,
    decreases n,
{
    if n > 0 {
        lemma_no_bytes((n - 1) as nat);
        assert(no_vals(n).drop_last() =~= no_vals((n - 1) as nat));
    }
}

fn kv_batch(keys: Vec<Vec<u8>>, vals: Vec<Vec<u8>>, version: u64, tombstone: bool) -> (batch: Result<
    Batch,
    BatchError,
>)
    requires
        keys@.len() == vals@.len(),
        columns::total_bytes(order::key_views(keys@)) <= i32::MAX,
        columns::total_bytes(order::key_views(vals@)) <= i32::MAX,
    ensures
        batch matches Ok(b) && columns::batch_columns(b) == kv_columns(
            order::key_views(keys@),
            order::key_views(vals@),
            version,
            tombstone,
        ) && columns::batch_rows(b) == keys@.len(),
{
    let n: usize = keys.len();
    let ghost key_views = order::key_views(keys@);
    let ghost val_views = order::key_views(vals@);
    let schema = KvSchema::arrow_schema();
    let mut cols: Vec<Column> = Vec::new();
    let versions: Vec<u64> = vec![version; n];
    let tombstones: Vec<bool> = vec![tombstone; n];
    proof {
        assert(versions@ =~= Seq::new(n as nat, |i: int| version));
        assert(tombstones@ =~= Seq::new(n as nat, |i: int| tombstone));
    }
    cols.push(Column::Binary(keys));
    cols.push(Column::Binary(vals));
    cols.push(Column::UInt64(versions));
    cols.push(Column::Boolean(tombstones));
    let ghost views = columns::column_views(cols@);
    proof {
        assert(views.len() == 4);
        assert(views[0] == ColumnView::Binary(key_views));
        assert(views[1] == ColumnView::Binary(val_views));
        assert(views[2] == ColumnView::UInt64(versions@));
        assert(views[3] == ColumnView::Boolean(tombstones@));
        lemma_kv_columns(views, key_views, val_views, version, tombstone);
    }
    match make_batch(schema, cols) {
        Ok(b) => Ok(b),
        Err(_) => Err(BatchError::InvalidArgument("columns do not fit the schema".to_owned())),
    }
}

fn dataset_batch(
    keys: Vec<Vec<u8>>,
    vals: Vec<Vec<u8>>,
    version: u64,
    tombstone: bool,
    seqs: &[u64],
) -> (batch: Result<Batch, BatchError>)
    requires
        keys@.len() == vals@.len(),
        keys@.len() == seqs@.len(),
        columns::total_bytes(order::key_views(keys@)) <= i32::MAX,
        columns::total_bytes(order::key_views(vals@)) <= i32::MAX,
    ensures
        batch matches Ok(b) && columns::batch_columns(b) == dataset_columns(
            order::key_views(keys@),
            order::key_views(vals@),
            version,
            tombstone,
            seqs@,
        ) && columns::batch_rows(b) == keys@.len(),
{
    let n: usize = keys.len();
    let ghost key_views = order::key_views(keys@);
    let ghost val_views = order::key_views(vals@);
    let schema = KvSchema::dataset_schema();
    let mut cols: Vec<Column> = Vec::new();
    let versions: Vec<u64> = vec![version; n];
    let tombstones: Vec<bool> = vec![tombstone; n];
    let numbers: Vec<u64> = vstd::slice::slice_to_vec(seqs);
    proof {
        assert(versions@ =~= Seq::new(n as nat, |i: int| version));
        assert(tombstones@ =~= Seq::new(n as nat, |i: int| tombstone));
        assert(numbers@ =~= seqs@);
    }
    cols.push(Column::Binary(keys));
    cols.push(Column::Binary(vals));
    cols.push(Column::UInt64(versions));
    cols.push(Column::Boolean(tombstones));
    cols.push(Column::UInt64(numbers));
    let ghost views = columns::column_views(cols@);
    proof {
        assert(views.len() == 5);
        assert(views[0] == ColumnView::Binary(key_views));
        assert(views[1] == ColumnView::Binary(val_views));
        assert(views[2] == ColumnView::UInt64(versions@));
        assert(views[3] == ColumnView::Boolean(tombstones@));
        assert(views[4] == ColumnView::UInt64(numbers@));
        lemma_dataset_columns(views, key_views, val_views, version, tombstone, seqs@);
    }
    match make_batch(schema, cols) {
        Ok(b) => Ok(b),
        Err(_) => Err(BatchError::InvalidArgument("columns do not fit the schema".to_owned())),
    }
}

fn literal_text(key: &Key) -> (s: String)
    ensures
        s@ == literal(key@),
{
    let mut s = joined("X'", hex_encode(key).as_str());
    s.append("'");
    s
}

fn not_parallel_text(function: &str, seqs: usize, rows: &str, n: usize) -> (s: String)
    ensures
        s@ == not_parallel(function@, seqs as nat, rows@, n as nat),
{
    let mut s = joined(function, ": seqs (");
    s.append(decimal_text(seqs as u64).as_str());
    s.append(") must be parallel to ");
    s.append(rows);
    s.append(" (");
    s.append(decimal_text(n as u64).as_str());
    s.append(")");
    s
}

/// The layout of key-value rows.
pub struct KvSchema;

impl KvSchema {
    /// The Arrow schema of a key-value row.
    pub fn arrow_schema() -> (schema: Schema)
        ensures
            columns::schema_fields(schema) == kv_fields(),
    {
        let mut fields: Vec<ColumnField> = Vec::new();
        fields.push(ColumnField { name: "key", kind: ColumnKind::Binary, nullable: false });
        fields.push(ColumnField { name: "val", kind: ColumnKind::Binary, nullable: false });
        fields.push(ColumnField { name: "version", kind: ColumnKind::UInt64, nullable: false });
        fields.push(ColumnField { name: "tombstone", kind: ColumnKind::Boolean, nullable: false });
        proof {
            assert(columns::field_views(fields@) =~= kv_fields());
        }
        make_schema(&fields)
    }

    /// The schema behind a reference count.
    pub fn arrow_schema_ref() -> (schema: Arc<Schema>)
        ensures
            columns::schema_fields(*schema) == kv_fields(),
    {
        Arc::new(Self::arrow_schema())
    }

    /// The Arrow schema of the dataset.
    pub fn dataset_schema() -> (schema: Schema)
        ensures
            columns::schema_fields(schema) == dataset_fields(),
    {
        let mut fields: Vec<ColumnField> = Vec::new();
        fields.push(ColumnField { name: "key", kind: ColumnKind::Binary, nullable: false });
        fields.push(ColumnField { name: "val", kind: ColumnKind::Binary, nullable: false });
        fields.push(ColumnField { name: "version", kind: ColumnKind::UInt64, nullable: false });
        fields.push(ColumnField { name: "tombstone", kind: ColumnKind::Boolean, nullable: false });
        fields.push(ColumnField { name: "seq", kind: ColumnKind::UInt64, nullable: false });
        proof {
            assert(columns::field_views(fields@) =~= dataset_fields());
        }
        make_schema(&fields)
    }

    /// A batch of live rows at `version`.
    pub fn build_write_batch(writes: &[(Key, Val)], version: u64) -> (batch: Result<
        Batch,
        BatchError,
    >)
        requires
            columns::total_bytes(pair_keys(writes@)) <= i32::MAX,
            columns::total_bytes(pair_vals(writes@)) <= i32::MAX,
        ensures
            batch matches Ok(b) && columns::batch_columns(b) == kv_columns(
                pair_keys(writes@),
                pair_vals(writes@),
                version,
                false,
            ) && columns::batch_rows(b) == writes@.len(),
    {
        let (keys, vals) = copy_pairs(writes);
        proof {
            assert(order::key_views(keys@).len() == writes@.len());
            assert(order::key_views(vals@).len() == writes@.len());
        }
        kv_batch(keys, vals, version, false)
    }

    /// A batch of deletion marks for the given keys at `version`.
    pub fn build_tombstone_batch(deletes: &[Key], version: u64) -> (batch: Result<
        Batch,
        BatchError,
    >)
        requires
            columns::total_bytes(order::key_views(deletes@)) <= i32::MAX,
        ensures
            batch matches Ok(b) && columns::batch_columns(b) == kv_columns(
                order::key_views(deletes@),
                no_vals(deletes@.len()),
                version,
                true,
            ) && columns::batch_rows(b) == deletes@.len(),
    {
        let (keys, vals) = copy_keys(deletes);
        proof {
            lemma_no_bytes(deletes@.len());
            assert(order::key_views(keys@).len() == deletes@.len());
            assert(order::key_views(vals@).len() == deletes@.len());
        }
        kv_batch(keys, vals, version, true)
    }

    /// A batch of live dataset rows at `version`, with one sequence number for
    /// each.
    pub fn build_write_batch_lance(writes: &[(Key, Val)], version: u64, seqs: &[u64]) -> (batch: Result<
        Batch,
        BatchError,
    >)
        requires
            writes@.len() == seqs@.len() ==> columns::total_bytes(pair_keys(writes@)) <= i32::MAX,
            writes@.len() == seqs@.len() ==> columns::total_bytes(pair_vals(writes@)) <= i32::MAX,
        ensures
            match batch {
                Ok(b) => {
                    &&& writes@.len() == seqs@.len()
                    &&& columns::batch_columns(b) == dataset_columns(
                        pair_keys(writes@),
                        pair_vals(writes@),
                        version,
                        false,
                        seqs@,
                    )
                    &&& columns::batch_rows(b) == writes@.len()
                },
                Err(e) => {
                    &&& writes@.len() != seqs@.len()
                    &&& e@ == not_parallel(
                        "build_write_batch_lance"@,
                        seqs@.len(),
                        "writes"@,
                        writes@.len(),
                    )
                },
            },
    {
        if writes.len() != seqs.len() {
            return Err(
                BatchError::InvalidArgument(
                    not_parallel_text(
                        "build_write_batch_lance",
                        seqs.len(),
                        "writes",
                        writes.len(),
                    ),
                ),
            );
        }
        let (keys, vals) = copy_pairs(writes);
        proof {
            assert(order::key_views(keys@).len() == writes@.len());
            assert(order::key_views(vals@).len() == writes@.len());
        }
        dataset_batch(keys, vals, version, false, seqs)
    }

    /// A batch of deletion marks for the dataset at `version`, with one
    /// sequence number for each. A write batch and a batch of deletion marks
    /// have one schema, so that one merge takes both.
    pub fn build_tombstone_batch_lance(deletes: &[Key], version: u64, seqs: &[u64]) -> (batch: Result<
        Batch,
        BatchError,
    >)
        requires
            deletes@.len() == seqs@.len() ==> columns::total_bytes(order::key_views(deletes@))
                <= i32::MAX,
        ensures
            match batch {
                Ok(b) => {
                    &&& deletes@.len() == seqs@.len()
                    &&& columns::batch_columns(b) == dataset_columns(
                        order::key_views(deletes@),
                        no_vals(deletes@.len()),
                        version,
                        true,
                        seqs@,
                    )
                    &&& columns::batch_rows(b) == deletes@.len()
                },
                Err(e) => {
                    &&& deletes@.len() != seqs@.len()
                    &&& e@ == not_parallel(
                        "build_tombstone_batch_lance"@,
                        seqs@.len(),
                        "deletes"@,
                        deletes@.len(),
                    )
                },
            },
    {
        if deletes.len() != seqs.len() {
            return Err(
                BatchError::InvalidArgument(
                    not_parallel_text(
                        "build_tombstone_batch_lance",
                        seqs.len(),
                        "deletes",
                        deletes.len(),
                    ),
                ),
            );
        }
        let (keys, vals) = copy_keys(deletes);
        proof {
            lemma_no_bytes(deletes@.len());
            assert(order::key_views(keys@).len() == deletes@.len());
            assert(order::key_views(vals@).len() == deletes@.len());
        }
        dataset_batch(keys, vals, version, true, seqs)
    }

    /// The filter that selects the rows of the given keys.
    pub fn build_delete_predicate(deletes: &[Key]) -> (s: String)
        ensures
            s@ == delete_predicate(order::key_views(deletes@)),
    {
        if deletes.len() == 0 {
            return "false".to_owned();
        }
        let ghost keys = order::key_views(deletes@);
        let mut list = literal_text(&deletes[0]);
        let mut i: usize = 1;
        proof {
            assert(keys.take(1)[0] == keys[0]);
        }
        while i < deletes.len()
            invariant
                1 <= i <= deletes@.len(),
                keys == order::key_views(deletes@),
                list@ == literal_list(keys.take(i as int)),
            decreases deletes@.len() - i,
        {
            proof {
                assert(keys.take(i + 1).drop_last() =~= keys.take(i as int));
                assert(keys.take(i + 1).last() == keys[i as int]);
            }
            list.append(", ");
            list.append(literal_text(&deletes[i]).as_str());
            i += 1;
        }
        proof {
            assert(keys.take(keys.len() as int) =~= keys);
        }
        let mut s = joined("key IN (", list.as_str());
        s.append(")");
        s
    }

    /// The filter for the live row of `key`.
    pub fn build_get_predicate(key: &Key) -> (s: String)
        ensures
            s@ == get_predicate(key@),
    {
        let mut s = joined("key = ", literal_text(key).as_str());
        s.append(" AND tombstone = false");
        s
    }

    /// The filter for the live rows of the half-open key range.
    pub fn build_range_predicate(start: &Key, end: &Key) -> (s: String)
        ensures
            s@ == range_predicate(start@, end@),
    {
        let mut s = joined("key >= ", literal_text(start).as_str());
        s.append(" AND key < ");
        s.append(literal_text(end).as_str());
        s.append(" AND tombstone = false");
        s
    }
}

} // verus!
