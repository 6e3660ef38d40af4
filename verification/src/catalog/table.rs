//! Table definitions.

use vstd::prelude::*;

use crate::catalog::expr;
use crate::catalog::expr::{copy_strings, join_idents, Expr, ExprView, Kind, KindView, TableName};
use crate::catalog::revision_error::{RevisionError, RevisionErrorView};
use crate::catalog::statements;
use crate::catalog::statements::{comment_to_expr, ChangeFeed, DefineKind, DefineTableStatement};
use crate::catalog::statements::{DefineTableView, Permissions, PermissionsView, ViewDefinition};
use crate::catalog::value;
use crate::catalog::value::{put_entry, put_optional, Value, ValueView};
use crate::text::joined;

verus! {

/// The number of a namespace.
#[derive(Clone, Copy, Debug, PartialEq, Eq, PartialOrd, Ord, Hash, Structural)]
pub struct NamespaceId(pub u32);

/// The number of a database.
#[derive(Clone, Copy, Debug, PartialEq, Eq, PartialOrd, Ord, Hash, Structural)]
pub struct DatabaseId(pub u32);

/// The number of a table.
#[derive(Clone, Copy, Debug, PartialEq, Eq, PartialOrd, Ord, Hash, Structural)]
pub struct TableId(pub u32);

/// The little-endian number in `b`.
pub open spec fn le(b: Seq<u8>) -> nat
    decreases b.len(),
{
    if b.len() == 0 {
        0
    } else {
        b[0] as nat + 256 * le(b.skip(1))
    }
}

/// The lowest byte of `n`.
pub open spec fn low(n: nat) -> u8 {
    (n % 256) as u8
}

/// A number as it is stored: one byte below 251, else a mark and two or four
/// bytes.
pub open spec fn stored_u32(n: u32) -> Seq<u8> {
    if n < 251 {
        seq![n as u8]
    } else if n < 65536 {
        seq![251u8, low(n as nat), low(n as nat / 256)]
    } else {
        seq![
            252u8,
            low(n as nat),
            low(n as nat / 256),
            low(n as nat / 65536),
            low(n as nat / 16777216),
        ]
    }
}

/// The number at the head of stored bytes.
pub open spec fn read_u32(b: Seq<u8>) -> Result<u32, RevisionErrorView> {
    if b.len() == 0 {
        Err(RevisionErrorView::Truncated)
    } else if b[0] < 251 {
        Ok(b[0] as u32)
    } else if b[0] == 254 {
        Err(RevisionErrorView::IntegerOverflow)
    } else if b[0] == 255 {
        Err(RevisionErrorView::InvalidIntegerEncoding)
    } else {
        let width: int = if b[0] == 251 {
            2
        } else if b[0] == 252 {
            4
        } else {
            8
        };
        if b.len() < 1 + width {
            Err(RevisionErrorView::Truncated)
        } else if le(b.subrange(1, 1 + width)) > u32::MAX {
            Err(RevisionErrorView::IntegerOverflow)
        } else {
            Ok(le(b.subrange(1, 1 + width)) as u32)
        }
    }
}

/// `revision::to_vec` of a `u32`: below 251 the number is one byte; below
/// 65536 the byte 251 and two bytes, lowest first; else the byte 252 and four
/// bytes, lowest first. Writing to a vector does not fail.
#[verifier::external_body]
fn encode_u32(n: u32) -> (r: Result<Vec<u8>, RevisionError>)
    ensures
        r matches Ok(b) ==> b@ == stored_u32(n),
        r is Ok,
{
    revision::to_vec(&n).map_err(|_| RevisionError::Other)
}

/// `revision::from_slice` of a `u32`: the number at the head of the bytes.
/// The bytes 251, 252 and 253 announce two, four and eight bytes, lowest
/// first. Too few bytes are an i/o error; 254, and a number beyond a `u32`,
/// an overflow; 255 an invalid encoding. Bytes behind the number are not read.
#[verifier::external_body]
fn decode_u32(bytes: &[u8]) -> (r: Result<u32, RevisionError>)
    ensures
        match r {
            Ok(n) => read_u32(bytes@) == Ok::<u32, RevisionErrorView>(n),
            Err(e) => read_u32(bytes@) == Err::<u32, RevisionErrorView>(e@),
        },
{
    revision::from_slice::<u32>(bytes).map_err(
        |e|
            match e {
                revision::Error::Io(_) => RevisionError::Truncated,
                revision::Error::IntegerOverflow => RevisionError::IntegerOverflow,
                revision::Error::InvalidIntegerEncoding => RevisionError::InvalidIntegerEncoding,
                revision::Error::Conversion(s) => RevisionError::Conversion(s),
                _ => RevisionError::Other,
            },
    )
}

impl TableId {
    /// The revision of the stored form.
    pub fn revision() -> (r: u16)
        ensures
            r == 1,
    {
        1
    }

    /// Appends the stored form.
    pub fn serialize_revisioned(&self, writer: &mut Vec<u8>) -> (r: Result<(), RevisionError>)
        ensures
            r is Ok,
            final(writer)@ == old(writer)@ + stored_u32(self.0),
    {
        match encode_u32(self.0) {
            Ok(b) => {
                let mut b = b;
                writer.append(&mut b);
                Ok(())
            },
            Err(e) => Err(e),
        }
    }

    /// The number at the head of stored bytes.
    pub fn deserialize_revisioned(reader: &[u8]) -> (r: Result<TableId, RevisionError>)
        ensures
            match r {
                Ok(id) => read_u32(reader@) == Ok::<u32, RevisionErrorView>(id.0),
                Err(e) => read_u32(reader@) == Err::<u32, RevisionErrorView>(e@),
            },
    {
        match decode_u32(reader) {
            Ok(n) => Ok(TableId(n)),
            Err(e) => Err(e),
        }
    }
}

proof fn lemma_le2(b: Seq<u8>)
    requires
        b.len() == 2,
    ensures
        le(b) == b[0] + 256 * b[1],
{
    reveal_with_fuel(le, 3);
    assert(b.skip(1)[0] == b[1]);
}

proof fn lemma_le4(b: Seq<u8>)
    requires
        b.len() == 4,
    ensures
        le(b) == b[0] + 256 * b[1] + 65536 * b[2] + 16777216 * b[3],
{
    reveal_with_fuel(le, 5);
    assert(b.skip(1)[0] == b[1]);
    assert(b.skip(1).skip(1)[0] == b[2]);
    assert(b.skip(1).skip(1).skip(1)[0] == b[3]);
}

/// A stored number is read back, whatever follows it.
pub proof fn stored_numbers_are_read_back(n: u32, tail: Seq<u8>)
    ensures
        read_u32(stored_u32(n) + tail) == Ok::<u32, RevisionErrorView>(n),
{
    let b = stored_u32(n) + tail;
    if n >= 65536 {
        lemma_le4(b.subrange(1, 5));
    } else if n >= 251 {
        lemma_le2(b.subrange(1, 3));
    }
}

/// A universally unique identifier.
#[derive(Clone, Copy, Debug, PartialEq, Eq, PartialOrd, Ord, Hash, Structural)]
pub struct Uuid(pub u128);

/// The version that an identifier names.
pub open spec fn uuid_version(bits: u128) -> u128 {
    (bits >> 76) & 0xf
}

/// The variant that an identifier names.
pub open spec fn uuid_variant(bits: u128) -> u128 {
    (bits >> 62) & 3
}

/// `uuid::Uuid::now_v7`, by `as_u128`: an identifier of version 7 and of the
/// variant 2. Its other bits come from the clock and from chance; nothing is
/// said of them.
#[verifier::external_body]
fn now_v7_bits() -> (bits: u128)
    ensures
        uuid_version(bits) == 7,
        uuid_variant(bits) == 2,
{
    uuid::Uuid::now_v7().as_u128()
}

impl Uuid {
    /// The identifier whose bits are all zero.
    pub fn nil() -> (id: Self)
        ensures
            id.0 == 0,
    {
        Uuid(0)
    }

    /// A fresh identifier, ordered by time.
    pub fn now_v7() -> (id: Self)
        ensures
            uuid_version(id.0) == 7,
            uuid_variant(id.0) == 2,
            id.0 != 0,
    {
        let bits: u128 = now_v7_bits();
        proof {
            assert((bits >> 76) & 0xf == 7 ==> bits != 0) by (bit_vector);
        }
        Uuid(bits)
    }
}

/// The tables that a relation joins.
#[derive(Debug, PartialEq, Eq)]
pub struct Relation {
    /// The tables the relation originates from; empty where there was no
    /// `IN` clause.
    pub from: Vec<String>,
    /// The tables the relation goes to; empty where there was no `OUT`
    /// clause.
    pub to: Vec<String>,
    pub enforced: bool,
}

/// What a [`Relation`] says.
pub struct RelationView {
    pub from: Seq<Seq<char>>,
    pub to: Seq<Seq<char>>,
    pub enforced: bool,
}

impl View for Relation {
    type V = RelationView;

    open spec fn view(&self) -> RelationView {
        RelationView {
            from: expr::string_views(self.from@),
            to: expr::string_views(self.to@),
            enforced: self.enforced,
        }
    }
}

impl Clone for Relation {
    fn clone(&self) -> (copy: Self)
        ensures
            copy@ == self@,
    {
        Relation {
            from: copy_strings(&self.from),
            to: copy_strings(&self.to),
            enforced: self.enforced,
        }
    }
}

/// The tables that the first revision of a relation named by a type, or why
/// it is refused; `None` where it named no type.
pub open spec fn relation_tables(value: Option<KindView>) -> Option<
    Result<Seq<Seq<char>>, RevisionErrorView>,
> {
    match value {
        None => None,
        Some(KindView::Record(tables)) => Some(Ok(tables)),
        Some(k) => Some(
            Err(
                RevisionErrorView::Conversion(
                    "Invalid kind within table relation, should have been a record, found: "@
                        + expr::kind_debug(k, Seq::empty()),
                ),
            ),
        ),
    }
}

fn convert_tables(value: Option<Kind>) -> (r: Result<Option<Vec<String>>, RevisionError>)
    ensures
        match (r, relation_tables(statements::opt_kind(value))) {
            (Ok(None), None) => true,
            (Ok(Some(names)), Some(Ok(tables))) => expr::string_views(names@) == tables,
            (Err(e), Some(Err(f))) => e@ == f,
            _ => false,
        },
{
    match value {
        None => Ok(None),
        Some(Kind::Record(tables)) => {
            let mut names: Vec<String> = Vec::new();
            let mut i: usize = 0;
            while i < tables.len()
                invariant
                    i <= tables@.len(),
                    names@.len() == i,
                    forall|j: int| 0 <= j < i ==> (#[trigger] names@[j])@ == tables@[j]@,
                decreases tables@.len() - i,
            {
                names.push(tables[i].clone().into_string());
                i += 1;
            }
            proof {
                assert(expr::string_views(names@) =~= expr::table_views(tables@));
            }
            Ok(Some(names))
        },
        Some(k) => Err(
            RevisionError::Conversion(
                joined(
                    "Invalid kind within table relation, should have been a record, found: ",
                    k.debug_text().as_str(),
                ),
            ),
        ),
    }
}

impl Relation {
    /// Takes over the `IN` tables of the first revision, which held them as a
    /// type.
    pub fn rev_convert_from(&mut self, _rev: u16, value: Option<Kind>) -> (r: Result<
        (),
        RevisionError,
    >)
        ensures
            match relation_tables(statements::opt_kind(value)) {
                None => r is Ok && *final(self) == *old(self),
                Some(Ok(tables)) => {
                    &&& r is Ok
                    &&& final(self)@ == (RelationView { from: tables, ..old(self)@ })
                },
                Some(Err(e)) => r matches Err(f) && f@ == e && *final(self) == *old(self),
            },
    {
        match convert_tables(value)? {
            Some(names) => {
                self.from = names;
            },
            None => {},
        }
        Ok(())
    }

    /// Takes over the `OUT` tables of the first revision, which held them as
    /// a type.
    pub fn rev_convert_to(&mut self, _rev: u16, value: Option<Kind>) -> (r: Result<
        (),
        RevisionError,
    >)
        ensures
            match relation_tables(statements::opt_kind(value)) {
                None => r is Ok && *final(self) == *old(self),
                Some(Ok(tables)) => {
                    &&& r is Ok
                    &&& final(self)@ == (RelationView { to: tables, ..old(self)@ })
                },
                Some(Err(e)) => r matches Err(f) && f@ == e && *final(self) == *old(self),
            },
    {
        match convert_tables(value)? {
            Some(names) => {
                self.to = names;
            },
            None => {},
        }
        Ok(())
    }
}

/// The type of records stored by a table.
#[derive(Debug, PartialEq, Eq)]
pub enum TableType {
    Any,
    Normal,
    Relation(Relation),
}

/// What a [`TableType`] says.
pub enum TableTypeView {
    Any,
    Normal,
    Relation(RelationView),
}

impl View for TableType {
    type V = TableTypeView;

    open spec fn view(&self) -> TableTypeView {
        match *self {
            TableType::Any => TableTypeView::Any,
            TableType::Normal => TableTypeView::Normal,
            TableType::Relation(r) => TableTypeView::Relation(r@),
        }
    }
}

impl Default for TableType {
    fn default() -> (t: Self)
        ensures
            t == TableType::Any,
    {
        TableType::Any
    }
}

impl Clone for TableType {
    fn clone(&self) -> (copy: Self)
        ensures
            copy@ == self@,
    {
        match self {
            TableType::Any => TableType::Any,
            TableType::Normal => TableType::Normal,
            TableType::Relation(r) => TableType::Relation(r.clone()),
        }
    }
}

/// One side of a relation: nothing where no table is named.
pub open spec fn side_sql(word: Seq<char>, tables: Seq<Seq<char>>) -> Seq<char> {
    if tables.len() == 0 {
        Seq::empty()
    } else {
        word + expr::joined_parts(
            Seq::new(tables.len(), |i: int| expr::ident_sql(tables[i])),
            " | "@,
        )
    }
}

/// The text of a table type.
pub open spec fn table_type_sql(t: TableTypeView) -> Seq<char> {
    match t {
        TableTypeView::Any => "ANY"@,
        TableTypeView::Normal => "NORMAL"@,
        TableTypeView::Relation(r) => "RELATION"@ + side_sql(" IN "@, r.from) + side_sql(
            " OUT "@,
            r.to,
        ) + statements::flag(r.enforced, " ENFORCED"@),
    }
}

/// The description of one side of a relation.
pub open spec fn side_structure(tables: Seq<Seq<char>>) -> Option<ValueView> {
    if tables.len() == 0 {
        None
    } else {
        Some(ValueView::Array(Seq::new(tables.len(), |i: int| ValueView::String(tables[i]))))
    }
}

/// The description of a table type.
pub open spec fn table_type_structure(t: TableTypeView) -> ValueView {
    match t {
        TableTypeView::Any => ValueView::Object(
            value::no_entries() + value::entry("kind"@, Some(ValueView::String("ANY"@))),
        ),
        TableTypeView::Normal => ValueView::Object(
            value::no_entries() + value::entry("kind"@, Some(ValueView::String("NORMAL"@))),
        ),
        TableTypeView::Relation(r) => ValueView::Object(
            value::no_entries() + value::entry("enforced"@, Some(ValueView::Bool(r.enforced)))
                + value::entry("in"@, side_structure(r.from)) + value::entry(
                "kind"@,
                Some(ValueView::String("RELATION"@)),
            ) + value::entry("out"@, side_structure(r.to)),
        ),
    }
}

fn append_side(s: &mut String, word: &str, tables: &Vec<String>)
    ensures
        final(s)@ == old(s)@ + side_sql(word@, expr::string_views(tables@)),
{
    let ghost before = s@;
    let ghost names = expr::string_views(tables@);
    if tables.len() == 0 {
        proof {
            assert(before + side_sql(word@, names) =~= before);
        }
        return;
    }
    s.append(word);
    s.append(join_idents(tables, " | ").as_str());
    proof {
        assert(Seq::new(tables@.len(), |i: int| expr::ident_sql(tables@[i]@)) =~= Seq::new(
            names.len(),
            |i: int| expr::ident_sql(names[i]),
        ));
        assert(s@ =~= before + side_sql(word@, names));
    }
}

fn describe_side(tables: &Vec<String>) -> (v: Option<Value>)
    ensures
        (match v {
            Some(v) => Some(v@),
            None => None,
        }) == side_structure(expr::string_views(tables@)),
{
    if tables.len() == 0 {
        return None;
    }
    let names = copy_strings(tables);
    let ghost views = expr::string_views(names@);
    let v = Value::strings(names);
    proof {
        assert(views == expr::string_views(tables@));
        assert forall|i: int| 0 <= i < names@.len() implies names@[i]@ == views[i] by {}
        assert(v@->Array_0 =~= Seq::new(views.len(), |i: int| ValueView::String(views[i])));
    }
    Some(v)
}

impl TableType {
    pub fn to_sql(&self) -> (s: String)
        ensures
            s@ == table_type_sql(self@),
    {
        match self {
            TableType::Any => "ANY".to_owned(),
            TableType::Normal => "NORMAL".to_owned(),
            TableType::Relation(r) => {
                let mut s = "RELATION".to_owned();
                append_side(&mut s, " IN ", &r.from);
                append_side(&mut s, " OUT ", &r.to);
                if r.enforced {
                    s.append(" ENFORCED");
                } else {
                    proof {
                        assert(s@ + Seq::<char>::empty() =~= s@);
                    }
                }
                s
            },
        }
    }

    pub fn structure(&self) -> (v: Value)
        ensures
            v@ == table_type_structure(self@),
    {
        let mut entries: Vec<(String, Value)> = Vec::new();
        proof {
            assert(value::entry_views(entries@) =~= value::no_entries());
        }
        match self {
            TableType::Any => put_entry(&mut entries, "kind", Value::String("ANY".to_owned())),
            TableType::Normal => put_entry(
                &mut entries,
                "kind",
                Value::String("NORMAL".to_owned()),
            ),
            TableType::Relation(r) => {
                put_entry(&mut entries, "enforced", Value::Bool(r.enforced));
                put_optional(&mut entries, "in", describe_side(&r.from));
                put_entry(&mut entries, "kind", Value::String("RELATION".to_owned()));
                put_optional(&mut entries, "out", describe_side(&r.to));
            },
        }
        Value::object(entries)
    }
}

/// A table.
#[derive(Debug, PartialEq, Eq)]
pub struct TableDefinition {
    pub namespace_id: NamespaceId,
    pub database_id: DatabaseId,
    pub table_id: TableId,
    pub name: TableName,
    pub drop: bool,
    pub schemafull: bool,
    pub view: Option<ViewDefinition>,
    pub permissions: Permissions,
    pub changefeed: Option<ChangeFeed>,
    pub comment: Option<String>,
    pub table_type: TableType,
    /// The last time that a field was defined on this table.
    pub cache_fields_ts: Uuid,
    /// The last time that an event was defined on this table.
    pub cache_events_ts: Uuid,
    /// The last time that a table was defined on this table.
    pub cache_tables_ts: Uuid,
    /// The last time that an index was defined on this table.
    pub cache_indexes_ts: Uuid,
}

/// What a statement says of a table.
pub struct TableView {
    pub name: Seq<char>,
    pub drop: bool,
    pub schemafull: bool,
    pub view: Option<Seq<char>>,
    pub permissions: PermissionsView,
    pub changefeed: Option<ChangeFeed>,
    pub comment: Option<Seq<char>>,
    pub table_type: TableTypeView,
}

impl View for TableDefinition {
    type V = TableView;

    open spec fn view(&self) -> TableView {
        TableView {
            name: self.name@,
            drop: self.drop,
            schemafull: self.schemafull,
            view: statements::opt_view(self.view),
            permissions: self.permissions@,
            changefeed: self.changefeed,
            comment: statements::opt_text(self.comment),
            table_type: self.table_type@,
        }
    }
}

impl Clone for TableDefinition {
    fn clone(&self) -> (copy: Self)
        ensures
            copy@ == self@,
            copy.namespace_id == self.namespace_id,
            copy.database_id == self.database_id,
            copy.table_id == self.table_id,
            copy.cache_fields_ts == self.cache_fields_ts,
            copy.cache_events_ts == self.cache_events_ts,
            copy.cache_tables_ts == self.cache_tables_ts,
            copy.cache_indexes_ts == self.cache_indexes_ts,
    {
        TableDefinition {
            namespace_id: self.namespace_id,
            database_id: self.database_id,
            table_id: self.table_id,
            name: self.name.clone(),
            drop: self.drop,
            schemafull: self.schemafull,
            view: match &self.view {
                Some(v) => Some(v.clone()),
                None => None,
            },
            permissions: self.permissions.clone(),
            changefeed: self.changefeed,
            comment: match &self.comment {
                Some(c) => Some(c.clone()),
                None => None,
            },
            table_type: self.table_type.clone(),
            cache_fields_ts: self.cache_fields_ts,
            cache_events_ts: self.cache_events_ts,
            cache_tables_ts: self.cache_tables_ts,
            cache_indexes_ts: self.cache_indexes_ts,
        }
    }
}

/// The statement that defines a table.
pub open spec fn table_statement(t: TableView, id: u32) -> DefineTableView {
    DefineTableView {
        kind: DefineKind::Default,
        id: Some(id),
        name: ExprView::Table(t.name),
        drop: t.drop,
        full: t.schemafull,
        view: t.view,
        permissions: t.permissions,
        changefeed: t.changefeed,
        comment: statements::comment_expr(t.comment),
        table_type: t.table_type,
    }
}

/// The description of a table.
pub open spec fn table_structure(t: TableView, id: u32) -> ValueView {
    ValueView::Object(
        value::no_entries() + value::entry(
            "changefeed"@,
            match t.changefeed {
                Some(c) => Some(statements::changefeed_structure(c)),
                None => None,
            },
        ) + value::entry(
            "comment"@,
            match t.comment {
                Some(c) => Some(ValueView::String(c)),
                None => None,
            },
        ) + value::entry("drop"@, Some(ValueView::Bool(t.drop))) + value::entry(
            "id"@,
            Some(ValueView::Number(id as u64)),
        ) + value::entry("kind"@, Some(table_type_structure(t.table_type))) + value::entry(
            "name"@,
            Some(ValueView::String(t.name)),
        ) + value::entry("permissions"@, Some(statements::permissions_structure(t.permissions)))
            + value::entry("schemafull"@, Some(ValueView::Bool(t.schemafull))) + value::entry(
            "view"@,
            match t.view {
                Some(v) => Some(ValueView::String(v)),
                None => None,
            },
        ),
    )
}

/// A new table: any record, nothing set, nobody allowed anything.
pub open spec fn fresh_table(name: Seq<char>) -> TableView {
    TableView {
        name,
        drop: false,
        schemafull: false,
        view: None,
        permissions: statements::nobody(),
        changefeed: None,
        comment: None,
        table_type: TableTypeView::Any,
    }
}

impl TableDefinition {
    pub fn new(
        namespace_id: NamespaceId,
        database_id: DatabaseId,
        table_id: TableId,
        name: TableName,
    ) -> (t: Self)
        ensures
            t.namespace_id == namespace_id,
            t.database_id == database_id,
            t.table_id == table_id,
            t.name == name,
            t@ == fresh_table(name@),
            uuid_version(t.cache_fields_ts.0) == 7,
            t.cache_fields_ts.0 != 0,
            t.cache_events_ts == t.cache_fields_ts,
            t.cache_tables_ts == t.cache_fields_ts,
            t.cache_indexes_ts == t.cache_fields_ts,
    {
        let now = Uuid::now_v7();
        TableDefinition {
            namespace_id,
            database_id,
            table_id,
            name,
            drop: false,
            schemafull: false,
            view: None,
            permissions: Permissions::none(),
            changefeed: None,
            comment: None,
            table_type: TableType::default(),
            cache_fields_ts: now,
            cache_events_ts: now,
            cache_tables_ts: now,
            cache_indexes_ts: now,
        }
    }

    /// Whether this table allows normal records.
    pub fn allows_normal(&self) -> (b: bool)
        ensures
            b == !(self.table_type is Relation),
    {
        matches!(self.table_type, TableType::Normal | TableType::Any)
    }

    /// Whether this table allows graph edges.
    pub fn allows_relation(&self) -> (b: bool)
        ensures
            b == !(self.table_type is Normal),
    {
        matches!(self.table_type, TableType::Relation(_) | TableType::Any)
    }

    /// The statement that defines this table.
    pub fn to_sql_definition(&self) -> (s: DefineTableStatement)
        ensures
            s@ == table_statement(self@, self.table_id.0),
    {
        DefineTableStatement {
            kind: DefineKind::Default,
            id: Some(self.table_id.0),
            name: Expr::Table(self.name.clone().into_string()),
            drop: self.drop,
            full: self.schemafull,
            view: match &self.view {
                Some(v) => Some(v.clone()),
                None => None,
            },
            permissions: self.permissions.clone(),
            changefeed: self.changefeed,
            comment: comment_to_expr(&self.comment),
            table_type: self.table_type.clone(),
        }
    }

    /// The text of the statement that defines this table.
    pub fn to_sql(&self) -> (s: String)
        ensures
            s@ == statements::table_sql(table_statement(self@, self.table_id.0)),
    {
        self.to_sql_definition().to_sql()
    }

    /// A table to be rendered and not stored: its numbers are zero.
    pub fn new_for_ddl<N: Into<TableName>>(name: N) -> (t: Self)
        ensures
            t.namespace_id.0 == 0,
            t.database_id.0 == 0,
            t.table_id.0 == 0,
            call_ensures(N::into, (name,), t.name),
            t@ == fresh_table(t.name@),
            uuid_version(t.cache_fields_ts.0) == 7,
            t.cache_fields_ts.0 != 0,
            t.cache_events_ts == t.cache_fields_ts,
            t.cache_tables_ts == t.cache_fields_ts,
            t.cache_indexes_ts == t.cache_fields_ts,
    {
        TableDefinition::new(NamespaceId(0), DatabaseId(0), TableId(0), name.into())
    }

    /// Sets `schemafull`.
    #[must_use]
    pub fn with_schemafull(self, v: bool) -> (t: Self)
        ensures
            t == (TableDefinition { schemafull: v, ..self }),
    {
        let mut t = self;
        t.schemafull = v;
        t
    }

    /// Sets `drop`.
    #[must_use]
    pub fn with_drop(self, v: bool) -> (t: Self)
        ensures
            t == (TableDefinition { drop: v, ..self }),
    {
        let mut t = self;
        t.drop = v;
        t
    }

    /// Sets `comment`.
    #[must_use]
    pub fn with_comment(self, v: Option<String>) -> (t: Self)
        ensures
            t == (TableDefinition { comment: v, ..self }),
    {
        let mut t = self;
        t.comment = v;
        t
    }

    /// Sets `table_type`.
    #[must_use]
    pub fn with_table_type(self, v: TableType) -> (t: Self)
        ensures
            t == (TableDefinition { table_type: v, ..self }),
    {
        let mut t = self;
        t.table_type = v;
        t
    }

    /// Sets `view`.
    #[must_use]
    pub fn with_view(self, v: Option<ViewDefinition>) -> (t: Self)
        ensures
            t == (TableDefinition { view: v, ..self }),
    {
        let mut t = self;
        t.view = v;
        t
    }

    /// Sets `permissions`.
    #[must_use]
    pub fn with_permissions(self, v: Permissions) -> (t: Self)
        ensures
            t == (TableDefinition { permissions: v, ..self }),
    {
        let mut t = self;
        t.permissions = v;
        t
    }

    /// The description of this table.
    pub fn structure(self) -> (v: Value)
        ensures
            v@ == table_structure(self@, self.table_id.0),
    {
        let mut entries: Vec<(String, Value)> = Vec::new();
        proof {
            assert(value::entry_views(entries@) =~= value::no_entries());
        }
        put_optional(
            &mut entries,
            "changefeed",
            match self.changefeed {
                Some(c) => Some(c.structure()),
                None => None,
            },
        );
        put_optional(
            &mut entries,
            "comment",
            match self.comment {
                Some(c) => Some(Value::String(c)),
                None => None,
            },
        );
        put_entry(&mut entries, "drop", Value::Bool(self.drop));
        put_entry(&mut entries, "id", Value::Number(self.table_id.0 as u64));
        put_entry(&mut entries, "kind", self.table_type.structure());
        put_entry(&mut entries, "name", Value::String(self.name.into_string()));
        put_entry(&mut entries, "permissions", self.permissions.structure());
        put_entry(&mut entries, "schemafull", Value::Bool(self.schemafull));
        put_optional(
            &mut entries,
            "view",
            match self.view {
                Some(v) => Some(Value::String(v.select)),
                None => None,
            },
        );
        Value::object(entries)
    }
}

/// The text of a table depends only on what its definition says: two
/// definitions that differ in their numbers and in the times kept for caches
/// have the same text.
pub proof fn text_depends_on_the_definition(a: TableDefinition, b: TableDefinition)
    requires
        a@ == b@,
    ensures
        statements::table_sql(table_statement(a@, a.table_id.0)) == statements::table_sql(
            table_statement(b@, b.table_id.0),
        ),
{
}

} // verus!
