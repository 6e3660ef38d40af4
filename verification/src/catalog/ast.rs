//! Definitions as a generator of schemas writes them: a table holds its fields
//! and its indexes.

use vstd::prelude::*;

use crate::catalog::expr;
use crate::catalog::expr::{copy_strings, escape_ident, join_idents, quote_text};
use crate::catalog::statements;
use crate::text::joined;

verus! {

/// The type of a field.
#[derive(Debug, PartialEq, Eq)]
pub enum Kind {
    Any,
    Int,
    String,
    Bool,
    Float,
    Decimal,
    Datetime,
    Bytes,
    Uuid,
    /// A record of one of the tables, or of any where none is named.
    Record(Vec<String>),
    /// The type, or nothing.
    Option(Box<Kind>),
}

/// What a [`Kind`] says.
pub enum KindView {
    Any,
    Int,
    String,
    Bool,
    Float,
    Decimal,
    Datetime,
    Bytes,
    Uuid,
    Record(Seq<Seq<char>>),
    Option(Box<KindView>),
}

pub open spec fn kind_view(k: Kind) -> KindView
    decreases k,
{
    match k {
        Kind::Any => KindView::Any,
        Kind::Int => KindView::Int,
        Kind::String => KindView::String,
        Kind::Bool => KindView::Bool,
        Kind::Float => KindView::Float,
        Kind::Decimal => KindView::Decimal,
        Kind::Datetime => KindView::Datetime,
        Kind::Bytes => KindView::Bytes,
        Kind::Uuid => KindView::Uuid,
        Kind::Record(v) => KindView::Record(expr::string_views(v@)),
        Kind::Option(inner) => KindView::Option(Box::new(kind_view(*inner))),
    }
}

impl View for Kind {
    type V = KindView;

    open spec fn view(&self) -> KindView {
        kind_view(*self)
    }
}

impl Clone for Kind {
    fn clone(&self) -> (copy: Self)
        ensures
            copy@ == self@,
        decreases self,
    {
        match self {
            Kind::Any => Kind::Any,
            Kind::Int => Kind::Int,
            Kind::String => Kind::String,
            Kind::Bool => Kind::Bool,
            Kind::Float => Kind::Float,
            Kind::Decimal => Kind::Decimal,
            Kind::Datetime => Kind::Datetime,
            Kind::Bytes => Kind::Bytes,
            Kind::Uuid => Kind::Uuid,
            Kind::Record(v) => Kind::Record(copy_strings(v)),
            Kind::Option(inner) => Kind::Option(Box::new((&**inner).clone())),
        }
    }
}

/// The text of a type.
pub open spec fn kind_sql(k: KindView) -> Seq<char>
    decreases k,
{
    match k {
        KindView::Any => "any"@,
        KindView::Int => "int"@,
        KindView::String => "string"@,
        KindView::Bool => "bool"@,
        KindView::Float => "float"@,
        KindView::Decimal => "decimal"@,
        KindView::Datetime => "datetime"@,
        KindView::Bytes => "bytes"@,
        KindView::Uuid => "uuid"@,
        KindView::Record(v) => if v.len() == 0 {
            "record"@
        } else {
            "record<"@ + names_sql(v, " | "@) + ">"@
        },
        KindView::Option(inner) => "option<"@ + kind_sql(*inner) + ">"@,
    }
}

/// Names as they stand in a statement, with `sep` between each two.
pub open spec fn names_sql(names: Seq<Seq<char>>, sep: Seq<char>) -> Seq<char> {
    expr::joined_parts(Seq::new(names.len(), |i: int| expr::ident_sql(names[i])), sep)
}

fn join_names(names: &Vec<String>, sep: &str) -> (s: String)
    ensures
        s@ == names_sql(expr::string_views(names@), sep@),
{
    let ghost views = expr::string_views(names@);
    proof {
        assert(Seq::new(names@.len(), |i: int| expr::ident_sql(names@[i]@)) =~= Seq::new(
            views.len(),
            |i: int| expr::ident_sql(views[i]),
        ));
    }
    join_idents(names, sep)
}

impl Kind {
    /// This type, or nothing.
    pub fn optional(self) -> (k: Kind)
        ensures
            k == Kind::Option(Box::new(self)),
            k@ == KindView::Option(Box::new(self@)),
    {
        Kind::Option(Box::new(self))
    }

    pub fn to_sql(&self) -> (s: String)
        ensures
            s@ == kind_sql(self@),
        decreases self,
    {
        match self {
            Kind::Any => "any".to_owned(),
            Kind::Int => "int".to_owned(),
            Kind::String => "string".to_owned(),
            Kind::Bool => "bool".to_owned(),
            Kind::Float => "float".to_owned(),
            Kind::Decimal => "decimal".to_owned(),
            Kind::Datetime => "datetime".to_owned(),
            Kind::Bytes => "bytes".to_owned(),
            Kind::Uuid => "uuid".to_owned(),
            Kind::Record(v) => {
                if v.len() == 0 {
                    return "record".to_owned();
                }
                let mut s = joined("record<", join_names(v, " | ").as_str());
                s.append(">");
                s
            },
            Kind::Option(inner) => {
                let mut s = joined("option<", (&**inner).to_sql().as_str());
                s.append(">");
                s
            },
        }
    }
}

/// The type of records of a table.
#[derive(Clone, Copy, Debug, PartialEq, Eq, Structural)]
pub enum TableType {
    Normal,
}

/// A field.
#[derive(Debug, PartialEq, Eq)]
pub struct FieldDefinition {
    pub name: String,
    pub table: String,
    pub kind: Kind,
    /// The text of what every value must meet.
    pub assertion: Option<String>,
}

/// What a [`FieldDefinition`] says.
pub struct FieldView {
    pub name: Seq<char>,
    pub table: Seq<char>,
    pub kind: KindView,
    pub assertion: Option<Seq<char>>,
}

impl View for FieldDefinition {
    type V = FieldView;

    open spec fn view(&self) -> FieldView {
        FieldView {
            name: self.name@,
            table: self.table@,
            kind: self.kind@,
            assertion: statements::opt_text(self.assertion),
        }
    }
}

impl Clone for FieldDefinition {
    fn clone(&self) -> (copy: Self)
        ensures
            copy@ == self@,
    {
        FieldDefinition {
            name: self.name.clone(),
            table: self.table.clone(),
            kind: self.kind.clone(),
            assertion: match &self.assertion {
                Some(a) => Some(a.clone()),
                None => None,
            },
        }
    }
}

/// The text of a field.
pub open spec fn field_sql(f: FieldView) -> Seq<char> {
    "DEFINE FIELD "@ + expr::ident_sql(f.name) + " ON TABLE "@ + expr::ident_sql(f.table)
        + " TYPE "@ + kind_sql(f.kind) + (match f.assertion {
        Some(a) => " ASSERT "@ + a,
        None => Seq::empty(),
    }) + ";"@
}

impl FieldDefinition {
    /// A field that any value of its type may stand in.
    pub fn new(name: &str, table: &str, kind: Kind) -> (f: Self)
        ensures
            f@ == (FieldView { name: name@, table: table@, kind: kind@, assertion: None }),
    {
        FieldDefinition { name: name.to_owned(), table: table.to_owned(), kind, assertion: None }
    }

    /// Sets what every value must meet.
    #[must_use]
    pub fn with_assert(self, v: Option<String>) -> (f: Self)
        ensures
            f == (FieldDefinition { assertion: v, ..self }),
    {
        let mut f = self;
        f.assertion = v;
        f
    }

    pub fn to_sql(&self) -> (s: String)
        ensures
            s@ == field_sql(self@),
    {
        let mut s = joined("DEFINE FIELD ", escape_ident(self.name.as_str()).as_str());
        s.append(" ON TABLE ");
        s.append(escape_ident(self.table.as_str()).as_str());
        s.append(" TYPE ");
        s.append(self.kind.to_sql().as_str());
        let ghost head = s@;
        match &self.assertion {
            Some(a) => {
                s.append(" ASSERT ");
                s.append(a.as_str());
                proof {
                    assert(s@ =~= head + (" ASSERT "@ + a@));
                }
            },
            None => {
                proof {
                    assert(head + Seq::<char>::empty() =~= head);
                }
            },
        }
        s.append(";");
        s
    }
}

/// An index.
#[derive(Debug, PartialEq, Eq)]
pub struct IndexDefinition {
    pub name: String,
    pub table: String,
    pub fields: Vec<String>,
}

/// What an [`IndexDefinition`] says.
pub struct IndexView {
    pub name: Seq<char>,
    pub table: Seq<char>,
    pub fields: Seq<Seq<char>>,
}

impl View for IndexDefinition {
    type V = IndexView;

    open spec fn view(&self) -> IndexView {
        IndexView {
            name: self.name@,
            table: self.table@,
            fields: expr::string_views(self.fields@),
        }
    }
}

impl Clone for IndexDefinition {
    fn clone(&self) -> (copy: Self)
        ensures
            copy@ == self@,
    {
        IndexDefinition {
            name: self.name.clone(),
            table: self.table.clone(),
            fields: copy_strings(&self.fields),
        }
    }
}

/// The text of an index.
pub open spec fn index_sql(i: IndexView) -> Seq<char> {
    "DEFINE INDEX "@ + expr::ident_sql(i.name) + " ON TABLE "@ + expr::ident_sql(i.table)
        + " FIELDS "@ + names_sql(i.fields, ", "@) + ";"@
}

impl IndexDefinition {
    pub fn new(name: &str, table: &str, fields: Vec<String>) -> (i: Self)
        ensures
            i@ == (IndexView {
                name: name@,
                table: table@,
                fields: expr::string_views(fields@),
            }),
    {
        IndexDefinition { name: name.to_owned(), table: table.to_owned(), fields }
    }

    pub fn to_sql(&self) -> (s: String)
        ensures
            s@ == index_sql(self@),
    {
        let mut s = joined("DEFINE INDEX ", escape_ident(self.name.as_str()).as_str());
        s.append(" ON TABLE ");
        s.append(escape_ident(self.table.as_str()).as_str());
        s.append(" FIELDS ");
        s.append(join_names(&self.fields, ", ").as_str());
        s.append(";");
        s
    }
}

/// A table with its fields and its indexes.
#[derive(Debug, PartialEq, Eq)]
pub struct TableDefinition {
    pub name: String,
    pub schemafull: bool,
    pub drop: bool,
    pub comment: Option<String>,
    pub table_type: TableType,
    pub fields: Vec<FieldDefinition>,
    pub indices: Vec<IndexDefinition>,
}

/// What a [`TableDefinition`] says.
pub struct TableView {
    pub name: Seq<char>,
    pub schemafull: bool,
    pub drop: bool,
    pub comment: Option<Seq<char>>,
    pub table_type: TableType,
    pub fields: Seq<FieldView>,
    pub indices: Seq<IndexView>,
}

/// The views of fields.
pub open spec fn field_views(v: Seq<FieldDefinition>) -> Seq<FieldView> {
    Seq::new(v.len(), |i: int| v[i]@)
}

/// The views of indexes.
pub open spec fn index_views(v: Seq<IndexDefinition>) -> Seq<IndexView> {
    Seq::new(v.len(), |i: int| v[i]@)
}

impl View for TableDefinition {
    type V = TableView;

    open spec fn view(&self) -> TableView {
        TableView {
            name: self.name@,
            schemafull: self.schemafull,
            drop: self.drop,
            comment: statements::opt_text(self.comment),
            table_type: self.table_type,
            fields: field_views(self.fields@),
            indices: index_views(self.indices@),
        }
    }
}

impl Clone for TableDefinition {
    fn clone(&self) -> (copy: Self)
        ensures
            copy@ == self@,
    {
        let mut fields: Vec<FieldDefinition> = Vec::new();
        let mut i: usize = 0;
        while i < self.fields.len()
            invariant
                i <= self.fields@.len(),
                fields@.len() == i,
                forall|j: int| 0 <= j < i ==> (#[trigger] fields@[j])@ == self.fields@[j]@,
            decreases self.fields@.len() - i,
        {
            fields.push(self.fields[i].clone());
            i += 1;
        }
        let mut indices: Vec<IndexDefinition> = Vec::new();
        let mut i: usize = 0;
        while i < self.indices.len()
            invariant
                i <= self.indices@.len(),
                indices@.len() == i,
                forall|j: int| 0 <= j < i ==> (#[trigger] indices@[j])@ == self.indices@[j]@,
            decreases self.indices@.len() - i,
        {
            indices.push(self.indices[i].clone());
            i += 1;
        }
        proof {
            assert(field_views(fields@) =~= field_views(self.fields@));
            assert(index_views(indices@) =~= index_views(self.indices@));
        }
        TableDefinition {
            name: self.name.clone(),
            schemafull: self.schemafull,
            drop: self.drop,
            comment: match &self.comment {
                Some(c) => Some(c.clone()),
                None => None,
            },
            table_type: self.table_type,
            fields,
            indices,
        }
    }
}

/// The texts of fields, each on a line of its own behind `head`.
pub open spec fn with_fields(head: Seq<char>, fields: Seq<FieldView>) -> Seq<char>
    decreases fields.len(),
{
    if fields.len() == 0 {
        head
    } else {
        with_fields(head, fields.drop_last()) + "\n"@ + field_sql(fields.last())
    }
}

/// The texts of indexes, each on a line of its own behind `head`.
pub open spec fn with_indices(head: Seq<char>, indices: Seq<IndexView>) -> Seq<char>
    decreases indices.len(),
{
    if indices.len() == 0 {
        head
    } else {
        with_indices(head, indices.drop_last()) + "\n"@ + index_sql(indices.last())
    }
}

/// The text of a table alone. A normal table names no type.
pub open spec fn table_head_sql(t: TableView) -> Seq<char> {
    "DEFINE TABLE "@ + expr::ident_sql(t.name) + statements::flag(t.drop, " DROP"@) + (
    if t.schemafull {
        " SCHEMAFULL"@
    } else {
        " SCHEMALESS"@
    }) + (match t.comment {
        Some(c) => " COMMENT "@ + expr::quoted(c, '\''),
        None => Seq::empty(),
    }) + ";"@
}

/// The text of a table, its fields and its indexes.
pub open spec fn table_sql(t: TableView) -> Seq<char> {
    with_indices(with_fields(table_head_sql(t), t.fields), t.indices)
}

impl TableDefinition {
    /// A table with a full schema, without fields and indexes.
    pub fn new(name: &str) -> (t: Self)
        ensures
            t@ == (TableView {
                name: name@,
                schemafull: true,
                drop: false,
                comment: None,
                table_type: TableType::Normal,
                fields: Seq::empty(),
                indices: Seq::empty(),
            }),
    {
        let t = TableDefinition {
            name: name.to_owned(),
            schemafull: true,
            drop: false,
            comment: None,
            table_type: TableType::Normal,
            fields: Vec::new(),
            indices: Vec::new(),
        };
        proof {
            assert(t@.fields =~= Seq::empty());
            assert(t@.indices =~= Seq::empty());
        }
        t
    }

    /// Adds a field behind the others.
    #[must_use]
    pub fn with_field(self, field: FieldDefinition) -> (t: Self)
        ensures
            t@ == (TableView { fields: self@.fields.push(field@), ..self@ }),
    {
        let ghost before = self@;
        let ghost added = field@;
        let mut t = self;
        t.fields.push(field);
        proof {
            assert(t@.fields =~= before.fields.push(added));
        }
        t
    }

    /// Adds an index behind the others.
    #[must_use]
    pub fn with_index(self, index: IndexDefinition) -> (t: Self)
        ensures
            t@ == (TableView { indices: self@.indices.push(index@), ..self@ }),
    {
        let ghost before = self@;
        let ghost added = index@;
        let mut t = self;
        t.indices.push(index);
        proof {
            assert(t@.indices =~= before.indices.push(added));
        }
        t
    }

    fn head_text(&self) -> (s: String)
        ensures
            s@ == table_head_sql(self@),
    {
        let mut s = joined("DEFINE TABLE ", escape_ident(self.name.as_str()).as_str());
        statements::append_flag(&mut s, self.drop, " DROP");
        if self.schemafull {
            s.append(" SCHEMAFULL");
        } else {
            s.append(" SCHEMALESS");
        }
        let ghost head = s@;
        match &self.comment {
            Some(c) => {
                s.append(" COMMENT ");
                s.append(quote_text(c.as_str()).as_str());
                proof {
                    assert(s@ =~= head + (" COMMENT "@ + expr::quoted(c@, '\'')));
                }
            },
            None => {
                proof {
                    assert(head + Seq::<char>::empty() =~= head);
                }
            },
        }
        s.append(";");
        s
    }

    pub fn to_sql(&self) -> (s: String)
        ensures
            s@ == table_sql(self@),
    {
        let mut s = self.head_text();
        let ghost head = table_head_sql(self@);
        let ghost fields = self@.fields;
        let mut i: usize = 0;
        while i < self.fields.len()
            invariant
                i <= self.fields@.len(),
                fields == field_views(self.fields@),
                s@ == with_fields(head, fields.take(i as int)),
            decreases self.fields@.len() - i,
        {
            proof {
                assert(fields.take(i + 1).drop_last() =~= fields.take(i as int));
                assert(fields.take(i + 1).last() == fields[i as int]);
            }
            s.append("\n");
            s.append(self.fields[i].to_sql().as_str());
            i += 1;
        }
        proof {
            assert(fields.take(fields.len() as int) =~= fields);
        }
        let ghost head = s@;
        let ghost indices = self@.indices;
        let mut i: usize = 0;
        while i < self.indices.len()
            invariant
                i <= self.indices@.len(),
                indices == index_views(self.indices@),
                s@ == with_indices(head, indices.take(i as int)),
            decreases self.indices@.len() - i,
        {
            proof {
                assert(indices.take(i + 1).drop_last() =~= indices.take(i as int));
                assert(indices.take(i + 1).last() == indices[i as int]);
            }
            s.append("\n");
            s.append(self.indices[i].to_sql().as_str());
            i += 1;
        }
        proof {
            assert(indices.take(indices.len() as int) =~= indices);
        }
        s
    }
}

/// Tables, in order.
#[derive(Debug, PartialEq, Eq)]
pub struct TableSchema {
    pub tables: Vec<TableDefinition>,
}

/// The views of tables.
pub open spec fn table_views(v: Seq<TableDefinition>) -> Seq<TableView> {
    Seq::new(v.len(), |i: int| v[i]@)
}

impl View for TableSchema {
    type V = Seq<TableView>;

    open spec fn view(&self) -> Seq<TableView> {
        table_views(self.tables@)
    }
}

impl TableSchema {
    /// No table.
    pub fn new() -> (s: Self)
        ensures
            s@ == Seq::<TableView>::empty(),
    {
        let s = TableSchema { tables: Vec::new() };
        proof {
            assert(s@ =~= Seq::empty());
        }
        s
    }

    /// Adds a table behind the others.
    #[must_use]
    pub fn with_table(self, table: TableDefinition) -> (s: Self)
        ensures
            s@ == self@.push(table@),
    {
        let ghost before = self@;
        let ghost added = table@;
        let mut s = self;
        s.tables.push(table);
        proof {
            assert(s@ =~= before.push(added));
        }
        s
    }
}

} // verus!
