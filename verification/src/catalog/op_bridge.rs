//! From a generator's definitions to the catalog's.

use vstd::prelude::*;

use crate::catalog::ast;
use crate::catalog::expr;
use crate::catalog::expr::{join_parts, BinaryOperator, Expr, ExprView, Idiom, Kind, KindView};
use crate::catalog::expr::{Literal, LiteralView, TableName};
use crate::catalog::schema::field;
use crate::catalog::schema::field::{FieldDefinition, FieldView};
use crate::catalog::schema::index;
use crate::catalog::schema::index::{IndexDefinition, IndexView};
use crate::catalog::statements;
use crate::catalog::table;
use crate::catalog::table::{TableDefinition, TableType, TableTypeView, TableView};
use crate::text;
use crate::text::{chars_of, same_text, string_of};

verus! {

/// The type that the catalog keeps for a type. The catalog has no optional
/// type: it is the absence of a value, or the type.
pub open spec fn bridged_kind(k: ast::KindView) -> KindView
    decreases k,
{
    match k {
        ast::KindView::Any => KindView::Any,
        ast::KindView::Int => KindView::Int,
        ast::KindView::String => KindView::String,
        ast::KindView::Bool => KindView::Bool,
        ast::KindView::Float => KindView::Float,
        ast::KindView::Decimal => KindView::Decimal,
        ast::KindView::Datetime => KindView::Datetime,
        ast::KindView::Bytes => KindView::Bytes,
        ast::KindView::Uuid => KindView::Uuid,
        ast::KindView::Record(tables) => KindView::Record(tables),
        ast::KindView::Option(inner) => KindView::Either(
            seq![KindView::Nothing, bridged_kind(*inner)],
        ),
    }
}

fn bridge_kind(k: ast::Kind) -> (kind: Kind)
    ensures
        kind@ == bridged_kind(k@),
    decreases k,
{
    match k {
        ast::Kind::Any => Kind::Any,
        ast::Kind::Int => Kind::Int,
        ast::Kind::String => Kind::String,
        ast::Kind::Bool => Kind::Bool,
        ast::Kind::Float => Kind::Float,
        ast::Kind::Decimal => Kind::Decimal,
        ast::Kind::Datetime => Kind::Datetime,
        ast::Kind::Bytes => Kind::Bytes,
        ast::Kind::Uuid => Kind::Uuid,
        ast::Kind::Record(targets) => {
            let mut tables: Vec<TableName> = Vec::new();
            let mut i: usize = 0;
            while i < targets.len()
                invariant
                    i <= targets@.len(),
                    tables@.len() == i,
                    forall|j: int| 0 <= j < i ==> (#[trigger] tables@[j])@ == targets@[j]@,
                decreases targets@.len() - i,
            {
                tables.push(TableName::from(targets[i].clone()));
                i += 1;
            }
            proof {
                assert(expr::table_views(tables@) =~= expr::string_views(targets@));
            }
            Kind::Record(tables)
        },
        ast::Kind::Option(inner) => Kind::option(bridge_kind(*inner)),
    }
}

impl From<ast::Kind> for Kind {
    fn from(k: ast::Kind) -> (kind: Self)
        ensures
            kind@ == bridged_kind(k@),
    {
        bridge_kind(k)
    }
}

impl vstd::std_specs::convert::FromSpecImpl<ast::Kind> for Kind {
    open spec fn obeys_from_spec() -> bool {
        false
    }

    open spec fn from_spec(k: ast::Kind) -> Self {
        choose|kind: Kind| kind@ == bridged_kind(k@)
    }
}

impl From<ast::TableType> for TableType {
    /// A normal table stays one: it holds records, and no relation.
    fn from(t: ast::TableType) -> (r: Self) {
        match t {
            ast::TableType::Normal => TableType::Normal,
        }
    }
}

impl vstd::std_specs::convert::FromSpecImpl<ast::TableType> for TableType {
    open spec fn obeys_from_spec() -> bool {
        true
    }

    open spec fn from_spec(t: ast::TableType) -> Self {
        TableType::Normal
    }
}

/// What follows the end of the comment that `s` stands in: nothing where the
/// comment is not closed.
pub open spec fn after_comment(s: Seq<char>) -> Seq<char>
    decreases s.len(),
{
    if s.len() < 2 {
        Seq::empty()
    } else if s[0] == '*' && s[1] == '/' {
        s.skip(2)
    } else {
        after_comment(s.skip(1))
    }
}

/// What follows a comment is no longer than the whole.
pub proof fn lemma_after_comment_shrinks(s: Seq<char>)
    ensures
        after_comment(s).len() <= s.len(),
    decreases s.len(),
{
    if s.len() >= 2 && !(s[0] == '*' && s[1] == '/') {
        lemma_after_comment_shrinks(s.skip(1));
    }
}

/// `s` without its comments.
pub open spec fn without_comments(s: Seq<char>) -> Seq<char>
    decreases s.len(),
{
    if s.len() == 0 {
        Seq::empty()
    } else if s.len() >= 2 && s[0] == '/' && s[1] == '*' {
        proof {
            lemma_after_comment_shrinks(s.skip(2));
        }
        without_comments(after_comment(s.skip(2)))
    } else {
        seq![s[0]] + without_comments(s.skip(1))
    }
}

/// A space, a tabulator, or one of the ends of a line or page.
pub open spec fn is_space(c: char) -> bool {
    c == ' ' || ('\u{9}' <= c && c <= '\u{d}')
}

/// The words of `s` that a space ends, and what stands behind the last space.
pub open spec fn split_words(s: Seq<char>) -> (Seq<Seq<char>>, Seq<char>)
    decreases s.len(),
{
    if s.len() == 0 {
        (Seq::empty(), Seq::empty())
    } else {
        let (words, rest) = split_words(s.drop_last());
        if !is_space(s.last()) {
            (words, rest.push(s.last()))
        } else if rest.len() > 0 {
            (words.push(rest), Seq::empty())
        } else {
            (words, rest)
        }
    }
}

/// The words of `s`.
pub open spec fn words(s: Seq<char>) -> Seq<Seq<char>> {
    let (words, rest) = split_words(s);
    if rest.len() > 0 {
        words.push(rest)
    } else {
        words
    }
}

/// `s` without its comments, with one space between each two words.
pub open spec fn canonical(s: Seq<char>) -> Seq<char> {
    expr::joined_parts(words(without_comments(s)), " "@)
}

/// That a value is there.
pub open spec fn value_is_set() -> ExprView {
    ExprView::Binary {
        left: Box::new(ExprView::Param("value"@)),
        op: BinaryOperator::NotEqual,
        right: Box::new(ExprView::Literal(LiteralView::Nothing)),
    }
}

/// The expression of an assertion. One assertion is known; any other has
/// none.
pub open spec fn lowered(s: Seq<char>) -> Option<ExprView> {
    if canonical(s) == "$value != NONE"@ {
        Some(value_is_set())
    } else {
        None
    }
}

fn strip_comments(chars: &Vec<char>) -> (out: Vec<char>)
    ensures
        out@ == without_comments(chars@),
{
    let mut out: Vec<char> = Vec::new();
    let mut i: usize = 0;
    let n: usize = chars.len();
    proof {
        assert(chars@.skip(0) =~= chars@);
        assert(out@ + without_comments(chars@) =~= without_comments(chars@));
    }
    while i < n
        invariant
            n == chars@.len(),
            i <= n,
            out@ + without_comments(chars@.skip(i as int)) == without_comments(chars@),
        decreases n - i,
    {
        let ghost rest = chars@.skip(i as int);
        if n - i >= 2 && chars[i] == '/' && chars[i + 1] == '*' {
            i += 2;
            proof {
                assert(rest.skip(2) =~= chars@.skip(i as int));
            }
            let ghost body = chars@.skip(i as int);
            let ghost start = i;
            while n - i >= 2 && !(chars[i] == '*' && chars[i + 1] == '/')
                invariant
                    n == chars@.len(),
                    start <= i <= n,
                    after_comment(chars@.skip(i as int)) == after_comment(body),
                decreases n - i,
            {
                proof {
                    assert(chars@.skip(i as int).skip(1) =~= chars@.skip(i + 1));
                }
                i += 1;
            }
            if n - i >= 2 {
                proof {
                    assert(chars@.skip(i as int).skip(2) =~= chars@.skip(i + 2));
                }
                i += 2;
            } else {
                proof {
                    assert(chars@.skip(n as int) =~= Seq::<char>::empty());
                }
                i = n;
            }
        } else {
            let ghost before = out@;
            out.push(chars[i]);
            proof {
                assert(rest.skip(1) =~= chars@.skip(i + 1));
                assert(out@ + without_comments(chars@.skip(i + 1)) =~= before + (seq![rest[0]]
                    + without_comments(rest.skip(1))));
            }
            i += 1;
        }
    }
    proof {
        assert(chars@.skip(n as int) =~= Seq::<char>::empty());
        assert(out@ + Seq::<char>::empty() =~= out@);
    }
    out
}

fn take_words(chars: &Vec<char>) -> (out: Vec<String>)
    ensures
        expr::string_views(out@) == words(chars@),
{
    let mut out: Vec<String> = Vec::new();
    let mut word: Vec<char> = Vec::new();
    let mut i: usize = 0;
    proof {
        assert(expr::string_views(out@) =~= Seq::empty());
        assert(word@ =~= Seq::empty());
    }
    while i < chars.len()
        invariant
            i <= chars@.len(),
            split_words(chars@.take(i as int)) == (expr::string_views(out@), word@),
        decreases chars@.len() - i,
    {
        let c: char = chars[i];
        let ghost before = expr::string_views(out@);
        proof {
            assert(chars@.take(i + 1).drop_last() =~= chars@.take(i as int));
            assert(chars@.take(i + 1).last() == c);
        }
        if !(c == ' ' || ('\u{9}' <= c && c <= '\u{d}')) {
            word.push(c);
        } else if word.len() > 0 {
            let ghost done = word@;
            out.push(string_of(&word));
            word = Vec::new();
            proof {
                assert(expr::string_views(out@) =~= before.push(done));
                assert(word@ =~= Seq::empty());
            }
        }
        i += 1;
    }
    proof {
        assert(chars@.take(chars@.len() as int) =~= chars@);
    }
    if word.len() > 0 {
        let ghost before = expr::string_views(out@);
        out.push(string_of(&word));
        proof {
            assert(expr::string_views(out@) =~= before.push(word@));
        }
    }
    out
}

/// The expression of an assertion, where it is known.
pub fn rails_assert_to_expr(s: &str) -> (e: Option<Expr>)
    ensures
        statements::opt_expr(e) == lowered(s@),
{
    let cleaned = strip_comments(&chars_of(s));
    let canonical_text = join_parts(&take_words(&cleaned), " ");
    if same_text(canonical_text.as_str(), "$value != NONE") {
        let e = Expr::Binary {
            left: Box::new(Expr::Param("value".to_owned())),
            op: BinaryOperator::NotEqual,
            right: Box::new(Expr::Literal(Literal::Nothing)),
        };
        proof {
            reveal_with_fuel(expr::expr_view, 2);
        }
        Some(e)
    } else {
        None
    }
}

/// The field that the catalog keeps for a field.
pub open spec fn bridged_field(f: ast::FieldView) -> FieldView {
    FieldView {
        field_kind: Some(bridged_kind(f.kind)),
        assertion: match f.assertion {
            Some(a) => lowered(a),
            None => None,
        },
        ..field::fresh_field(seq![f.name], f.table)
    }
}

impl From<ast::FieldDefinition> for FieldDefinition {
    fn from(f: ast::FieldDefinition) -> (r: Self)
        ensures
            r@ == bridged_field(f@),
    {
        let idiom = Idiom::field(f.name);
        let table = TableName::from(f.table);
        let kind = Kind::from(f.kind);
        let assertion = match &f.assertion {
            Some(a) => rails_assert_to_expr(a.as_str()),
            None => None,
        };
        FieldDefinition::new_for_ddl(idiom, table).with_kind(Some(kind)).with_assert(assertion)
    }
}

impl vstd::std_specs::convert::FromSpecImpl<ast::FieldDefinition> for FieldDefinition {
    open spec fn obeys_from_spec() -> bool {
        false
    }

    open spec fn from_spec(f: ast::FieldDefinition) -> Self {
        choose|r: FieldDefinition| r@ == bridged_field(f@)
    }
}

/// The index that the catalog keeps for an index.
pub open spec fn bridged_index(i: ast::IndexView) -> IndexView {
    IndexView {
        name: i.name,
        table_name: i.table,
        cols: Seq::new(i.fields.len(), |k: int| seq![i.fields[k]]),
        comment: None,
    }
}

impl From<ast::IndexDefinition> for IndexDefinition {
    /// Each field becomes a column: a path of one part.
    fn from(i: ast::IndexDefinition) -> (r: Self)
        ensures
            r@ == bridged_index(i@),
            r.cols@.len() == i.fields@.len(),
            forall|k: int|
                0 <= k < i.fields@.len() ==> (#[trigger] r.cols@[k])@ == seq![i.fields@[k]@],
    {
        let mut cols: Vec<Idiom> = Vec::new();
        let mut k: usize = 0;
        while k < i.fields.len()
            invariant
                k <= i.fields@.len(),
                cols@.len() == k,
                forall|j: int| 0 <= j < k ==> (#[trigger] cols@[j])@ == seq![i.fields@[j]@],
            decreases i.fields@.len() - k,
        {
            cols.push(Idiom::field(i.fields[k].clone()));
            k += 1;
        }
        proof {
            assert(index::col_views(cols@) =~= bridged_index(i@).cols);
        }
        let r = IndexDefinition::new_for_ddl(i.name, TableName::from(i.table), cols);
        proof {
            assert(r@.cols.len() == r.cols@.len());
            assert forall|k: int| 0 <= k < i.fields@.len() implies (#[trigger] r.cols@[k])@
                == seq![i.fields@[k]@] by {
                assert(r@.cols[k] == r.cols@[k]@);
            }
        }
        r
    }
}

impl vstd::std_specs::convert::FromSpecImpl<ast::IndexDefinition> for IndexDefinition {
    open spec fn obeys_from_spec() -> bool {
        false
    }

    open spec fn from_spec(i: ast::IndexDefinition) -> Self {
        choose|r: IndexDefinition| r@ == bridged_index(i@)
    }
}

/// The table that the catalog keeps for a table. Its fields and indexes are
/// kept beside it.
pub open spec fn bridged_table(t: ast::TableView) -> TableView {
    TableView {
        schemafull: t.schemafull,
        drop: t.drop,
        comment: t.comment,
        table_type: TableTypeView::Normal,
        ..table::fresh_table(t.name)
    }
}

/// A table that was made to be rendered: its numbers are zero, and the times
/// kept for caches are one time.
pub open spec fn unstored(t: TableDefinition) -> bool {
    &&& t.namespace_id.0 == 0
    &&& t.database_id.0 == 0
    &&& t.table_id.0 == 0
    &&& table::uuid_version(t.cache_fields_ts.0) == 7
    &&& t.cache_events_ts == t.cache_fields_ts
    &&& t.cache_tables_ts == t.cache_fields_ts
    &&& t.cache_indexes_ts == t.cache_fields_ts
}

impl From<ast::TableDefinition> for TableDefinition {
    fn from(t: ast::TableDefinition) -> (r: Self)
        ensures
            r@ == bridged_table(t@),
            unstored(r),
    {
        TableDefinition::new_for_ddl(t.name).with_schemafull(t.schemafull).with_drop(
            t.drop,
        ).with_comment(t.comment).with_table_type(TableType::from(t.table_type))
    }
}

impl vstd::std_specs::convert::FromSpecImpl<ast::TableDefinition> for TableDefinition {
    open spec fn obeys_from_spec() -> bool {
        false
    }

    open spec fn from_spec(t: ast::TableDefinition) -> Self {
        choose|r: TableDefinition| r@ == bridged_table(t@) && unstored(r)
    }
}

/// A table of the catalog with what stands on it.
#[derive(Debug, PartialEq, Eq)]
pub struct BridgedTable {
    /// The table, without its fields and indexes.
    pub table: TableDefinition,
    /// The fields of the table.
    pub fields: Vec<FieldDefinition>,
    /// The indexes of the table.
    pub indices: Vec<IndexDefinition>,
}

impl Clone for BridgedTable {
    fn clone(&self) -> (copy: Self)
        ensures
            copy.table@ == self.table@,
            copy.table.namespace_id == self.table.namespace_id,
            copy.table.database_id == self.table.database_id,
            copy.table.table_id == self.table.table_id,
            copy.table.cache_fields_ts == self.table.cache_fields_ts,
            copy.table.cache_events_ts == self.table.cache_events_ts,
            copy.table.cache_tables_ts == self.table.cache_tables_ts,
            copy.table.cache_indexes_ts == self.table.cache_indexes_ts,
            copy.fields@.len() == self.fields@.len(),
            forall|i: int|
                0 <= i < self.fields@.len() ==> (#[trigger] copy.fields@[i])@ == self.fields@[i]@,
            copy.indices@.len() == self.indices@.len(),
            forall|i: int|
                0 <= i < self.indices@.len() ==> (#[trigger] copy.indices@[i])@
                    == self.indices@[i]@,
    {
        let mut fields: Vec<FieldDefinition> = Vec::new();
        let mut i: usize = 0;
        while i < self.fields.len()
            invariant
                i <= self.fields@.len(),
                fields@.len() == i,
                forall|j: int| 0 <= j < i ==> (#[trigger] fields@[j])@ == self.fields@[j]@,
            decreases self.fields@.len() - i,
        {
            fields.push(self.fields[i].clone());
            i += 1;
        }
        let mut indices: Vec<IndexDefinition> = Vec::new();
        let mut i: usize = 0;
        while i < self.indices.len()
            invariant
                i <= self.indices@.len(),
                indices@.len() == i,
                forall|j: int| 0 <= j < i ==> (#[trigger] indices@[j])@ == self.indices@[j]@,
            decreases self.indices@.len() - i,
        {
            indices.push(self.indices[i].clone());
            i += 1;
        }
        BridgedTable { table: self.table.clone(), fields, indices }
    }
}

/// `b` is what the catalog keeps for `t`: the table, and its fields and
/// indexes in their order.
pub open spec fn bridges(b: BridgedTable, t: ast::TableView) -> bool {
    &&& b.table@ == bridged_table(t)
    &&& unstored(b.table)
    &&& b.fields@.len() == t.fields.len()
    &&& forall|i: int|
        0 <= i < t.fields.len() ==> (#[trigger] b.fields@[i])@ == bridged_field(t.fields[i])
    &&& b.indices@.len() == t.indices.len()
    &&& forall|i: int|
        0 <= i < t.indices.len() ==> (#[trigger] b.indices@[i])@ == bridged_index(t.indices[i])
}

fn bridge_table(t: &ast::TableDefinition) -> (b: BridgedTable)
    ensures
        bridges(b, t@),
{
    let mut fields: Vec<FieldDefinition> = Vec::new();
    let mut i: usize = 0;
    while i < t.fields.len()
        invariant
            i <= t.fields@.len(),
            fields@.len() == i,
            forall|j: int| 0 <= j < i ==> (#[trigger] fields@[j])@ == bridged_field(t.fields@[j]@),
        decreases t.fields@.len() - i,
    {
        fields.push(FieldDefinition::from(t.fields[i].clone()));
        i += 1;
    }
    let mut indices: Vec<IndexDefinition> = Vec::new();
    let mut i: usize = 0;
    while i < t.indices.len()
        invariant
            i <= t.indices@.len(),
            indices@.len() == i,
            forall|j: int|
                0 <= j < i ==> (#[trigger] indices@[j])@ == bridged_index(t.indices@[j]@),
        decreases t.indices@.len() - i,
    {
        indices.push(IndexDefinition::from(t.indices[i].clone()));
        i += 1;
    }
    BridgedTable { table: TableDefinition::from(t.clone()), fields, indices }
}

/// What the catalog keeps for a schema, in the order of its tables.
#[must_use]
pub fn bridge_schema(schema: ast::TableSchema) -> (out: Vec<BridgedTable>)
    ensures
        out@.len() == schema@.len(),
        forall|i: int| 0 <= i < schema@.len() ==> bridges(#[trigger] out@[i], schema@[i]),
{
    let mut out: Vec<BridgedTable> = Vec::new();
    let mut i: usize = 0;
    while i < schema.tables.len()
        invariant
            i <= schema.tables@.len(),
            out@.len() == i,
            forall|j: int| 0 <= j < i ==> bridges(#[trigger] out@[j], schema.tables@[j]@),
        decreases schema.tables@.len() - i,
    {
        out.push(bridge_table(&schema.tables[i]));
        i += 1;
    }
    out
}

/// A comment with the text `c`.
pub open spec fn comment(c: Seq<char>) -> Seq<char> {
    seq!['/', '*'] + c + seq!['*', '/']
}

proof fn lemma_comment_ends(c: Seq<char>, b: Seq<char>)
    requires
        !text::has_part(c, seq!['*', '/']),
    ensures
        after_comment(c + seq!['*', '/'] + b) == b,
    decreases c.len(),
{
    let s = c + seq!['*', '/'] + b;
    if c.len() == 0 {
        assert(s.skip(2) =~= b);
    } else {
        if s[0] == '*' && s[1] == '/' {
            assert(c.len() >= 2);
            assert(c.subrange(0, 2) =~= seq!['*', '/']);
            assert(text::part_at(c, seq!['*', '/'], 0));
        }
        assert forall|i: int| !text::part_at(c.skip(1), seq!['*', '/'], i) by {
            if text::part_at(c.skip(1), seq!['*', '/'], i) {
                assert(c.subrange(i + 1, i + 3) =~= c.skip(1).subrange(i, i + 2));
                assert(text::part_at(c, seq!['*', '/'], i + 1));
            }
        }
        lemma_comment_ends(c.skip(1), b);
        assert(s.skip(1) =~= c.skip(1) + seq!['*', '/'] + b);
    }
}

/// A closed comment is dropped and nothing else: what stands before it and
/// holds no comment stays, what follows is cleaned on its own.
pub proof fn a_comment_is_dropped(a: Seq<char>, c: Seq<char>, b: Seq<char>)
    requires
        !text::has_part(a, seq!['/', '*']),
        !text::has_part(c, seq!['*', '/']),
    ensures
        without_comments(a + comment(c) + b) == a + without_comments(b),
    decreases a.len(),
{
    let s = a + comment(c) + b;
    if a.len() == 0 {
        assert(s.skip(2) =~= c + seq!['*', '/'] + b);
        lemma_comment_ends(c, b);
        assert(a + without_comments(b) =~= without_comments(b));
    } else {
        if s[0] == '/' && s[1] == '*' {
            assert(a.len() >= 2);
            assert(a.subrange(0, 2) =~= seq!['/', '*']);
            assert(text::part_at(a, seq!['/', '*'], 0));
        }
        assert forall|i: int| !text::part_at(a.skip(1), seq!['/', '*'], i) by {
            if text::part_at(a.skip(1), seq!['/', '*'], i) {
                assert(a.subrange(i + 1, i + 3) =~= a.skip(1).subrange(i, i + 2));
                assert(text::part_at(a, seq!['/', '*'], i + 1));
            }
        }
        a_comment_is_dropped(a.skip(1), c, b);
        assert(s.skip(1) =~= a.skip(1) + comment(c) + b);
        assert(seq![a[0]] + (a.skip(1) + without_comments(b)) =~= a + without_comments(b));
    }
}

/// A text without comments is not changed by their removal.
pub proof fn no_comment_no_change(a: Seq<char>)
    requires
        !text::has_part(a, seq!['/', '*']),
    ensures
        without_comments(a) == a,
    decreases a.len(),
{
    if a.len() == 0 {
        assert(without_comments(a) =~= a);
    } else {
        if a.len() >= 2 && a[0] == '/' && a[1] == '*' {
            assert(a.subrange(0, 2) =~= seq!['/', '*']);
            assert(text::part_at(a, seq!['/', '*'], 0));
        }
        assert forall|i: int| !text::part_at(a.skip(1), seq!['/', '*'], i) by {
            if text::part_at(a.skip(1), seq!['/', '*'], i) {
                assert(a.subrange(i + 1, i + 3) =~= a.skip(1).subrange(i, i + 2));
                assert(text::part_at(a, seq!['/', '*'], i + 1));
            }
        }
        no_comment_no_change(a.skip(1));
        assert(seq![a[0]] + a.skip(1) =~= a);
    }
}

/// A mark in a comment behind an assertion does not change what it asserts.
pub proof fn a_mark_changes_no_assertion(a: Seq<char>, c: Seq<char>)
    requires
        !text::has_part(a, seq!['/', '*']),
        !text::has_part(c, seq!['*', '/']),
    ensures
        lowered(a + seq![' '] + comment(c)) == lowered(a),
{
    let spaced = a + seq![' '];
    assert forall|i: int| !text::part_at(spaced, seq!['/', '*'], i) by {
        if text::part_at(spaced, seq!['/', '*'], i) {
            assert(spaced.subrange(i, i + 2)[1] == '*');
            assert(spaced[i + 1] == '*');
            assert(a.subrange(i, i + 2) =~= spaced.subrange(i, i + 2));
            assert(text::part_at(a, seq!['/', '*'], i));
        }
    }
    a_comment_is_dropped(spaced, c, Seq::empty());
    assert(spaced + comment(c) + Seq::<char>::empty() =~= a + seq![' '] + comment(c));
    assert(spaced + without_comments(Seq::empty()) =~= spaced);
    no_comment_no_change(a);
    assert(spaced.drop_last() =~= a);
    assert(words(spaced) == words(a));
}

/// A table that comes from a generator holds records and no relation.
pub proof fn bridged_tables_hold_no_relation(b: BridgedTable, t: ast::TableView)
    requires
        bridges(b, t),
    ensures
        b.table.table_type is Normal,
{
}

/// What an assertion is taken for has the text that was written, up to
/// comments and spaces.
pub proof fn what_is_taken_was_written(s: Seq<char>)
    requires
        lowered(s) is Some,
    ensures
        expr::expr_sql(lowered(s)->0) == canonical(s),
{
    reveal_strlit("$value != NONE");
    reveal_strlit("$");
    reveal_strlit("value");
    reveal_strlit(" ");
    reveal_strlit("!=");
    reveal_strlit("NONE");
    reveal_with_fuel(expr::expr_sql, 2);
    assert(expr::bare_name("value"@));
    assert(expr::expr_sql(value_is_set()) =~= "$value != NONE"@);
}

} // verus!
