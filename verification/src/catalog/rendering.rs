//! How the texts of names, types, expressions and statements are made up.

use vstd::prelude::*;

use crate::catalog::ast;
use crate::catalog::expr;
use crate::catalog::expr::{BinaryOperator, Expr, Kind, Literal};
use crate::catalog::schema::field;
use crate::catalog::schema::field::FieldDefinition;
use crate::catalog::schema::index;
use crate::catalog::schema::index::IndexDefinition;
use crate::catalog::statements;
use crate::catalog::statements::{ChangeFeed, DefineDefault, DefineFieldStatement, DefineKind};
use crate::catalog::statements::{DefineTableStatement, Permission, Permissions, Reference};
use crate::catalog::table;
use crate::catalog::table::{TableDefinition, TableType};
use crate::text;

verus! {

/// No part gives no text, one part its own, and a further part stands behind
/// the others and a separator.
pub proof fn parts_stand_in_turn(parts: Seq<Seq<char>>, p: Seq<char>, sep: Seq<char>)
    ensures
        expr::joined_parts(Seq::<Seq<char>>::empty(), sep) == Seq::<char>::empty(),
        expr::joined_parts(seq![p], sep) == p,
        parts.len() > 0 ==> expr::joined_parts(parts.push(p), sep) == expr::joined_parts(parts, sep)
            + sep + p,
{
    assert(parts.push(p).drop_last() =~= parts);
}

/// Between two lists of parts stands one separator.
pub proof fn lists_of_parts_join(a: Seq<Seq<char>>, b: Seq<Seq<char>>, sep: Seq<char>)
    requires
        a.len() > 0,
        b.len() > 0,
    ensures
        expr::joined_parts(a + b, sep) == expr::joined_parts(a, sep) + sep + expr::joined_parts(
            b,
            sep,
        ),
    decreases b.len(),
{
    assert((a + b).drop_last() =~= a + b.drop_last());
    if b.len() == 1 {
        assert(a + b.drop_last() =~= a);
    } else {
        lists_of_parts_join(a, b.drop_last(), sep);
        assert(expr::joined_parts(a + b, sep) =~= expr::joined_parts(a, sep) + sep
            + expr::joined_parts(b, sep));
    }
}

/// What is escaped is escaped character by character: a backslash goes before
/// the quote and before a backslash, every other character stays.
pub proof fn characters_are_escaped_one_by_one(a: Seq<char>, b: Seq<char>, c: char, quote: char)
    ensures
        expr::escaped(Seq::<char>::empty(), quote) == Seq::<char>::empty(),
        c == quote || c == '\\' ==> expr::escaped(seq![c], quote) == seq!['\\', c],
        c != quote && c != '\\' ==> expr::escaped(seq![c], quote) == seq![c],
        expr::escaped(a + b, quote) == expr::escaped(a, quote) + expr::escaped(b, quote),
    decreases b.len(),
{
    reveal_with_fuel(expr::escaped, 2);
    assert(seq![c].drop_last() =~= Seq::empty());
    assert(expr::escaped(seq![c], quote) =~= if c == quote || c == '\\' {
        seq!['\\', c]
    } else {
        seq![c]
    });
    if b.len() == 0 {
        assert(a + b =~= a);
        assert(expr::escaped(a, quote) + expr::escaped(b, quote) =~= expr::escaped(a, quote));
    } else {
        characters_are_escaped_one_by_one(a, b.drop_last(), c, quote);
        assert((a + b).drop_last() =~= a + b.drop_last());
        assert((a + b).last() == b.last());
        assert(expr::escaped(a + b, quote) =~= expr::escaped(a, quote) + expr::escaped(b, quote));
    }
}

/// A text between quotes, with what its backslashes stand before taken as it
/// is.
pub open spec fn unescaped(s: Seq<char>) -> Seq<char>
    decreases s.len(),
{
    if s.len() == 0 {
        Seq::empty()
    } else if s[0] == '\\' && s.len() >= 2 {
        seq![s[1]] + unescaped(s.skip(2))
    } else {
        seq![s[0]] + unescaped(s.skip(1))
    }
}

proof fn lemma_escape_front(c: char, rest: Seq<char>, quote: char)
    ensures
        expr::escaped(seq![c] + rest, quote) == if c == quote || c == '\\' {
            seq!['\\', c] + expr::escaped(rest, quote)
        } else {
            seq![c] + expr::escaped(rest, quote)
        },
{
    characters_are_escaped_one_by_one(seq![c], rest, c, quote);
}

proof fn lemma_unescape(s: Seq<char>, quote: char)
    requires
        quote != '\\',
    ensures
        unescaped(expr::escaped(s, quote)) == s,
    decreases s.len(),
{
    if s.len() == 0 {
        assert(s =~= Seq::empty());
    } else {
        let c = s[0];
        let rest = s.skip(1);
        assert(s =~= seq![c] + rest);
        lemma_escape_front(c, rest, quote);
        lemma_unescape(rest, quote);
        let e = expr::escaped(s, quote);
        if c == quote || c == '\\' {
            assert(e.skip(2) =~= expr::escaped(rest, quote));
        } else {
            assert(e.skip(1) =~= expr::escaped(rest, quote));
        }
        assert(seq![c] + rest =~= s);
    }
}

/// A quoted text stands between two quotes, and without its backslashes it is
/// the text.
pub proof fn quoted_texts_read_back(s: Seq<char>, quote: char)
    requires
        quote != '\\',
    ensures
        ({
            let q = expr::quoted(s, quote);
            &&& q.len() >= 2
            &&& q[0] == quote
            &&& q[q.len() - 1] == quote
            &&& unescaped(q.subrange(1, q.len() - 1)) == s
        }),
{
    let q = expr::quoted(s, quote);
    assert(q.subrange(1, q.len() - 1) =~= expr::escaped(s, quote));
    lemma_unescape(s, quote);
}

/// A name stands bare where it begins with a letter or an underscore and
/// holds only these and digits; any other name is quoted.
pub proof fn names_stand_bare_or_quoted(s: Seq<char>)
    ensures
        ({
            let bare = s.len() > 0 && !('0' <= s[0] && s[0] <= '9') && forall|i: int|
                0 <= i < s.len() ==> {
                    let c = #[trigger] s[i];
                    ('a' <= c && c <= 'z') || ('A' <= c && c <= 'Z') || ('0' <= c && c <= '9') || c
                        == '_'
                };
            &&& bare ==> expr::ident_sql(s) == s
            &&& !bare ==> expr::ident_sql(s) == seq!['`'] + expr::escaped(s, '`') + seq!['`']
        }),
{
    let bare = s.len() > 0 && !('0' <= s[0] && s[0] <= '9') && forall|i: int|
        0 <= i < s.len() ==> {
            let c = #[trigger] s[i];
            ('a' <= c && c <= 'z') || ('A' <= c && c <= 'Z') || ('0' <= c && c <= '9') || c == '_'
        };
    if bare {
        assert forall|i: int| 0 <= i < s.len() implies expr::bare_char(#[trigger] s[i]) by {}
        assert(expr::bare_name(s));
    } else {
        if expr::bare_name(s) {
            assert forall|i: int| 0 <= i < s.len() implies {
                let c = #[trigger] s[i];
                ('a' <= c && c <= 'z') || ('A' <= c && c <= 'Z') || ('0' <= c && c <= '9') || c
                    == '_'
            } by {
                assert(expr::bare_char(s[i]));
            }
        }
    }
}

/// The number that digits write.
pub open spec fn number_of(digits: Seq<char>) -> int
    decreases digits.len(),
{
    if digits.len() == 0 {
        0
    } else {
        10 * number_of(digits.drop_last()) + (digits.last() as int - '0' as int)
    }
}

/// Digits and nothing else, without a zero before others.
pub open spec fn is_numeral(s: Seq<char>) -> bool {
    &&& s.len() > 0
    &&& forall|i: int| 0 <= i < s.len() ==> '0' <= #[trigger] s[i] && s[i] <= '9'
    &&& s.len() > 1 ==> s[0] != '0'
}

/// A number is written in decimal digits, without leading zeros.
pub proof fn numbers_are_written_in_decimal(n: nat)
    ensures
        is_numeral(text::decimal(n)),
        number_of(text::decimal(n)) == n,
        n > 0 ==> text::decimal(n)[0] != '0',
    decreases n,
{
    reveal_with_fuel(number_of, 2);
    let s = text::decimal(n);
    if n < 10 {
        assert(s.drop_last() =~= Seq::empty());
    } else {
        numbers_are_written_in_decimal(n / 10);
        assert(s.drop_last() =~= text::decimal(n / 10));
        assert(s[0] == text::decimal(n / 10)[0]);
        assert forall|i: int| 0 <= i < s.len() implies '0' <= #[trigger] s[i] && s[i] <= '9' by {
            if i < s.len() - 1 {
                assert(s[i] == text::decimal(n / 10)[i]);
            }
        }
    }
}

/// An integer below zero is a minus sign and the number it is below zero by.
pub proof fn integers_have_a_sign(n: i64)
    ensures
        n >= 0 ==> is_numeral(expr::integer_sql(n)) && number_of(expr::integer_sql(n)) == n,
        n < 0 ==> {
            let s = expr::integer_sql(n);
            &&& s.len() > 0
            &&& s[0] == '-'
            &&& is_numeral(s.skip(1))
            &&& number_of(s.skip(1)) == -n
        },
{
    reveal_strlit("-");
    if n < 0 {
        numbers_are_written_in_decimal((-n) as nat);
        assert(expr::integer_sql(n).skip(1) =~= text::decimal((-n) as nat));
    } else {
        numbers_are_written_in_decimal(n as nat);
    }
}

/// The texts of literals and operators.
pub proof fn literals_and_operators_read(l: Literal, op: BinaryOperator)
    ensures
        match l {
            Literal::Nothing => expr::literal_sql(l@) == "NONE"@,
            Literal::Bool(b) => expr::literal_sql(l@) == if b {
                "true"@
            } else {
                "false"@
            },
            Literal::Integer(n) => expr::literal_sql(l@) == expr::integer_sql(n),
            Literal::String(s) => expr::literal_sql(l@) == seq!['\''] + expr::escaped(s@, '\'')
                + seq!['\''],
        },
        match op {
            BinaryOperator::Equal => expr::operator_sql(op) == "="@,
            BinaryOperator::NotEqual => expr::operator_sql(op) == "!="@,
            BinaryOperator::LessThan => expr::operator_sql(op) == "<"@,
            BinaryOperator::LessThanEqual => expr::operator_sql(op) == "<="@,
            BinaryOperator::MoreThan => expr::operator_sql(op) == ">"@,
            BinaryOperator::MoreThanEqual => expr::operator_sql(op) == ">="@,
            BinaryOperator::And => expr::operator_sql(op) == "AND"@,
            BinaryOperator::Or => expr::operator_sql(op) == "OR"@,
        },
{
}

/// A path is its parts with a dot between each two, a parameter has a dollar
/// sign, and an operator stands between its two sides.
pub proof fn expressions_read(e: Expr)
    ensures
        match e {
            Expr::Idiom(path) => expr::expr_sql(e@) == expr::joined_parts(
                Seq::new(path.0@.len(), |i: int| expr::ident_sql(path.0@[i]@)),
                "."@,
            ),
            Expr::Table(t) => expr::expr_sql(e@) == expr::ident_sql(t@),
            Expr::Literal(l) => expr::expr_sql(e@) == expr::literal_sql(l@),
            Expr::Param(p) => expr::expr_sql(e@) == "$"@ + expr::ident_sql(p@),
            Expr::Binary { left, op, right } => expr::expr_sql(e@) == expr::expr_sql(left@) + " "@
                + expr::operator_sql(op) + " "@ + expr::expr_sql(right@),
        },
{
    reveal_with_fuel(expr::expr_sql, 2);
    reveal_with_fuel(expr::expr_view, 2);
    match e {
        Expr::Idiom(path) => {
            let parts = path@;
            assert(Seq::new(parts.len(), |i: int| expr::ident_sql(parts[i])) =~= Seq::new(
                path.0@.len(),
                |i: int| expr::ident_sql(path.0@[i]@),
            ));
        },
        _ => {},
    }
}

proof fn lemma_kind_sqls(kinds: Seq<expr::KindView>)
    ensures
        expr::kind_sqls(kinds) == Seq::new(kinds.len(), |i: int| expr::kind_sql(kinds[i])),
    decreases kinds.len(),
{
    if kinds.len() > 0 {
        lemma_kind_sqls(kinds.drop_last());
    }
    assert(expr::kind_sqls(kinds) =~= Seq::new(kinds.len(), |i: int| expr::kind_sql(kinds[i])));
}

/// The texts of the catalog's types. Tables and alternatives stand in their
/// order, with a bar between each two.
pub proof fn types_read(k: Kind)
    ensures
        match k {
            Kind::Any => expr::kind_sql(k@) == "any"@,
            Kind::Nothing => expr::kind_sql(k@) == "none"@,
            Kind::Int => expr::kind_sql(k@) == "int"@,
            Kind::String => expr::kind_sql(k@) == "string"@,
            Kind::Bool => expr::kind_sql(k@) == "bool"@,
            Kind::Float => expr::kind_sql(k@) == "float"@,
            Kind::Decimal => expr::kind_sql(k@) == "decimal"@,
            Kind::Datetime => expr::kind_sql(k@) == "datetime"@,
            Kind::Bytes => expr::kind_sql(k@) == "bytes"@,
            Kind::Uuid => expr::kind_sql(k@) == "uuid"@,
            Kind::Record(tables) => if tables@.len() == 0 {
                expr::kind_sql(k@) == "record"@
            } else {
                expr::kind_sql(k@) == "record<"@ + expr::joined_parts(
                    Seq::new(tables@.len(), |i: int| expr::ident_sql(tables@[i].0@)),
                    " | "@,
                ) + ">"@
            },
            Kind::Either(kinds) => expr::kind_sql(k@) == expr::joined_parts(
                Seq::new(kinds@.len(), |i: int| expr::kind_sql(kinds@[i]@)),
                " | "@,
            ),
        },
{
    reveal_with_fuel(expr::kind_sql, 2);
    reveal_with_fuel(expr::kind_view, 2);
    match k {
        Kind::Record(tables) => {
            let names = expr::table_views(tables@);
            assert(Seq::new(names.len(), |i: int| expr::ident_sql(names[i])) =~= Seq::new(
                tables@.len(),
                |i: int| expr::ident_sql(tables@[i].0@),
            ));
        },
        Kind::Either(kinds) => {
            let views = k@->Either_0;
            lemma_kind_sqls(views);
            assert forall|i: int| 0 <= i < kinds@.len() implies views[i] == (
            #[trigger] kinds@[i])@ by {}
            assert(Seq::new(views.len(), |i: int| expr::kind_sql(views[i])) =~= Seq::new(
                kinds@.len(),
                |i: int| expr::kind_sql(kinds@[i]@),
            ));
        },
        _ => {},
    }
}

/// The texts of a generator's types.
pub proof fn generated_types_read(k: ast::Kind)
    ensures
        match k {
            ast::Kind::Any => ast::kind_sql(k@) == "any"@,
            ast::Kind::Int => ast::kind_sql(k@) == "int"@,
            ast::Kind::String => ast::kind_sql(k@) == "string"@,
            ast::Kind::Bool => ast::kind_sql(k@) == "bool"@,
            ast::Kind::Float => ast::kind_sql(k@) == "float"@,
            ast::Kind::Decimal => ast::kind_sql(k@) == "decimal"@,
            ast::Kind::Datetime => ast::kind_sql(k@) == "datetime"@,
            ast::Kind::Bytes => ast::kind_sql(k@) == "bytes"@,
            ast::Kind::Uuid => ast::kind_sql(k@) == "uuid"@,
            ast::Kind::Record(tables) => if tables@.len() == 0 {
                ast::kind_sql(k@) == "record"@
            } else {
                ast::kind_sql(k@) == "record<"@ + expr::joined_parts(
                    Seq::new(tables@.len(), |i: int| expr::ident_sql(tables@[i]@)),
                    " | "@,
                ) + ">"@
            },
            ast::Kind::Option(inner) => ast::kind_sql(k@) == "option<"@ + ast::kind_sql(inner@)
                + ">"@,
        },
{
    reveal_with_fuel(ast::kind_sql, 2);
    reveal_with_fuel(ast::kind_view, 2);
    match k {
        ast::Kind::Record(tables) => {
            let names = expr::string_views(tables@);
            assert(Seq::new(names.len(), |i: int| expr::ident_sql(names[i])) =~= Seq::new(
                tables@.len(),
                |i: int| expr::ident_sql(tables@[i]@),
            ));
        },
        _ => {},
    }
}

/// The texts of permissions, one for each thing to do.
pub proof fn permissions_read(p: Permission, all: Permissions)
    ensures
        match p {
            Permission::Nobody => statements::permission_sql(p@) == "NONE"@,
            Permission::Full => statements::permission_sql(p@) == "FULL"@,
            Permission::Specific(e) => statements::permission_sql(p@) == "WHERE "@ + expr::expr_sql(
                e@,
            ),
        },
        statements::permissions_sql(all@) == "PERMISSIONS FOR select "@
            + statements::permission_sql(all.select@) + ", FOR create "@
            + statements::permission_sql(all.create@) + ", FOR update "@
            + statements::permission_sql(all.update@) + ", FOR delete "@
            + statements::permission_sql(all.delete@),
{
}

/// The texts of what becomes of a reference and of what a definition does
/// where there is one already.
pub proof fn references_and_modes_read(r: Reference, k: DefineKind)
    ensures
        match r {
            Reference::Reject => statements::reference_sql(r) == "ON DELETE REJECT"@,
            Reference::Ignore => statements::reference_sql(r) == "ON DELETE IGNORE"@,
            Reference::Cascade => statements::reference_sql(r) == "ON DELETE CASCADE"@,
            Reference::Unset => statements::reference_sql(r) == "ON DELETE UNSET"@,
        },
        match k {
            DefineKind::Default => statements::define_kind_sql(k) == Seq::<char>::empty(),
            DefineKind::Overwrite => statements::define_kind_sql(k) == "OVERWRITE "@,
            DefineKind::IfNotExists => statements::define_kind_sql(k) == "IF NOT EXISTS "@,
        },
{
}

/// Words with what follows them, or nothing.
pub open spec fn words_or_nothing(on: bool, words: Seq<char>) -> Seq<char> {
    if on {
        words
    } else {
        Seq::empty()
    }
}

/// The text of a change feed: its expiry in seconds, and whether it holds the
/// original.
pub proof fn change_feeds_read(c: ChangeFeed)
    ensures
        !c.store_diff ==> statements::changefeed_sql(c) == "CHANGEFEED "@ + text::decimal(
            c.expiry_secs as nat,
        ) + "s"@,
        c.store_diff ==> statements::changefeed_sql(c) == "CHANGEFEED "@ + text::decimal(
            c.expiry_secs as nat,
        ) + "s"@ + " INCLUDE ORIGINAL"@,
{
    assert("CHANGEFEED "@ + text::decimal(c.expiry_secs as nat) + "s"@ + Seq::<char>::empty()
        =~= "CHANGEFEED "@ + text::decimal(c.expiry_secs as nat) + "s"@);
}

/// The text of a table's type. A relation names its tables on either side,
/// where there are any, and whether it is enforced.
pub proof fn table_types_read(t: TableType)
    ensures
        match t {
            TableType::Any => table::table_type_sql(t@) == "ANY"@,
            TableType::Normal => table::table_type_sql(t@) == "NORMAL"@,
            TableType::Relation(r) => table::table_type_sql(t@) == "RELATION"@ + words_or_nothing(
                r.from@.len() > 0,
                " IN "@ + ast::names_sql(expr::string_views(r.from@), " | "@),
            ) + words_or_nothing(
                r.to@.len() > 0,
                " OUT "@ + ast::names_sql(expr::string_views(r.to@), " | "@),
            ) + words_or_nothing(r.enforced, " ENFORCED"@),
        },
{
}

/// The text of an optional expression behind its word.
pub open spec fn word_and_expr(word: Seq<char>, e: Option<Expr>) -> Seq<char> {
    match e {
        Some(e) => word + expr::expr_sql(e@),
        None => Seq::empty(),
    }
}

/// The text of the statement of a table: its parts in this order, each left
/// out where it is not set.
pub proof fn table_statements_read(t: DefineTableStatement)
    ensures
        statements::table_sql(t@) == "DEFINE TABLE "@ + statements::define_kind_sql(t.kind)
            + expr::expr_sql(t.name@) + " TYPE "@ + table::table_type_sql(t.table_type@)
            + words_or_nothing(t.drop, " DROP"@) + (if t.full {
            " SCHEMAFULL"@
        } else {
            " SCHEMALESS"@
        }) + words_or_nothing(
            t.comment != Expr::Literal(Literal::Nothing),
            " COMMENT "@ + expr::expr_sql(t.comment@),
        ) + (match t.view {
            Some(v) => " AS "@ + v.select@,
            None => Seq::empty(),
        }) + (match t.changefeed {
            Some(c) => " "@ + statements::changefeed_sql(c),
            None => Seq::empty(),
        }) + " "@ + statements::permissions_sql(t.permissions@),
{
    lemma_nothing(t.comment);
}

proof fn lemma_nothing(e: Expr)
    ensures
        e == Expr::Literal(Literal::Nothing) <==> e@ == expr::ExprView::Literal(
            expr::LiteralView::Nothing,
        ),
{
}

/// The text of the statement of a field: its parts in this order, each left
/// out where it is not set.
pub proof fn field_statements_read(f: DefineFieldStatement)
    ensures
        statements::field_sql(f@) == "DEFINE FIELD "@ + statements::define_kind_sql(f.kind)
            + expr::expr_sql(f.name@) + " ON "@ + expr::expr_sql(f.what@) + (match f.field_kind {
            Some(k) => " TYPE "@ + expr::kind_sql(k@),
            None => Seq::empty(),
        }) + words_or_nothing(f.flexible, " FLEXIBLE"@) + (match f.default {
            DefineDefault::Unset => Seq::empty(),
            DefineDefault::Always(e) => " DEFAULT ALWAYS "@ + expr::expr_sql(e@),
            DefineDefault::Initial(e) => " DEFAULT "@ + expr::expr_sql(e@),
        }) + words_or_nothing(f.readonly, " READONLY"@) + word_and_expr(" VALUE "@, f.value)
            + word_and_expr(" ASSERT "@, f.assertion) + word_and_expr(" COMPUTED "@, f.computed)
            + words_or_nothing(
            f.comment != Expr::Literal(Literal::Nothing),
            " COMMENT "@ + expr::expr_sql(f.comment@),
        ) + (match f.reference {
            Some(r) => " REFERENCE "@ + statements::reference_sql(r),
            None => Seq::empty(),
        }) + " "@ + statements::permissions_sql(f.permissions@),
{
    lemma_nothing(f.comment);
}

/// The text of an index: its name, its table, its columns in their order, and
/// its comment where there is one.
pub proof fn indexes_read(i: IndexDefinition)
    ensures
        index::index_sql(i@) == "DEFINE INDEX "@ + expr::ident_sql(i.name@) + " ON "@
            + expr::ident_sql(i.table_name.0@) + " FIELDS "@ + expr::joined_parts(
            Seq::new(i.cols@.len(), |k: int| expr::idiom_sql(i.cols@[k]@)),
            ", "@,
        ) + (match i.comment {
            Some(c) => " COMMENT "@ + expr::quoted(c@, '\''),
            None => Seq::empty(),
        }),
{
    reveal_with_fuel(expr::expr_sql, 2);
    let cols = i@.cols;
    assert(Seq::new(cols.len(), |k: int| expr::idiom_sql(cols[k])) =~= Seq::new(
        i.cols@.len(),
        |k: int| expr::idiom_sql(i.cols@[k]@),
    ));
}

/// The statement of a table says what its definition says, and the comment as
/// a text.
pub proof fn the_statement_of_a_table(t: TableDefinition, s: DefineTableStatement)
    requires
        s@ == table::table_statement(t@, t.table_id.0),
    ensures
        s.kind is Default,
        s.id == Some(t.table_id.0),
        s.name matches Expr::Table(n) && n@ == t.name.0@,
        s.drop == t.drop,
        s.full == t.schemafull,
        s.view is None <==> t.view is None,
        s.view matches Some(v) ==> v.select@ == (t.view->0).select@,
        s.permissions@ == t.permissions@,
        s.changefeed == t.changefeed,
        t.comment is None ==> s.comment == Expr::Literal(Literal::Nothing),
        t.comment matches Some(c) ==> s.comment matches Expr::Literal(Literal::String(d)) && d@
            == c@,
        s.table_type@ == t.table_type@,
{
    reveal_with_fuel(expr::expr_view, 2);
    lemma_nothing(s.comment);
}

/// The statement of a field says what its definition says, and the comment as
/// a text; deletions are allowed to everyone.
pub proof fn the_statement_of_a_field(f: FieldDefinition, s: DefineFieldStatement)
    requires
        s@ == field::field_statement(f@),
    ensures
        s.kind is Default,
        s.name matches Expr::Idiom(n) && n@ == f.name@,
        s.what matches Expr::Table(n) && n@ == f.table.0@,
        statements::opt_kind(s.field_kind) == statements::opt_kind(f.field_kind),
        s.flexible == f.flexible,
        s.readonly == f.readonly,
        statements::opt_expr(s.value) == statements::opt_expr(f.value),
        statements::opt_expr(s.assertion) == statements::opt_expr(f.assertion),
        statements::opt_expr(s.computed) == statements::opt_expr(f.computed),
        s.default@ == f.default@,
        s.permissions.select@ == f.select_permission@,
        s.permissions.create@ == f.create_permission@,
        s.permissions.update@ == f.update_permission@,
        s.permissions.delete is Full,
        f.comment is None ==> s.comment == Expr::Literal(Literal::Nothing),
        f.comment matches Some(c) ==> s.comment matches Expr::Literal(Literal::String(d)) && d@
            == c@,
        s.reference == f.reference,
{
    reveal_with_fuel(expr::expr_view, 2);
    lemma_nothing(s.comment);
}

/// A new table is not filled in: nobody is allowed anything.
pub proof fn a_new_table_has_nothing_set(t: TableDefinition, name: Seq<char>)
    requires
        t@ == table::fresh_table(name),
    ensures
        t.name.0@ == name,
        !t.drop,
        !t.schemafull,
        t.view is None,
        t.changefeed is None,
        t.comment is None,
        t.table_type is Any,
        t.permissions.select is Nobody,
        t.permissions.create is Nobody,
        t.permissions.update is Nobody,
        t.permissions.delete is Nobody,
{
}

/// A new field is not filled in: everyone is allowed everything.
pub proof fn a_new_field_has_nothing_set(f: FieldDefinition, name: Seq<Seq<char>>, table: Seq<char>)
    requires
        f@ == field::fresh_field(name, table),
    ensures
        f.name@ == name,
        f.table.0@ == table,
        f.field_kind is None,
        !f.flexible,
        !f.readonly,
        f.value is None,
        f.assertion is None,
        f.computed is None,
        f.default is Unset,
        f.select_permission is Full,
        f.create_permission is Full,
        f.update_permission is Full,
        f.comment is None,
        f.reference is None,
        f.auth_limit.role is None,
        f.computed_deps is None,
{
}

/// The texts of a generator's fields and tables. A normal table names no type.
pub proof fn generated_definitions_read(f: ast::FieldDefinition, t: ast::TableDefinition)
    ensures
        ast::field_sql(f@) == "DEFINE FIELD "@ + expr::ident_sql(f.name@) + " ON TABLE "@
            + expr::ident_sql(f.table@) + " TYPE "@ + ast::kind_sql(f.kind@) + (match f.assertion {
            Some(a) => " ASSERT "@ + a@,
            None => Seq::empty(),
        }) + ";"@,
        ast::table_head_sql(t@) == "DEFINE TABLE "@ + expr::ident_sql(t.name@) + words_or_nothing(
            t.drop,
            " DROP"@,
        ) + (if t.schemafull {
            " SCHEMAFULL"@
        } else {
            " SCHEMALESS"@
        }) + (match t.comment {
            Some(c) => " COMMENT "@ + expr::quoted(c@, '\''),
            None => Seq::empty(),
        }) + ";"@,
{
}

/// A generator's table begins with its own statement; each field and then
/// each index follows on a line of its own, and one that is added stands
/// behind those of its kind.
pub proof fn generated_tables_stand_line_by_line(
    t: ast::TableView,
    f: ast::FieldView,
    i: ast::IndexView,
)
    ensures
        t.fields.len() == 0 && t.indices.len() == 0 ==> ast::table_sql(t) == ast::table_head_sql(t),
        t.indices.len() == 0 ==> ast::table_sql(
            (ast::TableView { fields: t.fields.push(f), ..t }),
        ) == ast::table_sql(t) + "\n"@ + ast::field_sql(f),
        ast::table_sql((ast::TableView { indices: t.indices.push(i), ..t })) == ast::table_sql(t)
            + "\n"@ + ast::index_sql(i),
{
    assert(t.fields.push(f).drop_last() =~= t.fields);
    assert(t.indices.push(i).drop_last() =~= t.indices);
}

} // verus!
