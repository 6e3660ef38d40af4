//! What the catalog keeps of what a generator wrote.

use vstd::prelude::*;

use crate::catalog::ast;
use crate::catalog::expr;
use crate::catalog::expr::{Expr, Kind, Literal};
use crate::catalog::op_bridge;
use crate::catalog::op_bridge::BridgedTable;
use crate::catalog::schema::field::FieldDefinition;
use crate::catalog::schema::index;
use crate::catalog::schema::index::IndexDefinition;
use crate::catalog::statements;
use crate::catalog::table::TableDefinition;
use crate::text;

verus! {

/// An index keeps its name, its table and its fields: it has as many columns
/// as the generator's index has fields, and each column is the field of the
/// same place, as a path of one part. It has no comment.
pub proof fn an_index_keeps_its_fields(i: ast::IndexDefinition, r: IndexDefinition)
    requires
        r@ == op_bridge::bridged_index(i@),
    ensures
        r.name@ == i.name@,
        r.table_name.0@ == i.table@,
        r.cols@.len() == i.fields@.len(),
        forall|k: int|
            0 <= k < i.fields@.len() ==> (#[trigger] r.cols@[k]).0@.len() == 1
                && r.cols@[k].0@[0]@ == i.fields@[k]@,
        r.comment is None,
{
    assert(r@.cols.len() == i.fields@.len());
    assert forall|k: int| 0 <= k < i.fields@.len() implies (#[trigger] r.cols@[k]).0@.len() == 1
        && r.cols@[k].0@[0]@ == i.fields@[k]@ by {
        assert(r@.cols[k] == r.cols@[k]@);
        assert(r@.cols[k] == seq![i@.fields[k]]);
        assert(r.cols@[k]@.len() == r.cols@[k].0@.len());
        assert(r.cols@[k]@[0] == r.cols@[k].0@[0]@);
    }
}

/// The text of an index names the fields that the generator's text names, in
/// the same order.
pub proof fn an_index_names_the_same_fields(i: ast::IndexDefinition, r: IndexDefinition)
    requires
        r@ == op_bridge::bridged_index(i@),
    ensures
        ({
            let fields = ast::names_sql(expr::string_views(i.fields@), ", "@);
            &&& ast::index_sql(i@) == "DEFINE INDEX "@ + expr::ident_sql(i.name@) + " ON TABLE "@
                + expr::ident_sql(i.table@) + " FIELDS "@ + fields + ";"@
            &&& index::index_sql(r@) == "DEFINE INDEX "@ + expr::ident_sql(i.name@) + " ON "@
                + expr::ident_sql(i.table@) + " FIELDS "@ + fields
        }),
{
    an_index_keeps_its_fields(i, r);
    let names = i@.fields;
    let cols = r@.cols;
    let a = Seq::new(cols.len(), |k: int| expr::idiom_sql(cols[k]));
    let b = Seq::new(names.len(), |k: int| expr::ident_sql(names[k]));
    assert forall|k: int| 0 <= k < names.len() implies a[k] == b[k] by {
        assert(cols[k] == seq![names[k]]);
        let parts = Seq::new(cols[k].len(), |m: int| expr::ident_sql(cols[k][m]));
        assert(parts.len() == 1 && parts[0] == b[k]);
    }
    assert(a =~= b);
    assert(index::index_sql(r@) =~= "DEFINE INDEX "@ + expr::ident_sql(i.name@) + " ON "@
        + expr::ident_sql(i.table@) + " FIELDS "@ + ast::names_sql(names, ", "@));
}

/// A type keeps what it is; an optional type becomes one of two types, the
/// first of which is the absence of a value.
pub proof fn a_type_is_kept(k: ast::Kind, r: Kind)
    requires
        r@ == op_bridge::bridged_kind(k@),
    ensures
        match k {
            ast::Kind::Any => r is Any,
            ast::Kind::Int => r is Int,
            ast::Kind::String => r is String,
            ast::Kind::Bool => r is Bool,
            ast::Kind::Float => r is Float,
            ast::Kind::Decimal => r is Decimal,
            ast::Kind::Datetime => r is Datetime,
            ast::Kind::Bytes => r is Bytes,
            ast::Kind::Uuid => r is Uuid,
            ast::Kind::Record(names) => r matches Kind::Record(tables) && tables@.len()
                == names@.len() && forall|i: int|
                0 <= i < names@.len() ==> (#[trigger] tables@[i]).0@ == names@[i]@,
            ast::Kind::Option(inner) => r matches Kind::Either(kinds) && kinds@.len() == 2
                && kinds@[0] is Nothing && kinds@[1]@ == op_bridge::bridged_kind(inner@),
        },
{
    reveal_with_fuel(expr::kind_view, 2);
    reveal_with_fuel(ast::kind_view, 2);
    reveal_with_fuel(op_bridge::bridged_kind, 2);
    match k {
        ast::Kind::Record(names) => {
            let tables = r->Record_0;
            assert(expr::table_views(tables@) == expr::string_views(names@));
            assert forall|i: int| 0 <= i < names@.len() implies (#[trigger] tables@[i]).0@
                == names@[i]@ by {
                assert(expr::table_views(tables@)[i] == tables@[i].0@);
                assert(expr::string_views(names@)[i] == names@[i]@);
            }
            assert(expr::table_views(tables@).len() == tables@.len());
        },
        ast::Kind::Option(inner) => {
            let kinds = r->Either_0;
            let views = r@->Either_0;
            assert(views =~= seq![expr::KindView::Nothing, op_bridge::bridged_kind(inner@)]);
            assert(views.len() == kinds@.len());
            assert(views[0] == expr::kind_view(kinds@[0]));
            assert(views[1] == expr::kind_view(kinds@[1]));
        },
        _ => {},
    }
}

/// A field keeps its name, as a path of one part, its table, its type and
/// what it asserts. Nothing else is set, and everyone is allowed everything.
pub proof fn a_field_is_kept(f: ast::FieldDefinition, r: FieldDefinition)
    requires
        r@ == op_bridge::bridged_field(f@),
    ensures
        r.name.0@.len() == 1,
        r.name.0@[0]@ == f.name@,
        r.table.0@ == f.table@,
        r.field_kind matches Some(k) && k@ == op_bridge::bridged_kind(f.kind@),
        f.assertion is None ==> r.assertion is None,
        f.assertion matches Some(a) ==> statements::opt_expr(r.assertion) == op_bridge::lowered(a@),
        !r.flexible,
        !r.readonly,
        r.value is None,
        r.computed is None,
        r.default is Unset,
        r.select_permission is Full,
        r.create_permission is Full,
        r.update_permission is Full,
        r.comment is None,
        r.reference is None,
        r.auth_limit.role is None,
        r.computed_deps is None,
{
    assert(r@.name == seq![f.name@]);
    assert(r.name@.len() == r.name.0@.len());
    assert(r.name@[0] == r.name.0@[0]@);
}

/// A table keeps its name, its comment, and whether it has a full schema and
/// drops what is written. It holds records, nobody is allowed anything, and
/// nothing else is set.
pub proof fn a_table_is_kept(t: ast::TableDefinition, r: TableDefinition)
    requires
        r@ == op_bridge::bridged_table(t@),
    ensures
        r.name.0@ == t.name@,
        r.schemafull == t.schemafull,
        r.drop == t.drop,
        r.comment is None <==> t.comment is None,
        r.comment matches Some(c) ==> c@ == (t.comment->0)@,
        r.table_type is Normal,
        r.permissions.select is Nobody,
        r.permissions.create is Nobody,
        r.permissions.update is Nobody,
        r.permissions.delete is Nobody,
        r.view is None,
        r.changefeed is None,
{
}

/// A schema keeps its tables, and each table its fields and its indexes, all
/// in their order.
pub proof fn a_schema_is_kept(schema: ast::TableSchema, out: Seq<BridgedTable>)
    requires
        out.len() == schema@.len(),
        forall|i: int|
            0 <= i < schema@.len() ==> op_bridge::bridges(#[trigger] out[i], schema@[i]),
    ensures
        out.len() == schema.tables@.len(),
        forall|i: int|
            0 <= i < out.len() ==> {
                let t = schema.tables@[i];
                &&& (#[trigger] out[i]).table@ == op_bridge::bridged_table(t@)
                &&& out[i].fields@.len() == t.fields@.len()
                &&& forall|k: int|
                    0 <= k < t.fields@.len() ==> (#[trigger] out[i].fields@[k])@
                        == op_bridge::bridged_field(t.fields@[k]@)
                &&& out[i].indices@.len() == t.indices@.len()
                &&& forall|k: int|
                    0 <= k < t.indices@.len() ==> (#[trigger] out[i].indices@[k])@
                        == op_bridge::bridged_index(t.indices@[k]@)
            },
{
    assert forall|i: int| 0 <= i < out.len() implies {
        let t = schema.tables@[i];
        &&& (#[trigger] out[i]).table@ == op_bridge::bridged_table(t@)
        &&& out[i].fields@.len() == t.fields@.len()
        &&& forall|k: int|
            0 <= k < t.fields@.len() ==> (#[trigger] out[i].fields@[k])@
                == op_bridge::bridged_field(t.fields@[k]@)
        &&& out[i].indices@.len() == t.indices@.len()
        &&& forall|k: int|
            0 <= k < t.indices@.len() ==> (#[trigger] out[i].indices@[k])@
                == op_bridge::bridged_index(t.indices@[k]@)
    } by {
        let t = schema.tables@[i];
        assert(schema@[i] == t@);
        assert(op_bridge::bridges(out[i], t@));
        assert forall|k: int| 0 <= k < t.fields@.len() implies (#[trigger] out[i].fields@[k])@
            == op_bridge::bridged_field(t.fields@[k]@) by {
            assert(t@.fields[k] == t.fields@[k]@);
        }
        assert forall|k: int| 0 <= k < t.indices@.len() implies (#[trigger] out[i].indices@[k])@
            == op_bridge::bridged_index(t.indices@[k]@) by {
            assert(t@.indices[k] == t.indices@[k]@);
        }
    }
}

/// Spaces are the space, the tabulators and the ends of lines and pages.
pub proof fn these_are_spaces(c: char)
    ensures
        op_bridge::is_space(c) <==> c == ' ' || c == '\t' || c == '\n' || c == '\u{b}' || c
            == '\u{c}' || c == '\r',
{
}

/// A word: some characters, none of them a space.
pub open spec fn is_word(w: Seq<char>) -> bool {
    w.len() > 0 && forall|i: int| 0 <= i < w.len() ==> !op_bridge::is_space(#[trigger] w[i])
}

proof fn lemma_split_word(s: Seq<char>, w: Seq<char>)
    requires
        forall|i: int| 0 <= i < w.len() ==> !op_bridge::is_space(#[trigger] w[i]),
    ensures
        op_bridge::split_words(s + w) == (
            op_bridge::split_words(s).0,
            op_bridge::split_words(s).1 + w,
        ),
    decreases w.len(),
{
    if w.len() == 0 {
        assert(s + w =~= s);
        assert(op_bridge::split_words(s).1 + w =~= op_bridge::split_words(s).1);
    } else {
        lemma_split_word(s, w.drop_last());
        assert((s + w).drop_last() =~= s + w.drop_last());
        assert((s + w).last() == w.last());
        assert(!op_bridge::is_space(w[w.len() - 1]));
        assert((op_bridge::split_words(s).1 + w.drop_last()).push(w.last())
            =~= op_bridge::split_words(s).1 + w);
    }
}

proof fn lemma_split_behind_space(a: Seq<char>, b: Seq<char>)
    ensures
        op_bridge::split_words(a + seq![' '] + b) == (
            op_bridge::words(a) + op_bridge::split_words(b).0,
            op_bridge::split_words(b).1,
        ),
    decreases b.len(),
{
    let s = a + seq![' '] + b;
    if b.len() == 0 {
        assert(s.drop_last() =~= a);
        assert(s.last() == ' ');
        assert(op_bridge::words(a) + Seq::<Seq<char>>::empty() =~= op_bridge::words(a));
        assert(op_bridge::split_words(a).1.len() == 0 ==> op_bridge::split_words(a).1
            =~= Seq::<char>::empty());
    } else {
        lemma_split_behind_space(a, b.drop_last());
        assert(s.drop_last() =~= a + seq![' '] + b.drop_last());
        assert(s.last() == b.last());
        let (words, rest) = op_bridge::split_words(b.drop_last());
        assert((op_bridge::words(a) + words).push(rest) =~= op_bridge::words(a) + words.push(rest));
    }
}

/// A word is its only word, nothing has no words, and a space parts the words
/// before it from those behind it.
pub proof fn spaces_part_the_words(a: Seq<char>, b: Seq<char>, w: Seq<char>)
    ensures
        op_bridge::words(Seq::<char>::empty()) == Seq::<Seq<char>>::empty(),
        is_word(w) ==> op_bridge::words(w) == seq![w],
        op_bridge::words(a + seq![' '] + b) == op_bridge::words(a) + op_bridge::words(b),
{
    if is_word(w) {
        lemma_split_word(Seq::empty(), w);
        assert(Seq::<char>::empty() + w =~= w);
        assert(op_bridge::words(w) =~= seq![w]);
    }
    lemma_split_behind_space(a, b);
    let (words, rest) = op_bridge::split_words(b);
    assert((op_bridge::words(a) + words).push(rest) =~= op_bridge::words(a) + words.push(rest));
}

proof fn lemma_words_are_words(s: Seq<char>)
    ensures
        forall|i: int|
            0 <= i < op_bridge::split_words(s).0.len() ==> is_word(
                #[trigger] op_bridge::split_words(s).0[i],
            ),
        forall|i: int|
            0 <= i < op_bridge::split_words(s).1.len() ==> !op_bridge::is_space(
                #[trigger] op_bridge::split_words(s).1[i],
            ),
    decreases s.len(),
{
    if s.len() > 0 {
        lemma_words_are_words(s.drop_last());
        let (words, rest) = op_bridge::split_words(s.drop_last());
        let (all, tail) = op_bridge::split_words(s);
        assert forall|i: int| 0 <= i < all.len() implies is_word(#[trigger] all[i]) by {
            if i < words.len() {
                assert(all[i] == words[i]);
            } else {
                assert(all[i] == rest);
            }
        }
        assert forall|i: int| 0 <= i < tail.len() implies !op_bridge::is_space(
            #[trigger] tail[i],
        ) by {
            if i < rest.len() {
                assert(tail[i] == rest[i]);
            }
        }
    }
}

/// The words of a text are words.
pub proof fn words_hold_no_space(s: Seq<char>)
    ensures
        forall|i: int|
            0 <= i < op_bridge::words(s).len() ==> is_word(#[trigger] op_bridge::words(s)[i]),
{
    lemma_words_are_words(s);
    assert forall|i: int| 0 <= i < op_bridge::words(s).len() implies is_word(
        #[trigger] op_bridge::words(s)[i],
    ) by {
        let (words, rest) = op_bridge::split_words(s);
        if i < words.len() {
            assert(op_bridge::words(s)[i] == words[i]);
        } else {
            assert(op_bridge::words(s)[i] == rest);
        }
    }
}

proof fn lemma_words_of_joined(parts: Seq<Seq<char>>)
    requires
        forall|i: int| 0 <= i < parts.len() ==> is_word(#[trigger] parts[i]),
    ensures
        op_bridge::words(expr::joined_parts(parts, " "@)) == parts,
    decreases parts.len(),
{
    reveal_strlit(" ");
    if parts.len() == 0 {
        spaces_part_the_words(Seq::empty(), Seq::empty(), Seq::empty());
        assert(parts =~= Seq::empty());
    } else if parts.len() == 1 {
        spaces_part_the_words(Seq::empty(), Seq::empty(), parts[0]);
        assert(parts =~= seq![parts[0]]);
    } else {
        let rest = parts.drop_last();
        assert forall|i: int| 0 <= i < rest.len() implies is_word(#[trigger] rest[i]) by {
            assert(is_word(parts[i]));
        }
        lemma_words_of_joined(rest);
        assert(is_word(parts[parts.len() - 1]));
        spaces_part_the_words(expr::joined_parts(rest, " "@), parts.last(), parts.last());
        assert(" "@ =~= seq![' ']);
        assert(parts =~= rest + seq![parts.last()]);
    }
}

/// One assertion is known: the three words `$value`, `!=` and `NONE`, whatever
/// comments and spaces stand around them. It becomes the comparison of the
/// parameter `value` with the absence of a value.
pub proof fn one_assertion_is_known(s: Seq<char>, e: Option<Expr>)
    requires
        statements::opt_expr(e) == op_bridge::lowered(s),
    ensures
        e is Some <==> op_bridge::words(op_bridge::without_comments(s)) == seq![
            "$value"@,
            "!="@,
            "NONE"@,
        ],
        e matches Some(e) ==> {
            &&& e matches Expr::Binary { left, op, right }
            &&& *left matches Expr::Param(name) && name@ == "value"@
            &&& op is NotEqual
            &&& *right == Expr::Literal(Literal::Nothing)
        },
{
    let found = op_bridge::words(op_bridge::without_comments(s));
    let known = seq!["$value"@, "!="@, "NONE"@];
    reveal_strlit("$value");
    reveal_strlit("!=");
    reveal_strlit("NONE");
    reveal_strlit(" ");
    reveal_strlit("$value != NONE");
    reveal_with_fuel(expr::joined_parts, 4);
    assert(known.drop_last() =~= seq!["$value"@, "!="@]);
    assert(known.drop_last().drop_last() =~= seq!["$value"@]);
    assert(expr::joined_parts(known, " "@) =~= "$value != NONE"@);
    assert forall|i: int| 0 <= i < known.len() implies is_word(#[trigger] known[i]) by {
        assert(is_word("$value"@));
        assert(is_word("!="@));
        assert(is_word("NONE"@));
    }
    lemma_words_of_joined(known);
    words_hold_no_space(op_bridge::without_comments(s));
    lemma_words_of_joined(found);
    reveal_with_fuel(expr::expr_view, 2);
}

proof fn lemma_open_comment(c: Seq<char>)
    requires
        !text::has_part(c, seq!['*', '/']),
    ensures
        op_bridge::after_comment(c) == Seq::<char>::empty(),
    decreases c.len(),
{
    if c.len() >= 2 {
        if c[0] == '*' && c[1] == '/' {
            assert(c.subrange(0, 2) =~= seq!['*', '/']);
            assert(text::part_at(c, seq!['*', '/'], 0));
        }
        assert forall|i: int| !text::part_at(c.skip(1), seq!['*', '/'], i) by {
            if text::part_at(c.skip(1), seq!['*', '/'], i) {
                assert(c.subrange(i + 1, i + 3) =~= c.skip(1).subrange(i, i + 2));
                assert(text::part_at(c, seq!['*', '/'], i + 1));
            }
        }
        lemma_open_comment(c.skip(1));
    }
}

/// A comment that is not closed takes the rest of the text with it.
pub proof fn an_open_comment_takes_the_rest(a: Seq<char>, c: Seq<char>)
    requires
        !text::has_part(a, seq!['/', '*']),
        !text::has_part(c, seq!['*', '/']),
    ensures
        op_bridge::without_comments(a + seq!['/', '*'] + c) == a,
    decreases a.len(),
{
    let s = a + seq!['/', '*'] + c;
    if a.len() == 0 {
        assert(s.skip(2) =~= c);
        lemma_open_comment(c);
        assert(op_bridge::without_comments(s) == op_bridge::without_comments(Seq::empty()));
        assert(a =~= Seq::empty());
    } else {
        if s[0] == '/' && s[1] == '*' {
            assert(a.len() >= 2);
            assert(a.subrange(0, 2) =~= seq!['/', '*']);
            assert(text::part_at(a, seq!['/', '*'], 0));
        }
        assert forall|i: int| !text::part_at(a.skip(1), seq!['/', '*'], i) by {
            if text::part_at(a.skip(1), seq!['/', '*'], i) {
                assert(a.subrange(i + 1, i + 3) =~= a.skip(1).subrange(i, i + 2));
                assert(text::part_at(a, seq!['/', '*'], i + 1));
            }
        }
        an_open_comment_takes_the_rest(a.skip(1), c);
        assert(s.skip(1) =~= a.skip(1) + seq!['/', '*'] + c);
        assert(seq![a[0]] + a.skip(1) =~= a);
    }
}

} // verus!
