//! What the description of a definition says under each name.

use vstd::prelude::*;

use crate::catalog::expr;
use crate::catalog::schema::field;
use crate::catalog::schema::field::FieldDefinition;
use crate::catalog::statements;
use crate::catalog::statements::{ChangeFeed, DefineDefault, Permission, Permissions};
use crate::catalog::table;
use crate::catalog::table::{Relation, TableDefinition, TableType};
use crate::catalog::value;
use crate::catalog::value::{Value, ValueView};
use crate::text;

verus! {

/// No entry has this name.
pub open spec fn lacks(entries: Seq<(Seq<char>, ValueView)>, name: Seq<char>) -> bool {
    forall|j: int| 0 <= j < entries.len() ==> (#[trigger] entries[j]).0 != name
}

/// Exactly one entry has this name, and it has this value.
pub open spec fn has_once(
    entries: Seq<(Seq<char>, ValueView)>,
    name: Seq<char>,
    value: ValueView,
) -> bool {
    exists|i: int|
        {
            &&& 0 <= i < entries.len()
            &&& #[trigger] entries[i] == (name, value)
            &&& forall|j: int|
                0 <= j < entries.len() && j != i ==> (#[trigger] entries[j]).0 != name
        }
}

/// Under the name, the object has this value and no other; none where it has
/// no such entry.
pub open spec fn says(object: ValueView, name: Seq<char>, value: Option<ValueView>) -> bool {
    match object {
        ValueView::Object(entries) => match value {
            Some(v) => has_once(entries, name, v),
            None => lacks(entries, name),
        },
        _ => false,
    }
}

spec fn entries_of(parts: Seq<(Seq<char>, Option<ValueView>)>) -> Seq<(Seq<char>, ValueView)>
    decreases parts.len(),
{
    if parts.len() == 0 {
        Seq::empty()
    } else {
        entries_of(parts.drop_last()) + value::entry(parts.last().0, parts.last().1)
    }
}

spec fn named(parts: Seq<(Seq<char>, Option<ValueView>)>, name: Seq<char>) -> bool {
    exists|i: int| 0 <= i < parts.len() && (#[trigger] parts[i]).0 == name
}

proof fn lemma_unnamed(parts: Seq<(Seq<char>, Option<ValueView>)>, name: Seq<char>)
    requires
        !named(parts, name),
    ensures
        says(ValueView::Object(entries_of(parts)), name, None),
    decreases parts.len(),
{
    if parts.len() > 0 {
        let rest = parts.drop_last();
        assert(!named(rest, name)) by {
            if named(rest, name) {
                let i = choose|i: int| 0 <= i < rest.len() && (#[trigger] rest[i]).0 == name;
                assert(parts[i].0 == name);
            }
        }
        lemma_unnamed(rest, name);
        assert(parts[parts.len() - 1].0 != name);
        let head = entries_of(rest);
        let tail = value::entry(parts.last().0, parts.last().1);
        let all = entries_of(parts);
        assert(all == head + tail);
        assert forall|j: int| 0 <= j < all.len() implies (#[trigger] all[j]).0 != name by {
            if j < head.len() {
                assert(all[j] == head[j]);
                assert(head[j].0 != name);
            } else {
                assert(all[j] == tail[j - head.len()]);
            }
        }
    }
}

proof fn lemma_named(parts: Seq<(Seq<char>, Option<ValueView>)>, i: int)
    requires
        0 <= i < parts.len(),
        forall|a: int, b: int|
            0 <= a < b < parts.len() ==> (#[trigger] parts[a]).0 != (#[trigger] parts[b]).0,
    ensures
        says(ValueView::Object(entries_of(parts)), parts[i].0, parts[i].1),
    decreases parts.len(),
{
    let rest = parts.drop_last();
    let name = parts[i].0;
    let head = entries_of(rest);
    let tail = value::entry(parts.last().0, parts.last().1);
    let all = entries_of(parts);
    assert(all == head + tail);
    if i < rest.len() {
        assert forall|a: int, b: int| 0 <= a < b < rest.len() implies (#[trigger] rest[a]).0 != (
        #[trigger] rest[b]).0 by {
            assert(parts[a].0 != parts[b].0);
        }
        lemma_named(rest, i);
        assert(parts[i].0 != parts[parts.len() - 1].0);
        match parts[i].1 {
            Some(v) => {
                let at = choose|at: int|
                    {
                        &&& 0 <= at < head.len()
                        &&& #[trigger] head[at] == (name, v)
                        &&& forall|j: int|
                            0 <= j < head.len() && j != at ==> (#[trigger] head[j]).0 != name
                    };
                assert(has_once(head, name, v));
                assert(all[at] == (name, v));
                assert forall|j: int| 0 <= j < all.len() && j != at implies (#[trigger] all[j]).0
                    != name by {
                    if j < head.len() {
                        assert(all[j] == head[j]);
                    } else {
                        assert(all[j] == tail[j - head.len()]);
                    }
                }
            },
            None => {
                assert forall|j: int| 0 <= j < all.len() implies (#[trigger] all[j]).0 != name by {
                    if j < head.len() {
                        assert(all[j] == head[j]);
                    } else {
                        assert(all[j] == tail[j - head.len()]);
                    }
                }
            },
        }
    } else {
        assert(!named(rest, name)) by {
            if named(rest, name) {
                let a = choose|a: int| 0 <= a < rest.len() && (#[trigger] rest[a]).0 == name;
                assert(parts[a].0 != parts[i].0);
            }
        }
        lemma_unnamed(rest, name);
        match parts[i].1 {
            Some(v) => {
                assert(all[head.len() as int] == (name, v));
                assert forall|j: int|
                    0 <= j < all.len() && j != head.len() implies (#[trigger] all[j]).0
                    != name by {
                    assert(all[j] == head[j]);
                }
            },
            None => {
                assert forall|j: int| 0 <= j < all.len() implies (#[trigger] all[j]).0 != name by {
                    assert(all[j] == head[j]);
                }
            },
        }
    }
}

/// What is said of a value is said of what it holds: an array and an object of
/// their parts, each at its place.
pub proof fn values_are_what_they_hold(v: Value)
    ensures
        match v {
            Value::Bool(b) => v@ == ValueView::Bool(b),
            Value::Number(n) => v@ == ValueView::Number(n),
            Value::String(s) => v@ == ValueView::String(s@),
            Value::Array(items) => v@ matches ValueView::Array(views) && views.len() == items@.len()
                && forall|i: int| 0 <= i < views.len() ==> #[trigger] views[i] == items@[i]@,
            Value::Object(entries) => v@ matches ValueView::Object(views) && views.len()
                == entries@.len() && forall|i: int|
                0 <= i < views.len() ==> #[trigger] views[i] == (entries@[i].0@, entries@[i].1@),
        },
{
    reveal_with_fuel(value::value_view, 2);
}

/// Names of different marks are different.
spec fn mark(name: Seq<char>) -> int {
    name.len() * 0x100_0000 + name[0] as int * 0x1000 + name[name.len() - 1] as int
}

/// An optional text as a value.
pub open spec fn text_value(s: Option<String>) -> Option<ValueView> {
    match s {
        Some(s) => Some(ValueView::String(s@)),
        None => None,
    }
}

/// The description of a permission: false for nobody, true for everyone, else
/// the text of the condition.
pub proof fn permissions_are_described_one_by_one(p: Permission, all: Permissions)
    ensures
        p is Nobody ==> statements::permission_structure(p@) == ValueView::Bool(false),
        p is Full ==> statements::permission_structure(p@) == ValueView::Bool(true),
        p matches Permission::Specific(e) ==> statements::permission_structure(p@)
            == ValueView::String(expr::expr_sql(e@)),
        ({
            let d = statements::permissions_structure(all@);
            &&& says(d, "select"@, Some(statements::permission_structure(all.select@)))
            &&& says(d, "create"@, Some(statements::permission_structure(all.create@)))
            &&& says(d, "update"@, Some(statements::permission_structure(all.update@)))
            &&& says(d, "delete"@, Some(statements::permission_structure(all.delete@)))
        }),
{
    reveal_strlit("select");
    reveal_strlit("create");
    reveal_strlit("update");
    reveal_strlit("delete");
    let parts = seq![
        ("create"@, Some(statements::permission_structure(all.create@))),
        ("delete"@, Some(statements::permission_structure(all.delete@))),
        ("select"@, Some(statements::permission_structure(all.select@))),
        ("update"@, Some(statements::permission_structure(all.update@))),
    ];
    assert(mark("create"@) != mark("delete"@) && mark("create"@) != mark("select"@) && mark(
        "create"@,
    ) != mark("update"@) && mark("delete"@) != mark("select"@) && mark("delete"@) != mark(
        "update"@,
    ) && mark("select"@) != mark("update"@));
    lemma_four(parts);
    assert(statements::permissions_structure(all@) == ValueView::Object(entries_of(parts)));
    lemma_named(parts, 0);
    lemma_named(parts, 1);
    lemma_named(parts, 2);
    lemma_named(parts, 3);
}

proof fn lemma_four(parts: Seq<(Seq<char>, Option<ValueView>)>)
    requires
        parts.len() == 4,
    ensures
        entries_of(parts) == value::no_entries() + value::entry(parts[0].0, parts[0].1)
            + value::entry(parts[1].0, parts[1].1) + value::entry(parts[2].0, parts[2].1)
            + value::entry(parts[3].0, parts[3].1),
{
    lemma_three(parts.drop_last());
}

proof fn lemma_three(parts: Seq<(Seq<char>, Option<ValueView>)>)
    requires
        parts.len() == 3,
    ensures
        entries_of(parts) == value::no_entries() + value::entry(parts[0].0, parts[0].1)
            + value::entry(parts[1].0, parts[1].1) + value::entry(parts[2].0, parts[2].1),
{
    lemma_two(parts.drop_last());
}

proof fn lemma_two(parts: Seq<(Seq<char>, Option<ValueView>)>)
    requires
        parts.len() == 2,
    ensures
        entries_of(parts) == value::no_entries() + value::entry(parts[0].0, parts[0].1)
            + value::entry(parts[1].0, parts[1].1),
{
    reveal_with_fuel(entries_of, 3);
    assert(parts.drop_last().drop_last() =~= Seq::empty());
}

/// The description of a change feed: its expiry in seconds, and whether it
/// holds the original.
pub proof fn change_feeds_are_described(c: ChangeFeed)
    ensures
        ({
            let d = statements::changefeed_structure(c);
            &&& says(
                d,
                "expiry"@,
                Some(ValueView::String(text::decimal(c.expiry_secs as nat) + "s"@)),
            )
            &&& says(d, "original"@, Some(ValueView::Bool(c.store_diff)))
        }),
{
    reveal_strlit("expiry");
    reveal_strlit("original");
    let parts = seq![
        ("expiry"@, Some(ValueView::String(text::decimal(c.expiry_secs as nat) + "s"@))),
        ("original"@, Some(ValueView::Bool(c.store_diff))),
    ];
    assert(mark("expiry"@) != mark("original"@));
    lemma_two(parts);
    lemma_named(parts, 0);
    lemma_named(parts, 1);
}

/// The names of tables as a list; nothing for no table.
pub open spec fn is_list_of(value: Option<ValueView>, names: Seq<String>) -> bool {
    match value {
        None => names.len() == 0,
        Some(v) => v matches ValueView::Array(items) && names.len() > 0 && items.len()
            == names.len() && forall|i: int|
            0 <= i < names.len() ==> #[trigger] items[i] == ValueView::String(names[i]@),
    }
}

/// The description of a table's type: its kind; for a relation also the tables
/// on either side, where any are named, and whether it is enforced.
pub proof fn table_types_are_described(t: TableType, r: Relation)
    ensures
        says(table::table_type_structure(TableType::Any@), "kind"@, Some(ValueView::String("ANY"@))),
        says(
            table::table_type_structure(TableType::Normal@),
            "kind"@,
            Some(ValueView::String("NORMAL"@)),
        ),
        t matches TableType::Relation(r) ==> {
            let d = table::table_type_structure(t@);
            &&& says(d, "kind"@, Some(ValueView::String("RELATION"@)))
            &&& says(d, "enforced"@, Some(ValueView::Bool(r.enforced)))
            &&& says(d, "in"@, table::side_structure(r@.from))
            &&& is_list_of(table::side_structure(r@.from), r.from@)
            &&& says(d, "out"@, table::side_structure(r@.to))
            &&& is_list_of(table::side_structure(r@.to), r.to@)
        },
{
    reveal_strlit("kind");
    reveal_strlit("enforced");
    reveal_strlit("in");
    reveal_strlit("out");
    let any = seq![("kind"@, Some(ValueView::String("ANY"@)))];
    let normal = seq![("kind"@, Some(ValueView::String("NORMAL"@)))];
    reveal_with_fuel(entries_of, 2);
    assert(any.drop_last() =~= Seq::empty());
    assert(normal.drop_last() =~= Seq::empty());
    lemma_named(any, 0);
    lemma_named(normal, 0);
    match t {
        TableType::Relation(r) => {
            let parts = seq![
                ("enforced"@, Some(ValueView::Bool(r.enforced))),
                ("in"@, table::side_structure(r@.from)),
                ("kind"@, Some(ValueView::String("RELATION"@))),
                ("out"@, table::side_structure(r@.to)),
            ];
            assert(mark("enforced"@) != mark("in"@) && mark("enforced"@) != mark("kind"@) && mark(
                "enforced"@,
            ) != mark("out"@) && mark("in"@) != mark("kind"@) && mark("in"@) != mark("out"@) && mark(
                "kind"@,
            ) != mark("out"@));
            lemma_four(parts);
            assert(table::table_type_structure(t@) == ValueView::Object(entries_of(parts)));
            lemma_named(parts, 0);
            lemma_named(parts, 1);
            lemma_named(parts, 2);
            lemma_named(parts, 3);
        },
        _ => {},
    }
}

spec fn table_parts(t: TableDefinition) -> Seq<(Seq<char>, Option<ValueView>)> {
    seq![
        (
            "changefeed"@,
            match t.changefeed {
                Some(c) => Some(statements::changefeed_structure(c)),
                None => None,
            },
        ),
        ("comment"@, text_value(t.comment)),
        ("drop"@, Some(ValueView::Bool(t.drop))),
        ("id"@, Some(ValueView::Number(t.table_id.0 as u64))),
        ("kind"@, Some(table::table_type_structure(t.table_type@))),
        ("name"@, Some(ValueView::String(t.name.0@))),
        ("permissions"@, Some(statements::permissions_structure(t.permissions@))),
        ("schemafull"@, Some(ValueView::Bool(t.schemafull))),
        (
            "view"@,
            match t.view {
                Some(v) => Some(ValueView::String(v.select@)),
                None => None,
            },
        ),
    ]
}

proof fn lemma_table_names(t: TableDefinition)
    ensures
        forall|a: int, b: int|
            0 <= a < b < table_parts(t).len() ==> (#[trigger] table_parts(t)[a]).0 != (
            #[trigger] table_parts(t)[b]).0,
{
    reveal_strlit("changefeed");
    reveal_strlit("comment");
    reveal_strlit("drop");
    reveal_strlit("id");
    reveal_strlit("kind");
    reveal_strlit("name");
    reveal_strlit("permissions");
    reveal_strlit("schemafull");
    reveal_strlit("view");
    let parts = table_parts(t);
    let marks = seq![
        mark("changefeed"@),
        mark("comment"@),
        mark("drop"@),
        mark("id"@),
        mark("kind"@),
        mark("name"@),
        mark("permissions"@),
        mark("schemafull"@),
        mark("view"@),
    ];
    assert forall|a: int, b: int| 0 <= a < b < parts.len() implies (#[trigger] parts[a]).0 != (
    #[trigger] parts[b]).0 by {
        assert(mark(parts[a].0) == marks[a]);
        assert(mark(parts[b].0) == marks[b]);
        assert(marks[a] != marks[b]);
    }
}

proof fn lemma_table_entries(t: TableDefinition)
    ensures
        table::table_structure(t@, t.table_id.0) == ValueView::Object(entries_of(table_parts(t))),
{
    let parts = table_parts(t);
    let p8 = parts.drop_last();
    let p7 = p8.drop_last();
    let p6 = p7.drop_last();
    let p5 = p6.drop_last();
    lemma_four(p5.drop_last());
    assert(entries_of(p5) == entries_of(p5.drop_last()) + value::entry(p5.last().0, p5.last().1));
    assert(entries_of(p6) == entries_of(p5) + value::entry(p6.last().0, p6.last().1));
    assert(entries_of(p7) == entries_of(p6) + value::entry(p7.last().0, p7.last().1));
    assert(entries_of(p8) == entries_of(p7) + value::entry(p8.last().0, p8.last().1));
}

/// The description of a table says of each of its properties, under the name
/// of the property, what the definition says, and leaves out what is not set.
pub proof fn tables_are_described(t: TableDefinition)
    ensures
        ({
            let d = table::table_structure(t@, t.table_id.0);
            &&& says(d, "name"@, Some(ValueView::String(t.name.0@)))
            &&& says(d, "id"@, Some(ValueView::Number(t.table_id.0 as u64)))
            &&& says(d, "drop"@, Some(ValueView::Bool(t.drop)))
            &&& says(d, "schemafull"@, Some(ValueView::Bool(t.schemafull)))
            &&& says(d, "kind"@, Some(table::table_type_structure(t.table_type@)))
            &&& says(d, "permissions"@, Some(statements::permissions_structure(t.permissions@)))
            &&& says(d, "comment"@, text_value(t.comment))
            &&& t.changefeed matches Some(c) ==> says(
                d,
                "changefeed"@,
                Some(statements::changefeed_structure(c)),
            )
            &&& t.changefeed is None ==> says(d, "changefeed"@, None)
            &&& t.view matches Some(v) ==> says(d, "view"@, Some(ValueView::String(v.select@)))
            &&& t.view is None ==> says(d, "view"@, None)
        }),
{
    let parts = table_parts(t);
    lemma_table_entries(t);
    lemma_table_names(t);
    lemma_named(parts, 0);
    lemma_named(parts, 1);
    lemma_named(parts, 2);
    lemma_named(parts, 3);
    lemma_named(parts, 4);
    lemma_named(parts, 5);
    lemma_named(parts, 6);
    lemma_named(parts, 7);
    lemma_named(parts, 8);
}

/// The description of a table has no entries but these.
pub proof fn tables_are_described_by_nothing_else(t: TableDefinition, name: Seq<char>)
    requires
        name != "name"@,
        name != "id"@,
        name != "drop"@,
        name != "schemafull"@,
        name != "kind"@,
        name != "permissions"@,
        name != "comment"@,
        name != "changefeed"@,
        name != "view"@,
    ensures
        says(table::table_structure(t@, t.table_id.0), name, None),
{
    lemma_table_entries(t);
    let parts = table_parts(t);
    assert(!named(parts, name));
    lemma_unnamed(parts, name);
}

/// The text of an optional expression as a value.
pub open spec fn expr_value(e: Option<expr::Expr>) -> Option<ValueView> {
    match e {
        Some(e) => Some(ValueView::String(expr::expr_sql(e@))),
        None => None,
    }
}

spec fn allowed_parts(f: FieldDefinition) -> Seq<(Seq<char>, Option<ValueView>)> {
    seq![
        ("create"@, Some(statements::permission_structure(f.create_permission@))),
        ("select"@, Some(statements::permission_structure(f.select_permission@))),
        ("update"@, Some(statements::permission_structure(f.update_permission@))),
    ]
}

spec fn field_parts(f: FieldDefinition) -> Seq<(Seq<char>, Option<ValueView>)> {
    seq![
        ("assert"@, expr_value(f.assertion)),
        ("comment"@, text_value(f.comment)),
        ("computed"@, expr_value(f.computed)),
        (
            "default"@,
            match f.default {
                DefineDefault::Unset => None,
                DefineDefault::Always(e) => Some(ValueView::String(expr::expr_sql(e@))),
                DefineDefault::Initial(e) => Some(ValueView::String(expr::expr_sql(e@))),
            },
        ),
        (
            "default_always"@,
            match f.default {
                DefineDefault::Unset => None,
                DefineDefault::Always(_) => Some(ValueView::Bool(true)),
                DefineDefault::Initial(_) => Some(ValueView::Bool(false)),
            },
        ),
        (
            "flexible"@,
            if f.flexible {
                Some(ValueView::Bool(true))
            } else {
                None
            },
        ),
        (
            "kind"@,
            match f.field_kind {
                Some(k) => Some(ValueView::String(expr::kind_sql(k@))),
                None => None,
            },
        ),
        ("name"@, Some(ValueView::String(expr::idiom_sql(f.name@)))),
        ("permissions"@, Some(ValueView::Object(entries_of(allowed_parts(f))))),
        ("readonly"@, Some(ValueView::Bool(f.readonly))),
        (
            "reference"@,
            match f.reference {
                Some(r) => Some(ValueView::String(statements::reference_sql(r))),
                None => None,
            },
        ),
        ("table"@, Some(ValueView::String(f.table.0@))),
        ("value"@, expr_value(f.value)),
    ]
}

proof fn lemma_field_names(f: FieldDefinition)
    ensures
        forall|a: int, b: int|
            0 <= a < b < field_parts(f).len() ==> (#[trigger] field_parts(f)[a]).0 != (
            #[trigger] field_parts(f)[b]).0,
{
    reveal_strlit("assert");
    reveal_strlit("comment");
    reveal_strlit("computed");
    reveal_strlit("default");
    reveal_strlit("default_always");
    reveal_strlit("flexible");
    reveal_strlit("kind");
    reveal_strlit("name");
    reveal_strlit("permissions");
    reveal_strlit("readonly");
    reveal_strlit("reference");
    reveal_strlit("table");
    reveal_strlit("value");
    let parts = field_parts(f);
    let marks = seq![
        mark("assert"@),
        mark("comment"@),
        mark("computed"@),
        mark("default"@),
        mark("default_always"@),
        mark("flexible"@),
        mark("kind"@),
        mark("name"@),
        mark("permissions"@),
        mark("readonly"@),
        mark("reference"@),
        mark("table"@),
        mark("value"@),
    ];
    assert forall|a: int, b: int| 0 <= a < b < parts.len() implies (#[trigger] parts[a]).0 != (
    #[trigger] parts[b]).0 by {
        assert(mark(parts[a].0) == marks[a]);
        assert(mark(parts[b].0) == marks[b]);
        assert(marks[a] != marks[b]);
    }
}

proof fn lemma_field_entries(f: FieldDefinition)
    ensures
        field::field_structure(f@) == ValueView::Object(entries_of(field_parts(f))),
{
    lemma_three(allowed_parts(f));
    let parts = field_parts(f);
    let p12 = parts.drop_last();
    let p11 = p12.drop_last();
    let p10 = p11.drop_last();
    let p9 = p10.drop_last();
    let p8 = p9.drop_last();
    let p7 = p8.drop_last();
    let p6 = p7.drop_last();
    let p5 = p6.drop_last();
    lemma_four(p5.drop_last());
    assert(entries_of(p5) == entries_of(p5.drop_last()) + value::entry(p5.last().0, p5.last().1));
    assert(entries_of(p6) == entries_of(p5) + value::entry(p6.last().0, p6.last().1));
    assert(entries_of(p7) == entries_of(p6) + value::entry(p7.last().0, p7.last().1));
    assert(entries_of(p8) == entries_of(p7) + value::entry(p8.last().0, p8.last().1));
    assert(entries_of(p9) == entries_of(p8) + value::entry(p9.last().0, p9.last().1));
    assert(entries_of(p10) == entries_of(p9) + value::entry(p10.last().0, p10.last().1));
    assert(entries_of(p11) == entries_of(p10) + value::entry(p11.last().0, p11.last().1));
    assert(entries_of(p12) == entries_of(p11) + value::entry(p12.last().0, p12.last().1));
}

/// The description of a field says of each of its properties, under the name
/// of the property, what the definition says, and leaves out what is not set.
/// Permissions are described one by one, without one for deletions, which a
/// field does not have.
pub proof fn fields_are_described(f: FieldDefinition)
    ensures
        ({
            let d = field::field_structure(f@);
            &&& says(d, "name"@, Some(ValueView::String(expr::idiom_sql(f.name@))))
            &&& says(d, "table"@, Some(ValueView::String(f.table.0@)))
            &&& says(d, "readonly"@, Some(ValueView::Bool(f.readonly)))
            &&& f.flexible ==> says(d, "flexible"@, Some(ValueView::Bool(true)))
            &&& !f.flexible ==> says(d, "flexible"@, None)
            &&& says(d, "value"@, expr_value(f.value))
            &&& says(d, "assert"@, expr_value(f.assertion))
            &&& says(d, "computed"@, expr_value(f.computed))
            &&& says(d, "comment"@, text_value(f.comment))
            &&& f.field_kind matches Some(k) ==> says(
                d,
                "kind"@,
                Some(ValueView::String(expr::kind_sql(k@))),
            )
            &&& f.field_kind is None ==> says(d, "kind"@, None)
            &&& f.reference matches Some(r) ==> says(
                d,
                "reference"@,
                Some(ValueView::String(statements::reference_sql(r))),
            )
            &&& f.reference is None ==> says(d, "reference"@, None)
        }),
{
    let parts = field_parts(f);
    lemma_field_entries(f);
    lemma_field_names(f);
    lemma_named(parts, 0);
    lemma_named(parts, 1);
    lemma_named(parts, 2);
    lemma_named(parts, 5);
    lemma_named(parts, 6);
    lemma_named(parts, 7);
    lemma_named(parts, 9);
    lemma_named(parts, 10);
    lemma_named(parts, 11);
    lemma_named(parts, 12);
}

/// The default of a field is described by its text and by whether it always
/// applies; a field without one has neither entry.
pub proof fn field_defaults_are_described(f: FieldDefinition)
    ensures
        ({
            let d = field::field_structure(f@);
            match f.default {
                DefineDefault::Unset => says(d, "default"@, None) && says(
                    d,
                    "default_always"@,
                    None,
                ),
                DefineDefault::Always(e) => says(
                    d,
                    "default"@,
                    Some(ValueView::String(expr::expr_sql(e@))),
                ) && says(d, "default_always"@, Some(ValueView::Bool(true))),
                DefineDefault::Initial(e) => says(
                    d,
                    "default"@,
                    Some(ValueView::String(expr::expr_sql(e@))),
                ) && says(d, "default_always"@, Some(ValueView::Bool(false))),
            }
        }),
{
    let parts = field_parts(f);
    lemma_field_entries(f);
    lemma_field_names(f);
    lemma_named(parts, 3);
    lemma_named(parts, 4);
}

/// The permissions of a field are described one by one.
pub proof fn field_permissions_are_described(f: FieldDefinition)
    ensures
        exists|p: ValueView|
            {
                &&& #[trigger] says(field::field_structure(f@), "permissions"@, Some(p))
                &&& says(
                    p,
                    "select"@,
                    Some(statements::permission_structure(f.select_permission@)),
                )
                &&& says(
                    p,
                    "create"@,
                    Some(statements::permission_structure(f.create_permission@)),
                )
                &&& says(
                    p,
                    "update"@,
                    Some(statements::permission_structure(f.update_permission@)),
                )
                &&& says(p, "delete"@, None)
            },
{
    let parts = field_parts(f);
    let allowed = allowed_parts(f);
    lemma_field_entries(f);
    lemma_field_names(f);
    lemma_named(parts, 8);
    reveal_strlit("select");
    reveal_strlit("create");
    reveal_strlit("update");
    reveal_strlit("delete");
    assert(mark("create"@) != mark("select"@) && mark("create"@) != mark("update"@) && mark(
        "select"@,
    ) != mark("update"@));
    assert(mark("create"@) != mark("delete"@) && mark("delete"@) != mark("select"@) && mark(
        "delete"@,
    ) != mark("update"@));
    lemma_named(allowed, 0);
    lemma_named(allowed, 1);
    lemma_named(allowed, 2);
    assert(!named(allowed, "delete"@));
    lemma_unnamed(allowed, "delete"@);
    assert(says(
        field::field_structure(f@),
        "permissions"@,
        Some(ValueView::Object(entries_of(allowed))),
    ));
}

} // verus!
