//! How numbers are stored, and what is taken over from earlier forms.

use vstd::prelude::*;

use crate::catalog::expr;
use crate::catalog::expr::Kind;
use crate::catalog::revision_error::RevisionErrorView;
use crate::catalog::statements;
use crate::catalog::table;

verus! {

/// A stored number is itself below 251; else a mark tells how many bytes
/// follow, lowest first, and they are no more than it takes.
pub proof fn numbers_are_stored_lowest_byte_first(n: u32)
    ensures
        ({
            let b = table::stored_u32(n);
            &&& n < 251 ==> b.len() == 1 && b[0] == n
            &&& 251 <= n < 0x1_0000 ==> b.len() == 3 && b[0] == 251 && b[1] + 0x100 * b[2] == n
            &&& n >= 0x1_0000 ==> b.len() == 5 && b[0] == 252 && b[1] + 0x100 * b[2] + 0x1_0000
                * b[3] + 0x100_0000 * b[4] == n
        }),
{
}

/// The tables that the first revision of a relation named: those of its record
/// type at their places; none where it had no type; any other type is refused
/// with its name.
pub proof fn relations_name_records(kind: Option<Kind>)
    ensures
        match kind {
            None => table::relation_tables(statements::opt_kind(kind)) is None,
            Some(Kind::Record(tables)) => table::relation_tables(
                statements::opt_kind(kind),
            ) matches Some(Ok(names)) && names.len() == tables@.len() && forall|i: int|
                0 <= i < names.len() ==> #[trigger] names[i] == tables@[i].0@,
            Some(k) => table::relation_tables(statements::opt_kind(kind)) matches Some(Err(e)) && e
                == RevisionErrorView::Conversion(
                "Invalid kind within table relation, should have been a record, found: "@
                    + expr::kind_debug(k@, Seq::empty()),
            ),
        },
{
    reveal_with_fuel(expr::kind_view, 2);
}

/// The names of types in messages.
pub proof fn types_are_named(k: Kind, pad: Seq<char>)
    ensures
        match k {
            Kind::Any => expr::kind_debug(k@, pad) == "Any"@,
            Kind::Nothing => expr::kind_debug(k@, pad) == "None"@,
            Kind::Int => expr::kind_debug(k@, pad) == "Int"@,
            Kind::String => expr::kind_debug(k@, pad) == "String"@,
            Kind::Bool => expr::kind_debug(k@, pad) == "Bool"@,
            Kind::Float => expr::kind_debug(k@, pad) == "Float"@,
            Kind::Decimal => expr::kind_debug(k@, pad) == "Decimal"@,
            Kind::Datetime => expr::kind_debug(k@, pad) == "Datetime"@,
            Kind::Bytes => expr::kind_debug(k@, pad) == "Bytes"@,
            Kind::Uuid => expr::kind_debug(k@, pad) == "Uuid"@,
            Kind::Record(tables) => tables@.len() == 0 ==> expr::kind_debug(k@, pad) == "Record"@
                + "(\n"@ + (pad + "    "@) + "[]"@ + ",\n"@ + pad + ")"@,
            Kind::Either(kinds) => kinds@.len() == 0 ==> expr::kind_debug(k@, pad) == "Either"@
                + "(\n"@ + (pad + "    "@) + "[]"@ + ",\n"@ + pad + ")"@,
        },
{
    reveal_with_fuel(expr::kind_debug, 2);
    reveal_with_fuel(expr::kind_debugs, 2);
    reveal_with_fuel(expr::kind_view, 2);
}

/// The items of a list in a message: each on a line of its own, indented, with
/// a comma behind it, in their order.
pub proof fn items_stand_on_lines(items: Seq<Seq<char>>, item: Seq<char>, pad: Seq<char>)
    ensures
        expr::debug_list(Seq::<Seq<char>>::empty(), pad) == "[]"@,
        expr::debug_list(items.push(item), pad) == "[\n"@ + expr::debug_lines(
            items.push(item),
            pad + "    "@,
        ) + pad + "]"@,
        expr::debug_lines(Seq::<Seq<char>>::empty(), pad) == Seq::<char>::empty(),
        expr::debug_lines(items.push(item), pad) == expr::debug_lines(items, pad) + pad + item
            + ",\n"@,
{
    assert(items.push(item).drop_last() =~= items);
}

/// The tables and the alternatives of a type in a message: each item at its
/// place, two levels deeper than the type.
pub proof fn alternatives_are_named_in_turn(k: Kind, pad: Seq<char>)
    ensures
        k matches Kind::Record(tables) ==> exists|items: Seq<Seq<char>>|
            {
                &&& #[trigger] expr::debug_list(items, pad + "    "@).len() >= 0
                &&& items.len() == tables@.len()
                &&& forall|i: int|
                    0 <= i < items.len() ==> #[trigger] items[i] == "TableName"@ + "(\n"@ + (pad
                        + "    "@ + "    "@ + "    "@) + expr::string_debug(tables@[i].0@) + ",\n"@
                        + (pad + "    "@ + "    "@) + ")"@
                &&& expr::kind_debug(k@, pad) == "Record"@ + "(\n"@ + (pad + "    "@)
                    + expr::debug_list(items, pad + "    "@) + ",\n"@ + pad + ")"@
            },
        k matches Kind::Either(kinds) ==> exists|items: Seq<Seq<char>>|
            {
                &&& #[trigger] expr::debug_list(items, pad + "    "@).len() >= 0
                &&& items.len() == kinds@.len()
                &&& forall|i: int|
                    0 <= i < items.len() ==> #[trigger] items[i] == expr::kind_debug(
                        kinds@[i]@,
                        pad + "    "@ + "    "@,
                    )
                &&& expr::kind_debug(k@, pad) == "Either"@ + "(\n"@ + (pad + "    "@)
                    + expr::debug_list(items, pad + "    "@) + ",\n"@ + pad + ")"@
            },
{
    reveal_with_fuel(expr::kind_debug, 2);
    reveal_with_fuel(expr::kind_view, 2);
    let deep = pad + "    "@ + "    "@;
    match k {
        Kind::Record(tables) => {
            let names = expr::table_views(tables@);
            let items = expr::table_debugs(names, deep);
            assert forall|i: int| 0 <= i < items.len() implies #[trigger] items[i] == "TableName"@
                + "(\n"@ + (deep + "    "@) + expr::string_debug(tables@[i].0@) + ",\n"@ + deep
                + ")"@ by {
                assert(names[i] == tables@[i].0@);
            }
            assert(expr::debug_list(items, pad + "    "@).len() >= 0);
        },
        Kind::Either(kinds) => {
            let views = k@->Either_0;
            let items = expr::kind_debugs(views, deep);
            lemma_kind_debugs(views, deep);
            assert forall|i: int| 0 <= i < items.len() implies #[trigger] items[i]
                == expr::kind_debug(kinds@[i]@, deep) by {
                assert(views[i] == expr::kind_view(kinds@[i]));
            }
            assert(expr::debug_list(items, pad + "    "@).len() >= 0);
        },
        _ => {},
    }
}

proof fn lemma_kind_debugs(kinds: Seq<expr::KindView>, pad: Seq<char>)
    ensures
        expr::kind_debugs(kinds, pad) == Seq::new(
            kinds.len(),
            |i: int| expr::kind_debug(kinds[i], pad),
        ),
    decreases kinds.len(),
{
    if kinds.len() > 0 {
        lemma_kind_debugs(kinds.drop_last(), pad);
    }
    assert(expr::kind_debugs(kinds, pad) =~= Seq::new(
        kinds.len(),
        |i: int| expr::kind_debug(kinds[i], pad),
    ));
}

} // verus!
