//! Values that describe a definition.

use vstd::prelude::*;

verus! {

/// A value. The entries of an object stand in the order of their names.
#[derive(Debug, PartialEq, Eq)]
pub enum Value {
    Bool(bool),
    Number(u64),
    String(String),
    Array(Vec<Value>),
    Object(Vec<(String, Value)>),
}

/// What a [`Value`] says.
pub enum ValueView {
    Bool(bool),
    Number(u64),
    String(Seq<char>),
    Array(Seq<ValueView>),
    Object(Seq<(Seq<char>, ValueView)>),
}

pub open spec fn value_view(v: Value) -> ValueView
    decreases v,
{
    match v {
        Value::Bool(b) => ValueView::Bool(b),
        Value::Number(n) => ValueView::Number(n),
        Value::String(s) => ValueView::String(s@),
        Value::Array(a) => ValueView::Array(
            Seq::new(
                a@.len(),
                |i: int|
                    if 0 <= i < a@.len() {
                        value_view(a@[i])
                    } else {
                        ValueView::Bool(false)
                    },
            ),
        ),
        Value::Object(o) => ValueView::Object(
            Seq::new(
                o@.len(),
                |i: int|
                    if 0 <= i < o@.len() {
                        (o@[i].0@, value_view(o@[i].1))
                    } else {
                        (Seq::empty(), ValueView::Bool(false))
                    },
            ),
        ),
    }
}

impl View for Value {
    type V = ValueView;

    open spec fn view(&self) -> ValueView {
        value_view(*self)
    }
}

/// The views of the entries of an object.
pub open spec fn entry_views(entries: Seq<(String, Value)>) -> Seq<(Seq<char>, ValueView)> {
    Seq::new(entries.len(), |i: int| (entries[i].0@, entries[i].1@))
}

/// No entry.
pub open spec fn no_entries() -> Seq<(Seq<char>, ValueView)> {
    Seq::empty()
}

/// The entry `name`, where there is a value for it.
pub open spec fn entry(name: Seq<char>, value: Option<ValueView>) -> Seq<
    (Seq<char>, ValueView),
> {
    match value {
        Some(v) => seq![(name, v)],
        None => Seq::empty(),
    }
}

impl Value {
    /// The object of these entries.
    pub fn object(entries: Vec<(String, Value)>) -> (v: Value)
        ensures
            v@ == ValueView::Object(entry_views(entries@)),
    {
        let ghost views = entry_views(entries@);
        let v = Value::Object(entries);
        proof {
            assert(v@->Object_0 =~= views);
        }
        v
    }

    /// The array of these texts.
    pub fn strings(texts: Vec<String>) -> (v: Value)
        ensures
            v@ == ValueView::Array(
                Seq::new(texts@.len(), |i: int| ValueView::String(texts@[i]@)),
            ),
    {
        let ghost all = texts@;
        let mut rest = texts;
        let mut turned: Vec<String> = Vec::new();
        while rest.len() > 0
            invariant
                rest@ == all.take(rest@.len() as int),
                rest@.len() + turned@.len() == all.len(),
                forall|i: int| 0 <= i < turned@.len() ==> turned@[i] == all[all.len() - 1 - i],
            decreases rest.len(),
        {
            match rest.pop() {
                Some(t) => {
                    turned.push(t);
                },
                None => {},
            }
        }
        let mut items: Vec<Value> = Vec::new();
        while turned.len() > 0
            invariant
                items@.len() + turned@.len() == all.len(),
                forall|i: int| 0 <= i < turned@.len() ==> turned@[i] == all[all.len() - 1 - i],
                forall|i: int|
                    0 <= i < items@.len() ==> (#[trigger] items@[i]) == Value::String(all[i]),
            decreases turned.len(),
        {
            proof {
                assert(turned@[turned@.len() - 1] == all[items@.len() as int]);
            }
            match turned.pop() {
                Some(t) => {
                    items.push(Value::String(t));
                },
                None => {},
            }
        }
        let v = Value::Array(items);
        proof {
            reveal_with_fuel(value_view, 2);
            assert(v@->Array_0 =~= Seq::new(all.len(), |i: int| ValueView::String(all[i]@)));
        }
        v
    }
}

/// Appends an entry.
pub fn put_entry(entries: &mut Vec<(String, Value)>, name: &str, value: Value)
    ensures
        entry_views(final(entries)@) == entry_views(old(entries)@) + entry(name@, Some(value@)),
{
    let ghost before = entry_views(entries@);
    let ghost view = value@;
    entries.push((name.to_owned(), value));
    proof {
        assert(entry_views(entries@) =~= before + entry(name@, Some(view)));
    }
}

/// Appends an entry, where there is a value for it.
pub fn put_optional(entries: &mut Vec<(String, Value)>, name: &str, value: Option<Value>)
    ensures
        entry_views(final(entries)@) == entry_views(old(entries)@) + entry(
            name@,
            match value {
                Some(v) => Some(v@),
                None => None,
            },
        ),
{
    match value {
        Some(v) => put_entry(entries, name, v),
        None => {
            proof {
                assert(entry_views(entries@) + entry(name@, None) =~= entry_views(entries@));
            }
        },
    }
}

} // verus!
