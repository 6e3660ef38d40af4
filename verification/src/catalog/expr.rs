//! Names, types and expressions, and their text.

use vstd::prelude::*;

use crate::text;
use crate::text::{chars_of, string_of};

verus! {

/// The parts with `sep` between each two.
pub open spec fn joined_parts(parts: Seq<Seq<char>>, sep: Seq<char>) -> Seq<char>
    decreases parts.len(),
{
    if parts.len() == 0 {
        Seq::empty()
    } else if parts.len() == 1 {
        parts[0]
    } else {
        joined_parts(parts.drop_last(), sep) + sep + parts.last()
    }
}

/// The texts of a vector of strings.
pub open spec fn string_views(v: Seq<String>) -> Seq<Seq<char>> {
    Seq::new(v.len(), |i: int| v[i]@)
}

/// Joins the parts with `sep` between each two.
pub fn join_parts(parts: &Vec<String>, sep: &str) -> (s: String)
    ensures
        s@ == joined_parts(string_views(parts@), sep@),
{
    let ghost views = string_views(parts@);
    let mut s = String::new();
    let mut i: usize = 0;
    proof {
        assert(views.take(0) =~= Seq::empty());
    }
    while i < parts.len()
        invariant
            i <= parts@.len(),
            views == string_views(parts@),
            s@ == joined_parts(views.take(i as int), sep@),
        decreases parts@.len() - i,
    {
        proof {
            assert(views.take(i + 1).drop_last() =~= views.take(i as int));
            assert(views.take(i + 1).last() == views[i as int]);
        }
        if i > 0 {
            s.append(sep);
        }
        s.append(parts[i].as_str());
        proof {
            if i == 0 {
                assert(views.take(1)[0] == views[0]);
                assert(s@ =~= views[0]);
            }
        }
        i += 1;
    }
    proof {
        assert(views.take(views.len() as int) =~= views);
    }
    s
}

/// A copy of a vector of strings.
pub fn copy_strings(v: &Vec<String>) -> (copy: Vec<String>)
    ensures
        string_views(copy@) == string_views(v@),
{
    let mut copy: Vec<String> = Vec::new();
    let mut i: usize = 0;
    while i < v.len()
        invariant
            i <= v@.len(),
            copy@.len() == i,
            forall|j: int| 0 <= j < i ==> (#[trigger] copy@[j])@ == v@[j]@,
        decreases v@.len() - i,
    {
        copy.push(v[i].clone());
        i += 1;
    }
    proof {
        assert(string_views(copy@) =~= string_views(v@));
    }
    copy
}

/// A character that a bare name may hold.
pub open spec fn bare_char(c: char) -> bool {
    ('a' <= c && c <= 'z') || ('A' <= c && c <= 'Z') || ('0' <= c && c <= '9') || c == '_'
}

/// A name that needs no quotes.
pub open spec fn bare_name(s: Seq<char>) -> bool {
    &&& s.len() > 0
    &&& !('0' <= s[0] && s[0] <= '9')
    &&& forall|i: int| 0 <= i < s.len() ==> bare_char(#[trigger] s[i])
}

/// The text with a backslash before every backslash and every `quote`.
pub open spec fn escaped(s: Seq<char>, quote: char) -> Seq<char>
    decreases s.len(),
{
    if s.len() == 0 {
        Seq::empty()
    } else if s.last() == quote || s.last() == '\\' {
        escaped(s.drop_last(), quote).push('\\').push(s.last())
    } else {
        escaped(s.drop_last(), quote).push(s.last())
    }
}

/// A quoted text.
pub open spec fn quoted(s: Seq<char>, quote: char) -> Seq<char> {
    seq![quote] + escaped(s, quote) + seq![quote]
}

/// A name as it stands in a statement: bare where that is possible, else in
/// backticks.
pub open spec fn ident_sql(s: Seq<char>) -> Seq<char> {
    if bare_name(s) {
        s
    } else {
        quoted(s, '`')
    }
}

fn is_bare_char(c: char) -> (bare: bool)
    ensures
        bare == bare_char(c),
{
    ('a' <= c && c <= 'z') || ('A' <= c && c <= 'Z') || ('0' <= c && c <= '9') || c == '_'
}

fn is_bare_name(chars: &Vec<char>) -> (bare: bool)
    ensures
        bare == bare_name(chars@),
{
    if chars.len() == 0 || ('0' <= chars[0] && chars[0] <= '9') {
        return false;
    }
    let mut i: usize = 0;
    while i < chars.len()
        invariant
            i <= chars@.len(),
            forall|j: int| 0 <= j < i ==> bare_char(#[trigger] chars@[j]),
        decreases chars@.len() - i,
    {
        if !is_bare_char(chars[i]) {
            return false;
        }
        i += 1;
    }
    true
}

fn quote_chars(chars: &Vec<char>, quote: char) -> (s: String)
    ensures
        s@ == quoted(chars@, quote),
{
    let mut out: Vec<char> = Vec::new();
    out.push(quote);
    let mut i: usize = 0;
    proof {
        assert(seq![quote] + escaped(chars@.take(0), quote) =~= seq![quote]);
        assert(out@ =~= seq![quote]);
    }
    while i < chars.len()
        invariant
            i <= chars@.len(),
            out@ == seq![quote] + escaped(chars@.take(i as int), quote),
        decreases chars@.len() - i,
    {
        proof {
            assert(chars@.take(i + 1).drop_last() =~= chars@.take(i as int));
            assert(chars@.take(i + 1).last() == chars@[i as int]);
        }
        let c: char = chars[i];
        if c == quote || c == '\\' {
            out.push('\\');
        }
        out.push(c);
        proof {
            assert(out@ =~= seq![quote] + escaped(chars@.take(i + 1), quote));
        }
        i += 1;
    }
    out.push(quote);
    proof {
        assert(chars@.take(chars@.len() as int) =~= chars@);
        assert(out@ =~= quoted(chars@, quote));
    }
    string_of(&out)
}

/// A name as it stands in a statement.
pub fn escape_ident(name: &str) -> (s: String)
    ensures
        s@ == ident_sql(name@),
{
    let chars = chars_of(name);
    if is_bare_name(&chars) {
        name.to_owned()
    } else {
        quote_chars(&chars, '`')
    }
}

/// A text as a literal, in single quotes.
pub fn quote_text(value: &str) -> (s: String)
    ensures
        s@ == quoted(value@, '\''),
{
    quote_chars(&chars_of(value), '\'')
}

/// The name of a table.
#[derive(Debug, PartialEq, Eq)]
pub struct TableName(pub String);

impl View for TableName {
    type V = Seq<char>;

    open spec fn view(&self) -> Seq<char> {
        self.0@
    }
}

impl Clone for TableName {
    fn clone(&self) -> (copy: Self)
        ensures
            copy == *self,
    {
        TableName(self.0.clone())
    }
}

impl From<String> for TableName {
    fn from(name: String) -> (table: Self) {
        TableName(name)
    }
}

impl vstd::std_specs::convert::FromSpecImpl<String> for TableName {
    open spec fn obeys_from_spec() -> bool {
        true
    }

    open spec fn from_spec(name: String) -> Self {
        TableName(name)
    }
}

impl<'a> From<&'a str> for TableName {
    fn from(name: &'a str) -> (table: Self)
        ensures
            table@ == name@,
    {
        TableName(name.to_owned())
    }
}

impl<'a> vstd::std_specs::convert::FromSpecImpl<&'a str> for TableName {
    open spec fn obeys_from_spec() -> bool {
        false
    }

    open spec fn from_spec(name: &'a str) -> Self {
        choose|table: TableName| table@ == name@
    }
}

impl TableName {
    pub fn as_str(&self) -> (s: &str)
        ensures
            s@ == self@,
    {
        self.0.as_str()
    }

    pub fn into_string(self) -> (s: String)
        ensures
            s@ == self@,
    {
        self.0
    }
}

/// A path to a field.
#[derive(Debug, PartialEq, Eq)]
pub struct Idiom(pub Vec<String>);

impl View for Idiom {
    type V = Seq<Seq<char>>;

    open spec fn view(&self) -> Seq<Seq<char>> {
        string_views(self.0@)
    }
}

impl Clone for Idiom {
    fn clone(&self) -> (copy: Self)
        ensures
            copy@ == self@,
    {
        Idiom(copy_strings(&self.0))
    }
}

impl Default for Idiom {
    fn default() -> (idiom: Self)
        ensures
            idiom@ == Seq::<Seq<char>>::empty(),
    {
        let idiom = Idiom(Vec::new());
        proof {
            assert(idiom@ =~= Seq::empty());
        }
        idiom
    }
}

/// The text of a path: its names with dots between them.
pub open spec fn idiom_sql(parts: Seq<Seq<char>>) -> Seq<char> {
    joined_parts(Seq::new(parts.len(), |i: int| ident_sql(parts[i])), "."@)
}

fn escape_all(names: &Vec<String>) -> (out: Vec<String>)
    ensures
        string_views(out@) == Seq::new(names@.len(), |i: int| ident_sql(names@[i]@)),
{
    let mut out: Vec<String> = Vec::new();
    let mut i: usize = 0;
    while i < names.len()
        invariant
            i <= names@.len(),
            out@.len() == i,
            forall|j: int| 0 <= j < i ==> (#[trigger] out@[j])@ == ident_sql(names@[j]@),
        decreases names@.len() - i,
    {
        out.push(escape_ident(names[i].as_str()));
        i += 1;
    }
    proof {
        assert(string_views(out@) =~= Seq::new(names@.len(), |j: int| ident_sql(names@[j]@)));
    }
    out
}

/// The names with `sep` between each two, each as it stands in a statement.
pub fn join_idents(names: &Vec<String>, sep: &str) -> (s: String)
    ensures
        s@ == joined_parts(Seq::new(names@.len(), |i: int| ident_sql(names@[i]@)), sep@),
{
    join_parts(&escape_all(names), sep)
}

impl Idiom {
    /// The path of one field.
    pub fn field(name: String) -> (idiom: Self)
        ensures
            idiom@ == seq![name@],
    {
        let mut parts: Vec<String> = Vec::new();
        parts.push(name);
        let idiom = Idiom(parts);
        proof {
            assert(idiom@ =~= seq![name@]);
        }
        idiom
    }

    pub fn to_sql(&self) -> (s: String)
        ensures
            s@ == idiom_sql(self@),
    {
        proof {
            assert(Seq::new(self.0@.len(), |i: int| ident_sql(self.0@[i]@)) =~= Seq::new(
                self@.len(),
                |i: int| ident_sql(self@[i]),
            ));
        }
        join_idents(&self.0, ".")
    }
}

/// The type of a field.
#[derive(Debug, PartialEq, Eq)]
pub enum Kind {
    Any,
    /// The absence of a value.
    Nothing,
    Int,
    String,
    Bool,
    Float,
    Decimal,
    Datetime,
    Bytes,
    Uuid,
    /// A record of one of the tables, or of any where none is named.
    Record(Vec<TableName>),
    /// One of the types.
    Either(Vec<Kind>),
}

/// What a [`Kind`] says.
pub enum KindView {
    Any,
    Nothing,
    Int,
    String,
    Bool,
    Float,
    Decimal,
    Datetime,
    Bytes,
    Uuid,
    Record(Seq<Seq<char>>),
    Either(Seq<KindView>),
}

/// The names of a vector of tables.
pub open spec fn table_views(v: Seq<TableName>) -> Seq<Seq<char>> {
    Seq::new(v.len(), |i: int| v[i]@)
}

pub open spec fn kind_view(k: Kind) -> KindView
    decreases k,
{
    match k {
        Kind::Any => KindView::Any,
        Kind::Nothing => KindView::Nothing,
        Kind::Int => KindView::Int,
        Kind::String => KindView::String,
        Kind::Bool => KindView::Bool,
        Kind::Float => KindView::Float,
        Kind::Decimal => KindView::Decimal,
        Kind::Datetime => KindView::Datetime,
        Kind::Bytes => KindView::Bytes,
        Kind::Uuid => KindView::Uuid,
        Kind::Record(v) => KindView::Record(table_views(v@)),
        Kind::Either(v) => KindView::Either(
            Seq::new(
                v@.len(),
                |i: int|
                    if 0 <= i < v@.len() {
                        kind_view(v@[i])
                    } else {
                        KindView::Any
                    },
            ),
        ),
    }
}

impl View for Kind {
    type V = KindView;

    open spec fn view(&self) -> KindView {
        kind_view(*self)
    }
}

impl Clone for Kind {
    fn clone(&self) -> (copy: Self)
        ensures
            copy@ == self@,
        decreases self,
    {
        match self {
            Kind::Any => Kind::Any,
            Kind::Nothing => Kind::Nothing,
            Kind::Int => Kind::Int,
            Kind::String => Kind::String,
            Kind::Bool => Kind::Bool,
            Kind::Float => Kind::Float,
            Kind::Decimal => Kind::Decimal,
            Kind::Datetime => Kind::Datetime,
            Kind::Bytes => Kind::Bytes,
            Kind::Uuid => Kind::Uuid,
            Kind::Record(v) => {
                let mut out: Vec<TableName> = Vec::new();
                let mut i: usize = 0;
                while i < v.len()
                    invariant
                        i <= v@.len(),
                        out@ == v@.take(i as int),
                    decreases v@.len() - i,
                {
                    out.push(v[i].clone());
                    i += 1;
                    proof {
                        assert(out@ =~= v@.take(i as int));
                    }
                }
                proof {
                    assert(table_views(out@) =~= table_views(v@));
                }
                Kind::Record(out)
            },
            Kind::Either(v) => {
                let mut out: Vec<Kind> = Vec::new();
                let mut i: usize = 0;
                while i < v.len()
                    invariant
                        *self == Kind::Either(*v),
                        i <= v@.len(),
                        out@.len() == i,
                        forall|j: int| 0 <= j < i ==> (#[trigger] out@[j])@ == v@[j]@,
                    decreases v@.len() - i,
                {
                    proof {
                        assert(decreases_to!(*self => self->Either_0));
                        assert(decreases_to!(*v => v@[i as int]));
                    }
                    let copy = v[i].clone();
                    out.push(copy);
                    i += 1;
                }
                let copy = Kind::Either(out);
                proof {
                    assert(copy@->Either_0 =~= self@->Either_0);
                }
                copy
            },
        }
    }
}

/// The texts of types.
pub open spec fn kind_sqls(kinds: Seq<KindView>) -> Seq<Seq<char>>
    decreases kinds,
{
    if kinds.len() == 0 {
        Seq::empty()
    } else {
        kind_sqls(kinds.drop_last()).push(kind_sql(kinds.last()))
    }
}

/// The text of a type.
pub open spec fn kind_sql(k: KindView) -> Seq<char>
    decreases k,
{
    match k {
        KindView::Any => "any"@,
        KindView::Nothing => "none"@,
        KindView::Int => "int"@,
        KindView::String => "string"@,
        KindView::Bool => "bool"@,
        KindView::Float => "float"@,
        KindView::Decimal => "decimal"@,
        KindView::Datetime => "datetime"@,
        KindView::Bytes => "bytes"@,
        KindView::Uuid => "uuid"@,
        KindView::Record(v) => if v.len() == 0 {
            "record"@
        } else {
            "record<"@ + joined_parts(Seq::new(v.len(), |i: int| ident_sql(v[i])), " | "@) + ">"@
        },
        KindView::Either(v) => joined_parts(kind_sqls(v), " | "@),
    }
}

/// What `format!` makes of a string with `{:?}`.
pub uninterp spec fn string_debug(s: Seq<char>) -> Seq<char>;

/// The `Debug` form of a string, by `format!`: in double quotes, with what
/// cannot be printed escaped. Which characters can be printed is left open.
#[verifier::external_body]
fn debug_string(s: &str) -> (text: String)
    ensures
        text@ == string_debug(s@),
{
    format!("{:?}", s)
}

/// The padding one level deeper.
pub open spec fn deeper(pad: Seq<char>) -> Seq<char> {
    pad + "    "@
}

/// Items on lines of their own, each behind `pad` and before a comma.
pub open spec fn debug_lines(items: Seq<Seq<char>>, pad: Seq<char>) -> Seq<char>
    decreases items.len(),
{
    if items.len() == 0 {
        Seq::empty()
    } else {
        debug_lines(items.drop_last(), pad) + pad + items.last() + ",\n"@
    }
}

/// The `Debug` form of a list over several lines, the last behind `pad`.
pub open spec fn debug_list(items: Seq<Seq<char>>, pad: Seq<char>) -> Seq<char> {
    if items.len() == 0 {
        "[]"@
    } else {
        "[\n"@ + debug_lines(items, deeper(pad)) + pad + "]"@
    }
}

/// The `Debug` form of a name with one field over several lines, the last
/// behind `pad`.
pub open spec fn debug_wrapped(name: Seq<char>, field: Seq<char>, pad: Seq<char>) -> Seq<char> {
    name + "(\n"@ + deeper(pad) + field + ",\n"@ + pad + ")"@
}

/// The `Debug` forms of types.
pub open spec fn kind_debugs(kinds: Seq<KindView>, pad: Seq<char>) -> Seq<Seq<char>>
    decreases kinds,
{
    if kinds.len() == 0 {
        Seq::empty()
    } else {
        kind_debugs(kinds.drop_last(), pad).push(kind_debug(kinds.last(), pad))
    }
}

/// The `Debug` forms of table names.
pub open spec fn table_debugs(names: Seq<Seq<char>>, pad: Seq<char>) -> Seq<Seq<char>> {
    Seq::new(names.len(), |i: int| debug_wrapped("TableName"@, string_debug(names[i]), pad))
}

/// The `Debug` form of a type, `{:#?}`: over several lines where it has parts,
/// each but the first behind `pad`.
pub open spec fn kind_debug(k: KindView, pad: Seq<char>) -> Seq<char>
    decreases k,
{
    match k {
        KindView::Any => "Any"@,
        KindView::Nothing => "None"@,
        KindView::Int => "Int"@,
        KindView::String => "String"@,
        KindView::Bool => "Bool"@,
        KindView::Float => "Float"@,
        KindView::Decimal => "Decimal"@,
        KindView::Datetime => "Datetime"@,
        KindView::Bytes => "Bytes"@,
        KindView::Uuid => "Uuid"@,
        KindView::Record(v) => debug_wrapped(
            "Record"@,
            debug_list(table_debugs(v, deeper(deeper(pad))), deeper(pad)),
            pad,
        ),
        KindView::Either(v) => debug_wrapped(
            "Either"@,
            debug_list(kind_debugs(v, deeper(deeper(pad))), deeper(pad)),
            pad,
        ),
    }
}

fn list_debug(items: &Vec<String>, pad: &str) -> (s: String)
    ensures
        s@ == debug_list(string_views(items@), pad@),
{
    if items.len() == 0 {
        return "[]".to_owned();
    }
    let ghost views = string_views(items@);
    let inner = text::joined(pad, "    ");
    let mut s = "[\n".to_owned();
    let ghost head = s@;
    let mut i: usize = 0;
    proof {
        assert(head + debug_lines(views.take(0), inner@) =~= head);
    }
    while i < items.len()
        invariant
            i <= items@.len(),
            views == string_views(items@),
            s@ == head + debug_lines(views.take(i as int), inner@),
        decreases items@.len() - i,
    {
        proof {
            assert(views.take(i + 1).drop_last() =~= views.take(i as int));
            assert(views.take(i + 1).last() == views[i as int]);
        }
        s.append(inner.as_str());
        s.append(items[i].as_str());
        s.append(",\n");
        i += 1;
        proof {
            assert(s@ =~= head + debug_lines(views.take(i as int), inner@));
        }
    }
    proof {
        assert(views.take(views.len() as int) =~= views);
    }
    s.append(pad);
    s.append("]");
    s
}

fn wrapped_debug(name: &str, field: &str, pad: &str) -> (s: String)
    ensures
        s@ == debug_wrapped(name@, field@, pad@),
{
    let mut s = text::joined(name, "(\n");
    s.append(text::joined(pad, "    ").as_str());
    s.append(field);
    s.append(",\n");
    s.append(pad);
    s.append(")");
    s
}

impl Kind {
    /// The `Debug` form over several lines, each but the first behind `pad`.
    fn debug_behind(&self, pad: &str) -> (s: String)
        ensures
            s@ == kind_debug(self@, pad@),
        decreases self,
    {
        let list_pad = text::joined(pad, "    ");
        let item_pad = text::joined(list_pad.as_str(), "    ");
        match self {
            Kind::Any => "Any".to_owned(),
            Kind::Nothing => "None".to_owned(),
            Kind::Int => "Int".to_owned(),
            Kind::String => "String".to_owned(),
            Kind::Bool => "Bool".to_owned(),
            Kind::Float => "Float".to_owned(),
            Kind::Decimal => "Decimal".to_owned(),
            Kind::Datetime => "Datetime".to_owned(),
            Kind::Bytes => "Bytes".to_owned(),
            Kind::Uuid => "Uuid".to_owned(),
            Kind::Record(v) => {
                let ghost wanted = table_debugs(table_views(v@), item_pad@);
                let mut parts: Vec<String> = Vec::new();
                let mut i: usize = 0;
                while i < v.len()
                    invariant
                        i <= v@.len(),
                        wanted == table_debugs(table_views(v@), item_pad@),
                        parts@.len() == i,
                        forall|j: int| 0 <= j < i ==> (#[trigger] parts@[j])@ == wanted[j],
                    decreases v@.len() - i,
                {
                    parts.push(
                        wrapped_debug(
                            "TableName",
                            debug_string(v[i].as_str()).as_str(),
                            item_pad.as_str(),
                        ),
                    );
                    i += 1;
                }
                proof {
                    assert(string_views(parts@) =~= wanted);
                }
                wrapped_debug("Record", list_debug(&parts, list_pad.as_str()).as_str(), pad)
            },
            Kind::Either(v) => {
                let ghost arms = self@->Either_0;
                let mut parts: Vec<String> = Vec::new();
                let mut i: usize = 0;
                while i < v.len()
                    invariant
                        *self == Kind::Either(*v),
                        arms == self@->Either_0,
                        arms.len() == v@.len(),
                        i <= v@.len(),
                        string_views(parts@) == kind_debugs(arms.take(i as int), item_pad@),
                    decreases v@.len() - i,
                {
                    proof {
                        assert(arms[i as int] == v@[i as int]@);
                        assert(arms.take(i + 1).drop_last() =~= arms.take(i as int));
                        assert(arms.take(i + 1).last() == arms[i as int]);
                    }
                    let ghost before = string_views(parts@);
                    let part = v[i].debug_behind(item_pad.as_str());
                    parts.push(part);
                    proof {
                        assert(string_views(parts@) =~= before.push(part@));
                    }
                    i += 1;
                }
                proof {
                    assert(arms.take(arms.len() as int) =~= arms);
                }
                wrapped_debug("Either", list_debug(&parts, list_pad.as_str()).as_str(), pad)
            },
        }
    }

    /// The `Debug` form, `{:#?}`, in which the absence of a value is `None`.
    pub fn debug_text(&self) -> (s: String)
        ensures
            s@ == kind_debug(self@, Seq::empty()),
    {
        self.debug_behind(String::new().as_str())
    }

    /// The optional form of a type: the absence of a value, or the type.
    pub fn option(inner: Kind) -> (kind: Kind)
        ensures
            kind@ == KindView::Either(seq![KindView::Nothing, inner@]),
    {
        let mut arms: Vec<Kind> = Vec::new();
        arms.push(Kind::Nothing);
        arms.push(inner);
        let kind = Kind::Either(arms);
        proof {
            reveal_with_fuel(kind_view, 2);
            assert(kind@->Either_0 =~= seq![KindView::Nothing, inner@]);
        }
        kind
    }

    pub fn to_sql(&self) -> (s: String)
        ensures
            s@ == kind_sql(self@),
        decreases self,
    {
        match self {
            Kind::Any => "any".to_owned(),
            Kind::Nothing => "none".to_owned(),
            Kind::Int => "int".to_owned(),
            Kind::String => "string".to_owned(),
            Kind::Bool => "bool".to_owned(),
            Kind::Float => "float".to_owned(),
            Kind::Decimal => "decimal".to_owned(),
            Kind::Datetime => "datetime".to_owned(),
            Kind::Bytes => "bytes".to_owned(),
            Kind::Uuid => "uuid".to_owned(),
            Kind::Record(v) => {
                if v.len() == 0 {
                    return "record".to_owned();
                }
                let ghost names = table_views(v@);
                let ghost wanted = Seq::new(names.len(), |i: int| ident_sql(names[i]));
                let mut parts: Vec<String> = Vec::new();
                let mut i: usize = 0;
                while i < v.len()
                    invariant
                        i <= v@.len(),
                        names == table_views(v@),
                        wanted == Seq::new(names.len(), |i: int| ident_sql(names[i])),
                        parts@.len() == i,
                        forall|j: int| 0 <= j < i ==> (#[trigger] parts@[j])@ == wanted[j],
                    decreases v@.len() - i,
                {
                    parts.push(escape_ident(v[i].as_str()));
                    i += 1;
                }
                proof {
                    assert(string_views(parts@) =~= wanted);
                }
                let mut s = "record<".to_owned();
                s.append(join_parts(&parts, " | ").as_str());
                s.append(">");
                s
            },
            Kind::Either(v) => {
                let ghost arms = self@->Either_0;
                let mut parts: Vec<String> = Vec::new();
                let mut i: usize = 0;
                while i < v.len()
                    invariant
                        *self == Kind::Either(*v),
                        arms == self@->Either_0,
                        arms.len() == v@.len(),
                        i <= v@.len(),
                        string_views(parts@) == kind_sqls(arms.take(i as int)),
                    decreases v@.len() - i,
                {
                    proof {
                        assert(arms[i as int] == v@[i as int]@);
                        assert(arms.take(i + 1).drop_last() =~= arms.take(i as int));
                        assert(arms.take(i + 1).last() == arms[i as int]);
                    }
                    let ghost before = string_views(parts@);
                    let part = v[i].to_sql();
                    parts.push(part);
                    proof {
                        assert(string_views(parts@) =~= before.push(part@));
                    }
                    i += 1;
                }
                proof {
                    assert(arms.take(arms.len() as int) =~= arms);
                }
                join_parts(&parts, " | ")
            },
        }
    }
}

/// A value written out.
#[derive(Debug, PartialEq, Eq)]
pub enum Literal {
    /// The absence of a value.
    Nothing,
    Bool(bool),
    Integer(i64),
    String(String),
}

/// What a [`Literal`] says.
pub enum LiteralView {
    Nothing,
    Bool(bool),
    Integer(i64),
    String(Seq<char>),
}

impl View for Literal {
    type V = LiteralView;

    open spec fn view(&self) -> LiteralView {
        match *self {
            Literal::Nothing => LiteralView::Nothing,
            Literal::Bool(b) => LiteralView::Bool(b),
            Literal::Integer(n) => LiteralView::Integer(n),
            Literal::String(s) => LiteralView::String(s@),
        }
    }
}

impl Clone for Literal {
    fn clone(&self) -> (copy: Self)
        ensures
            copy@ == self@,
    {
        match self {
            Literal::Nothing => Literal::Nothing,
            Literal::Bool(b) => Literal::Bool(*b),
            Literal::Integer(n) => Literal::Integer(*n),
            Literal::String(s) => Literal::String(s.clone()),
        }
    }
}

/// An operator between two expressions.
#[derive(Clone, Copy, Debug, PartialEq, Eq, Structural)]
pub enum BinaryOperator {
    Equal,
    NotEqual,
    LessThan,
    LessThanEqual,
    MoreThan,
    MoreThanEqual,
    And,
    Or,
}

/// An expression.
#[derive(Debug, PartialEq, Eq)]
pub enum Expr {
    Idiom(Idiom),
    Table(String),
    Literal(Literal),
    /// A parameter, without its dollar sign.
    Param(String),
    Binary { left: Box<Expr>, op: BinaryOperator, right: Box<Expr> },
}

/// What an [`Expr`] says.
pub enum ExprView {
    Idiom(Seq<Seq<char>>),
    Table(Seq<char>),
    Literal(LiteralView),
    Param(Seq<char>),
    Binary { left: Box<ExprView>, op: BinaryOperator, right: Box<ExprView> },
}

pub open spec fn expr_view(e: Expr) -> ExprView
    decreases e,
{
    match e {
        Expr::Idiom(i) => ExprView::Idiom(i@),
        Expr::Table(t) => ExprView::Table(t@),
        Expr::Literal(l) => ExprView::Literal(l@),
        Expr::Param(p) => ExprView::Param(p@),
        Expr::Binary { left, op, right } => ExprView::Binary {
            left: Box::new(expr_view(*left)),
            op,
            right: Box::new(expr_view(*right)),
        },
    }
}

impl View for Expr {
    type V = ExprView;

    open spec fn view(&self) -> ExprView {
        expr_view(*self)
    }
}

impl Clone for Expr {
    fn clone(&self) -> (copy: Self)
        ensures
            copy@ == self@,
        decreases self,
    {
        match self {
            Expr::Idiom(i) => Expr::Idiom(i.clone()),
            Expr::Table(t) => Expr::Table(t.clone()),
            Expr::Literal(l) => Expr::Literal(l.clone()),
            Expr::Param(p) => Expr::Param(p.clone()),
            Expr::Binary { left, op, right } => Expr::Binary {
                left: Box::new((&**left).clone()),
                op: *op,
                right: Box::new((&**right).clone()),
            },
        }
    }
}

/// The text of an operator.
pub open spec fn operator_sql(op: BinaryOperator) -> Seq<char> {
    match op {
        BinaryOperator::Equal => "="@,
        BinaryOperator::NotEqual => "!="@,
        BinaryOperator::LessThan => "<"@,
        BinaryOperator::LessThanEqual => "<="@,
        BinaryOperator::MoreThan => ">"@,
        BinaryOperator::MoreThanEqual => ">="@,
        BinaryOperator::And => "AND"@,
        BinaryOperator::Or => "OR"@,
    }
}

/// The text of an integer.
pub open spec fn integer_sql(n: i64) -> Seq<char> {
    if n < 0 {
        "-"@ + text::decimal((-n) as nat)
    } else {
        text::decimal(n as nat)
    }
}

/// The text of a literal.
pub open spec fn literal_sql(l: LiteralView) -> Seq<char> {
    match l {
        LiteralView::Nothing => "NONE"@,
        LiteralView::Bool(true) => "true"@,
        LiteralView::Bool(false) => "false"@,
        LiteralView::Integer(n) => integer_sql(n),
        LiteralView::String(s) => quoted(s, '\''),
    }
}

/// The text of an expression.
pub open spec fn expr_sql(e: ExprView) -> Seq<char>
    decreases e,
{
    match e {
        ExprView::Idiom(parts) => idiom_sql(parts),
        ExprView::Table(t) => ident_sql(t),
        ExprView::Literal(l) => literal_sql(l),
        ExprView::Param(p) => "$"@ + ident_sql(p),
        ExprView::Binary { left, op, right } => expr_sql(*left) + " "@ + operator_sql(op) + " "@
            + expr_sql(*right),
    }
}

fn integer_text(n: i64) -> (s: String)
    ensures
        s@ == integer_sql(n),
{
    if n < 0 {
        let magnitude: u64 = (-(n as i128)) as u64;
        text::joined("-", text::decimal_text(magnitude).as_str())
    } else {
        text::decimal_text(n as u64)
    }
}

impl Literal {
    pub fn to_sql(&self) -> (s: String)
        ensures
            s@ == literal_sql(self@),
    {
        match self {
            Literal::Nothing => "NONE".to_owned(),
            Literal::Bool(b) => if *b {
                "true".to_owned()
            } else {
                "false".to_owned()
            },
            Literal::Integer(n) => integer_text(*n),
            Literal::String(s) => quote_text(s.as_str()),
        }
    }
}

impl BinaryOperator {
    pub fn to_sql(self) -> (s: &'static str)
        ensures
            s@ == operator_sql(self),
    {
        match self {
            BinaryOperator::Equal => "=",
            BinaryOperator::NotEqual => "!=",
            BinaryOperator::LessThan => "<",
            BinaryOperator::LessThanEqual => "<=",
            BinaryOperator::MoreThan => ">",
            BinaryOperator::MoreThanEqual => ">=",
            BinaryOperator::And => "AND",
            BinaryOperator::Or => "OR",
        }
    }
}

impl Expr {
    pub fn to_sql(&self) -> (s: String)
        ensures
            s@ == expr_sql(self@),
        decreases self,
    {
        match self {
            Expr::Idiom(i) => i.to_sql(),
            Expr::Table(t) => escape_ident(t.as_str()),
            Expr::Literal(l) => l.to_sql(),
            Expr::Param(p) => text::joined("$", escape_ident(p.as_str()).as_str()),
            Expr::Binary { left, op, right } => {
                let mut s = (&**left).to_sql();
                s.append(" ");
                s.append(op.to_sql());
                s.append(" ");
                s.append((&**right).to_sql().as_str());
                s
            },
        }
    }
}

} // verus!
