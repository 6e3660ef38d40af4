//! Statements that define tables, fields and indexes, and their text.

use vstd::prelude::*;

use crate::catalog::expr;
use crate::catalog::expr::{Expr, ExprView, Kind, KindView, Literal, LiteralView};
use crate::catalog::table;
use crate::catalog::table::{TableType, TableTypeView};
use crate::catalog::value;
use crate::catalog::value::{put_entry, Value, ValueView};
use crate::text;
use crate::text::{decimal_text, joined};

verus! {

/// Who may do something.
#[derive(Debug, PartialEq, Eq)]
pub enum Permission {
    Nobody,
    Full,
    /// Those for whom the expression holds.
    Specific(Expr),
}

/// What a [`Permission`] says.
pub enum PermissionView {
    Nobody,
    Full,
    Specific(ExprView),
}

impl View for Permission {
    type V = PermissionView;

    open spec fn view(&self) -> PermissionView {
        match *self {
            Permission::Nobody => PermissionView::Nobody,
            Permission::Full => PermissionView::Full,
            Permission::Specific(e) => PermissionView::Specific(e@),
        }
    }
}

impl Default for Permission {
    fn default() -> (p: Self)
        ensures
            p == Permission::Full,
    {
        Permission::Full
    }
}

impl Clone for Permission {
    fn clone(&self) -> (copy: Self)
        ensures
            copy@ == self@,
    {
        match self {
            Permission::Nobody => Permission::Nobody,
            Permission::Full => Permission::Full,
            Permission::Specific(e) => Permission::Specific(e.clone()),
        }
    }
}

/// The text of a permission.
pub open spec fn permission_sql(p: PermissionView) -> Seq<char> {
    match p {
        PermissionView::Nobody => "NONE"@,
        PermissionView::Full => "FULL"@,
        PermissionView::Specific(e) => "WHERE "@ + expr::expr_sql(e),
    }
}

/// The description of a permission.
pub open spec fn permission_structure(p: PermissionView) -> ValueView {
    match p {
        PermissionView::Nobody => ValueView::Bool(false),
        PermissionView::Full => ValueView::Bool(true),
        PermissionView::Specific(e) => ValueView::String(expr::expr_sql(e)),
    }
}

impl Permission {
    pub fn to_sql(&self) -> (s: String)
        ensures
            s@ == permission_sql(self@),
    {
        match self {
            Permission::Nobody => "NONE".to_owned(),
            Permission::Full => "FULL".to_owned(),
            Permission::Specific(e) => joined("WHERE ", e.to_sql().as_str()),
        }
    }

    pub fn structure(&self) -> (v: Value)
        ensures
            v@ == permission_structure(self@),
    {
        match self {
            Permission::Nobody => Value::Bool(false),
            Permission::Full => Value::Bool(true),
            Permission::Specific(e) => Value::String(e.to_sql()),
        }
    }
}

/// Who may select, create, update and delete.
#[derive(Debug, PartialEq, Eq)]
pub struct Permissions {
    pub select: Permission,
    pub create: Permission,
    pub update: Permission,
    pub delete: Permission,
}

/// What a [`Permissions`] says.
pub struct PermissionsView {
    pub select: PermissionView,
    pub create: PermissionView,
    pub update: PermissionView,
    pub delete: PermissionView,
}

impl View for Permissions {
    type V = PermissionsView;

    open spec fn view(&self) -> PermissionsView {
        PermissionsView {
            select: self.select@,
            create: self.create@,
            update: self.update@,
            delete: self.delete@,
        }
    }
}

impl Clone for Permissions {
    fn clone(&self) -> (copy: Self)
        ensures
            copy@ == self@,
    {
        Permissions {
            select: self.select.clone(),
            create: self.create.clone(),
            update: self.update.clone(),
            delete: self.delete.clone(),
        }
    }
}

/// Nobody may do anything.
pub open spec fn nobody() -> PermissionsView {
    PermissionsView {
        select: PermissionView::Nobody,
        create: PermissionView::Nobody,
        update: PermissionView::Nobody,
        delete: PermissionView::Nobody,
    }
}

/// The text of permissions.
pub open spec fn permissions_sql(p: PermissionsView) -> Seq<char> {
    "PERMISSIONS FOR select "@ + permission_sql(p.select) + ", FOR create "@ + permission_sql(
        p.create,
    ) + ", FOR update "@ + permission_sql(p.update) + ", FOR delete "@ + permission_sql(p.delete)
}

/// The description of permissions.
pub open spec fn permissions_structure(p: PermissionsView) -> ValueView {
    ValueView::Object(
        value::no_entries() + value::entry("create"@, Some(permission_structure(p.create)))
            + value::entry("delete"@, Some(permission_structure(p.delete))) + value::entry(
            "select"@,
            Some(permission_structure(p.select)),
        ) + value::entry("update"@, Some(permission_structure(p.update))),
    )
}

impl Permissions {
    /// Nobody may do anything.
    pub fn none() -> (p: Self)
        ensures
            p@ == nobody(),
    {
        Permissions {
            select: Permission::Nobody,
            create: Permission::Nobody,
            update: Permission::Nobody,
            delete: Permission::Nobody,
        }
    }

    pub fn to_sql(&self) -> (s: String)
        ensures
            s@ == permissions_sql(self@),
    {
        let mut s = joined("PERMISSIONS FOR select ", self.select.to_sql().as_str());
        s.append(", FOR create ");
        s.append(self.create.to_sql().as_str());
        s.append(", FOR update ");
        s.append(self.update.to_sql().as_str());
        s.append(", FOR delete ");
        s.append(self.delete.to_sql().as_str());
        s
    }

    pub fn structure(&self) -> (v: Value)
        ensures
            v@ == permissions_structure(self@),
    {
        let mut entries: Vec<(String, Value)> = Vec::new();
        proof {
            assert(value::entry_views(entries@) =~= value::no_entries());
        }
        put_entry(&mut entries, "create", self.create.structure());
        put_entry(&mut entries, "delete", self.delete.structure());
        put_entry(&mut entries, "select", self.select.structure());
        put_entry(&mut entries, "update", self.update.structure());
        Value::object(entries)
    }
}

/// What happens to a field that refers to a deleted record.
#[derive(Clone, Copy, Debug, PartialEq, Eq, Structural)]
pub enum Reference {
    Reject,
    Ignore,
    Cascade,
    Unset,
}

/// The text of a reference.
pub open spec fn reference_sql(r: Reference) -> Seq<char> {
    match r {
        Reference::Reject => "ON DELETE REJECT"@,
        Reference::Ignore => "ON DELETE IGNORE"@,
        Reference::Cascade => "ON DELETE CASCADE"@,
        Reference::Unset => "ON DELETE UNSET"@,
    }
}

impl Reference {
    pub fn to_sql(self) -> (s: &'static str)
        ensures
            s@ == reference_sql(self),
    {
        match self {
            Reference::Reject => "ON DELETE REJECT",
            Reference::Ignore => "ON DELETE IGNORE",
            Reference::Cascade => "ON DELETE CASCADE",
            Reference::Unset => "ON DELETE UNSET",
        }
    }
}

/// The default of a field.
#[derive(Debug, PartialEq, Eq)]
pub enum DefineDefault {
    Unset,
    /// For every write that leaves the field out.
    Always(Expr),
    /// For a new record that leaves the field out.
    Initial(Expr),
}

/// What a [`DefineDefault`] says.
pub enum DefaultView {
    Unset,
    Always(ExprView),
    Initial(ExprView),
}

impl View for DefineDefault {
    type V = DefaultView;

    open spec fn view(&self) -> DefaultView {
        match *self {
            DefineDefault::Unset => DefaultView::Unset,
            DefineDefault::Always(e) => DefaultView::Always(e@),
            DefineDefault::Initial(e) => DefaultView::Initial(e@),
        }
    }
}

impl Default for DefineDefault {
    fn default() -> (d: Self)
        ensures
            d == DefineDefault::Unset,
    {
        DefineDefault::Unset
    }
}

impl Clone for DefineDefault {
    fn clone(&self) -> (copy: Self)
        ensures
            copy@ == self@,
    {
        match self {
            DefineDefault::Unset => DefineDefault::Unset,
            DefineDefault::Always(e) => DefineDefault::Always(e.clone()),
            DefineDefault::Initial(e) => DefineDefault::Initial(e.clone()),
        }
    }
}

/// An optional expression by its view.
pub open spec fn opt_expr(e: Option<Expr>) -> Option<ExprView> {
    match e {
        Some(e) => Some(e@),
        None => None,
    }
}

/// An optional type by its view.
pub open spec fn opt_kind(k: Option<Kind>) -> Option<KindView> {
    match k {
        Some(k) => Some(k@),
        None => None,
    }
}

/// An optional text by its view.
pub open spec fn opt_text(s: Option<String>) -> Option<Seq<char>> {
    match s {
        Some(s) => Some(s@),
        None => None,
    }
}

/// A copy of an optional expression.
pub fn copy_expr(e: &Option<Expr>) -> (copy: Option<Expr>)
    ensures
        opt_expr(copy) == opt_expr(*e),
{
    match e {
        Some(e) => Some(e.clone()),
        None => None,
    }
}

/// A copy of an optional type.
pub fn copy_kind(k: &Option<Kind>) -> (copy: Option<Kind>)
    ensures
        opt_kind(copy) == opt_kind(*k),
{
    match k {
        Some(k) => Some(k.clone()),
        None => None,
    }
}

/// A comment as an expression; the absence of a value where there is none.
pub open spec fn comment_expr(comment: Option<Seq<char>>) -> ExprView {
    match comment {
        Some(s) => ExprView::Literal(LiteralView::String(s)),
        None => ExprView::Literal(LiteralView::Nothing),
    }
}

/// A comment as an expression.
pub fn comment_to_expr(comment: &Option<String>) -> (e: Expr)
    ensures
        e@ == comment_expr(opt_text(*comment)),
{
    match comment {
        Some(s) => Expr::Literal(Literal::String(s.clone())),
        None => Expr::Literal(Literal::Nothing),
    }
}

/// `word` and the expression behind it, where there is one.
pub open spec fn clause(word: Seq<char>, e: Option<ExprView>) -> Seq<char> {
    match e {
        Some(e) => word + expr::expr_sql(e),
        None => Seq::empty(),
    }
}

fn append_clause(s: &mut String, word: &str, e: &Option<Expr>)
    ensures
        final(s)@ == old(s)@ + clause(word@, opt_expr(*e)),
{
    match e {
        Some(e) => {
            let ghost before = s@;
            s.append(word);
            s.append(e.to_sql().as_str());
            proof {
                assert(s@ =~= before + (word@ + expr::expr_sql(e@)));
            }
        },
        None => {
            proof {
                assert(s@ + Seq::<char>::empty() =~= s@);
            }
        },
    }
}

/// The comment clause; none for a comment that is not there.
pub open spec fn comment_clause(comment: ExprView) -> Seq<char> {
    if comment == ExprView::Literal(LiteralView::Nothing) {
        Seq::empty()
    } else {
        " COMMENT "@ + expr::expr_sql(comment)
    }
}

pub(crate) fn append_comment(s: &mut String, comment: &Expr)
    ensures
        final(s)@ == old(s)@ + comment_clause(comment@),
{
    let ghost before = s@;
    match comment {
        Expr::Literal(Literal::Nothing) => {
            proof {
                assert(before + comment_clause(comment@) =~= before);
            }
        },
        _ => {
            s.append(" COMMENT ");
            s.append(comment.to_sql().as_str());
            proof {
                assert(s@ =~= before + (" COMMENT "@ + expr::expr_sql(comment@)));
            }
        },
    }
}

/// What a definition does to one of the same name.
#[derive(Clone, Copy, Debug, PartialEq, Eq, Structural)]
pub enum DefineKind {
    /// It is an error.
    Default,
    /// It is replaced.
    Overwrite,
    /// It stays.
    IfNotExists,
}

/// The text of a [`DefineKind`].
pub open spec fn define_kind_sql(k: DefineKind) -> Seq<char> {
    match k {
        DefineKind::Default => Seq::empty(),
        DefineKind::Overwrite => "OVERWRITE "@,
        DefineKind::IfNotExists => "IF NOT EXISTS "@,
    }
}

fn append_define_kind(s: &mut String, k: DefineKind)
    ensures
        final(s)@ == old(s)@ + define_kind_sql(k),
{
    match k {
        DefineKind::Default => {
            proof {
                assert(s@ + define_kind_sql(k) =~= s@);
            }
        },
        DefineKind::Overwrite => s.append("OVERWRITE "),
        DefineKind::IfNotExists => s.append("IF NOT EXISTS "),
    }
}

/// `DEFINE FIELD`.
#[derive(Debug, PartialEq, Eq)]
pub struct DefineFieldStatement {
    pub kind: DefineKind,
    pub name: Expr,
    pub what: Expr,
    pub field_kind: Option<Kind>,
    pub flexible: bool,
    pub readonly: bool,
    pub value: Option<Expr>,
    pub assertion: Option<Expr>,
    pub computed: Option<Expr>,
    pub default: DefineDefault,
    pub permissions: Permissions,
    pub comment: Expr,
    pub reference: Option<Reference>,
}

/// What a [`DefineFieldStatement`] says.
pub struct DefineFieldView {
    pub kind: DefineKind,
    pub name: ExprView,
    pub what: ExprView,
    pub field_kind: Option<KindView>,
    pub flexible: bool,
    pub readonly: bool,
    pub value: Option<ExprView>,
    pub assertion: Option<ExprView>,
    pub computed: Option<ExprView>,
    pub default: DefaultView,
    pub permissions: PermissionsView,
    pub comment: ExprView,
    pub reference: Option<Reference>,
}

impl View for DefineFieldStatement {
    type V = DefineFieldView;

    open spec fn view(&self) -> DefineFieldView {
        DefineFieldView {
            kind: self.kind,
            name: self.name@,
            what: self.what@,
            field_kind: opt_kind(self.field_kind),
            flexible: self.flexible,
            readonly: self.readonly,
            value: opt_expr(self.value),
            assertion: opt_expr(self.assertion),
            computed: opt_expr(self.computed),
            default: self.default@,
            permissions: self.permissions@,
            comment: self.comment@,
            reference: self.reference,
        }
    }
}

/// The text of a default.
pub open spec fn default_clause(d: DefaultView) -> Seq<char> {
    match d {
        DefaultView::Unset => Seq::empty(),
        DefaultView::Always(e) => " DEFAULT ALWAYS "@ + expr::expr_sql(e),
        DefaultView::Initial(e) => " DEFAULT "@ + expr::expr_sql(e),
    }
}

/// `words` where `on`, else nothing.
pub open spec fn flag(on: bool, words: Seq<char>) -> Seq<char> {
    if on {
        words
    } else {
        Seq::empty()
    }
}

pub(crate) fn append_flag(s: &mut String, on: bool, words: &str)
    ensures
        final(s)@ == old(s)@ + flag(on, words@),
{
    if on {
        s.append(words);
    } else {
        proof {
            assert(s@ + Seq::<char>::empty() =~= s@);
        }
    }
}

/// The type of a field.
pub open spec fn kind_clause(k: Option<KindView>) -> Seq<char> {
    match k {
        Some(k) => " TYPE "@ + expr::kind_sql(k),
        None => Seq::empty(),
    }
}

fn append_kind(s: &mut String, k: &Option<Kind>)
    ensures
        final(s)@ == old(s)@ + kind_clause(opt_kind(*k)),
{
    let ghost before = s@;
    match k {
        Some(k) => {
            s.append(" TYPE ");
            s.append(k.to_sql().as_str());
            proof {
                assert(s@ =~= before + (" TYPE "@ + expr::kind_sql(k@)));
            }
        },
        None => {
            proof {
                assert(before + Seq::<char>::empty() =~= before);
            }
        },
    }
}

fn append_default(s: &mut String, d: &DefineDefault)
    ensures
        final(s)@ == old(s)@ + default_clause(d@),
{
    let ghost before = s@;
    match d {
        DefineDefault::Unset => {
            proof {
                assert(before + default_clause(d@) =~= before);
            }
        },
        DefineDefault::Always(e) => {
            s.append(" DEFAULT ALWAYS ");
            s.append(e.to_sql().as_str());
            proof {
                assert(s@ =~= before + default_clause(d@));
            }
        },
        DefineDefault::Initial(e) => {
            s.append(" DEFAULT ");
            s.append(e.to_sql().as_str());
            proof {
                assert(s@ =~= before + default_clause(d@));
            }
        },
    }
}

/// What a field that refers to records does when one is deleted.
pub open spec fn reference_clause(r: Option<Reference>) -> Seq<char> {
    match r {
        Some(r) => " REFERENCE "@ + reference_sql(r),
        None => Seq::empty(),
    }
}

fn append_reference(s: &mut String, r: Option<Reference>)
    ensures
        final(s)@ == old(s)@ + reference_clause(r),
{
    let ghost before = s@;
    match r {
        Some(r) => {
            s.append(" REFERENCE ");
            s.append(r.to_sql());
            proof {
                assert(s@ =~= before + (" REFERENCE "@ + reference_sql(r)));
            }
        },
        None => {
            proof {
                assert(before + Seq::<char>::empty() =~= before);
            }
        },
    }
}

/// The text of a `DEFINE FIELD` statement.
pub open spec fn field_sql(f: DefineFieldView) -> Seq<char> {
    "DEFINE FIELD "@ + define_kind_sql(f.kind) + expr::expr_sql(f.name) + " ON "@ + expr::expr_sql(f.what)
        + kind_clause(f.field_kind) + flag(f.flexible, " FLEXIBLE"@) + default_clause(f.default) + flag(
        f.readonly,
        " READONLY"@,
    ) + clause(" VALUE "@, f.value) + clause(" ASSERT "@, f.assertion) + clause(
        " COMPUTED "@,
        f.computed,
    ) + comment_clause(f.comment) + reference_clause(f.reference) + " "@ + permissions_sql(f.permissions)
}

impl DefineFieldStatement {
    pub fn to_sql(&self) -> (s: String)
        ensures
            s@ == field_sql(self@),
    {
        let mut s = "DEFINE FIELD ".to_owned();
        append_define_kind(&mut s, self.kind);
        s.append(self.name.to_sql().as_str());
        s.append(" ON ");
        s.append(self.what.to_sql().as_str());
        append_kind(&mut s, &self.field_kind);
        append_flag(&mut s, self.flexible, " FLEXIBLE");
        append_default(&mut s, &self.default);
        append_flag(&mut s, self.readonly, " READONLY");
        append_clause(&mut s, " VALUE ", &self.value);
        append_clause(&mut s, " ASSERT ", &self.assertion);
        append_clause(&mut s, " COMPUTED ", &self.computed);
        append_comment(&mut s, &self.comment);
        append_reference(&mut s, self.reference);
        s.append(" ");
        s.append(self.permissions.to_sql().as_str());
        s
    }
}

/// How long the changes of a table are kept.
#[derive(Clone, Copy, Debug, PartialEq, Eq, Structural)]
pub struct ChangeFeed {
    pub expiry_secs: u64,
    /// Whether a change holds the record as it was before.
    pub store_diff: bool,
}

/// The text of a change feed.
pub open spec fn changefeed_sql(c: ChangeFeed) -> Seq<char> {
    "CHANGEFEED "@ + text::decimal(c.expiry_secs as nat) + "s"@ + flag(
        c.store_diff,
        " INCLUDE ORIGINAL"@,
    )
}

/// The description of a change feed.
pub open spec fn changefeed_structure(c: ChangeFeed) -> ValueView {
    ValueView::Object(
        value::no_entries() + value::entry(
            "expiry"@,
            Some(ValueView::String(text::decimal(c.expiry_secs as nat) + "s"@)),
        ) + value::entry("original"@, Some(ValueView::Bool(c.store_diff))),
    )
}

impl ChangeFeed {
    pub fn to_sql(self) -> (s: String)
        ensures
            s@ == changefeed_sql(self),
    {
        let mut s = joined("CHANGEFEED ", decimal_text(self.expiry_secs).as_str());
        s.append("s");
        append_flag(&mut s, self.store_diff, " INCLUDE ORIGINAL");
        s
    }

    pub fn structure(self) -> (v: Value)
        ensures
            v@ == changefeed_structure(self),
    {
        let mut entries: Vec<(String, Value)> = Vec::new();
        proof {
            assert(value::entry_views(entries@) =~= value::no_entries());
        }
        let expiry = joined(decimal_text(self.expiry_secs).as_str(), "s");
        put_entry(&mut entries, "expiry", Value::String(expiry));
        put_entry(&mut entries, "original", Value::Bool(self.store_diff));
        Value::object(entries)
    }
}

/// The query that a table is a view of.
#[derive(Debug, PartialEq, Eq)]
pub struct ViewDefinition {
    /// The text of the query.
    pub select: String,
}

impl View for ViewDefinition {
    type V = Seq<char>;

    open spec fn view(&self) -> Seq<char> {
        self.select@
    }
}

impl Clone for ViewDefinition {
    fn clone(&self) -> (copy: Self)
        ensures
            copy@ == self@,
    {
        ViewDefinition { select: self.select.clone() }
    }
}

/// An optional query by its view.
pub open spec fn opt_view(v: Option<ViewDefinition>) -> Option<Seq<char>> {
    match v {
        Some(v) => Some(v@),
        None => None,
    }
}

/// `DEFINE TABLE`.
#[derive(Debug, PartialEq, Eq)]
pub struct DefineTableStatement {
    pub kind: DefineKind,
    /// The number of the table, which the text leaves out.
    pub id: Option<u32>,
    pub name: Expr,
    pub drop: bool,
    pub full: bool,
    pub view: Option<ViewDefinition>,
    pub permissions: Permissions,
    pub changefeed: Option<ChangeFeed>,
    pub comment: Expr,
    pub table_type: TableType,
}

/// What a [`DefineTableStatement`] says.
pub struct DefineTableView {
    pub kind: DefineKind,
    pub id: Option<u32>,
    pub name: ExprView,
    pub drop: bool,
    pub full: bool,
    pub view: Option<Seq<char>>,
    pub permissions: PermissionsView,
    pub changefeed: Option<ChangeFeed>,
    pub comment: ExprView,
    pub table_type: TableTypeView,
}

impl View for DefineTableStatement {
    type V = DefineTableView;

    open spec fn view(&self) -> DefineTableView {
        DefineTableView {
            kind: self.kind,
            id: self.id,
            name: self.name@,
            drop: self.drop,
            full: self.full,
            view: opt_view(self.view),
            permissions: self.permissions@,
            changefeed: self.changefeed,
            comment: self.comment@,
            table_type: self.table_type@,
        }
    }
}

/// The query of a view.
pub open spec fn view_clause(v: Option<Seq<char>>) -> Seq<char> {
    match v {
        Some(v) => " AS "@ + v,
        None => Seq::empty(),
    }
}

fn append_view(s: &mut String, v: &Option<ViewDefinition>)
    ensures
        final(s)@ == old(s)@ + view_clause(opt_view(*v)),
{
    let ghost before = s@;
    match v {
        Some(v) => {
            s.append(" AS ");
            s.append(v.select.as_str());
            proof {
                assert(s@ =~= before + (" AS "@ + v@));
            }
        },
        None => {
            proof {
                assert(before + Seq::<char>::empty() =~= before);
            }
        },
    }
}

/// The change feed of a table.
pub open spec fn changefeed_clause(c: Option<ChangeFeed>) -> Seq<char> {
    match c {
        Some(c) => " "@ + changefeed_sql(c),
        None => Seq::empty(),
    }
}

fn append_changefeed(s: &mut String, c: Option<ChangeFeed>)
    ensures
        final(s)@ == old(s)@ + changefeed_clause(c),
{
    let ghost before = s@;
    match c {
        Some(c) => {
            s.append(" ");
            s.append(c.to_sql().as_str());
            proof {
                assert(s@ =~= before + (" "@ + changefeed_sql(c)));
            }
        },
        None => {
            proof {
                assert(before + Seq::<char>::empty() =~= before);
            }
        },
    }
}

/// The text of a `DEFINE TABLE` statement.
pub open spec fn table_sql(t: DefineTableView) -> Seq<char> {
    "DEFINE TABLE "@ + define_kind_sql(t.kind) + expr::expr_sql(t.name) + " TYPE "@
        + table::table_type_sql(t.table_type) + flag(t.drop, " DROP"@) + (if t.full {
        " SCHEMAFULL"@
    } else {
        " SCHEMALESS"@
    }) + comment_clause(t.comment) + view_clause(t.view) + changefeed_clause(t.changefeed) + " "@ + permissions_sql(t.permissions)
}

impl DefineTableStatement {
    pub fn to_sql(&self) -> (s: String)
        ensures
            s@ == table_sql(self@),
    {
        let mut s = "DEFINE TABLE ".to_owned();
        append_define_kind(&mut s, self.kind);
        s.append(self.name.to_sql().as_str());
        s.append(" TYPE ");
        s.append(self.table_type.to_sql().as_str());
        append_flag(&mut s, self.drop, " DROP");
        if self.full {
            s.append(" SCHEMAFULL");
        } else {
            s.append(" SCHEMALESS");
        }
        append_comment(&mut s, &self.comment);
        append_view(&mut s, &self.view);
        append_changefeed(&mut s, self.changefeed);
        s.append(" ");
        s.append(self.permissions.to_sql().as_str());
        s
    }
}

} // verus!
