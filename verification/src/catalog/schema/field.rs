//! Field definitions.

use vstd::prelude::*;

use crate::catalog::auth::AuthLimit;
use crate::catalog::expr;
use crate::catalog::expr::{copy_strings, Expr, ExprView, Idiom, Kind, KindView, TableName};
use crate::catalog::revision_error::RevisionError;
use crate::catalog::statements;
use crate::catalog::statements::{comment_to_expr, copy_expr, copy_kind, DefaultView};
use crate::catalog::statements::{DefineDefault, DefineFieldStatement, DefineFieldView, DefineKind};
use crate::catalog::statements::{Permission, PermissionView, Permissions, PermissionsView};
use crate::catalog::statements::Reference;
use crate::catalog::value;
use crate::catalog::value::{put_entry, put_optional, Value, ValueView};

verus! {

/// What a computed field depends on.
#[derive(Debug, PartialEq, Eq)]
pub struct ComputedDeps {
    /// The fields of the same table that it is known to depend on.
    pub fields: Vec<String>,
    /// Whether these are all. Where not, the expression may reach any field
    /// at run time, and every computed field must be evaluated with it.
    pub is_complete: bool,
}

/// What a [`ComputedDeps`] says.
pub struct ComputedDepsView {
    pub fields: Seq<Seq<char>>,
    pub is_complete: bool,
}

impl View for ComputedDeps {
    type V = ComputedDepsView;

    open spec fn view(&self) -> ComputedDepsView {
        ComputedDepsView {
            fields: expr::string_views(self.fields@),
            is_complete: self.is_complete,
        }
    }
}

impl Default for ComputedDeps {
    fn default() -> (deps: Self)
        ensures
            deps.fields@.len() == 0,
            !deps.is_complete,
    {
        ComputedDeps { fields: Vec::new(), is_complete: false }
    }
}

impl Clone for ComputedDeps {
    fn clone(&self) -> (copy: Self)
        ensures
            copy@ == self@,
    {
        ComputedDeps { fields: copy_strings(&self.fields), is_complete: self.is_complete }
    }
}

/// Optional dependencies by their view.
pub open spec fn opt_deps(d: Option<ComputedDeps>) -> Option<ComputedDepsView> {
    match d {
        Some(d) => Some(d@),
        None => None,
    }
}

/// A field of a table.
#[derive(Debug, PartialEq, Eq)]
pub struct FieldDefinition {
    pub name: Idiom,
    pub table: TableName,
    pub field_kind: Option<Kind>,
    pub flexible: bool,
    pub readonly: bool,
    pub value: Option<Expr>,
    /// What every value must meet.
    pub assertion: Option<Expr>,
    pub computed: Option<Expr>,
    pub default: DefineDefault,
    pub select_permission: Permission,
    pub create_permission: Permission,
    pub update_permission: Permission,
    pub comment: Option<String>,
    pub reference: Option<Reference>,
    pub auth_limit: AuthLimit,
    /// None for a field that is not computed, or whose dependencies are to be
    /// found when it is queried.
    pub computed_deps: Option<ComputedDeps>,
}

/// What a [`FieldDefinition`] says.
pub struct FieldView {
    pub name: Seq<Seq<char>>,
    pub table: Seq<char>,
    pub field_kind: Option<KindView>,
    pub flexible: bool,
    pub readonly: bool,
    pub value: Option<ExprView>,
    pub assertion: Option<ExprView>,
    pub computed: Option<ExprView>,
    pub default: DefaultView,
    pub select_permission: PermissionView,
    pub create_permission: PermissionView,
    pub update_permission: PermissionView,
    pub comment: Option<Seq<char>>,
    pub reference: Option<Reference>,
    pub auth_limit: Option<Seq<char>>,
    pub computed_deps: Option<ComputedDepsView>,
}

impl View for FieldDefinition {
    type V = FieldView;

    open spec fn view(&self) -> FieldView {
        FieldView {
            name: self.name@,
            table: self.table@,
            field_kind: statements::opt_kind(self.field_kind),
            flexible: self.flexible,
            readonly: self.readonly,
            value: statements::opt_expr(self.value),
            assertion: statements::opt_expr(self.assertion),
            computed: statements::opt_expr(self.computed),
            default: self.default@,
            select_permission: self.select_permission@,
            create_permission: self.create_permission@,
            update_permission: self.update_permission@,
            comment: statements::opt_text(self.comment),
            reference: self.reference,
            auth_limit: self.auth_limit@,
            computed_deps: opt_deps(self.computed_deps),
        }
    }
}

/// A field with nothing set: everyone is allowed everything.
pub open spec fn fresh_field(name: Seq<Seq<char>>, table: Seq<char>) -> FieldView {
    FieldView {
        name,
        table,
        field_kind: None,
        flexible: false,
        readonly: false,
        value: None,
        assertion: None,
        computed: None,
        default: DefaultView::Unset,
        select_permission: PermissionView::Full,
        create_permission: PermissionView::Full,
        update_permission: PermissionView::Full,
        comment: None,
        reference: None,
        auth_limit: None,
        computed_deps: None,
    }
}

/// The statement that defines a field.
pub open spec fn field_statement(f: FieldView) -> DefineFieldView {
    DefineFieldView {
        kind: DefineKind::Default,
        name: ExprView::Idiom(f.name),
        what: ExprView::Table(f.table),
        field_kind: f.field_kind,
        flexible: f.flexible,
        readonly: f.readonly,
        value: f.value,
        assertion: f.assertion,
        computed: f.computed,
        default: f.default,
        permissions: PermissionsView {
            select: f.select_permission,
            create: f.create_permission,
            update: f.update_permission,
            delete: PermissionView::Full,
        },
        comment: statements::comment_expr(f.comment),
        reference: f.reference,
    }
}

/// The description of an optional expression: its text.
pub open spec fn expr_structure(e: Option<ExprView>) -> Option<ValueView> {
    match e {
        Some(e) => Some(ValueView::String(expr::expr_sql(e))),
        None => None,
    }
}

/// The expression of a default.
pub open spec fn default_expr(d: DefaultView) -> Option<ExprView> {
    match d {
        DefaultView::Unset => None,
        DefaultView::Always(e) => Some(e),
        DefaultView::Initial(e) => Some(e),
    }
}

/// The description of a field.
pub open spec fn field_structure(f: FieldView) -> ValueView {
    ValueView::Object(
        value::no_entries() + value::entry("assert"@, expr_structure(f.assertion)) + value::entry(
            "comment"@,
            match f.comment {
                Some(c) => Some(ValueView::String(c)),
                None => None,
            },
        ) + value::entry("computed"@, expr_structure(f.computed)) + value::entry(
            "default"@,
            expr_structure(default_expr(f.default)),
        ) + value::entry(
            "default_always"@,
            match f.default {
                DefaultView::Unset => None,
                d => Some(ValueView::Bool(d is Always)),
            },
        ) + value::entry(
            "flexible"@,
            if f.flexible {
                Some(ValueView::Bool(true))
            } else {
                None
            },
        ) + value::entry(
            "kind"@,
            match f.field_kind {
                Some(k) => Some(ValueView::String(expr::kind_sql(k))),
                None => None,
            },
        ) + value::entry("name"@, Some(ValueView::String(expr::idiom_sql(f.name)))) + value::entry(
            "permissions"@,
            Some(
                ValueView::Object(
                    value::no_entries() + value::entry(
                        "create"@,
                        Some(statements::permission_structure(f.create_permission)),
                    ) + value::entry(
                        "select"@,
                        Some(statements::permission_structure(f.select_permission)),
                    ) + value::entry(
                        "update"@,
                        Some(statements::permission_structure(f.update_permission)),
                    ),
                ),
            ),
        ) + value::entry("readonly"@, Some(ValueView::Bool(f.readonly))) + value::entry(
            "reference"@,
            match f.reference {
                Some(r) => Some(ValueView::String(statements::reference_sql(r))),
                None => None,
            },
        ) + value::entry("table"@, Some(ValueView::String(f.table))) + value::entry(
            "value"@,
            expr_structure(f.value),
        ),
    )
}

fn describe_expr(e: &Option<Expr>) -> (v: Option<Value>)
    ensures
        (match v {
            Some(v) => Some(v@),
            None => None,
        }) == expr_structure(statements::opt_expr(*e)),
{
    match e {
        Some(e) => Some(Value::String(e.to_sql())),
        None => None,
    }
}

impl Default for FieldDefinition {
    fn default() -> (f: Self)
        ensures
            f@ == fresh_field(Seq::empty(), Seq::empty()),
    {
        let table = TableName(String::new());
        proof {
            assert(table@ =~= Seq::empty());
        }
        FieldDefinition {
            name: Idiom::default(),
            table,
            field_kind: None,
            flexible: false,
            readonly: false,
            value: None,
            assertion: None,
            computed: None,
            default: DefineDefault::default(),
            select_permission: Permission::default(),
            create_permission: Permission::default(),
            update_permission: Permission::default(),
            comment: None,
            reference: None,
            auth_limit: AuthLimit::default(),
            computed_deps: None,
        }
    }
}

impl Clone for FieldDefinition {
    fn clone(&self) -> (copy: Self)
        ensures
            copy@ == self@,
    {
        FieldDefinition {
            name: self.name.clone(),
            table: self.table.clone(),
            field_kind: copy_kind(&self.field_kind),
            flexible: self.flexible,
            readonly: self.readonly,
            value: copy_expr(&self.value),
            assertion: copy_expr(&self.assertion),
            computed: copy_expr(&self.computed),
            default: self.default.clone(),
            select_permission: self.select_permission.clone(),
            create_permission: self.create_permission.clone(),
            update_permission: self.update_permission.clone(),
            comment: match &self.comment {
                Some(c) => Some(c.clone()),
                None => None,
            },
            reference: self.reference,
            auth_limit: self.auth_limit.clone(),
            computed_deps: match &self.computed_deps {
                Some(d) => Some(d.clone()),
                None => None,
            },
        }
    }
}

impl FieldDefinition {
    /// The limit of a field stored before limits were: none.
    pub fn default_auth_limit(_revision: u16) -> (r: Result<AuthLimit, RevisionError>)
        ensures
            r matches Ok(limit) && limit@ is None,
    {
        Ok(AuthLimit::new_no_limit())
    }

    /// The dependencies of a field stored before they were: unknown.
    pub fn default_computed_deps(_revision: u16) -> (r: Result<
        Option<ComputedDeps>,
        RevisionError,
    >)
        ensures
            r matches Ok(deps) && deps is None,
    {
        Ok(None)
    }

    /// The statement that defines this field.
    pub fn to_sql_definition(&self) -> (s: DefineFieldStatement)
        ensures
            s@ == field_statement(self@),
    {
        DefineFieldStatement {
            kind: DefineKind::Default,
            name: Expr::Idiom(self.name.clone()),
            what: Expr::Table(self.table.clone().into_string()),
            field_kind: copy_kind(&self.field_kind),
            flexible: self.flexible,
            readonly: self.readonly,
            value: copy_expr(&self.value),
            assertion: copy_expr(&self.assertion),
            computed: copy_expr(&self.computed),
            default: self.default.clone(),
            permissions: Permissions {
                select: self.select_permission.clone(),
                create: self.create_permission.clone(),
                update: self.update_permission.clone(),
                delete: Permission::Full,
            },
            comment: comment_to_expr(&self.comment),
            reference: self.reference,
        }
    }

    /// The text of the statement that defines this field.
    pub fn to_sql(&self) -> (s: String)
        ensures
            s@ == statements::field_sql(field_statement(self@)),
    {
        self.to_sql_definition().to_sql()
    }

    /// The description of this field.
    pub fn structure(self) -> (v: Value)
        ensures
            v@ == field_structure(self@),
    {
        let mut allowed: Vec<(String, Value)> = Vec::new();
        let mut entries: Vec<(String, Value)> = Vec::new();
        proof {
            assert(value::entry_views(allowed@) =~= value::no_entries());
            assert(value::entry_views(entries@) =~= value::no_entries());
        }
        put_entry(&mut allowed, "create", self.create_permission.structure());
        put_entry(&mut allowed, "select", self.select_permission.structure());
        put_entry(&mut allowed, "update", self.update_permission.structure());
        put_optional(&mut entries, "assert", describe_expr(&self.assertion));
        put_optional(
            &mut entries,
            "comment",
            match self.comment {
                Some(c) => Some(Value::String(c)),
                None => None,
            },
        );
        put_optional(&mut entries, "computed", describe_expr(&self.computed));
        let (always, default) = match self.default {
            DefineDefault::Unset => (None, None),
            DefineDefault::Always(e) => (Some(Value::Bool(true)), Some(Value::String(e.to_sql()))),
            DefineDefault::Initial(e) => (
                Some(Value::Bool(false)),
                Some(Value::String(e.to_sql())),
            ),
        };
        put_optional(&mut entries, "default", default);
        put_optional(&mut entries, "default_always", always);
        put_optional(
            &mut entries,
            "flexible",
            if self.flexible {
                Some(Value::Bool(true))
            } else {
                None
            },
        );
        put_optional(
            &mut entries,
            "kind",
            match &self.field_kind {
                Some(k) => Some(Value::String(k.to_sql())),
                None => None,
            },
        );
        put_entry(&mut entries, "name", Value::String(self.name.to_sql()));
        put_entry(&mut entries, "permissions", Value::object(allowed));
        put_entry(&mut entries, "readonly", Value::Bool(self.readonly));
        put_optional(
            &mut entries,
            "reference",
            match self.reference {
                Some(r) => Some(Value::String(r.to_sql().to_owned())),
                None => None,
            },
        );
        put_entry(&mut entries, "table", Value::String(self.table.into_string()));
        put_optional(&mut entries, "value", describe_expr(&self.value));
        Value::object(entries)
    }

    /// A field to be rendered: nothing set, everyone allowed everything.
    pub fn new_for_ddl(name: Idiom, table: TableName) -> (f: Self)
        ensures
            f.name == name,
            f.table == table,
            f@ == fresh_field(name@, table@),
    {
        FieldDefinition { name, table, ..Default::default() }
    }

    /// Sets `field_kind`.
    #[must_use]
    pub fn with_kind(self, v: Option<Kind>) -> (f: Self)
        ensures
            f == (FieldDefinition { field_kind: v, ..self }),
    {
        let mut f = self;
        f.field_kind = v;
        f
    }

    /// Sets `flexible`.
    #[must_use]
    pub fn with_flexible(self, v: bool) -> (f: Self)
        ensures
            f == (FieldDefinition { flexible: v, ..self }),
    {
        let mut f = self;
        f.flexible = v;
        f
    }

    /// Sets `readonly`.
    #[must_use]
    pub fn with_readonly(self, v: bool) -> (f: Self)
        ensures
            f == (FieldDefinition { readonly: v, ..self }),
    {
        let mut f = self;
        f.readonly = v;
        f
    }

    /// Sets `value`.
    #[must_use]
    pub fn with_value(self, v: Option<Expr>) -> (f: Self)
        ensures
            f == (FieldDefinition { value: v, ..self }),
    {
        let mut f = self;
        f.value = v;
        f
    }

    /// Sets `assertion`.
    #[must_use]
    pub fn with_assert(self, v: Option<Expr>) -> (f: Self)
        ensures
            f == (FieldDefinition { assertion: v, ..self }),
    {
        let mut f = self;
        f.assertion = v;
        f
    }

    /// Sets `computed`.
    #[must_use]
    pub fn with_computed(self, v: Option<Expr>) -> (f: Self)
        ensures
            f == (FieldDefinition { computed: v, ..self }),
    {
        let mut f = self;
        f.computed = v;
        f
    }

    /// Sets `comment`.
    #[must_use]
    pub fn with_comment(self, v: Option<String>) -> (f: Self)
        ensures
            f == (FieldDefinition { comment: v, ..self }),
    {
        let mut f = self;
        f.comment = v;
        f
    }

    /// Sets `reference`.
    #[must_use]
    pub fn with_reference(self, v: Option<Reference>) -> (f: Self)
        ensures
            f == (FieldDefinition { reference: v, ..self }),
    {
        let mut f = self;
        f.reference = v;
        f
    }
}

/// The text of a field does not depend on its limit nor on its dependencies.
pub proof fn field_text_leaves_limits_out(
    f: FieldView,
    auth_limit: Option<Seq<char>>,
    computed_deps: Option<ComputedDepsView>,
)
    ensures
        statements::field_sql(field_statement(FieldView { auth_limit, computed_deps, ..f }))
            == statements::field_sql(field_statement(f)),
{
}

} // verus!
