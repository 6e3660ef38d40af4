//! Index definitions.

use vstd::prelude::*;

use crate::catalog::expr;
use crate::catalog::expr::{escape_ident, join_parts, Idiom, TableName};
use crate::catalog::statements;
use crate::catalog::statements::comment_to_expr;
use crate::text::joined;

verus! {

/// An index of a table that does not ask for distinct values.
#[derive(Debug, PartialEq, Eq)]
pub struct IndexDefinition {
    pub name: String,
    pub table_name: TableName,
    pub cols: Vec<Idiom>,
    pub comment: Option<String>,
}

/// What an [`IndexDefinition`] says.
pub struct IndexView {
    pub name: Seq<char>,
    pub table_name: Seq<char>,
    pub cols: Seq<Seq<Seq<char>>>,
    pub comment: Option<Seq<char>>,
}

/// The paths of a vector of columns.
pub open spec fn col_views(cols: Seq<Idiom>) -> Seq<Seq<Seq<char>>> {
    Seq::new(cols.len(), |i: int| cols[i]@)
}

impl View for IndexDefinition {
    type V = IndexView;

    open spec fn view(&self) -> IndexView {
        IndexView {
            name: self.name@,
            table_name: self.table_name@,
            cols: col_views(self.cols@),
            comment: statements::opt_text(self.comment),
        }
    }
}

impl Clone for IndexDefinition {
    fn clone(&self) -> (copy: Self)
        ensures
            copy@ == self@,
    {
        let mut cols: Vec<Idiom> = Vec::new();
        let mut i: usize = 0;
        while i < self.cols.len()
            invariant
                i <= self.cols@.len(),
                cols@.len() == i,
                forall|j: int| 0 <= j < i ==> (#[trigger] cols@[j])@ == self.cols@[j]@,
            decreases self.cols@.len() - i,
        {
            cols.push(self.cols[i].clone());
            i += 1;
        }
        proof {
            assert(col_views(cols@) =~= col_views(self.cols@));
        }
        IndexDefinition {
            name: self.name.clone(),
            table_name: self.table_name.clone(),
            cols,
            comment: match &self.comment {
                Some(c) => Some(c.clone()),
                None => None,
            },
        }
    }
}

/// The text of the statement that defines an index.
pub open spec fn index_sql(i: IndexView) -> Seq<char> {
    "DEFINE INDEX "@ + expr::ident_sql(i.name) + " ON "@ + expr::ident_sql(i.table_name)
        + " FIELDS "@ + expr::joined_parts(
        Seq::new(i.cols.len(), |k: int| expr::idiom_sql(i.cols[k])),
        ", "@,
    ) + statements::comment_clause(statements::comment_expr(i.comment))
}

impl IndexDefinition {
    /// An index to be rendered.
    pub fn new_for_ddl(name: String, table_name: TableName, cols: Vec<Idiom>) -> (i: Self)
        ensures
            i@ == (IndexView {
                name: name@,
                table_name: table_name@,
                cols: col_views(cols@),
                comment: None,
            }),
    {
        IndexDefinition { name, table_name, cols, comment: None }
    }

    /// The text of the statement that defines this index.
    pub fn to_sql(&self) -> (s: String)
        ensures
            s@ == index_sql(self@),
    {
        let ghost wanted = Seq::new(self@.cols.len(), |k: int| expr::idiom_sql(self@.cols[k]));
        let mut parts: Vec<String> = Vec::new();
        let mut i: usize = 0;
        while i < self.cols.len()
            invariant
                i <= self.cols@.len(),
                wanted == Seq::new(self@.cols.len(), |k: int| expr::idiom_sql(self@.cols[k])),
                parts@.len() == i,
                forall|j: int| 0 <= j < i ==> (#[trigger] parts@[j])@ == wanted[j],
            decreases self.cols@.len() - i,
        {
            parts.push(self.cols[i].to_sql());
            i += 1;
        }
        proof {
            assert(expr::string_views(parts@) =~= wanted);
        }
        let mut s = joined("DEFINE INDEX ", escape_ident(self.name.as_str()).as_str());
        s.append(" ON ");
        s.append(escape_ident(self.table_name.as_str()).as_str());
        s.append(" FIELDS ");
        s.append(join_parts(&parts, ", ").as_str());
        statements::append_comment(&mut s, &comment_to_expr(&self.comment));
        s
    }
}

} // verus!
