//! Table, field and index definitions.

pub mod ast;
pub mod auth;
pub mod descriptions;
pub mod expr;
pub mod generated;
pub mod op_bridge;
pub mod rendering;
pub mod revision_error;
pub mod schema;
pub mod statements;
pub mod stored;
pub mod table;
pub mod value;
