//! What the store's schema is brought up to date with.

use vstd::prelude::*;

use crate::text::{contains_str, occurs};

verus! {

/// The statement that adds a column to a table.
pub fn add_column_sql(table: &str, column: &str, col_type: &str) -> (r: String)
    ensures
        r@ == "ALTER TABLE "@ + table@ + " ADD COLUMN "@ + column@ + " "@ + col_type@,
{
    let mut out: String = "ALTER TABLE ".to_owned();
    out.append(table);
    out.append(" ADD COLUMN ");
    out.append(column);
    out.append(" ");
    out.append(col_type);
    out
}

/// Whether a column is there after the attempt to add it, given the error of the
/// attempt: a column that was there before is no failure.
pub fn try_add_column(table: &str, column: &str, error: Option<&str>) -> (r: Result<(), String>)
    ensures
        match error {
            None => r is Ok,
            Some(e) => if occurs(e@, "duplicate column name"@) {
                r is Ok
            } else {
                r matches Err(m) && m@ == "add column "@ + table@ + "."@ + column@ + " failed: "@
                    + e@
            },
        },
{
    match error {
        None => Ok(()),
        Some(e) => {
            if contains_str(e, "duplicate column name") {
                return Ok(());
            }
            let mut m: String = "add column ".to_owned();
            m.append(table);
            m.append(".");
            m.append(column);
            m.append(" failed: ");
            m.append(e);
            Err(m)
        },
    }
}

} // verus!
