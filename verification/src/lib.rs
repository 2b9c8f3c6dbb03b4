//! Transpose an HTML table: the first `<table>` element of a document is
//! read into a dense rectangular grid, rows and columns are exchanged
//! (rowspan and colspan swapping with them), and the result is rendered
//! back to table markup with every non-span attribute preserved.
#![allow(unused_imports)]

pub mod builder;
pub mod extract;
pub mod grid;
pub mod laws;
pub mod render;
pub mod strutil;
pub mod transpose;

use vstd::prelude::*;

use crate::builder::build_grid_spec;
use crate::extract::{
    extract_table, is_selector_failure, parsed_table, queries_compile, selector_compiles,
    table_found,
};
use crate::grid::{RawTable, TableData};
use crate::render::table_markup;
use crate::transpose::transpose_spec;

verus! {

/// The markup the library produces for a table given as plain values:
/// the grid is built, transposed, and written out.
pub open spec fn transposed_markup(t: TableData) -> Seq<char> {
    table_markup(t.attrs, transpose_spec(build_grid_spec(t.rows)))
}

/// Build the grid from a table's rows, transpose it, and render the result.
pub fn transpose_table(table: &RawTable) -> (out: String)
    ensures
        out@ == transposed_markup(table@),
{
    let g = crate::builder::build_grid(&table.rows);
    let t = crate::transpose::transpose_grid(&g);
    crate::render::render_table(&table.attrs, &t)
}

/// Transpose the first table element found in the given markup. When the
/// input holds a table and the fixed structural queries compile, the call
/// succeeds and returns exactly the transposed markup of the table the
/// parser reads out of the input; when the queries compile and no table is
/// present, it returns exactly the table-not-found error; a selector
/// failure is reported only when a fixed query does not compile.
pub fn transpose(html: &str) -> (r: Result<String, String>)
    ensures
        r matches Ok(out) ==> table_found(html@) && queries_compile() && out@
            == transposed_markup(parsed_table(html@)),
        r matches Err(e) ==> !(table_found(html@) && queries_compile()),
        r matches Err(e) ==> e@ == "No <table> element found"@ || is_selector_failure(e@),
        r matches Err(e) ==> (e@ == "No <table> element found"@ <==> (selector_compiles("table"@)
            && !table_found(html@))),
{
    let table = match extract_table(html) {
        Ok(t) => t,
        Err(e) => {
            return Err(e);
        },
    };
    Ok(transpose_table(&table))
}

} // verus!
