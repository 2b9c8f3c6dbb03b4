//! What the HTML parser is trusted for. Parsing, selection and attribute
//! reading in scraper are deterministic: `Html::parse_document` is the
//! html5ever parse of the text and never fails, `select` walks the tree in
//! document order with pure matching, and an element's attributes are kept
//! name-sorted. Each trusted call below therefore computes a function of
//! the input text alone, and its outcome is named: whether a table element
//! is present (`table_found`), what the first table reads as
//! (`parsed_table`), and whether a fixed query compiles (`selector_compiles`).
use vstd::prelude::*;
use vstd::string::StringExecFns;
use crate::grid::{attrs_view, rows_view, RawCell, RawTable, TableData};

verus! {

/// Whether the document written by `h` holds a table element.
pub uninterp spec fn table_found(h: Seq<char>) -> bool;

/// The first table of the document written by `h`, as plain values: its
/// attributes, and its rows of cells with their raw text and attributes.
pub uninterp spec fn parsed_table(h: Seq<char>) -> TableData;

/// Whether the structural query written by `s` compiles.
pub uninterp spec fn selector_compiles(s: Seq<char>) -> bool;

/// All three fixed queries the extraction uses compile.
pub open spec fn queries_compile() -> bool {
    &&& selector_compiles("table"@)
    &&& selector_compiles("tr"@)
    &&& selector_compiles("td, th"@)
}

/// `s` begins with `p`.
pub open spec fn starts_with(s: Seq<char>, p: Seq<char>) -> bool {
    p.len() <= s.len() && s.subrange(0, p.len() as int) == p
}

/// The shape of the error reported when one of the three fixed structural
/// queries does not compile.
pub open spec fn is_selector_failure(s: Seq<char>) -> bool {
    ||| starts_with(s, "Failed to parse table selector: "@)
    ||| starts_with(s, "Failed to parse tr selector: "@)
    ||| starts_with(s, "Failed to parse td/th selector: "@)
}

/// Relies on scraper::Selector::parse: whether a query compiles, and what
/// error it reports, depend on the query text alone.
#[verifier::external_body]
fn compile_query(s: &str) -> (r: Option<String>)
    ensures
        r matches None ==> selector_compiles(s@),
        r matches Some(m) ==> !selector_compiles(s@),
{
    match scraper::Selector::parse(s) {
        Ok(_) => None,
        Err(e) => Some(e.to_string()),
    }
}

/// Relies on scraper::Html::parse_document (a total, deterministic parse),
/// Html::select (the first match in document order) and Element::attrs (the
/// element's attributes, name-sorted): the first table's attribute list is
/// a function of the input text alone, present exactly when the document
/// holds a table element.
#[verifier::external_body]
fn table_attrs_of(html: &str) -> (r: Option<Vec<(String, String)>>)
    requires
        selector_compiles("table"@),
    ensures
        r matches Some(a) ==> table_found(html@) && attrs_view(a) == parsed_table(html@).attrs,
        r matches None ==> !table_found(html@),
{
    let tsel = scraper::Selector::parse("table").unwrap();
    let doc = scraper::Html::parse_document(html);
    let table = doc.select(&tsel).next()?;
    Some(table.value().attrs().map(|(n, v)| (n.to_string(), v.to_string())).collect())
}

/// Relies on the same scraper calls plus ElementRef::select (descendants in
/// document order) and ElementRef::text (descendant text concatenated in
/// document order): the first table's rows of cells, as plain values, are a
/// function of the input text alone.
#[verifier::external_body]
fn table_rows_of(html: &str) -> (r: Option<Vec<Vec<RawCell>>>)
    requires
        queries_compile(),
    ensures
        r matches Some(rw) ==> table_found(html@) && rows_view(rw) == parsed_table(html@).rows,
        r matches None ==> !table_found(html@),
{
    let tsel = scraper::Selector::parse("table").unwrap();
    let rsel = scraper::Selector::parse("tr").unwrap();
    let csel = scraper::Selector::parse("td, th").unwrap();
    let doc = scraper::Html::parse_document(html);
    let table = doc.select(&tsel).next()?;
    Some(table.select(&rsel).map(|tr| tr.select(&csel).map(|td| RawCell {
        text: td.text().collect(),
        attrs: td.value().attrs().map(|(n, v)| (n.to_string(), v.to_string())).collect(),
    }).collect()).collect())
}

fn failure_message(prefix: &str, msg: &str) -> (e: String)
    ensures
        e@ == prefix@ + msg@,
{
    let mut e = String::from_str(prefix);
    e.append(msg);
    e
}

/// Read the first table element of the document into plain values, in the
/// order the pipeline asks its questions: the table query is compiled, the
/// table is looked up, the row and cell queries are compiled, and the rows
/// are read. Success comes exactly when the fixed queries compile and a
/// table element is present; the table-not-found error exactly when the
/// table query compiles and no table element is there.
pub fn extract_table(html: &str) -> (r: Result<RawTable, String>)
    ensures
        r matches Ok(t) ==> table_found(html@) && queries_compile() && t@ == parsed_table(html@),
        r matches Err(e) ==> !(table_found(html@) && queries_compile()),
        r matches Err(e) ==> e@ == "No <table> element found"@ || is_selector_failure(e@),
        r matches Err(e) ==> (e@ == "No <table> element found"@ <==> (selector_compiles("table"@)
            && !table_found(html@))),
{
    if let Some(m) = compile_query("table") {
        let e = failure_message("Failed to parse table selector: ", m.as_str());
        proof {
            reveal_strlit("Failed to parse table selector: ");
            reveal_strlit("No <table> element found");
            assert(e@.subrange(0, "Failed to parse table selector: "@.len() as int)
                =~= "Failed to parse table selector: "@);
            assert(e@.len() > "No <table> element found"@.len());
        }
        return Err(e);
    }
    let attrs = match table_attrs_of(html) {
        Some(a) => a,
        None => {
            return Err(String::from_str("No <table> element found"));
        },
    };
    if let Some(m) = compile_query("tr") {
        let e = failure_message("Failed to parse tr selector: ", m.as_str());
        proof {
            reveal_strlit("Failed to parse tr selector: ");
            reveal_strlit("No <table> element found");
            assert(e@.subrange(0, "Failed to parse tr selector: "@.len() as int)
                =~= "Failed to parse tr selector: "@);
            assert(e@.len() > "No <table> element found"@.len());
        }
        return Err(e);
    }
    if let Some(m) = compile_query("td, th") {
        let e = failure_message("Failed to parse td/th selector: ", m.as_str());
        proof {
            reveal_strlit("Failed to parse td/th selector: ");
            reveal_strlit("No <table> element found");
            assert(e@.subrange(0, "Failed to parse td/th selector: "@.len() as int)
                =~= "Failed to parse td/th selector: "@);
            assert(e@.len() > "No <table> element found"@.len());
        }
        return Err(e);
    }
    let rows = match table_rows_of(html) {
        Some(rw) => rw,
        None => {
            // the table was already found, so the row read cannot miss it
            proof {
                assert(false);
            }
            return Err(String::from_str("No <table> element found"));
        },
    };
    let t = RawTable { attrs, rows };
    proof {
        assert(t@ =~= parsed_table(html@));
    }
    Ok(t)
}

} // verus!
