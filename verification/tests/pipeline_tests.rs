//! Exact outputs of the pipeline, the documented span and escape rules, and
//! concrete instances of the laws the library proves.
use html_transpose::grid::{RawCell, RawTable};
use html_transpose::render::{escape_attr_value, escape_html};
use html_transpose::transpose;
use html_transpose::transpose_table;

fn cell(text: &str, attrs: &[(&str, &str)]) -> RawCell {
    RawCell {
        text: text.to_string(),
        attrs: attrs.iter().map(|(n, v)| (n.to_string(), v.to_string())).collect(),
    }
}

// Dimension swap on a plain 2x2 grid, exact markup.
#[test]
fn exact_plain_2x2() {
    let input = "<table><tr><td>A</td><td>B</td></tr><tr><td>C</td><td>D</td></tr></table>";
    let result = transpose(input).unwrap();
    assert_eq!(result, "<table><tr><td>A</td><td>C</td></tr><tr><td>B</td><td>D</td></tr></table>");
}

// A colspan becomes a rowspan at the transposed anchor.
#[test]
fn exact_colspan_becomes_rowspan() {
    let input = "<table><tr><td colspan=\"2\">Header</td></tr><tr><td>A</td><td>B</td></tr></table>";
    let result = transpose(input).unwrap();
    assert_eq!(
        result,
        "<table><tr><td rowspan=\"2\">Header</td><td>A</td></tr><tr><td>B</td></tr></table>"
    );
}

// A rowspan becomes a colspan at the transposed anchor.
#[test]
fn exact_rowspan_becomes_colspan() {
    let input = "<table><tr><td rowspan=\"2\">A</td><td>B</td></tr><tr><td>C</td></tr></table>";
    let result = transpose(input).unwrap();
    assert_eq!(
        result,
        "<table><tr><td colspan=\"2\">A</td></tr><tr><td>B</td><td>C</td></tr></table>"
    );
}

// The table element's own attributes pass through unchanged.
#[test]
fn exact_table_attribute_passthrough() {
    let input = "<table id=\"t\"><tr><td>A</td></tr></table>";
    let result = transpose(input).unwrap();
    assert_eq!(result, "<table id=\"t\"><tr><td>A</td></tr></table>");
}

// A cell attribute travels to the transposed anchor unchanged.
#[test]
fn exact_cell_attribute_travels() {
    let input = "<table><tr><td>A</td><td class=\"x\">B</td></tr></table>";
    let result = transpose(input).unwrap();
    assert_eq!(
        result,
        "<table><tr><td>A</td></tr><tr><td class=\"x\">B</td></tr></table>"
    );
}

// Transposing twice reproduces the plain grid.
#[test]
fn round_trip_plain_grid() {
    let input = "<table><tr><td>A</td><td>B</td></tr><tr><td>C</td><td>D</td></tr></table>";
    let once = transpose(input).unwrap();
    let twice = transpose(&once).unwrap();
    assert_eq!(twice, input);
}

// Transposing twice restores spans and attributes of a merged cell.
#[test]
fn round_trip_merged_cell() {
    let input =
        "<table><tr><td colspan=\"2\" class=\"m\">Header</td></tr><tr><td>A</td><td>B</td></tr></table>";
    let once = transpose(input).unwrap();
    let twice = transpose(&once).unwrap();
    assert_eq!(twice, input);
}

// The multiset of non-empty cell texts is kept: nothing dropped, nothing
// duplicated, even with spans in play.
#[test]
fn content_multiset_kept() {
    let input = "<table><tr><td rowspan=\"2\">A</td><td>B</td></tr><tr><td>A</td></tr></table>";
    let result = transpose(input).unwrap();
    assert_eq!(result.matches("A").count(), 2);
    assert_eq!(result.matches("B").count(), 1);
}

// An R-row, C-column input gives C rows of markup, the first holding R cells.
#[test]
fn dimension_swap_counts() {
    let input = "<table><tr><td>1</td><td>2</td><td>3</td></tr><tr><td>4</td><td>5</td><td>6</td></tr></table>";
    let result = transpose(input).unwrap();
    assert_eq!(result.matches("<tr>").count(), 3);
    let first_row = &result[result.find("<tr>").unwrap()..result.find("</tr>").unwrap()];
    assert_eq!(first_row.matches("<td").count(), 2);
}

// A span value of zero is not a positive integer: it defaults to one.
#[test]
fn span_zero_defaults_to_one() {
    let input = "<table><tr><td rowspan=\"0\">A</td><td>B</td></tr></table>";
    let result = transpose(input).unwrap();
    assert_eq!(result, "<table><tr><td>A</td></tr><tr><td>B</td></tr></table>");
}

// An unreadable span value defaults to one.
#[test]
fn span_garbage_defaults_to_one() {
    let input = "<table><tr><td rowspan=\"abc\">A</td><td>B</td></tr></table>";
    let result = transpose(input).unwrap();
    assert_eq!(result, "<table><tr><td>A</td></tr><tr><td>B</td></tr></table>");
}

// A leading plus sign is accepted, as the integer parser accepts it.
#[test]
fn span_with_plus_sign_is_read() {
    let input = "<table><tr><td rowspan=\"+2\">A</td><td>B</td></tr><tr><td>C</td></tr></table>";
    let result = transpose(input).unwrap();
    assert_eq!(
        result,
        "<table><tr><td colspan=\"2\">A</td></tr><tr><td>B</td><td>C</td></tr></table>"
    );
}

// Cell text is trimmed and text-escaped; five characters are replaced.
#[test]
fn text_is_trimmed_and_escaped() {
    let input = "<table><tr><td>  a &amp; b  </td></tr></table>";
    let result = transpose(input).unwrap();
    assert_eq!(result, "<table><tr><td>a &amp; b</td></tr></table>");
}

// Attribute values are escaped with the attribute rules.
#[test]
fn attribute_value_is_escaped() {
    let input = "<table><tr><td title=\"a&amp;b\">X</td></tr></table>";
    let result = transpose(input).unwrap();
    assert_eq!(result, "<table><tr><td title=\"a&amp;b\">X</td></tr></table>");
}

#[test]
fn escape_html_replaces_five_characters() {
    assert_eq!(escape_html("a&b<c>d\"e'f"), "a&amp;b&lt;c&gt;d&quot;e&apos;f");
    assert_eq!(escape_html("plain"), "plain");
    assert_eq!(escape_html(""), "");
}

#[test]
fn escape_attr_value_replaces_three_characters() {
    assert_eq!(escape_attr_value("a&b\"c<d"), "a&amp;b&quot;c&lt;d");
    assert_eq!(escape_attr_value("x>y'z"), "x>y'z");
}

// The verified core, fed plain values directly: trimming, span reading,
// attribute filtering and rendering, with no parser in the way.
#[test]
fn core_pipeline_on_plain_values() {
    let table = RawTable {
        attrs: vec![("id".to_string(), "t".to_string())],
        rows: vec![
            vec![cell("  A  ", &[("rowspan", "2"), ("class", "y")]), cell("B", &[])],
            vec![cell("C", &[])],
        ],
    };
    let out = transpose_table(&table);
    assert_eq!(
        out,
        "<table id=\"t\"><tr><td colspan=\"2\" class=\"y\">A</td></tr><tr><td>B</td><td>C</td></tr></table>"
    );
}

// An empty placeholder cell stays an empty cell through the transposition.
#[test]
fn empty_cell_is_kept() {
    let input = "<table><tr><td>A</td><td></td></tr></table>";
    let result = transpose(input).unwrap();
    assert_eq!(result, "<table><tr><td>A</td></tr><tr><td></td></tr></table>");
}

// Non-ASCII content is preserved unchanged.
#[test]
fn non_ascii_content_kept() {
    let input = "<table><tr><td class=\"header\">이름</td></tr></table>";
    let result = transpose(input).unwrap();
    assert_eq!(result, "<table><tr><td class=\"header\">이름</td></tr></table>");
}

// A later row shorter than the first: reads past its end are rendered as
// empty cells rather than aborting.
#[test]
fn ragged_rows_pad_with_empty_cells() {
    let input = "<table><tr><td colspan=\"3\">W</td></tr><tr><td>X</td></tr></table>";
    let result = transpose(input).unwrap();
    assert_eq!(
        result,
        "<table><tr><td rowspan=\"3\">W</td><td>X</td></tr><tr><td></td></tr><tr><td></td></tr></table>"
    );
}

// The cursor skips a column claimed by an earlier row's vertical span.
#[test]
fn cursor_skips_claimed_columns() {
    let input = "<table><tr><td rowspan=\"2\">A</td><td>B</td></tr><tr><td>C</td><td>D</td></tr></table>";
    let result = transpose(input).unwrap();
    assert_eq!(
        result,
        "<table><tr><td colspan=\"2\">A</td></tr><tr><td>B</td><td>C</td></tr><tr><td></td><td>D</td></tr></table>"
    );
}
