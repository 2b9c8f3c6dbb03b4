use html_transpose::transpose;

#[test]
fn test_simple_2x2_table() {
    let input = r#"<table>
            <tr><td>A</td><td>B</td></tr>
            <tr><td>C</td><td>D</td></tr>
        </table>"#;
    let result = transpose(input).unwrap();
    assert!(result.contains("A") && result.contains("C") && result.contains("B") && result.contains("D"));
}

#[test]
fn test_simple_3x2_table() {
    let input = r#"<table>
            <tr><td>1</td><td>2</td></tr>
            <tr><td>3</td><td>4</td></tr>
            <tr><td>5</td><td>6</td></tr>
        </table>"#;
    let result = transpose(input).unwrap();
    assert!(result.contains("1") && result.contains("3") && result.contains("5"));
    assert!(result.contains("2") && result.contains("4") && result.contains("6"));
}

#[test]
fn test_table_with_colspan() {
    let input = r#"<table>
            <tr><td colspan="2">Header</td></tr>
            <tr><td>A</td><td>B</td></tr>
        </table>"#;
    let result = transpose(input).unwrap();
    assert!(result.contains("Header"));
    assert!(result.contains("A") && result.contains("B"));
}

#[test]
fn test_table_with_rowspan() {
    let input = r#"<table>
            <tr><td rowspan="2">A</td><td>B</td></tr>
            <tr><td>C</td></tr>
        </table>"#;
    let result = transpose(input).unwrap();
    assert!(result.contains("A"));
    assert!(result.contains("B") && result.contains("C"));
}

#[test]
fn test_table_with_rowspan_and_colspan() {
    let input = r#"<table>
            <tr><td rowspan="2" colspan="2">Merged</td><td>C</td></tr>
            <tr><td>F</td></tr>
            <tr><td>G</td><td>H</td><td>I</td></tr>
        </table>"#;
    let result = transpose(input).unwrap();
    assert!(result.contains("Merged"));
    assert!(result.contains("C") && result.contains("F") && result.contains("G") && result.contains("H") && result.contains("I"));
}

#[test]
fn test_complex_merged_cells() {
    let input = r#"<table>
            <tr><td rowspan="2">A</td><td colspan="2">BC</td></tr>
            <tr><td>D</td><td>E</td></tr>
            <tr><td>F</td><td rowspan="2" colspan="2">GH</td></tr>
            <tr><td>I</td></tr>
        </table>"#;
    let result = transpose(input).unwrap();
    assert!(result.contains("A") && result.contains("BC") && result.contains("D") && result.contains("E"));
    assert!(result.contains("F") && result.contains("GH") && result.contains("I"));
}

#[test]
fn test_very_complex_merged_cells() {
    let input = r#"<table>
            <tr><td rowspan="3" colspan="2">Big</td><td>C</td><td>D</td></tr>
            <tr><td>E</td><td>F</td></tr>
            <tr><td>G</td><td>H</td></tr>
            <tr><td>I</td><td rowspan="2">J</td><td>K</td><td>L</td></tr>
            <tr><td>M</td><td>N</td><td>O</td></tr>
        </table>"#;
    let result = transpose(input).unwrap();
    assert!(result.contains("Big"));
    assert!(result.contains("C") && result.contains("D") && result.contains("E") && result.contains("F"));
    assert!(result.contains("G") && result.contains("H") && result.contains("I") && result.contains("J"));
    assert!(result.contains("K") && result.contains("L") && result.contains("M") && result.contains("N") && result.contains("O"));
}

#[test]
fn test_invalid_root_tag() {
    let result = transpose("<div>Hello</div>");
    assert!(result.is_err());
    assert!(result.unwrap_err().contains("No <table> element found"));
}

#[test]
fn test_empty_table() {
    let input = "<table></table>";
    let result = transpose(input).unwrap();
    assert_eq!(result, "<table></table>");
}

#[test]
fn test_single_cell() {
    let input = "<table><tr><td>Only</td></tr></table>";
    let result = transpose(input).unwrap();
    assert!(result.contains("Only"));
}

#[test]
fn test_cell_with_attributes() {
    let input = r#"<table>
            <tr><td class="header" style="color: red;">이름</td><td class="data">홍길동</td></tr>
            <tr><td class="header" style="color: blue;">나이</td><td class="data">30</td></tr>
        </table>"#;
    let result = transpose(input).unwrap();
    assert!(result.contains("class="));
    assert!(result.contains("style="));
    assert!(result.contains("header"));
    assert!(result.contains("data"));
    assert!(result.contains("이름") && result.contains("홍길동"));
    assert!(result.contains("나이") && result.contains("30"));
}

#[test]
fn test_merged_cell_with_attributes() {
    let input = r#"<table>
            <tr><td rowspan="2" class="merged" style="background: yellow;" data-id="1">A</td><td class="normal">B</td></tr>
            <tr><td class="normal">C</td></tr>
        </table>"#;
    let result = transpose(input).unwrap();
    assert!(result.contains("class="));
    assert!(result.contains("style="));
    assert!(result.contains("data-id="));
    assert!(result.contains("merged"));
    assert!(result.contains("A") && result.contains("B") && result.contains("C"));
}

#[test]
fn test_table_with_empty_cell() {
    let input = r#"<table>
            <tr><td>A</td><td>B</td></tr>
            <tr><td>C</td><td></td></tr>
        </table>"#;
    let result = transpose(input).unwrap();
    assert!(result.contains("A") && result.contains("B") && result.contains("C"));
    assert!(result.contains("<td></td>") || result.matches("<td").count() == 4);
}

#[test]
fn test_table_with_attributes() {
    let input = r#"<table border="1" cellpadding="5" cellspacing="0" class="my-table" id="test-table">
            <tr><td>A</td><td>B</td></tr>
            <tr><td>C</td><td>D</td></tr>
        </table>"#;
    let result = transpose(input).unwrap();
    assert!(result.contains("border="));
    assert!(result.contains("cellpadding="));
    assert!(result.contains("cellspacing="));
    assert!(result.contains("class="));
    assert!(result.contains("id="));
    assert!(result.contains("my-table"));
    assert!(result.contains("test-table"));
    assert!(result.contains("A") && result.contains("B") && result.contains("C") && result.contains("D"));
}
