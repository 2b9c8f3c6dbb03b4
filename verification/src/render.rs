//! The renderer: the transposed grid and the table attributes written out
//! as table markup, spans emitted only where they exceed one, covered
//! positions emitting nothing, missing slots emitting an empty cell.
use vstd::prelude::*;
use vstd::string::StrSliceExecFns;
use vstd::string::StringExecFns;
use crate::grid::{grid_view, row_view, AttrsModel, GridModel, Slot, SlotData, attrs_view};
use crate::strutil::{dec_str, usize_to_string};

verus! {

/// What one character of cell text becomes in the output.
pub open spec fn escape_text_char(c: char) -> Seq<char> {
    if c == '&' {
        "&amp;"@
    } else if c == '<' {
        "&lt;"@
    } else if c == '>' {
        "&gt;"@
    } else if c == '"' {
        "&quot;"@
    } else if c == '\'' {
        "&apos;"@
    } else {
        seq![c]
    }
}

/// Cell text escaping: `&`, `<`, `>`, `"` and `'` are replaced.
pub open spec fn escape_text(s: Seq<char>) -> Seq<char>
    decreases s.len(),
{
    if s.len() == 0 {
        Seq::empty()
    } else {
        escape_text(s.drop_last()) + escape_text_char(s.last())
    }
}

/// What one character of an attribute value becomes in the output.
pub open spec fn escape_attr_char(c: char) -> Seq<char> {
    if c == '&' {
        "&amp;"@
    } else if c == '"' {
        "&quot;"@
    } else if c == '<' {
        "&lt;"@
    } else {
        seq![c]
    }
}

/// Attribute value escaping: `&`, `"` and `<` are replaced.
pub open spec fn escape_attr(s: Seq<char>) -> Seq<char>
    decreases s.len(),
{
    if s.len() == 0 {
        Seq::empty()
    } else {
        escape_attr(s.drop_last()) + escape_attr_char(s.last())
    }
}

/// Escape cell text for markup output.
pub fn escape_html(text: &str) -> (r: String)
    ensures
        r@ == escape_text(text@),
{
    let n = text.unicode_len();
    let mut out = String::new();
    let mut i: usize = 0;
    loop
        invariant
            0 <= i <= n,
            n == text@.len(),
            out@ == escape_text(text@.take(i as int)),
        ensures
            out@ == escape_text(text@),
        decreases n - i,
    {
        if i >= n {
            proof {
                assert(text@.take(n as int) =~= text@);
            }
            break;
        }
        proof {
            assert(text@.take(i + 1).drop_last() =~= text@.take(i as int));
            assert(text@.take(i + 1).last() == text@[i as int]);
        }
        let c = text.get_char(i);
        if c == '&' {
            out.append("&amp;");
        } else if c == '<' {
            out.append("&lt;");
        } else if c == '>' {
            out.append("&gt;");
        } else if c == '"' {
            out.append("&quot;");
        } else if c == '\'' {
            out.append("&apos;");
        } else {
            let piece = text.substring_char(i, i + 1);
            proof {
                assert(piece@ =~= seq![text@[i as int]]);
            }
            out.append(piece);
        }
        i = i + 1;
    }
    out
}

/// Escape an attribute value for markup output.
pub fn escape_attr_value(text: &str) -> (r: String)
    ensures
        r@ == escape_attr(text@),
{
    let n = text.unicode_len();
    let mut out = String::new();
    let mut i: usize = 0;
    loop
        invariant
            0 <= i <= n,
            n == text@.len(),
            out@ == escape_attr(text@.take(i as int)),
        ensures
            out@ == escape_attr(text@),
        decreases n - i,
    {
        if i >= n {
            proof {
                assert(text@.take(n as int) =~= text@);
            }
            break;
        }
        proof {
            assert(text@.take(i + 1).drop_last() =~= text@.take(i as int));
            assert(text@.take(i + 1).last() == text@[i as int]);
        }
        let c = text.get_char(i);
        if c == '&' {
            out.append("&amp;");
        } else if c == '"' {
            out.append("&quot;");
        } else if c == '<' {
            out.append("&lt;");
        } else {
            let piece = text.substring_char(i, i + 1);
            proof {
                assert(piece@ =~= seq![text@[i as int]]);
            }
            out.append(piece);
        }
        i = i + 1;
    }
    out
}

/// One attribute written out: a space, the name, and the escaped value in
/// double quotes.
pub open spec fn attr_markup(name: Seq<char>, value: Seq<char>) -> Seq<char> {
    " "@ + name + "=\""@ + escape_attr(value) + "\""@
}

/// An attribute list written out in order.
pub open spec fn attrs_markup(attrs: AttrsModel) -> Seq<char>
    decreases attrs.len(),
{
    if attrs.len() == 0 {
        Seq::empty()
    } else {
        attrs_markup(attrs.drop_last()) + attr_markup(attrs.last().0, attrs.last().1)
    }
}

fn render_attrs_into(out: &mut String, attrs: &Vec<(String, String)>)
    ensures
        final(out)@ == old(out)@ + attrs_markup(attrs_view(*attrs)),
{
    let ghost av = attrs_view(*attrs);
    proof {
        assert(av.take(0) =~= Seq::<(Seq<char>, Seq<char>)>::empty());
        assert(out@ =~= old(out)@ + attrs_markup(av.take(0)));
    }
    let mut i: usize = 0;
    loop
        invariant
            0 <= i <= attrs.len(),
            av == attrs_view(*attrs),
            av.len() == attrs.len(),
            out@ == old(out)@ + attrs_markup(av.take(i as int)),
        ensures
            out@ == old(out)@ + attrs_markup(av),
        decreases attrs.len() - i,
    {
        if i >= attrs.len() {
            proof {
                assert(av.take(i as int) =~= av);
            }
            break;
        }
        proof {
            assert(av.take(i + 1).drop_last() =~= av.take(i as int));
            assert(av.take(i + 1).last() == av[i as int]);
        }
        let ghost mid = out@;
        out.append(" ");
        out.append(attrs[i].0.as_str());
        out.append("=\"");
        let escaped = escape_attr_value(attrs[i].1.as_str());
        out.append(escaped.as_str());
        out.append("\"");
        proof {
            assert(out@ =~= mid + attr_markup(av[i as int].0, av[i as int].1));
            assert(out@ =~= old(out)@ + attrs_markup(av.take(i + 1)));
        }
        i = i + 1;
    }
}

/// The span attributes an anchor carries: each is written only when it
/// exceeds one.
pub open spec fn span_markup(rs: int, cs: int) -> Seq<char> {
    (if rs > 1 {
        " rowspan=\""@ + dec_str(rs as nat) + "\""@
    } else {
        Seq::empty()
    }) + (if cs > 1 {
        " colspan=\""@ + dec_str(cs as nat) + "\""@
    } else {
        Seq::empty()
    })
}

/// An anchor cell written out: spans, the kept attributes, and the escaped
/// text.
pub open spec fn cell_markup(rs: int, cs: int, text: Seq<char>, attrs: AttrsModel) -> Seq<char> {
    "<td"@ + span_markup(rs, cs) + attrs_markup(attrs) + ">"@ + escape_text(text) + "</td>"@
}

/// Where the cursor stands after a slot: an anchor advances it by its
/// colspan (never by less than one), anything else by one; it never passes
/// the row's end.
pub open spec fn advance(c: int, cs: int, len: int) -> int {
    let step = if cs >= 1 {
        cs
    } else {
        1
    };
    if c + step > len {
        len
    } else {
        c + step
    }
}

/// A row's cells from cursor position `c` on: anchors write one cell and
/// jump their colspan, covered positions write nothing, missing slots write
/// an empty cell.
pub open spec fn cells_markup(row: Seq<SlotData>, c: int) -> Seq<char>
    decreases row.len() - c,
{
    if c < 0 || c >= row.len() {
        Seq::empty()
    } else {
        match row[c] {
            SlotData::Cell { rowspan, colspan, text, attrs } => cell_markup(
                rowspan,
                colspan,
                text,
                attrs,
            ) + cells_markup(row, advance(c, colspan, row.len() as int)),
            SlotData::Covered => cells_markup(row, c + 1),
            SlotData::Absent => "<td></td>"@ + cells_markup(row, c + 1),
        }
    }
}

/// The grid's rows from row `r` on, each between row markers.
pub open spec fn rows_markup(g: GridModel, r: int) -> Seq<char>
    decreases g.len() - r,
{
    if r < 0 || r >= g.len() {
        Seq::empty()
    } else {
        "<tr>"@ + cells_markup(g[r], 0) + "</tr>"@ + rows_markup(g, r + 1)
    }
}

/// The whole output: the table element with its attributes, the rows, and
/// the closing tag.
pub open spec fn table_markup(tattrs: AttrsModel, g: GridModel) -> Seq<char> {
    "<table"@ + attrs_markup(tattrs) + ">"@ + rows_markup(g, 0) + "</table>"@
}

fn render_cell_into(
    out: &mut String,
    rowspan: usize,
    colspan: usize,
    text: &String,
    attrs: &Vec<(String, String)>,
)
    ensures
        final(out)@ == old(out)@ + cell_markup(
            rowspan as int,
            colspan as int,
            text@,
            attrs_view(*attrs),
        ),
{
    out.append("<td");
    if rowspan > 1 {
        out.append(" rowspan=\"");
        let num = usize_to_string(rowspan);
        out.append(num.as_str());
        out.append("\"");
    }
    if colspan > 1 {
        out.append(" colspan=\"");
        let num = usize_to_string(colspan);
        out.append(num.as_str());
        out.append("\"");
    }
    proof {
        assert(out@ =~= old(out)@ + "<td"@ + span_markup(rowspan as int, colspan as int));
    }
    render_attrs_into(out, attrs);
    out.append(">");
    let escaped = escape_html(text.as_str());
    out.append(escaped.as_str());
    out.append("</td>");
    proof {
        assert(out@ =~= old(out)@ + cell_markup(
            rowspan as int,
            colspan as int,
            text@,
            attrs_view(*attrs),
        ));
    }
}

fn render_row_into(out: &mut String, row: &Vec<Slot>)
    ensures
        final(out)@ == old(out)@ + "<tr>"@ + cells_markup(row_view(*row), 0) + "</tr>"@,
{
    let ghost rv = row_view(*row);
    out.append("<tr>");
    let ghost opened = out@;
    let mut c: usize = 0;
    loop
        invariant
            0 <= c <= row.len(),
            rv == row_view(*row),
            rv.len() == row.len(),
            out@ + cells_markup(rv, c as int) == opened + cells_markup(rv, 0),
        ensures
            out@ == opened + cells_markup(rv, 0),
        decreases row.len() - c,
    {
        if c >= row.len() {
            proof {
                assert(cells_markup(rv, c as int) =~= Seq::<char>::empty());
                assert(out@ =~= out@ + cells_markup(rv, c as int));
            }
            break;
        }
        let ghost mid = out@;
        proof {
            assert(rv[c as int] == row@[c as int]@);
        }
        match &row[c] {
            Slot::Cell { rowspan, colspan, text, attrs } => {
                proof {
                    assert(rv[c as int] == SlotData::Cell {
                        rowspan: *rowspan as int,
                        colspan: *colspan as int,
                        text: text@,
                        attrs: attrs_view(*attrs),
                    });
                }
                render_cell_into(out, *rowspan, *colspan, text, attrs);
                let step = if *colspan >= 1 {
                    *colspan
                } else {
                    1
                };
                let next = if step > row.len() - c {
                    row.len()
                } else {
                    c + step
                };
                proof {
                    assert(next as int == advance(c as int, *colspan as int, rv.len() as int));
                    assert(mid + (cell_markup(
                        *rowspan as int,
                        *colspan as int,
                        text@,
                        attrs_view(*attrs),
                    ) + cells_markup(rv, next as int)) =~= out@ + cells_markup(rv, next as int));
                }
                c = next;
            },
            Slot::Covered => {
                c = c + 1;
            },
            Slot::Absent => {
                out.append("<td></td>");
                proof {
                    assert(mid + ("<td></td>"@ + cells_markup(rv, c as int + 1)) =~= out@
                        + cells_markup(rv, c as int + 1));
                }
                c = c + 1;
            },
        }
    }
    out.append("</tr>");
}

/// Write the transposed grid and the table attributes out as markup.
pub fn render_table(tattrs: &Vec<(String, String)>, g: &Vec<Vec<Slot>>) -> (out: String)
    ensures
        out@ == table_markup(attrs_view(*tattrs), grid_view(*g)),
{
    let ghost av = attrs_view(*tattrs);
    let ghost gv = grid_view(*g);
    let mut out = String::from_str("<table");
    render_attrs_into(&mut out, tattrs);
    out.append(">");
    let ghost opened = out@;
    let mut r: usize = 0;
    loop
        invariant
            0 <= r <= g.len(),
            gv == grid_view(*g),
            gv.len() == g@.len(),
            opened == "<table"@ + attrs_markup(av) + ">"@,
            out@ + rows_markup(gv, r as int) == opened + rows_markup(gv, 0),
        ensures
            out@ == opened + rows_markup(gv, 0),
        decreases g.len() - r,
    {
        if r >= g.len() {
            proof {
                assert(rows_markup(gv, r as int) =~= Seq::<char>::empty());
                assert(out@ =~= out@ + rows_markup(gv, r as int));
            }
            break;
        }
        let ghost mid = out@;
        proof {
            assert(gv[r as int] == row_view(g@[r as int]));
        }
        render_row_into(&mut out, &g[r]);
        proof {
            assert(mid + ("<tr>"@ + cells_markup(gv[r as int], 0) + "</tr>"@ + rows_markup(
                gv,
                r as int + 1,
            )) =~= out@ + rows_markup(gv, r as int + 1));
        }
        r = r + 1;
    }
    out.append("</table>");
    proof {
        assert(out@ =~= table_markup(av, gv));
    }
    out
}

/// `needle` stands somewhere in `hay` as a contiguous run.
pub open spec fn contains_seq(hay: Seq<char>, needle: Seq<char>) -> bool {
    exists|i: int|
        0 <= i && i + needle.len() <= hay.len() && #[trigger] hay.subrange(i, i + needle.len())
            == needle
}

pub proof fn lemma_contains_self(n: Seq<char>)
    ensures
        contains_seq(n, n),
{
    assert(n.subrange(0, 0 + n.len() as int) =~= n);
}

pub proof fn lemma_contains_prepend(a: Seq<char>, hay: Seq<char>, needle: Seq<char>)
    requires
        contains_seq(hay, needle),
    ensures
        contains_seq(a + hay, needle),
{
    let i = choose|i: int|
        0 <= i && i + needle.len() <= hay.len() && #[trigger] hay.subrange(i, i + needle.len())
            == needle;
    let j = a.len() + i;
    assert((a + hay).subrange(j, j + needle.len() as int) =~= hay.subrange(
        i,
        i + needle.len() as int,
    ));
}

pub proof fn lemma_contains_append(hay: Seq<char>, b: Seq<char>, needle: Seq<char>)
    requires
        contains_seq(hay, needle),
    ensures
        contains_seq(hay + b, needle),
{
    let i = choose|i: int|
        0 <= i && i + needle.len() <= hay.len() && #[trigger] hay.subrange(i, i + needle.len())
            == needle;
    assert((hay + b).subrange(i, i + needle.len() as int) =~= hay.subrange(
        i,
        i + needle.len() as int,
    ));
}

/// Every attribute of the list stands in the written-out list, unchanged.
pub proof fn lemma_attrs_markup_contains(attrs: AttrsModel, k: int)
    requires
        0 <= k < attrs.len(),
    ensures
        contains_seq(attrs_markup(attrs), attr_markup(attrs[k].0, attrs[k].1)),
    decreases attrs.len(),
{
    let front = attrs_markup(attrs.drop_last());
    let last = attr_markup(attrs.last().0, attrs.last().1);
    if k == attrs.len() - 1 {
        lemma_contains_self(last);
        lemma_contains_prepend(front, last, last);
    } else {
        lemma_attrs_markup_contains(attrs.drop_last(), k);
        assert(attrs.drop_last()[k] == attrs[k]);
        lemma_contains_append(front, last, attr_markup(attrs[k].0, attrs[k].1));
    }
}

/// Table attribute passthrough: each attribute of the table element stands
/// written, with its value attribute-escaped, in the output markup.
pub proof fn lemma_table_attr_passthrough(tattrs: AttrsModel, g: GridModel, k: int)
    requires
        0 <= k < tattrs.len(),
    ensures
        contains_seq(table_markup(tattrs, g), attr_markup(tattrs[k].0, tattrs[k].1)),
{
    let n = attr_markup(tattrs[k].0, tattrs[k].1);
    lemma_attrs_markup_contains(tattrs, k);
    lemma_contains_prepend("<table"@, attrs_markup(tattrs), n);
    lemma_contains_append("<table"@ + attrs_markup(tattrs), ">"@, n);
    lemma_contains_append("<table"@ + attrs_markup(tattrs) + ">"@, rows_markup(g, 0), n);
    lemma_contains_append(
        "<table"@ + attrs_markup(tattrs) + ">"@ + rows_markup(g, 0),
        "</table>"@,
        n,
    );
}

/// Attribute preservation at the markup level: each attribute an anchor
/// carries stands written inside that cell's markup.
pub proof fn lemma_cell_attr_rendered(
    rs: int,
    cs: int,
    text: Seq<char>,
    attrs: AttrsModel,
    k: int,
)
    requires
        0 <= k < attrs.len(),
    ensures
        contains_seq(cell_markup(rs, cs, text, attrs), attr_markup(attrs[k].0, attrs[k].1)),
{
    let n = attr_markup(attrs[k].0, attrs[k].1);
    lemma_attrs_markup_contains(attrs, k);
    lemma_contains_prepend("<td"@ + span_markup(rs, cs), attrs_markup(attrs), n);
    assert("<td"@ + span_markup(rs, cs) + attrs_markup(attrs) =~= ("<td"@ + span_markup(rs, cs))
        + attrs_markup(attrs));
    lemma_contains_append("<td"@ + span_markup(rs, cs) + attrs_markup(attrs), ">"@, n);
    lemma_contains_append(
        "<td"@ + span_markup(rs, cs) + attrs_markup(attrs) + ">"@,
        escape_text(text),
        n,
    );
    lemma_contains_append(
        "<td"@ + span_markup(rs, cs) + attrs_markup(attrs) + ">"@ + escape_text(text),
        "</td>"@,
        n,
    );
}


/// How many column positions the renderer walks in a row from cursor
/// position `c` on: an anchor consumes its full advance, anything else one.
pub open spec fn positions_walked(row: Seq<SlotData>, c: int) -> int
    decreases row.len() - c,
{
    if c < 0 || c >= row.len() {
        0
    } else {
        match row[c] {
            SlotData::Cell { colspan, .. } => {
                let n = advance(c, colspan, row.len() as int);
                (n - c) + positions_walked(row, n)
            },
            _ => 1 + positions_walked(row, c + 1),
        }
    }
}

/// The renderer walks every column position of a row exactly once: from any
/// cursor position inside the row, what remains to walk is what remains of
/// the row.
pub proof fn lemma_positions_walked(row: Seq<SlotData>, c: int)
    requires
        0 <= c <= row.len(),
    ensures
        positions_walked(row, c) == row.len() - c,
    decreases row.len() - c,
{
    if c < row.len() {
        match row[c] {
            SlotData::Cell { colspan, .. } => {
                lemma_positions_walked(row, advance(c, colspan, row.len() as int));
            },
            _ => {
                lemma_positions_walked(row, c + 1);
            },
        }
    }
}

/// The markup of one row of the grid, row markers included.
pub open spec fn row_piece(row: Seq<SlotData>) -> Seq<char> {
    "<tr>"@ + cells_markup(row, 0) + "</tr>"@
}

/// One piece of markup per grid row.
pub open spec fn row_pieces(g: GridModel) -> Seq<Seq<char>> {
    Seq::new(g.len(), |r: int| row_piece(g[r]))
}

/// The rows of the output are exactly the flattened row pieces: one row
/// marker pair per grid row, none added, none dropped.
pub proof fn lemma_rows_markup_structure(g: GridModel, r: int)
    requires
        0 <= r <= g.len(),
    ensures
        rows_markup(g, r) == row_pieces(g).skip(r).flatten(),
    decreases g.len() - r,
{
    if r >= g.len() {
        assert(row_pieces(g).skip(r) =~= Seq::<Seq<char>>::empty());
    } else {
        lemma_rows_markup_structure(g, r + 1);
        assert(row_pieces(g).skip(r).drop_first() =~= row_pieces(g).skip(r + 1));
        assert(row_pieces(g).skip(r).first() == row_pieces(g)[r]);
        assert(rows_markup(g, r) =~= row_piece(g[r]) + rows_markup(g, r + 1));
    }
}


/// The cursor position that follows `from` in a row.
pub open spec fn walk_next(row: Seq<SlotData>, from: int) -> int {
    match row[from] {
        SlotData::Cell { colspan, .. } => advance(from, colspan, row.len() as int),
        _ => from + 1,
    }
}

/// Whether the renderer's cursor, walking from `from`, visits position `c`.
pub open spec fn walk_reaches(row: Seq<SlotData>, from: int, c: int) -> bool
    decreases row.len() - from,
{
    if from == c {
        true
    } else if 0 <= from < row.len() && from < c {
        walk_reaches(row, walk_next(row, from), c)
    } else {
        false
    }
}

/// An anchor the cursor reaches stands written in the row's cells.
pub proof fn lemma_reached_cell_in_cells(
    row: Seq<SlotData>,
    from: int,
    c: int,
    rs: int,
    cs: int,
    text: Seq<char>,
    attrs: AttrsModel,
)
    requires
        0 <= from,
        0 <= c < row.len(),
        walk_reaches(row, from, c),
        row[c] == (SlotData::Cell { rowspan: rs, colspan: cs, text, attrs }),
    ensures
        contains_seq(cells_markup(row, from), cell_markup(rs, cs, text, attrs)),
    decreases row.len() - from,
{
    let needle = cell_markup(rs, cs, text, attrs);
    if from == c {
        lemma_contains_self(needle);
        lemma_contains_append(needle, cells_markup(row, walk_next(row, from)), needle);
    } else {
        lemma_reached_cell_in_cells(row, walk_next(row, from), c, rs, cs, text, attrs);
        match row[from] {
            SlotData::Cell { rowspan: frs, colspan: fcs, text: ft, attrs: fa } => {
                lemma_contains_prepend(
                    cell_markup(frs, fcs, ft, fa),
                    cells_markup(row, walk_next(row, from)),
                    needle,
                );
            },
            SlotData::Covered => {
            },
            SlotData::Absent => {
                lemma_contains_prepend(
                    "<td></td>"@,
                    cells_markup(row, from + 1),
                    needle,
                );
            },
        }
    }
}

/// What stands in one row of the grid stands in the whole rows section.
pub proof fn lemma_contains_in_rows(g: GridModel, r: int, needle: Seq<char>)
    requires
        0 <= r < g.len(),
        contains_seq(row_piece(g[r]), needle),
    ensures
        contains_seq(rows_markup(g, 0), needle),
{
    lemma_contains_in_rows_from(g, 0, r, needle);
}

proof fn lemma_contains_in_rows_from(g: GridModel, k: int, r: int, needle: Seq<char>)
    requires
        0 <= k <= r < g.len(),
        contains_seq(row_piece(g[r]), needle),
    ensures
        contains_seq(rows_markup(g, k), needle),
    decreases r - k,
{
    assert(rows_markup(g, k) =~= row_piece(g[k]) + rows_markup(g, k + 1));
    if k == r {
        lemma_contains_append(row_piece(g[r]), rows_markup(g, r + 1), needle);
    } else {
        lemma_contains_in_rows_from(g, k + 1, r, needle);
        lemma_contains_prepend(row_piece(g[k]), rows_markup(g, k + 1), needle);
    }
}

/// What stands in the rows section stands in the whole output.
pub proof fn lemma_contains_in_table(tattrs: AttrsModel, g: GridModel, needle: Seq<char>)
    requires
        contains_seq(rows_markup(g, 0), needle),
    ensures
        contains_seq(table_markup(tattrs, g), needle),
{
    lemma_contains_prepend("<table"@ + attrs_markup(tattrs) + ">"@, rows_markup(g, 0), needle);
    assert("<table"@ + attrs_markup(tattrs) + ">"@ + rows_markup(g, 0) =~= ("<table"@
        + attrs_markup(tattrs) + ">"@) + rows_markup(g, 0));
    lemma_contains_append(
        "<table"@ + attrs_markup(tattrs) + ">"@ + rows_markup(g, 0),
        "</table>"@,
        needle,
    );
}

} // verus!
