//! The grid builder: rows of raw cells are laid out into a dense grid,
//! the column cursor skipping positions that earlier spans already claimed,
//! every span footprint marked as covered.
use vstd::prelude::*;
use crate::grid::{
    attr_lookup, attrs_view, cells_view, elem_mut, find_attr, filter_non_span, grid_view,
    keep_non_span, row_view, rows_view, CellData, GridModel, RawCell, Slot, SlotData,
};
use crate::strutil::{parse_span, span_value, trim_str, trimmed};

verus! {

/// An index sum held to the machine word, the one bound the machine forces.
pub open spec fn capped(n: int) -> int {
    if n > usize::MAX as int {
        usize::MAX as int
    } else {
        n
    }
}

/// The span a cell declares under the given attribute name: the attribute's
/// value read as a positive integer, 1 when absent or unreadable.
pub open spec fn span_of(v: Option<Seq<char>>) -> int {
    match v {
        Some(s) => span_value(s),
        None => 1,
    }
}

pub open spec fn cell_rowspan(cell: CellData) -> int {
    span_of(attr_lookup(cell.attrs, "rowspan"@))
}

pub open spec fn cell_colspan(cell: CellData) -> int {
    span_of(attr_lookup(cell.attrs, "colspan"@))
}

/// The slot written at a cell's anchor: spans, trimmed text, and the
/// non-span attributes.
pub open spec fn anchor_slot(cell: CellData) -> SlotData {
    SlotData::Cell {
        rowspan: cell_rowspan(cell),
        colspan: cell_colspan(cell),
        text: trimmed(cell.text),
        attrs: keep_non_span(cell.attrs),
    }
}

/// The first column at or after `c` not already written in this row.
pub open spec fn skip_cols(row: Seq<SlotData>, c: int) -> int
    decreases row.len() - c,
{
    if 0 <= c < row.len() && !(row[c] is Absent) {
        skip_cols(row, c + 1)
    } else {
        c
    }
}

pub open spec fn row_of(g: GridModel, r: int) -> Seq<SlotData> {
    if 0 <= r < g.len() {
        g[r]
    } else {
        Seq::empty()
    }
}

pub open spec fn pad_row(row: Seq<SlotData>, nc: int) -> Seq<SlotData> {
    if row.len() >= nc {
        row
    } else {
        row + Seq::new((nc - row.len()) as nat, |j: int| SlotData::Absent)
    }
}

/// The grid grown so that rows `0..nr` exist and reach at least `nc`
/// columns; rows past `nr` are left as they are.
pub open spec fn grow_spec(g: GridModel, nr: int, nc: int) -> GridModel {
    let total = if g.len() >= nr {
        g.len() as int
    } else {
        nr
    };
    Seq::new(total as nat, |r: int| if r < nr {
        pad_row(row_of(g, r), nc)
    } else {
        g[r]
    })
}

/// The grid with one slot replaced; out-of-range positions change nothing.
pub open spec fn write_slot(g: GridModel, r: int, c: int, s: SlotData) -> GridModel {
    if 0 <= r < g.len() && 0 <= c < g[r].len() {
        g.update(r, g[r].update(c, s))
    } else {
        g
    }
}

/// A position inside a span footprint other than the anchor itself.
pub open spec fn in_block(r: int, c: int, r0: int, c0: int, rs: int, cs: int) -> bool {
    r0 <= r < r0 + rs && c0 <= c < c0 + cs && !(r == r0 && c == c0)
}

/// Every grid position inside the footprint, the anchor apart, marked covered.
pub open spec fn cover_block(g: GridModel, r0: int, c0: int, rs: int, cs: int) -> GridModel {
    Seq::new(
        g.len(),
        |r: int|
            Seq::new(
                g[r].len(),
                |c: int|
                    if in_block(r, c, r0, c0, rs, cs) {
                        SlotData::Covered
                    } else {
                        g[r][c]
                    },
            ),
    )
}

/// One cell placed: the cursor skips occupied columns, the grid grows to
/// hold the footprint, the anchor is written, the footprint is covered, and
/// the cursor advances by the colspan.
pub open spec fn place_cell(g: GridModel, row: int, cur: int, cell: CellData) -> (GridModel, int) {
    let rs = cell_rowspan(cell);
    let cs = cell_colspan(cell);
    let c = skip_cols(row_of(g, row), cur);
    let g1 = grow_spec(g, capped(row + rs), capped(c + cs));
    let g2 = write_slot(g1, row, c, anchor_slot(cell));
    let g3 = cover_block(g2, row, c, rs, cs);
    (g3, capped(c + cs))
}

pub open spec fn place_cells(g: GridModel, row: int, cur: int, cells: Seq<CellData>) -> GridModel
    decreases cells.len(),
{
    if cells.len() == 0 {
        g
    } else {
        let pr = place_cell(g, row, cur, cells[0]);
        place_cells(pr.0, row, pr.1, cells.drop_first())
    }
}

/// A row about to be processed is appended when the grid does not reach it.
pub open spec fn ensure_row(g: GridModel, row: int) -> GridModel {
    if g.len() <= row {
        g.push(Seq::empty())
    } else {
        g
    }
}

pub open spec fn build_rows(g: GridModel, row: int, rows: Seq<Seq<CellData>>) -> GridModel
    decreases rows.len(),
{
    if rows.len() == 0 {
        g
    } else {
        build_rows(place_cells(ensure_row(g, row), row, 0, rows[0]), row + 1, rows.drop_first())
    }
}

/// The grid a sequence of rows of cells describes.
pub open spec fn build_grid_spec(rows: Seq<Seq<CellData>>) -> GridModel {
    build_rows(Seq::empty(), 0, rows)
}

fn cap_add(a: usize, b: usize) -> (r: usize)
    ensures
        r as int == capped(a as int + b as int),
{
    if b > usize::MAX - a {
        usize::MAX
    } else {
        a + b
    }
}

fn skip_occupied(row: &Vec<Slot>, start: usize) -> (c: usize)
    ensures
        c as int == skip_cols(row_view(*row), start as int),
        start <= c,
{
    let ghost rv = row_view(*row);
    let mut c = start;
    loop
        invariant
            start <= c,
            rv == row_view(*row),
            rv.len() == row.len(),
            skip_cols(rv, start as int) == skip_cols(rv, c as int),
        ensures
            c as int == skip_cols(rv, start as int),
        decreases row.len() - c,
    {
        if c >= row.len() {
            break;
        }
        match &row[c] {
            Slot::Absent => {
                break;
            },
            _ => {
                proof {
                    assert(rv[c as int] == row@[c as int]@);
                }
                c = c + 1;
            },
        }
    }
    c
}


fn grow_grid(g: &mut Vec<Vec<Slot>>, nr: usize, nc: usize)
    ensures
        grid_view(*final(g)) == grow_spec(grid_view(*old(g)), nr as int, nc as int),
        final(g).len() >= old(g).len(),
        final(g).len() >= nr,
{
    let ghost g0 = grid_view(*old(g));
    let len0 = g.len();
    loop
        invariant
            g.len() >= len0,
            len0 == g0.len(),
            g0 == grid_view(*old(g)),
            g.len() <= len0 || g.len() <= nr,
            forall|r: int| 0 <= r < g@.len() ==> #[trigger] grid_view(*g)[r] == row_of(g0, r),
        ensures
            g.len() >= nr,
            g@.len() == if g0.len() >= nr as int {
                g0.len()
            } else {
                nr as nat
            },
            forall|r: int| 0 <= r < g@.len() ==> #[trigger] grid_view(*g)[r] == row_of(g0, r),
        decreases nr - g.len(),
    {
        if g.len() >= nr {
            break;
        }
        let ghost prev = grid_view(*g);
        let ghost m = g@.len();
        g.push(Vec::new());
        proof {
            assert forall|r: int| 0 <= r < g@.len() implies #[trigger] grid_view(*g)[r] == row_of(
                g0,
                r,
            ) by {
                if r < m {
                    assert(prev[r] == row_of(g0, r));
                    assert(grid_view(*g)[r] =~= prev[r]);
                } else {
                    assert(grid_view(*g)[r] =~= row_of(g0, r));
                }
            }
        }
    }
    let ghost total = g@.len();
    let mut r: usize = 0;
    loop
        invariant
            0 <= r <= nr,
            nr <= g.len(),
            g@.len() == total,
            g0 == grid_view(*old(g)),
            total == grow_spec(g0, nr as int, nc as int).len(),
            forall|k: int|
                0 <= k < r ==> grid_view(*g)[k] == #[trigger] pad_row(row_of(g0, k), nc as int),
            forall|k: int| r <= k < total ==> #[trigger] grid_view(*g)[k] == row_of(g0, k),
        ensures
            grid_view(*g) == grow_spec(g0, nr as int, nc as int),
        decreases nr - r,
    {
        if r >= nr {
            proof {
                assert forall|k: int|
                    0 <= k < total implies grid_view(*g)[k] =~= #[trigger] grow_spec(
                    g0,
                    nr as int,
                    nc as int,
                )[k] by {
                    if k >= nr {
                        assert(grid_view(*g)[k] == row_of(g0, k));
                        assert(0 <= k < g0.len());
                    }
                }
                assert(grid_view(*g) =~= grow_spec(g0, nr as int, nc as int));
            }
            break;
        }
        let ghost before = grid_view(*g);
        let ghost orig = row_of(g0, r as int);
        let row = elem_mut(g, r);
        proof {
            assert(before[r as int] == row_view(*row));
            assert(before[r as int] == orig);
            assert(row_view(*row) =~= pad_row(orig, row@.len() as int));
        }
        let ghost rlen0 = row@.len();
        loop
            invariant
                row@.len() >= rlen0,
                row@.len() <= rlen0 || row@.len() <= nc,
                rlen0 == orig.len(),
                row_view(*row) == pad_row(orig, row@.len() as int),
            ensures
                row_view(*row) == pad_row(orig, nc as int),
            decreases nc - row.len(),
        {
            if row.len() >= nc {
                proof {
                    assert(pad_row(orig, nc as int) =~= pad_row(orig, row@.len() as int));
                }
                break;
            }
            let ghost prevrow = row_view(*row);
            let ghost m = row@.len();
            row.push(Slot::Absent);
            proof {
                assert forall|k: int|
                    0 <= k < row@.len() implies row_view(*row)[k] == #[trigger] pad_row(
                    orig,
                    row@.len() as int,
                )[k] by {
                    if k < m {
                        assert(row_view(*row)[k] == prevrow[k]);
                        assert(prevrow[k] == pad_row(orig, m as int)[k]);
                    }
                }
                assert(row_view(*row) =~= pad_row(orig, row@.len() as int));
            }
        }
        proof {
            assert forall|k: int|
                0 <= k < r as int + 1 implies grid_view(*g)[k] == #[trigger] pad_row(
                row_of(g0, k),
                nc as int,
            ) by {
                if k == r as int {
                    assert(grid_view(*g)[k] =~= row_view(g@[k]));
                } else {
                    assert(grid_view(*g)[k] =~= before[k]);
                }
            }
            assert forall|k: int|
                r as int + 1 <= k < total implies #[trigger] grid_view(*g)[k] == row_of(g0, k) by {
                assert(grid_view(*g)[k] =~= before[k]);
            }
        }
        r = r + 1;
    }
}


fn set_slot(g: &mut Vec<Vec<Slot>>, r: usize, c: usize, s: Slot)
    ensures
        grid_view(*final(g)) == write_slot(grid_view(*old(g)), r as int, c as int, s@),
        final(g).len() == old(g).len(),
{
    let ghost g0 = grid_view(*old(g));
    let ghost sv = s@;
    if r < g.len() {
        let row = elem_mut(g, r);
        let ghost prevrow = row_view(*row);
        if c < row.len() {
            row[c] = s;
            proof {
                assert(row_view(*row) =~= prevrow.update(c as int, sv));
                assert(prevrow == g0[r as int]);
                assert forall|k: int|
                    0 <= k < g@.len() implies grid_view(*g)[k] == #[trigger] write_slot(
                    g0,
                    r as int,
                    c as int,
                    sv,
                )[k] by {
                    if k == r as int {
                        assert(grid_view(*g)[k] == row_view(g@[k]));
                    } else {
                        assert(grid_view(*g)[k] =~= g0[k]);
                    }
                }
                assert(grid_view(*g) =~= write_slot(g0, r as int, c as int, sv));
            }
        } else {
            proof {
                assert forall|k: int|
                    0 <= k < g@.len() implies grid_view(*g)[k] == #[trigger] g0[k] by {
                    assert(grid_view(*g)[k] =~= g0[k]);
                }
                assert(grid_view(*g) =~= g0);
            }
        }
    } else {
        proof {
            assert(grid_view(*g) =~= g0);
        }
    }
}

/// The grid after the footprint positions in rows before `r`, and those in
/// row `r` at columns before `c`, have been covered.
pub open spec fn cover_upto(
    g: GridModel,
    r0: int,
    c0: int,
    rs: int,
    cs: int,
    r: int,
    c: int,
) -> GridModel {
    Seq::new(
        g.len(),
        |rr: int|
            Seq::new(
                g[rr].len(),
                |cc: int|
                    if in_block(rr, cc, r0, c0, rs, cs) && (rr < r || (rr == r && cc < c)) {
                        SlotData::Covered
                    } else {
                        g[rr][cc]
                    },
            ),
    )
}

fn cover_block_exec(g: &mut Vec<Vec<Slot>>, r0: usize, c0: usize, rs: usize, cs: usize)
    ensures
        grid_view(*final(g)) == cover_block(
            grid_view(*old(g)),
            r0 as int,
            c0 as int,
            rs as int,
            cs as int,
        ),
        final(g).len() == old(g).len(),
{
    let ghost g0 = grid_view(*old(g));
    let ghost ri0 = r0 as int;
    let ghost ci0 = c0 as int;
    let ghost rsi = rs as int;
    let ghost csi = cs as int;
    let rend = cap_add(r0, rs);
    let cend = cap_add(c0, cs);
    proof {
        assert forall|rr: int|
            0 <= rr < g0.len() implies grid_view(*g)[rr] == #[trigger] cover_upto(
            g0,
            ri0,
            ci0,
            rsi,
            csi,
            ri0,
            ci0,
        )[rr] by {
            assert(grid_view(*g)[rr] =~= cover_upto(g0, ri0, ci0, rsi, csi, ri0, ci0)[rr]);
        }
        assert(grid_view(*g) =~= cover_upto(g0, ri0, ci0, rsi, csi, ri0, ci0));
    }
    let mut r = r0;
    loop
        invariant
            r0 <= r,
            g0 == grid_view(*old(g)),
            g@.len() == g0.len(),
            rend as int == capped(ri0 + rsi),
            cend as int == capped(ci0 + csi),
            ri0 == r0 as int && ci0 == c0 as int && rsi == rs as int && csi == cs as int,
            grid_view(*g) == cover_upto(g0, ri0, ci0, rsi, csi, r as int, ci0),
        ensures
            grid_view(*g) == cover_block(g0, ri0, ci0, rsi, csi),
        decreases g.len() + 1 - r,
    {
        if r >= rend || r >= g.len() {
            proof {
                assert forall|rr: int|
                    0 <= rr < g0.len() implies grid_view(*g)[rr] == #[trigger] cover_block(
                    g0,
                    ri0,
                    ci0,
                    rsi,
                    csi,
                )[rr] by {
                    assert(grid_view(*g)[rr] =~= cover_block(g0, ri0, ci0, rsi, csi)[rr]);
                }
                assert(grid_view(*g) =~= cover_block(g0, ri0, ci0, rsi, csi));
            }
            break;
        }
        let rowlen = g[r].len();
        proof {
            assert(grid_view(*g)[r as int].len() == g0[r as int].len());
            assert(rowlen == g0[r as int].len());
        }
        let mut c = c0;
        loop
            invariant
                c0 <= c,
                r0 <= r < g.len(),
                r < rend,
                g0 == grid_view(*old(g)),
                g@.len() == g0.len(),
                rowlen == g0[r as int].len(),
                rowlen == g@[r as int]@.len(),
                rend as int == capped(ri0 + rsi),
                cend as int == capped(ci0 + csi),
                ri0 == r0 as int && ci0 == c0 as int && rsi == rs as int && csi == cs as int,
                grid_view(*g) == cover_upto(g0, ri0, ci0, rsi, csi, r as int, c as int),
            ensures
                grid_view(*g) == cover_upto(g0, ri0, ci0, rsi, csi, r as int + 1, ci0),
                g@.len() == g0.len(),
            decreases rowlen + 1 - c,
        {
            if c >= cend || c >= rowlen {
                proof {
                    assert forall|rr: int|
                        0 <= rr < g0.len() implies grid_view(*g)[rr] == #[trigger] cover_upto(
                        g0,
                        ri0,
                        ci0,
                        rsi,
                        csi,
                        r as int + 1,
                        ci0,
                    )[rr] by {
                        assert(grid_view(*g)[rr] =~= cover_upto(
                            g0,
                            ri0,
                            ci0,
                            rsi,
                            csi,
                            r as int + 1,
                            ci0,
                        )[rr]);
                    }
                    assert(grid_view(*g) =~= cover_upto(g0, ri0, ci0, rsi, csi, r as int + 1, ci0));
                }
                break;
            }
            let ghost before = grid_view(*g);
            if !(r == r0 && c == c0) {
                let row = elem_mut(g, r);
                let ghost prevrow = row_view(*row);
                row[c] = Slot::Covered;
                proof {
                    assert(row_view(*row) =~= prevrow.update(c as int, SlotData::Covered));
                    assert(prevrow == before[r as int]);
                }
            }
            proof {
                assert forall|rr: int|
                    0 <= rr < g0.len() implies grid_view(*g)[rr] == #[trigger] cover_upto(
                    g0,
                    ri0,
                    ci0,
                    rsi,
                    csi,
                    r as int,
                    c as int + 1,
                )[rr] by {
                    if rr == r as int {
                        assert(grid_view(*g)[rr] =~= cover_upto(
                            g0,
                            ri0,
                            ci0,
                            rsi,
                            csi,
                            r as int,
                            c as int + 1,
                        )[rr]);
                    } else {
                        assert(grid_view(*g)[rr] =~= before[rr]);
                        assert(before[rr] =~= cover_upto(
                            g0,
                            ri0,
                            ci0,
                            rsi,
                            csi,
                            r as int,
                            c as int + 1,
                        )[rr]);
                    }
                }
                assert(grid_view(*g) =~= cover_upto(
                    g0,
                    ri0,
                    ci0,
                    rsi,
                    csi,
                    r as int,
                    c as int + 1,
                ));
            }
            c = c + 1;
        }
        r = r + 1;
    }
}


/// Lay the rows of raw cells out as a dense grid: cursor skipping, span
/// defaulting, text trimming, attribute filtering and footprint covering,
/// exactly as `build_grid_spec` states them.
pub fn build_grid(rows: &Vec<Vec<RawCell>>) -> (g: Vec<Vec<Slot>>)
    ensures
        grid_view(g) == build_grid_spec(rows_view(*rows)),
{
    let ghost rv = rows_view(*rows);
    let ghost target = build_grid_spec(rv);
    let mut g: Vec<Vec<Slot>> = Vec::new();
    proof {
        assert(grid_view(g) =~= Seq::<Seq<SlotData>>::empty());
        assert(rv.skip(0) =~= rv);
    }
    let mut ri: usize = 0;
    loop
        invariant
            0 <= ri <= rows.len(),
            rv == rows_view(*rows),
            rv.len() == rows.len(),
            g@.len() >= ri as int,
            build_rows(grid_view(g), ri as int, rv.skip(ri as int)) == target,
        ensures
            grid_view(g) == target,
        decreases rows.len() - ri,
    {
        if ri >= rows.len() {
            proof {
                assert(rv.skip(ri as int) =~= Seq::<Seq<CellData>>::empty());
            }
            break;
        }
        let ghost gv_before = grid_view(g);
        proof {
            assert(rv.skip(ri as int)[0] == rv[ri as int]);
            assert(rv.skip(ri as int).drop_first() =~= rv.skip(ri as int + 1));
        }
        if g.len() <= ri {
            let ghost m = g@.len();
            g.push(Vec::new());
            proof {
                assert(row_view(g@[m as int]) =~= Seq::<SlotData>::empty());
                assert forall|k: int|
                    0 <= k < g@.len() implies grid_view(g)[k] == #[trigger] gv_before.push(
                    Seq::<SlotData>::empty(),
                )[k] by {
                    if k < m {
                        assert(grid_view(g)[k] =~= gv_before[k]);
                    }
                }
                assert(grid_view(g) =~= gv_before.push(Seq::<SlotData>::empty()));
            }
        }
        let ghost g_row = grid_view(g);
        proof {
            assert(g_row == ensure_row(gv_before, ri as int));
        }
        let ghost row_target = place_cells(g_row, ri as int, 0, rv[ri as int]);
        let ghost cv = cells_view(rows@[ri as int]);
        proof {
            assert(cv == rv[ri as int]);
            assert(cv.skip(0) =~= cv);
        }
        let ncells = rows[ri].len();
        let mut ci: usize = 0;
        let mut cur: usize = 0;
        loop
            invariant
                0 <= ci <= ncells,
                ri < rows.len(),
                rv == rows_view(*rows),
                rv.len() == rows.len(),
                cv == cells_view(rows@[ri as int]),
                cv.len() == ncells,
                ncells == rows@[ri as int]@.len(),
                (ri as int) < g@.len(),
                place_cells(grid_view(g), ri as int, cur as int, cv.skip(ci as int)) == row_target,
            ensures
                grid_view(g) == row_target,
                g@.len() > ri as int,
            decreases ncells - ci,
        {
            if ci >= ncells {
                proof {
                    assert(cv.skip(ci as int) =~= Seq::<CellData>::empty());
                }
                break;
            }
            let ghost cd = cv[ci as int];
            proof {
                assert(cv.skip(ci as int)[0] == cd);
                assert(cv.skip(ci as int).drop_first() =~= cv.skip(ci as int + 1));
            }
            let ghost gv0 = grid_view(g);
            let c = skip_occupied(&g[ri], cur);
            proof {
                assert(row_view(g@[ri as int]) == gv0[ri as int]);
                assert(row_of(gv0, ri as int) == gv0[ri as int]);
            }
            let cell = &rows[ri][ci];
            proof {
                assert(cell@ == cd);
            }
            let rs = match find_attr(&cell.attrs, "rowspan") {
                Some(v) => parse_span(v.as_str()),
                None => 1,
            };
            let cs = match find_attr(&cell.attrs, "colspan") {
                Some(v) => parse_span(v.as_str()),
                None => 1,
            };
            proof {
                assert(rs as int == cell_rowspan(cd));
                assert(cs as int == cell_colspan(cd));
            }
            let nr = cap_add(ri, rs);
            let nc = cap_add(c, cs);
            grow_grid(&mut g, nr, nc);
            let text = trim_str(cell.text.as_str());
            let attrs = filter_non_span(&cell.attrs);
            let slot = Slot::Cell { rowspan: rs, colspan: cs, text, attrs };
            proof {
                assert(slot@ == anchor_slot(cd));
            }
            set_slot(&mut g, ri, c, slot);
            cover_block_exec(&mut g, ri, c, rs, cs);
            proof {
                assert(grid_view(g) == place_cell(gv0, ri as int, cur as int, cd).0);
                assert(capped(c as int + cs as int) == place_cell(gv0, ri as int, cur as int, cd).1);
            }
            cur = cap_add(c, cs);
            ci = ci + 1;
        }
        ri = ri + 1;
    }
    g
}

} // verus!
