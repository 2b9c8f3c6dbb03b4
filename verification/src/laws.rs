//! Laws of the pipeline, proved once for every input: transposition keeps
//! each non-empty cell text at exactly as many anchors as before, and the
//! grids the builder produces never hold a row longer than the first.
use vstd::prelude::*;
use crate::builder::{
    build_grid_spec, build_rows, capped, cell_colspan, cell_rowspan, cover_block, ensure_row,
    grow_spec, pad_row, place_cell, place_cells, row_of, skip_cols, write_slot,
};
use crate::grid::{
    grid_width, rows_within_width, slot_at, AttrsModel, CellData, GridModel, SlotData,
};
use crate::render::{
    attr_markup, attrs_markup, cell_markup, cells_markup, contains_seq, lemma_cell_attr_rendered,
    lemma_contains_append, lemma_contains_in_rows, lemma_contains_in_table,
    lemma_contains_prepend, lemma_positions_walked, lemma_reached_cell_in_cells,
    lemma_rows_markup_structure, positions_walked, row_piece, row_pieces, rows_markup,
    table_markup, walk_reaches,
};
use crate::transpose::{
    lemma_span_exchange, lemma_transpose_dimensions, swap_slot, transpose_spec,
};

verus! {

/// How many columns `c < w` of row `r` satisfy `f`.
pub open spec fn count_in_row(f: spec_fn(int, int) -> bool, r: int, w: int) -> int
    decreases w,
{
    if w <= 0 {
        0
    } else {
        count_in_row(f, r, w - 1) + if f(r, w - 1) {
            1int
        } else {
            0int
        }
    }
}

/// How many rows `r < h` of column `c` satisfy `f`.
pub open spec fn count_in_col(f: spec_fn(int, int) -> bool, c: int, h: int) -> int
    decreases h,
{
    if h <= 0 {
        0
    } else {
        count_in_col(f, c, h - 1) + if f(h - 1, c) {
            1int
        } else {
            0int
        }
    }
}

/// How many positions of the `h` by `w` window satisfy `f`.
pub open spec fn count_in_grid(f: spec_fn(int, int) -> bool, h: int, w: int) -> int
    decreases h,
{
    if h <= 0 {
        0
    } else {
        count_in_grid(f, h - 1, w) + count_in_row(f, h - 1, w)
    }
}

proof fn lemma_count_grid_no_cols(f: spec_fn(int, int) -> bool, h: int)
    ensures
        count_in_grid(f, h, 0) == 0,
    decreases h,
{
    if h > 0 {
        lemma_count_grid_no_cols(f, h - 1);
    }
}

proof fn lemma_count_peel_col(f: spec_fn(int, int) -> bool, h: int, w: int)
    requires
        w >= 1,
    ensures
        count_in_grid(f, h, w) == count_in_grid(f, h, w - 1) + count_in_col(f, w - 1, h),
    decreases h,
{
    if h > 0 {
        lemma_count_peel_col(f, h - 1, w);
    }
}

proof fn lemma_count_row_as_col(
    f: spec_fn(int, int) -> bool,
    g: spec_fn(int, int) -> bool,
    r: int,
    w: int,
)
    requires
        forall|c: int| 0 <= c < w ==> #[trigger] f(r, c) == g(c, r),
    ensures
        count_in_row(f, r, w) == count_in_col(g, r, w),
    decreases w,
{
    if w > 0 {
        lemma_count_row_as_col(f, g, r, w - 1);
    }
}

/// Exchanging the two indices of the predicate exchanges the window's sides
/// without changing the count.
pub proof fn lemma_count_transpose(
    f: spec_fn(int, int) -> bool,
    g: spec_fn(int, int) -> bool,
    h: int,
    w: int,
)
    requires
        forall|r: int, c: int| 0 <= r < h && 0 <= c < w ==> #[trigger] f(r, c) == g(c, r),
    ensures
        count_in_grid(f, h, w) == count_in_grid(g, w, h),
    decreases h,
{
    if h <= 0 {
        lemma_count_grid_no_cols(g, w);
        assert(count_in_grid(g, w, h) == count_in_grid(g, w, 0)) by {
            lemma_count_same_when_empty(g, w, h);
        }
    } else {
        lemma_count_transpose(f, g, h - 1, w);
        lemma_count_peel_col(g, w, h);
        lemma_count_row_as_col(f, g, h - 1, w);
    }
}

proof fn lemma_count_same_when_empty(g: spec_fn(int, int) -> bool, n: int, h: int)
    requires
        h <= 0,
    ensures
        count_in_grid(g, n, h) == count_in_grid(g, n, 0),
    decreases n,
{
    if n > 0 {
        lemma_count_same_when_empty(g, n - 1, h);
    }
}

/// A position holding an anchor whose non-empty text is `t`.
pub open spec fn has_text(g: GridModel, r: int, c: int, t: Seq<char>) -> bool {
    match slot_at(g, r, c) {
        SlotData::Cell { text, .. } => text == t && text.len() > 0,
        _ => false,
    }
}

/// Content preservation: each non-empty text stands at exactly as many
/// anchors in the transposed grid as in the working window of the input
/// grid; no content is duplicated or dropped.
pub proof fn lemma_content_preserved(g: GridModel, t: Seq<char>)
    ensures
        count_in_grid(
            |r: int, c: int| has_text(g, r, c, t),
            g.len() as int,
            grid_width(g),
        ) == count_in_grid(
            |r: int, c: int| has_text(transpose_spec(g), r, c, t),
            transpose_spec(g).len() as int,
            g.len() as int,
        ),
{
    let tg = transpose_spec(g);
    let f = |r: int, c: int| has_text(g, r, c, t);
    let ft = |r: int, c: int| has_text(tg, r, c, t);
    assert forall|r: int, c: int|
        0 <= r < g.len() && 0 <= c < grid_width(g) implies #[trigger] f(r, c) == ft(c, r) by {
        assert(tg[c].len() == g.len());
        assert(slot_at(tg, c, r) == swap_slot(slot_at(g, r, c)));
    }
    lemma_count_transpose(f, ft, g.len() as int, grid_width(g));
    assert(tg.len() == grid_width(g));
}

proof fn lemma_grow_within(g: GridModel, nr: int, nc: int)
    requires
        rows_within_width(g),
        nr >= 1,
    ensures
        rows_within_width(grow_spec(g, nr, nc)),
{
    let gg = grow_spec(g, nr, nc);
    assert(gg[0] == pad_row(row_of(g, 0), nc));
    assert(row_of(g, 0).len() <= grid_width(g) || g.len() == 0);
    assert forall|r: int| 0 <= r < gg.len() implies (#[trigger] gg[r]).len() <= grid_width(gg) by {
        if r < nr {
            assert(gg[r] == pad_row(row_of(g, r), nc));
            if 0 <= r < g.len() {
                assert(row_of(g, r).len() <= grid_width(g));
            }
        } else {
            assert(gg[r] == g[r]);
            assert(g[r].len() <= grid_width(g));
        }
    }
}

proof fn lemma_write_within(g: GridModel, r: int, c: int, s: SlotData)
    requires
        rows_within_width(g),
    ensures
        rows_within_width(write_slot(g, r, c, s)),
{
    let gg = write_slot(g, r, c, s);
    assert forall|k: int| 0 <= k < gg.len() implies (#[trigger] gg[k]).len() <= grid_width(gg) by {
        assert(gg[k].len() == g[k].len());
        assert(gg[0].len() == g[0].len() || gg.len() == 0);
    }
}

proof fn lemma_cover_within(g: GridModel, r0: int, c0: int, rs: int, cs: int)
    requires
        rows_within_width(g),
    ensures
        rows_within_width(cover_block(g, r0, c0, rs, cs)),
{
    let gg = cover_block(g, r0, c0, rs, cs);
    assert forall|k: int| 0 <= k < gg.len() implies (#[trigger] gg[k]).len() <= grid_width(gg) by {
        assert(gg[k].len() == g[k].len());
        assert(gg[0].len() == g[0].len() || gg.len() == 0);
    }
}

proof fn lemma_place_cell_within(g: GridModel, row: int, cur: int, cell: CellData)
    requires
        rows_within_width(g),
        row >= 0,
    ensures
        rows_within_width(place_cell(g, row, cur, cell).0),
{
    let rs = cell_rowspan(cell);
    let cs = cell_colspan(cell);
    let c = skip_cols(row_of(g, row), cur);
    assert(rs >= 1);
    assert(capped(row + rs) >= 1);
    let g1 = grow_spec(g, capped(row + rs), capped(c + cs));
    lemma_grow_within(g, capped(row + rs), capped(c + cs));
    let g2 = write_slot(g1, row, c, crate::builder::anchor_slot(cell));
    lemma_write_within(g1, row, c, crate::builder::anchor_slot(cell));
    lemma_cover_within(g2, row, c, rs, cs);
}

proof fn lemma_place_cells_within(g: GridModel, row: int, cur: int, cells: Seq<CellData>)
    requires
        rows_within_width(g),
        row >= 0,
    ensures
        rows_within_width(place_cells(g, row, cur, cells)),
    decreases cells.len(),
{
    if cells.len() > 0 {
        let pr = place_cell(g, row, cur, cells[0]);
        lemma_place_cell_within(g, row, cur, cells[0]);
        lemma_place_cells_within(pr.0, row, pr.1, cells.drop_first());
    }
}

proof fn lemma_ensure_row_within(g: GridModel, row: int)
    requires
        rows_within_width(g),
    ensures
        rows_within_width(ensure_row(g, row)),
{
    let gg = ensure_row(g, row);
    assert forall|k: int| 0 <= k < gg.len() implies (#[trigger] gg[k]).len() <= grid_width(gg) by {
        if g.len() <= row {
            if k < g.len() {
                assert(gg[k] == g[k]);
            } else {
                assert(gg[k] == Seq::<SlotData>::empty());
            }
            assert(gg[0].len() == g[0].len() || g.len() == 0);
        }
    }
}

proof fn lemma_build_rows_within(g: GridModel, row: int, rows: Seq<Seq<CellData>>)
    requires
        rows_within_width(g),
        row >= 0,
    ensures
        rows_within_width(build_rows(g, row, rows)),
    decreases rows.len(),
{
    if rows.len() > 0 {
        lemma_ensure_row_within(g, row);
        lemma_place_cells_within(ensure_row(g, row), row, 0, rows[0]);
        lemma_build_rows_within(
            place_cells(ensure_row(g, row), row, 0, rows[0]),
            row + 1,
            rows.drop_first(),
        );
    }
}

/// The builder never makes a row longer than the first: every anchor the
/// grid holds stands inside the working window that the transposer reads.
pub proof fn lemma_built_grid_within(rows: Seq<Seq<CellData>>)
    ensures
        rows_within_width(build_grid_spec(rows)),
{
    lemma_build_rows_within(Seq::empty(), 0, rows);
}


/// Content preservation across the whole pipeline: in the grid built from
/// any rows of cells — whose every row the builder keeps inside the working
/// window — each non-empty text anchors exactly as often as in its
/// transposition.
pub proof fn lemma_pipeline_content_preserved(rows: Seq<Seq<CellData>>, t: Seq<char>)
    ensures
        count_in_grid(
            |r: int, c: int| has_text(build_grid_spec(rows), r, c, t),
            build_grid_spec(rows).len() as int,
            grid_width(build_grid_spec(rows)),
        ) == count_in_grid(
            |r: int, c: int| has_text(transpose_spec(build_grid_spec(rows)), r, c, t),
            transpose_spec(build_grid_spec(rows)).len() as int,
            build_grid_spec(rows).len() as int,
        ),
{
    lemma_built_grid_within(rows);
    lemma_content_preserved(build_grid_spec(rows), t);
}


/// Dimension swap at the markup level: the output written for the
/// transposition of a grid with R rows and working width C is the table
/// element around the flattening of exactly C row pieces, and the renderer
/// walks exactly R column positions in each of them, each anchor counting
/// its colspan wide.
pub proof fn lemma_markup_dimensions(tattrs: AttrsModel, g: GridModel)
    ensures
        row_pieces(transpose_spec(g)).len() == grid_width(g),
        table_markup(tattrs, transpose_spec(g)) == "<table"@ + attrs_markup(tattrs) + ">"@
            + row_pieces(transpose_spec(g)).flatten() + "</table>"@,
        forall|r: int|
            0 <= r < grid_width(g) ==> positions_walked(#[trigger] transpose_spec(g)[r], 0)
                == g.len(),
{
    let tg = transpose_spec(g);
    lemma_transpose_dimensions(g);
    lemma_rows_markup_structure(tg, 0);
    assert(row_pieces(tg).skip(0) =~= row_pieces(tg));
    assert forall|r: int|
        0 <= r < grid_width(g) implies positions_walked(#[trigger] tg[r], 0) == g.len() by {
        lemma_positions_walked(tg[r], 0);
    }
}


/// Span exchange and attribute preservation at the markup level: a cell
/// anchored at (r, c) of the grid, when the cursor reaches its
/// transposed anchor, stands written in the output with rowspan and colspan
/// exchanged and its text escaped, and its markup carries each of its
/// attributes unchanged up to value escaping.
pub proof fn lemma_span_exchange_markup(
    tattrs: AttrsModel,
    g: GridModel,
    r: int,
    c: int,
    rs: int,
    cs: int,
    text: Seq<char>,
    attrs: AttrsModel,
)
    requires
        0 <= r < g.len(),
        0 <= c < grid_width(g),
        slot_at(g, r, c) == (SlotData::Cell { rowspan: rs, colspan: cs, text, attrs }),
        walk_reaches(transpose_spec(g)[c], 0, r),
    ensures
        contains_seq(table_markup(tattrs, transpose_spec(g)), cell_markup(cs, rs, text, attrs)),
        forall|k: int|
            0 <= k < attrs.len() ==> contains_seq(
                cell_markup(cs, rs, text, attrs),
                attr_markup(#[trigger] attrs[k].0, attrs[k].1),
            ),
{
    let tg = transpose_spec(g);
    let needle = cell_markup(cs, rs, text, attrs);
    lemma_span_exchange(g, r, c, rs, cs, text, attrs);
    assert(tg[c].len() == g.len());
    assert(tg[c][r] == slot_at(tg, c, r));
    lemma_reached_cell_in_cells(tg[c], 0, r, cs, rs, text, attrs);
    lemma_contains_prepend("<tr>"@, cells_markup(tg[c], 0), needle);
    lemma_contains_append("<tr>"@ + cells_markup(tg[c], 0), "</tr>"@, needle);
    lemma_contains_in_rows(tg, c, needle);
    lemma_contains_in_table(tattrs, tg, needle);
    assert forall|k: int| 0 <= k < attrs.len() implies contains_seq(
        needle,
        attr_markup(#[trigger] attrs[k].0, attrs[k].1),
    ) by {
        lemma_cell_attr_rendered(cs, rs, text, attrs, k);
    }
}

} // verus!
