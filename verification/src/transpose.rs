//! The transposer: a new grid in which position (c, r) holds what (r, c)
//! held, with each cell's rowspan and colspan exchanged.
use vstd::prelude::*;
use crate::grid::{
    clone_slot, grid_view, grid_width, is_rect, row_view, slot_at, AttrsModel, GridModel, Slot,
    SlotData,
};

verus! {

/// A slot with rowspan and colspan exchanged.
pub open spec fn swap_slot(s: SlotData) -> SlotData {
    match s {
        SlotData::Cell { rowspan, colspan, text, attrs } => SlotData::Cell {
            rowspan: colspan,
            colspan: rowspan,
            text,
            attrs,
        },
        _ => s,
    }
}

/// The transposed grid: one output row per input column inside the working
/// width, each holding the swapped slots of that column; reads past a short
/// row give "no cell".
pub open spec fn transpose_spec(g: GridModel) -> GridModel {
    Seq::new(
        grid_width(g) as nat,
        |c: int| Seq::new(g.len(), |r: int| swap_slot(slot_at(g, r, c))),
    )
}

fn swap_exec(s: Slot) -> (r: Slot)
    ensures
        r@ == swap_slot(s@),
{
    match s {
        Slot::Cell { rowspan, colspan, text, attrs } => Slot::Cell {
            rowspan: colspan,
            colspan: rowspan,
            text,
            attrs,
        },
        other => other,
    }
}

pub fn transpose_grid(g: &Vec<Vec<Slot>>) -> (t: Vec<Vec<Slot>>)
    ensures
        grid_view(t) == transpose_spec(grid_view(*g)),
{
    let ghost gv = grid_view(*g);
    let height = g.len();
    let width = if g.len() > 0 {
        g[0].len()
    } else {
        0
    };
    proof {
        if g@.len() > 0 {
            assert(gv[0] == row_view(g@[0]));
        }
        assert(width as int == grid_width(gv));
    }
    let mut t: Vec<Vec<Slot>> = Vec::new();
    let mut c: usize = 0;
    loop
        invariant
            0 <= c <= width,
            gv == grid_view(*g),
            height == gv.len(),
            width as int == grid_width(gv),
            t@.len() == c,
            forall|k: int| 0 <= k < c ==> grid_view(t)[k] == #[trigger] transpose_spec(gv)[k],
        ensures
            grid_view(t) == transpose_spec(gv),
        decreases width - c,
    {
        if c >= width {
            proof {
                assert(grid_view(t) =~= transpose_spec(gv));
            }
            break;
        }
        let mut trow: Vec<Slot> = Vec::new();
        let mut r: usize = 0;
        loop
            invariant
                0 <= r <= height,
                0 <= c < width,
                gv == grid_view(*g),
                height == gv.len(),
                g@.len() == height,
                width as int == grid_width(gv),
                trow@.len() == r,
                forall|k: int|
                    0 <= k < r ==> row_view(trow)[k] == swap_slot(#[trigger] slot_at(
                        gv,
                        k,
                        c as int,
                    )),
            ensures
                row_view(trow) == transpose_spec(gv)[c as int],
            decreases height - r,
        {
            if r >= height {
                proof {
                    assert(row_view(trow) =~= transpose_spec(gv)[c as int]);
                }
                break;
            }
            let ghost prevrow = row_view(trow);
            let slot = if c < g[r].len() {
                proof {
                    assert(gv[r as int] == row_view(g@[r as int]));
                    assert(slot_at(gv, r as int, c as int) == g@[r as int]@[c as int]@);
                }
                clone_slot(&g[r][c])
            } else {
                proof {
                    assert(gv[r as int] == row_view(g@[r as int]));
                    assert(slot_at(gv, r as int, c as int) == SlotData::Absent);
                }
                Slot::Absent
            };
            let sw = swap_exec(slot);
            trow.push(sw);
            proof {
                assert forall|k: int|
                    0 <= k < r + 1 implies row_view(trow)[k] == swap_slot(#[trigger] slot_at(
                        gv,
                        k,
                        c as int,
                    )) by {
                    if k < r {
                        assert(row_view(trow)[k] == prevrow[k]);
                    }
                }
            }
            r = r + 1;
        }
        let ghost tv_before = grid_view(t);
        t.push(trow);
        proof {
            assert forall|k: int|
                0 <= k < c + 1 implies grid_view(t)[k] == #[trigger] transpose_spec(gv)[k] by {
                if k < c {
                    assert(grid_view(t)[k] == tv_before[k]);
                } else {
                    assert(grid_view(t)[k] == row_view(t@[k]));
                }
            }
        }
        c = c + 1;
    }
    t
}

/// Dimension swap: the transposed grid has one row per input column of the
/// working width, and each of its rows has one slot per input row; it is
/// always rectangular.
pub proof fn lemma_transpose_dimensions(g: GridModel)
    ensures
        transpose_spec(g).len() == grid_width(g),
        forall|r: int|
            0 <= r < transpose_spec(g).len() ==> (#[trigger] transpose_spec(g)[r]).len()
                == g.len(),
        is_rect(transpose_spec(g)),
{
    assert forall|r: int|
        0 <= r < transpose_spec(g).len() implies (#[trigger] transpose_spec(g)[r]).len()
        == g.len() by {}
}

/// Span exchange, content and attribute preservation: a cell anchored at
/// (r, c) with spans (rs, cs) stands in the transposed grid at (c, r) with
/// spans (cs, rs), its text and attributes unchanged.
pub proof fn lemma_span_exchange(
    g: GridModel,
    r: int,
    c: int,
    rs: int,
    cs: int,
    text: Seq<char>,
    attrs: AttrsModel,
)
    requires
        0 <= r < g.len(),
        0 <= c < grid_width(g),
        slot_at(g, r, c) == (SlotData::Cell { rowspan: rs, colspan: cs, text, attrs }),
    ensures
        slot_at(transpose_spec(g), c, r) == (SlotData::Cell {
            rowspan: cs,
            colspan: rs,
            text,
            attrs,
        }),
{
    assert(transpose_spec(g)[c].len() == g.len());
}

/// Round trip, slot for slot: transposing twice leaves every position inside
/// the working window with the content, attributes and spans it started with.
pub proof fn lemma_double_transpose_pointwise(g: GridModel, r: int, c: int)
    requires
        0 <= r < g.len(),
        0 <= c < grid_width(g),
    ensures
        slot_at(transpose_spec(transpose_spec(g)), r, c) == slot_at(g, r, c),
{
    let t = transpose_spec(g);
    let tt = transpose_spec(t);
    assert(t.len() == grid_width(g));
    assert(t[0].len() == g.len());
    assert(grid_width(t) == g.len());
    assert(tt[r].len() == t.len());
    assert(tt[r][c] == swap_slot(slot_at(t, c, r)));
    assert(slot_at(t, c, r) == t[c][r]);
    assert(t[c][r] == swap_slot(slot_at(g, r, c)));
    assert(swap_slot(swap_slot(slot_at(g, r, c))) == slot_at(g, r, c));
}

/// Round trip, whole grid: on a rectangular grid (as every transposed grid
/// is) transposing twice gives back the very same grid.
pub proof fn lemma_double_transpose(g: GridModel)
    requires
        is_rect(g),
        grid_width(g) == 0 ==> g.len() == 0,
    ensures
        transpose_spec(transpose_spec(g)) == g,
{
    let t = transpose_spec(g);
    let tt = transpose_spec(t);
    if g.len() == 0 {
        assert(grid_width(g) == 0);
        assert(t.len() == 0);
        assert(grid_width(t) == 0);
        assert(tt =~= g);
    } else {
        assert(grid_width(g) > 0);
        assert(t.len() == grid_width(g));
        assert(grid_width(t) == g.len());
        assert(tt.len() == g.len());
        assert forall|r: int| 0 <= r < g.len() implies tt[r] =~= #[trigger] g[r] by {
            assert(tt[r].len() == t.len());
            assert(g[r].len() == grid_width(g));
            assert forall|c: int| 0 <= c < g[r].len() implies tt[r][c] == #[trigger] g[r][c] by {
                lemma_double_transpose_pointwise(g, r, c);
                assert(slot_at(tt, r, c) == tt[r][c]);
                assert(slot_at(g, r, c) == g[r][c]);
            }
        }
        assert(tt =~= g);
    }
}

} // verus!
