//! The data model: a table as plain values, and the dense rectangular grid
//! of cell slots that the builder produces and the renderer walks.
use vstd::prelude::*;

verus! {

/// One cell as it stands in the markup: its concatenated text (untrimmed)
/// and all of its attributes in document order, spans included.
pub struct RawCell {
    pub text: String,
    pub attrs: Vec<(String, String)>,
}

/// A table as plain values: the table element's attributes and its rows of
/// cells, both in document order.
pub struct RawTable {
    pub attrs: Vec<(String, String)>,
    pub rows: Vec<Vec<RawCell>>,
}

/// Mathematical image of an attribute list.
pub type AttrsModel = Seq<(Seq<char>, Seq<char>)>;

/// Mathematical image of one cell.
#[verifier::ext_equal]
pub ghost struct CellData {
    pub text: Seq<char>,
    pub attrs: AttrsModel,
}

/// Mathematical image of a table.
#[verifier::ext_equal]
pub ghost struct TableData {
    pub attrs: AttrsModel,
    pub rows: Seq<Seq<CellData>>,
}

pub open spec fn attrs_view(v: Vec<(String, String)>) -> AttrsModel {
    Seq::new(v@.len(), |i: int| (v@[i].0@, v@[i].1@))
}

impl View for RawCell {
    type V = CellData;

    open spec fn view(&self) -> CellData {
        CellData { text: self.text@, attrs: attrs_view(self.attrs) }
    }
}

pub open spec fn cells_view(v: Vec<RawCell>) -> Seq<CellData> {
    Seq::new(v@.len(), |i: int| v@[i]@)
}

pub open spec fn rows_view(rows: Vec<Vec<RawCell>>) -> Seq<Seq<CellData>> {
    Seq::new(rows@.len(), |i: int| cells_view(rows@[i]))
}

impl View for RawTable {
    type V = TableData;

    open spec fn view(&self) -> TableData {
        TableData { attrs: attrs_view(self.attrs), rows: rows_view(self.rows) }
    }
}

/// One position of the grid: not written yet, covered by another cell's
/// span footprint, or the anchor of a cell.
pub enum Slot {
    Absent,
    Covered,
    Cell { rowspan: usize, colspan: usize, text: String, attrs: Vec<(String, String)> },
}

/// Mathematical image of a slot.
#[verifier::ext_equal]
pub ghost enum SlotData {
    Absent,
    Covered,
    Cell { rowspan: int, colspan: int, text: Seq<char>, attrs: AttrsModel },
}

impl View for Slot {
    type V = SlotData;

    open spec fn view(&self) -> SlotData {
        match self {
            Slot::Absent => SlotData::Absent,
            Slot::Covered => SlotData::Covered,
            Slot::Cell { rowspan, colspan, text, attrs } => SlotData::Cell {
                rowspan: *rowspan as int,
                colspan: *colspan as int,
                text: text@,
                attrs: attrs_view(*attrs),
            },
        }
    }
}

/// Mathematical image of a grid.
pub type GridModel = Seq<Seq<SlotData>>;

pub open spec fn row_view(row: Vec<Slot>) -> Seq<SlotData> {
    Seq::new(row@.len(), |c: int| row@[c]@)
}

pub open spec fn grid_view(g: Vec<Vec<Slot>>) -> GridModel {
    Seq::new(g@.len(), |r: int| row_view(g@[r]))
}

/// A mutable borrow of one element, stated over the vector's view.
pub fn elem_mut<T>(v: &mut Vec<T>, i: usize) -> (e: &mut T)
    requires
        i < old(v).len(),
    ensures
        *e == old(v)@[i as int],
        final(v)@ == old(v)@.update(i as int, *final(e)),
{
    &mut v[i]
}

/// The working column bound: the length of the first row.
pub open spec fn grid_width(g: GridModel) -> int {
    if g.len() > 0 {
        g[0].len() as int
    } else {
        0
    }
}

/// The slot at a position, reading past a row's end or past the last row
/// as "no cell".
pub open spec fn slot_at(g: GridModel, r: int, c: int) -> SlotData {
    if 0 <= r < g.len() && 0 <= c < g[r].len() {
        g[r][c]
    } else {
        SlotData::Absent
    }
}

/// Every row fits inside the working column bound.
pub open spec fn rows_within_width(g: GridModel) -> bool {
    forall|r: int| 0 <= r < g.len() ==> (#[trigger] g[r]).len() <= grid_width(g)
}

/// A rectangular grid: every row has exactly the working width.
pub open spec fn is_rect(g: GridModel) -> bool {
    forall|r: int| 0 <= r < g.len() ==> (#[trigger] g[r]).len() == grid_width(g)
}

pub fn clone_attrs(v: &Vec<(String, String)>) -> (r: Vec<(String, String)>)
    ensures
        r@ == v@,
{
    let mut r: Vec<(String, String)> = Vec::new();
    let mut i: usize = 0;
    loop
        invariant
            0 <= i <= v.len(),
            r@ =~= v@.take(i as int),
        ensures
            r@ =~= v@,
        decreases v.len() - i,
    {
        if i >= v.len() {
            break;
        }
        let name = v[i].0.clone();
        let value = v[i].1.clone();
        r.push((name, value));
        proof {
            assert(r@ =~= v@.take(i + 1));
        }
        i = i + 1;
    }
    r
}

pub fn clone_slot(s: &Slot) -> (r: Slot)
    ensures
        r@ == s@,
{
    match s {
        Slot::Absent => Slot::Absent,
        Slot::Covered => Slot::Covered,
        Slot::Cell { rowspan, colspan, text, attrs } => Slot::Cell {
            rowspan: *rowspan,
            colspan: *colspan,
            text: text.clone(),
            attrs: clone_attrs(attrs),
        },
    }
}

/// The value of the first attribute with the given name, if any.
pub open spec fn attr_lookup(attrs: AttrsModel, key: Seq<char>) -> Option<Seq<char>>
    decreases attrs.len(),
{
    if attrs.len() == 0 {
        None
    } else if attrs[0].0 == key {
        Some(attrs[0].1)
    } else {
        attr_lookup(attrs.drop_first(), key)
    }
}

/// The attribute list with the two span attributes removed, order kept.
pub open spec fn keep_non_span(attrs: AttrsModel) -> AttrsModel
    decreases attrs.len(),
{
    if attrs.len() == 0 {
        Seq::empty()
    } else {
        let front = keep_non_span(attrs.drop_last());
        if attrs.last().0 == "rowspan"@ || attrs.last().0 == "colspan"@ {
            front
        } else {
            front.push(attrs.last())
        }
    }
}

pub fn find_attr(attrs: &Vec<(String, String)>, key: &str) -> (r: Option<String>)
    ensures
        match r {
            Some(v) => attr_lookup(attrs_view(*attrs), key@) == Some(v@),
            None => attr_lookup(attrs_view(*attrs), key@) is None,
        },
{
    let ghost full = attrs_view(*attrs);
    proof {
        assert(full.skip(0) =~= full);
    }
    let mut i: usize = 0;
    loop
        invariant
            0 <= i <= attrs.len(),
            full == attrs_view(*attrs),
            full.len() == attrs.len(),
            attr_lookup(full, key@) == attr_lookup(full.skip(i as int), key@),
        ensures
            attr_lookup(full, key@) is None,
        decreases attrs.len() - i,
    {
        if i >= attrs.len() {
            proof {
                assert(full.skip(i as int) =~= Seq::<(Seq<char>, Seq<char>)>::empty());
            }
            break;
        }
        if crate::strutil::str_eq(attrs[i].0.as_str(), key) {
            proof {
                assert(full.skip(i as int)[0] == full[i as int]);
            }
            return Some(attrs[i].1.clone());
        }
        proof {
            assert(full.skip(i as int)[0] == full[i as int]);
            assert(full.skip(i as int).drop_first() =~= full.skip(i + 1));
        }
        i = i + 1;
    }
    None
}

/// The attributes a cell keeps on its anchor: everything but the spans.
pub fn filter_non_span(attrs: &Vec<(String, String)>) -> (r: Vec<(String, String)>)
    ensures
        attrs_view(r) == keep_non_span(attrs_view(*attrs)),
{
    let ghost full = attrs_view(*attrs);
    let mut r: Vec<(String, String)> = Vec::new();
    let mut i: usize = 0;
    loop
        invariant
            0 <= i <= attrs.len(),
            full == attrs_view(*attrs),
            full.len() == attrs.len(),
            attrs_view(r) == keep_non_span(full.take(i as int)),
        ensures
            attrs_view(r) == keep_non_span(full),
        decreases attrs.len() - i,
    {
        if i >= attrs.len() {
            proof {
                assert(full.take(i as int) =~= full);
            }
            break;
        }
        proof {
            assert(full.take(i + 1).drop_last() =~= full.take(i as int));
            assert(full.take(i + 1).last() == full[i as int]);
        }
        let name = attrs[i].0.clone();
        if !(crate::strutil::str_eq(name.as_str(), "rowspan") || crate::strutil::str_eq(
            name.as_str(),
            "colspan",
        )) {
            let value = attrs[i].1.clone();
            r.push((name, value));
            proof {
                assert(attrs_view(r) =~= keep_non_span(full.take(i + 1)));
            }
        } else {
            proof {
                assert(attrs_view(r) =~= keep_non_span(full.take(i + 1)));
            }
        }
        i = i + 1;
    }
    r
}

} // verus!
