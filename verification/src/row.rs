use vstd::prelude::*;
use crate::cell::Cell;
use crate::field_type::FieldType;

verus! {

/// The mathematical image of a stored cell.
pub struct CellView {
    pub field_type: FieldType,
    pub data: Seq<char>,
}

impl View for Cell {
    type V = CellView;

    open spec fn view(&self) -> CellView {
        CellView { field_type: self.field_type, data: self.data@ }
    }
}

/// One cell of a row, keyed by the owning field's id.
#[derive(Debug, PartialEq, Eq)]
pub struct CellEntry {
    pub field_id: String,
    pub cell: Cell,
}

/// The mathematical image of a row cell entry.
pub struct CellEntryView {
    pub field_id: Seq<char>,
    pub cell: CellView,
}

impl View for CellEntry {
    type V = CellEntryView;

    open spec fn view(&self) -> CellEntryView {
        CellEntryView { field_id: self.field_id@, cell: self.cell@ }
    }
}

impl Clone for CellEntry {
    fn clone(&self) -> (r: Self)
        ensures
            r@ == self@,
    {
        CellEntry { field_id: self.field_id.clone(), cell: self.cell.clone() }
    }
}

/// The views of a cell list.
pub open spec fn cell_views(v: Seq<CellEntry>) -> Seq<CellEntryView> {
    v.map_values(|c: CellEntry| c@)
}

/// The raw data stored for a field in a cell list, if any; a missing entry
/// is an empty or default cell.
pub open spec fn cell_data_for(cells: Seq<CellEntryView>, field_id: Seq<char>) -> Option<
    Seq<char>,
>
    decreases cells.len(),
{
    if cells.len() == 0 {
        None
    } else if cells[0].field_id == field_id {
        Some(cells[0].cell.data)
    } else {
        cell_data_for(cells.drop_first(), field_id)
    }
}

/// What writing a cell yields: the first entry for the field is replaced in
/// place, otherwise the entry appends.
pub open spec fn upsert_cell(cells: Seq<CellEntryView>, e: CellEntryView) -> Seq<CellEntryView>
    decreases cells.len(),
{
    if cells.len() == 0 {
        seq![e]
    } else if cells[0].field_id == e.field_id {
        seq![e] + cells.drop_first()
    } else {
        seq![cells[0]] + upsert_cell(cells.drop_first(), e)
    }
}

proof fn lemma_upsert_cell_at(cells: Seq<CellEntryView>, e: CellEntryView, i: int)
    requires
        0 <= i < cells.len(),
        cells[i].field_id == e.field_id,
        forall|k: int| 0 <= k < i ==> cells[k].field_id != e.field_id,
    ensures
        upsert_cell(cells, e) == cells.update(i, e),
    decreases i,
{
    if i == 0 {
        assert(seq![e] + cells.drop_first() =~= cells.update(0, e));
    } else {
        assert(cells.drop_first()[i - 1] == cells[i]);
        assert(forall|k: int| 0 <= k < i - 1 ==> cells.drop_first()[k] == cells[k + 1]);
        lemma_upsert_cell_at(cells.drop_first(), e, i - 1);
        assert(seq![cells[0]] + cells.drop_first().update(i - 1, e) =~= cells.update(i, e));
    }
}

proof fn lemma_upsert_cell_missing(cells: Seq<CellEntryView>, e: CellEntryView)
    requires
        forall|k: int| 0 <= k < cells.len() ==> cells[k].field_id != e.field_id,
    ensures
        upsert_cell(cells, e) == cells.push(e),
    decreases cells.len(),
{
    if cells.len() == 0 {
        assert(upsert_cell(cells, e) =~= cells.push(e));
    } else {
        assert(forall|k: int|
            0 <= k < cells.drop_first().len() ==> cells.drop_first()[k] == cells[k + 1]);
        lemma_upsert_cell_missing(cells.drop_first(), e);
        assert(seq![cells[0]] + cells.drop_first().push(e) =~= cells.push(e));
    }
}

/// Writes a cell into a cell list, replacing the field's earlier cell.
pub fn insert_cell_entry(cells: &mut Vec<CellEntry>, field_id: String, cell: Cell)
    ensures
        cell_views(final(cells)@) == upsert_cell(
            cell_views(old(cells)@),
            CellEntryView { field_id: field_id@, cell: cell@ },
        ),
{
    let ghost cs0 = cell_views(old(cells)@);
    let ghost e = CellEntryView { field_id: field_id@, cell: cell@ };
    let mut i: usize = 0;
    while i < cells.len()
        invariant
            i <= cells@.len(),
            cells@ == old(cells)@,
            cs0 == cell_views(cells@),
            cs0.len() == cells@.len(),
            e == (CellEntryView { field_id: field_id@, cell: cell@ }),
            forall|k: int| 0 <= k < i ==> cs0[k].field_id != field_id@,
        decreases cells@.len() - i,
    {
        proof {
            assert(cs0[i as int] == cells@[i as int]@);
        }
        if cells[i].field_id.eq(&field_id) {
            let entry = CellEntry { field_id, cell };
            proof {
                assert(cs0[i as int].field_id == e.field_id);
                lemma_upsert_cell_at(cs0, e, i as int);
                assert(cell_views(old(cells)@.update(i as int, entry)) =~= cs0.update(
                    i as int,
                    e,
                ));
            }
            cells.set(i, entry);
            return ;
        }
        i += 1;
    }
    let entry = CellEntry { field_id, cell };
    proof {
        lemma_upsert_cell_missing(cs0, e);
        assert(cell_views(old(cells)@.push(entry)) =~= cs0.push(e));
    }
    cells.push(entry);
}

/// Reads the raw data stored for a field, if any.
pub fn find_cell_data(cells: &Vec<CellEntry>, field_id: &String) -> (r: Option<String>)
    ensures
        match r {
            Some(s) => cell_data_for(cell_views(cells@), field_id@) == Some(s@),
            None => cell_data_for(cell_views(cells@), field_id@) == None::<Seq<char>>,
        },
{
    let ghost cs = cell_views(cells@);
    let mut i: usize = 0;
    proof {
        assert(cs.skip(0) =~= cs);
    }
    while i < cells.len()
        invariant
            i <= cells@.len(),
            cs == cell_views(cells@),
            cs.len() == cells@.len(),
            cell_data_for(cs, field_id@) == cell_data_for(cs.skip(i as int), field_id@),
        decreases cells@.len() - i,
    {
        proof {
            assert(cs.skip(i as int)[0] == cs[i as int]);
            assert(cs[i as int] == cells@[i as int]@);
            assert(cs.skip(i as int).drop_first() =~= cs.skip(i as int + 1));
        }
        if cells[i].field_id.eq(field_id) {
            return Some(cells[i].cell.data.clone());
        }
        i += 1;
    }
    proof {
        assert(cs.skip(cells@.len() as int) =~= Seq::<CellEntryView>::empty());
    }
    None
}

/// Clones a cell list, keeping its views.
pub fn clone_cells(src: &Vec<CellEntry>) -> (r: Vec<CellEntry>)
    ensures
        cell_views(r@) == cell_views(src@),
{
    let mut out: Vec<CellEntry> = Vec::new();
    let mut i: usize = 0;
    while i < src.len()
        invariant
            i <= src@.len(),
            out@.len() == i,
            forall|k: int| 0 <= k < i ==> out@[k]@ == src@[k]@,
        decreases src@.len() - i,
    {
        out.push(src[i].clone());
        i += 1;
    }
    proof {
        assert(cell_views(out@) =~= cell_views(src@));
    }
    out
}

/// One row: its id and its stored cells, keyed by field id.  A field with
/// no entry holds an empty or default cell.
#[derive(Debug, PartialEq, Eq)]
pub struct Row {
    pub id: String,
    pub cells: Vec<CellEntry>,
}

/// The mathematical image of a row.
pub struct RowView {
    pub id: Seq<char>,
    pub cells: Seq<CellEntryView>,
}

impl View for Row {
    type V = RowView;

    open spec fn view(&self) -> RowView {
        RowView { id: self.id@, cells: cell_views(self.cells@) }
    }
}

impl Clone for Row {
    fn clone(&self) -> (r: Self)
        ensures
            r@ == self@,
    {
        Row { id: self.id.clone(), cells: clone_cells(&self.cells) }
    }
}

/// The views of a row list.
pub open spec fn row_views(v: Seq<Row>) -> Seq<RowView> {
    v.map_values(|r: Row| r@)
}

/// What a new row is created from: an id and its initial cells.
#[derive(Debug, PartialEq, Eq)]
pub struct CreateRowParams {
    pub id: String,
    pub cells: Vec<CellEntry>,
}

impl CreateRowParams {
    pub fn new(id: String) -> (r: Self)
        ensures
            r.id@ == id@,
            r.cells@.len() == 0,
    {
        CreateRowParams { id, cells: Vec::new() }
    }

    /// Writes a cell, replacing the field's earlier cell.
    pub fn insert_cell(&mut self, field_id: String, cell: Cell)
        ensures
            final(self).id@ == old(self).id@,
            cell_views(final(self).cells@) == upsert_cell(
                cell_views(old(self).cells@),
                CellEntryView { field_id: field_id@, cell: cell@ },
            ),
    {
        insert_cell_entry(&mut self.cells, field_id, cell);
    }

    /// The row this creates.
    pub fn into_row(self) -> (r: Row)
        ensures
            r.id@ == self.id@,
            cell_views(r.cells@) == cell_views(self.cells@),
    {
        Row { id: self.id, cells: self.cells }
    }
}

/// Clones a row list, keeping its views.
pub fn clone_rows(src: &Vec<Row>) -> (r: Vec<Row>)
    ensures
        row_views(r@) == row_views(src@),
{
    let mut out: Vec<Row> = Vec::new();
    let mut i: usize = 0;
    while i < src.len()
        invariant
            i <= src@.len(),
            out@.len() == i,
            forall|k: int| 0 <= k < i ==> out@[k]@ == src@[k]@,
        decreases src@.len() - i,
    {
        out.push(src[i].clone());
        i += 1;
    }
    proof {
        assert(row_views(out@) =~= row_views(src@));
    }
    out
}

} // verus!
