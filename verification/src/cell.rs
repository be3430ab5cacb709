use vstd::prelude::*;
use crate::field_type::FieldType;

verus! {

/// A text cell for the given field: the raw data is the text itself.
pub fn insert_text_cell(s: String, field: &crate::field::Field) -> (r: Cell)
    ensures
        r.field_type == field.field_type,
        r.data@ == s@,
{
    Cell { field_type: field.field_type, data: s }
}

/// A select cell for the given field: the raw data joins the selected
/// option ids with the separator.
pub fn insert_select_option_cell(ids: Vec<String>, field: &crate::field::Field) -> (r: Cell)
    ensures
        r.field_type == field.field_type,
        r.data@ == crate::select_option::join_ids(crate::select_option::str_views(ids@)),
{
    Cell { field_type: field.field_type, data: crate::select_option::join_strings(&ids) }
}

/// A raw cell as read from a row: the owning field's type tag and the
/// stored string representation.
#[derive(Debug, PartialEq, Eq)]
pub struct TypeCellData {
    pub cell_str: String,
    pub field_type: FieldType,
}

impl Clone for TypeCellData {
    fn clone(&self) -> (r: Self)
        ensures
            r.cell_str@ == self.cell_str@,
            r.field_type == self.field_type,
    {
        TypeCellData { cell_str: self.cell_str.clone(), field_type: self.field_type }
    }
}

impl TypeCellData {
    pub fn new(cell_str: String, field_type: FieldType) -> (r: Self)
        ensures
            r.cell_str@ == cell_str@,
            r.field_type == field_type,
    {
        TypeCellData { cell_str, field_type }
    }
}

/// A stored cell value: the type tag it was written under and its raw data.
#[derive(Debug, PartialEq, Eq)]
pub struct Cell {
    pub field_type: FieldType,
    pub data: String,
}

impl Clone for Cell {
    fn clone(&self) -> (r: Self)
        ensures
            r.field_type == self.field_type,
            r.data@ == self.data@,
    {
        Cell { field_type: self.field_type, data: self.data.clone() }
    }
}

impl Cell {
    pub fn new(field_type: FieldType, data: String) -> (r: Self)
        ensures
            r.field_type == field_type,
            r.data@ == data@,
    {
        Cell { field_type, data }
    }
}

} // verus!
