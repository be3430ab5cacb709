use vstd::prelude::*;

verus! {

/// The closed set of supported field types.  Each field carries one tag and
/// a matching type-option configuration payload.
#[derive(Clone, Copy, Debug, PartialEq, Eq, Structural)]
pub enum FieldType {
    RichText,
    Number,
    DateTime,
    SingleSelect,
    MultiSelect,
    Checkbox,
}

impl FieldType {
    pub fn is_multi_select(&self) -> (r: bool)
        ensures
            r == (*self == FieldType::MultiSelect),
    {
        match *self {
            FieldType::MultiSelect => true,
            _ => false,
        }
    }

    pub fn is_single_select(&self) -> (r: bool)
        ensures
            r == (*self == FieldType::SingleSelect),
    {
        match *self {
            FieldType::SingleSelect => true,
            _ => false,
        }
    }

    pub fn is_checkbox(&self) -> (r: bool)
        ensures
            r == (*self == FieldType::Checkbox),
    {
        match *self {
            FieldType::Checkbox => true,
            _ => false,
        }
    }
}

} // verus!
