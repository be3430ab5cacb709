use vstd::prelude::*;
use crate::field_type::FieldType;
use crate::type_option::{matches_field_type, PayloadView, TypeOptionPayload};

verus! {

/// A column definition: identity, display name, type tag, flags, and the
/// type-option configuration matching the tag.
#[derive(Debug, PartialEq, Eq)]
pub struct Field {
    pub id: String,
    pub name: String,
    pub field_type: FieldType,
    pub visibility: bool,
    pub is_primary: bool,
    pub type_option: TypeOptionPayload,
}

/// The mathematical image of a field.
pub struct FieldView {
    pub id: Seq<char>,
    pub name: Seq<char>,
    pub field_type: FieldType,
    pub visibility: bool,
    pub is_primary: bool,
    pub type_option: PayloadView,
}

impl View for Field {
    type V = FieldView;

    open spec fn view(&self) -> FieldView {
        FieldView {
            id: self.id@,
            name: self.name@,
            field_type: self.field_type,
            visibility: self.visibility,
            is_primary: self.is_primary,
            type_option: self.type_option@,
        }
    }
}

impl Field {
    /// A field is well formed when its configuration payload belongs to its
    /// type tag.
    pub open spec fn wf(&self) -> bool {
        matches_field_type(self.type_option, self.field_type)
    }
}

impl Clone for Field {
    fn clone(&self) -> (r: Self)
        ensures
            r@ == self@,
            r.wf() == self.wf(),
    {
        Field {
            id: self.id.clone(),
            name: self.name.clone(),
            field_type: self.field_type,
            visibility: self.visibility,
            is_primary: self.is_primary,
            type_option: self.type_option.clone(),
        }
    }
}

/// The views of a field list.
pub open spec fn field_views(v: Seq<Field>) -> Seq<FieldView> {
    v.map_values(|f: Field| f@)
}

/// Clones a field list, keeping its views.
pub fn clone_fields(src: &Vec<Field>) -> (r: Vec<Field>)
    ensures
        field_views(r@) == field_views(src@),
        r@.len() == src@.len(),
        forall|k: int| 0 <= k < src@.len() ==> r@[k].wf() == src@[k].wf(),
{
    let mut out: Vec<Field> = Vec::new();
    let mut i: usize = 0;
    while i < src.len()
        invariant
            i <= src@.len(),
            out@.len() == i,
            forall|k: int| 0 <= k < i ==> out@[k]@ == src@[k]@,
            forall|k: int| 0 <= k < i ==> out@[k].wf() == src@[k].wf(),
        decreases src@.len() - i,
    {
        out.push(src[i].clone());
        i += 1;
    }
    proof {
        assert(field_views(out@) =~= field_views(src@));
    }
    out
}

/// Builds a field step by step; identity defaults to the display name when
/// none is given, so two fields of one template stay distinct by naming
/// them distinctly.
pub struct FieldBuilder {
    pub field: Field,
}

impl FieldBuilder {
    /// Starts from a type tag with that type's default configuration.
    pub fn from_field_type(field_type: FieldType) -> (r: Self)
        ensures
            r.field.id@.len() == 0,
            r.field.name@.len() == 0,
            r.field.field_type == field_type,
            r.field.visibility == false,
            r.field.is_primary == false,
            r.field.wf(),
    {
        FieldBuilder {
            field: Field {
                id: String::new(),
                name: String::new(),
                field_type,
                visibility: false,
                is_primary: false,
                type_option: TypeOptionPayload::default_for(field_type),
            },
        }
    }

    /// Starts from a type tag and an explicit configuration of that type.
    pub fn new(field_type: FieldType, type_option: TypeOptionPayload) -> (r: Self)
        requires
            matches_field_type(type_option, field_type),
        ensures
            r.field.id@.len() == 0,
            r.field.name@.len() == 0,
            r.field.field_type == field_type,
            r.field.visibility == false,
            r.field.is_primary == false,
            r.field.type_option == type_option,
            r.field.wf(),
    {
        FieldBuilder {
            field: Field {
                id: String::new(),
                name: String::new(),
                field_type,
                visibility: false,
                is_primary: false,
                type_option,
            },
        }
    }

    pub fn id(self, id: &str) -> (r: Self)
        ensures
            r.field.id@ == id@,
            r.field.name@ == self.field.name@,
            r.field.field_type == self.field.field_type,
            r.field.visibility == self.field.visibility,
            r.field.is_primary == self.field.is_primary,
            r.field.type_option == self.field.type_option,
            r.field.wf() == self.field.wf(),
    {
        let mut f = self.field;
        f.id = id.to_owned();
        FieldBuilder { field: f }
    }

    pub fn name(self, name: &str) -> (r: Self)
        ensures
            r.field.name@ == name@,
            r.field.id@ == self.field.id@,
            r.field.field_type == self.field.field_type,
            r.field.visibility == self.field.visibility,
            r.field.is_primary == self.field.is_primary,
            r.field.type_option == self.field.type_option,
            r.field.wf() == self.field.wf(),
    {
        let mut f = self.field;
        f.name = name.to_owned();
        FieldBuilder { field: f }
    }

    pub fn visibility(self, visibility: bool) -> (r: Self)
        ensures
            r.field.visibility == visibility,
            r.field.id@ == self.field.id@,
            r.field.name@ == self.field.name@,
            r.field.field_type == self.field.field_type,
            r.field.is_primary == self.field.is_primary,
            r.field.type_option == self.field.type_option,
            r.field.wf() == self.field.wf(),
    {
        let mut f = self.field;
        f.visibility = visibility;
        FieldBuilder { field: f }
    }

    pub fn primary(self, is_primary: bool) -> (r: Self)
        ensures
            r.field.is_primary == is_primary,
            r.field.id@ == self.field.id@,
            r.field.name@ == self.field.name@,
            r.field.field_type == self.field.field_type,
            r.field.visibility == self.field.visibility,
            r.field.type_option == self.field.type_option,
            r.field.wf() == self.field.wf(),
    {
        let mut f = self.field;
        f.is_primary = is_primary;
        FieldBuilder { field: f }
    }

    /// Finishes the field; an empty id is replaced by the display name.
    pub fn build(self) -> (r: Field)
        ensures
            r.id@ == if self.field.id@.len() == 0 {
                self.field.name@
            } else {
                self.field.id@
            },
            r.name@ == self.field.name@,
            r.field_type == self.field.field_type,
            r.visibility == self.field.visibility,
            r.is_primary == self.field.is_primary,
            r.type_option == self.field.type_option,
            r.wf() == self.field.wf(),
    {
        let mut f = self.field;
        if f.id.as_str().unicode_len() == 0 {
            f.id = f.name.clone();
        }
        f
    }
}

} // verus!
