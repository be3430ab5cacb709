use vstd::prelude::*;
use core::cmp::Ordering;
use crate::cell::TypeCellData;
use crate::error::DatabaseError;
use crate::field_type::FieldType;
use crate::filter::{select_filter_visible, SelectOptionFilter};
use crate::select_option::{
    decode_ids, join_ids, option_views, str_views, OptionView, SelectOption,
    SelectOptionCellChangeset, SelectOptionIds,
};
use crate::select_shared::{
    apply_select_changeset, cmp_ids, cmp_select_ids, delete_option, get_selected_options_from,
    insert_option, select_ids_after_changeset, selected_options, upsert_option,
};
use crate::type_option::{transform_options, transform_select_options, TypeOptionPayload};

verus! {

/// The configuration of a multi-select field: its option list.  Any number
/// of options may be selected at once.
#[derive(Debug, PartialEq, Eq)]
pub struct MultiSelectTypeOption {
    pub options: Vec<SelectOption>,
    pub disable_color: bool,
}

impl Clone for MultiSelectTypeOption {
    fn clone(&self) -> (r: Self)
        ensures
            option_views(r.options@) == option_views(self.options@),
            r.disable_color == self.disable_color,
    {
        MultiSelectTypeOption {
            options: crate::type_option::clone_options(&self.options),
            disable_color: self.disable_color,
        }
    }
}

impl Default for MultiSelectTypeOption {
    fn default() -> (r: Self)
        ensures
            r.options@.len() == 0,
            r.disable_color == false,
    {
        MultiSelectTypeOption { options: Vec::new(), disable_color: false }
    }
}

impl MultiSelectTypeOption {
    /// A multi-select field puts no bound on the number of selected ids.
    pub fn number_of_max_options(&self) -> (r: Option<usize>)
        ensures
            r == None::<usize>,
    {
        None
    }

    pub fn options(&self) -> (r: &Vec<SelectOption>)
        ensures
            r@ == self.options@,
    {
        &self.options
    }

    /// Inserts an option, replacing the first one that shares its id.
    pub fn insert_option(&mut self, option: SelectOption)
        ensures
            option_views(final(self).options@) == upsert_option(
                option_views(old(self).options@),
                option@,
            ),
            final(self).disable_color == old(self).disable_color,
    {
        insert_option(&mut self.options, option);
    }

    /// Deletes every option with the given id.
    pub fn delete_option(&mut self, id: &String)
        ensures
            option_views(final(self).options@) == option_views(old(self).options@).filter(
                |o: OptionView| o.id != id@,
            ),
            final(self).disable_color == old(self).disable_color,
    {
        delete_option(&mut self.options, id);
    }

    /// Decodes a raw cell string into selected ids; total, never an error.
    pub fn decode_type_option_cell_str(&self, cell_str: String) -> (r: Result<
        SelectOptionIds,
        DatabaseError,
    >)
        ensures
            r is Ok,
            r->Ok_0@ == decode_ids(cell_str@),
    {
        Ok(SelectOptionIds::from_cell_str(cell_str.as_str()))
    }

    /// Resolves a selection to its options, dropping stale ids.
    pub fn get_selected_options(&self, ids: &SelectOptionIds) -> (r: Vec<SelectOption>)
        ensures
            option_views(r@) == selected_options(option_views(self.options@), ids@),
    {
        get_selected_options_from(&self.options, ids)
    }

    /// Applies a changeset to the prior cell: inserts unknown to the option
    /// list are dropped, known ones union in document order without
    /// duplication, then deletions apply by exact id match.  Returns the new
    /// raw string and typed value; this path never fails.
    pub fn apply_changeset(
        &self,
        changeset: SelectOptionCellChangeset,
        type_cell_data: Option<TypeCellData>,
    ) -> (r: Result<(String, SelectOptionIds), DatabaseError>)
        ensures
            ({
                let prior = match type_cell_data {
                    None => Seq::<Seq<char>>::empty(),
                    Some(d) => decode_ids(d.cell_str@),
                };
                let ids = apply_select_changeset(
                    option_views(self.options@),
                    prior,
                    str_views(changeset.insert_option_ids@),
                    str_views(changeset.delete_option_ids@),
                );
                &&& r is Ok
                &&& r->Ok_0.1@ == ids
                &&& r->Ok_0.0@ == join_ids(ids)
            }),
    {
        let prior = match type_cell_data {
            None => SelectOptionIds::new(),
            Some(d) => SelectOptionIds::from_cell_str(d.cell_str.as_str()),
        };
        let ids = select_ids_after_changeset(&self.options, prior, &changeset);
        let raw = ids.to_string();
        Ok((raw, ids))
    }

    /// Column-sort comparison, position by position over the two selections:
    /// resolvable ids compare by display text, a stale id sorts greater,
    /// exhaustion yields the default order.
    pub fn apply_cmp(&self, cell_data: &SelectOptionIds, other_cell_data: &SelectOptionIds) -> (r:
        Ordering)
        ensures
            r == cmp_ids(option_views(self.options@), cell_data@, other_cell_data@),
    {
        cmp_select_ids(&self.options, cell_data, other_cell_data)
    }

    /// Visibility under a select filter; filters scoped to another field
    /// type never hide anything.
    pub fn apply_filter(
        &self,
        filter: &SelectOptionFilter,
        field_type: &FieldType,
        cell_data: &SelectOptionIds,
    ) -> (r: bool)
        ensures
            r == if *field_type != FieldType::MultiSelect || filter.field_type
                != FieldType::MultiSelect {
                true
            } else {
                select_filter_visible(
                    filter.condition,
                    str_views(filter.option_ids@),
                    selected_options(option_views(self.options@), cell_data@),
                )
            },
    {
        if !field_type.is_multi_select() {
            return true;
        }
        let selected = self.get_selected_options(cell_data);
        filter.is_visible(&selected, FieldType::MultiSelect)
    }

    /// Reseeds this option list from the type option the field carried
    /// before its type tag changed: a checkbox seeds its two states once, a
    /// select family copies its options into an empty list.
    pub fn transform_type_option(
        &mut self,
        old_field_type: FieldType,
        old_payload: TypeOptionPayload,
    )
        ensures
            option_views(final(self).options@) == transform_options(
                option_views(old(self).options@),
                old_field_type,
                old_payload@,
            ),
            final(self).disable_color == old(self).disable_color,
    {
        transform_select_options(&mut self.options, old_field_type, &old_payload);
    }
}

} // verus!
