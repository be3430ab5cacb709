use vstd::prelude::*;
use core::cmp::Ordering;
use crate::error::DatabaseError;
use crate::field_type::FieldType;
use crate::filter::{select_filter_visible, SelectOptionFilter};
use crate::select_option::{
    decode_ids, join_ids, option_views, str_views, OptionView, SelectOption,
    SelectOptionCellChangeset, SelectOptionIds,
};
use crate::select_shared::{
    cmp_ids, cmp_select_ids, delete_option, get_selected_options_from, has_option,
    has_option_exec, insert_option, selected_options, upsert_option,
};
use crate::type_option::{transform_options, transform_select_options, TypeOptionPayload};

verus! {

/// The rightmost requested id that the option list actually holds.
pub open spec fn last_valid_insert(opts: Seq<OptionView>, ins: Seq<Seq<char>>) -> Option<
    Seq<char>,
>
    decreases ins.len(),
{
    if ins.len() == 0 {
        None
    } else if has_option(opts, ins.last()) {
        Some(ins.last())
    } else {
        last_valid_insert(opts, ins.drop_last())
    }
}

/// What a single-select changeset selects: the last valid inserted id
/// replaces any prior selection; no valid insert clears it.
pub open spec fn single_select_after_changeset(
    opts: Seq<OptionView>,
    ins: Seq<Seq<char>>,
) -> Seq<Seq<char>> {
    match last_valid_insert(opts, ins) {
        Some(id) => seq![id],
        None => Seq::empty(),
    }
}

/// The configuration of a single-select field: its option list.  At most
/// one option is selected at a time.
#[derive(Debug, PartialEq, Eq)]
pub struct SingleSelectTypeOption {
    pub options: Vec<SelectOption>,
    pub disable_color: bool,
}

impl Clone for SingleSelectTypeOption {
    fn clone(&self) -> (r: Self)
        ensures
            option_views(r.options@) == option_views(self.options@),
            r.disable_color == self.disable_color,
    {
        SingleSelectTypeOption {
            options: crate::type_option::clone_options(&self.options),
            disable_color: self.disable_color,
        }
    }
}

impl Default for SingleSelectTypeOption {
    fn default() -> (r: Self)
        ensures
            r.options@.len() == 0,
            r.disable_color == false,
    {
        SingleSelectTypeOption { options: Vec::new(), disable_color: false }
    }
}

impl SingleSelectTypeOption {
    /// A single-select field holds at most one selected id.
    pub fn number_of_max_options(&self) -> (r: Option<usize>)
        ensures
            r == Some(1usize),
    {
        Some(1)
    }

    pub fn options(&self) -> (r: &Vec<SelectOption>)
        ensures
            r@ == self.options@,
    {
        &self.options
    }

    /// Inserts an option, replacing the first one that shares its id.
    pub fn insert_option(&mut self, option: SelectOption)
        ensures
            option_views(final(self).options@) == upsert_option(
                option_views(old(self).options@),
                option@,
            ),
            final(self).disable_color == old(self).disable_color,
    {
        insert_option(&mut self.options, option);
    }

    /// Deletes every option with the given id.
    pub fn delete_option(&mut self, id: &String)
        ensures
            option_views(final(self).options@) == option_views(old(self).options@).filter(
                |o: OptionView| o.id != id@,
            ),
            final(self).disable_color == old(self).disable_color,
    {
        delete_option(&mut self.options, id);
    }

    /// Decodes a raw cell string; total, never an error.
    pub fn decode_type_option_cell_str(&self, cell_str: String) -> (r: Result<
        SelectOptionIds,
        DatabaseError,
    >)
        ensures
            r is Ok,
            r->Ok_0@ == decode_ids(cell_str@),
    {
        Ok(SelectOptionIds::from_cell_str(cell_str.as_str()))
    }

    /// Resolves a selection to its options, dropping stale ids.
    pub fn get_selected_options(&self, ids: &SelectOptionIds) -> (r: Vec<SelectOption>)
        ensures
            option_views(r@) == selected_options(option_views(self.options@), ids@),
    {
        get_selected_options_from(&self.options, ids)
    }

    /// Applies a changeset: the last valid inserted id replaces any prior
    /// selection; ids the option list does not hold are dropped.
    pub fn apply_changeset(
        &self,
        changeset: SelectOptionCellChangeset,
        _type_cell_data: Option<crate::cell::TypeCellData>,
    ) -> (r: Result<(String, SelectOptionIds), DatabaseError>)
        ensures
            ({
                let ids = single_select_after_changeset(
                    option_views(self.options@),
                    str_views(changeset.insert_option_ids@),
                );
                &&& r is Ok
                &&& r->Ok_0.1@ == ids
                &&& r->Ok_0.0@ == join_ids(ids)
            }),
    {
        let ghost opts = option_views(self.options@);
        let ghost ins = str_views(changeset.insert_option_ids@);
        let mut chosen: Option<String> = None;
        let mut i: usize = 0;
        proof {
            assert(ins.take(0) =~= Seq::<Seq<char>>::empty());
        }
        while i < changeset.insert_option_ids.len()
            invariant
                i <= changeset.insert_option_ids@.len(),
                opts == option_views(self.options@),
                ins == str_views(changeset.insert_option_ids@),
                ins.len() == changeset.insert_option_ids@.len(),
                match chosen {
                    Some(c) => last_valid_insert(opts, ins.take(i as int)) == Some(c@),
                    None => last_valid_insert(opts, ins.take(i as int)) == None::<Seq<char>>,
                },
            decreases changeset.insert_option_ids@.len() - i,
        {
            proof {
                assert(ins.take(i as int + 1).drop_last() =~= ins.take(i as int));
                assert(ins.take(i as int + 1).last() == ins[i as int]);
                assert(ins[i as int] == changeset.insert_option_ids@[i as int]@);
            }
            let id = &changeset.insert_option_ids[i];
            if has_option_exec(&self.options, id) {
                chosen = Some(id.clone());
            }
            i += 1;
        }
        proof {
            assert(ins.take(ins.len() as int) =~= ins);
        }
        let ids = match chosen {
            Some(c) => {
                let mut v: Vec<String> = Vec::new();
                v.push(c);
                let r = SelectOptionIds::from_vec(v);
                proof {
                    assert(r@ =~= single_select_after_changeset(opts, ins));
                }
                r
            },
            None => SelectOptionIds::new(),
        };
        let raw = ids.to_string();
        Ok((raw, ids))
    }

    /// Column-sort comparison; shares the select comparison order.
    pub fn apply_cmp(&self, cell_data: &SelectOptionIds, other_cell_data: &SelectOptionIds) -> (r:
        Ordering)
        ensures
            r == cmp_ids(option_views(self.options@), cell_data@, other_cell_data@),
    {
        cmp_select_ids(&self.options, cell_data, other_cell_data)
    }

    /// Visibility under a select filter; filters scoped to another field
    /// type never hide anything.
    pub fn apply_filter(
        &self,
        filter: &SelectOptionFilter,
        field_type: &FieldType,
        cell_data: &SelectOptionIds,
    ) -> (r: bool)
        ensures
            r == if *field_type != FieldType::SingleSelect || filter.field_type
                != FieldType::SingleSelect {
                true
            } else {
                select_filter_visible(
                    filter.condition,
                    str_views(filter.option_ids@),
                    selected_options(option_views(self.options@), cell_data@),
                )
            },
    {
        if !field_type.is_single_select() {
            return true;
        }
        let selected = self.get_selected_options(cell_data);
        filter.is_visible(&selected, FieldType::SingleSelect)
    }

    /// Reseeds this option list from the type option the field carried
    /// before its type tag changed.
    pub fn transform_type_option(
        &mut self,
        old_field_type: FieldType,
        old_payload: TypeOptionPayload,
    )
        ensures
            option_views(final(self).options@) == transform_options(
                option_views(old(self).options@),
                old_field_type,
                old_payload@,
            ),
            final(self).disable_color == old(self).disable_color,
    {
        transform_select_options(&mut self.options, old_field_type, &old_payload);
    }
}

} // verus!
