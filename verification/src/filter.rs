use vstd::prelude::*;
use crate::field_type::FieldType;
use crate::select_option::{contains_str, option_views, str_views, OptionView, SelectOption};

verus! {

/// The conditions a select filter can ask for.
#[derive(Clone, Copy, Debug, PartialEq, Eq, Structural)]
pub enum SelectOptionFilterCondition {
    OptionIs,
    OptionIsNot,
    OptionIsEmpty,
    OptionIsNotEmpty,
}

/// Whether some resolved selected option is among the filter's ids.
pub open spec fn selection_intersects(selected: Seq<OptionView>, ids: Seq<Seq<char>>) -> bool {
    exists|j: int| 0 <= j < selected.len() && ids.contains(selected[j].id)
}

/// The visibility a select filter grants a resolved selection.
pub open spec fn select_filter_visible(
    cond: SelectOptionFilterCondition,
    ids: Seq<Seq<char>>,
    selected: Seq<OptionView>,
) -> bool {
    match cond {
        SelectOptionFilterCondition::OptionIs => selection_intersects(selected, ids),
        SelectOptionFilterCondition::OptionIsNot => !selection_intersects(selected, ids),
        SelectOptionFilterCondition::OptionIsEmpty => selected.len() == 0,
        SelectOptionFilterCondition::OptionIsNotEmpty => selected.len() > 0,
    }
}

/// A visibility predicate over select cells, scoped to one field type.
#[derive(Debug, PartialEq, Eq)]
pub struct SelectOptionFilter {
    pub field_type: FieldType,
    pub condition: SelectOptionFilterCondition,
    pub option_ids: Vec<String>,
}

impl Clone for SelectOptionFilter {
    fn clone(&self) -> (r: Self)
        ensures
            r.field_type == self.field_type,
            r.condition == self.condition,
            str_views(r.option_ids@) == str_views(self.option_ids@),
    {
        SelectOptionFilter {
            field_type: self.field_type,
            condition: self.condition,
            option_ids: crate::select_option::clone_string_vec(&self.option_ids),
        }
    }
}

fn selection_intersects_exec(selected: &Vec<SelectOption>, ids: &Vec<String>) -> (r: bool)
    ensures
        r == selection_intersects(option_views(selected@), str_views(ids@)),
{
    let mut i: usize = 0;
    while i < selected.len()
        invariant
            i <= selected@.len(),
            forall|k: int|
                0 <= k < i ==> !str_views(ids@).contains(option_views(selected@)[k].id),
        decreases selected@.len() - i,
    {
        proof {
            assert(option_views(selected@)[i as int] == selected@[i as int]@);
        }
        if contains_str(ids, &selected[i].id) {
            return true;
        }
        i += 1;
    }
    false
}

impl SelectOptionFilter {
    /// Whether a resolved selection stays visible under this filter when the
    /// owning field has the given type.  A filter scoped to another field
    /// type never hides anything.
    pub fn is_visible(&self, selected: &Vec<SelectOption>, field_type: FieldType) -> (r: bool)
        ensures
            r == if self.field_type != field_type {
                true
            } else {
                select_filter_visible(
                    self.condition,
                    str_views(self.option_ids@),
                    option_views(selected@),
                )
            },
    {
        if self.field_type != field_type {
            return true;
        }
        match self.condition {
            SelectOptionFilterCondition::OptionIs => selection_intersects_exec(
                selected,
                &self.option_ids,
            ),
            SelectOptionFilterCondition::OptionIsNot => !selection_intersects_exec(
                selected,
                &self.option_ids,
            ),
            SelectOptionFilterCondition::OptionIsEmpty => selected.len() == 0,
            SelectOptionFilterCondition::OptionIsNotEmpty => selected.len() > 0,
        }
    }
}

} // verus!
