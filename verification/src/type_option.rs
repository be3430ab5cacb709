use vstd::prelude::*;
use crate::checkbox_type_option::CheckboxTypeOption;
use crate::field_type::FieldType;
use crate::multi_select_type_option::MultiSelectTypeOption;
use crate::error::DatabaseError;
use crate::select_option::{
    decode_ids, join_ids, option_views, str_views, OptionView, SelectOption, SelectOptionCellChangeset,
    SelectOptionColor,
};
use crate::select_shared::has_option_named;
use crate::single_select_type_option::SingleSelectTypeOption;

verus! {

/// The type-specific configuration a field carries, one variant per
/// supported field type.
#[derive(Debug, PartialEq, Eq)]
pub enum TypeOptionPayload {
    RichText,
    Number,
    DateTime,
    Checkbox(CheckboxTypeOption),
    SingleSelect(SingleSelectTypeOption),
    MultiSelect(MultiSelectTypeOption),
}

/// The mathematical image of a payload: only what a type transform reads.
pub enum PayloadView {
    Plain,
    Checkbox(bool),
    SelectOptions(Seq<OptionView>, bool),
}

impl View for TypeOptionPayload {
    type V = PayloadView;

    open spec fn view(&self) -> PayloadView {
        match *self {
            TypeOptionPayload::RichText => PayloadView::Plain,
            TypeOptionPayload::Number => PayloadView::Plain,
            TypeOptionPayload::DateTime => PayloadView::Plain,
            TypeOptionPayload::Checkbox(c) => PayloadView::Checkbox(c.is_selected),
            TypeOptionPayload::SingleSelect(s) => PayloadView::SelectOptions(
                option_views(s.options@),
                s.disable_color,
            ),
            TypeOptionPayload::MultiSelect(m) => PayloadView::SelectOptions(
                option_views(m.options@),
                m.disable_color,
            ),
        }
    }
}

impl Clone for TypeOptionPayload {
    fn clone(&self) -> (r: Self)
        ensures
            r@ == self@,
            forall|ft: FieldType| matches_field_type(r, ft) == matches_field_type(*self, ft),
    {
        match self {
            TypeOptionPayload::RichText => TypeOptionPayload::RichText,
            TypeOptionPayload::Number => TypeOptionPayload::Number,
            TypeOptionPayload::DateTime => TypeOptionPayload::DateTime,
            TypeOptionPayload::Checkbox(c) => TypeOptionPayload::Checkbox(*c),
            TypeOptionPayload::SingleSelect(s) => TypeOptionPayload::SingleSelect(s.clone()),
            TypeOptionPayload::MultiSelect(m) => TypeOptionPayload::MultiSelect(m.clone()),
        }
    }
}

impl TypeOptionPayload {
    /// The default configuration for a field type.
    pub fn default_for(field_type: FieldType) -> (r: Self)
        ensures
            field_type == FieldType::SingleSelect ==> r@ == PayloadView::SelectOptions(
                Seq::<OptionView>::empty(),
                false,
            ),
            field_type == FieldType::MultiSelect ==> r@ == PayloadView::SelectOptions(
                Seq::<OptionView>::empty(),
                false,
            ),
            field_type == FieldType::Checkbox ==> r@ == PayloadView::Checkbox(false),
            matches_field_type(r, field_type),
    {
        let r = match field_type {
            FieldType::RichText => TypeOptionPayload::RichText,
            FieldType::Number => TypeOptionPayload::Number,
            FieldType::DateTime => TypeOptionPayload::DateTime,
            FieldType::Checkbox => TypeOptionPayload::Checkbox(
                CheckboxTypeOption { is_selected: false },
            ),
            FieldType::SingleSelect => TypeOptionPayload::SingleSelect(
                SingleSelectTypeOption { options: Vec::new(), disable_color: false },
            ),
            FieldType::MultiSelect => TypeOptionPayload::MultiSelect(
                MultiSelectTypeOption { options: Vec::new(), disable_color: false },
            ),
        };
        proof {
            assert(option_views(Seq::<SelectOption>::empty()) =~= Seq::<OptionView>::empty());
        }
        r
    }
}

/// Whether a payload variant belongs to a field type tag.
pub open spec fn matches_field_type(p: TypeOptionPayload, field_type: FieldType) -> bool {
    match p {
        TypeOptionPayload::RichText => field_type == FieldType::RichText,
        TypeOptionPayload::Number => field_type == FieldType::Number,
        TypeOptionPayload::DateTime => field_type == FieldType::DateTime,
        TypeOptionPayload::Checkbox(_) => field_type == FieldType::Checkbox,
        TypeOptionPayload::SingleSelect(_) => field_type == FieldType::SingleSelect,
        TypeOptionPayload::MultiSelect(_) => field_type == FieldType::MultiSelect,
    }
}

impl From<CheckboxTypeOption> for TypeOptionPayload {
    fn from(t: CheckboxTypeOption) -> (r: Self) {
        TypeOptionPayload::Checkbox(t)
    }
}

impl vstd::std_specs::convert::FromSpecImpl<CheckboxTypeOption> for TypeOptionPayload {
    open spec fn obeys_from_spec() -> bool {
        true
    }

    open spec fn from_spec(t: CheckboxTypeOption) -> Self {
        TypeOptionPayload::Checkbox(t)
    }
}

impl From<SingleSelectTypeOption> for TypeOptionPayload {
    fn from(t: SingleSelectTypeOption) -> (r: Self) {
        TypeOptionPayload::SingleSelect(t)
    }
}

impl vstd::std_specs::convert::FromSpecImpl<SingleSelectTypeOption> for TypeOptionPayload {
    open spec fn obeys_from_spec() -> bool {
        true
    }

    open spec fn from_spec(t: SingleSelectTypeOption) -> Self {
        TypeOptionPayload::SingleSelect(t)
    }
}

impl From<MultiSelectTypeOption> for TypeOptionPayload {
    fn from(t: MultiSelectTypeOption) -> (r: Self) {
        TypeOptionPayload::MultiSelect(t)
    }
}

impl vstd::std_specs::convert::FromSpecImpl<MultiSelectTypeOption> for TypeOptionPayload {
    open spec fn obeys_from_spec() -> bool {
        true
    }

    open spec fn from_spec(t: MultiSelectTypeOption) -> Self {
        TypeOptionPayload::MultiSelect(t)
    }
}

// ---------------------------------------------------------------------------
// Type transform
// ---------------------------------------------------------------------------

/// The option seeded for a display text: id and text coincide.
pub open spec fn seeded_option(name: Seq<char>) -> OptionView {
    OptionView { id: name, name: name, color: SelectOptionColor::Purple }
}

/// Seeds an option with this display text unless one already exists.
pub open spec fn seed_named(opts: Seq<OptionView>, name: Seq<char>) -> Seq<OptionView> {
    if has_option_named(opts, name) {
        opts
    } else {
        opts.push(seeded_option(name))
    }
}

/// What transforming a select option list from an earlier field type yields:
/// a checkbox seeds its two states, another select family copies its
/// options verbatim into an empty list, everything else changes nothing.
pub open spec fn transform_options(
    cur: Seq<OptionView>,
    old_type: FieldType,
    old: PayloadView,
) -> Seq<OptionView> {
    match old {
        PayloadView::Checkbox(_) => if old_type == FieldType::Checkbox {
            seed_named(
                seed_named(cur, crate::checkbox_type_option::checked_text()),
                crate::checkbox_type_option::unchecked_text(),
            )
        } else {
            cur
        },
        PayloadView::SelectOptions(other, _) => if (old_type == FieldType::SingleSelect
            || old_type == FieldType::MultiSelect) && cur.len() == 0 {
            other
        } else {
            cur
        },
        PayloadView::Plain => cur,
    }
}

proof fn lemma_seed_named_has(opts: Seq<OptionView>, name: Seq<char>)
    ensures
        has_option_named(seed_named(opts, name), name),
{
    if !has_option_named(opts, name) {
        assert(seed_named(opts, name)[opts.len() as int] == seeded_option(name));
    }
}

proof fn lemma_seed_named_keeps(opts: Seq<OptionView>, name: Seq<char>, other: Seq<char>)
    requires
        has_option_named(opts, other),
    ensures
        has_option_named(seed_named(opts, name), other),
{
    let j = choose|j: int| 0 <= j < opts.len() && opts[j].name == other;
    assert(seed_named(opts, name)[j] == opts[j]);
}

/// The type transform is idempotent: applying it twice yields what one
/// application yields, with no duplicated seeded options.
pub proof fn lemma_transform_idempotent(cur: Seq<OptionView>, old_type: FieldType, old: PayloadView)
    ensures
        transform_options(transform_options(cur, old_type, old), old_type, old)
            == transform_options(cur, old_type, old),
{
    match old {
        PayloadView::Checkbox(_) => {
            if old_type == FieldType::Checkbox {
                let yes = crate::checkbox_type_option::checked_text();
                let no = crate::checkbox_type_option::unchecked_text();
                let once = seed_named(seed_named(cur, yes), no);
                lemma_seed_named_has(seed_named(cur, yes), no);
                lemma_seed_named_has(cur, yes);
                lemma_seed_named_keeps(seed_named(cur, yes), no, yes);
                assert(has_option_named(once, yes));
                assert(has_option_named(once, no));
                assert(seed_named(once, yes) == once);
                assert(seed_named(seed_named(once, yes), no) == once);
            }
        },
        PayloadView::SelectOptions(_, _) => {},
        PayloadView::Plain => {},
    }
}

/// Clones an option list, keeping its views.
pub fn clone_options(src: &Vec<SelectOption>) -> (r: Vec<SelectOption>)
    ensures
        option_views(r@) == option_views(src@),
{
    let mut out: Vec<SelectOption> = Vec::new();
    let mut i: usize = 0;
    while i < src.len()
        invariant
            i <= src@.len(),
            out@.len() == i,
            forall|k: int| 0 <= k < i ==> out@[k]@ == src@[k]@,
        decreases src@.len() - i,
    {
        out.push(src[i].clone());
        i += 1;
    }
    proof {
        assert(option_views(out@) =~= option_views(src@));
    }
    out
}

/// Reseeds a select option list from the type option a field carried before
/// its type tag changed.
pub fn transform_select_options(
    options: &mut Vec<SelectOption>,
    old_field_type: FieldType,
    old_payload: &TypeOptionPayload,
)
    ensures
        option_views(final(options)@) == transform_options(
            option_views(old(options)@),
            old_field_type,
            old_payload@,
        ),
{
    match old_payload {
        TypeOptionPayload::Checkbox(_) => {
            if old_field_type.is_checkbox() {
                seed_named_exec(options, "Yes");
                seed_named_exec(options, "No");
            }
        },
        TypeOptionPayload::SingleSelect(s) => {
            if (old_field_type.is_single_select() || old_field_type.is_multi_select())
                && options.len() == 0 {
                proof {
                    assert(option_views(old(options)@).len() == 0);
                }
                *options = clone_options(&s.options);
            }
        },
        TypeOptionPayload::MultiSelect(m) => {
            if (old_field_type.is_single_select() || old_field_type.is_multi_select())
                && options.len() == 0 {
                proof {
                    assert(option_views(old(options)@).len() == 0);
                }
                *options = clone_options(&m.options);
            }
        },
        _ => {},
    }
}

/// Appends a seeded option with this display text unless one exists.
fn seed_named_exec(options: &mut Vec<SelectOption>, name: &str)
    ensures
        option_views(final(options)@) == seed_named(option_views(old(options)@), name@),
{
    let ghost opts0 = option_views(old(options)@);
    let mut i: usize = 0;
    while i < options.len()
        invariant
            i <= options@.len(),
            options@ == old(options)@,
            opts0 == option_views(options@),
            opts0.len() == options@.len(),
            forall|k: int| 0 <= k < i ==> opts0[k].name != name@,
        decreases options@.len() - i,
    {
        proof {
            assert(opts0[i as int] == options@[i as int]@);
        }
        let same = crate::order::str_cmp(options[i].name.as_str(), name);
        proof {
            crate::order::lemma_cmp_chars_equal_iff(options@[i as int].name@, name@);
        }
        match same {
            core::cmp::Ordering::Equal => {
                proof {
                    assert(opts0[i as int].name == name@);
                    assert(has_option_named(opts0, name@));
                }
                return ;
            },
            _ => {},
        }
        i += 1;
    }
    proof {
        assert(!has_option_named(opts0, name@));
    }
    let o = crate::select_option::SelectOption::new(name);
    proof {
        assert(o@ == seeded_option(name@));
        assert(option_views(old(options)@.push(o)) =~= opts0.push(o@));
    }
    options.push(o);
}

// ---------------------------------------------------------------------------
// Cell changeset dispatch
// ---------------------------------------------------------------------------

/// A requested cell mutation, typed per field family.
#[derive(Debug, PartialEq, Eq)]
pub enum CellChangeset {
    Text(String),
    Checkbox(bool),
    SelectOption(SelectOptionCellChangeset),
}

/// The mathematical image of a cell changeset.
pub enum ChangesetImage {
    Text(Seq<char>),
    Checkbox(bool),
    SelectOption(Seq<Seq<char>>, Seq<Seq<char>>),
}

impl View for CellChangeset {
    type V = ChangesetImage;

    open spec fn view(&self) -> ChangesetImage {
        match self {
            CellChangeset::Text(s) => ChangesetImage::Text(s@),
            CellChangeset::Checkbox(b) => ChangesetImage::Checkbox(*b),
            CellChangeset::SelectOption(c) => ChangesetImage::SelectOption(
                str_views(c.insert_option_ids@),
                str_views(c.delete_option_ids@),
            ),
        }
    }
}

/// Whether a changeset variant belongs to a configuration payload.
pub open spec fn changeset_applies(p: TypeOptionPayload, c: ChangesetImage) -> bool {
    match (p, c) {
        (TypeOptionPayload::RichText, ChangesetImage::Text(_)) => true,
        (TypeOptionPayload::Number, ChangesetImage::Text(_)) => true,
        (TypeOptionPayload::DateTime, ChangesetImage::Text(_)) => true,
        (TypeOptionPayload::Checkbox(_), ChangesetImage::Checkbox(_)) => true,
        (TypeOptionPayload::SingleSelect(_), ChangesetImage::SelectOption(_, _)) => true,
        (TypeOptionPayload::MultiSelect(_), ChangesetImage::SelectOption(_, _)) => true,
        _ => false,
    }
}

/// The raw cell string an applicable changeset produces over a prior raw
/// cell value.
pub open spec fn changeset_result(
    p: TypeOptionPayload,
    c: ChangesetImage,
    prior: Seq<char>,
) -> Seq<char> {
    match (p, c) {
        (_, ChangesetImage::Text(s)) => s,
        (_, ChangesetImage::Checkbox(b)) => if b {
            crate::checkbox_type_option::checked_text()
        } else {
            crate::checkbox_type_option::unchecked_text()
        },
        (TypeOptionPayload::SingleSelect(s), ChangesetImage::SelectOption(ins, _)) => join_ids(
            crate::single_select_type_option::single_select_after_changeset(
                option_views(s.options@),
                ins,
            ),
        ),
        (TypeOptionPayload::MultiSelect(m), ChangesetImage::SelectOption(ins, dels)) => join_ids(
            crate::select_shared::apply_select_changeset(
                option_views(m.options@),
                decode_ids(prior),
                ins,
                dels,
            ),
        ),
        _ => prior,
    }
}

/// Applies a changeset through a field's configuration payload, returning
/// the new raw cell string; the editor itself holds no field-type-specific
/// logic.  A changeset of the wrong family is rejected as a validation
/// error.
pub fn apply_changeset_to_payload(
    payload: &TypeOptionPayload,
    prior: Option<String>,
    changeset: &CellChangeset,
) -> (r: Result<String, DatabaseError>)
    ensures
        ({
            let prior_view = match prior {
                Some(s) => s@,
                None => Seq::<char>::empty(),
            };
            &&& r is Ok <==> changeset_applies(*payload, changeset@)
            &&& r is Ok ==> r->Ok_0@ == changeset_result(*payload, changeset@, prior_view)
            &&& r is Err ==> r->Err_0 == DatabaseError::Validation
        }),
{
    match (payload, changeset) {
        (TypeOptionPayload::RichText, CellChangeset::Text(s)) => Ok(s.clone()),
        (TypeOptionPayload::Number, CellChangeset::Text(s)) => Ok(s.clone()),
        (TypeOptionPayload::DateTime, CellChangeset::Text(s)) => Ok(s.clone()),
        (TypeOptionPayload::Checkbox(c), CellChangeset::Checkbox(b)) => Ok(
            c.encode_cell_value(*b),
        ),
        (TypeOptionPayload::SingleSelect(s), CellChangeset::SelectOption(ch)) => {
            match s.apply_changeset(ch.clone(), None) {
                Ok(p) => Ok(p.0),
                Err(e) => Err(e),
            }
        },
        (TypeOptionPayload::MultiSelect(m), CellChangeset::SelectOption(ch)) => {
            let prior_cell = match prior {
                Some(s) => Some(
                    crate::cell::TypeCellData::new(s, crate::field_type::FieldType::MultiSelect),
                ),
                None => None,
            };
            match m.apply_changeset(ch.clone(), prior_cell) {
                Ok(p) => Ok(p.0),
                Err(e) => Err(e),
            }
        },
        _ => Err(DatabaseError::Validation),
    }
}

} // verus!
