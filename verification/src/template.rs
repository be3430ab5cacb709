use vstd::prelude::*;
use crate::cell::{insert_select_option_cell, insert_text_cell};
use crate::database::{
    CalendarLayoutSetting, CalendarSettingView, CreateDatabaseParams, DatabaseLayout,
    LayoutSettings,
};
use crate::field::FieldBuilder;
use crate::field_type::FieldType;
use crate::row::{cell_views, CellEntryView, CellView, CreateRowParams};
use crate::select_option::{SelectOption, SelectOptionColor};
use crate::type_option::TypeOptionPayload;

verus! {

/// The default grid: a primary text column, a single-select column and a
/// checkbox column over three empty rows.
pub fn make_default_grid(database_id: &str, view_id: &str) -> (r: CreateDatabaseParams)
    ensures
        r.database_id@ == database_id@,
        r.view_id@ == view_id@,
        r.name@ == "Untitled"@,
        r.layout == DatabaseLayout::Grid,
        r.layout_settings@ == None::<CalendarSettingView>,
        r.filters@.len() == 0,
        r.groups@.len() == 0,
        r.sorts@.len() == 0,
        r.created_rows@.len() == 3,
        forall|k: int| 0 <= k < 3 ==> r.created_rows@[k].cells@.len() == 0,
        r.created_rows@[0].id@ == "1"@,
        r.created_rows@[1].id@ == "2"@,
        r.created_rows@[2].id@ == "3"@,
        r.fields@.len() == 3,
        r.fields@[0].id@ == "Name"@ && r.fields@[0].name@ == "Name"@
            && r.fields@[0].field_type == FieldType::RichText && r.fields@[0].is_primary
            && r.fields@[0].visibility,
        r.fields@[1].id@ == "Type"@ && r.fields@[1].name@ == "Type"@
            && r.fields@[1].field_type == FieldType::SingleSelect && !r.fields@[1].is_primary
            && r.fields@[1].visibility,
        r.fields@[2].id@ == "Done"@ && r.fields@[2].name@ == "Done"@
            && r.fields@[2].field_type == FieldType::Checkbox && !r.fields@[2].is_primary
            && r.fields@[2].visibility,
        forall|k: int| 0 <= k < 3 ==> (#[trigger] r.fields@[k]).wf(),
{
    let text_field = FieldBuilder::from_field_type(FieldType::RichText)
        .name("Name")
        .visibility(true)
        .primary(true)
        .build();

    let single_select = FieldBuilder::from_field_type(FieldType::SingleSelect)
        .name("Type")
        .visibility(true)
        .build();

    let checkbox_field = FieldBuilder::from_field_type(FieldType::Checkbox)
        .name("Done")
        .visibility(true)
        .build();

    let mut created_rows: Vec<CreateRowParams> = Vec::new();
    created_rows.push(CreateRowParams::new("1".to_owned()));
    created_rows.push(CreateRowParams::new("2".to_owned()));
    created_rows.push(CreateRowParams::new("3".to_owned()));

    let mut fields: Vec<crate::field::Field> = Vec::new();
    fields.push(text_field);
    fields.push(single_select);
    fields.push(checkbox_field);

    CreateDatabaseParams {
        database_id: database_id.to_owned(),
        view_id: view_id.to_owned(),
        name: "Untitled".to_owned(),
        layout: DatabaseLayout::Grid,
        layout_settings: LayoutSettings::default(),
        filters: Vec::new(),
        groups: Vec::new(),
        sorts: Vec::new(),
        created_rows,
        fields,
    }
}


/// One card of the default board: its status cell, then its text cell.
fn make_board_row(
    row_id: &str,
    card_text: &str,
    select_field: &crate::field::Field,
    text_field: &crate::field::Field,
    to_do_id: &String,
) -> (r: CreateRowParams)
    requires
        select_field.id@ != text_field.id@,
    ensures
        r.id@ == row_id@,
        cell_views(r.cells@) == seq![
            CellEntryView {
                field_id: select_field.id@,
                cell: CellView { field_type: select_field.field_type, data: to_do_id@ },
            },
            CellEntryView {
                field_id: text_field.id@,
                cell: CellView { field_type: text_field.field_type, data: card_text@ },
            },
        ],
{
    let mut row = CreateRowParams::new(row_id.to_owned());
    let mut ids: Vec<String> = Vec::new();
    ids.push(to_do_id.clone());
    proof {
        assert(crate::select_option::str_views(ids@) =~= seq![to_do_id@]);
        assert(crate::select_option::join_ids(seq![to_do_id@]) =~= to_do_id@);
    }
    let select_cell = insert_select_option_cell(ids, select_field);
    row.insert_cell(select_field.id.clone(), select_cell);
    let text_cell = insert_text_cell(card_text.to_owned(), text_field);
    row.insert_cell(text_field.id.clone(), text_cell);
    proof {
        let e1 = CellEntryView {
            field_id: select_field.id@,
            cell: CellView { field_type: select_field.field_type, data: to_do_id@ },
        };
        let e2 = CellEntryView {
            field_id: text_field.id@,
            cell: CellView { field_type: text_field.field_type, data: card_text@ },
        };
        assert(crate::row::upsert_cell(Seq::<CellEntryView>::empty(), e1) =~= seq![e1]);
        assert(seq![e1][0].field_id == select_field.id@);
        assert(seq![e1].drop_first() =~= Seq::<CellEntryView>::empty());
        assert(crate::row::upsert_cell(Seq::<CellEntryView>::empty(), e2) =~= seq![e2]);
        assert(seq![seq![e1][0]] + seq![e2] =~= seq![e1, e2]);
        assert(crate::row::upsert_cell(seq![e1], e2) =~= seq![e1, e2]);
    }
    row
}

/// The default board: a primary text column and a single-select status
/// column seeded with three states, over three cards starting in the first
/// state.
pub fn make_default_board(database_id: &str, view_id: &str) -> (r: CreateDatabaseParams)
    ensures
        r.database_id@ == database_id@,
        r.view_id@ == view_id@,
        r.name@ == "Untitled"@,
        r.layout == DatabaseLayout::Board,
        r.layout_settings@ == None::<CalendarSettingView>,
        r.filters@.len() == 0,
        r.groups@.len() == 0,
        r.sorts@.len() == 0,
        r.fields@.len() == 2,
        r.fields@[0].id@ == "Description"@ && r.fields@[0].name@ == "Description"@
            && r.fields@[0].field_type == FieldType::RichText && r.fields@[0].is_primary
            && r.fields@[0].visibility,
        r.fields@[1].id@ == "Status"@ && r.fields@[1].name@ == "Status"@
            && r.fields@[1].field_type == FieldType::SingleSelect && !r.fields@[1].is_primary
            && r.fields@[1].visibility,
        match r.fields@[1].type_option {
            TypeOptionPayload::SingleSelect(s) => {
                &&& s.options@.len() == 3
                &&& s.options@[0].id@ == "To Do"@ && s.options@[0].name@ == "To Do"@
                    && s.options@[0].color == SelectOptionColor::Purple
                &&& s.options@[1].id@ == "Doing"@ && s.options@[1].name@ == "Doing"@
                    && s.options@[1].color == SelectOptionColor::Orange
                &&& s.options@[2].id@ == "Done"@ && s.options@[2].name@ == "Done"@
                    && s.options@[2].color == SelectOptionColor::Yellow
            },
            _ => false,
        },
        r.created_rows@.len() == 3,
        r.created_rows@[0].id@ == "1"@,
        r.created_rows@[1].id@ == "2"@,
        r.created_rows@[2].id@ == "3"@,
        forall|k: int|
            0 <= k < 3 ==> (#[trigger] cell_views(r.created_rows@[k].cells@)).len() == 2,
        forall|k: int|
            0 <= k < 3 ==> (#[trigger] cell_views(r.created_rows@[k].cells@))[0].field_id
                == "Status"@ && cell_views(r.created_rows@[k].cells@)[0].cell.field_type
                == FieldType::SingleSelect && cell_views(r.created_rows@[k].cells@)[0].cell.data
                == "To Do"@,
        cell_views(r.created_rows@[0].cells@)[1].cell.data == "Card 1"@,
        cell_views(r.created_rows@[1].cells@)[1].cell.data == "Card 2"@,
        cell_views(r.created_rows@[2].cells@)[1].cell.data == "Card 3"@,
        forall|k: int|
            0 <= k < 3 ==> (#[trigger] cell_views(r.created_rows@[k].cells@))[1].field_id
                == "Description"@ && cell_views(r.created_rows@[k].cells@)[1].cell.field_type
                == FieldType::RichText,
{
    let text_field = FieldBuilder::from_field_type(FieldType::RichText)
        .name("Description")
        .visibility(true)
        .primary(true)
        .build();
    let text_field_id = text_field.id.clone();

    let to_do_option = SelectOption::with_color("To Do", SelectOptionColor::Purple);
    let doing_option = SelectOption::with_color("Doing", SelectOptionColor::Orange);
    let done_option = SelectOption::with_color("Done", SelectOptionColor::Yellow);
    let to_do_id = to_do_option.id.clone();
    let mut options: Vec<SelectOption> = Vec::new();
    options.push(to_do_option);
    options.push(doing_option);
    options.push(done_option);
    let single_select_type_option = crate::single_select_type_option::SingleSelectTypeOption {
        options,
        disable_color: false,
    };
    let single_select = FieldBuilder::new(
        FieldType::SingleSelect,
        TypeOptionPayload::SingleSelect(single_select_type_option),
    ).name("Status").visibility(true).build();
    let single_select_field_id = single_select.id.clone();

    proof {
        reveal_strlit("Status");
        reveal_strlit("Description");
        assert("Status"@.len() == 6);
        assert("Description"@.len() == 11);
    }
    let mut rows: Vec<CreateRowParams> = Vec::new();
    rows.push(make_board_row("1", "Card 1", &single_select, &text_field, &to_do_id));
    rows.push(make_board_row("2", "Card 2", &single_select, &text_field, &to_do_id));
    rows.push(make_board_row("3", "Card 3", &single_select, &text_field, &to_do_id));

    let mut fields: Vec<crate::field::Field> = Vec::new();
    fields.push(text_field);
    fields.push(single_select);

    CreateDatabaseParams {
        database_id: database_id.to_owned(),
        view_id: view_id.to_owned(),
        name: "Untitled".to_owned(),
        layout: DatabaseLayout::Board,
        layout_settings: LayoutSettings::default(),
        filters: Vec::new(),
        groups: Vec::new(),
        sorts: Vec::new(),
        created_rows: rows,
        fields,
    }
}

/// The default calendar: a primary text column, a date column that drives
/// the calendar layout, and a multi-select tag column, with no rows.
pub fn make_default_calendar(database_id: &str, view_id: &str) -> (r: CreateDatabaseParams)
    ensures
        r.database_id@ == database_id@,
        r.view_id@ == view_id@,
        r.name@ == "Untitled"@,
        r.layout == DatabaseLayout::Calendar,
        r.layout_settings@ == Some(
            CalendarSettingView {
                field_id: "Date"@,
                first_day_of_week: 0u8,
                show_weekends: true,
                show_week_numbers: false,
            },
        ),
        r.filters@.len() == 0,
        r.groups@.len() == 0,
        r.sorts@.len() == 0,
        r.created_rows@.len() == 0,
        r.fields@.len() == 3,
        r.fields@[0].id@ == "Title"@ && r.fields@[0].name@ == "Title"@
            && r.fields@[0].field_type == FieldType::RichText && r.fields@[0].is_primary
            && r.fields@[0].visibility,
        r.fields@[1].id@ == "Date"@ && r.fields@[1].name@ == "Date"@
            && r.fields@[1].field_type == FieldType::DateTime && !r.fields@[1].is_primary
            && r.fields@[1].visibility,
        r.fields@[2].id@ == "Tags"@ && r.fields@[2].name@ == "Tags"@
            && r.fields@[2].field_type == FieldType::MultiSelect && !r.fields@[2].is_primary
            && r.fields@[2].visibility,
{
    let text_field = FieldBuilder::from_field_type(FieldType::RichText)
        .name("Title")
        .visibility(true)
        .primary(true)
        .build();

    let date_field = FieldBuilder::from_field_type(FieldType::DateTime)
        .name("Date")
        .visibility(true)
        .build();
    let date_field_id = date_field.id.clone();

    let multi_select_field = FieldBuilder::from_field_type(FieldType::MultiSelect)
        .name("Tags")
        .visibility(true)
        .build();

    let mut layout_settings = LayoutSettings::default();
    layout_settings.insert(
        DatabaseLayout::Calendar,
        CalendarLayoutSetting::new(date_field_id),
    );

    let mut fields: Vec<crate::field::Field> = Vec::new();
    fields.push(text_field);
    fields.push(date_field);
    fields.push(multi_select_field);

    CreateDatabaseParams {
        database_id: database_id.to_owned(),
        view_id: view_id.to_owned(),
        name: "Untitled".to_owned(),
        layout: DatabaseLayout::Calendar,
        layout_settings,
        filters: Vec::new(),
        groups: Vec::new(),
        sorts: Vec::new(),
        created_rows: Vec::new(),
        fields,
    }
}

} // verus!
