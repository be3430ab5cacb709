use std::cmp::Ordering;

use flowy_database2::database::DatabaseLayout;
use flowy_database2::error::DatabaseError;
use flowy_database2::field::FieldBuilder;
use flowy_database2::field_type::FieldType;
use flowy_database2::filter::{SelectOptionFilter, SelectOptionFilterCondition};
use flowy_database2::manager::DatabaseManager2;
use flowy_database2::multi_select_type_option::MultiSelectTypeOption;
use flowy_database2::select_option::{
    SelectOption, SelectOptionCellChangeset, SelectOptionIds,
};
use flowy_database2::single_select_type_option::SingleSelectTypeOption;
use flowy_database2::template::{make_default_board, make_default_calendar, make_default_grid};
use flowy_database2::type_option::CellChangeset;

#[test]
fn select_ids_cell_codec_round_trip() {
    let ids = SelectOptionIds {
        ids: vec!["alpha".to_string(), "beta".to_string()],
    };
    let raw = ids.to_string();
    assert_eq!(raw, "alpha,beta");
    let back = SelectOptionIds::from_cell_str(&raw);
    assert_eq!(back.ids, ids.ids);
}

#[test]
fn select_ids_decode_is_total_on_malformed_input() {
    let back = SelectOptionIds::from_cell_str(",,a,,b,");
    assert_eq!(back.ids, vec!["a".to_string(), "b".to_string()]);
    assert!(SelectOptionIds::from_cell_str("").is_empty());
}

#[test]
fn multi_select_changeset_keeps_prior_and_dedups() {
    let google = SelectOption::new("Google");
    let facebook = SelectOption::new("Facebook");
    let multi_select = MultiSelectTypeOption {
        options: vec![google.clone(), facebook.clone()],
        disable_color: false,
    };
    // first insert Google
    let changeset = SelectOptionCellChangeset::from_insert_option_id(&google.id);
    let (raw, _) = multi_select.apply_changeset(changeset, None).unwrap();
    // insert Google again plus Facebook over the prior cell
    let changeset =
        SelectOptionCellChangeset::from_insert_options(vec![google.id.clone(), facebook.id.clone()]);
    let prior = flowy_database2::cell::TypeCellData::new(raw, FieldType::MultiSelect);
    let (raw2, ids2) = multi_select.apply_changeset(changeset, Some(prior)).unwrap();
    assert_eq!(ids2.ids, vec![google.id.clone(), facebook.id.clone()]);
    assert_eq!(raw2, format!("{},{}", google.id, facebook.id));
}

#[test]
fn single_select_insert_replaces_prior_selection() {
    let a = SelectOption::new("A");
    let b = SelectOption::new("B");
    let single = SingleSelectTypeOption {
        options: vec![a.clone(), b.clone()],
        disable_color: false,
    };
    let changeset = SelectOptionCellChangeset::from_insert_options(vec![
        a.id.clone(),
        b.id.clone(),
    ]);
    let (raw, ids) = single.apply_changeset(changeset, None).unwrap();
    assert_eq!(ids.ids, vec![b.id.clone()]);
    assert_eq!(raw, b.id);
}

#[test]
fn select_compare_orders_by_display_text() {
    let apricot = SelectOption::new("Apricot");
    let banana = SelectOption::new("Banana");
    let multi = MultiSelectTypeOption {
        options: vec![apricot.clone(), banana.clone()],
        disable_color: false,
    };
    let left = SelectOptionIds { ids: vec![apricot.id.clone()] };
    let right = SelectOptionIds { ids: vec![banana.id.clone()] };
    assert_eq!(multi.apply_cmp(&left, &right), Ordering::Less);
    assert_eq!(multi.apply_cmp(&right, &left), Ordering::Greater);
    assert_eq!(multi.apply_cmp(&left, &left), Ordering::Equal);
}

#[test]
fn select_compare_stale_id_sorts_greater() {
    let apricot = SelectOption::new("Apricot");
    let multi = MultiSelectTypeOption {
        options: vec![apricot.clone()],
        disable_color: false,
    };
    let resolvable = SelectOptionIds { ids: vec![apricot.id.clone()] };
    let stale = SelectOptionIds { ids: vec!["gone".to_string()] };
    assert_eq!(multi.apply_cmp(&resolvable, &stale), Ordering::Less);
    assert_eq!(multi.apply_cmp(&stale, &resolvable), Ordering::Greater);
    assert_eq!(multi.apply_cmp(&stale, &stale), Ordering::Equal);
}

#[test]
fn select_filter_scoped_to_other_type_never_hides() {
    let tag = SelectOption::new("Tag");
    let multi = MultiSelectTypeOption { options: vec![tag.clone()], disable_color: false };
    let cell = SelectOptionIds { ids: vec![] };
    let filter = SelectOptionFilter {
        field_type: FieldType::MultiSelect,
        condition: SelectOptionFilterCondition::OptionIsNotEmpty,
        option_ids: vec![],
    };
    // the field itself is a checkbox: the filter does not apply
    assert!(multi.apply_filter(&filter, &FieldType::Checkbox, &cell));
    // scoped to the field: the empty cell is hidden
    assert!(!multi.apply_filter(&filter, &FieldType::MultiSelect, &cell));
}

#[test]
fn select_filter_option_is_matches_any_selected() {
    let red = SelectOption::new("Red");
    let blue = SelectOption::new("Blue");
    let multi = MultiSelectTypeOption {
        options: vec![red.clone(), blue.clone()],
        disable_color: false,
    };
    let cell = SelectOptionIds { ids: vec![blue.id.clone()] };
    let filter = SelectOptionFilter {
        field_type: FieldType::MultiSelect,
        condition: SelectOptionFilterCondition::OptionIs,
        option_ids: vec![blue.id.clone()],
    };
    assert!(multi.apply_filter(&filter, &FieldType::MultiSelect, &cell));
    let other = SelectOptionFilter {
        field_type: FieldType::MultiSelect,
        condition: SelectOptionFilterCondition::OptionIs,
        option_ids: vec![red.id.clone()],
    };
    assert!(!multi.apply_filter(&other, &FieldType::MultiSelect, &cell));
}

#[test]
fn checkbox_cell_codec() {
    let checkbox = flowy_database2::checkbox_type_option::CheckboxTypeOption { is_selected: false };
    assert!(checkbox.decode_cell_str("Yes"));
    assert!(!checkbox.decode_cell_str("No"));
    assert!(!checkbox.decode_cell_str("anything else"));
    assert_eq!(checkbox.encode_cell_value(true), "Yes");
    assert_eq!(checkbox.encode_cell_value(false), "No");
}

#[test]
fn default_templates_have_expected_shape() {
    let grid = make_default_grid("db", "view");
    assert_eq!(grid.fields.len(), 3);
    assert_eq!(grid.created_rows.len(), 3);
    assert_eq!(grid.layout, DatabaseLayout::Grid);
    assert!(grid.fields[0].is_primary);

    let board = make_default_board("db", "view");
    assert_eq!(board.fields.len(), 2);
    assert_eq!(board.created_rows.len(), 3);
    assert_eq!(board.layout, DatabaseLayout::Board);
    assert_eq!(board.created_rows[0].cells[1].cell.data, "Card 1");

    let calendar = make_default_calendar("db", "view");
    assert_eq!(calendar.fields.len(), 3);
    assert_eq!(calendar.created_rows.len(), 0);
    assert_eq!(calendar.layout, DatabaseLayout::Calendar);
    assert_eq!(
        calendar.layout_settings.calendar.as_ref().unwrap().field_id,
        "Date"
    );
}

#[test]
fn manager_requires_initialization() {
    let mut manager = DatabaseManager2::new();
    let err = manager.get_database(&"view".to_string()).unwrap_err();
    assert_eq!(err, DatabaseError::Internal);
    assert!(manager.get_all_databases_description().is_empty());
}

#[test]
fn manager_unknown_view_is_not_found() {
    let mut manager = DatabaseManager2::new();
    manager.initialize(7).unwrap();
    let err = manager.get_database(&"nowhere".to_string()).unwrap_err();
    assert_eq!(err, DatabaseError::NotFound);
}

#[test]
fn manager_caches_one_editor_per_database() {
    let mut manager = DatabaseManager2::new();
    manager.initialize(7).unwrap();
    manager
        .create_database_with_params(make_default_grid("db1", "v1"))
        .unwrap();
    let id1 = manager.get_database(&"v1".to_string()).unwrap();
    assert_eq!(id1, "db1");
    assert_eq!(manager.editors.len(), 1);
    // a second lookup returns the same registered editor, constructing none
    let id2 = manager.get_database(&"v1".to_string()).unwrap();
    assert_eq!(id2, "db1");
    assert_eq!(manager.editors.len(), 1);
}

#[test]
fn manager_duplicate_database_id_is_rejected() {
    let mut manager = DatabaseManager2::new();
    manager.initialize(7).unwrap();
    manager
        .create_database_with_params(make_default_grid("db1", "v1"))
        .unwrap();
    let err = manager
        .create_database_with_params(make_default_grid("db1", "v2"))
        .unwrap_err();
    assert_eq!(err, DatabaseError::Validation);
}

#[test]
fn close_last_view_evicts_editor() {
    let mut manager = DatabaseManager2::new();
    manager.initialize(7).unwrap();
    manager
        .create_database_with_params(make_default_grid("db1", "v1"))
        .unwrap();
    manager.get_database(&"v1".to_string()).unwrap();
    // attach the view, then close it: the editor was serving only this view
    manager.editors[0].attach_view("v1".to_string());
    manager.close_database_view(&"v1".to_string()).unwrap();
    assert_eq!(manager.editors.len(), 0);
    // a later access constructs a fresh editor for the same database
    let id = manager.get_database(&"v1".to_string()).unwrap();
    assert_eq!(id, "db1");
    assert_eq!(manager.editors.len(), 1);
    assert!(!manager.editors[0].closed);
}

#[test]
fn editor_rejects_operations_after_close() {
    let mut manager = DatabaseManager2::new();
    manager.initialize(7).unwrap();
    manager
        .create_database_with_params(make_default_grid("db1", "v1"))
        .unwrap();
    manager.get_database(&"v1".to_string()).unwrap();
    let editor = &mut manager.editors[0];
    editor.close();
    let err = editor
        .update_cell(
            &"1".to_string(),
            &"Name".to_string(),
            &CellChangeset::Text("hello".to_string()),
        )
        .unwrap_err();
    assert_eq!(err, DatabaseError::Internal);
}

#[test]
fn editor_updates_cells_through_type_options() {
    let mut manager = DatabaseManager2::new();
    manager.initialize(7).unwrap();
    manager
        .create_database_with_params(make_default_grid("db1", "v1"))
        .unwrap();
    manager.get_database(&"v1".to_string()).unwrap();
    let editor = &mut manager.editors[0];
    editor
        .update_cell(
            &"1".to_string(),
            &"Name".to_string(),
            &CellChangeset::Text("hello".to_string()),
        )
        .unwrap();
    editor
        .update_cell(
            &"1".to_string(),
            &"Done".to_string(),
            &CellChangeset::Checkbox(true),
        )
        .unwrap();
    let row = &editor.database.rows[0];
    assert_eq!(row.cells[0].cell.data, "hello");
    assert_eq!(row.cells[1].cell.data, "Yes");
    // a changeset of the wrong family is a validation error
    let err = editor
        .update_cell(
            &"1".to_string(),
            &"Name".to_string(),
            &CellChangeset::Checkbox(true),
        )
        .unwrap_err();
    assert_eq!(err, DatabaseError::Validation);
    // an unknown row is not found
    let err = editor
        .update_cell(
            &"nope".to_string(),
            &"Name".to_string(),
            &CellChangeset::Text("x".to_string()),
        )
        .unwrap_err();
    assert_eq!(err, DatabaseError::NotFound);
}

#[test]
fn two_primary_fields_are_rejected() {
    let mut params = make_default_grid("db1", "v1");
    // mark a second column primary: the single-primary invariant is violated
    params.fields[1] = FieldBuilder::from_field_type(FieldType::SingleSelect)
        .name("Type")
        .visibility(true)
        .primary(true)
        .build();
    let mut manager = DatabaseManager2::new();
    manager.initialize(7).unwrap();
    let err = manager.create_database_with_params(params).unwrap_err();
    assert_eq!(err, DatabaseError::Validation);
}
