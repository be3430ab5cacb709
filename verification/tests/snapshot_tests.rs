use flowy_database2::database::{Database, DatabaseLayout};
use flowy_database2::error::DatabaseError;
use flowy_database2::manager::DatabaseManager2;
use flowy_database2::snapshot::{from_snapshot_bytes, to_snapshot_bytes};
use flowy_database2::template::{make_default_board, make_default_calendar};

#[test]
fn snapshot_bytes_round_trip_losslessly() {
    let params = make_default_board("db1", "v1");
    let database = Database::from_params(params);
    let snapshot = database.duplicate_for_view(&"v1".to_string()).unwrap();
    let bytes = to_snapshot_bytes(&snapshot);
    let back = from_snapshot_bytes(&bytes).unwrap();
    assert_eq!(back.name, snapshot.name);
    assert_eq!(back.view.id, snapshot.view.id);
    assert_eq!(back.view.layout, snapshot.view.layout);
    assert_eq!(back.fields, snapshot.fields);
    assert_eq!(back.rows, snapshot.rows);
}

#[test]
fn snapshot_keeps_calendar_layout_settings() {
    let params = make_default_calendar("db1", "v1");
    let database = Database::from_params(params);
    let snapshot = database.duplicate_for_view(&"v1".to_string()).unwrap();
    let bytes = to_snapshot_bytes(&snapshot);
    let back = from_snapshot_bytes(&bytes).unwrap();
    let setting = back.view.layout_settings.calendar.unwrap();
    assert_eq!(setting.field_id, "Date");
    assert!(setting.show_weekends);
}

#[test]
fn duplicated_database_has_same_shape_as_original() {
    let mut manager = DatabaseManager2::new();
    manager.initialize(7).unwrap();
    manager
        .create_database_with_params(make_default_board("db1", "v1"))
        .unwrap();
    let bytes = manager.duplicate_database(&"v1".to_string()).unwrap();
    manager
        .create_database_with_data(bytes, "db2".to_string(), "v2".to_string())
        .unwrap();
    let descriptions = manager.get_all_databases_description();
    assert_eq!(descriptions.len(), 2);

    let store = manager.user_database.as_ref().unwrap();
    let original = &store.databases[0];
    let copy = &store.databases[1];
    assert_eq!(copy.id, "db2");
    assert_eq!(copy.fields.len(), original.fields.len());
    assert_eq!(copy.rows.len(), original.rows.len());
    for (a, b) in original.rows.iter().zip(copy.rows.iter()) {
        assert_eq!(a.cells, b.cells);
    }
}

#[test]
fn malformed_snapshot_bytes_are_rejected() {
    let mut manager = DatabaseManager2::new();
    manager.initialize(7).unwrap();
    let err = manager
        .create_database_with_data(vec![1, 2, 3], "db9".to_string(), "v9".to_string())
        .unwrap_err();
    assert_eq!(err, DatabaseError::Validation);
}

#[test]
fn duplicate_database_requires_known_view() {
    let mut manager = DatabaseManager2::new();
    manager.initialize(7).unwrap();
    let err = manager.duplicate_database(&"missing".to_string()).unwrap_err();
    assert_eq!(err, DatabaseError::NotFound);
}

#[test]
fn duplicated_database_under_used_id_is_rejected() {
    let mut manager = DatabaseManager2::new();
    manager.initialize(7).unwrap();
    manager
        .create_database_with_params(make_default_board("db1", "v1"))
        .unwrap();
    let bytes = manager.duplicate_database(&"v1".to_string()).unwrap();
    let err = manager
        .create_database_with_data(bytes, "db1".to_string(), "v2".to_string())
        .unwrap_err();
    assert_eq!(err, DatabaseError::Validation);
}

#[test]
fn grid_layout_tag_survives_the_wire() {
    let params = make_default_board("db1", "v1");
    let database = Database::from_params(params);
    let snapshot = database.duplicate_for_view(&"v1".to_string()).unwrap();
    let bytes = to_snapshot_bytes(&snapshot);
    let back = from_snapshot_bytes(&bytes).unwrap();
    assert_eq!(back.view.layout, DatabaseLayout::Board);
}
