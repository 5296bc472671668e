use collect_logs::records::{CodePair, CodeTables, RawLogRow};
use collect_logs::resolver::{read_log_records, resolve_row, FetchError};

// 2022-08-01T00:00:00Z as a record id; offsets added to it stay within
// the same day.
const BASE_ID: i64 = 637949088000000;

fn pair(code: i64, name: &str) -> CodePair {
    CodePair { code, name: name.to_string() }
}

fn tables() -> CodeTables {
    CodeTables {
        users: vec![pair(1, "alice"), pair(2, "bob")],
        computers: vec![pair(1, "host-1")],
        apps: vec![pair(1, "Designer"), pair(2, "Enterprise")],
        events: vec![
            pair(1, "\"_$Session$_.Start\""),
            pair(2, "\"_$Job$_.Fail\""),
            pair(3, "\"_$Transaction$_.Commit\""),
        ],
        metadata_objects: vec![pair(1, "Document.Invoice")],
    }
}

fn row(id: i64) -> RawLogRow {
    RawLogRow {
        id,
        user_code: 1,
        computer_code: 1,
        app_code: 1,
        event_code: 1,
        comment: "a comment".to_string(),
        transaction_id: 7,
        transaction_status: 0,
        metadata_code: 1,
        data: "payload".to_string(),
    }
}

#[test]
fn resolves_display_names() {
    let t = tables();
    let rec = resolve_row(row(BASE_ID), &t, "srv", "base").unwrap();
    assert_eq!(rec.id, BASE_ID);
    assert_eq!(rec.user, "alice");
    assert_eq!(rec.comp, "host-1");
    assert_eq!(rec.app, "Designer");
    assert_eq!(rec.event, "Сеанс. Начало");
    assert_eq!(rec.comment, "a comment");
    assert_eq!(rec.transaction_id, 7);
    assert_eq!(rec.metadata, "Document.Invoice");
    assert_eq!(rec.data, "payload");
    assert_eq!(rec.server, "srv");
    assert_eq!(rec.database, "base");
    assert!(!rec.error);
    assert_eq!(rec.date.year, 2022);
    assert_eq!(rec.date.month, 8);
    assert_eq!(rec.date.day, 1);
}

#[test]
fn classifies_error_events() {
    // The resolved event name contains the error marker, so the record is
    // an error and its status is forced to the error label even though the
    // transaction-status code says committed.
    let t = tables();
    let mut r = row(BASE_ID);
    r.event_code = 2; // Фоновое задание. Ошибка выполнения
    r.transaction_status = 1;
    let rec = resolve_row(r, &t, "srv", "base").unwrap();
    assert!(rec.error);
    assert_eq!(rec.event, "Фоновое задание. Ошибка выполнения");
    assert_eq!(rec.transaction_status, "Зафиксирована");
    assert_eq!(rec.status, "Ошибка");
}

#[test]
fn derives_status_from_transaction_code() {
    let t = tables();
    let mut committed = row(BASE_ID);
    committed.transaction_status = 1;
    let rec = resolve_row(committed, &t, "s", "d").unwrap();
    assert_eq!(rec.status, "Зафиксирована");

    let mut rolled_back = row(BASE_ID);
    rolled_back.transaction_status = 2;
    let rec = resolve_row(rolled_back, &t, "s", "d").unwrap();
    assert_eq!(rec.status, "Отменена");

    let absent = row(BASE_ID); // code 0
    let rec = resolve_row(absent, &t, "s", "d").unwrap();
    assert_eq!(rec.status, "");
    assert_eq!(rec.transaction_status, "");

    let mut unknown = row(BASE_ID);
    unknown.transaction_status = 9;
    let rec = resolve_row(unknown, &t, "s", "d").unwrap();
    assert_eq!(rec.status, "");
}

#[test]
fn unresolved_computer_and_metadata_become_empty() {
    let t = tables();
    let mut r = row(BASE_ID);
    r.computer_code = 999;
    r.metadata_code = 999;
    let rec = resolve_row(r, &t, "s", "d").unwrap();
    assert_eq!(rec.comp, "");
    assert_eq!(rec.metadata, "");
}

#[test]
fn unresolved_user_fails_the_row() {
    let t = tables();
    let mut r = row(BASE_ID);
    r.user_code = 999;
    assert_eq!(resolve_row(r, &t, "s", "d").unwrap_err(), FetchError::UnknownUser);

    let mut r = row(BASE_ID);
    r.app_code = 999;
    assert_eq!(resolve_row(r, &t, "s", "d").unwrap_err(), FetchError::UnknownApplication);

    let mut r = row(BASE_ID);
    r.event_code = 999;
    assert_eq!(resolve_row(r, &t, "s", "d").unwrap_err(), FetchError::UnknownEvent);
}

#[test]
fn range_is_inclusive_and_descending() {
    // Records at four ids; fetching the middle two returns exactly them,
    // most recent first.
    let t = tables();
    let rows = vec![row(BASE_ID + 100), row(BASE_ID + 150), row(BASE_ID + 200), row(
        BASE_ID + 250,
    )];
    let out = read_log_records(rows, &t, BASE_ID + 150, BASE_ID + 200, "srv", "base").unwrap();
    let ids: Vec<i64> = out.iter().map(|r| r.id).collect();
    assert_eq!(ids, vec![BASE_ID + 200, BASE_ID + 150]);
}

#[test]
fn fetch_sorts_descending_whatever_the_input_order() {
    let t = tables();
    let rows = vec![row(BASE_ID + 3), row(BASE_ID + 9), row(BASE_ID + 1), row(BASE_ID + 5)];
    let out = read_log_records(rows, &t, BASE_ID, BASE_ID + 100, "srv", "base").unwrap();
    let ids: Vec<i64> = out.iter().map(|r| r.id).collect();
    assert_eq!(ids, vec![BASE_ID + 9, BASE_ID + 5, BASE_ID + 3, BASE_ID + 1]);
}

#[test]
fn fetch_fails_when_a_row_in_range_does_not_resolve() {
    let t = tables();
    let mut bad = row(BASE_ID + 10);
    bad.user_code = 999;
    let rows = vec![row(BASE_ID + 5), bad];
    let err = read_log_records(rows, &t, BASE_ID, BASE_ID + 100, "srv", "base").unwrap_err();
    assert_eq!(err, FetchError::UnknownUser);
}

#[test]
fn fetch_ignores_unresolvable_rows_outside_the_range() {
    let t = tables();
    let mut bad = row(BASE_ID + 500);
    bad.user_code = 999;
    let rows = vec![row(BASE_ID + 5), bad];
    let out = read_log_records(rows, &t, BASE_ID, BASE_ID + 100, "srv", "base").unwrap();
    assert_eq!(out.len(), 1);
    assert_eq!(out[0].id, BASE_ID + 5);
}
