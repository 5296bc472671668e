use collect_logs::codec::decode_record_id;
use collect_logs::delivery::{build_report, doc_url, failure_line, record_json, DeliveryOutcome};
use collect_logs::records::LogRecord;

// 2022-08-01T00:00:00Z as a record id.
const BASE_ID: i64 = 637949088000000;

fn record(id: i64) -> LogRecord {
    LogRecord {
        id,
        date: decode_record_id(id),
        user: "alice".to_string(),
        comp: "host-1".to_string(),
        app: "Designer".to_string(),
        event: "Сеанс. Начало".to_string(),
        comment: "plain".to_string(),
        transaction_id: 7,
        transaction_status: "".to_string(),
        metadata: "".to_string(),
        data: "".to_string(),
        error: false,
        database: "base".to_string(),
        server: "srv".to_string(),
        status: "".to_string(),
    }
}

#[test]
fn serializes_record_to_json() {
    let rec = record(BASE_ID);
    let expected = format!(
        "{{\n  \"id\": {BASE_ID},\n  \"date\": \"2022-08-01T00:00:00.000Z\",\n  \"user\": \"alice\",\n  \"comp\": \"host-1\",\n  \"app\": \"Designer\",\n  \"event\": \"Сеанс. Начало\",\n  \"comment\": \"plain\",\n  \"transaction_id\": 7,\n  \"transaction_status\": \"\",\n  \"metadata\": \"\",\n  \"data\": \"\",\n  \"error\": false,\n  \"database\": \"base\",\n  \"server\": \"srv\",\n  \"status\": \"\"\n}}"
    );
    assert_eq!(record_json(&rec), expected);
}

#[test]
fn escapes_json_text_fields() {
    let mut rec = record(BASE_ID);
    rec.comment = "say \"hi\"\\\n\tdone".to_string();
    let json = record_json(&rec);
    assert!(json.contains("\"comment\": \"say \\\"hi\\\"\\\\\\n\\tdone\""));
    rec.comment = "\u{1}".to_string();
    let json = record_json(&rec);
    assert!(json.contains("\"comment\": \"\\u0001\""));
}

#[test]
fn builds_upsert_location() {
    let url = doc_url("http://localhost:9200", "utp_logs-2022.08", 42);
    assert_eq!(url, "http://localhost:9200/utp_logs-2022.08/_doc/42");
}

#[test]
fn upsert_location_is_stable_per_id() {
    // Delivering the same record twice addresses the same document, so the
    // index holds one document per id; distinct ids address distinct
    // documents.
    let a = doc_url("http://x", "idx", BASE_ID);
    let b = doc_url("http://x", "idx", BASE_ID);
    let c = doc_url("http://x", "idx", BASE_ID + 1);
    assert_eq!(a, b);
    assert_ne!(a, c);
}

#[test]
fn formats_failure_line() {
    let rec = record(BASE_ID);
    let line = failure_line(500, &rec, "boom");
    assert_eq!(
        line,
        format!("Error: 500 : {BASE_ID} : base : 2022-08-01T00:00:00.000Z\nboom\n")
    );
}

#[test]
fn report_holds_only_the_failed_delivery() {
    // Three records; the second delivery returns HTTP 500. The report
    // holds exactly that one failure block, and the other two outcomes
    // (which were still attempted) leave no trace.
    let records = vec![record(BASE_ID + 1), record(BASE_ID + 2), record(BASE_ID + 3)];
    let outcomes = vec![
        DeliveryOutcome { status: 200, body: "ok".to_string() },
        DeliveryOutcome { status: 500, body: "server error".to_string() },
        DeliveryOutcome { status: 200, body: "ok".to_string() },
    ];
    let report = build_report(&records, &outcomes);
    assert_eq!(report, failure_line(500, &records[1], "server error"));
    assert!(report.contains(&(BASE_ID + 2).to_string()));
    assert_eq!(report.matches("Error: ").count(), 1);
}

#[test]
fn report_is_empty_when_every_delivery_succeeds() {
    let records = vec![record(BASE_ID + 1), record(BASE_ID + 2)];
    let outcomes = vec![
        DeliveryOutcome { status: 200, body: "".to_string() },
        DeliveryOutcome { status: 200, body: "".to_string() },
    ];
    assert_eq!(build_report(&records, &outcomes), "");
}

#[test]
fn report_keeps_input_order() {
    let records = vec![record(BASE_ID + 1), record(BASE_ID + 2)];
    let outcomes = vec![
        DeliveryOutcome { status: 404, body: "missing".to_string() },
        DeliveryOutcome { status: 503, body: "busy".to_string() },
    ];
    let report = build_report(&records, &outcomes);
    let expected = format!(
        "{}{}",
        failure_line(404, &records[0], "missing"),
        failure_line(503, &records[1], "busy")
    );
    assert_eq!(report, expected);
}
