use access_replay::error::ReplayError;
use access_replay::ingest::{
    decode_csv, decode_json, extension_of, fields_from_source, fields_of_row, input_format, member_of,
    record_from_fields,
    record_from_members, records_from_bytes, records_from_documents, records_from_table, InputFormat, RecordFields,
};
use access_replay::print::print_lines;
use access_replay::record::AccessRecord;

fn text(s: &str) -> String {
    s.to_owned()
}

fn paths(records: &[AccessRecord]) -> Vec<String> {
    records.iter().map(|record| record.path.clone()).collect()
}

const CSV: &str = "\
@timestamp,path,params,target_processing_time,domain_name,agent
2024-01-01T00:00:02.000Z,/late,?a=1,0.1,a.example,curl
2024-01-01T00:00:00.000Z,/early,,0.040,,\"x, y\"
2024-01-01T00:00:01.000Z,/middle,?b=2,3,b.example,
";

const JSON: &str = r#"
{"_index": "logs", "_source": {"@timestamp": "2024-01-01T00:00:02.000Z", "path": "/late", "params": "?a=1", "target_processing_time": 0.1, "domain_name": "a.example", "agent": "curl"}}
{"_source": {"@timestamp": "2024-01-01T00:00:00.000Z", "path": "/early", "params": null, "target_processing_time": 0.040, "other": [1, {"x": null}]}} {"_source": {"target_processing_time": 3, "domain_name": "b.example", "path": "/middle", "params": "?b=2", "@timestamp": "2024-01-01T00:00:01.000Z"}}
"#;

#[test]
fn extension_is_what_follows_the_last_dot_of_the_name() {
    assert_eq!(extension_of("logs.csv"), Some(text("csv")));
    assert_eq!(extension_of("/var/log/export.2024.json"), Some(text("json")));
    assert_eq!(extension_of("archive.tar.gz"), Some(text("gz")));
    assert_eq!(extension_of("trailing."), Some(text("")));
    assert_eq!(extension_of("dir.d/file"), None);
    assert_eq!(extension_of(".csv"), None);
    assert_eq!(extension_of("dir/.json"), None);
    assert_eq!(extension_of("plain"), None);
    assert_eq!(extension_of(""), None);
    assert_eq!(extension_of("ünï.cödé"), Some(text("cödé")));
}

#[test]
fn format_is_picked_by_extension() {
    assert_eq!(input_format("export.csv").unwrap(), InputFormat::Csv);
    assert_eq!(input_format("/data/export.json").unwrap(), InputFormat::Json);
}

#[test]
fn other_extensions_are_unsupported() {
    match input_format("export.txt") {
        Err(ReplayError::UnsupportedInput { extension }) => assert_eq!(extension, Some(text("txt"))),
        other => panic!("{:?}", other),
    }
    match input_format("export.CSV") {
        Err(ReplayError::UnsupportedInput { extension }) => assert_eq!(extension, Some(text("CSV"))),
        other => panic!("{:?}", other),
    }
    match input_format("export") {
        Err(ReplayError::UnsupportedInput { extension }) => assert_eq!(extension, None),
        other => panic!("{:?}", other),
    }
}

#[test]
fn csv_rows_become_records_in_file_order() {
    let records = decode_csv(CSV.as_bytes()).unwrap();
    assert_eq!(paths(&records), vec![text("/late"), text("/early"), text("/middle")]);
    assert_eq!(records[0].parameters, "?a=1");
    assert_eq!(records[0].domain_name, Some(text("a.example")));
    assert_eq!(records[0].required_time, 100_000_000);
    assert_eq!(records[1].parameters, "");
    assert_eq!(records[1].domain_name, None);
    assert_eq!(records[1].required_time, 40_000_000);
    assert_eq!(records[2].required_time, 3_000_000_000);
    assert_eq!(records[0].timestamp.since(&records[1].timestamp), 2_000_000_000);
}

#[test]
fn csv_without_domain_column_has_no_domains() {
    let data = "path,@timestamp,target_processing_time,params\n/x,2024-01-01T00:00:00.000Z,0.1,?a=1\n";
    let records = decode_csv(data.as_bytes()).unwrap();
    assert_eq!(records.len(), 1);
    assert_eq!(records[0].domain_name, None);
    assert_eq!(records[0].path, "/x");
    assert_eq!(records[0].parameters, "?a=1");
}

#[test]
fn empty_input_has_no_records() {
    assert!(decode_csv(b"").unwrap().is_empty());
    assert!(decode_csv(b"@timestamp,path,params,target_processing_time\n").unwrap().is_empty());
    assert!(decode_csv(b"nothing,of,use\n").unwrap().is_empty());
    assert!(decode_json(b"").unwrap().is_empty());
    assert!(decode_json(b" \n ").unwrap().is_empty());
    assert!(records_from_bytes(InputFormat::Csv, b"").unwrap().is_empty());
}

#[test]
fn csv_failure_names_the_row() {
    let bad_timestamp = "@timestamp,path,params,target_processing_time\n2024-01-01T00:00:00.000Z,/a,,0.1\nyesterday,/b,,0.1\n";
    assert!(matches!(decode_csv(bad_timestamp.as_bytes()), Err(ReplayError::RecordDecode { row: 2 })));
    let bad_time = "@timestamp,path,params,target_processing_time\n2024-01-01T00:00:00.000Z,/a,,fast\n";
    assert!(matches!(decode_csv(bad_time.as_bytes()), Err(ReplayError::RecordDecode { row: 1 })));
    let missing_column = "@timestamp,params,target_processing_time\n2024-01-01T00:00:00.000Z,,0.1\n";
    assert!(matches!(decode_csv(missing_column.as_bytes()), Err(ReplayError::RecordDecode { row: 1 })));
    let short_row = "@timestamp,path,params,target_processing_time\n2024-01-01T00:00:00.000Z,/a,,0.1\n2024-01-01T00:00:00.000Z,/b\n";
    assert!(matches!(decode_csv(short_row.as_bytes()), Err(ReplayError::RecordDecode { row: 2 })));
    let not_text = b"@timestamp,path,params,target_processing_time\n2024-01-01T00:00:00.000Z,/\xff,,0.1\n";
    assert!(matches!(decode_csv(not_text), Err(ReplayError::RecordDecode { row: 1 })));
}

#[test]
fn earlier_failure_wins() {
    let data = "@timestamp,path,params,target_processing_time\nyesterday,/a,,0.1\n2024-01-01T00:00:00.000Z,/b\n";
    assert!(matches!(decode_csv(data.as_bytes()), Err(ReplayError::RecordDecode { row: 1 })));
}

#[test]
fn table_is_decoded_by_column_names() {
    let rows = vec![
        vec![text("path"), text("x"), text("@timestamp"), text("target_processing_time"), text("path")],
        vec![text("/first"), text(""), text("2024-01-01T00:00:00.000Z"), text("1"), text("/second")],
    ];
    let records = records_from_table(&rows, true).unwrap();
    assert_eq!(paths(&records), vec![text("/first")]);
    assert!(matches!(records_from_table(&rows, false), Err(ReplayError::RecordDecode { row: 2 })));
    assert!(matches!(records_from_table(&vec![], false), Err(ReplayError::RecordDecode { row: 0 })));
    assert!(records_from_table(&vec![], true).unwrap().is_empty());
}

#[test]
fn json_objects_become_records_in_file_order() {
    let records = decode_json(JSON.as_bytes()).unwrap();
    assert_eq!(paths(&records), vec![text("/late"), text("/early"), text("/middle")]);
    assert_eq!(records[0].parameters, "?a=1");
    assert_eq!(records[0].domain_name, Some(text("a.example")));
    assert_eq!(records[0].required_time, 100_000_000);
    assert_eq!(records[1].parameters, "");
    assert_eq!(records[1].domain_name, None);
    assert_eq!(records[1].required_time, 40_000_000);
    assert_eq!(records[2].required_time, 3_000_000_000);
}

#[test]
fn json_strings_are_unescaped() {
    let data = r#"{"_source": {"@timestamp": "2024-01-01T00:00:00.000Z", "path": "\/a b\"", "params": "?q=\\", "target_processing_time": 1e-3}}"#;
    let records = decode_json(data.as_bytes()).unwrap();
    assert_eq!(records[0].path, "/a b\"");
    assert_eq!(records[0].parameters, "?q=\\");
    assert_eq!(records[0].required_time, 1_000_000);
}

#[test]
fn json_failure_names_the_object() {
    let good = r#"{"_source": {"@timestamp": "2024-01-01T00:00:00.000Z", "path": "/a", "target_processing_time": 0.1}}"#;
    let cases = [
        r#"{"_source": {"@timestamp": "2024-01-01T00:00:00.000Z", "path": "/a", "target_processing_time": "0.1"}}"#,
        r#"{"_source": {"@timestamp": "2024-01-01T00:00:00.000Z", "path": 5, "target_processing_time": 0.1}}"#,
        r#"{"_source": {"@timestamp": "2024-01-01T00:00:00.000Z", "target_processing_time": 0.1}}"#,
        r#"{"_source": {"@timestamp": "2024-01-01T00:00:00.000Z", "path": "/a", "params": 7, "target_processing_time": 0.1}}"#,
        r#"{"_source": {"@timestamp": "2024-01-01T00:00:00.000Z", "path": "/a", "domain_name": [], "target_processing_time": 0.1}}"#,
        r#"{"_source": {"@timestamp": 1704067200000, "path": "/a", "target_processing_time": 0.1}}"#,
        r#"{"_source": "flat"}"#,
        r#"{"source": {}}"#,
        r#"[1, 2]"#,
        r#"{"_source": {"@timestamp": "2024-01-01T00:00:00.000Z", "path": "/a", "target_processing_time": 0.1}"#,
    ];
    for case in cases {
        let data = format!("{}\n{}\n", good, case);
        assert!(matches!(decode_json(data.as_bytes()), Err(ReplayError::RecordDecode { row: 1 })), "{}", case);
    }
    assert!(matches!(decode_json(b"{"), Err(ReplayError::RecordDecode { row: 0 })));
}

#[test]
fn documents_are_decoded_one_by_one() {
    let good = text(r#"{"_source": {"@timestamp": "2024-01-01T00:00:00.000Z", "path": "/a", "target_processing_time": 0.1}}"#);
    let records = records_from_documents(&vec![good.clone(), good.clone()], true).unwrap();
    assert_eq!(records.len(), 2);
    assert!(matches!(
        records_from_documents(&vec![good.clone(), good.clone()], false),
        Err(ReplayError::RecordDecode { row: 2 })
    ));
    assert!(matches!(
        records_from_documents(&vec![good.clone(), text("7"), good], true),
        Err(ReplayError::RecordDecode { row: 1 })
    ));
}

#[test]
fn members_are_found_by_key() {
    let members = vec![(text("a"), text("1")), (text("b"), text("2")), (text("a"), text("3"))];
    assert_eq!(member_of(&members, "a"), Some(text("1")));
    assert_eq!(member_of(&members, "b"), Some(text("2")));
    assert_eq!(member_of(&members, "c"), None);
}

#[test]
fn source_members_become_field_texts() {
    let source = vec![
        (text("@timestamp"), text("\"2024-01-01T00:00:00.000Z\"")),
        (text("path"), text("\"/a\"")),
        (text("params"), text("null")),
        (text("target_processing_time"), text("0.25")),
    ];
    let fields = fields_from_source(&source).unwrap();
    assert_eq!(fields.timestamp, Some(text("2024-01-01T00:00:00.000Z")));
    assert_eq!(fields.path, Some(text("/a")));
    assert_eq!(fields.parameters, None);
    assert_eq!(fields.domain_name, None);
    assert_eq!(fields.required_time, Some(text("0.25")));
    let record = record_from_fields(fields).unwrap();
    assert_eq!(record.required_time, 250_000_000);
    assert!(record_from_members(None).is_none());
    assert!(record_from_members(Some(vec![(text("_source"), text("{}"))])).is_none());
}

#[test]
fn record_needs_timestamp_path_and_time() {
    let complete = || RecordFields {
        timestamp: Some(text("2024-01-01T00:00:00.000Z")),
        domain_name: Some(text("a.example")),
        path: Some(text("/a")),
        parameters: Some(text("?x")),
        required_time: Some(text("0.5")),
    };
    let record = record_from_fields(complete()).unwrap();
    assert_eq!(record.domain_name, Some(text("a.example")));
    assert_eq!(record.parameters, "?x");
    assert!(record_from_fields(RecordFields { timestamp: None, ..complete() }).is_none());
    assert!(record_from_fields(RecordFields { path: None, ..complete() }).is_none());
    assert!(record_from_fields(RecordFields { required_time: None, ..complete() }).is_none());
    assert!(record_from_fields(RecordFields { timestamp: Some(text("now")), ..complete() }).is_none());
    assert!(record_from_fields(RecordFields { required_time: Some(text("soon")), ..complete() }).is_none());
    let bare = record_from_fields(RecordFields { domain_name: None, parameters: None, ..complete() }).unwrap();
    assert_eq!(bare.domain_name, None);
    assert_eq!(bare.parameters, "");
}

#[test]
fn records_from_bytes_are_sorted_by_timestamp() {
    let from_csv = records_from_bytes(InputFormat::Csv, CSV.as_bytes()).unwrap();
    assert_eq!(paths(&from_csv), vec![text("/early"), text("/middle"), text("/late")]);
    let from_json = records_from_bytes(InputFormat::Json, JSON.as_bytes()).unwrap();
    assert_eq!(paths(&from_json), vec![text("/early"), text("/middle"), text("/late")]);
    assert!(matches!(
        records_from_bytes(InputFormat::Json, CSV.as_bytes()),
        Err(ReplayError::RecordDecode { row: 0 })
    ));
}

#[test]
fn csv_and_json_print_the_same_lines() {
    let from_csv = records_from_bytes(InputFormat::Csv, CSV.as_bytes()).unwrap();
    let from_json = records_from_bytes(InputFormat::Json, JSON.as_bytes()).unwrap();
    let lines = print_lines(&from_csv);
    assert_eq!(lines, print_lines(&from_json));
    assert_eq!(
        lines,
        vec![
            text("2024-01-01T00:00:00 UTC +       0.000 s /early"),
            text("2024-01-01T00:00:01 UTC +       1.000 s /middle?b=2"),
            text("2024-01-01T00:00:02 UTC +       1.000 s /late?a=1"),
        ]
    );
}

#[test]
fn row_fields_are_found_by_column_name() {
    let header = vec![text("params"), text("agent"), text("path"), text("domain_name"), text("@timestamp")];
    let row = vec![text(""), text("curl"), text("/a"), text("a.example"), text("now")];
    let fields = fields_of_row(&header, &row);
    assert_eq!(fields.timestamp, Some(text("now")));
    assert_eq!(fields.path, Some(text("/a")));
    assert_eq!(fields.parameters, None);
    assert_eq!(fields.domain_name, Some(text("a.example")));
    assert_eq!(fields.required_time, None);
    let short = fields_of_row(&header, &vec![text("?q"), text("curl")]);
    assert_eq!(short.parameters, Some(text("?q")));
    assert_eq!(short.path, None);
    assert_eq!(short.timestamp, None);
}

#[test]
fn processing_time_may_have_any_number_of_digits() {
    let data = "@timestamp,path,params,target_processing_time\n2024-01-01T00:00:00.000Z,/a,,0.0400000000000000008326672684688674053177237510681152\n";
    let records = decode_csv(data.as_bytes()).unwrap();
    assert_eq!(records[0].required_time, 40_000_000);
    let data = r#"{"_source": {"@timestamp": "2024-01-01T00:00:00.000Z", "path": "/a", "target_processing_time": 1.00000000000000000000000000000000000000000001E-3}}"#;
    let records = decode_json(data.as_bytes()).unwrap();
    assert_eq!(records[0].required_time, 1_000_000);
}
