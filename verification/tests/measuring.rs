use access_replay::error::{ExitStatus, ReplayError};
use access_replay::measure::{change_percentage, task_result, MeasurementRecord, Response};
use access_replay::plan::PlannedRequest;
use access_replay::record::AccessRecord;
use access_replay::schedule::{Collector, RunReport, Step, TaskEvent};
use access_replay::timestamp::Timestamp;

fn request(url: &str, required_time: i64) -> PlannedRequest {
    PlannedRequest {
        offset: 0,
        url: url.to_owned(),
        record: AccessRecord {
            timestamp: Timestamp::from_nanos(0).unwrap(),
            domain_name: None,
            path: "/".to_owned(),
            parameters: String::new(),
            required_time,
        },
    }
}

fn measured(url: &str, status: u16, elapsed: u64, original: i64) -> MeasurementRecord {
    task_result(&request(url, original), Response::Answered { status, elapsed }).unwrap()
}

fn failed(url: &str, cause: &str) -> ReplayError {
    task_result(&request(url, 1), Response::Failed { cause: cause.to_owned() }).unwrap_err()
}

fn done(step: Step) -> RunReport {
    match step {
        Step::Done(report) => report,
        Step::Wait(_) => panic!("the loop should have stopped"),
    }
}

fn waiting(step: Step) -> Collector {
    match step {
        Step::Wait(collector) => collector,
        Step::Done(_) => panic!("the loop should go on"),
    }
}

#[test]
fn success_line_has_the_five_members_in_order() {
    let record = measured("http://h/x", 200, 50_000_000, 40_000_000);
    assert_eq!(
        record.to_json_line(),
        "{\"url\":\"http://h/x\",\"status\":200,\"required_time\":0.05,\"original_time\":0.04,\"change_percentage\":25.0}\n"
    );
}

#[test]
fn success_line_is_json() {
    let record = measured("http://h/a\"b\\c\n?q=ü", 204, 1_234_567_891, -1_000_000_000);
    let line = record.to_json_line();
    assert!(line.ends_with("}\n"));
    let value: serde_json::Value = serde_json::from_str(&line).unwrap();
    assert_eq!(value["url"].as_str(), Some("http://h/a\"b\\c\n?q=ü"));
    assert_eq!(value["status"].as_u64(), Some(204));
    assert_eq!(value["required_time"].as_f64(), Some(1.234567891));
    assert_eq!(value["original_time"].as_f64(), Some(-1.0));
    assert_eq!(value["change_percentage"].as_f64(), Some(-223.4567891));
    assert!(line.starts_with("{\"url\":\"http://h/a\\\"b\\\\c\\n?q=ü\",\"status\":204,"));
}

#[test]
fn change_is_the_difference_in_percent_of_the_recorded_time() {
    assert_eq!(change_percentage(50_000_000, 40_000_000), Some(25_000_000_000));
    assert_eq!(change_percentage(40_000_000, 40_000_000), Some(0));
    assert_eq!(change_percentage(30_000_000, 40_000_000), Some(-25_000_000_000));
    assert_eq!(change_percentage(0, 40_000_000), Some(-100_000_000_000));
    assert_eq!(change_percentage(1, 3), Some(-66_666_666_666));
    assert_eq!(change_percentage(4, 3), Some(33_333_333_333));
    assert_eq!(change_percentage(1_000_000_000, -1_000_000_000), Some(-200_000_000_000));
    assert_eq!(change_percentage(u64::MAX, 1), Some(1_844_674_407_370_955_161_400_000_000_000));
    assert_eq!(change_percentage(0, i64::MIN), Some(-100_000_000_000));
}

#[test]
fn change_is_undefined_for_a_recorded_time_of_zero() {
    assert_eq!(change_percentage(50_000_000, 0), None);
    let line = measured("http://h/x", 200, 50_000_000, 0).to_json_line();
    assert_eq!(
        line,
        "{\"url\":\"http://h/x\",\"status\":200,\"required_time\":0.05,\"original_time\":0.0,\"change_percentage\":null}\n"
    );
}

#[test]
fn numbers_are_written_in_their_shortest_form() {
    let line = measured("u", 200, 1_000_000_000, 1).to_json_line();
    assert_eq!(
        line,
        "{\"url\":\"u\",\"status\":200,\"required_time\":1.0,\"original_time\":0.000000001,\"change_percentage\":99999999900.0}\n"
    );
    let line = measured("u", 201, 120_500_000_000, 100_000_000_000).to_json_line();
    assert_eq!(
        line,
        "{\"url\":\"u\",\"status\":201,\"required_time\":120.5,\"original_time\":100.0,\"change_percentage\":20.5}\n"
    );
}

#[test]
fn statuses_outside_the_success_class_are_request_failures() {
    for status in [100u16, 101, 199, 300, 301, 304, 399, 400, 404, 499, 500, 503, 599, 0, 999] {
        match task_result(&request("http://h/x", 1), Response::Answered { status, elapsed: 5 }) {
            Err(ReplayError::RequestFailure { url, cause }) => {
                assert_eq!(url, "http://h/x");
                assert_eq!(cause, format!("HTTP status {}", status));
            }
            other => panic!("{:?}", other),
        }
    }
}

#[test]
fn success_statuses_are_measured() {
    for status in [200u16, 201, 204, 250, 299] {
        let record = measured("http://h/x", status, 5, 1);
        assert_eq!(record.status, status);
        assert_eq!(record.url, "http://h/x");
        assert_eq!(record.required_time, 5);
        assert_eq!(record.original_time, 1);
        assert_eq!(record.change_percentage, Some(400_000_000_000));
    }
}

#[test]
fn failed_requests_go_to_the_diagnostics() {
    let moved = task_result(&request("http://h/moved", 1), Response::Answered { status: 304, elapsed: 5 });
    let collector = waiting(Collector::new(1).step(TaskEvent::Completed(moved)));
    let report = done(collector.step(TaskEvent::Drained));
    assert!(report.output.is_empty());
    assert_eq!(report.diagnostics, vec!["Request failed for http://h/moved: HTTP status 304".to_owned()]);
}

#[test]
fn failed_dispatch_is_a_request_failure() {
    match failed("http://h/x", "connection refused") {
        ReplayError::RequestFailure { url, cause } => {
            assert_eq!(url, "http://h/x");
            assert_eq!(cause, "connection refused");
        }
        other => panic!("{:?}", other),
    }
}

#[test]
fn messages_are_one_short_line() {
    assert_eq!(failed("http://h/x", "timeout").message(), "Request failed for http://h/x: timeout");
    assert_eq!(ReplayError::UnsupportedInput { extension: Some("txt".to_owned()) }.message(), "Unknown file extension: txt");
    assert_eq!(ReplayError::UnsupportedInput { extension: None }.message(), "Can't determine file-type");
    assert_eq!(ReplayError::IoFailure { detail: "disk".to_owned() }.message(), "I/O failure: disk");
    assert_eq!(ReplayError::BadTimestamp.message(), "Malformed timestamp");
    assert_eq!(ReplayError::RecordDecode { row: 120 }.message(), "Could not decode record 120");
    assert_eq!(ReplayError::RecordDecode { row: 0 }.message(), "Could not decode record 0");
    assert_eq!(
        ReplayError::BadConfig.message(),
        "Exactly one of scheme_and_host and scheme_and_host_mapping_file must be provided"
    );
    assert_eq!(
        ReplayError::Unmapped { domain_name: "b.example".to_owned() }.message(),
        "No mapping found for domain_name: b.example"
    );
    assert_eq!(ReplayError::EmptyPlan.message(), "No records in provided file");
    assert_eq!(ReplayError::Aborted.message(), "Aborted with CTRL-C");
}

#[test]
fn exit_codes_tell_interrupt_from_failure() {
    assert_eq!(ExitStatus::Clean.code(), 0);
    assert_eq!(ExitStatus::Interrupted.code(), 130);
    assert_eq!(ExitStatus::Failed.code(), 1);
    assert!(matches!(ReplayError::Aborted.exit_status(), ExitStatus::Interrupted));
    assert!(matches!(ReplayError::EmptyPlan.exit_status(), ExitStatus::Failed));
    assert!(matches!(ReplayError::BadConfig.exit_status(), ExitStatus::Failed));
    assert!(matches!(ReplayError::RecordDecode { row: 1 }.exit_status(), ExitStatus::Failed));
}

#[test]
fn clean_run_writes_every_result_in_order_of_completion() {
    let collector = Collector::new(3);
    assert_eq!(collector.finished(), 0);
    let collector = waiting(collector.step(TaskEvent::Completed(Ok(measured("http://h/b", 200, 2, 1)))));
    assert_eq!(collector.finished(), 1);
    let collector = waiting(collector.step(TaskEvent::Completed(Err(failed("http://h/c", "reset")))));
    let collector = waiting(collector.step(TaskEvent::Completed(Ok(measured("http://h/a", 201, 1, 1)))));
    assert_eq!(collector.finished(), 3);
    assert_eq!(collector.total, 3);
    let report = done(collector.step(TaskEvent::Drained));
    assert_eq!(
        report.output,
        vec![
            "{\"url\":\"http://h/b\",\"status\":200,\"required_time\":0.000000002,\"original_time\":0.000000001,\"change_percentage\":100.0}\n".to_owned(),
            "{\"url\":\"http://h/a\",\"status\":201,\"required_time\":0.000000001,\"original_time\":0.000000001,\"change_percentage\":0.0}\n".to_owned(),
        ]
    );
    assert_eq!(report.diagnostics, vec!["Request failed for http://h/c: reset".to_owned()]);
    assert!(report.failure.is_none());
    assert_eq!(report.exit_status().code(), 0);
}

#[test]
fn interrupt_writes_what_was_collected_and_fails() {
    let mut collector = Collector::new(100);
    for i in 0..5u64 {
        let url = format!("http://h/{}", i);
        collector = waiting(collector.step(TaskEvent::Completed(Ok(measured(&url, 200, 10, 10)))));
    }
    let report = done(collector.step(TaskEvent::Interrupted));
    assert_eq!(report.output.len(), 5);
    assert!(report.output[4].starts_with("{\"url\":\"http://h/4\","));
    assert!(report.diagnostics.is_empty());
    assert!(matches!(report.failure, Some(ReplayError::Aborted)));
    assert_eq!(report.exit_status().code(), 130);
}

#[test]
fn lost_task_writes_nothing() {
    let collector = waiting(Collector::new(2).step(TaskEvent::Completed(Ok(measured("http://h/a", 200, 1, 1)))));
    let report = done(collector.step(TaskEvent::Lost { detail: "task panicked".to_owned() }));
    assert!(report.output.is_empty());
    assert!(report.diagnostics.is_empty());
    match &report.failure {
        Some(ReplayError::IoFailure { detail }) => assert_eq!(detail, "task panicked"),
        other => panic!("{:?}", other),
    }
    assert_eq!(report.exit_status().code(), 1);
}

#[test]
fn run_without_tasks_is_clean_and_silent() {
    let report = done(Collector::new(0).step(TaskEvent::Drained));
    assert!(report.output.is_empty());
    assert!(report.diagnostics.is_empty());
    assert_eq!(report.exit_status().code(), 0);
}

#[test]
fn line_takes_the_address_as_it_is_given() {
    let record = measured("http://h/x", 200, 50_000_000, 40_000_000);
    assert_eq!(
        record.to_json_line_with("\"elsewhere\""),
        "{\"url\":\"elsewhere\",\"status\":200,\"required_time\":0.05,\"original_time\":0.04,\"change_percentage\":25.0}\n"
    );
}
