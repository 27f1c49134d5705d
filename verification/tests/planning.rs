use access_replay::error::ReplayError;
use access_replay::plan::{build_plan, requests_from_records, PlannedRequest, TimeFactor};
use access_replay::record::{sort_by_timestamp, AccessRecord};
use access_replay::resolver::{HostMapping, SchemaAndHostMapping};
use access_replay::timestamp::Timestamp;

fn text(s: &str) -> String {
    s.to_owned()
}

fn record(timestamp: &str, domain_name: Option<&str>, path: &str, parameters: &str) -> AccessRecord {
    AccessRecord {
        timestamp: Timestamp::parse(timestamp).unwrap(),
        domain_name: domain_name.map(text),
        path: text(path),
        parameters: text(parameters),
        required_time: 40_000_000,
    }
}

fn three_records() -> Vec<AccessRecord> {
    vec![
        record("2024-01-01T12:00:00.000Z", Some("a.example"), "/one", "?x=1"),
        record("2024-01-01T12:00:00.500Z", Some("b.example"), "/two", ""),
        record("2024-01-01T12:00:02.000Z", Some("a.example"), "/three", "?y=%20"),
    ]
}

fn offsets(plan: &[PlannedRequest]) -> Vec<u128> {
    plan.iter().map(|request| request.offset).collect()
}

fn urls(plan: &[PlannedRequest]) -> Vec<String> {
    plan.iter().map(|request| request.url.clone()).collect()
}

fn uniform() -> SchemaAndHostMapping {
    SchemaAndHostMapping::uniform(text("https://staging.internal"))
}

fn mapped(pairs: &[(&str, &str)]) -> SchemaAndHostMapping {
    SchemaAndHostMapping::mapping(HostMapping::new(pairs.iter().map(|(k, v)| (text(k), text(v))).collect()))
}

#[test]
fn offsets_count_from_the_first_record() {
    let plan = build_plan(&three_records(), &uniform(), &vec![], &TimeFactor::one()).unwrap();
    assert_eq!(offsets(&plan), vec![0, 500_000_000, 2_000_000_000]);
}

#[test]
fn offsets_are_scaled_by_the_factor() {
    let half = TimeFactor::parse("0.5").unwrap();
    let plan = build_plan(&three_records(), &uniform(), &vec![], &half).unwrap();
    assert_eq!(offsets(&plan), vec![0, 250_000_000, 1_000_000_000]);
    let double = TimeFactor::parse("2.0").unwrap();
    let plan = build_plan(&three_records(), &uniform(), &vec![], &double).unwrap();
    assert_eq!(offsets(&plan), vec![0, 1_000_000_000, 4_000_000_000]);
}

#[test]
fn scaled_offsets_are_plain_offsets_times_the_factor() {
    let factor = TimeFactor::parse("0.37").unwrap();
    let plain = build_plan(&three_records(), &uniform(), &vec![], &TimeFactor::one()).unwrap();
    let scaled = build_plan(&three_records(), &uniform(), &vec![], &factor).unwrap();
    assert_eq!(plain.len(), scaled.len());
    for (one, other) in plain.iter().zip(scaled.iter()) {
        assert_eq!(other.offset, one.offset * 37 / 100);
        assert_eq!(other.url, one.url);
    }
}

#[test]
fn urls_are_joined_as_they_are() {
    let plan = build_plan(&three_records(), &uniform(), &vec![], &TimeFactor::one()).unwrap();
    assert_eq!(
        urls(&plan),
        vec![
            text("https://staging.internal/one?x=1"),
            text("https://staging.internal/two"),
            text("https://staging.internal/three?y=%20"),
        ]
    );
    assert_eq!(plan[2].record.path, "/three");
    assert_eq!(plan[2].record.required_time, 40_000_000);
}

#[test]
fn ignored_hosts_get_no_request() {
    let plan = build_plan(&three_records(), &uniform(), &vec![text("a.example")], &TimeFactor::one()).unwrap();
    assert_eq!(urls(&plan), vec![text("https://staging.internal/two")]);
    assert_eq!(plan[0].record.domain_name, Some(text("b.example")));
}

#[test]
fn offsets_still_count_from_a_dropped_first_record() {
    let plan = build_plan(&three_records(), &uniform(), &vec![text("a.example")], &TimeFactor::one()).unwrap();
    assert_eq!(offsets(&plan), vec![500_000_000]);
}

#[test]
fn mapping_picks_the_host_by_domain() {
    let config = mapped(&[("a.example", "https://a"), ("b.example", "http://b:8080")]);
    let plan = build_plan(&three_records(), &config, &vec![], &TimeFactor::one()).unwrap();
    assert_eq!(
        urls(&plan),
        vec![text("https://a/one?x=1"), text("http://b:8080/two"), text("https://a/three?y=%20")]
    );
}

#[test]
fn mapping_miss_is_fatal() {
    let config = mapped(&[("a.example", "https://a")]);
    let records = vec![record("2024-01-01T12:00:00.000Z", Some("b.example"), "/x", "")];
    match build_plan(&records, &config, &vec![], &TimeFactor::one()) {
        Err(ReplayError::Unmapped { domain_name }) => assert_eq!(domain_name, "b.example"),
        other => panic!("{:?}", other),
    }
    match build_plan(&three_records(), &config, &vec![], &TimeFactor::one()) {
        Err(ReplayError::Unmapped { domain_name }) => assert_eq!(domain_name, "b.example"),
        other => panic!("{:?}", other),
    }
}

#[test]
fn ignored_unmapped_domain_is_no_miss() {
    let config = mapped(&[("a.example", "https://a")]);
    let plan = build_plan(&three_records(), &config, &vec![text("b.example")], &TimeFactor::one()).unwrap();
    assert_eq!(urls(&plan), vec![text("https://a/one?x=1"), text("https://a/three?y=%20")]);
    assert_eq!(offsets(&plan), vec![0, 2_000_000_000]);
}

#[test]
fn records_without_domain_depend_on_the_mode() {
    let records = vec![
        record("2024-01-01T12:00:00.000Z", None, "/anonymous", ""),
        record("2024-01-01T12:00:01.000Z", Some("a.example"), "/named", ""),
    ];
    let plan = build_plan(&records, &uniform(), &vec![], &TimeFactor::one()).unwrap();
    assert_eq!(urls(&plan), vec![text("https://staging.internal/anonymous"), text("https://staging.internal/named")]);
    let plan = build_plan(&records, &mapped(&[("a.example", "https://a")]), &vec![], &TimeFactor::one()).unwrap();
    assert_eq!(urls(&plan), vec![text("https://a/named")]);
    assert_eq!(offsets(&plan), vec![1_000_000_000]);
}

#[test]
fn empty_plan_is_an_error() {
    assert!(matches!(build_plan(&vec![], &uniform(), &vec![], &TimeFactor::one()), Err(ReplayError::EmptyPlan)));
    let all_ignored = build_plan(
        &three_records(),
        &uniform(),
        &vec![text("a.example"), text("b.example")],
        &TimeFactor::one(),
    );
    assert!(matches!(all_ignored, Err(ReplayError::EmptyPlan)));
    assert!(matches!(
        requests_from_records(vec![], &uniform(), &vec![], None),
        Err(ReplayError::EmptyPlan)
    ));
}

#[test]
fn bad_config_stops_the_plan() {
    let neither = SchemaAndHostMapping { scheme_and_host: None, scheme_and_host_mapping_file: None };
    assert!(matches!(
        build_plan(&three_records(), &neither, &vec![], &TimeFactor::one()),
        Err(ReplayError::BadConfig)
    ));
}

#[test]
fn requests_from_records_sorts_first() {
    let mut records = three_records();
    records.reverse();
    let plan = requests_from_records(records, &uniform(), &vec![], None).unwrap();
    assert_eq!(offsets(&plan), vec![0, 500_000_000, 2_000_000_000]);
    assert_eq!(plan[0].record.path, "/one");
    let mut records = three_records();
    records.swap(0, 2);
    let plan = requests_from_records(records, &uniform(), &vec![], TimeFactor::parse("0.5").ok()).unwrap();
    assert_eq!(offsets(&plan), vec![0, 250_000_000, 1_000_000_000]);
}

#[test]
fn sort_is_ascending_and_stable() {
    let records = vec![
        record("2024-01-01T12:00:05.000Z", None, "/a", ""),
        record("2024-01-01T12:00:01.000Z", None, "/b", ""),
        record("2024-01-01T12:00:05.000Z", None, "/c", ""),
        record("2024-01-01T12:00:00.000Z", None, "/d", ""),
        record("2024-01-01T12:00:01.000Z", None, "/e", ""),
        record("2024-01-01T12:00:05.000Z", None, "/f", ""),
    ];
    let sorted = sort_by_timestamp(records);
    let paths: Vec<&str> = sorted.iter().map(|r| r.path.as_str()).collect();
    assert_eq!(paths, vec!["/d", "/b", "/e", "/a", "/c", "/f"]);
    for pair in sorted.windows(2) {
        assert!(pair[0].timestamp.nanos() <= pair[1].timestamp.nanos());
    }
    assert!(sort_by_timestamp(vec![]).is_empty());
}

#[test]
fn sort_keeps_every_record() {
    let mut records = Vec::new();
    for i in 0..200u32 {
        let second = (i * 7919) % 60;
        let stamp = format!("2024-01-01T12:00:{:02}.000Z", second);
        records.push(record(&stamp, None, &format!("/{}", i), ""));
    }
    let sorted = sort_by_timestamp(records);
    assert_eq!(sorted.len(), 200);
    let mut seen: Vec<String> = sorted.iter().map(|r| r.path.clone()).collect();
    seen.sort();
    seen.dedup();
    assert_eq!(seen.len(), 200);
    for pair in sorted.windows(2) {
        assert!(pair[0].timestamp.nanos() <= pair[1].timestamp.nanos());
    }
}

#[test]
fn duplicate_is_a_copy() {
    let original = record("2024-01-01T12:00:05.000Z", Some("a.example"), "/a", "?q=1");
    let copy = original.duplicate();
    assert_eq!(copy.timestamp.nanos(), original.timestamp.nanos());
    assert_eq!(copy.domain_name, original.domain_name);
    assert_eq!(copy.path, original.path);
    assert_eq!(copy.parameters, original.parameters);
    assert_eq!(copy.required_time, original.required_time);
}

#[test]
fn offsets_never_decrease() {
    let mut records = Vec::new();
    for i in 0..120u32 {
        let second = (i * 7) % 60;
        let milli = (i * 131) % 1000;
        let domain = if i % 3 == 0 { "a.example" } else { "b.example" };
        let stamp = format!("2024-01-01T12:00:{:02}.{:03}Z", second, milli);
        records.push(record(&stamp, Some(domain), &format!("/{}", i), ""));
    }
    for factor in ["1", "0.5", "0.333", "2.75", "0", "1e-9"] {
        let factor = TimeFactor::parse(factor).unwrap();
        let plan = requests_from_records(
            records.iter().map(|r| r.duplicate()).collect(),
            &uniform(),
            &vec![text("a.example")],
            Some(factor),
        )
        .unwrap();
        assert_eq!(plan.len(), 80);
        for pair in plan.windows(2) {
            assert!(pair[0].offset <= pair[1].offset);
            assert!(pair[0].record.timestamp.nanos() <= pair[1].record.timestamp.nanos());
        }
    }
}

#[test]
fn first_request_of_a_kept_first_record_is_at_zero() {
    for factor in ["1", "0.5", "7"] {
        let factor = TimeFactor::parse(factor).unwrap();
        let plan = build_plan(&three_records(), &uniform(), &vec![text("b.example")], &factor).unwrap();
        assert_eq!(plan[0].offset, 0);
        assert_eq!(plan[0].record.path, "/one");
    }
}
