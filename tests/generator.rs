use phobia::generator::Generator;
use phobia::{Body, ConfigError, Record};

fn record(method: &str, start: u32, end: u32) -> Record {
    Record {
        method: method.into(),
        host: "http://localhost".into(),
        start,
        end,
        path: "/yolo/v2/predict".into(),
        body: Body::MULTIPART {
            path: "./tests/data/test_data.yaml".into(),
            name: "file".into(),
        },
    }
}

fn windows(g: &Generator) -> Vec<(u32, u32, usize)> {
    g.events()
        .iter()
        .map(|e| (e.record.start, e.record.end, e.step))
        .collect()
}

#[test]
fn test_from_records() {
    let record1 = record("POST", 0, 2);
    let record2 = record("POST", 1, 2);
    let record3 = record("POST", 0, 1);

    let records = vec![record2, record3.clone(), record1];
    let generator = Generator::from_records(records, 1, 1).unwrap();

    assert!(generator.events().get(0).unwrap().record.end == record3.end);
}

#[test]
fn built_entries_are_sorted_by_start_then_end() {
    let records = vec![
        record("POST", 5, 9),
        record("GET", 0, 8),
        record("PUT", 5, 6),
        record("POST", 0, 3),
        record("DELETE", 2, 2),
    ];
    let g = Generator::from_records(records, 1, 1).unwrap();
    assert_eq!(
        windows(&g),
        vec![(0, 3, 1), (0, 8, 1), (2, 2, 1), (5, 6, 1), (5, 9, 1)]
    );
}

#[test]
fn equal_windows_keep_their_input_order() {
    let records = vec![record("GET", 1, 4), record("PUT", 1, 4), record("POST", 0, 4)];
    let g = Generator::from_records(records, 1, 1).unwrap();
    let methods: Vec<String> = g.events().iter().map(|e| e.record.method.clone()).collect();
    assert_eq!(methods, vec!["POST".to_string(), "GET".to_string(), "PUT".to_string()]);
}

#[test]
fn scale_divides_windows_and_step_rounding_down() {
    let records = vec![record("POST", 5, 13), record("POST", 7, 7)];
    let g = Generator::from_records(records, 5, 2).unwrap();
    assert_eq!(windows(&g), vec![(2, 6, 2), (3, 3, 2)]);
}

#[test]
fn building_twice_gives_the_same_entries() {
    let make = || vec![record("POST", 6, 8), record("GET", 0, 9), record("PUT", 6, 7)];
    let a = Generator::from_records(make(), 4, 3).unwrap();
    let b = Generator::from_records(make(), 4, 3).unwrap();
    assert_eq!(windows(&a), windows(&b));
    assert_eq!(windows(&a), vec![(0, 3, 1), (2, 2, 1), (2, 2, 1)]);
}

#[test]
fn end_to_end_request_count() {
    let records = vec![record("POST", 2, 4), record("POST", 0, 8), record("POST", 0, 8)];
    let g = Generator::from_records(records, 2, 2).unwrap();
    assert_eq!(windows(&g), vec![(0, 4, 1), (0, 4, 1), (1, 2, 1)]);
    assert_eq!(g.total_requests(), 9);
}

#[test]
fn empty_input_builds_an_empty_run() {
    let g = Generator::from_records(vec![], 1, 1).unwrap();
    assert!(g.events().is_empty());
    assert_eq!(g.total_requests(), 0);
    assert!(g.release_delays().is_empty());
}

#[test]
fn zero_scale_is_rejected() {
    let r = Generator::from_records(vec![record("POST", 0, 8)], 2, 0);
    assert_eq!(r.err(), Some(ConfigError::ZeroScale));
}

#[test]
fn step_reduced_to_zero_is_rejected() {
    let r = Generator::from_records(vec![record("POST", 0, 8)], 1, 2);
    assert_eq!(r.err(), Some(ConfigError::ZeroStep));
}

#[test]
fn invalid_method_is_rejected_with_its_index() {
    let records = vec![record("POST", 0, 8), record("PO ST", 0, 8), record("", 0, 8)];
    let r = Generator::from_records(records, 1, 1);
    assert_eq!(r.err(), Some(ConfigError::InvalidMethod { index: 1 }));
    let r = Generator::from_records(vec![record("", 0, 1)], 1, 1);
    assert_eq!(r.err(), Some(ConfigError::InvalidMethod { index: 0 }));
}

#[test]
fn extension_methods_are_accepted() {
    let r = Generator::from_records(vec![record("PURGE", 0, 1), record("m-search", 0, 1)], 1, 1);
    assert!(r.is_ok());
}

#[test]
fn release_delays_advance_the_clock_to_each_start() {
    let records = vec![record("POST", 3, 4), record("POST", 0, 2), record("POST", 3, 9), record("POST", 7, 8)];
    let g = Generator::from_records(records, 1, 1).unwrap();
    let delays = g.release_delays();
    assert_eq!(delays, vec![0, 3, 0, 4]);
    let mut clock = 0u32;
    for (e, d) in g.events().iter().zip(delays.iter()) {
        clock += d;
        assert_eq!(clock, e.record.start);
    }
}

#[test]
fn release_delays_start_from_zero() {
    let g = Generator::from_records(vec![record("POST", 5, 6)], 1, 1).unwrap();
    assert_eq!(g.release_delays(), vec![5]);
}
