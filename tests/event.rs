use phobia::event::Event;
use phobia::http::{content_type, file_name_of, mime_or_plain};
use phobia::{Body, ConfigError, Record};

fn record(start: u32, end: u32) -> Record {
    Record {
        method: "POST".into(),
        host: "http://127.0.0.1:8080".into(),
        start,
        end,
        path: "/yolo/v2/predict".into(),
        body: Body::MULTIPART {
            path: "./tests/data/test_data.yaml".into(),
            name: "file".into(),
        },
    }
}

#[test]
fn empty_window_fires_nothing() {
    let e = Event::new(record(4, 4), 1, 2).unwrap();
    assert!(e.offsets().is_empty());
}

#[test]
fn reversed_window_fires_nothing() {
    let e = Event::new(record(6, 2), 1, 1).unwrap();
    assert!(e.offsets().is_empty());
}

#[test]
fn window_zero_to_eight_step_two() {
    let e = Event::new(record(0, 8), 1, 2).unwrap();
    assert_eq!(e.offsets(), vec![0, 2, 4, 6]);
}

#[test]
fn scaled_entry_fires_four_requests() {
    let e = Event::new(record(0, 8), 2, 2).unwrap();
    assert_eq!((e.record.start, e.record.end, e.step), (0, 4, 1));
    assert_eq!(e.offsets(), vec![0, 1, 2, 3]);
}

#[test]
fn step_not_dividing_the_window() {
    let e = Event::new(record(3, 10), 1, 3).unwrap();
    assert_eq!(e.offsets(), vec![3, 6, 9]);
}

#[test]
fn offsets_at_the_top_of_the_range() {
    let e = Event::new(record(u32::MAX - 5, u32::MAX), 1, usize::MAX).unwrap();
    assert_eq!(e.offsets(), vec![u32::MAX - 5]);
    let e = Event::new(record(u32::MAX - 3, u32::MAX), 1, 2).unwrap();
    assert_eq!(e.offsets(), vec![u32::MAX - 3, u32::MAX - 1]);
}

#[test]
fn new_rejects_bad_configuration() {
    assert_eq!(Event::new(record(0, 8), 0, 2).err(), Some(ConfigError::ZeroScale));
    assert_eq!(Event::new(record(0, 8), 3, 2).err(), Some(ConfigError::ZeroStep));
    let mut r = record(0, 8);
    r.method = "GE(T".into();
    assert_eq!(Event::new(r, 1, 1).err(), Some(ConfigError::InvalidMethod { index: 0 }));
}

#[test]
fn url_joins_host_and_path() {
    let e = Event::new(record(0, 1), 1, 1).unwrap();
    assert_eq!(e.url(), "http://127.0.0.1:8080/yolo/v2/predict");
}

#[test]
fn file_name_is_the_last_segment() {
    assert_eq!(file_name_of("./tests/data/test_data.yaml"), "test_data.yaml");
    assert_eq!(file_name_of("plain.txt"), "plain.txt");
    assert_eq!(file_name_of("/abs/dir/"), "");
    assert_eq!(file_name_of(""), "");
    assert_eq!(file_name_of("/é/ü.bin"), "ü.bin");
}

#[test]
fn content_type_is_inferred_from_leading_bytes() {
    let png = [0x89u8, 0x50, 0x4E, 0x47, 0x0D, 0x0A, 0x1A, 0x0A, 0, 0, 0, 0];
    assert_eq!(content_type(&png), "image/png");
    let pdf = b"%PDF-1.4 rest".to_vec();
    assert_eq!(content_type(&pdf), "application/pdf");
}

#[test]
fn content_type_falls_back_to_plain_text() {
    assert_eq!(content_type(b"method: POST\nhost: localhost\n"), "text/plain");
    assert_eq!(content_type(&[]), "text/plain");
}

#[test]
fn mime_or_plain_keeps_a_found_type() {
    assert_eq!(mime_or_plain(Some("image/gif".to_string())), "image/gif");
    assert_eq!(mime_or_plain(None), "text/plain");
}

#[test]
fn entries_compare_by_window_only() {
    let a = Event::new(record(1, 5), 1, 1).unwrap();
    let mut other = record(1, 5);
    other.method = "GET".into();
    other.path = "/elsewhere".into();
    let b = Event::new(other, 1, 3).unwrap();
    assert!(a == b);
    let c = Event::new(record(1, 6), 1, 1).unwrap();
    let d = Event::new(record(2, 3), 1, 1).unwrap();
    assert!(a < c);
    assert!(c < d);
    assert!(d > a);
    assert!(a != c);
    assert_eq!(a.partial_cmp(&b), Some(std::cmp::Ordering::Equal));
}
