use perfmon::{EventCounts, PerfError, RawEvent, collect_events, decode_event_name};

fn record(name: &str, value: u64) -> RawEvent {
    RawEvent { name: name.as_bytes().to_vec(), value }
}

#[test]
fn decodes_ascii_name() {
    assert_eq!(decode_event_name(b"PERF_COUNT_HW_CPU_CYCLES"), Ok("PERF_COUNT_HW_CPU_CYCLES".to_string()));
}

#[test]
fn decodes_multibyte_name() {
    assert_eq!(decode_event_name(&[0x63, 0xC3, 0xA9]), Ok("cé".to_string()));
}

#[test]
fn decodes_empty_name() {
    assert_eq!(decode_event_name(&[]), Ok(String::new()));
}

#[test]
fn rejects_invalid_byte() {
    assert_eq!(decode_event_name(&[0x61, 0xFF]), Err(PerfError::InvalidEventName));
}

#[test]
fn rejects_overlong_encoding() {
    assert_eq!(decode_event_name(&[0xC0, 0x80]), Err(PerfError::InvalidEventName));
}

#[test]
fn rejects_surrogate() {
    assert_eq!(decode_event_name(&[0xED, 0xA0, 0x80]), Err(PerfError::InvalidEventName));
}

#[test]
fn rejects_truncated_sequence() {
    assert_eq!(decode_event_name(&[0xE2, 0x82]), Err(PerfError::InvalidEventName));
}

#[test]
fn empty_counts() {
    let counts = EventCounts::new();
    assert_eq!(counts.len(), 0);
    assert_eq!(counts.get("cycles"), None);
}

#[test]
fn insert_then_get() {
    let mut counts = EventCounts::new();
    counts.insert("cycles".to_string(), 7);
    counts.insert("instructions".to_string(), 11);
    assert_eq!(counts.len(), 2);
    assert_eq!(counts.get("cycles"), Some(7));
    assert_eq!(counts.get("instructions"), Some(11));
    assert_eq!(counts.get("branches"), None);
}

#[test]
fn insert_overwrites() {
    let mut counts = EventCounts::new();
    counts.insert("cycles".to_string(), 7);
    counts.insert("cycles".to_string(), 9);
    assert_eq!(counts.len(), 1);
    assert_eq!(counts.get("cycles"), Some(9));
}

#[test]
fn collect_round_trip() {
    let records = vec![record("a", 1), record("b", 2), record("c", u64::MAX)];
    let counts = collect_events(&records).unwrap();
    assert_eq!(counts.len(), 3);
    assert_eq!(counts.get("a"), Some(1));
    assert_eq!(counts.get("b"), Some(2));
    assert_eq!(counts.get("c"), Some(u64::MAX));
}

#[test]
fn collect_duplicate_names_last_wins() {
    let records = vec![record("x", 5), record("y", 1), record("x", 8)];
    let counts = collect_events(&records).unwrap();
    assert_eq!(counts.len(), 2);
    assert_eq!(counts.get("x"), Some(8));
    assert_eq!(counts.get("y"), Some(1));
}

#[test]
fn collect_empty_records() {
    let counts = collect_events(&Vec::new()).unwrap();
    assert_eq!(counts.len(), 0);
}

#[test]
fn collect_invalid_name_fails() {
    let records = vec![record("ok", 1), RawEvent { name: vec![0x80], value: 2 }];
    assert!(matches!(collect_events(&records), Err(PerfError::InvalidEventName)));
}

#[test]
fn collect_tlb_events() {
    let records = vec![
        record("PERF_COUNT_HW_CACHE_DTLB:MISS", 4096),
        record("PERF_COUNT_HW_CACHE_ITLB:MISS", 17),
    ];
    let counts = collect_events(&records).unwrap();
    assert!(counts.get("PERF_COUNT_HW_CACHE_DTLB:MISS").unwrap() > 0);
    assert!(counts.get("PERF_COUNT_HW_CACHE_ITLB:MISS").unwrap() > 0);
}

#[test]
fn entries_hold_each_name_once() {
    let records = vec![record("x", 5), record("y", 1), record("x", 8)];
    let mut entries = collect_events(&records).unwrap().into_entries();
    entries.sort();
    assert_eq!(entries, vec![("x".to_string(), 8), ("y".to_string(), 1)]);
}
