use clearclip::diagnostics::{compact_timestamp, current_timestamp, export_file_name};

#[test]
fn timestamps_are_decimal() {
    let secs = current_timestamp();
    assert!(!secs.is_empty() && secs.chars().all(|c| c.is_ascii_digit()));
    assert!(secs.parse::<u64>().unwrap() > 1_600_000_000);
    let millis = compact_timestamp();
    assert!(millis.chars().all(|c| c.is_ascii_digit()));
    assert!(millis.len() >= secs.len());
}

#[test]
fn export_names() {
    let name = export_file_name();
    assert!(name.starts_with("diagnostics-export-"));
    assert!(name.ends_with(".jsonl"));
    let stamp = &name["diagnostics-export-".len()..name.len() - ".jsonl".len()];
    assert!(stamp.chars().all(|c| c.is_ascii_digit()));
}
