use file_backup_service::request::{format_request, is_ack_ok, ok_message, parse_request};

#[test]
fn request_parses_to_archive_name() {
    let name = parse_request("filename:report.tar.gz:filename".as_bytes());
    assert_eq!(name, Some(b"report.tar.gz".to_vec()));
}

#[test]
fn request_missing_prefix_is_a_violation() {
    assert_eq!(parse_request("report.tar.gz:filename".as_bytes()), None);
}

#[test]
fn request_missing_suffix_is_a_violation() {
    assert_eq!(parse_request("filename:report.tar.gz".as_bytes()), None);
}

#[test]
fn short_request_is_a_violation() {
    assert_eq!(parse_request("filename:".as_bytes()), None);
    assert_eq!(parse_request(b""), None);
}

#[test]
fn empty_name_still_parses() {
    assert_eq!(parse_request("filename::filename".as_bytes()), Some(Vec::new()));
}

#[test]
fn format_then_parse_returns_the_name() {
    let req = format_request(b"backup-2024.tar.gz");
    assert_eq!(req, "filename:backup-2024.tar.gz:filename".as_bytes().to_vec());
    assert_eq!(parse_request(&req), Some(b"backup-2024.tar.gz".to_vec()));
}

#[test]
fn acknowledgement_literal_is_ok() {
    assert_eq!(ok_message(), b"OK".to_vec());
    assert!(is_ack_ok(b"OK"));
}

#[test]
fn any_other_acknowledgement_is_a_rejection() {
    assert!(!is_ack_ok(b"NO"));
    assert!(!is_ack_ok(b"ok"));
    assert!(!is_ack_ok(b"OK "));
    assert!(!is_ack_ok(b""));
}
