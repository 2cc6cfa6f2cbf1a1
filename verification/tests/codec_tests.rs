use hostblock::codec::{parse, serialize, ParseError};
use hostblock::domain::{Domain, DomainStatus};

fn blocked(name: &str) -> Domain {
    Domain { url: name.to_string(), status: DomainStatus::Blocked }
}

fn unblocked(name: &str) -> Domain {
    Domain { url: name.to_string(), status: DomainStatus::Unblocked }
}

#[test]
fn parse_two_entry_region() {
    let doc = "### HostBlock\n127.0.0.1\texample.com\n#127.0.0.1\tblocked-off.com\n### End HostBlock\n";
    let ds = parse(doc).unwrap();
    assert_eq!(ds.len(), 2);
    assert_eq!(ds[0].url, "example.com");
    assert_eq!(ds[0].status, DomainStatus::Blocked);
    assert_eq!(ds[1].url, "blocked-off.com");
    assert_eq!(ds[1].status, DomainStatus::Unblocked);
}

#[test]
fn parse_missing_start_marker_yields_empty() {
    let doc = "127.0.0.1\tlocalhost\nsome other line\n";
    let ds = parse(doc).unwrap();
    assert_eq!(ds.len(), 0);
}

#[test]
fn parse_start_without_end_yields_empty() {
    let doc = "### HostBlock\n127.0.0.1\texample.com\n";
    let ds = parse(doc).unwrap();
    assert_eq!(ds.len(), 0);
}

#[test]
fn parse_end_before_start_yields_empty() {
    let doc = "### End HostBlock\n### HostBlock\n";
    let ds = parse(doc).unwrap();
    assert_eq!(ds.len(), 0);
}

#[test]
fn parse_malformed_entry_is_fatal() {
    let doc = "### HostBlock\njustonetoken\n### End HostBlock\n";
    assert!(matches!(parse(doc), Err(ParseError::MalformedEntry)));
}

#[test]
fn parse_blank_region_line_is_fatal() {
    let doc = "### HostBlock\n\n### End HostBlock\n";
    assert!(matches!(parse(doc), Err(ParseError::MalformedEntry)));
}

#[test]
fn parse_ignores_tokens_after_the_second() {
    let doc = "### HostBlock\n127.0.0.1 example.com extra tokens\n### End HostBlock\n";
    let ds = parse(doc).unwrap();
    assert_eq!(ds.len(), 1);
    assert_eq!(ds[0].url, "example.com");
    assert_eq!(ds[0].status, DomainStatus::Blocked);
}

#[test]
fn parse_only_first_address_character_matters() {
    let doc = "### HostBlock\n#anything\texample.com\n### End HostBlock\n";
    let ds = parse(doc).unwrap();
    assert_eq!(ds[0].status, DomainStatus::Unblocked);
}

#[test]
fn serialize_keeps_lines_outside_the_region() {
    let doc = "before one\n### HostBlock\n127.0.0.1\told.com\n### End HostBlock\nafter one\n";
    let ds = vec![blocked("example.com"), unblocked("blocked-off.com")];
    let out = serialize(doc, &ds);
    assert_eq!(
        out,
        "before one\n### HostBlock\n127.0.0.1\texample.com\n#127.0.0.1\tblocked-off.com\n### End HostBlock\nafter one\n"
    );
}

#[test]
fn serialize_without_markers_appends_a_region() {
    let doc = "just a line\n";
    let ds = vec![blocked("example.com")];
    let out = serialize(doc, &ds);
    assert_eq!(out, "just a line\n### HostBlock\n127.0.0.1\texample.com\n### End HostBlock\n");
}

#[test]
fn serialize_empty_document_and_list() {
    let out = serialize("", &Vec::new());
    assert_eq!(out, "### HostBlock\n### End HostBlock\n");
}

#[test]
fn serialize_replaces_a_dangling_start_marker() {
    let doc = "keep\n### HostBlock\nleftover line\n";
    let out = serialize(doc, &vec![blocked("a.com")]);
    assert_eq!(out, "keep\n### HostBlock\n127.0.0.1\ta.com\n### End HostBlock\n");
}

#[test]
fn round_trip_preserves_names_statuses_and_order() {
    let doc = "x\n### HostBlock\n127.0.0.1\ta.com\n#127.0.0.1\tb.com\n127.0.0.1\tc.com\n### End HostBlock\ny\n";
    let first = parse(doc).unwrap();
    let again = parse(&serialize(doc, &first)).unwrap();
    assert_eq!(first.len(), again.len());
    for (a, b) in first.iter().zip(again.iter()) {
        assert_eq!(a.url, b.url);
        assert_eq!(a.status, b.status);
    }
}

#[test]
fn serialize_emits_domains_in_list_order() {
    let ds = vec![blocked("first.com"), blocked("second.com"), unblocked("third.com")];
    let out = serialize("", &ds);
    let first = out.find("first.com").unwrap();
    let second = out.find("second.com").unwrap();
    let third = out.find("third.com").unwrap();
    assert!(first < second && second < third);
}
