use warc_indexer::archive::{
    extract_domain_from_string, file_path_to_number, read_record, ReadStats, Whitelist, WHITELIST_SIZE,
};
use warc_indexer::lemma::LemmaDictionary;
use warc_indexer::task::{archive_url, local_archive_path, next_step, ArchiveStep};
use warc_indexer::webpage::WarcRecord;

fn record(uri: &str, body: &str) -> WarcRecord {
    WarcRecord {
        date: None,
        target_uri: Some(uri.to_string()),
        identified_payload_type: None,
        content_length: None,
        body: body.as_bytes().to_vec(),
    }
}

fn whitelist(hosts: &[&str]) -> Whitelist {
    Whitelist::from_lines(&hosts.iter().map(|h| h.to_string()).collect(), WHITELIST_SIZE)
}

const ENGLISH_BODY: &str = "HTTP/1.1 200 OK\r\nContent-Type: text/html\r\n\r\n<html><head><title>News</title></head><body><p>The quick brown fox jumps over the lazy dog while the children are playing in the garden.</p></body></html>";

#[test]
fn domain_of_url() {
    assert_eq!(extract_domain_from_string("https://example.com/a?b=c").as_deref(), Some("example.com"));
    assert_eq!(extract_domain_from_string("http://Sub.Example.org:8080/"), Some("sub.example.org".to_string()));
    assert_eq!(extract_domain_from_string("not a url"), None);
    assert_eq!(extract_domain_from_string("mailto:someone@example.com"), None);
}

#[test]
fn whitelist_takes_first_lines_only() {
    let lines: Vec<String> = vec!["a.example".to_string(), "b.example".to_string(), "c.example".to_string()];
    let w = Whitelist::from_lines(&lines, 2);
    assert!(w.contains("a.example"));
    assert!(w.contains("b.example"));
    assert!(!w.contains("c.example"));
}

#[test]
fn host_outside_whitelist_is_skipped() {
    let w = whitelist(&["example.com"]);
    let mut stats = ReadStats::new();
    let r = read_record(&w, &LemmaDictionary::new(), &record("https://not-in-list.example/", ENGLISH_BODY), &mut stats);
    assert!(r.is_none());
    assert_eq!((stats.records, stats.matching, stats.kept), (1, 0, 0));
}

#[test]
fn whitelisted_english_page_is_kept() {
    let w = whitelist(&["example.com"]);
    let mut stats = ReadStats::new();
    let r = read_record(&w, &LemmaDictionary::new(), &record("https://example.com/", ENGLISH_BODY), &mut stats);
    let p = r.unwrap();
    assert!(p.text_body.is_some());
    assert_eq!((stats.records, stats.matching, stats.kept), (1, 1, 1));
}

#[test]
fn pdf_counts_as_read_not_matching() {
    let w = whitelist(&["example.com"]);
    let mut stats = ReadStats::new();
    let body = "HTTP/1.1 200 OK\r\nContent-Type: application/pdf\r\n\r\n%PDF-1.4";
    let r = read_record(&w, &LemmaDictionary::new(), &record("https://example.com/a.pdf", body), &mut stats);
    assert!(r.is_none());
    assert_eq!((stats.records, stats.matching, stats.kept), (1, 0, 0));
}

#[test]
fn page_without_text_is_not_kept() {
    let w = whitelist(&["example.com"]);
    let mut stats = ReadStats::new();
    let body = "HTTP/1.1 200 OK\r\nContent-Type: text/html\r\n\r\n<html><body></body></html>";
    let r = read_record(&w, &LemmaDictionary::new(), &record("https://example.com/", body), &mut stats);
    assert!(r.is_none());
    assert_eq!(stats.kept, 0);
}

#[test]
fn sample_due_every_thousand_records() {
    let mut stats = ReadStats::new();
    stats.records = 999;
    assert!(!stats.sample_due());
    stats.records = 1000;
    assert!(stats.sample_due());
}

#[test]
fn archive_number_from_path() {
    assert_eq!(
        file_path_to_number("warc_files/CC-MAIN-20240412101354-20240412131354-00042.warc.gz"),
        "00042"
    );
    assert_eq!(file_path_to_number("plain"), "plain");
}

#[test]
fn archive_locations() {
    let name = "crawl-data/CC-MAIN-2024-18/segments/1712296815919.75/warc/CC-MAIN-20240412101354-20240412131354-00000.warc.gz";
    assert_eq!(archive_url(name), format!("https://data.commoncrawl.org/{}", name));
    assert_eq!(
        local_archive_path(name).as_deref(),
        Some("warc_files/CC-MAIN-20240412101354-20240412131354-00000.warc.gz")
    );
    assert_eq!(local_archive_path("a/b/file").as_deref(), Some("warc_files/file.gz"));
    assert_eq!(local_archive_path("a/.hidden").as_deref(), Some("warc_files/.hidden.gz"));
    assert_eq!(local_archive_path("x/y/").as_deref(), Some("warc_files/y.gz"));
    assert_eq!(local_archive_path("x/y/./").as_deref(), Some("warc_files/y.gz"));
    assert_eq!(local_archive_path("a/.."), None);
    assert_eq!(local_archive_path("/"), None);
    assert_eq!(local_archive_path("."), None);
}

#[test]
fn task_steps() {
    let mut s = ArchiveStep::Download;
    for expected in [ArchiveStep::Read, ArchiveStep::Persist, ArchiveStep::MarkProcessed, ArchiveStep::DeleteLocalFile, ArchiveStep::Done] {
        s = next_step(s, true);
        assert_eq!(s, expected);
    }
    assert_eq!(next_step(ArchiveStep::Download, false), ArchiveStep::Failed);
    assert_eq!(next_step(ArchiveStep::Read, false), ArchiveStep::Failed);
    assert_eq!(next_step(ArchiveStep::Persist, false), ArchiveStep::Failed);
    assert_eq!(next_step(ArchiveStep::MarkProcessed, false), ArchiveStep::DeleteLocalFile);
    assert_eq!(next_step(ArchiveStep::DeleteLocalFile, false), ArchiveStep::Done);
}
