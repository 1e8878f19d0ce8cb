use warc_indexer::lemma::LemmaDictionary;
use warc_indexer::persist::{batch_vocabulary, keyword_ids, keyword_occurrences, website_row};
use warc_indexer::webpage::{scan_http_response, Language, ParseError, WarcRecord, Webpage};

fn record(uri: &str, body: &str) -> WarcRecord {
    WarcRecord {
        date: Some("2024-04-12T10:13:54Z".to_string()),
        target_uri: Some(uri.to_string()),
        identified_payload_type: Some("text/html".to_string()),
        content_length: Some(body.len().to_string()),
        body: body.as_bytes().to_vec(),
    }
}

const HAPPY_BODY: &str = "HTTP/1.1 200 OK\r\nContent-Type: text/html\r\n\r\n<html><head><title>T</title></head><body><p>hello world hello</p><a href=\"/x\">x</a></body></html>";

const ENGLISH_BODY: &str = "HTTP/1.1 200 OK\r\nContent-Type: text/html; charset=utf-8\r\n\r\n<html><head><title>News</title></head>\r\n<body><p>The quick brown fox jumps over the lazy dog while the children are playing in the garden.</p>\r\n<script>var x = 1;</script><a href=\"https://other.example/page\">more</a></body></html>\r\n";

fn empty_dictionary() -> LemmaDictionary {
    LemmaDictionary::new()
}

#[test]
fn single_page_is_parsed() {
    let r = Webpage::parse_record(&record("https://example.com/", HAPPY_BODY), &empty_dictionary());
    let p = match r {
        Ok(Some(p)) => p,
        Ok(None) => panic!("page was dropped"),
        Err(e) => panic!("{}", e.to_message()),
    };
    assert_eq!(p.title.as_deref(), Some("T"));
    assert_eq!(p.warc_target_uri.as_deref(), Some("https://example.com/"));
    assert_eq!(p.links, Some(vec!["https://example.com/x".to_string()]));
    assert_eq!(p.status_code, Some(200));
    assert_eq!(p.content_type.as_deref(), Some("text/html"));
    assert_eq!(p.lang, Some(Language::Eng));
    assert_eq!(p.text_body.as_deref(), Some("Thello world hello\nx"));
    let lemmas = p.lemmatised_text.clone().unwrap();
    assert_eq!(lemmas, vec!["thello", "world", "hello", "x"]);
    assert_eq!(p.description, None);
    assert!(website_row(&p).is_none());
    assert_eq!(batch_vocabulary(&vec![p.clone()]).len(), 0);
    let ids = keyword_ids(&vec![(1, "hello".to_string()), (2, "world".to_string()), (3, "thello".to_string()), (4, "x".to_string())]);
    let rows: Vec<(i64, u64)> = keyword_occurrences(&p, 10, &ids).iter().map(|r| (r.keyword_id, r.occurrences)).collect();
    assert_eq!(rows, vec![(1, 1), (3, 1), (2, 1), (4, 1)]);
}

#[test]
fn page_with_description_is_ingestible() {
    let body = "HTTP/1.1 200 OK\r\nContent-Type: text/html\r\n\r\n<html><head><title>T</title></head><body><p>hello world hello</p><description>D</description><a href=\"/x\">x</a></body></html>";
    let p = Webpage::parse_record(&record("https://example.com/", body), &empty_dictionary()).ok().flatten().unwrap();
    assert_eq!(p.description.as_deref(), Some("D"));
    assert_eq!(p.lemmatised_text.clone().unwrap(), vec!["thello", "world", "hello", "dx"]);
    let row = website_row(&p).unwrap();
    assert_eq!((row.title.as_str(), row.url.as_str(), row.word_count), ("T", "https://example.com/", 4));
    let v = batch_vocabulary(&vec![p]);
    assert_eq!(v.get(b"hello"), Some(1));
    assert_eq!(v.get(b"world"), Some(1));
}

#[test]
fn english_page_fields() {
    let r = Webpage::parse_record(&record("https://news.example/a/b", ENGLISH_BODY), &empty_dictionary());
    let p = match r {
        Ok(Some(p)) => p,
        _ => panic!("English page was not parsed"),
    };
    assert_eq!(p.title.as_deref(), Some("News"));
    assert_eq!(p.description, None);
    assert_eq!(p.links, Some(vec!["https://other.example/page".to_string()]));
    let text = p.text_body.clone().unwrap();
    assert!(text.starts_with("NewsThe quick brown fox"));
    assert!(!text.contains("var x"));
    assert_eq!(p.content_type.as_deref(), Some("text/html; charset=utf-8"));
    assert_eq!(p.content_length, Some(ENGLISH_BODY.len()));
    assert_eq!(p.warc_date.as_deref(), Some("2024-04-12T10:13:54Z"));
    let lemmas = p.lemmatised_text.unwrap();
    assert_eq!(&lemmas[1..4], &["quick".to_string(), "brown".to_string(), "fox".to_string()]);
}

#[test]
fn pdf_record_is_rejected() {
    let body = "HTTP/1.1 200 OK\r\nContent-Type: application/pdf\r\n\r\n<html><body>hello there my friend</body></html>";
    let r = Webpage::parse_record(&record("https://example.com/doc.pdf", body), &empty_dictionary());
    assert!(matches!(r, Ok(None)));
}

#[test]
fn french_page_is_rejected() {
    let body = "HTTP/1.1 200 OK\r\nContent-Type: text/html\r\n\r\n<html><head><title>Bonjour</title></head><body><p>Le chat est sur la table et les enfants jouent dans le jardin avec leurs amis pendant que la mère prépare le dîner.</p></body></html>";
    let r = Webpage::parse_record(&record("https://example.com/fr", body), &empty_dictionary());
    assert!(matches!(r, Ok(None)));
}

#[test]
fn body_that_is_not_utf8_is_an_error() {
    let mut rec = record("https://example.com/", "");
    rec.body = vec![0x48, 0x54, 0xff, 0xfe];
    match Webpage::parse_record(&rec, &empty_dictionary()) {
        Err(ParseError::BodyEncodingError(m)) => assert!(!m.is_empty()),
        _ => panic!("expected an encoding error"),
    }
}

#[test]
fn encoding_error_message() {
    let e = ParseError::BodyEncodingError("bad byte".to_string());
    assert_eq!(e.to_message(), "Body encoding error: bad byte");
}

#[test]
fn response_without_html_gives_nothing() {
    let body = "HTTP/1.1 200 OK\r\nContent-Type: text/html\r\n\r\nplain words only";
    let r = Webpage::parse_record(&record("https://example.com/", body), &empty_dictionary());
    assert!(matches!(r, Ok(None)));
}

#[test]
fn html_without_visible_text_gives_nothing() {
    let body = "HTTP/1.1 200 OK\r\nContent-Type: text/html\r\n\r\n<html><head><script>x()</script></head><body></body></html>";
    let r = Webpage::parse_record(&record("https://example.com/", body), &empty_dictionary());
    assert!(matches!(r, Ok(None)));
}

#[test]
fn reparsing_gives_identical_fields() {
    let rec = record("https://news.example/a/b", ENGLISH_BODY);
    let d = empty_dictionary();
    let a = Webpage::parse_record(&rec, &d).ok().flatten().unwrap();
    let b = Webpage::parse_record(&rec, &d).ok().flatten().unwrap();
    assert_eq!(a.title, b.title);
    assert_eq!(a.description, b.description);
    assert_eq!(a.links, b.links);
    assert_eq!(a.lemmatised_text, b.lemmatised_text);
}

#[test]
fn scan_reads_status_type_and_html() {
    let s = scan_http_response("HTTP/1.1 404 Not Found\r\nContent-Type: text/html\r\n\r\nnoise\r\n<html>\r\n<p>a</p>\r\n</html>\r\n");
    assert_eq!(s.status_code, Some(404));
    assert_eq!(s.content_type.as_deref(), Some("text/html"));
    assert_eq!(s.html, "<html><p>a</p></html>");
    assert!(!s.rejected);
}

#[test]
fn scan_ignores_lines_before_the_headers() {
    let s = scan_http_response("<html>early</html>\nHTTP/1.0 +301 Moved\nContent-Type: text/html\n<html>late");
    assert_eq!(s.status_code, Some(301));
    assert_eq!(s.html, "<html>late");
}

#[test]
fn scan_stops_at_non_html_type() {
    let s = scan_http_response("HTTP/1.1 200 OK\nContent-Type: image/png\n<html>x</html>");
    assert!(s.rejected);
    assert_eq!(s.content_type.as_deref(), Some("image/png"));
    assert_eq!(s.html, "");
}

#[test]
fn scan_status_that_does_not_parse() {
    let s = scan_http_response("HTTP/1.1 OK\nContent-Type: text/html");
    assert_eq!(s.status_code, None);
    let t = scan_http_response("HTTP/1.1 99999999999999999999999 X\n");
    assert_eq!(t.status_code, None);
}
