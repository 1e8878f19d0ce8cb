use warc_indexer::persist::{
    batch_vocabulary, is_ingestible_page, vocabulary_rows, keyword_ids, keyword_occurrences, link_rows, term_frequencies,
    truncate_keyword, website_row, MAX_KEYWORD_LENGTH,
};
use warc_indexer::retry::{is_deadlock_code, DeadlockRetry, MAX_BASE_DELAY_MS, MIN_BASE_DELAY_MS};
use warc_indexer::batch::{BatchWriter, WriteAction};
use warc_indexer::webpage::Webpage;
use warc_indexer::word_map::WordMap;

fn page(url: &str, lemmas: &[&str], links: &[&str]) -> Webpage {
    Webpage {
        warc_date: Some("2024-04-12T10:13:54Z".to_string()),
        warc_target_uri: Some(url.to_string()),
        warc_identified_payload_type: Some("text/html".to_string()),
        status_code: Some(200),
        content_type: Some("text/html".to_string()),
        content_length: Some(100),
        html_body: Some("<html></html>".to_string()),
        title: Some("T".to_string()),
        description: Some("D".to_string()),
        links: if links.is_empty() { None } else { Some(links.iter().map(|l| l.to_string()).collect()) },
        text_body: Some(lemmas.join(" ")),
        lang: None,
        lemmatised_text: Some(lemmas.iter().map(|l| l.to_string()).collect()),
    }
}

fn count_of(m: &WordMap<u64>, w: &str) -> Option<u64> {
    m.get(w.as_bytes())
}

#[test]
fn keyword_of_forty_bytes_is_kept_whole() {
    let w = "a".repeat(40);
    assert_eq!(truncate_keyword(&w), w.as_bytes().to_vec());
    assert_eq!(MAX_KEYWORD_LENGTH, 40);
}

#[test]
fn keyword_of_forty_one_bytes_is_cut() {
    let w = format!("{}z", "b".repeat(40));
    let t = truncate_keyword(&w);
    assert_eq!(t.len(), 40);
    assert_eq!(t, "b".repeat(40).as_bytes().to_vec());
}

#[test]
fn keyword_cut_does_not_split_a_character() {
    let w = format!("{}é", "c".repeat(39));
    let t = truncate_keyword(&w);
    assert_eq!(t, "c".repeat(39).as_bytes().to_vec());
    let v = format!("{}éz", "d".repeat(38));
    assert_eq!(truncate_keyword(&v), format!("{}é", "d".repeat(38)).as_bytes().to_vec());
}

#[test]
fn occurrence_rows_for_hello_world_hello() {
    let p = page("https://example.com/", &["hello", "world", "hello"], &[]);
    let ids = keyword_ids(&vec![(21, "hello".to_string()), (22, "world".to_string())]);
    let rows: Vec<(i64, i64, u64)> =
        keyword_occurrences(&p, 5, &ids).iter().map(|r| (r.keyword_id, r.website_id, r.occurrences)).collect();
    assert_eq!(rows, vec![(21, 5, 2), (22, 5, 1)]);
    assert_eq!(website_row(&p).unwrap().word_count, 3);
}

#[test]
fn empty_batch_has_no_vocabulary() {
    let v = batch_vocabulary(&Vec::new());
    assert_eq!(v.len(), 0);
    assert!(v.entries().is_empty());
    assert!(vocabulary_rows(&Vec::new()).is_none());
}

#[test]
fn vocabulary_counts_documents_not_occurrences() {
    let pages = vec![
        page("https://a.example/", &["the", "cat", "the"], &[]),
        page("https://b.example/", &["the", "dog"], &[]),
    ];
    let v = batch_vocabulary(&pages);
    assert_eq!(v.len(), 3);
    assert_eq!(count_of(&v, "the"), Some(2));
    assert_eq!(count_of(&v, "cat"), Some(1));
    assert_eq!(count_of(&v, "dog"), Some(1));
    let entries = v.entries();
    let words: Vec<Vec<u8>> = entries.iter().map(|e| e.0.clone()).collect();
    assert_eq!(words, vec![b"cat".to_vec(), b"dog".to_vec(), b"the".to_vec()]);
}

#[test]
fn vocabulary_skips_pages_that_are_not_ingestible() {
    let mut p = page("https://a.example/", &["alpha"], &[]);
    p.description = None;
    assert!(!is_ingestible_page(&p));
    let q = page("https://b.example/", &["beta"], &[]);
    let v = batch_vocabulary(&vec![p, q]);
    assert_eq!(count_of(&v, "alpha"), None);
    assert_eq!(count_of(&v, "beta"), Some(1));
}

#[test]
fn vocabulary_holds_truncated_keywords() {
    let long = "x".repeat(45);
    let v = batch_vocabulary(&vec![page("https://a.example/", &[long.as_str()], &[])]);
    assert_eq!(count_of(&v, &"x".repeat(40)), Some(1));
    assert_eq!(count_of(&v, &long), None);
}

#[test]
fn term_frequencies_count_occurrences() {
    let tf = term_frequencies(&page("https://a.example/", &["hello", "world", "hello"], &[]));
    assert_eq!(tf.get(b"hello"), Some(2));
    assert_eq!(tf.get(b"world"), Some(1));
    assert_eq!(tf.get(b"other"), None);
}

#[test]
fn website_row_counts_all_lemmas() {
    let row = website_row(&page("https://example.com/", &["hello", "world", "hello"], &[])).unwrap();
    assert_eq!(row.word_count, 3);
    assert_eq!(row.url, "https://example.com/");
    assert_eq!(row.title, "T");
    assert_eq!(row.description, "D");
}

#[test]
fn website_row_needs_title_description_and_url() {
    let mut p = page("https://example.com/", &["a"], &[]);
    p.title = None;
    assert!(website_row(&p).is_none());
    let mut q = page("https://example.com/", &["a"], &[]);
    q.warc_target_uri = None;
    assert!(website_row(&q).is_none());
}

#[test]
fn keyword_rows_hold_exact_counts() {
    let p = page("https://example.com/", &["hello", "world", "hello"], &[]);
    let ids = keyword_ids(&vec![(7, "hello".to_string()), (9, "world".to_string())]);
    let rows = keyword_occurrences(&p, 3, &ids);
    let got: Vec<(i64, i64, u64)> = rows.iter().map(|r| (r.keyword_id, r.website_id, r.occurrences)).collect();
    assert_eq!(got, vec![(7, 3, 2), (9, 3, 1)]);
}

#[test]
fn keyword_rows_leave_out_words_without_id() {
    let p = page("https://example.com/", &["hello", "world"], &[]);
    let ids = keyword_ids(&vec![(9, "world".to_string())]);
    let rows = keyword_occurrences(&p, 1, &ids);
    assert_eq!(rows.len(), 1);
    assert_eq!(rows[0].keyword, b"world".to_vec());
}

#[test]
fn returned_ids_later_row_wins() {
    let ids = keyword_ids(&vec![(1, "a".to_string()), (2, "b".to_string()), (3, "a".to_string())]);
    assert_eq!(ids.get(b"a"), Some(3));
    assert_eq!(ids.get(b"b"), Some(2));
    assert_eq!(ids.len(), 2);
}

#[test]
fn link_rows_keep_order_and_duplicates() {
    let p = page("https://example.com/", &[], &["https://example.com/x", "https://example.com/x", "https://o.example/"]);
    let rows = link_rows(&p, 5);
    let got: Vec<(i64, String)> = rows.iter().map(|r| (r.source_website_id, r.target_website.clone())).collect();
    assert_eq!(
        got,
        vec![
            (5, "https://example.com/x".to_string()),
            (5, "https://example.com/x".to_string()),
            (5, "https://o.example/".to_string())
        ]
    );
    assert!(link_rows(&page("https://example.com/", &[], &[]), 5).is_empty());
}

#[test]
fn reingested_url_rows_follow_latest_page() {
    let first = page(
        "https://example.com/",
        &["a", "b", "c", "d", "e", "f", "g", "h", "i", "j"],
        &[],
    );
    let second = page("https://example.com/", &["a", "b", "c", "k", "l"], &[]);
    let ids = keyword_ids(&(0..12).map(|i| (i as i64, ((b'a' + i as u8) as char).to_string())).collect());
    assert_eq!(website_row(&first).unwrap().word_count, 10);
    let row = website_row(&second).unwrap();
    assert_eq!(row.word_count, 5);
    let rows = keyword_occurrences(&second, 1, &ids);
    let words: Vec<Vec<u8>> = rows.iter().map(|r| r.keyword.clone()).collect();
    assert_eq!(words, vec![b"a".to_vec(), b"b".to_vec(), b"c".to_vec(), b"k".to_vec(), b"l".to_vec()]);
}

#[test]
fn same_page_twice_plans_same_rows() {
    let p = page("https://example.com/", &["x", "y", "x"], &["https://example.com/z"]);
    let ids = keyword_ids(&vec![(1, "x".to_string()), (2, "y".to_string())]);
    let a: Vec<(i64, u64)> = keyword_occurrences(&p, 4, &ids).iter().map(|r| (r.keyword_id, r.occurrences)).collect();
    let b: Vec<(i64, u64)> = keyword_occurrences(&p, 4, &ids).iter().map(|r| (r.keyword_id, r.occurrences)).collect();
    assert_eq!(a, b);
    assert_eq!(link_rows(&p, 4).len(), link_rows(&p, 4).len());
}

#[test]
fn deadlock_retry_backs_off_linearly() {
    let mut r = DeadlockRetry::with_base_delay(200);
    assert_eq!(r.on_failure(Some("40P01")), Some(200));
    assert_eq!(r.on_failure(Some("40P01")), Some(400));
    assert_eq!(r.on_failure(Some("40P01")), Some(600));
}

#[test]
fn other_store_errors_end_the_batch() {
    let mut r = DeadlockRetry::with_base_delay(150);
    assert_eq!(r.on_failure(Some("23505")), None);
    assert_eq!(r.on_failure(None), None);
    assert_eq!(r.on_failure(Some("40P01")), Some(150));
}

#[test]
fn drawn_base_delay_is_in_range() {
    for _ in 0..50 {
        let mut r = DeadlockRetry::new();
        let d = r.on_failure(Some("40P01")).unwrap();
        assert!(MIN_BASE_DELAY_MS <= d && d <= MAX_BASE_DELAY_MS);
    }
}

#[test]
fn deadlock_code_is_recognised() {
    assert!(is_deadlock_code("40P01"));
    assert!(!is_deadlock_code("40P0"));
    assert!(!is_deadlock_code("40001"));
}

#[test]
fn batch_without_keywords_runs_no_vocabulary_statement() {
    let mut p = page("https://a.example/", &[], &[]);
    p.lemmatised_text = None;
    assert!(vocabulary_rows(&vec![p]).is_none());
    let rows = vocabulary_rows(&vec![page("https://a.example/", &["b", "a", "b"], &[])]).unwrap();
    assert_eq!(rows, vec![(b"a".to_vec(), 1), (b"b".to_vec(), 1)]);
}

#[test]
fn empty_batch_writes_nothing() {
    let (_, action) = BatchWriter::start(&Vec::new());
    assert!(matches!(action, WriteAction::Finished));
}

#[test]
fn batch_of_pages_that_are_not_ingestible_writes_nothing() {
    let mut a = page("https://a.example/", &["x"], &[]);
    a.title = None;
    let mut b = page("https://b.example/", &["y"], &[]);
    b.warc_target_uri = None;
    let (_, action) = BatchWriter::start(&vec![a, b]);
    assert!(matches!(action, WriteAction::Finished));
}

#[test]
fn batch_is_written_vocabulary_first_then_page_by_page() {
    let mut skipped = page("https://skip.example/", &["z"], &[]);
    skipped.description = None;
    let pages = vec![
        page("https://a.example/", &["the", "cat", "the"], &["https://a.example/next"]),
        skipped,
        page("https://b.example/", &["the", "dog"], &[]),
    ];
    let (mut w, action) = BatchWriter::start(&pages);
    match action {
        WriteAction::UpsertVocabulary { rows } => {
            assert_eq!(rows, vec![(b"cat".to_vec(), 1), (b"dog".to_vec(), 1), (b"the".to_vec(), 2)])
        }
        _ => panic!("vocabulary first"),
    }
    match w.on_vocabulary_failed(&pages, Some("40P01")) {
        WriteAction::RetryVocabulary { delay_ms, rows } => {
            assert!((100..=500).contains(&delay_ms));
            assert_eq!(rows, vec![(b"cat".to_vec(), 1), (b"dog".to_vec(), 1), (b"the".to_vec(), 2)]);
        }
        _ => panic!("deadlock is retried"),
    }
    let returned = vec![(11, "cat".to_string()), (12, "dog".to_string()), (13, "the".to_string())];
    match w.on_vocabulary_committed(&pages, &returned) {
        WriteAction::UpsertWebsite { page, row } => {
            assert_eq!(page, 0);
            assert_eq!(row.url, "https://a.example/");
            assert_eq!(row.word_count, 3);
        }
        _ => panic!("first page next"),
    }
    match w.on_website_upserted(&pages, 70) {
        WriteAction::ReplaceChildren { website_id, keywords, links } => {
            assert_eq!(website_id, 70);
            let got: Vec<(i64, u64)> = keywords.iter().map(|k| (k.keyword_id, k.occurrences)).collect();
            assert_eq!(got, vec![(11, 1), (13, 2)]);
            assert_eq!(links.len(), 1);
            assert_eq!(links[0].target_website, "https://a.example/next");
        }
        _ => panic!("child rows next"),
    }
    match w.on_children_replaced(&pages) {
        WriteAction::UpsertWebsite { page, .. } => assert_eq!(page, 2),
        _ => panic!("the page without description is skipped"),
    }
    match w.on_website_upserted(&pages, 71) {
        WriteAction::ReplaceChildren { keywords, links, .. } => {
            let got: Vec<(i64, u64)> = keywords.iter().map(|k| (k.keyword_id, k.occurrences)).collect();
            assert_eq!(got, vec![(12, 1), (13, 1)]);
            assert!(links.is_empty());
        }
        _ => panic!("child rows next"),
    }
    assert!(matches!(w.on_children_replaced(&pages), WriteAction::Finished));
}

#[test]
fn other_vocabulary_failure_aborts_the_batch() {
    let pages = vec![page("https://a.example/", &["a"], &[])];
    let (mut w, _) = BatchWriter::start(&pages);
    assert!(matches!(w.on_vocabulary_failed(&pages, Some("23505")), WriteAction::Abort));
    assert!(matches!(w.on_vocabulary_committed(&pages, &Vec::new()), WriteAction::Abort));
}

#[test]
fn event_out_of_turn_aborts_the_batch() {
    let pages = vec![page("https://a.example/", &["a"], &[])];
    let (mut w, _) = BatchWriter::start(&pages);
    assert!(matches!(w.on_website_upserted(&pages, 1), WriteAction::Abort));
}

#[test]
fn concurrent_batches_count_their_own_documents() {
    let first = vec![page("https://a.example/", &["the", "a"], &[]), page("https://b.example/", &["the"], &[])];
    let second = vec![page("https://c.example/", &["the", "the"], &[])];
    let a = vocabulary_rows(&first).unwrap();
    let b = vocabulary_rows(&second).unwrap();
    let the_a = a.iter().find(|r| r.0 == b"the".to_vec()).unwrap().1;
    let the_b = b.iter().find(|r| r.0 == b"the".to_vec()).unwrap().1;
    assert_eq!(the_a + the_b, 3);
}
