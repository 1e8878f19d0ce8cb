//! The relational store as the ingestion relies on it, and the laws the
//! planned writes obey there. Each function below states what one
//! statement does to the tables once its transaction commits.

use vstd::prelude::*;
use crate::persist::{
    are_link_rows, are_occurrence_rows, are_vocabulary_rows, documents_containing, is_ingestible, lemmas_of, links_of,
    lemma_truncated_fits, occurrences, page_keywords, truncated, KeywordOccurrence, WebsiteLink, MAX_KEYWORD_LENGTH,
};
use crate::webpage::Webpage;

verus! {

/// A `websites` row.
pub struct SiteRecord {
    pub id: int,
    pub url: Seq<char>,
    pub title: Seq<char>,
    pub description: Seq<char>,
    pub word_count: nat,
}

/// The tables the ingestion writes.
pub struct StoreModel {
    pub websites: Seq<SiteRecord>,
    /// `documents_containing_word` of each keyword.
    pub keywords: Map<Seq<u8>, nat>,
    /// `(keyword_id, website_id, keyword_occurrences)` rows.
    pub website_keywords: Set<(int, int, nat)>,
    /// `(source_website_id, target_website)` rows.
    pub website_links: Set<(int, Seq<char>)>,
    /// `processed` flag of each archive file.
    pub archive_files: Map<Seq<char>, bool>,
}

pub open spec fn urls_unique(ws: Seq<SiteRecord>) -> bool {
    forall|i: int, j: int| 0 <= i < j < ws.len() ==> (#[trigger] ws[i]).url != (#[trigger] ws[j]).url
}

pub open spec fn has_url(ws: Seq<SiteRecord>, url: Seq<char>) -> bool {
    exists|i: int| 0 <= i < ws.len() && ws[i].url == url
}

pub open spec fn url_index(ws: Seq<SiteRecord>, url: Seq<char>) -> int {
    choose|i: int| 0 <= i < ws.len() && ws[i].url == url
}

/// `INSERT ... ON CONFLICT (url) DO UPDATE`: the row with that URL keeps its
/// id and takes the new fields; without one, a row with id `fresh` is added.
pub open spec fn upsert_website(
    ws: Seq<SiteRecord>,
    url: Seq<char>,
    title: Seq<char>,
    description: Seq<char>,
    word_count: nat,
    fresh: int,
) -> Seq<SiteRecord> {
    if has_url(ws, url) {
        let i = url_index(ws, url);
        ws.update(i, SiteRecord { id: ws[i].id, url, title, description, word_count })
    } else {
        ws.push(SiteRecord { id: fresh, url, title, description, word_count })
    }
}

/// The id the website row of `url` has.
pub open spec fn website_id(ws: Seq<SiteRecord>, url: Seq<char>) -> int {
    ws[url_index(ws, url)].id
}

/// The keyword occurrence rows of a page: for each keyword that has an id,
/// that id, the site, and how often the keyword occurs in the page.
pub open spec fn occurrence_rows(p: Webpage, site: int, ids: Map<Seq<u8>, i64>) -> Set<(int, int, nat)> {
    Set::new(
        |r: (int, int, nat)|
            exists|w: Seq<u8>|
                occurrences(page_keywords(p), w) > 0 && #[trigger] ids.contains_key(w) && r == (
                    ids[w] as int,
                    site,
                    occurrences(page_keywords(p), w),
                ),
    )
}

pub open spec fn link_set(p: Webpage, site: int) -> Set<(int, Seq<char>)> {
    Set::new(|r: (int, Seq<char>)| exists|i: int| 0 <= i < links_of(p).len() && r == (site, links_of(p)[i]@))
}

/// The writes for one page: upsert its website row, delete the site's
/// keyword and link rows, insert the new ones. A page that is not
/// ingestible writes nothing.
pub open spec fn apply_page(s: StoreModel, p: Webpage, ids: Map<Seq<u8>, i64>, fresh: int) -> StoreModel {
    if !is_ingestible(p) {
        s
    } else {
        let url = p.warc_target_uri->0@;
        let ws = upsert_website(
            s.websites,
            url,
            p.title->0@,
            p.description->0@,
            lemmas_of(p).len(),
            fresh,
        );
        let id = website_id(ws, url);
        StoreModel {
            websites: ws,
            website_keywords: s.website_keywords.filter(|r: (int, int, nat)| r.1 != id).union(
                occurrence_rows(p, id, ids),
            ),
            website_links: s.website_links.filter(|r: (int, Seq<char>)| r.0 != id).union(link_set(p, id)),
            ..s
        }
    }
}

/// The vocabulary statement once it commits: each keyword's counter grows
/// by the number of ingestible pages of the batch that contain it.
pub open spec fn commit_vocabulary(counters: Map<Seq<u8>, nat>, ps: Seq<Webpage>) -> Map<Seq<u8>, nat> {
    Map::new(
        |w: Seq<u8>| counters.contains_key(w) || documents_containing(ps, w) > 0,
        |w: Seq<u8>|
            (if counters.contains_key(w) {
                counters[w]
            } else {
                0nat
            }) + documents_containing(ps, w),
    )
}

/// The vocabulary statement run with `rows`, once its transaction commits:
/// each row's keyword gains the row's count, a new keyword starting from
/// zero. A rolled-back attempt changes nothing.
pub open spec fn apply_vocabulary_rows(counters: Map<Seq<u8>, nat>, rows: Seq<(Vec<u8>, u64)>) -> Map<Seq<u8>, nat> {
    Map::new(
        |w: Seq<u8>| counters.contains_key(w) || exists|i: int| 0 <= i < rows.len() && rows[i].0@ == w,
        |w: Seq<u8>|
            (if counters.contains_key(w) {
                counters[w]
            } else {
                0nat
            }) + if exists|i: int| 0 <= i < rows.len() && rows[i].0@ == w {
                rows[choose|i: int| 0 <= i < rows.len() && rows[i].0@ == w].1 as nat
            } else {
                0nat
            },
    )
}

/// `SELECT name FROM archive_files WHERE processed = false`.
pub open spec fn files_to_process(files: Map<Seq<char>, bool>) -> Set<Seq<char>> {
    Set::new(|f: Seq<char>| files.contains_key(f) && !files[f])
}

/// `UPDATE archive_files SET processed = true WHERE name = f`.
pub open spec fn mark_file_as_processed(files: Map<Seq<char>, bool>, f: Seq<char>) -> Map<Seq<char>, bool> {
    if files.contains_key(f) {
        files.insert(f, true)
    } else {
        files
    }
}

/// Every keyword of an ingestible page of a batch is in the batch's
/// vocabulary, so the vocabulary statement gives it an id before any of the
/// page's occurrence rows is written.
pub proof fn law_vocabulary_covers_pages(ps: Seq<Webpage>, i: int, w: Seq<u8>)
    requires
        0 <= i < ps.len(),
        is_ingestible(ps[i]),
        occurrences(page_keywords(ps[i]), w) > 0,
    ensures
        documents_containing(ps, w) > 0,
    decreases ps.len(),
{
    if i < ps.len() - 1 {
        assert(ps.drop_last()[i] == ps[i]);
        law_vocabulary_covers_pages(ps.drop_last(), i, w);
    }
}

proof fn lemma_occurring_is_keyword(ws: Seq<Seq<u8>>, w: Seq<u8>)
    requires
        occurrences(ws, w) > 0,
    ensures
        exists|i: int| 0 <= i < ws.len() && ws[i] == w,
    decreases ws.len(),
{
    if ws.last() != w {
        lemma_occurring_is_keyword(ws.drop_last(), w);
        let i = choose|i: int| 0 <= i < ws.drop_last().len() && ws.drop_last()[i] == w;
        assert(ws[i] == w);
    } else {
        assert(ws[ws.len() - 1] == w);
    }
}

/// No keyword of a batch's vocabulary is longer than `MAX_KEYWORD_LENGTH`
/// bytes.
pub proof fn law_keywords_fit(ps: Seq<Webpage>, w: Seq<u8>)
    requires
        documents_containing(ps, w) > 0,
    ensures
        w.len() <= MAX_KEYWORD_LENGTH,
    decreases ps.len(),
{
    if documents_containing(ps.drop_last(), w) > 0 {
        law_keywords_fit(ps.drop_last(), w);
    } else {
        lemma_occurring_is_keyword(page_keywords(ps.last()), w);
        let i = choose|i: int| 0 <= i < page_keywords(ps.last()).len() && page_keywords(ps.last())[i] == w;
        assert(w == truncated(vstd::utf8::encode_utf8(lemmas_of(ps.last())[i]@)));
        lemma_truncated_fits(vstd::utf8::encode_utf8(lemmas_of(ps.last())[i]@));
    }
}

/// The website upsert never gives two rows one URL.
pub proof fn law_urls_stay_unique(
    ws: Seq<SiteRecord>,
    url: Seq<char>,
    title: Seq<char>,
    description: Seq<char>,
    word_count: nat,
    fresh: int,
)
    requires
        urls_unique(ws),
    ensures
        urls_unique(upsert_website(ws, url, title, description, word_count, fresh)),
        has_url(upsert_website(ws, url, title, description, word_count, fresh), url),
{
    let r = upsert_website(ws, url, title, description, word_count, fresh);
    if has_url(ws, url) {
        let k = url_index(ws, url);
        assert(r[k].url == url);
        assert forall|i: int, j: int| 0 <= i < j < r.len() implies (#[trigger] r[i]).url != (#[trigger] r[j]).url by {
            if i == k {
                assert(ws[j].url != ws[k].url);
            } else if j == k {
                assert(ws[i].url != ws[k].url);
            }
        }
    } else {
        assert(r[ws.len() as int].url == url);
    }
}

proof fn lemma_url_index_unique(ws: Seq<SiteRecord>, url: Seq<char>, k: int)
    requires
        urls_unique(ws),
        0 <= k < ws.len(),
        ws[k].url == url,
    ensures
        has_url(ws, url),
        url_index(ws, url) == k,
{
    let j = url_index(ws, url);
    if j < k {
        assert(ws[j].url != ws[k].url);
    } else if j > k {
        assert(ws[k].url != ws[j].url);
    }
}

/// Writing the same ingestible page twice leaves the website row and its
/// keyword and link rows as writing it once does.
pub proof fn law_page_upsert_idempotent(
    s: StoreModel,
    p: Webpage,
    ids: Map<Seq<u8>, i64>,
    fresh: int,
    fresh_again: int,
)
    requires
        urls_unique(s.websites),
    ensures
        apply_page(apply_page(s, p, ids, fresh), p, ids, fresh_again) == apply_page(s, p, ids, fresh),
{
    if is_ingestible(p) {
        let url = p.warc_target_uri->0@;
        let once = apply_page(s, p, ids, fresh);
        let ws = once.websites;
        law_urls_stay_unique(s.websites, url, p.title->0@, p.description->0@, lemmas_of(p).len(), fresh);
        let k = url_index(ws, url);
        let id = ws[k].id;
        lemma_url_index_unique(ws, url, k);
        let ws2 = upsert_website(ws, url, p.title->0@, p.description->0@, lemmas_of(p).len(), fresh_again);
        assert(ws2 =~= ws);
        let twice = apply_page(once, p, ids, fresh_again);
        assert(twice.website_keywords =~= once.website_keywords);
        assert(twice.website_links =~= once.website_links);
    }
}

/// Whichever attempt of the vocabulary statement commits, first or after
/// rolled-back deadlocks, it runs with rows the writer handed out for the
/// batch, and so adds to each keyword's counter exactly the number of
/// ingestible pages of the batch that contain it: one increment per batch.
pub proof fn law_retry_commits_once(counters: Map<Seq<u8>, nat>, rows: Seq<(Vec<u8>, u64)>, ps: Seq<Webpage>)
    requires
        are_vocabulary_rows(rows, ps),
    ensures
        apply_vocabulary_rows(counters, rows) == commit_vocabulary(counters, ps),
{
    let a = apply_vocabulary_rows(counters, rows);
    let c = commit_vocabulary(counters, ps);
    assert forall|w: Seq<u8>| #[trigger] a.contains_key(w) == c.contains_key(w) by {
        if exists|i: int| 0 <= i < rows.len() && rows[i].0@ == w {
            let i = choose|i: int| 0 <= i < rows.len() && rows[i].0@ == w;
            assert(rows[i].1 == documents_containing(ps, rows[i].0@));
        }
        if documents_containing(ps, w) > 0 {
            let i = choose|i: int| 0 <= i < rows.len() && rows[i].0@ == w;
        }
    }
    assert forall|w: Seq<u8>| a.contains_key(w) implies #[trigger] a[w] == c[w] by {
        if exists|i: int| 0 <= i < rows.len() && rows[i].0@ == w {
            let i = choose|i: int| 0 <= i < rows.len() && rows[i].0@ == w;
            assert(rows[i].1 == documents_containing(ps, rows[i].0@));
        } else if documents_containing(ps, w) > 0 {
            let i = choose|i: int| 0 <= i < rows.len() && rows[i].0@ == w;
        }
    }
    assert(a =~= c);
}

/// A file marked as processed is not handed out again.
pub proof fn law_processed_file_not_fetched(files: Map<Seq<char>, bool>, f: Seq<char>)
    ensures
        !files_to_process(mark_file_as_processed(files, f)).contains(f),
{
}

/// Writing a page for a URL the store already holds keeps the site's id,
/// takes the new page's word count, and leaves exactly the new page's
/// keyword occurrence rows for the site: the earlier page's rows are gone.
pub proof fn law_reingestion_replaces_rows(
    s: StoreModel,
    first: Webpage,
    second: Webpage,
    ids: Map<Seq<u8>, i64>,
    fresh: int,
    fresh_again: int,
)
    requires
        urls_unique(s.websites),
        is_ingestible(first),
        is_ingestible(second),
        first.warc_target_uri->0@ == second.warc_target_uri->0@,
    ensures
        ({
            let url = second.warc_target_uri->0@;
            let once = apply_page(s, first, ids, fresh);
            let twice = apply_page(once, second, ids, fresh_again);
            let id = website_id(once.websites, url);
            &&& website_id(twice.websites, url) == id
            &&& twice.websites[url_index(twice.websites, url)].word_count == lemmas_of(second).len()
            &&& twice.website_keywords.filter(|r: (int, int, nat)| r.1 == id) == occurrence_rows(second, id, ids)
            &&& twice.website_links.filter(|r: (int, Seq<char>)| r.0 == id) == link_set(second, id)
        }),
{
    let url = second.warc_target_uri->0@;
    let once = apply_page(s, first, ids, fresh);
    law_urls_stay_unique(s.websites, url, first.title->0@, first.description->0@, lemmas_of(first).len(), fresh);
    let k = url_index(once.websites, url);
    lemma_url_index_unique(once.websites, url, k);
    let id = once.websites[k].id;
    let ws2 = upsert_website(
        once.websites,
        url,
        second.title->0@,
        second.description->0@,
        lemmas_of(second).len(),
        fresh_again,
    );
    assert(ws2[k].url == url);
    law_urls_stay_unique(
        once.websites,
        url,
        second.title->0@,
        second.description->0@,
        lemmas_of(second).len(),
        fresh_again,
    );
    lemma_url_index_unique(ws2, url, k);
    let twice = apply_page(once, second, ids, fresh_again);
    assert(twice.website_keywords.filter(|r: (int, int, nat)| r.1 == id) =~= occurrence_rows(second, id, ids));
    assert(twice.website_links.filter(|r: (int, Seq<char>)| r.0 == id) =~= link_set(second, id));
}

/// The `website_keywords` rows that `rows` insert.
pub open spec fn occurrence_triples(rows: Seq<KeywordOccurrence>) -> Set<(int, int, nat)> {
    Set::new(
        |t: (int, int, nat)|
            exists|i: int|
                0 <= i < rows.len() && t == (
                    rows[i].keyword_id as int,
                    rows[i].website_id as int,
                    rows[i].occurrences as nat,
                ),
    )
}

/// The `website_links` rows that `rows` insert.
pub open spec fn link_pairs(rows: Seq<WebsiteLink>) -> Set<(int, Seq<char>)> {
    Set::new(
        |t: (int, Seq<char>)|
            exists|i: int| 0 <= i < rows.len() && t == (rows[i].source_website_id as int, rows[i].target_website@),
    )
}

/// The keyword occurrence and link rows planned for a page are exactly the
/// rows the store holds for the site once the page is written: every
/// occurrence row names a keyword with an id and counts it exactly.
pub proof fn law_planned_rows_are_written_rows(
    keywords: Seq<KeywordOccurrence>,
    links: Seq<WebsiteLink>,
    p: Webpage,
    site: i64,
    ids: Map<Seq<u8>, i64>,
)
    requires
        are_occurrence_rows(keywords, p, site, ids),
        are_link_rows(links, p, site),
    ensures
        occurrence_triples(keywords) == occurrence_rows(p, site as int, ids),
        link_pairs(links) == link_set(p, site as int),
{
    assert forall|t: (int, int, nat)| #[trigger] occurrence_triples(keywords).contains(t) implies occurrence_rows(p, site as int, ids).contains(t) by {
        let i = choose|i: int|
            0 <= i < keywords.len() && t == (
                keywords[i].keyword_id as int,
                keywords[i].website_id as int,
                keywords[i].occurrences as nat,
            );
        let w = keywords[i].keyword@;
        assert(ids.contains_key(w));
    }
    assert forall|t: (int, int, nat)| #[trigger] occurrence_rows(p, site as int, ids).contains(t) implies occurrence_triples(keywords).contains(t) by {
        let w = choose|w: Seq<u8>|
            occurrences(page_keywords(p), w) > 0 && #[trigger] ids.contains_key(w) && t == (
                ids[w] as int,
                site as int,
                occurrences(page_keywords(p), w),
            );
        let i = choose|i: int| 0 <= i < keywords.len() && keywords[i].keyword@ == w;
        assert(keywords[i].website_id == site);
    }
    assert(occurrence_triples(keywords) =~= occurrence_rows(p, site as int, ids));
    assert forall|t: (int, Seq<char>)| #[trigger] link_pairs(links).contains(t) implies link_set(p, site as int).contains(t) by {
        let i = choose|i: int| 0 <= i < links.len() && t == (links[i].source_website_id as int, links[i].target_website@);
        assert(links[i].source_website_id == site);
    }
    assert forall|t: (int, Seq<char>)| #[trigger] link_set(p, site as int).contains(t) implies link_pairs(links).contains(t) by {
        let i = choose|i: int| 0 <= i < links_of(p).len() && t == (site as int, links_of(p)[i]@);
        assert(links[i].source_website_id == site);
    }
    assert(link_pairs(links) =~= link_set(p, site as int));
}

} // verus!
