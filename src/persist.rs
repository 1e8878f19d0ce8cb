//! What the store is asked to write for a batch of pages: the keyword
//! vocabulary with its document counts, and per page the website row, its
//! keyword occurrences and its outbound links.

use vstd::prelude::*;
use vstd::utf8::{
    encode_utf8, encode_utf8_valid_utf8, is_char_boundary_iff_not_is_continuation_byte,
    is_char_boundary_start_end_of_seq, is_continuation_byte, valid_utf8, valid_utf8_split,
};
use crate::bytes::lex_lt;
use crate::webpage::Webpage;
use crate::word_map::WordMap;

verus! {

/// Longest keyword the store keeps, in bytes.
pub const MAX_KEYWORD_LENGTH: usize = 40;

/// Where a cut at byte `k` of `w` lands once moved back to the start of
/// the character it would split.
pub open spec fn cut_point(w: Seq<u8>, k: int) -> int
    decreases k,
{
    if k <= 0 || k >= w.len() || !is_continuation_byte(w[k]) {
        k
    } else {
        cut_point(w, k - 1)
    }
}

/// A keyword cut after its first `MAX_KEYWORD_LENGTH` bytes; a character
/// the cut would split is left out whole, so both the vocabulary and the
/// occurrence rows hold the same valid text.
pub open spec fn truncated(w: Seq<u8>) -> Seq<u8> {
    if w.len() > MAX_KEYWORD_LENGTH {
        w.subrange(0, cut_point(w, MAX_KEYWORD_LENGTH as int))
    } else {
        w
    }
}

pub proof fn lemma_cut_point(w: Seq<u8>, k: int)
    requires
        0 <= k < w.len(),
    ensures
        0 <= cut_point(w, k) <= k,
        cut_point(w, k) == 0 || !is_continuation_byte(w[cut_point(w, k)]),
    decreases k,
{
    if k > 0 && is_continuation_byte(w[k]) {
        lemma_cut_point(w, k - 1);
    }
}

pub proof fn lemma_truncated_fits(w: Seq<u8>)
    ensures
        truncated(w).len() <= MAX_KEYWORD_LENGTH,
        valid_utf8(w) ==> valid_utf8(truncated(w)),
{
    if w.len() > MAX_KEYWORD_LENGTH {
        let k = cut_point(w, MAX_KEYWORD_LENGTH as int);
        lemma_cut_point(w, MAX_KEYWORD_LENGTH as int);
        if valid_utf8(w) {
            if k > 0 {
                is_char_boundary_iff_not_is_continuation_byte(w, k);
            } else {
                is_char_boundary_start_end_of_seq(w);
            }
            valid_utf8_split(w, k);
        }
    }
}

/// A page is written to the store only with a title, a description and a URL.
pub open spec fn is_ingestible(p: Webpage) -> bool {
    &&& p.title is Some
    &&& p.description is Some
    &&& p.warc_target_uri is Some
}

pub open spec fn lemmas_of(p: Webpage) -> Seq<String> {
    match p.lemmatised_text {
        Some(v) => v@,
        None => Seq::empty(),
    }
}

/// The page's lemmas as stored keywords: UTF-8 bytes, truncated.
pub open spec fn page_keywords(p: Webpage) -> Seq<Seq<u8>> {
    lemmas_of(p).map_values(|s: String| truncated(encode_utf8(s@)))
}

pub open spec fn links_of(p: Webpage) -> Seq<String> {
    match p.links {
        Some(v) => v@,
        None => Seq::empty(),
    }
}

/// How often `w` occurs in `ws`.
pub open spec fn occurrences(ws: Seq<Seq<u8>>, w: Seq<u8>) -> nat
    decreases ws.len(),
{
    if ws.len() == 0 {
        0
    } else {
        occurrences(ws.drop_last(), w) + if ws.last() == w {
            1nat
        } else {
            0nat
        }
    }
}

/// How many ingestible pages of `ps` have `w` among their keywords.
pub open spec fn documents_containing(ps: Seq<Webpage>, w: Seq<u8>) -> nat
    decreases ps.len(),
{
    if ps.len() == 0 {
        0
    } else {
        documents_containing(ps.drop_last(), w) + if is_ingestible(ps.last()) && occurrences(
            page_keywords(ps.last()),
            w,
        ) > 0 {
            1nat
        } else {
            0nat
        }
    }
}

proof fn lemma_occurrences_bound(ws: Seq<Seq<u8>>, w: Seq<u8>)
    ensures
        occurrences(ws, w) <= ws.len(),
    decreases ws.len(),
{
    if ws.len() > 0 {
        lemma_occurrences_bound(ws.drop_last(), w);
    }
}

proof fn lemma_documents_bound(ps: Seq<Webpage>, w: Seq<u8>)
    ensures
        documents_containing(ps, w) <= ps.len(),
    decreases ps.len(),
{
    if ps.len() > 0 {
        lemma_documents_bound(ps.drop_last(), w);
    }
}

/// The keyword stored for `word`: its UTF-8 bytes, cut after
/// `MAX_KEYWORD_LENGTH` bytes, back to the start of a character the cut
/// would split.
pub fn truncate_keyword(word: &str) -> (r: Vec<u8>)
    ensures
        r@ == truncated(encode_utf8(word@)),
        r@.len() <= MAX_KEYWORD_LENGTH,
        valid_utf8(r@),
{
    let b = word.as_bytes();
    proof {
        lemma_truncated_fits(b@);
        encode_utf8_valid_utf8(word@);
    }
    let n: usize = if b.len() > MAX_KEYWORD_LENGTH {
        let mut k: usize = MAX_KEYWORD_LENGTH;
        while k > 0 && 0x80 <= b[k] && b[k] <= 0xbf
            invariant
                k <= MAX_KEYWORD_LENGTH < b@.len(),
                cut_point(b@, k as int) == cut_point(b@, MAX_KEYWORD_LENGTH as int),
            decreases k,
        {
            k = k - 1;
        }
        k
    } else {
        b.len()
    };
    let mut r: Vec<u8> = Vec::new();
    let mut i: usize = 0;
    while i < n
        invariant
            n <= b@.len(),
            i <= n,
            r@ == b@.subrange(0, i as int),
        decreases n - i,
    {
        r.push(b[i]);
        i = i + 1;
        assert(r@ =~= b@.subrange(0, i as int));
    }
    assert(b@ == encode_utf8(word@));
    assert(b@.subrange(0, b@.len() as int) =~= b@);
    r
}

/// Whether the page is written to the store.
pub fn is_ingestible_page(page: &Webpage) -> (r: bool)
    ensures
        r == is_ingestible(*page),
{
    page.title.is_some() && page.description.is_some() && page.warc_target_uri.is_some()
}

/// How often each keyword occurs in the page.
pub fn term_frequencies(page: &Webpage) -> (m: WordMap<u64>)
    ensures
        m.wf(),
        forall|w: Seq<u8>| #[trigger] m@.contains_key(w) <==> occurrences(page_keywords(*page), w) > 0,
        forall|w: Seq<u8>| #[trigger] m@.contains_key(w) ==> m@[w] == occurrences(page_keywords(*page), w),
{
    let mut m: WordMap<u64> = WordMap::new();
    let ghost kws = page_keywords(*page);
    match &page.lemmatised_text {
        None => {
            assert forall|w: Seq<u8>| occurrences(kws, w) == 0 by {
                assert(kws.len() == 0);
            }
        },
        Some(lemmas) => {
            let mut i: usize = 0;
            while i < lemmas.len()
                invariant
                    page.lemmatised_text == Some(*lemmas),
                    kws == page_keywords(*page),
                    i <= lemmas@.len(),
                    m.wf(),
                    forall|w: Seq<u8>| #[trigger] m@.contains_key(w) <==> occurrences(kws.subrange(0, i as int), w) > 0,
                    forall|w: Seq<u8>| #[trigger] m@.contains_key(w) ==> m@[w] == occurrences(kws.subrange(0, i as int), w),
                decreases lemmas@.len() - i,
            {
                let k = truncate_keyword(lemmas[i].as_str());
                let ghost prefix = kws.subrange(0, i as int);
                let ghost next = kws.subrange(0, i + 1);
                assert(next.drop_last() =~= prefix);
                assert(next.last() == k@);
                proof {
                    lemma_occurrences_bound(prefix, k@);
                }
                let c: u64 = match m.get(k.as_slice()) {
                    Some(c) => c,
                    None => 0,
                };
                m.insert(k, c + 1);
                i = i + 1;
                assert forall|w: Seq<u8>| #[trigger] m@.contains_key(w) <==> occurrences(next, w) > 0 by {
                    if w != k@ {
                        assert(occurrences(next, w) == occurrences(prefix, w));
                    }
                }
            }
            assert(kws.subrange(0, i as int) =~= kws);
        },
    }
    assert(kws.subrange(0, 0) =~= Seq::<Seq<u8>>::empty());
    m
}

/// The document count of each keyword of the batch: over the ingestible
/// pages, how many have it among their keywords.
pub fn batch_vocabulary(pages: &Vec<Webpage>) -> (m: WordMap<u64>)
    ensures
        m.wf(),
        forall|w: Seq<u8>| #[trigger] m@.contains_key(w) <==> documents_containing(pages@, w) > 0,
        forall|w: Seq<u8>| #[trigger] m@.contains_key(w) ==> m@[w] == documents_containing(pages@, w),
{
    let mut m: WordMap<u64> = WordMap::new();
    let mut i: usize = 0;
    assert(pages@.subrange(0, 0) =~= Seq::<Webpage>::empty());
    while i < pages.len()
        invariant
            i <= pages@.len(),
            m.wf(),
            forall|w: Seq<u8>| #[trigger] m@.contains_key(w) <==> documents_containing(pages@.subrange(0, i as int), w) > 0,
            forall|w: Seq<u8>| #[trigger] m@.contains_key(w) ==> m@[w] == documents_containing(pages@.subrange(0, i as int), w),
        decreases pages@.len() - i,
    {
        let ghost prefix = pages@.subrange(0, i as int);
        let ghost next = pages@.subrange(0, i + 1);
        assert(next.drop_last() =~= prefix);
        assert(next.last() == pages@[i as int]);
        let page = &pages[i];
        let n: usize = pages.len();
        if is_ingestible_page(page) {
            let tf = term_frequencies(page);
            let words = tf.entries();
            let ghost start = m@;
            let mut j: usize = 0;
            while j < words.len()
                invariant
                    i < pages@.len(),
                    n == pages@.len(),
                    page == pages@[i as int],
                    j <= words@.len(),
                    m.wf(),
                    tf.wf(),
                    forall|w: Seq<u8>| #[trigger] tf@.contains_key(w) <==> occurrences(page_keywords(*page), w) > 0,
                    forall|a: int| 0 <= a < words@.len() ==> tf@.contains_key(#[trigger] words@[a].0@),
                    forall|w: Seq<u8>| #[trigger] tf@.contains_key(w) ==> exists|a: int| 0 <= a < words@.len() && words@[a].0@ == w,
                    forall|a: int, b: int| 0 <= a < b < words@.len() ==> lex_lt(#[trigger] words@[a].0@, #[trigger] words@[b].0@),
                    forall|w: Seq<u8>| #[trigger] start.contains_key(w) <==> documents_containing(prefix, w) > 0,
                    forall|w: Seq<u8>| #[trigger] start.contains_key(w) ==> start[w] == documents_containing(prefix, w),
                    forall|w: Seq<u8>| #[trigger] m@.contains_key(w) <==> (start.contains_key(w) || exists|a: int| 0 <= a < j && words@[a].0@ == w),
                    forall|w: Seq<u8>| #[trigger] m@.contains_key(w) ==> m@[w] == documents_containing(prefix, w) + if exists|a: int| 0 <= a < j && words@[a].0@ == w { 1nat } else { 0nat },
                    prefix.len() == i,
                decreases words@.len() - j,
            {
                let w = &words[j].0;
                let ghost wv = w@;
                proof {
                    lemma_documents_bound(prefix, wv);
                    assert forall|a: int| 0 <= a < j implies words@[a].0@ != wv by {
                        crate::bytes::lemma_lex_lt_irreflexive(wv);
                    }
                }
                let c: u64 = match m.get(w.as_slice()) {
                    Some(c) => c,
                    None => 0,
                };
                assert(!exists|a: int| 0 <= a < j && words@[a].0@ == wv);
                assert(c <= i);
                assert(i < n);
                assert(n <= u64::MAX);
                m.insert(w.clone(), c + 1);
                j = j + 1;
                assert forall|x: Seq<u8>| #[trigger] m@.contains_key(x) implies m@[x] == documents_containing(prefix, x) + if exists|a: int| 0 <= a < j && words@[a].0@ == x { 1nat } else { 0nat } by {
                    if x == wv {
                        assert(words@[j - 1].0@ == x);
                    } else if m@.contains_key(x) {
                        if exists|a: int| 0 <= a < j && words@[a].0@ == x {
                            let a = choose|a: int| 0 <= a < j && words@[a].0@ == x;
                            assert(a < j - 1);
                        }
                    }
                }
                assert forall|x: Seq<u8>| #[trigger] m@.contains_key(x) <==> (start.contains_key(x) || exists|a: int| 0 <= a < j && words@[a].0@ == x) by {
                    if x == wv {
                        assert(words@[j - 1].0@ == x);
                    } else if exists|a: int| 0 <= a < j && words@[a].0@ == x {
                        let a = choose|a: int| 0 <= a < j && words@[a].0@ == x;
                        assert(a < j - 1);
                    }
                }
            }
            assert forall|w: Seq<u8>| #[trigger] m@.contains_key(w) <==> documents_containing(next, w) > 0 by {
                if tf@.contains_key(w) {
                    let a = choose|a: int| 0 <= a < words@.len() && words@[a].0@ == w;
                }
            }
            assert forall|w: Seq<u8>| #[trigger] m@.contains_key(w) implies m@[w] == documents_containing(next, w) by {
                if tf@.contains_key(w) {
                    let a = choose|a: int| 0 <= a < words@.len() && words@[a].0@ == w;
                }
            }
        } else {
            assert forall|w: Seq<u8>| documents_containing(next, w) == documents_containing(prefix, w) by {}
        }
        i = i + 1;
    }
    assert(pages@.subrange(0, i as int) =~= pages@);
    m
}

/// The `websites` row of a page, keyed by its URL.
pub struct WebsiteRow {
    pub title: String,
    pub description: String,
    pub url: String,
    pub word_count: u64,
}

/// One `website_keywords` row, with the keyword it stands for.
pub struct KeywordOccurrence {
    pub keyword: Vec<u8>,
    pub keyword_id: i64,
    pub website_id: i64,
    pub occurrences: u64,
}

/// One `website_links` row.
pub struct WebsiteLink {
    pub source_website_id: i64,
    pub target_website: String,
}

/// `row` is the website row of the ingestible page `p`.
pub open spec fn is_website_row(row: WebsiteRow, p: Webpage) -> bool {
    &&& row.title@ == p.title->0@
    &&& row.description@ == p.description->0@
    &&& row.url@ == p.warc_target_uri->0@
    &&& row.word_count == lemmas_of(p).len()
}

/// The website row of an ingestible page; `None` for any other page.
pub fn website_row(page: &Webpage) -> (r: Option<WebsiteRow>)
    ensures
        r is Some <==> is_ingestible(*page),
        r matches Some(row) ==> is_website_row(row, *page),
{
    match (&page.title, &page.description, &page.warc_target_uri) {
        (Some(title), Some(description), Some(url)) => {
            let word_count: usize = match &page.lemmatised_text {
                Some(v) => v.len(),
                None => 0,
            };
            Some(
                WebsiteRow {
                    title: title.clone(),
                    description: description.clone(),
                    url: url.clone(),
                    word_count: word_count as u64,
                },
            )
        },
        _ => None,
    }
}

/// `rows` are the keyword occurrence rows of `p` for the site: one per
/// distinct keyword that has an id, in increasing order of keyword, each
/// with its exact count; keywords without an id are left out.
pub open spec fn are_occurrence_rows(rows: Seq<KeywordOccurrence>, p: Webpage, website_id: i64, ids: Map<Seq<u8>, i64>) -> bool {
    &&& forall|i: int| 0 <= i < rows.len() ==> {
        &&& (#[trigger] rows[i]).website_id == website_id
        &&& ids.contains_key(rows[i].keyword@)
        &&& rows[i].keyword_id == ids[rows[i].keyword@]
        &&& rows[i].occurrences == occurrences(page_keywords(p), rows[i].keyword@)
        &&& rows[i].occurrences > 0
    }
    &&& forall|w: Seq<u8>|
        occurrences(page_keywords(p), w) > 0 && #[trigger] ids.contains_key(w) ==> exists|i: int|
            0 <= i < rows.len() && rows[i].keyword@ == w
    &&& forall|i: int, j: int| 0 <= i < j < rows.len() ==> lex_lt(#[trigger] rows[i].keyword@, #[trigger] rows[j].keyword@)
}

/// `rows` are the link rows of `p` for the site, one per outbound link, in
/// document order.
pub open spec fn are_link_rows(rows: Seq<WebsiteLink>, p: Webpage, website_id: i64) -> bool {
    &&& rows.len() == links_of(p).len()
    &&& forall|i: int| 0 <= i < rows.len() ==> {
        &&& (#[trigger] rows[i]).source_website_id == website_id
        &&& rows[i].target_website@ == links_of(p)[i]@
    }
}

/// The keyword occurrence rows of a page.
#[verifier::rlimit(40)]
pub fn keyword_occurrences(page: &Webpage, website_id: i64, keyword_ids: &WordMap<i64>) -> (rows: Vec<KeywordOccurrence>)
    requires
        keyword_ids.wf(),
    ensures
        are_occurrence_rows(rows@, *page, website_id, keyword_ids@),
{
    let tf = term_frequencies(page);
    let words = tf.entries();
    let mut rows: Vec<KeywordOccurrence> = Vec::new();
    let mut j: usize = 0;
    while j < words.len()
        invariant
            tf.wf(),
            keyword_ids.wf(),
            j <= words@.len(),
            forall|w: Seq<u8>| #[trigger] tf@.contains_key(w) <==> occurrences(page_keywords(*page), w) > 0,
            forall|w: Seq<u8>| #[trigger] tf@.contains_key(w) ==> tf@[w] == occurrences(page_keywords(*page), w),
            forall|a: int| 0 <= a < words@.len() ==> {
                &&& tf@.contains_key(#[trigger] words@[a].0@)
                &&& tf@[words@[a].0@] == words@[a].1
            },
            forall|w: Seq<u8>| #[trigger] tf@.contains_key(w) ==> exists|a: int| 0 <= a < words@.len() && words@[a].0@ == w,
            forall|a: int, b: int| 0 <= a < b < words@.len() ==> lex_lt(#[trigger] words@[a].0@, #[trigger] words@[b].0@),
            forall|i: int| 0 <= i < rows@.len() ==> {
                &&& (#[trigger] rows@[i]).website_id == website_id
                &&& keyword_ids@.contains_key(rows@[i].keyword@)
                &&& rows@[i].keyword_id == keyword_ids@[rows@[i].keyword@]
                &&& rows@[i].occurrences == occurrences(page_keywords(*page), rows@[i].keyword@)
                &&& rows@[i].occurrences > 0
                &&& exists|a: int| 0 <= a < j && words@[a].0@ == rows@[i].keyword@
            },
            forall|a: int| 0 <= a < j && #[trigger] keyword_ids@.contains_key(words@[a].0@) ==> exists|i: int|
                0 <= i < rows@.len() && rows@[i].keyword@ == words@[a].0@,
            forall|i: int, k: int| 0 <= i < k < rows@.len() ==> lex_lt(#[trigger] rows@[i].keyword@, #[trigger] rows@[k].keyword@),
        decreases words@.len() - j,
    {
        let w = &words[j].0;
        match keyword_ids.get(w.as_slice()) {
            Some(id) => {
                let ghost old_rows = rows@;
                proof {
                    assert forall|i: int| 0 <= i < old_rows.len() implies lex_lt(#[trigger] old_rows[i].keyword@, w@) by {
                        let a = choose|a: int| 0 <= a < j && words@[a].0@ == old_rows[i].keyword@;
                    }
                }
                rows.push(KeywordOccurrence { keyword: w.clone(), keyword_id: id, website_id, occurrences: words[j].1 });
                proof {
                    assert forall|i: int| 0 <= i < rows@.len() implies exists|a: int| 0 <= a < j + 1 && words@[a].0@ == (#[trigger] rows@[i]).keyword@ by {
                        if i < old_rows.len() {
                            assert(rows@[i] == old_rows[i]);
                            let a = choose|a: int| 0 <= a < j && words@[a].0@ == old_rows[i].keyword@;
                        } else {
                            assert(words@[j as int].0@ == rows@[i].keyword@);
                        }
                    }
                    assert forall|a: int| 0 <= a < j + 1 && #[trigger] keyword_ids@.contains_key(words@[a].0@) implies exists|i: int|
                        0 <= i < rows@.len() && rows@[i].keyword@ == words@[a].0@ by {
                        if a < j {
                            let i = choose|i: int| 0 <= i < old_rows.len() && old_rows[i].keyword@ == words@[a].0@;
                            assert(rows@[i] == old_rows[i]);
                        } else {
                            assert(rows@[old_rows.len() as int].keyword@ == words@[a].0@);
                        }
                    }
                }
            },
            None => {},
        }
        j = j + 1;
    }
    proof {
        assert forall|w: Seq<u8>|
            occurrences(page_keywords(*page), w) > 0 && #[trigger] keyword_ids@.contains_key(w) implies exists|i: int|
                0 <= i < rows@.len() && rows@[i].keyword@ == w by {
            assert(tf@.contains_key(w));
            let a = choose|a: int| 0 <= a < words@.len() && words@[a].0@ == w;
            assert(keyword_ids@.contains_key(words@[a].0@));
        }
    }
    rows
}

/// The link rows of a page.
pub fn link_rows(page: &Webpage, website_id: i64) -> (rows: Vec<WebsiteLink>)
    ensures
        are_link_rows(rows@, *page, website_id),
{
    let mut rows: Vec<WebsiteLink> = Vec::new();
    if let Some(links) = &page.links {
        let mut i: usize = 0;
        while i < links.len()
            invariant
                page.links == Some(*links),
                i <= links@.len(),
                rows@.len() == i,
                forall|k: int| 0 <= k < i ==> {
                    &&& (#[trigger] rows@[k]).source_website_id == website_id
                    &&& rows@[k].target_website@ == links@[k]@
                },
            decreases links@.len() - i,
        {
            rows.push(WebsiteLink { source_website_id: website_id, target_website: links[i].clone() });
            i = i + 1;
        }
    }
    rows
}

/// The id of each keyword as the vocabulary statement returned it; a word
/// returned twice keeps its later id.
pub open spec fn keyword_id_map(returned: Seq<(i64, String)>) -> Map<Seq<u8>, i64>
    decreases returned.len(),
{
    if returned.len() == 0 {
        Map::empty()
    } else {
        keyword_id_map(returned.drop_last()).insert(encode_utf8(returned.last().1@), returned.last().0)
    }
}

/// Collects the `(id, word)` rows that the vocabulary statement returned.
pub fn keyword_ids(returned: &Vec<(i64, String)>) -> (m: WordMap<i64>)
    ensures
        m.wf(),
        m@ == keyword_id_map(returned@),
{
    let mut m: WordMap<i64> = WordMap::new();
    let mut i: usize = 0;
    assert(returned@.subrange(0, 0) =~= Seq::<(i64, String)>::empty());
    while i < returned.len()
        invariant
            i <= returned@.len(),
            m.wf(),
            m@ == keyword_id_map(returned@.subrange(0, i as int)),
        decreases returned@.len() - i,
    {
        let word = returned[i].1.as_str().as_bytes();
        let mut key: Vec<u8> = Vec::new();
        let mut k: usize = 0;
        while k < word.len()
            invariant
                k <= word@.len(),
                key@ == word@.subrange(0, k as int),
            decreases word@.len() - k,
        {
            key.push(word[k]);
            k = k + 1;
            assert(key@ =~= word@.subrange(0, k as int));
        }
        assert(key@ =~= word@);
        m.insert(key, returned[i].0);
        assert(returned@.subrange(0, i + 1).drop_last() =~= returned@.subrange(0, i as int));
        i = i + 1;
    }
    assert(returned@.subrange(0, i as int) =~= returned@);
    m
}

pub open spec fn has_no_keyword(ps: Seq<Webpage>) -> bool {
    forall|w: Seq<u8>| documents_containing(ps, w) == 0
}

/// `rows` are the vocabulary rows of the batch `ps`: each keyword of its
/// ingestible pages once, in increasing order, with its document count.
pub open spec fn are_vocabulary_rows(rows: Seq<(Vec<u8>, u64)>, ps: Seq<Webpage>) -> bool {
    &&& forall|i: int| 0 <= i < rows.len() ==> #[trigger] rows[i].1 == documents_containing(ps, rows[i].0@) && rows[i].1 > 0
    &&& forall|w: Seq<u8>| #[trigger] documents_containing(ps, w) > 0 ==> exists|i: int| 0 <= i < rows.len() && rows[i].0@ == w
    &&& forall|i: int, j: int| 0 <= i < j < rows.len() ==> lex_lt(#[trigger] rows[i].0@, #[trigger] rows[j].0@)
}

/// The rows of the vocabulary statement, in increasing order of keyword;
/// `None` when the batch has no keyword, and no statement is run.
pub fn vocabulary_rows(pages: &Vec<Webpage>) -> (r: Option<Vec<(Vec<u8>, u64)>>)
    ensures
        r is None <==> has_no_keyword(pages@),
        r matches Some(rows) ==> are_vocabulary_rows(rows@, pages@),
        pages@.len() == 0 ==> r is None,
{
    let v = batch_vocabulary(pages);
    let rows = v.entries();
    if rows.len() == 0 {
        assert forall|w: Seq<u8>| documents_containing(pages@, w) == 0 by {
            if documents_containing(pages@, w) > 0 {
                assert(v@.contains_key(w));
            }
        }
        None
    } else {
        assert(v@.contains_key(rows@[0].0@));
        assert forall|i: int| 0 <= i < rows@.len() implies #[trigger] rows@[i].1 == documents_containing(pages@, rows@[i].0@) && rows@[i].1 > 0 by {
            assert(v@.contains_key(rows@[i].0@));
        }
        let r = Some(rows);
        assert forall|w: Seq<u8>| #[trigger] documents_containing(pages@, w) > 0 implies exists|i: int|
            0 <= i < r->0@.len() && r->0@[i].0@ == w by {
            assert(v@.contains_key(w));
            let i = choose|i: int| 0 <= i < rows@.len() && rows@[i].0@ == w;
            assert(r->0@[i].0@ == w);
        }
        r
    }
}

} // verus!
