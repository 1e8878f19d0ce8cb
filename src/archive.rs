//! Reading an archive: which records are parsed (those whose target host is
//! whitelisted), which pages are kept, the counters shown while reading,
//! and the names and places of archive files.

use vstd::prelude::*;
use vstd::utf8::{decode_utf8, encode_utf8, valid_utf8};
use crate::html::opt_view;
use crate::lemma::{chars_of, split_chars, split_on, string_of, LemmaDictionary};
use crate::webpage::{is_parse_of, scan_body, WarcRecord, Webpage};
use crate::word_map::WordMap;

verus! {

/// How many of the ranked hostnames are whitelisted.
pub const WHITELIST_SIZE: usize = 100_000;

/// A throughput sample is due after every this many records.
pub const SAMPLE_INTERVAL: u64 = 1000;

/// The host of `url` as the url crate parses it, if it has one.
pub uninterp spec fn url_host_of(url: Seq<char>) -> Option<Seq<char>>;

/// Relies on url's `Url::parse` and `Url::host_str`.
#[verifier::external_body]
fn url_host(url: &str) -> (r: Option<String>)
    ensures
        opt_view(r) == url_host_of(url@),
{
    url::Url::parse(url).ok().and_then(|u| u.host_str().map(|h| h.to_string()))
}

/// The host of `url`, when it parses as a URL with a host.
pub fn extract_domain_from_string(url: &str) -> (r: Option<String>)
    ensures
        opt_view(r) == url_host_of(url@),
{
    url_host(url)
}

fn bytes_of(s: &str) -> (r: Vec<u8>)
    ensures
        r@ == encode_utf8(s@),
{
    let b = s.as_bytes();
    let mut r: Vec<u8> = Vec::new();
    let mut k: usize = 0;
    while k < b.len()
        invariant
            k <= b@.len(),
            r@ == b@.subrange(0, k as int),
        decreases b@.len() - k,
    {
        r.push(b[k]);
        k = k + 1;
        assert(r@ =~= b@.subrange(0, k as int));
    }
    assert(r@ =~= b@);
    r
}

/// The hostnames whose pages are indexed.
pub struct Whitelist {
    hosts: WordMap<()>,
}

impl Whitelist {
    pub closed spec fn wf(&self) -> bool {
        self.hosts.wf()
    }

    /// The whitelisted hostnames, as UTF-8 bytes.
    pub closed spec fn view(&self) -> Set<Seq<u8>> {
        self.hosts@.dom()
    }

    /// The first `limit` lines of the ranked list, each a hostname.
    pub fn from_lines(lines: &Vec<String>, limit: usize) -> (w: Self)
        ensures
            w.wf(),
            forall|h: Seq<u8>| #[trigger] w@.contains(h) <==> exists|i: int|
                0 <= i < lines@.len() && i < limit && encode_utf8(lines@[i]@) == h,
    {
        let mut hosts: WordMap<()> = WordMap::new();
        let mut i: usize = 0;
        while i < lines.len() && i < limit
            invariant
                i <= lines@.len(),
                i <= limit,
                hosts.wf(),
                forall|h: Seq<u8>| #[trigger] hosts@.contains_key(h) <==> exists|k: int|
                    0 <= k < i && encode_utf8(lines@[k]@) == h,
            decreases lines@.len() - i,
        {
            let key = bytes_of(lines[i].as_str());
            hosts.insert(key, ());
            i = i + 1;
            assert forall|h: Seq<u8>| #[trigger] hosts@.contains_key(h) <==> exists|k: int|
                0 <= k < i && encode_utf8(lines@[k]@) == h by {
                if h == encode_utf8(lines@[i - 1]@) {
                    assert(0 <= i - 1 < i && encode_utf8(lines@[i - 1]@) == h);
                } else if exists|k: int| 0 <= k < i && encode_utf8(lines@[k]@) == h {
                    let k = choose|k: int| 0 <= k < i && encode_utf8(lines@[k]@) == h;
                    assert(k < i - 1);
                }
            }
        }
        Whitelist { hosts }
    }

    pub fn contains(&self, host: &str) -> (r: bool)
        requires
            self.wf(),
        ensures
            r == self@.contains(encode_utf8(host@)),
    {
        let key = bytes_of(host);
        self.hosts.contains_key(key.as_slice())
    }
}

/// The counters shown while an archive is read.
pub struct ReadStats {
    /// Records read.
    pub records: u64,
    /// Records of a whitelisted host that parsed into a page.
    pub matching: u64,
    /// Pages kept.
    pub kept: u64,
}

pub open spec fn bumped(n: u64) -> u64 {
    if n < u64::MAX {
        (n + 1) as u64
    } else {
        n
    }
}

fn bump(n: u64) -> (r: u64)
    ensures
        r == bumped(n),
{
    if n < u64::MAX {
        n + 1
    } else {
        n
    }
}

/// Whether a record's target host is whitelisted.
pub open spec fn is_whitelisted(w: Set<Seq<u8>>, record: WarcRecord) -> bool {
    let uri = match record.target_uri {
        Some(u) => u@,
        None => Seq::empty(),
    };
    url_host_of(uri) is Some && w.contains(encode_utf8(url_host_of(uri)->0))
}

impl ReadStats {
    pub fn new() -> (s: Self)
        ensures
            s.records == 0 && s.matching == 0 && s.kept == 0,
    {
        ReadStats { records: 0, matching: 0, kept: 0 }
    }

    /// Whether a throughput sample is due after the records read so far.
    pub fn sample_due(&self) -> (r: bool)
        ensures
            r == (self.records % SAMPLE_INTERVAL == 0),
    {
        self.records % SAMPLE_INTERVAL == 0
    }
}

/// Reads one record: a record whose target host is not whitelisted is
/// skipped unparsed; one whose parse fails or gives no page, or a page
/// without text, is dropped; the page is returned otherwise. The counters
/// saturate at `u64::MAX`.
pub fn read_record(
    whitelist: &Whitelist,
    dictionary: &LemmaDictionary,
    record: &WarcRecord,
    stats: &mut ReadStats,
) -> (r: Option<Webpage>)
    requires
        whitelist.wf(),
        dictionary.wf(),
    ensures
        final(stats).records == bumped(old(stats).records),
        !is_whitelisted(whitelist@, *record) ==> r is None && final(stats).matching == old(stats).matching,
        is_whitelisted(whitelist@, *record) ==> exists|parsed: Result<Option<Webpage>, crate::webpage::ParseError>| {
            &&& is_parse_of(*record, dictionary@, parsed)
            &&& final(stats).matching == if parsed matches Ok(Some(_)) {
                bumped(old(stats).matching)
            } else {
                old(stats).matching
            }
            &&& match parsed {
                Ok(Some(p)) => if p.text_body is Some {
                    r == Some(p)
                } else {
                    r is None
                },
                _ => r is None,
            }
        },
        r matches Some(p) ==> p.text_body is Some,
        valid_utf8(record.body@) && scan_body(decode_utf8(record.body@)).rejected ==> {
            &&& r is None
            &&& final(stats).matching == old(stats).matching
        },
        final(stats).kept == if r is Some {
            bumped(old(stats).kept)
        } else {
            old(stats).kept
        },
{
    stats.records = bump(stats.records);
    let uri = match &record.target_uri {
        Some(u) => u.clone(),
        None => String::new(),
    };
    let host = match extract_domain_from_string(uri.as_str()) {
        Some(h) => h,
        None => return None,
    };
    if !whitelist.contains(host.as_str()) {
        return None;
    }
    let parsed = Webpage::parse_record(record, dictionary);
    match parsed {
        Ok(Some(page)) => {
            stats.matching = bump(stats.matching);
            if page.text_body.is_some() {
                stats.kept = bump(stats.kept);
                Some(page)
            } else {
                None
            }
        },
        _ => None,
    }
}

/// The last `-`-separated part of `path` up to its first `.`: the number
/// of an archive file.
pub open spec fn file_number_of(path: Seq<char>) -> Seq<char> {
    split_on(split_on(path, '-').last(), '.')[0]
}

/// The number of an archive file, as the last `-`-separated part of its
/// path up to its first `.`.
pub fn file_path_to_number(file_path: &str) -> (r: String)
    ensures
        r@ == file_number_of(file_path@),
{
    let parts = split_chars(&chars_of(file_path), '-');
    proof {
        crate::lemma::lemma_split_on_nonempty(file_path@, '-');
    }
    let last = &parts[parts.len() - 1];
    assert(last@ == split_on(file_path@, '-').last());
    let pieces = split_chars(last, '.');
    proof {
        crate::lemma::lemma_split_on_nonempty(last@, '.');
    }
    assert(pieces@[0]@ == split_on(last@, '.')[0]);
    string_of(pieces[0].as_slice())
}

} // verus!
