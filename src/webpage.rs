//! One archived HTTP response, parsed into the fields the index keeps.

use vstd::prelude::*;
use vstd::utf8::{decode_utf8, encode_utf8, valid_utf8};
use crate::bytes::str_eq;
use crate::html::{
    document_text, extract_description_from_html, extract_links_from_html, extract_text_from_html,
    extract_title_from_html, html_tree_of, opt_view, parse_html, subtree_description, subtree_links,
    subtree_title,
};
use crate::http::{
    contains, contains_chars, content_type_of, extract_content_type, extract_status, lines_of,
    parse_usize, parsed_usize, starts_with, starts_with_chars, status_of,
};
use crate::lemma::{
    chars_of, decode_utf8_text, lemmatise_string, lemmatised, split_chars, split_on, string_of,
    utf8_error_text, LemmaDictionary,
};
use crate::text::views;

verus! {

/// The languages the detector can name.
#[derive(Clone, Copy, Debug, PartialEq, Eq, Structural)]
pub enum Language {
    Ara,
    Cmn,
    Deu,
    Eng,
    Fra,
    Hin,
    Ita,
    Jpn,
    Kor,
    Nld,
    Por,
    Rus,
    Spa,
    Swe,
    Tur,
    Vie,
}

#[derive(Clone, Debug)]
pub struct Webpage {
    pub warc_date: Option<String>,
    pub warc_target_uri: Option<String>,
    pub warc_identified_payload_type: Option<String>,
    pub status_code: Option<usize>,
    pub content_type: Option<String>,
    pub content_length: Option<usize>,
    pub html_body: Option<String>,
    pub title: Option<String>,
    pub description: Option<String>,
    pub links: Option<Vec<String>>,
    pub text_body: Option<String>,
    pub lang: Option<Language>,
    pub lemmatised_text: Option<Vec<String>>,
}

/// A WARC record as the parser reads it: the WARC headers it uses and the
/// body, the archived HTTP response.
pub struct WarcRecord {
    pub date: Option<String>,
    pub target_uri: Option<String>,
    pub identified_payload_type: Option<String>,
    pub content_length: Option<String>,
    pub body: Vec<u8>,
}

pub enum ParseError {
    /// The body is not valid UTF-8; the decoder's message.
    BodyEncodingError(String),
}

impl ParseError {
    /// The error as a sentence.
    pub fn to_message(&self) -> (r: String)
        ensures
            match self {
                ParseError::BodyEncodingError(m) => r@ == "Body encoding error: "@ + m@,
            },
    {
        match self {
            ParseError::BodyEncodingError(m) => {
                let mut r = "Body encoding error: ".to_owned();
                r.append(m.as_str());
                r
            },
        }
    }
}

/// What the line scan has read so far.
pub struct ScanState {
    pub content_type: Option<Seq<char>>,
    pub status_code: Option<usize>,
    pub html: Seq<char>,
    pub header_seen: bool,
    /// A media type other than HTML was declared.
    pub rejected: bool,
}

pub open spec fn initial_scan() -> ScanState {
    ScanState { content_type: None, status_code: None, html: Seq::empty(), header_seen: false, rejected: false }
}

pub open spec fn is_html_type(ct: Option<Seq<char>>) -> bool {
    ct is Some && contains(ct->0, "text/html"@)
}

/// One line of the response: a `Content-Type` line sets the media type and
/// stops the scan unless it is HTML; an `HTTP` line sets the status code;
/// after either, lines are appended to the HTML from the first one that
/// holds `<html`.
pub open spec fn scan_line(st: ScanState, line: Seq<char>) -> ScanState {
    if st.rejected {
        st
    } else if starts_with(line, "Content-Type"@) {
        ScanState {
            content_type: content_type_of(line),
            header_seen: true,
            rejected: !is_html_type(content_type_of(line)),
            ..st
        }
    } else if starts_with(line, "HTTP"@) {
        ScanState { status_code: status_of(line), header_seen: true, ..st }
    } else if st.header_seen && (contains(line, "<html"@) || st.html.len() > 0) {
        ScanState { html: st.html + line, ..st }
    } else {
        st
    }
}

pub open spec fn scan_lines(lines: Seq<Seq<char>>, k: int) -> ScanState
    decreases k,
{
    if 0 < k <= lines.len() {
        scan_line(scan_lines(lines, k - 1), lines[k - 1])
    } else {
        initial_scan()
    }
}

pub open spec fn scan_body(body: Seq<char>) -> ScanState {
    scan_lines(lines_of(body), lines_of(body).len() as int)
}

/// The result of scanning a response body.
pub struct HttpScan {
    pub content_type: Option<String>,
    pub status_code: Option<usize>,
    pub html: String,
    pub rejected: bool,
}

impl HttpScan {
    pub open spec fn matches(&self, st: ScanState) -> bool {
        &&& opt_view(self.content_type) == st.content_type
        &&& self.status_code == st.status_code
        &&& self.html@ == st.html
        &&& self.rejected == st.rejected
    }
}

/// Scans the lines of an HTTP response for its media type, its status code
/// and its HTML.
pub fn scan_http_response(body: &str) -> (r: HttpScan)
    ensures
        r.matches(scan_body(body@)),
{
    let cs = chars_of(body);
    let pieces = split_chars(&cs, '\n');
    let ghost ps = split_on(body@, '\n');
    let ghost ls = lines_of(body@);
    proof {
        crate::lemma::lemma_split_on_nonempty(body@, '\n');
    }
    let n: usize = if pieces[pieces.len() - 1].len() == 0 {
        pieces.len() - 1
    } else {
        pieces.len()
    };
    assert(pieces@[pieces@.len() - 1]@ == ps.last());
    let ct_prefix = chars_of("Content-Type");
    let http_prefix = chars_of("HTTP");
    let html_tag = chars_of("<html");
    let html_type = chars_of("text/html");
    let mut content_type: Option<String> = None;
    let mut status_code: Option<usize> = None;
    let mut html = String::new();
    let mut header_seen = false;
    let mut i: usize = 0;
    while i < n
        invariant
            n == ls.len(),
            n <= pieces@.len(),
            pieces@.map_values(|p: Vec<char>| p@) == ps,
            ls == lines_of(body@),
            ps == split_on(body@, '\n'),
            ct_prefix@ == "Content-Type"@,
            http_prefix@ == "HTTP"@,
            html_tag@ == "<html"@,
            html_type@ == "text/html"@,
            i <= n,
            scan_lines(ls, i as int) == (ScanState {
                content_type: opt_view(content_type),
                status_code,
                html: html@,
                header_seen,
                rejected: false,
            }),
        decreases n - i,
    {
        let mut line = pieces[i].clone();
        assert(line@ == ps[i as int]);
        if i + 1 < pieces.len() && line.len() > 0 && line[line.len() - 1] == '\r' {
            line.pop();
        }
        assert(line@ == ls[i as int]);
        if starts_with_chars(&line, &ct_prefix) {
            let ct = extract_content_type(&line);
            let is_html = match &ct {
                Some(t) => contains_chars(&chars_of(t.as_str()), &html_type),
                None => false,
            };
            if !is_html {
                proof {
                    lemma_rejected_stays(ls, i + 1, n as int);
                }
                return HttpScan { content_type: ct, status_code, html, rejected: true };
            }
            content_type = ct;
            header_seen = true;
        } else if starts_with_chars(&line, &http_prefix) {
            status_code = extract_status(&line);
            header_seen = true;
        } else if header_seen && (contains_chars(&line, &html_tag) || !html.as_str().is_empty()) {
            proof {
                vstd::utf8::encode_utf8_valid_utf8(html@);
            }
            let ghost h = html@;
            html.append(string_of(line.as_slice()).as_str());
            assert(html@ == h + line@);
        }
        i = i + 1;
    }
    HttpScan { content_type, status_code, html, rejected: false }
}

proof fn lemma_rejected_stays(ls: Seq<Seq<char>>, k: int, n: int)
    requires
        0 < k <= n <= ls.len(),
        scan_lines(ls, k).rejected,
    ensures
        scan_lines(ls, n) == scan_lines(ls, k),
    decreases n - k,
{
    if n > k {
        lemma_rejected_stays(ls, k, n - 1);
    }
}

/// The ISO 639-3 code of the language whichlang detects in `text`.
pub uninterp spec fn detected_language_code(text: Seq<char>) -> Seq<char>;

/// Relies on whichlang's `detect_language` and `Lang::three_letter_code`:
/// the result depends on the text alone.
#[verifier::external_body]
fn detect_language_code(text: &str) -> (r: String)
    ensures
        r@ == detected_language_code(text@),
{
    whichlang::detect_language(text).three_letter_code().to_string()
}

pub open spec fn opt_usize(header: Option<String>) -> Option<usize> {
    match header {
        Some(h) => parsed_usize(h@),
        None => None,
    }
}

/// The page's text, where a parsed page takes it from.
pub open spec fn scanned_text(st: ScanState) -> Seq<char> {
    document_text(html_tree_of(st.html))
}

/// A response is kept when it declared HTML, holds HTML of at most
/// `u32::MAX` bytes, the HTML has visible text, and that text is detected
/// as English.
pub open spec fn is_kept(st: ScanState) -> bool {
    &&& !st.rejected
    &&& is_html_type(st.content_type)
    &&& st.html.len() > 0
    &&& encode_utf8(st.html).len() <= u32::MAX
    &&& scanned_text(st).len() > 0
    &&& detected_language_code(scanned_text(st)) == "eng"@
}

/// The fields of the page parsed from `record`, whose body scanned to `st`.
pub open spec fn is_page_of(record: WarcRecord, d: Map<Seq<u8>, Seq<char>>, st: ScanState, p: Webpage) -> bool {
    let tree = html_tree_of(st.html);
    let text = scanned_text(st);
    let base = match record.target_uri {
        Some(u) => u@,
        None => Seq::empty(),
    };
    let links = subtree_links(tree, 0, base);
    &&& opt_view(p.warc_date) == opt_view(record.date)
    &&& opt_view(p.warc_target_uri) == opt_view(record.target_uri)
    &&& opt_view(p.warc_identified_payload_type) == opt_view(record.identified_payload_type)
    &&& p.status_code == st.status_code
    &&& opt_view(p.content_type) == st.content_type
    &&& p.content_length == opt_usize(record.content_length)
    &&& opt_view(p.html_body) == Some(st.html)
    &&& opt_view(p.title) == subtree_title(tree, 0)
    &&& opt_view(p.description) == subtree_description(tree, 0)
    &&& (if links.len() == 0 {
        p.links is None
    } else {
        p.links is Some && views(p.links->0@) == links
    })
    &&& opt_view(p.text_body) == Some(text)
    &&& p.lang == Some(Language::Eng)
    &&& p.lemmatised_text is Some && views(p.lemmatised_text->0@) == lemmatised(d, text)
}

/// What parsing `record` gives: the decoder's error for a body that is not
/// UTF-8; the page for a kept response; nothing otherwise.
pub open spec fn is_parse_of(
    record: WarcRecord,
    d: Map<Seq<u8>, Seq<char>>,
    r: Result<Option<Webpage>, ParseError>,
) -> bool {
    if !valid_utf8(record.body@) {
        r matches Err(ParseError::BodyEncodingError(m)) && m@ == utf8_error_text(record.body@)
    } else {
        let st = scan_body(decode_utf8(record.body@));
        if is_kept(st) {
            r matches Ok(Some(p)) && is_page_of(record, d, st, p)
        } else {
            r matches Ok(None)
        }
    }
}

fn clone_opt(o: &Option<String>) -> (r: Option<String>)
    ensures
        opt_view(r) == opt_view(*o),
{
    match o {
        Some(s) => Some(s.clone()),
        None => None,
    }
}

impl Webpage {
    /// Parses one WARC record into a page, lemmatising with `dictionary`.
    pub fn parse_record(record: &WarcRecord, dictionary: &LemmaDictionary) -> (r: Result<Option<Self>, ParseError>)
        requires
            dictionary.wf(),
        ensures
            is_parse_of(*record, dictionary@, r),
    {
        let body = match decode_utf8_text(record.body.as_slice()) {
            Ok(b) => b,
            Err(m) => return Err(ParseError::BodyEncodingError(m)),
        };
        let scan = scan_http_response(body.as_str());
        if scan.rejected {
            return Ok(None);
        }
        let content_type = match scan.content_type {
            Some(ct) => ct,
            None => return Ok(None),
        };
        if !contains_chars(&chars_of(content_type.as_str()), &chars_of("text/html")) || scan.html.as_str().is_empty()
            || scan.html.as_str().as_bytes().len() > u32::MAX as usize {
            return Ok(None);
        }
        let tree = parse_html(scan.html.as_str());
        let text = extract_text_from_html(&tree);
        if text.as_str().is_empty() {
            return Ok(None);
        }
        let code = detect_language_code(text.as_str());
        if !str_eq(code.as_str(), "eng") {
            return Ok(None);
        }
        let lemmas = lemmatise_string(dictionary, text.as_str());
        let base = match &record.target_uri {
            Some(u) => u.clone(),
            None => String::new(),
        };
        let links = extract_links_from_html(&tree, base.as_str());
        let content_length = match &record.content_length {
            Some(h) => parse_usize(&chars_of(h.as_str())),
            None => None,
        };
        let title = extract_title_from_html(&tree, 0);
        let description = extract_description_from_html(&tree, 0);
        let has_links = links.len() > 0;
        Ok(
            Some(
                Webpage {
                    warc_date: clone_opt(&record.date),
                    warc_target_uri: clone_opt(&record.target_uri),
                    warc_identified_payload_type: clone_opt(&record.identified_payload_type),
                    status_code: scan.status_code,
                    content_type: Some(content_type),
                    content_length,
                    html_body: Some(scan.html),
                    title,
                    description,
                    links: if has_links {
                        Some(links)
                    } else {
                        None
                    },
                    text_body: Some(text),
                    lang: Some(Language::Eng),
                    lemmatised_text: Some(lemmas),
                },
            ),
        )
    }
}

/// Parsing is a function of the record and the dictionary: two parses of
/// one record give the same title, description, links and lemmas.
pub proof fn law_reparse_identical(
    record: WarcRecord,
    d: Map<Seq<u8>, Seq<char>>,
    r1: Result<Option<Webpage>, ParseError>,
    r2: Result<Option<Webpage>, ParseError>,
)
    requires
        is_parse_of(record, d, r1),
        is_parse_of(record, d, r2),
    ensures
        r1 is Ok <==> r2 is Ok,
        r1 matches Ok(Some(p1)) ==> (r2 matches Ok(Some(p2)) && {
            &&& opt_view(p1.title) == opt_view(p2.title)
            &&& opt_view(p1.description) == opt_view(p2.description)
            &&& (p1.links is Some <==> p2.links is Some)
            &&& (p1.links is Some ==> views(p1.links->0@) == views(p2.links->0@))
            &&& views(p1.lemmatised_text->0@) == views(p2.lemmatised_text->0@)
        }),
        r1 matches Ok(None) ==> r2 matches Ok(None),
{
}

/// A response that declares a media type other than HTML gives no page.
pub proof fn law_non_html_type_dropped(record: WarcRecord, d: Map<Seq<u8>, Seq<char>>, r: Result<Option<Webpage>, ParseError>)
    requires
        is_parse_of(record, d, r),
        valid_utf8(record.body@),
        scan_body(decode_utf8(record.body@)).rejected,
    ensures
        r matches Ok(None),
{
}

/// A page whose text is not detected as English is dropped before it is
/// lemmatised.
pub proof fn law_non_english_dropped(record: WarcRecord, d: Map<Seq<u8>, Seq<char>>, r: Result<Option<Webpage>, ParseError>)
    requires
        is_parse_of(record, d, r),
        valid_utf8(record.body@),
        detected_language_code(scanned_text(scan_body(decode_utf8(record.body@)))) != "eng"@,
    ensures
        r matches Ok(None),
{
}

} // verus!
