//! A single page fetched as its own small WARC file: its HTML, taken line
//! by line from the file, and the HTML handed to the plain-text renderer.

use vstd::prelude::*;
use crate::http::{contains, contains_chars, starts_with, starts_with_chars};
use crate::lemma::chars_of;
use crate::text::views;

verus! {

/// The column width plain text is wrapped to.
pub const TEXT_WIDTH: usize = 80;

/// Where the line scan of a single-page WARC file stands.
pub struct WarcHtmlState {
    pub in_http_header: bool,
    pub in_html: bool,
    pub html_found: bool,
    pub html: Seq<char>,
}

/// One line: a `WARC/` line ends any HTML; a `Content-Type:
/// application/http;` line opens the HTTP header, which its `HTTP/` line
/// closes; the first line holding `<html` and every line after it, up to
/// the next `WARC/` line, are kept, each with a line break.
pub open spec fn warc_html_step(st: WarcHtmlState, line: Seq<char>) -> WarcHtmlState {
    if starts_with(line, "WARC/"@) {
        WarcHtmlState { in_http_header: false, in_html: false, ..st }
    } else if starts_with(line, "Content-Type: application/http;"@) {
        WarcHtmlState { in_http_header: true, ..st }
    } else if st.in_http_header && starts_with(line, "HTTP/"@) {
        WarcHtmlState { in_http_header: false, ..st }
    } else if !st.html_found && contains(line, "<html"@) {
        WarcHtmlState { html: st.html + line.push('\n'), in_html: true, html_found: true, ..st }
    } else if st.in_html {
        WarcHtmlState { html: st.html + line.push('\n'), ..st }
    } else {
        st
    }
}

pub open spec fn warc_html_scan(lines: Seq<Seq<char>>, k: int) -> WarcHtmlState
    decreases k,
{
    if 0 < k <= lines.len() {
        warc_html_step(warc_html_scan(lines, k - 1), lines[k - 1])
    } else {
        WarcHtmlState { in_http_header: false, in_html: false, html_found: false, html: Seq::empty() }
    }
}

/// The HTML of a single-page WARC file, given its lines.
pub fn html_from_warc_lines(lines: &Vec<String>) -> (r: String)
    ensures
        r@ == warc_html_scan(views(lines@), lines@.len() as int).html,
{
    let warc = chars_of("WARC/");
    let http_type = chars_of("Content-Type: application/http;");
    let http = chars_of("HTTP/");
    let html_tag = chars_of("<html");
    let mut in_http_header = false;
    let mut in_html = false;
    let mut html_found = false;
    let mut html = String::new();
    let mut i: usize = 0;
    while i < lines.len()
        invariant
            warc@ == "WARC/"@,
            http_type@ == "Content-Type: application/http;"@,
            http@ == "HTTP/"@,
            html_tag@ == "<html"@,
            i <= lines@.len(),
            warc_html_scan(views(lines@), i as int) == (WarcHtmlState { in_http_header, in_html, html_found, html: html@ }),
        decreases lines@.len() - i,
    {
        let line = chars_of(lines[i].as_str());
        assert(line@ == views(lines@)[i as int]);
        if starts_with_chars(&line, &warc) {
            in_http_header = false;
            in_html = false;
        } else if starts_with_chars(&line, &http_type) {
            in_http_header = true;
        } else if in_http_header && starts_with_chars(&line, &http) {
            in_http_header = false;
        } else if !html_found && contains_chars(&line, &html_tag) {
            let ghost h = html@;
            html.append(lines[i].as_str());
            html.append("\n");
            proof {
                reveal_strlit("\n");
            }
            assert(html@ =~= h + line@.push('\n'));
            in_html = true;
            html_found = true;
        } else if in_html {
            let ghost h = html@;
            html.append(lines[i].as_str());
            html.append("\n");
            proof {
                reveal_strlit("\n");
            }
            assert(html@ =~= h + line@.push('\n'));
        }
        i = i + 1;
    }
    html
}

/// The lines joined with line breaks between them.
pub open spec fn joined_lines(lines: Seq<Seq<char>>) -> Seq<char>
    decreases lines.len(),
{
    if lines.len() == 0 {
        Seq::empty()
    } else if lines.len() == 1 {
        lines[0]
    } else {
        joined_lines(lines.drop_last()).push('\n') + lines.last()
    }
}

/// The HTML of a file given as lines, the lines joined with line breaks:
/// what is rendered as the page's plain text.
pub fn html_from_lines(lines: &Vec<String>) -> (r: String)
    ensures
        r@ == joined_lines(views(lines@)),
{
    let mut html = String::new();
    let mut i: usize = 0;
    while i < lines.len()
        invariant
            i <= lines@.len(),
            html@ == joined_lines(views(lines@).subrange(0, i as int)),
        decreases lines@.len() - i,
    {
        let ghost h = html@;
        let ghost pre = views(lines@).subrange(0, i as int);
        let ghost next = views(lines@).subrange(0, i + 1);
        assert(next.drop_last() =~= pre);
        if i > 0 {
            html.append("\n");
            proof {
                reveal_strlit("\n");
            }
        }
        html.append(lines[i].as_str());
        assert(html@ =~= joined_lines(next));
        i = i + 1;
    }
    assert(views(lines@).subrange(0, i as int) =~= views(lines@));
    html
}

} // verus!
