use warc_indexer::single_page::{html_from_lines, html_from_warc_lines, TEXT_WIDTH};

fn lines(ls: &[&str]) -> Vec<String> {
    ls.iter().map(|l| l.to_string()).collect()
}

#[test]
fn html_is_taken_from_the_response_record() {
    let file = lines(&[
        "WARC/1.0",
        "WARC-Type: response",
        "Content-Type: application/http; msgtype=response",
        "",
        "HTTP/1.1 200 OK",
        "Content-Type: text/html",
        "",
        "  <html lang=\"en\">",
        "<body>hi</body>",
        "</html>",
        "WARC/1.0",
        "WARC-Type: metadata",
        "<html>not kept</html>",
    ]);
    assert_eq!(html_from_warc_lines(&file), "  <html lang=\"en\">\n<body>hi</body>\n</html>\n");
}

#[test]
fn no_html_gives_empty_text() {
    assert_eq!(html_from_warc_lines(&lines(&["WARC/1.0", "plain"])), "");
}

#[test]
fn html_lines_are_joined_with_line_breaks() {
    assert_eq!(html_from_lines(&lines(&["<html><body><p>Hello</p>", "<p>World</p></body></html>"])), "<html><body><p>Hello</p>\n<p>World</p></body></html>");
    assert_eq!(html_from_lines(&lines(&["one"])), "one");
    assert_eq!(html_from_lines(&lines(&[])), "");
    assert_eq!(TEXT_WIDTH, 80);
}
