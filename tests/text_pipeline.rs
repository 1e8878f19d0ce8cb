use warc_indexer::html::{
    extract_description_from_html, extract_links_from_html, extract_text_from_html, extract_title_from_html,
    parse_html, HtmlNode, HtmlNodeKind, HtmlTree,
};
use warc_indexer::lemma::{lemmatise_string, LemmaDictionary};

fn dictionary(lines: &[&str]) -> LemmaDictionary {
    LemmaDictionary::from_lines(&lines.iter().map(|l| l.to_string()).collect())
}

fn element(name: &str, children: Vec<usize>) -> HtmlNode {
    HtmlNode { kind: HtmlNodeKind::Element { name: name.to_string(), attrs: Vec::new() }, children }
}

fn text(s: &str) -> HtmlNode {
    HtmlNode { kind: HtmlNodeKind::Text { contents: s.to_string() }, children: Vec::new() }
}

#[test]
fn visible_text_skips_scripts_and_breaks_blocks() {
    let t = parse_html("<html><head><style>p{}</style></head><body><div>one</div>two<br>three<li>four</li><script>no()</script></body></html>");
    assert_eq!(extract_text_from_html(&t), "one\ntwo\nthreefour");
}

#[test]
fn visible_text_is_trimmed() {
    let t = parse_html("<html><body>  \n padded \t </body></html>");
    assert_eq!(extract_text_from_html(&t), "padded");
}

#[test]
fn hand_built_tree_text() {
    let t = HtmlTree {
        nodes: vec![
            HtmlNode { kind: HtmlNodeKind::Document, children: vec![1] },
            element("p", vec![2, 3, 0]),
            text("a"),
            element("style", vec![4]),
            text("hidden"),
        ],
    };
    assert_eq!(extract_text_from_html(&t), "a");
    assert_eq!(extract_text_from_html(&HtmlTree { nodes: Vec::new() }), "");
}

#[test]
fn links_are_resolved_against_the_page() {
    let t = parse_html("<html><body><a href=\"/x\">x</a><a href=\"https://o.example/y\">y</a><a name=\"n\">n</a><a href=\"/x\">again</a></body></html>");
    assert_eq!(
        extract_links_from_html(&t, "https://example.com/dir/page"),
        vec!["https://example.com/x".to_string(), "https://o.example/y".to_string(), "https://example.com/x".to_string()]
    );
}

#[test]
fn unresolvable_link_is_kept_raw() {
    let t = parse_html("<html><body><a href=\"rel/path\">r</a></body></html>");
    assert_eq!(extract_links_from_html(&t, "not a url"), vec!["rel/path".to_string()]);
}

#[test]
fn title_is_first_title_text() {
    let t = parse_html("<html><head><title>First</title></head><body><title>Second</title></body></html>");
    assert_eq!(extract_title_from_html(&t, 0).as_deref(), Some("First"));
    let none = parse_html("<html><body>no title</body></html>");
    assert_eq!(extract_title_from_html(&none, 0), None);
}

#[test]
fn description_element_text() {
    let t = HtmlTree {
        nodes: vec![
            HtmlNode { kind: HtmlNodeKind::Document, children: vec![1] },
            element("description", vec![2]),
            text("about"),
        ],
    };
    assert_eq!(extract_description_from_html(&t, 1).as_deref(), Some("about"));
}

#[test]
fn no_description_element_gives_none() {
    let t = parse_html("<html><head><title>Page</title></head><body>x</body></html>");
    assert_eq!(extract_description_from_html(&t, 0), None);
}

#[test]
fn description_is_found_in_preorder() {
    let t = parse_html("<html><body><div><description>first</description></div><description>second</description></body></html>");
    assert_eq!(extract_description_from_html(&t, 0).as_deref(), Some("first"));
}

#[test]
fn title_is_the_first_title_elements_text() {
    let t = HtmlTree {
        nodes: vec![
            HtmlNode { kind: HtmlNodeKind::Document, children: vec![1, 2] },
            element("title", vec![]),
            element("title", vec![3]),
            text("later"),
        ],
    };
    assert_eq!(extract_title_from_html(&t, 0), None);
}

#[test]
fn lemmatise_lowercases_strips_and_looks_up() {
    let d = dictionary(&["be/V->am, is, are", "child->children", "no arrow here"]);
    let lemmas = lemmatise_string(&d, "The Children ARE here, aren't they?");
    assert_eq!(lemmas, vec!["the", "child", "be", "here", "arent", "they"]);
}

#[test]
fn lemmatise_splits_on_unicode_whitespace() {
    let d = dictionary(&[]);
    assert_eq!(lemmatise_string(&d, "one\u{00a0}two\u{3000}three"), vec!["one", "two", "three"]);
    assert_eq!(lemmatise_string(&d, "café crème"), vec!["caf", "crme"]);
    assert!(lemmatise_string(&d, "  ... !!! ").is_empty());
}

#[test]
fn later_dictionary_line_wins() {
    let d = dictionary(&["go->went", "wend -> went"]);
    assert_eq!(lemmatise_string(&d, "went"), vec!["wend"]);
}

#[test]
fn dictionary_lookup_by_bytes() {
    let d = dictionary(&["mouse/N->mice , mouses"]);
    assert_eq!(d.lookup(b"mice").map(|s| s.as_str()), Some("mouse"));
    assert_eq!(d.lookup(b"mouses").map(|s| s.as_str()), Some("mouse"));
    assert_eq!(d.lookup(b"mouse"), None);
}
