use v8cli::dom::{
    doc_text, inner_html, is_block, node_info, parse, query, query_all, resolve_url, text, tree,
    DocStore,
};

const PAGE: &str = "<html><head><title> Hi  there </title><style>p{}</style></head><body>\
<h1>Hello</h1><p>Some <a href=\"/x\">link</a> text</p>\
<form action=\"/s\"><input name=\"q\" required><button>Go</button></form>\
</body></html>";

#[test]
fn semantic_tree_numbers_nodes_with_handles() {
    let mut store = DocStore::new();
    let id = parse(&mut store, PAGE, Some("https://example.com/"));
    assert_eq!(id, 0);
    let out = tree(&mut store, id).unwrap();
    assert_eq!(
        out,
        "url: https://example.com/\n\
         title: Hi there\n\
         [0] h1 \"Hello\"\n\
         [1] text \"Some link text\"\n\
         [2] link \"link\" -> https://example.com/x\n\
         [3] form method=GET action=https://example.com/s\n\
         [4] input type=text name=\"q\" required\n\
         [5] button \"Go\"\n"
    );
    // the printed numbers are handles of the same nodes
    assert_eq!(text(&store, id, 0).unwrap(), "Hello");
    assert_eq!(text(&store, id, 2).unwrap(), "link");
    assert_eq!(node_info(&store, id, 4).unwrap(), r#"{"attrs":{"name":"q","required":""},"tag":"input"}"#);
    // a second tree registers fresh handles after the first ones
    let again = tree(&mut store, id).unwrap();
    assert!(again.contains("[6] h1 \"Hello\"\n"));
    assert!(again.contains("[11] button \"Go\"\n"));
    // earlier handles still address what they did
    assert_eq!(text(&store, id, 0).unwrap(), "Hello");
    assert_eq!(text(&store, id, 6).unwrap(), "Hello");
}

#[test]
fn tree_without_base_url_keeps_links_as_written() {
    let mut store = DocStore::new();
    let id = parse(&mut store, "<p>Read <a href=\"a b\">more</a></p><img alt=\"Logo\">", None);
    let out = tree(&mut store, id).unwrap();
    assert_eq!(
        out,
        "[0] text \"Read more\"\n[1] link \"more\" -> a b\n[2] img \"Logo\"\n"
    );
}

#[test]
fn tree_skips_hidden_and_script_content() {
    let mut store = DocStore::new();
    let id = parse(
        &mut store,
        "<body><div aria-hidden=\"true\"><button>x</button></div><script>var a;</script>\
         <nav><a href=\"/only\">Only</a></nav><p><a href=\"/y\">just a link</a></p></body>",
        Some("https://example.com/dir/"),
    );
    let out = tree(&mut store, id).unwrap();
    assert_eq!(
        out,
        "url: https://example.com/dir/\n\
         [0] link \"Only\" -> https://example.com/only\n\
         [1] link \"just a link\" -> https://example.com/y\n"
    );
}

#[test]
fn tree_describes_form_controls() {
    let mut store = DocStore::new();
    let id = parse(
        &mut store,
        "<form method=\"post\"><input type=\"email\" placeholder=\"you@x\" value=\"v\">\
         <textarea name=\"t\"></textarea><select name=\"s\"><option>One</option><option> Two </option></select>\
         <button aria-label=\"Send\"></button><a href=\"/z\" title=\"Zed\"></a></form>",
        None,
    );
    let out = tree(&mut store, id).unwrap();
    assert_eq!(
        out,
        "[0] form method=POST\n\
         [1] input type=email placeholder=\"you@x\" value=\"v\"\n\
         [2] textarea name=\"t\"\n\
         [3] select name=\"s\" [One | Two]\n\
         [4] button \"Send\"\n\
         [5] link \"Zed\" -> /z\n"
    );
}

#[test]
fn long_text_is_truncated_in_the_tree() {
    let mut store = DocStore::new();
    let body = format!("<p>{}</p>", "a".repeat(205));
    let id = parse(&mut store, &body, None);
    let out = tree(&mut store, id).unwrap();
    assert_eq!(out, format!("[0] text \"{}\u{2026}\"\n", "a".repeat(200)));
}

#[test]
fn tree_lists_at_most_five_hundred_items() {
    let mut store = DocStore::new();
    let body: String = (0..503).map(|i| format!("<p>n{i}</p>")).collect();
    let id = parse(&mut store, &body, None);
    let out = tree(&mut store, id).unwrap();
    assert!(out.contains("[499] text \"n499\"\n"));
    assert!(!out.contains("n500"));
    assert!(out.ends_with("... (+3 more)\n"));
    // only the listed lines were registered
    assert_eq!(text(&store, id, 499).unwrap(), "n499");
    assert_eq!(text(&store, id, 500).unwrap_err(), "invalid node handle");
}

#[test]
fn readable_text_breaks_lines_at_blocks() {
    let mut store = DocStore::new();
    let id = parse(&mut store, PAGE, None);
    assert_eq!(doc_text(&store, id).unwrap(), "Hello\nSome link text\nGo");

    let id2 = parse(
        &mut store,
        "<div>a<br><br><br>b</div><script>x()</script><ul><li>one</li><li>two</li></ul>",
        None,
    );
    assert_eq!(doc_text(&store, id2).unwrap(), "a\n\nb\none\ntwo");
}

#[test]
fn queries_register_handles() {
    let mut store = DocStore::new();
    let id = parse(&mut store, PAGE, Some("https://example.com/"));
    assert_eq!(query(&mut store, id, -1, "a").unwrap(), 0);
    assert_eq!(query(&mut store, id, -1, "table").unwrap(), -1);
    assert_eq!(query_all(&mut store, id, -1, "input, button").unwrap(), "[1,2]");
    assert_eq!(query_all(&mut store, id, -1, "video").unwrap(), "[]");
    let form = query(&mut store, id, -1, "form").unwrap();
    assert_eq!(form, 3);
    assert_eq!(query(&mut store, id, form, "button").unwrap(), 4);
    assert_eq!(query(&mut store, id, form, "h1").unwrap(), -1);
    assert_eq!(text(&store, id, 4).unwrap(), "Go");
    assert_eq!(inner_html(&store, id, 0).unwrap(), "link");
    assert_eq!(node_info(&store, id, 0).unwrap(), r#"{"attrs":{"href":"/x"},"tag":"a"}"#);
}

#[test]
fn errors_name_what_went_wrong() {
    let mut store = DocStore::new();
    assert_eq!(text(&store, 0, -1).unwrap_err(), "invalid document id");
    let id = parse(&mut store, PAGE, None);
    assert_eq!(text(&store, id, 7).unwrap_err(), "invalid node handle");
    assert!(query(&mut store, id, -1, "a[").unwrap_err().starts_with("bad selector \"a[\": "));
    assert!(query_all(&mut store, 5, -1, "a").is_err());
    assert_eq!(query(&mut store, 5, -1, "a").unwrap_err(), "invalid document id");
}

#[test]
fn root_handle_addresses_the_root_element() {
    let mut store = DocStore::new();
    let id = parse(&mut store, "<p>x<b>y</b></p>", None);
    assert_eq!(text(&store, id, -1).unwrap(), "xy");
    assert_eq!(
        inner_html(&store, id, -1).unwrap(),
        "<head></head><body><p>x<b>y</b></p></body>"
    );
    assert_eq!(node_info(&store, id, -1).unwrap(), r#"{"attrs":{},"tag":"html"}"#);
}

#[test]
fn urls_resolve_against_the_document_base() {
    let mut store = DocStore::new();
    let id = parse(&mut store, "", Some("https://example.com/a/b"));
    assert_eq!(resolve_url(&store, id, "c?d=1").unwrap(), "https://example.com/a/c?d=1");
    assert_eq!(resolve_url(&store, id, "//other.org/").unwrap(), "https://other.org/");
    let bare = parse(&mut store, "", Some("not a url"));
    assert_eq!(resolve_url(&store, bare, "c").unwrap(), "c");
    let none = parse(&mut store, "", None);
    assert_eq!(resolve_url(&store, none, "/x").unwrap(), "/x");
    assert_eq!(resolve_url(&store, 9, "/x").unwrap_err(), "invalid document id");
}

#[test]
fn block_names() {
    assert!(is_block("p"));
    assert!(is_block("summary"));
    assert!(!is_block("span"));
    assert!(!is_block("br"));
}

#[test]
fn query_finds_the_first_of_query_all() {
    let mut store = DocStore::new();
    let id = parse(&mut store, PAGE, None);
    assert_eq!(query_all(&mut store, id, -1, "p, a, button").unwrap(), "[0,1,2]");
    assert_eq!(query(&mut store, id, -1, "p, a, button").unwrap(), 3);
    assert_eq!(node_info(&store, id, 3).unwrap(), node_info(&store, id, 0).unwrap());
    assert_eq!(text(&store, id, 3).unwrap(), "Some link text");
    assert_eq!(query_all(&mut store, id, -1, "table").unwrap(), "[]");
    assert_eq!(query(&mut store, id, -1, "table").unwrap(), -1);
}

#[test]
fn title_is_the_first_the_parser_created() {
    let mut store = DocStore::new();
    // The second title is moved before the table by the parser, so it comes
    // first in the document but was created after the one in the caption.
    let id = parse(
        &mut store,
        "<table><caption><title>A</title></caption><title>B</title></table>",
        None,
    );
    let out = tree(&mut store, id).unwrap();
    assert!(out.starts_with("title: A\n"), "{out}");
}

#[test]
fn readable_text_lines_are_trimmed() {
    let mut store = DocStore::new();
    let id = parse(&mut store, "<p>  x  <b> y </b> </p><div>\n z\t</div>", None);
    assert_eq!(doc_text(&store, id).unwrap(), "x y\nz");
}
