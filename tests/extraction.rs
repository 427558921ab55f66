use rss_torrent::extract::{attribute_values, extract_from_events, Attribute, ParserRule, Scan, XmlEvent};
use rss_torrent::path::{is_match, split_path};
use rss_torrent::scanner::{decode_attribute_list, decode_event, parse_xml, ExtractError, RawAttribute, RawStep};

fn strings(v: &[&str]) -> Vec<String> {
    v.iter().map(|s| s.to_string()).collect()
}

fn rule(path: &str, property: &str) -> ParserRule {
    ParserRule::new(path, property)
}

fn attr(key: &str, value: &str) -> Attribute {
    Attribute { key: key.to_string(), value: value.to_string() }
}

#[test]
fn split_keeps_spaces_after_commas() {
    assert_eq!(split_path("rss, channel, item"), strings(&["rss", " channel", " item"]));
}

#[test]
fn split_plain_path() {
    assert_eq!(split_path("rss,channel,item"), strings(&["rss", "channel", "item"]));
}

#[test]
fn split_edge_cases() {
    assert_eq!(split_path(""), strings(&[""]));
    assert_eq!(split_path("a,,b"), strings(&["a", "", "b"]));
    assert_eq!(split_path(",a,"), strings(&["", "a", ""]));
    assert_eq!(split_path("ä,ö"), strings(&["ä", "ö"]));
}

#[test]
fn match_needs_the_exact_path() {
    let target = strings(&["a", "b"]);
    assert!(is_match(&strings(&["a"]), &"b".to_string(), &target));
    assert!(!is_match(&strings(&["a", "b"]), &"c".to_string(), &target));
    assert!(!is_match(&strings(&[]), &"a".to_string(), &target));
    assert!(!is_match(&strings(&["x"]), &"b".to_string(), &target));
    assert!(!is_match(&strings(&["a"]), &"B".to_string(), &target));
}

#[test]
fn end_to_end_example() {
    let doc = r#"<rss><channel><item url="http://a/1"/><item url="http://a/2"/></channel></rss>"#;
    let r = parse_xml(doc, &rule("rss,channel,item", "url"));
    assert_eq!(r, Ok(strings(&["http://a/1", "http://a/2"])));
}

#[test]
fn spaced_path_misses_plain_names() {
    let doc = r#"<rss><channel><item url="http://a/1"/></channel></rss>"#;
    assert_eq!(parse_xml(doc, &rule("rss, channel, item", "url")), Ok(vec![]));
}

#[test]
fn spaced_path_matches_spaced_names() {
    let r = rule("rss, channel, item", "url");
    let events = vec![
        XmlEvent::Open("rss".to_string()),
        XmlEvent::Open(" channel".to_string()),
        XmlEvent::Empty(" item".to_string(), vec![attr("url", "A")]),
        XmlEvent::Empty("item".to_string(), vec![attr("url", "B")]),
        XmlEvent::Close,
        XmlEvent::Close,
        XmlEvent::End,
    ];
    assert_eq!(extract_from_events(&events, &r), strings(&["A"]));
}

#[test]
fn other_depths_and_ancestors_give_nothing() {
    let r = rule("rss,channel,item", "url");
    let doc = r#"<rss><item url="d2"/><channel><x><item url="d4"/></x><item url="ok"/></channel><other><item url="no"/></other></rss>"#;
    assert_eq!(parse_xml(doc, &r), Ok(strings(&["ok"])));
    assert_eq!(parse_xml(r#"<feed><channel><item url="no"/></channel></feed>"#, &r), Ok(vec![]));
}

#[test]
fn document_order_with_duplicates() {
    let r = rule("a,b", "u");
    let doc = r#"<a><b u="3"/><c/><b u="1"/><b u="3"/><b u="2"/></a>"#;
    assert_eq!(parse_xml(doc, &r), Ok(strings(&["3", "1", "3", "2"])));
}

#[test]
fn open_close_pair_is_not_a_self_closing_tag() {
    let r = rule("rss,channel,item", "url");
    assert_eq!(parse_xml(r#"<rss><channel><item url="X"/></channel></rss>"#, &r), Ok(strings(&["X"])));
    assert_eq!(parse_xml(r#"<rss><channel><item url="X"></item></channel></rss>"#, &r), Ok(vec![]));
}

#[test]
fn partial_paths_do_not_match() {
    let r = rule("a,b", "u");
    assert_eq!(parse_xml(r#"<a><b><c u="deep"/></b></a>"#, &r), Ok(vec![]));
    assert_eq!(parse_xml(r#"<a u="top"/>"#, &r), Ok(vec![]));
}

#[test]
fn missing_attribute_gives_no_entry() {
    let r = rule("rss,channel,item", "url");
    let doc = r#"<rss><channel><item href="h"/><item url="u"/></channel></rss>"#;
    assert_eq!(parse_xml(doc, &r), Ok(strings(&["u"])));
}

#[test]
fn malformed_documents_fail() {
    let r = rule("rss,channel,item", "url");
    assert_eq!(parse_xml(r#"<rss><channel><item url="X"/"#, &r), Err(ExtractError::Malformed));
    assert_eq!(parse_xml(r#"<rss><channel><item url="X"/></chanel></rss>"#, &r), Err(ExtractError::Malformed));
}

#[test]
fn empty_document_gives_nothing() {
    assert_eq!(parse_xml("", &rule("a", "u")), Ok(vec![]));
}

#[test]
fn text_comments_and_declarations_are_skipped() {
    let r = rule("rss,channel,item", "url");
    let doc = "<?xml version=\"1.0\"?>\n<!-- feed -->\n<rss>\n  <channel>\n    <title>T</title>\n    <item url=\"http://a/1\" />\n  </channel>\n</rss>\n";
    assert_eq!(parse_xml(doc, &r), Ok(strings(&["http://a/1"])));
}

#[test]
fn attribute_values_are_raw_text() {
    let r = rule("a", "u");
    assert_eq!(parse_xml(r#"<a u="x&amp;y"/>"#, &r), Ok(strings(&["x&amp;y"])));
}

#[test]
fn attribute_lookup_keeps_every_match() {
    let attrs = vec![attr("u", "1"), attr("v", "2"), attr("u", "3")];
    assert_eq!(attribute_values(&attrs, &"u".to_string()), strings(&["1", "3"]));
    assert_eq!(attribute_values(&attrs, &"w".to_string()), strings(&[]));
    assert_eq!(attribute_values(&vec![], &"u".to_string()), strings(&[]));
}

#[test]
fn unbalanced_close_is_ignored() {
    let r = rule("a", "u");
    let events = vec![XmlEvent::Close, XmlEvent::Empty("a".to_string(), vec![attr("u", "1")]), XmlEvent::End];
    assert_eq!(extract_from_events(&events, &r), strings(&["1"]));
}

#[test]
fn events_after_the_end_are_ignored() {
    let r = rule("a", "u");
    let events = vec![
        XmlEvent::Empty("a".to_string(), vec![attr("u", "1")]),
        XmlEvent::End,
        XmlEvent::Empty("a".to_string(), vec![attr("u", "2")]),
    ];
    assert_eq!(extract_from_events(&events, &r), strings(&["1"]));
}

#[test]
fn scan_tracks_open_elements() {
    let r = rule("a,b", "u");
    let mut scan = Scan::new();
    scan.apply(&XmlEvent::Open("a".to_string()), &r);
    scan.apply(&XmlEvent::Empty("b".to_string(), vec![attr("u", "in")]), &r);
    scan.apply(&XmlEvent::Close, &r);
    scan.apply(&XmlEvent::Empty("b".to_string(), vec![attr("u", "out")]), &r);
    assert!(!scan.is_done());
    scan.apply(&XmlEvent::End, &r);
    assert!(scan.is_done());
    assert_eq!(scan.into_found(), strings(&["in"]));
}

#[test]
fn decoding_steps() {
    match decode_event(RawStep::Open(b"rss".to_vec())) {
        Some(XmlEvent::Open(n)) => assert_eq!(n, "rss"),
        _ => panic!("expected an open tag"),
    }
    assert!(decode_event(RawStep::Open(vec![0xff, 0xfe])).is_none());
    assert!(decode_event(RawStep::Failed).is_none());
    assert!(matches!(decode_event(RawStep::End), Some(XmlEvent::End)));
    assert!(matches!(decode_event(RawStep::Close), Some(XmlEvent::Close)));
}

#[test]
fn undecodable_attributes_are_left_out() {
    let raw = vec![
        Some(RawAttribute { key: b"u".to_vec(), value: vec![0xc3] }),
        None,
        Some(RawAttribute { key: b"u".to_vec(), value: "é".as_bytes().to_vec() }),
    ];
    let attrs = decode_attribute_list(&raw);
    assert_eq!(attrs.len(), 1);
    assert_eq!(attrs[0].key, "u");
    assert_eq!(attrs[0].value, "é");
}

#[test]
fn rule_from_configuration() {
    let r = rule("rss, channel", "url");
    assert_eq!(r.path, strings(&["rss", " channel"]));
    assert_eq!(r.property, "url");
}
