use genre_graph::dump_date::{parse_wiki_dump_date, format_dump_filename, format_date_iso, DumpDate};
use genre_graph::page::{sanitize_page_name, unsanitize_page_name, PageName};
use genre_graph::strutil::{trim_string, ascii_lower_string, str_lt, str_eq, str_contains, usize_to_string, is_blank_bytes};
use genre_graph::timestamp::{parse_timestamp, make_header, parse_header};
use genre_graph::wikitext::{WtNode, WtParameter, InnerTextConfig, nodes_inner_text, param_lookup, get_links_from_nodes};
use genre_graph::simplify::{simplify_wikitext_nodes, SimplifiedNode, SimplifyError};

#[test]
fn test_parse_wiki_dump_date() {
    assert_eq!(
        parse_wiki_dump_date("enwiki-20250123-pages-articles-multistream"),
        Some(DumpDate { year: 2025, month: 1, day: 23 })
    );
    assert_eq!(parse_wiki_dump_date("invalid"), None);
}

#[test]
fn dump_date_rejects_bad_dates() {
    assert_eq!(parse_wiki_dump_date("enwiki-20251301-pages-articles-multistream"), None);
    assert_eq!(parse_wiki_dump_date("enwiki-20250230-pages-articles-multistream"), None);
    assert_eq!(parse_wiki_dump_date("enwiki-20240229-pages-articles-multistream"),
        Some(DumpDate { year: 2024, month: 2, day: 29 }));
    assert_eq!(parse_wiki_dump_date("enwiki-2025012-pages-articles-multistream"), None);
}

#[test]
fn dump_date_round_trips() {
    let d = DumpDate { year: 2025, month: 1, day: 23 };
    let name = format_dump_filename(&d);
    assert_eq!(name, "enwiki-20250123-pages-articles-multistream");
    assert_eq!(parse_wiki_dump_date(&name), Some(d));
    assert_eq!(format_date_iso(&d), "2025-01-23");
}

#[test]
fn sanitize_round_trips() {
    let title = PageName(String::from("AC/DC"));
    let safe = sanitize_page_name(&title);
    assert_eq!(safe, "AC\u{29F8}DC");
    assert_eq!(unsanitize_page_name(&safe), title);
    let plain = PageName(String::from("Rock music"));
    assert_eq!(unsanitize_page_name(&sanitize_page_name(&plain)), plain);
}

#[test]
fn header_round_trips() {
    let ts = parse_timestamp("2024-01-01T00:00:00Z").expect("timestamp parses");
    assert_eq!(ts.seconds, 1704067200);
    assert_eq!(ts.nanos, 0);
    let header = make_header(&ts);
    assert_eq!(header, "{\"timestamp\":\"2024-01-01T00:00:00Z\"}");
    let text = parse_header(&header).expect("header parses");
    let again = parse_timestamp(&text).expect("round trip parses");
    assert_eq!(again.seconds, ts.seconds);
    assert_eq!(again.nanos, ts.nanos);
}

#[test]
fn timestamp_is_canonicalized() {
    // An offset form is rendered back in the canonical Zulu form.
    let ts = parse_timestamp("2024-01-01T12:30:00+00:00").expect("timestamp parses");
    assert_eq!(ts.text, "2024-01-01T12:30:00Z");
    assert!(parse_timestamp("not a time").is_none());
}

#[test]
fn header_rejects_malformed_lines() {
    assert!(parse_header("{\"timestamp\":2024}").is_none());
    assert!(parse_header("").is_none());
    assert!(parse_header("{\"timestamp\":\"a\"b\"}").is_none());
}

#[test]
fn string_helpers_work() {
    assert_eq!(trim_string(&String::from("  a b \n")), "a b");
    assert_eq!(trim_string(&String::from("\u{00A0}x\u{00A0}")), "x");
    assert_eq!(ascii_lower_string(&String::from("AbC-9")), "abc-9");
    assert!(str_lt("Abba", "Beatles"));
    assert!(!str_lt("b", "B"));
    assert!(str_eq("same", "same"));
    assert!(!str_eq("same", "sane"));
    assert!(str_contains("nfobox music genre in text", "nfobox music genre"));
    assert!(!str_contains("infobox", "nfobox music genre"));
    assert_eq!(usize_to_string(0), "0");
    assert_eq!(usize_to_string(1507), "1507");
    assert!(is_blank_bytes(&b"  \n\t".to_vec()));
    assert!(!is_blank_bytes(&b" x ".to_vec()));
    assert!(is_blank_bytes(&"\u{2003}\u{3000}".as_bytes().to_vec()));
}

fn text_node(value: &str) -> WtNode {
    WtNode::Text { start: 0, end: 0, value: String::from(value) }
}

#[test]
fn inner_text_stops_at_br() {
    let nodes = vec![
        text_node("Rock music"),
        WtNode::StartTag { start: 0, end: 0, name: String::from("br") },
        text_node("rock and roll"),
    ];
    let all = nodes_inner_text(&nodes, &InnerTextConfig { stop_after_br: false });
    assert_eq!(all, "Rock musicrock and roll");
    let first = nodes_inner_text(&nodes, &InnerTextConfig { stop_after_br: true });
    assert_eq!(first, "Rock music");
}

#[test]
fn inner_text_reads_lang_templates() {
    let lang = WtNode::Template {
        start: 0,
        end: 0,
        name: vec![text_node("lang")],
        parameters: vec![
            WtParameter { start: 0, end: 0, name: None, value: vec![text_node("ja")] },
            WtParameter { start: 0, end: 0, name: None, value: vec![text_node("ongaku")] },
        ],
    };
    let cfg = InnerTextConfig { stop_after_br: false };
    assert_eq!(nodes_inner_text(&vec![lang], &cfg), "ongaku");
    let named = WtNode::Template {
        start: 0,
        end: 0,
        name: vec![text_node("lang")],
        parameters: vec![WtParameter {
            start: 0,
            end: 0,
            name: Some(vec![text_node("text")]),
            value: vec![text_node("payload")],
        }],
    };
    assert_eq!(nodes_inner_text(&vec![named], &cfg), "payload");
}

#[test]
fn param_lookup_takes_the_last_binding() {
    let params = vec![
        WtParameter {
            start: 0,
            end: 0,
            name: Some(vec![text_node("name")]),
            value: vec![text_node("first")],
        },
        WtParameter {
            start: 0,
            end: 0,
            name: Some(vec![text_node("name")]),
            value: vec![text_node("second")],
        },
    ];
    let v = param_lookup(&params, "name").expect("present");
    assert_eq!(v.len(), 1);
    match &v[0] {
        WtNode::Text { value, .. } => assert_eq!(value, "second"),
        other => panic!("unexpected node {:?}", other),
    }
    assert!(param_lookup(&params, "absent").is_none());
}

#[test]
fn link_collection_recurses_into_containers() {
    let nodes = vec![
        WtNode::Link { start: 0, end: 0, target: String::from("Blues"), text: vec![] },
        WtNode::Tag {
            start: 0,
            end: 0,
            name: String::from("div"),
            nodes: vec![WtNode::Link {
                start: 0,
                end: 0,
                target: String::from("Jazz"),
                text: vec![],
            }],
        },
    ];
    assert_eq!(get_links_from_nodes(&nodes), vec!["Blues", "Jazz"]);
}

#[test]
fn bold_italic_opens_two_layers_without_context() {
    let w: Vec<u8> = Vec::new();
    let nodes = vec![WtNode::BoldItalic { start: 0, end: 0 }, text_node("x")];
    let tree = simplify_wikitext_nodes(&w, &nodes).expect("simplifies");
    assert_eq!(
        tree,
        vec![SimplifiedNode::Bold {
            children: vec![SimplifiedNode::Italic {
                children: vec![SimplifiedNode::Text { text: String::from("x") }],
            }],
        }]
    );
}

#[test]
fn bold_italic_closes_a_bold_italic_stack() {
    let w: Vec<u8> = Vec::new();
    let nodes = vec![
        WtNode::Bold { start: 0, end: 0 },
        WtNode::Italic { start: 0, end: 0 },
        text_node("x"),
        WtNode::BoldItalic { start: 0, end: 0 },
        text_node("y"),
    ];
    let tree = simplify_wikitext_nodes(&w, &nodes).expect("simplifies");
    assert_eq!(
        tree,
        vec![
            SimplifiedNode::Bold {
                children: vec![SimplifiedNode::Italic {
                    children: vec![SimplifiedNode::Text { text: String::from("x") }],
                }],
            },
            SimplifiedNode::Text { text: String::from("y") },
        ]
    );
}

#[test]
fn stray_closes_are_ignored() {
    let w: Vec<u8> = Vec::new();
    let nodes = vec![
        text_node("a"),
        WtNode::EndTag { start: 0, end: 0, name: String::from("sup") },
        text_node("b"),
    ];
    let tree = simplify_wikitext_nodes(&w, &nodes).expect("unbalanced input is not rejected");
    assert_eq!(
        tree,
        vec![
            SimplifiedNode::Text { text: String::from("a") },
            SimplifiedNode::Text { text: String::from("b") },
        ]
    );
}

#[test]
fn bold_italic_without_a_bold_layer_opens_two_more() {
    let w: Vec<u8> = Vec::new();
    let nodes = vec![
        WtNode::Italic { start: 0, end: 0 },
        text_node("x"),
        WtNode::BoldItalic { start: 0, end: 0 },
        text_node("y"),
    ];
    let tree = simplify_wikitext_nodes(&w, &nodes).expect("unbalanced input is not rejected");
    assert_eq!(
        tree,
        vec![SimplifiedNode::Italic {
            children: vec![
                SimplifiedNode::Text { text: String::from("x") },
                SimplifiedNode::Bold {
                    children: vec![SimplifiedNode::Italic {
                        children: vec![SimplifiedNode::Text { text: String::from("y") }],
                    }],
                },
            ],
        }]
    );
}

#[test]
fn unknown_nodes_are_a_fatal_fault() {
    let w: Vec<u8> = Vec::new();
    let nodes = vec![WtNode::Table {
        start: 3,
        end: 9,
        attributes: vec![],
        captions: vec![],
        rows: vec![],
    }];
    assert_eq!(
        simplify_wikitext_nodes(&w, &nodes),
        Err(SimplifyError::UnknownNode { start: 3, end: 9 })
    );
}

#[test]
fn external_links_split_on_the_first_space() {
    let w: Vec<u8> = Vec::new();
    let nodes = vec![WtNode::ExternalLink {
        start: 0,
        end: 0,
        nodes: vec![text_node("https://example.com a page")],
    }];
    let tree = simplify_wikitext_nodes(&w, &nodes).expect("simplifies");
    assert_eq!(
        tree,
        vec![SimplifiedNode::ExtLink {
            text: String::from("https://example.com"),
            link: String::from("a page"),
        }]
    );
    let bare = vec![WtNode::ExternalLink {
        start: 0,
        end: 0,
        nodes: vec![text_node("https://example.com")],
    }];
    let tree2 = simplify_wikitext_nodes(&w, &bare).expect("simplifies");
    assert_eq!(
        tree2,
        vec![SimplifiedNode::ExtLink {
            text: String::from("link"),
            link: String::from("https://example.com"),
        }]
    );
}

#[test]
fn template_parameters_take_synthetic_names() {
    let w: Vec<u8> = b"{{foo|alpha|beta}}".to_vec();
    let nodes = vec![WtNode::Template {
        start: 0,
        end: 18,
        name: vec![text_node("foo")],
        parameters: vec![
            WtParameter {
                start: 5,
                end: 11,
                name: None,
                value: vec![WtNode::Text { start: 6, end: 11, value: String::from("alpha") }],
            },
            WtParameter {
                start: 11,
                end: 17,
                name: None,
                value: vec![WtNode::Text { start: 12, end: 16, value: String::from("beta") }],
            },
        ],
    }];
    let tree = simplify_wikitext_nodes(&w, &nodes).expect("simplifies");
    match &tree[0] {
        SimplifiedNode::Template { name, children } => {
            assert_eq!(name, "foo");
            assert_eq!(children.len(), 2);
            assert_eq!(children[0].name, "1");
            assert_eq!(children[0].value, "alpha");
            assert_eq!(children[1].name, "2");
            assert_eq!(children[1].value, "beta");
        },
        other => panic!("unexpected node {:?}", other),
    }
}
