use genre_graph::page::PageName;
use genre_graph::process::{strip_comment_spans, walk_genre_page, DataPatches};
use genre_graph::resolver::LinksToArticles;
use genre_graph::timestamp::parse_timestamp;
use genre_graph::wikitext::{WtNode, WtParameter};
use genre_graph::dump_date::parse_wiki_dump_date;
use genre_graph::dump_date::DumpDate;

fn text_at(start: usize, end: usize, value: &str) -> WtNode {
    WtNode::Text { start, end, value: String::from(value) }
}

fn infobox_node() -> WtNode {
    // The spans index into "{{Infobox music genre|name=X}}".
    WtNode::Template {
        start: 0,
        end: 30,
        name: vec![text_at(2, 21, "Infobox music genre")],
        parameters: vec![WtParameter {
            start: 21,
            end: 28,
            name: Some(vec![text_at(22, 26, "name")]),
            value: vec![text_at(27, 28, "X")],
        }],
    }
}

#[test]
fn walk_captures_between_infobox_and_heading() {
    let bytes = b"{{Infobox music genre|name=X}}AB<!--c-->CD==H==EF".to_vec();
    let nodes = vec![
        infobox_node(),
        text_at(30, 32, "AB"),
        WtNode::Comment { start: 32, end: 40 },
        text_at(40, 42, "CD"),
        WtNode::Heading { start: 42, end: 47, level: 2, nodes: vec![text_at(44, 45, "H")] },
        text_at(47, 49, "EF"),
    ];
    let links = LinksToArticles::new();
    let patches = DataPatches::new();
    let rev = parse_timestamp("2024-01-01T00:00:00Z").expect("timestamp parses");
    let (record, desc) = walk_genre_page(
        &PageName(String::from("X page")),
        &bytes,
        &nodes,
        &links,
        &patches,
        &rev,
    )
    .expect("walks")
    .expect("finds the infobox");
    assert_eq!(record.name.0, "X");
    // The comment's span advances the capture point, so its text is gone;
    // the text after the heading is gone too.
    assert_eq!(desc, Some(b"ABCD".to_vec()));
}

#[test]
fn walk_keeps_the_text_between_nodes() {
    let bytes = b"{{Infobox music genre|name=X}}AB CD".to_vec();
    let nodes = vec![infobox_node(), text_at(30, 32, "AB"), text_at(33, 35, "CD")];
    let links = LinksToArticles::new();
    let patches = DataPatches::new();
    let rev = parse_timestamp("2024-01-01T00:00:00Z").expect("timestamp parses");
    let (_, desc) = walk_genre_page(
        &PageName(String::from("X page")),
        &bytes,
        &nodes,
        &links,
        &patches,
        &rev,
    )
    .expect("walks")
    .expect("finds the infobox");
    // The space between the two text nodes lies between their spans and is
    // kept in the capture.
    assert_eq!(desc, Some(b"AB CD".to_vec()));
}

#[test]
fn comment_spans_are_cut_out() {
    let bytes = b"ab<!--x-->cd".to_vec();
    let nodes = vec![WtNode::Comment { start: 2, end: 10 }];
    assert_eq!(strip_comment_spans(&bytes, &nodes), Some(b"abcd".to_vec()));
    let bad = vec![WtNode::Comment { start: 5, end: 99 }];
    assert_eq!(strip_comment_spans(&bytes, &bad), None);
}

#[test]
fn a_bare_date_filename_still_parses() {
    assert_eq!(
        parse_wiki_dump_date("enwiki-20250123"),
        Some(DumpDate { year: 2025, month: 1, day: 23 })
    );
    assert_eq!(parse_wiki_dump_date("enwiki-20250123x-rest"), None);
}
