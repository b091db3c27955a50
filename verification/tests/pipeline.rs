use genre_graph::page::PageName;
use genre_graph::scanner::{scan_event, PageEvent, PageOutcome, ScanState};
use genre_graph::resolver::resolve_links_to_articles;
use genre_graph::process::{
    process_genre_wikitext, process_cached_page, remove_ignored_pages_and_detect_duplicates,
    DataPatches, NamePatch, ProcessError, ProcessedGenre, ProcessedGenres,
};
use genre_graph::timestamp::parse_timestamp;
use genre_graph::wikitext::pwt_configuration;
use genre_graph::graph::{produce_graph, LinkData, LinkType};
use genre_graph::dump_date::DumpDate;
use genre_graph::page::PageDataId;
use genre_graph::simplify::SimplifiedNode;

fn page(title: &str) -> PageName {
    PageName(String::from(title))
}

fn feed_page(
    state: &mut ScanState,
    title: &str,
    text: &str,
    timestamp: &str,
    redirect: Option<&str>,
) -> Option<PageOutcome> {
    let events = vec![
        PageEvent::ElementStart { name: String::from("title") },
        PageEvent::TextContent { content: String::from(title) },
        PageEvent::ElementEnd { name: String::from("title") },
        PageEvent::ElementStart { name: String::from("timestamp") },
        PageEvent::TextContent { content: String::from(timestamp) },
        PageEvent::ElementEnd { name: String::from("timestamp") },
    ];
    for ev in events {
        assert!(scan_event(state, ev).is_none());
    }
    if let Some(target) = redirect {
        let ev = PageEvent::EmptyElement {
            name: String::from("redirect"),
            title_attr: Some(String::from(target)),
        };
        assert!(scan_event(state, ev).is_none());
    }
    let text_events = vec![
        PageEvent::ElementStart { name: String::from("text") },
        PageEvent::TextContent { content: String::from(text) },
        PageEvent::ElementEnd { name: String::from("text") },
    ];
    for ev in text_events {
        assert!(scan_event(state, ev).is_none());
    }
    scan_event(state, PageEvent::ElementEnd { name: String::from("page") })
}

const TS: &str = "2024-01-01T00:00:00Z";

#[test]
fn scanner_detects_genres_redirects_and_skips() {
    let mut state = ScanState::new();
    let rock = "{{Infobox music genre|name=Rock music}}\nRock is popular.";
    match feed_page(&mut state, "Rock", rock, TS, None) {
        Some(PageOutcome::Genre { title, header, text }) => {
            assert_eq!(title, page("Rock"));
            assert_eq!(header, "{\"timestamp\":\"2024-01-01T00:00:00Z\"}");
            assert_eq!(text, rock);
        },
        other => panic!("expected a genre outcome, got {:?}", other),
    }
    match feed_page(&mut state, "Rock and roll", "#REDIRECT [[Rock]]", TS, Some("Rock")) {
        Some(PageOutcome::Redirect { source, target }) => {
            assert_eq!(source, page("Rock and roll"));
            assert_eq!(target, page("Rock"));
        },
        other => panic!("expected a redirect outcome, got {:?}", other),
    }
    // A redirect child wins over the genre test, whatever the body holds.
    match feed_page(&mut state, "Other", rock, TS, Some("Rock")) {
        Some(PageOutcome::Redirect { .. }) => {},
        other => panic!("expected a redirect outcome, got {:?}", other),
    }
    match feed_page(&mut state, "Plain", "No infobox here.", TS, None) {
        Some(PageOutcome::Skip) => {},
        other => panic!("expected a skip, got {:?}", other),
    }
}

#[test]
fn scanner_excludes_titles_with_colons() {
    let mut state = ScanState::new();
    let body = "{{Infobox music genre|name=X}}";
    match feed_page(&mut state, "Talk:Rock", body, TS, None) {
        Some(PageOutcome::Skip) => {},
        other => panic!("expected a skip, got {:?}", other),
    }
}

#[test]
fn scanner_reports_bad_timestamps() {
    let mut state = ScanState::new();
    let body = "{{Infobox music genre|name=X}}";
    match feed_page(&mut state, "Rock", body, "not a time", None) {
        Some(PageOutcome::BadTimestamp { title, raw }) => {
            assert_eq!(title, page("Rock"));
            assert_eq!(raw, "not a time");
        },
        other => panic!("expected a bad timestamp, got {:?}", other),
    }
}

#[test]
fn redirect_chains_resolve_to_the_genre() {
    let genres = vec![page("C")];
    let redirects = vec![(page("A"), page("B")), (page("B"), page("C"))];
    let links = resolve_links_to_articles(&genres, &redirects);
    assert_eq!(links.0.get("a"), Some(&page("C")));
    assert_eq!(links.0.get("b"), Some(&page("C")));
    assert_eq!(links.0.get("c"), Some(&page("C")));
    assert_eq!(links.0.get("d"), None);
}

#[test]
fn resolution_is_case_insensitive_through_lowercasing() {
    let genres = vec![page("Rock Music")];
    let redirects = vec![(page("ROCK"), page("ROCK MUSIC"))];
    let links = resolve_links_to_articles(&genres, &redirects);
    assert_eq!(links.0.get("rock music"), Some(&page("Rock Music")));
    assert_eq!(links.0.get("rock"), Some(&page("Rock Music")));
}

fn no_patches() -> DataPatches {
    DataPatches::new()
}

fn process(
    title: &str,
    body: &str,
    genres: Vec<PageName>,
    patches: &DataPatches,
) -> Result<Option<ProcessedGenre>, ProcessError> {
    let configuration = pwt_configuration();
    let links = resolve_links_to_articles(&genres, &Vec::new());
    let rev = parse_timestamp(TS).expect("timestamp parses");
    process_genre_wikitext(
        &configuration,
        &page(title),
        &rev,
        &body.as_bytes().to_vec(),
        &links,
        patches,
    )
}

#[test]
fn minimal_genre_extracts_fields_and_builds_a_graph() {
    let genres = vec![page("Rock"), page("Blues")];
    let rock_body = "{{Infobox music genre\n|name=Rock music\n|stylistic_origins=[[Blues]]\n}}\nRock grew from blues.";
    let rock = process("Rock", rock_body, genres.clone(), &no_patches())
        .expect("processes")
        .expect("has an infobox");
    assert_eq!(rock.name.0, "Rock music");
    assert_eq!(rock.stylistic_origins, vec![page("Blues")]);
    assert!(rock.derivatives.is_empty());

    let blues_body = "{{Infobox music genre\n|name=Blues\n}}\nBlues text.";
    let blues = process("Blues", blues_body, genres.clone(), &no_patches())
        .expect("processes")
        .expect("has an infobox");

    let records = ProcessedGenres(vec![(page("Rock"), rock), (page("Blues"), blues)]);
    let records = remove_ignored_pages_and_detect_duplicates(records, &no_patches())
        .expect("no duplicates");
    let graph = produce_graph(&DumpDate { year: 2025, month: 1, day: 23 }, records);

    assert_eq!(graph.dump_date, "2025-01-23");
    assert_eq!(graph.nodes.len(), 2);
    assert_eq!(graph.nodes[0].page_title, page("Blues"));
    assert_eq!(graph.nodes[0].id, PageDataId(0));
    assert_eq!(graph.nodes[1].page_title, page("Rock"));
    assert_eq!(graph.nodes[1].id, PageDataId(1));
    assert_eq!(
        graph.links,
        vec![LinkData {
            source: PageDataId(0),
            target: PageDataId(1),
            ty: LinkType::Derivative,
        }]
    );
    assert_eq!(graph.nodes[0].links, vec![0]);
    assert_eq!(graph.nodes[1].links, vec![0]);
    assert_eq!(graph.max_degree, 1);
}

#[test]
fn unresolved_links_are_dropped() {
    let genres = vec![page("Rock")];
    let body = "{{Infobox music genre\n|name=Rock\n|stylistic_origins=[[Blues]], [[Jazz]]\n}}";
    let rock = process("Rock", body, genres, &no_patches())
        .expect("processes")
        .expect("has an infobox");
    assert!(rock.stylistic_origins.is_empty());
}

#[test]
fn pages_without_an_infobox_yield_nothing() {
    let out = process("Rock", "Just prose, no template.", vec![page("Rock")], &no_patches())
        .expect("processes");
    assert!(out.is_none());
}

#[test]
fn name_defaults_to_the_page_title() {
    let body = "{{Infobox music genre|stylistic_origins=}}";
    let rock = process("Rock", body, vec![page("Rock")], &no_patches())
        .expect("processes")
        .expect("has an infobox");
    assert_eq!(rock.name.0, "Rock");
}

#[test]
fn empty_name_parameter_is_fatal() {
    let body = "{{Infobox music genre|name=<br>Alt name}}";
    match process("Rock", body, vec![page("Rock")], &no_patches()) {
        Err(ProcessError::EmptyGenreName { page: p }) => assert_eq!(p, page("Rock")),
        other => panic!("expected an empty-name fault, got {:?}", other),
    }
}

#[test]
fn patches_override_names_up_to_the_cutoff() {
    let mut patches = no_patches();
    patches.overrides.push(NamePatch {
        page: page("Foo"),
        cutoff: None,
        replacement: genre_graph::page::GenreName(String::from("Right")),
    });
    let body = "{{Infobox music genre|name=Wrong}}";
    let foo = process("Foo", body, vec![page("Foo")], &patches)
        .expect("processes")
        .expect("has an infobox");
    assert_eq!(foo.name.0, "Right");

    // An old cutoff leaves a newer page alone: the page revision (plus one
    // minute of slack) is strictly after it.
    let mut stale = no_patches();
    stale.overrides.push(NamePatch {
        page: page("Foo"),
        cutoff: Some(parse_timestamp("2023-01-01T00:00:00Z").expect("cutoff parses")),
        replacement: genre_graph::page::GenreName(String::from("Right")),
    });
    let foo2 = process("Foo", body, vec![page("Foo")], &stale)
        .expect("processes")
        .expect("has an infobox");
    assert_eq!(foo2.name.0, "Wrong");
}

#[test]
fn description_does_not_open_with_a_bare_template() {
    let bare = "{{Infobox music genre|name=Rock}}\n{{foo}} follows.";
    let rock = process("Rock", bare, vec![page("Rock")], &no_patches())
        .expect("processes")
        .expect("has an infobox");
    let desc = rock.wikitext_description.expect("has a description");
    assert!(!desc.iter().any(|n| matches!(n, SimplifiedNode::Template { .. })));

    let led = "{{Infobox music genre|name=Rock}}\na {{foo}} follows.";
    let rock2 = process("Rock", led, vec![page("Rock")], &no_patches())
        .expect("processes")
        .expect("has an infobox");
    let desc2 = rock2.wikitext_description.expect("has a description");
    assert!(desc2.iter().any(|n| matches!(n, SimplifiedNode::Template { .. })));
}

#[test]
fn description_stops_at_a_heading_followed_by_a_comment() {
    let body = "{{Infobox music genre|name=Rock}}\nFirst paragraph.\n\n===Musical characteristics===<!-- hidden -->\nShould not be captured.";
    let rock = process("Rock", body, vec![page("Rock")], &no_patches())
        .expect("processes")
        .expect("has an infobox");
    let desc = rock.wikitext_description.expect("has a description");
    let mut prose = String::new();
    for node in &desc {
        if let SimplifiedNode::Text { text } = node {
            prose.push_str(text);
        }
    }
    assert!(prose.contains("First paragraph."));
    assert!(!prose.contains("Should not be captured"));
    assert!(!prose.contains("Musical characteristics"));
}

#[test]
fn ref_bodies_are_excluded_from_the_description() {
    let body = "{{Infobox music genre|name=Rock}}\nProse<ref>citation text</ref> continues.";
    let rock = process("Rock", body, vec![page("Rock")], &no_patches())
        .expect("processes")
        .expect("has an infobox");
    let desc = rock.wikitext_description.expect("has a description");
    let mut prose = String::new();
    for node in &desc {
        if let SimplifiedNode::Text { text } = node {
            prose.push_str(text);
        }
    }
    assert!(prose.contains("Prose"));
    assert!(prose.contains("continues."));
    assert!(!prose.contains("citation text"));
}

#[test]
fn cached_pages_go_through_the_header() {
    let configuration = pwt_configuration();
    let links = resolve_links_to_articles(&vec![page("Rock")], &Vec::new());
    let body = "{{Infobox music genre|name=Rock}}".as_bytes().to_vec();
    let good = process_cached_page(
        &configuration,
        &page("Rock"),
        "{\"timestamp\":\"2024-01-01T00:00:00Z\"}",
        &body,
        &links,
        &no_patches(),
    );
    let record = good.expect("processes").expect("has an infobox");
    assert_eq!(record.last_revision_date.text, "2024-01-01T00:00:00Z");
    let bad = process_cached_page(
        &configuration,
        &page("Rock"),
        "no header here",
        &body,
        &links,
        &no_patches(),
    );
    match bad {
        Err(ProcessError::BadHeader { page: p }) => assert_eq!(p, page("Rock")),
        other => panic!("expected a bad header fault, got {:?}", other),
    }
}

#[test]
fn duplicate_names_are_fatal_and_name_both_pages() {
    let rev = parse_timestamp(TS).expect("timestamp parses");
    let mk = |title: &str| -> (PageName, ProcessedGenre) {
        (
            page(title),
            ProcessedGenre {
                name: genre_graph::page::GenreName(String::from("Techno")),
                wikitext_description: None,
                last_revision_date: rev.clone(),
                stylistic_origins: Vec::new(),
                derivatives: Vec::new(),
                subgenres: Vec::new(),
                fusion_genres: Vec::new(),
            },
        )
    };
    let records = ProcessedGenres(vec![mk("Techno (music)"), mk("Techno style")]);
    match remove_ignored_pages_and_detect_duplicates(records, &no_patches()) {
        Err(ProcessError::DuplicateGenre { name, first, second }) => {
            assert_eq!(name.0, "Techno");
            assert_eq!(first, page("Techno (music)"));
            assert_eq!(second, page("Techno style"));
        },
        other => panic!("expected a duplicate fault, got {:?}", other),
    }
}

#[test]
fn ignored_pages_leave_the_run() {
    let rev = parse_timestamp(TS).expect("timestamp parses");
    let mk = |title: &str, label: &str| -> (PageName, ProcessedGenre) {
        (
            page(title),
            ProcessedGenre {
                name: genre_graph::page::GenreName(String::from(label)),
                wikitext_description: None,
                last_revision_date: rev.clone(),
                stylistic_origins: Vec::new(),
                derivatives: Vec::new(),
                subgenres: Vec::new(),
                fusion_genres: Vec::new(),
            },
        )
    };
    let mut patches = no_patches();
    patches.ignore.push(page("Bad page"));
    let records = ProcessedGenres(vec![mk("Bad page", "A"), mk("Good page", "B")]);
    let kept = remove_ignored_pages_and_detect_duplicates(records, &patches)
        .expect("no duplicates");
    assert_eq!(kept.0.len(), 1);
    assert_eq!(kept.0[0].0, page("Good page"));
}

#[test]
fn fusion_and_subgenre_edges_take_their_orientations() {
    let rev = parse_timestamp(TS).expect("timestamp parses");
    let mk = |title: &str,
              subgenres: Vec<PageName>,
              fusion: Vec<PageName>| -> (PageName, ProcessedGenre) {
        (
            page(title),
            ProcessedGenre {
                name: genre_graph::page::GenreName(String::from(title)),
                wikitext_description: None,
                last_revision_date: rev.clone(),
                stylistic_origins: Vec::new(),
                derivatives: Vec::new(),
                subgenres,
                fusion_genres: fusion,
            },
        )
    };
    let records = ProcessedGenres(vec![
        mk("Jazz Fusion", vec![page("Bebop")], vec![page("Jazz"), page("Rock")]),
        mk("Jazz", Vec::new(), Vec::new()),
        mk("Rock", Vec::new(), Vec::new()),
        mk("Bebop", Vec::new(), Vec::new()),
    ]);
    let records = remove_ignored_pages_and_detect_duplicates(records, &no_patches())
        .expect("no duplicates");
    let graph = produce_graph(&DumpDate { year: 2025, month: 1, day: 23 }, records);
    // Sorted titles: Bebop 0, Jazz 1, Jazz Fusion 2, Rock 3.
    assert_eq!(graph.nodes[0].page_title, page("Bebop"));
    assert_eq!(graph.nodes[2].page_title, page("Jazz Fusion"));
    assert_eq!(
        graph.links,
        vec![
            LinkData { source: PageDataId(1), target: PageDataId(2), ty: LinkType::FusionGenre },
            LinkData { source: PageDataId(2), target: PageDataId(0), ty: LinkType::Subgenre },
            LinkData { source: PageDataId(3), target: PageDataId(2), ty: LinkType::FusionGenre },
        ]
    );
    // Links are a sorted set over valid endpoints; ids are dense; the
    // maximum degree counts incident links of either direction.
    for (i, node) in graph.nodes.iter().enumerate() {
        assert_eq!(node.id, PageDataId(i));
    }
    assert_eq!(graph.nodes[2].links, vec![0, 1, 2]);
    assert_eq!(graph.max_degree, 3);
}

#[test]
fn duplicate_edges_collapse_into_the_set() {
    let rev = parse_timestamp(TS).expect("timestamp parses");
    let a = (
        page("A"),
        ProcessedGenre {
            name: genre_graph::page::GenreName(String::from("A")),
            wikitext_description: None,
            last_revision_date: rev.clone(),
            stylistic_origins: Vec::new(),
            // The same derivative twice gives one link.
            derivatives: vec![page("B"), page("B")],
            subgenres: Vec::new(),
            fusion_genres: Vec::new(),
        },
    );
    let b = (
        page("B"),
        ProcessedGenre {
            name: genre_graph::page::GenreName(String::from("B")),
            wikitext_description: None,
            last_revision_date: rev.clone(),
            // An origin of B pointing from A duplicates A's derivative edge.
            stylistic_origins: vec![page("A")],
            derivatives: Vec::new(),
            subgenres: Vec::new(),
            fusion_genres: Vec::new(),
        },
    );
    let records = ProcessedGenres(vec![a, b]);
    let records = remove_ignored_pages_and_detect_duplicates(records, &no_patches())
        .expect("no duplicates");
    let graph = produce_graph(&DumpDate { year: 2025, month: 1, day: 23 }, records);
    assert_eq!(
        graph.links,
        vec![LinkData { source: PageDataId(0), target: PageDataId(1), ty: LinkType::Derivative }]
    );
    assert_eq!(graph.max_degree, 1);
}
