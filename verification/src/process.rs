//! The genre processor: one pass over a page's parsed wikitext that
//! extracts the infobox fields, captures the description slice between the
//! infobox and the first heading, and applies the manual patch table.

use vstd::prelude::*;
use crate::page::{PageName, GenreName};
use crate::timestamp::{WikiTimestamp, ts_total_nanos, spec_plus_minute, revision_within_cutoff};
use crate::resolver::{LinksToArticles, lower_of, lowercase};
use crate::simplify::{SimplifiedNode, SimplifyError, SimpleView, spec_simplify, nodes_view};
use crate::wikitext::{WtNode, WtParameter, views_of, spec_links_in_nodes, get_links_from_nodes};

verus! {

/// Why a page cannot be processed. Every case is fatal and names the page.
#[derive(Debug, PartialEq)]
pub enum ProcessError {
    /// The wikitext did not parse, or parsing ran over the page budget.
    ParseFailed { page: PageName },
    /// A node span does not fit the text.
    MalformedSpans { page: PageName },
    /// The infobox has a `name` parameter whose text comes out empty.
    EmptyGenreName { page: PageName },
    /// The description could not be simplified.
    Simplify { page: PageName, error: SimplifyError },
    /// The cached file's header line is not a valid header.
    BadHeader { page: PageName },
    /// Two pages resolved to the same genre name.
    DuplicateGenre { name: GenreName, first: PageName, second: PageName },
}

/// One record of the manual patch table: a page whose extracted name is
/// replaced, as long as the page has not been revised past the cutoff.
pub struct NamePatch {
    pub page: PageName,
    pub cutoff: Option<WikiTimestamp>,
    pub replacement: GenreName,
}

/// The manual corrections: name overrides and pages left out of the graph.
pub struct DataPatches {
    pub overrides: Vec<NamePatch>,
    pub ignore: Vec<PageName>,
}

impl DataPatches {
    /// An empty patch table.
    pub fn new() -> (r: Self)
        ensures
            r.overrides@.len() == 0,
            r.ignore@.len() == 0,
    {
        DataPatches { overrides: Vec::new(), ignore: Vec::new() }
    }
}

/// The processed records of a run, keyed by source page title.
#[derive(Debug)]
pub struct ProcessedGenres(pub Vec<(PageName, ProcessedGenre)>);

/// One extracted genre record, keyed by its source page.
#[derive(Debug)]
pub struct ProcessedGenre {
    pub name: GenreName,
    pub wikitext_description: Option<Vec<SimplifiedNode>>,
    pub last_revision_date: WikiTimestamp,
    pub stylistic_origins: Vec<PageName>,
    pub derivatives: Vec<PageName>,
    pub subgenres: Vec<PageName>,
    pub fusion_genres: Vec<PageName>,
}

/// The byte spans of the top-level comments of a parse, in node order.
pub open spec fn spec_comment_spans(ns: Seq<WtNode>) -> Seq<(int, int)>
    decreases ns.len(),
{
    if ns.len() == 0 {
        Seq::empty()
    } else {
        (match ns[0] {
            WtNode::Comment { start, end } => seq![(start as int, end as int)],
            _ => Seq::empty(),
        }) + spec_comment_spans(ns.skip(1))
    }
}

/// Whether the spans lie in bounds of a text of the given length and run in
/// disjoint ascending order.
pub open spec fn spans_ok(spans: Seq<(int, int)>, len: int) -> bool {
    &&& forall|i: int| 0 <= i < spans.len() ==> 0 <= #[trigger] spans[i].0 <= spans[i].1 <= len
    &&& forall|i: int| 0 < i < spans.len() ==> #[trigger] spans[i - 1].1 <= spans[i].0
}

/// The text with the spans cut out, rightmost first so that the earlier
/// offsets stay valid.
pub open spec fn spec_remove_spans(b: Seq<u8>, spans: Seq<(int, int)>) -> Seq<u8>
    decreases spans.len(),
{
    if spans.len() == 0 {
        b
    } else {
        spec_remove_spans(
            b.take(spans.last().0) + b.skip(spans.last().1),
            spans.drop_last(),
        )
    }
}

fn collect_comment_spans(nodes: &Vec<WtNode>) -> (r: Vec<(usize, usize)>)
    ensures
        r@.len() == spec_comment_spans(nodes@).len(),
        forall|i: int|
            0 <= i < r@.len() ==> #[trigger] spec_comment_spans(nodes@)[i] == (
            r@[i].0 as int,
            r@[i].1 as int,
            ),
{
    let mut out: Vec<(usize, usize)> = Vec::new();
    let n = nodes.len();
    let mut i: usize = 0;
    proof {
        assert(nodes@.skip(0) =~= nodes@);
    }
    while i < n
        invariant
            i <= n,
            n == nodes@.len(),
            spec_comment_spans(nodes@) =~= spec_comment_spans(nodes@.take(i as int))
                + spec_comment_spans(nodes@.skip(i as int)),
            out@.len() == spec_comment_spans(nodes@.take(i as int)).len(),
            forall|j: int|
                0 <= j < out@.len() ==> #[trigger] spec_comment_spans(nodes@.take(i as int))[j]
                    == (out@[j].0 as int, out@[j].1 as int),
        decreases n - i,
    {
        proof {
            assert(nodes@.skip(i as int)[0] == nodes@[i as int]);
            assert(nodes@.skip(i as int).skip(1) =~= nodes@.skip(i as int + 1));
            lemma_comment_spans_snoc(nodes@, i as int);
        }
        match &nodes[i] {
            WtNode::Comment { start, end } => {
                out.push((*start, *end));
            },
            _ => {},
        }
        i = i + 1;
    }
    proof {
        assert(nodes@.take(n as int) =~= nodes@);
    }
    out
}

proof fn lemma_comment_spans_snoc(ns: Seq<WtNode>, i: int)
    requires
        0 <= i < ns.len(),
    ensures
        spec_comment_spans(ns.take(i + 1)) =~= spec_comment_spans(ns.take(i)) + (match ns[i] {
            WtNode::Comment { start, end } => seq![(start as int, end as int)],
            _ => Seq::empty(),
        }),
    decreases i,
{
    if i == 0 {
        assert(ns.take(1)[0] == ns[0]);
        assert(ns.take(1).skip(1) =~= Seq::<WtNode>::empty());
        assert(ns.take(0) =~= Seq::<WtNode>::empty());
    } else {
        lemma_comment_spans_snoc(ns.skip(1), i - 1);
        assert(ns.take(i + 1)[0] == ns[0]);
        assert(ns.take(i + 1).skip(1) =~= ns.skip(1).take(i));
        assert(ns.take(i)[0] == ns[0]);
        assert(ns.take(i).skip(1) =~= ns.skip(1).take(i - 1));
        assert(ns.skip(1)[i - 1] == ns[i]);
    }
}

proof fn lemma_spans_chain(spans: Seq<(int, int)>, j: int, k: int, len: int)
    requires
        spans_ok(spans, len),
        0 <= j < k < spans.len(),
    ensures
        spans[j].1 <= spans[k].0,
    decreases k - j,
{
    if j + 1 == k {
    } else {
        lemma_spans_chain(spans, j, k - 1, len);
    }
}

/// Removes the spans of the top-level comments from the text, checking that
/// the parser's spans fit the text and run in order.
pub fn strip_comment_spans(bytes: &Vec<u8>, nodes: &Vec<WtNode>) -> (r: Option<Vec<u8>>)
    ensures
        match r {
            Some(out) => spans_ok(spec_comment_spans(nodes@), bytes@.len() as int) && out@
                == spec_remove_spans(bytes@, spec_comment_spans(nodes@)),
            None => !spans_ok(spec_comment_spans(nodes@), bytes@.len() as int),
        },
{
    let spans = collect_comment_spans(nodes);
    let ghost sspans = spec_comment_spans(nodes@);
    let m = spans.len();
    let mut i: usize = 0;
    while i < m
        invariant
            i <= m,
            m == spans@.len(),
            m == sspans.len(),
            sspans == spec_comment_spans(nodes@),
            forall|j: int|
                0 <= j < m ==> #[trigger] sspans[j] == (spans@[j].0 as int, spans@[j].1 as int),
            forall|j: int| 0 <= j < i ==> 0 <= #[trigger] sspans[j].0 <= sspans[j].1
                <= bytes@.len(),
            forall|j: int| 0 < j < i ==> #[trigger] sspans[j - 1].1 <= sspans[j].0,
        decreases m - i,
    {
        if !(spans[i].0 <= spans[i].1 && spans[i].1 <= bytes.len()) {
            proof {
                assert(!spans_ok(sspans, bytes@.len() as int)) by {
                    assert(!(0 <= sspans[i as int].0 <= sspans[i as int].1 <= bytes@.len()));
                }
            }
            return None;
        }
        if i > 0 && spans[i - 1].1 > spans[i].0 {
            proof {
                assert(!spans_ok(sspans, bytes@.len() as int)) by {
                    assert(!(sspans[i as int - 1].1 <= sspans[i as int].0));
                }
            }
            return None;
        }
        i = i + 1;
    }
    let mut out = crate::strutil::bytes_slice(bytes, 0, bytes.len());
    proof {
        assert(out@ =~= bytes@);
        assert(sspans.take(m as int) =~= sspans);
    }
    let mut k: usize = m;
    while k > 0
        invariant
            k <= m,
            m == spans@.len(),
            m == sspans.len(),
            sspans == spec_comment_spans(nodes@),
            forall|j: int|
                0 <= j < m ==> #[trigger] sspans[j] == (spans@[j].0 as int, spans@[j].1 as int),
            spans_ok(sspans, bytes@.len() as int),
            spec_remove_spans(bytes@, sspans) == spec_remove_spans(
                out@,
                sspans.take(k as int),
            ),
            forall|j: int| 0 <= j < k ==> 0 <= #[trigger] sspans[j].0 <= sspans[j].1 <= out@.len(),
        decreases k,
    {
        k = k - 1;
        let (s, e) = spans[k];
        let mut rebuilt = crate::strutil::bytes_slice(&out, 0, s);
        let tail = crate::strutil::bytes_slice(&out, e, out.len());
        let mut t: usize = 0;
        let ghost pre = rebuilt@;
        while t < tail.len()
            invariant
                t <= tail@.len(),
                rebuilt@ =~= pre + tail@.subrange(0, t as int),
            decreases tail@.len() - t,
        {
            rebuilt.push(tail[t]);
            t = t + 1;
            proof {
                assert(tail@.subrange(0, t as int) =~= tail@.subrange(0, t as int - 1).push(
                    tail@[t as int - 1],
                ));
            }
        }
        proof {
            assert(tail@.subrange(0, tail@.len() as int) =~= tail@);
            assert(rebuilt@ =~= out@.take(s as int) + out@.skip(e as int));
            assert(sspans.take(k as int + 1).last() == sspans[k as int]);
            assert(sspans.take(k as int + 1).drop_last() =~= sspans.take(k as int));
        }
        out = rebuilt;
        proof {
            assert forall|j: int| 0 <= j < k implies 0 <= #[trigger] sspans[j].0 <= sspans[j].1
                <= out@.len() by {
                lemma_spans_chain(sspans, j, k as int, bytes@.len() as int);
            }
        }
    }
    proof {
        assert(sspans.take(0) =~= Seq::<(int, int)>::empty());
    }
    Some(out)
}

/// The link targets that resolve through the link map, lowercased for the
/// lookup, in discovery order; unresolved targets are dropped.
pub open spec fn spec_resolve_links(
    targets: Seq<Seq<char>>,
    m: Map<Seq<char>, PageName>,
) -> Seq<Seq<char>>
    decreases targets.len(),
{
    if targets.len() == 0 {
        Seq::empty()
    } else {
        (if m.contains_key(lower_of(targets[0])) {
            seq![m[lower_of(targets[0])].0@]
        } else {
            Seq::empty()
        }) + spec_resolve_links(targets.skip(1), m)
    }
}

/// The titles of a vector of page names.
pub open spec fn titles_of(v: Seq<PageName>) -> Seq<Seq<char>> {
    v.map_values(|p: PageName| p.0@)
}

/// Resolves free-form link targets against the link map.
pub fn resolve_links(targets: &Vec<String>, links: &LinksToArticles) -> (r: Vec<PageName>)
    ensures
        titles_of(r@) == spec_resolve_links(views_of(targets@), links.0@),
{
    let mut out: Vec<PageName> = Vec::new();
    let n = targets.len();
    let mut i: usize = 0;
    proof {
        assert(views_of(targets@).skip(0) =~= views_of(targets@));
        assert(titles_of(out@) =~= Seq::<Seq<char>>::empty());
    }
    while i < n
        invariant
            i <= n,
            n == targets@.len(),
            titles_of(out@) + spec_resolve_links(views_of(targets@).skip(i as int), links.0@)
                =~~= spec_resolve_links(views_of(targets@), links.0@),
        decreases n - i,
    {
        proof {
            assert(views_of(targets@).skip(i as int)[0] == targets@[i as int]@);
            assert(views_of(targets@).skip(i as int).skip(1) =~= views_of(targets@).skip(
                i as int + 1,
            ));
        }
        let key = lowercase(targets[i].as_str());
        match links.0.get(key.as_str()) {
            Some(target) => {
                let ghost pre = out@;
                out.push(target.clone());
                proof {
                    assert(titles_of(out@) =~= titles_of(pre).push(
                        links.0@[lower_of(targets@[i as int]@)].0@,
                    ));
                }
            },
            None => {},
        }
        i = i + 1;
        proof {
            assert(titles_of(out@) + spec_resolve_links(
                views_of(targets@).skip(i as int),
                links.0@,
            ) =~~= spec_resolve_links(views_of(targets@), links.0@));
        }
    }
    proof {
        assert(spec_resolve_links(views_of(targets@).skip(n as int), links.0@) =~= Seq::<
            Seq<char>,
        >::empty());
        assert(titles_of(out@) + Seq::<Seq<char>>::empty() =~~= titles_of(out@));
    }
    out
}

/// The cutoff of a patch, if it has one, lies in the representable range.
pub open spec fn patch_cutoff_ok(p: NamePatch) -> bool {
    match p.cutoff {
        None => true,
        Some(c) => crate::timestamp::TS_MIN_SECOND <= c.seconds
            <= crate::timestamp::TS_MAX_SECOND && -999999999 <= c.nanos <= 999999999,
    }
}

/// The first patch of the table for the page, if any.
pub open spec fn spec_find_patch(patches: Seq<NamePatch>, page: Seq<char>) -> Option<NamePatch>
    decreases patches.len(),
{
    if patches.len() == 0 {
        None
    } else if patches[0].page.0@ == page {
        Some(patches[0])
    } else {
        spec_find_patch(patches.skip(1), page)
    }
}

/// Whether a patch replaces the name of a page last revised at the given
/// instant: the cutoff is absent, or the revision pushed a minute forward is
/// not strictly after the cutoff.
pub open spec fn spec_patch_applies(p: NamePatch, rev: WikiTimestamp) -> bool {
    match p.cutoff {
        None => true,
        Some(c) => spec_plus_minute(ts_total_nanos(rev.seconds, rev.nanos)) <= ts_total_nanos(
            c.seconds,
            c.nanos,
        ),
    }
}

/// Looks up the page in the patch table and decides whether the patch
/// applies to a page revised at the given instant.
pub fn find_applicable_patch<'a>(
    patches: &'a DataPatches,
    page: &PageName,
    rev: &WikiTimestamp,
) -> (r: Option<&'a GenreName>)
    requires
        crate::timestamp::TS_MIN_SECOND <= rev.seconds <= crate::timestamp::TS_MAX_SECOND,
        -999999999 <= rev.nanos <= 999999999,
        forall|i: int|
            0 <= i < patches.overrides@.len() ==> patch_cutoff_ok(
                #[trigger] patches.overrides@[i],
            ),
    ensures
        match r {
            Some(name) => {
                &&& spec_find_patch(patches.overrides@, page.0@) matches Some(p)
                &&& spec_patch_applies(p, *rev)
                &&& name.0@ == p.replacement.0@
            },
            None => match spec_find_patch(patches.overrides@, page.0@) {
                Some(p) => !spec_patch_applies(p, *rev),
                None => true,
            },
        },
{
    let n = patches.overrides.len();
    let mut i: usize = 0;
    proof {
        assert(patches.overrides@.skip(0) =~= patches.overrides@);
    }
    while i < n
        invariant
            i <= n,
            n == patches.overrides@.len(),
            crate::timestamp::TS_MIN_SECOND <= rev.seconds <= crate::timestamp::TS_MAX_SECOND,
            -999999999 <= rev.nanos <= 999999999,
            forall|ii: int|
                0 <= ii < patches.overrides@.len() ==> patch_cutoff_ok(
                    #[trigger] patches.overrides@[ii],
                ),
            spec_find_patch(patches.overrides@, page.0@) == spec_find_patch(
                patches.overrides@.skip(i as int),
                page.0@,
            ),
        decreases n - i,
    {
        proof {
            assert(patches.overrides@.skip(i as int)[0] == patches.overrides@[i as int]);
            assert(patches.overrides@.skip(i as int).skip(1) =~= patches.overrides@.skip(
                i as int + 1,
            ));
        }
        let p = &patches.overrides[i];
        proof {
            assert(patch_cutoff_ok(patches.overrides@[i as int]));
        }
        if crate::strutil::str_eq(p.page.0.as_str(), page.0.as_str()) {
            match &p.cutoff {
                None => {
                    return Some(&p.replacement);
                },
                Some(cutoff) => {
                    if revision_within_cutoff(rev, cutoff) {
                        return Some(&p.replacement);
                    } else {
                        return None;
                    }
                },
            }
        }
        i = i + 1;
    }
    None
}

} // verus!

verus! {

/// The extracted infobox fields, over character sequences.
pub struct FieldsView {
    pub name: Seq<char>,
    pub stylistic_origins: Seq<Seq<char>>,
    pub derivatives: Seq<Seq<char>>,
    pub subgenres: Seq<Seq<char>>,
    pub fusion_genres: Seq<Seq<char>>,
}

/// The state of the page walk: the fields of the first infobox once seen,
/// the description buffer while capturing, the flushed description once a
/// heading ended it, whether a `ref` tag is pausing capture, and the end of
/// the node last passed.
pub struct WalkView {
    pub fields: Option<FieldsView>,
    pub capturing: Option<Seq<u8>>,
    pub flushed: Option<Seq<u8>>,
    pub pause: bool,
    pub last_end: Option<int>,
}

/// A fault of the walk itself.
#[derive(Debug, Clone, Copy, PartialEq, Eq, Structural)]
pub enum WalkFault {
    /// A node span that does not fit the text.
    MalformedSpans,
    /// A present, non-empty `name` parameter whose text comes out empty.
    EmptyName,
}

pub open spec fn infobox_name() -> Seq<char> {
    "infobox music genre"@
}

/// The templates a description may open with: language and transliteration
/// helpers, which carry prose of their own.
pub open spec fn template_whitelisted(t: Seq<char>) -> bool {
    t == "nihongo"@ || t == "transliteration"@ || t == "tlit"@ || t == "transl"@ || t == "lang"@
}

/// Where a captured slice starts: at the previous node's end when that fell
/// before this node's start, keeping the text between nodes.
pub open spec fn adj_start(last_end: Option<int>, start: int) -> int {
    match last_end {
        Some(le) => if le < start {
            le
        } else {
            start
        },
        None => start,
    }
}

pub open spec fn spec_extract_name(page: Seq<char>, params: Seq<WtParameter>) -> Result<
    Seq<char>,
    WalkFault,
> {
    match crate::wikitext::spec_param_lookup(params, "name"@) {
        None => Ok(page),
        Some(v) => if v.len() == 0 {
            Ok(page)
        } else {
            let t = crate::wikitext::spec_nodes_inner_text(v, true);
            if t.len() == 0 {
                Err(WalkFault::EmptyName)
            } else {
                Ok(t)
            }
        },
    }
}

pub open spec fn spec_field_links(
    params: Seq<WtParameter>,
    key: Seq<char>,
    links: Map<Seq<char>, PageName>,
) -> Seq<Seq<char>> {
    match crate::wikitext::spec_param_lookup(params, key) {
        None => Seq::empty(),
        Some(v) => spec_resolve_links(spec_links_in_nodes(v), links),
    }
}

/// What the first infobox yields: the display name — the `name` parameter
/// cut at the first `<br>`, the page title when absent or empty, the patch
/// replacement when one applies — and the four relation lists resolved
/// through the link map.
pub open spec fn spec_extract_fields(
    page: Seq<char>,
    params: Seq<WtParameter>,
    links: Map<Seq<char>, PageName>,
    patches: Seq<NamePatch>,
    rev: WikiTimestamp,
) -> Result<FieldsView, WalkFault> {
    match spec_extract_name(page, params) {
        Err(e) => Err(e),
        Ok(name0) => {
            let name = match spec_find_patch(patches, page) {
                Some(p) => if spec_patch_applies(p, rev) {
                    p.replacement.0@
                } else {
                    name0
                },
                None => name0,
            };
            Ok(
                FieldsView {
                    name,
                    stylistic_origins: spec_field_links(params, "stylistic_origins"@, links),
                    derivatives: spec_field_links(params, "derivatives"@, links),
                    subgenres: spec_field_links(params, "subgenres"@, links),
                    fusion_genres: spec_field_links(params, "fusiongenres"@, links),
                },
            )
        },
    }
}

/// One node of the walk.
pub open spec fn spec_walk_step(
    st: WalkView,
    n: WtNode,
    w: Seq<u8>,
    page: Seq<char>,
    links: Map<Seq<char>, PageName>,
    patches: Seq<NamePatch>,
    rev: WikiTimestamp,
) -> Result<WalkView, WalkFault> {
    match n {
        WtNode::Template { name, parameters, start, end } => {
            let tname = lower_of(crate::wikitext::spec_nodes_inner_text(name@, false));
            let append_wanted = st.capturing is Some && !st.pause && (!crate::strutil::blank_bytes(
                st.capturing->Some_0,
            ) || template_whitelisted(tname));
            let a = adj_start(st.last_end, start as int);
            if append_wanted && !(0 <= a && a <= end && end <= w.len()) {
                Err(WalkFault::MalformedSpans)
            } else {
                let cap1 = if append_wanted {
                    Some(st.capturing->Some_0 + w.subrange(a, end as int))
                } else {
                    st.capturing
                };
                if tname == infobox_name() && st.fields is None {
                    match spec_extract_fields(page, parameters@, links, patches, rev) {
                        Err(e) => Err(e),
                        Ok(f) => Ok(
                            WalkView {
                                fields: Some(f),
                                capturing: Some(Seq::empty()),
                                flushed: st.flushed,
                                pause: st.pause,
                                last_end: Some(end as int),
                            },
                        ),
                    }
                } else {
                    Ok(
                        WalkView {
                            fields: st.fields,
                            capturing: cap1,
                            flushed: st.flushed,
                            pause: st.pause,
                            last_end: Some(end as int),
                        },
                    )
                }
            }
        },
        WtNode::StartTag { name, end, .. } if name@ == "ref"@ => Ok(
            WalkView {
                fields: st.fields,
                capturing: st.capturing,
                flushed: st.flushed,
                pause: true,
                last_end: Some(end as int),
            },
        ),
        WtNode::EndTag { name, end, .. } if name@ == "ref"@ => Ok(
            WalkView {
                fields: st.fields,
                capturing: st.capturing,
                flushed: st.flushed,
                pause: false,
                last_end: Some(end as int),
            },
        ),
        WtNode::Tag { name, end, .. } if name@ == "ref"@ => Ok(
            WalkView {
                fields: st.fields,
                capturing: st.capturing,
                flushed: st.flushed,
                pause: st.pause,
                last_end: Some(end as int),
            },
        ),
        WtNode::Heading { .. } => {
            if st.fields is Some && st.capturing is Some {
                Ok(
                    WalkView {
                        fields: st.fields,
                        capturing: None,
                        flushed: Some(st.capturing->Some_0),
                        pause: st.pause,
                        last_end: st.last_end,
                    },
                )
            } else {
                Ok(st)
            }
        },
        WtNode::Image { end, .. } => Ok(
            WalkView {
                fields: st.fields,
                capturing: st.capturing,
                flushed: st.flushed,
                pause: st.pause,
                last_end: Some(end as int),
            },
        ),
        WtNode::Comment { end, .. } => Ok(
            WalkView {
                fields: st.fields,
                capturing: st.capturing,
                flushed: st.flushed,
                pause: st.pause,
                last_end: Some(end as int),
            },
        ),
        _ => {
            let start = n.spec_start();
            let end = n.spec_end();
            let append_wanted = !st.pause && st.capturing is Some;
            let a = adj_start(st.last_end, start);
            if append_wanted && !(0 <= a && a <= end && end <= w.len()) {
                Err(WalkFault::MalformedSpans)
            } else {
                let cap1 = if append_wanted {
                    Some(st.capturing->Some_0 + w.subrange(a, end))
                } else {
                    st.capturing
                };
                Ok(
                    WalkView {
                        fields: st.fields,
                        capturing: cap1,
                        flushed: st.flushed,
                        pause: st.pause,
                        last_end: Some(end),
                    },
                )
            }
        },
    }
}

pub open spec fn spec_walk_fold(
    ns: Seq<WtNode>,
    st: WalkView,
    w: Seq<u8>,
    page: Seq<char>,
    links: Map<Seq<char>, PageName>,
    patches: Seq<NamePatch>,
    rev: WikiTimestamp,
) -> Result<WalkView, WalkFault>
    decreases ns.len(),
{
    if ns.len() == 0 {
        Ok(st)
    } else {
        match spec_walk_step(st, ns[0], w, page, links, patches, rev) {
            Ok(st2) => spec_walk_fold(ns.skip(1), st2, w, page, links, patches, rev),
            Err(e) => Err(e),
        }
    }
}

pub open spec fn walk_init() -> WalkView {
    WalkView { fields: None, capturing: None, flushed: None, pause: false, last_end: None }
}

/// What one pass over a page's top-level nodes produces: nothing when no
/// infobox was found, else the fields and the raw description slice — the
/// buffer flushed at the first heading, or whatever was still being
/// captured at the end of the article.
pub open spec fn spec_process_nodes(
    ns: Seq<WtNode>,
    w: Seq<u8>,
    page: Seq<char>,
    links: Map<Seq<char>, PageName>,
    patches: Seq<NamePatch>,
    rev: WikiTimestamp,
) -> Result<Option<(FieldsView, Option<Seq<u8>>)>, WalkFault> {
    match spec_walk_fold(ns, walk_init(), w, page, links, patches, rev) {
        Err(e) => Err(e),
        Ok(st) => match st.fields {
            None => Ok(None),
            Some(f) => Ok(
                Some(
                    (
                        f,
                        if st.flushed is Some {
                            st.flushed
                        } else {
                            st.capturing
                        },
                    ),
                ),
            ),
        },
    }
}

/// The field view of an extracted record.
pub open spec fn fields_view_rec(g: ProcessedGenre) -> FieldsView {
    FieldsView {
        name: g.name.0@,
        stylistic_origins: titles_of(g.stylistic_origins@),
        derivatives: titles_of(g.derivatives@),
        subgenres: titles_of(g.subgenres@),
        fusion_genres: titles_of(g.fusion_genres@),
    }
}

fn field_links(params: &Vec<WtParameter>, key: &str, links: &LinksToArticles) -> (r: Vec<
    PageName,
>)
    ensures
        titles_of(r@) == spec_field_links(params@, key@, links.0@),
{
    match crate::wikitext::param_lookup(params, key) {
        None => {
            let r = Vec::new();
            proof {
                assert(titles_of(r@) =~= Seq::<Seq<char>>::empty());
            }
            r
        },
        Some(v) => {
            let targets = get_links_from_nodes(v);
            resolve_links(&targets, links)
        },
    }
}

fn extract_infobox_fields(
    page: &PageName,
    params: &Vec<WtParameter>,
    links: &LinksToArticles,
    patches: &DataPatches,
    rev: &WikiTimestamp,
) -> (r: Result<ProcessedGenre, ProcessError>)
    requires
        crate::timestamp::TS_MIN_SECOND <= rev.seconds <= crate::timestamp::TS_MAX_SECOND,
        -999999999 <= rev.nanos <= 999999999,
        forall|i: int|
            0 <= i < patches.overrides@.len() ==> patch_cutoff_ok(
                #[trigger] patches.overrides@[i],
            ),
    ensures
        match r {
            Ok(g) => {
                &&& spec_extract_fields(page.0@, params@, links.0@, patches.overrides@, *rev)
                    == Ok::<_, WalkFault>(fields_view_rec(g))
                &&& g.wikitext_description is None
                &&& g.last_revision_date.seconds == rev.seconds
                &&& g.last_revision_date.nanos == rev.nanos
                &&& g.last_revision_date.text@ == rev.text@
            },
            Err(e) => {
                &&& spec_extract_fields(page.0@, params@, links.0@, patches.overrides@, *rev)
                    == Err::<FieldsView, _>(WalkFault::EmptyName)
                &&& e matches ProcessError::EmptyGenreName { page: p } && p.0@ == page.0@
            },
        },
{
    let stop_config = crate::wikitext::InnerTextConfig { stop_after_br: true };
    let name0: String = match crate::wikitext::param_lookup(params, "name") {
        None => page.0.clone(),
        Some(v) => {
            if v.len() == 0 {
                page.0.clone()
            } else {
                let t = crate::wikitext::nodes_inner_text(v, &stop_config);
                if t.as_str().unicode_len() == 0 {
                    return Err(ProcessError::EmptyGenreName { page: page.clone() });
                }
                t
            }
        },
    };
    let name: GenreName = match find_applicable_patch(patches, page, rev) {
        Some(replacement) => replacement.clone(),
        None => GenreName(name0),
    };
    let stylistic_origins = field_links(params, "stylistic_origins", links);
    let derivatives = field_links(params, "derivatives", links);
    let subgenres = field_links(params, "subgenres", links);
    let fusion_genres = field_links(params, "fusiongenres", links);
    Ok(
        ProcessedGenre {
            name,
            wikitext_description: None,
            last_revision_date: rev.clone(),
            stylistic_origins,
            derivatives,
            subgenres,
            fusion_genres,
        },
    )
}

} // verus!

verus! {

/// The exec state and the walk state agree.
pub open spec fn st_matches(
    st: WalkView,
    fields: Option<ProcessedGenre>,
    capturing: Option<Vec<u8>>,
    flushed: Option<Vec<u8>>,
    pause: bool,
    last_end: Option<usize>,
    rev: WikiTimestamp,
) -> bool {
    &&& match fields {
        None => st.fields is None,
        Some(g) => st.fields == Some(fields_view_rec(g)) && g.wikitext_description is None
            && g.last_revision_date.seconds == rev.seconds && g.last_revision_date.nanos
            == rev.nanos && g.last_revision_date.text@ == rev.text@,
    }
    &&& match capturing {
        None => st.capturing is None,
        Some(b) => st.capturing == Some(b@),
    }
    &&& match flushed {
        None => st.flushed is None,
        Some(b) => st.flushed == Some(b@),
    }
    &&& st.pause == pause
    &&& match last_end {
        None => st.last_end is None,
        Some(e) => st.last_end == Some(e as int),
    }
}

/// Walks a page's top-level nodes once: finds the first infobox, extracts
/// its fields, and captures the raw description slice between the infobox
/// and the first heading, excluding `ref` bodies.
pub fn walk_genre_page(
    page: &PageName,
    wikitext: &Vec<u8>,
    nodes: &Vec<WtNode>,
    links: &LinksToArticles,
    patches: &DataPatches,
    rev: &WikiTimestamp,
) -> (r: Result<Option<(ProcessedGenre, Option<Vec<u8>>)>, ProcessError>)
    requires
        crate::timestamp::TS_MIN_SECOND <= rev.seconds <= crate::timestamp::TS_MAX_SECOND,
        -999999999 <= rev.nanos <= 999999999,
        forall|i: int|
            0 <= i < patches.overrides@.len() ==> patch_cutoff_ok(
                #[trigger] patches.overrides@[i],
            ),
    ensures
        ({
            let spec_r = spec_process_nodes(
                nodes@,
                wikitext@,
                page.0@,
                links.0@,
                patches.overrides@,
                *rev,
            );
            match r {
                Ok(None) => spec_r == Ok::<Option<(FieldsView, Option<Seq<u8>>)>, WalkFault>(
                    None,
                ),
                Ok(Some((g, d))) => {
                    &&& spec_r matches Ok(Some((f, dv)))
                    &&& f == fields_view_rec(g)
                    &&& g.wikitext_description is None
                    &&& g.last_revision_date.seconds == rev.seconds
                    &&& g.last_revision_date.nanos == rev.nanos
                    &&& g.last_revision_date.text@ == rev.text@
                    &&& match d {
                        None => dv is None,
                        Some(b) => dv == Some(b@),
                    }
                },
                Err(ProcessError::MalformedSpans { page: p }) => spec_r == Err::<
                    Option<(FieldsView, Option<Seq<u8>>)>,
                    _,
                >(WalkFault::MalformedSpans) && p.0@ == page.0@,
                Err(ProcessError::EmptyGenreName { page: p }) => spec_r == Err::<
                    Option<(FieldsView, Option<Seq<u8>>)>,
                    _,
                >(WalkFault::EmptyName) && p.0@ == page.0@,
                Err(_) => false,
            }
        }),
{
    let mut fields: Option<ProcessedGenre> = None;
    let mut capturing: Option<Vec<u8>> = None;
    let mut flushed: Option<Vec<u8>> = None;
    let mut pause: bool = false;
    let mut last_end: Option<usize> = None;
    let ghost mut st: WalkView = walk_init();
    let n = nodes.len();
    let mut i: usize = 0;
    proof {
        assert(nodes@.skip(0) =~= nodes@);
    }
    while i < n
        invariant
            i <= n,
            n == nodes@.len(),
            crate::timestamp::TS_MIN_SECOND <= rev.seconds <= crate::timestamp::TS_MAX_SECOND,
            -999999999 <= rev.nanos <= 999999999,
            forall|ii: int|
                0 <= ii < patches.overrides@.len() ==> patch_cutoff_ok(
                    #[trigger] patches.overrides@[ii],
                ),
            st_matches(st, fields, capturing, flushed, pause, last_end, *rev),
            spec_walk_fold(
                nodes@.skip(i as int),
                st,
                wikitext@,
                page.0@,
                links.0@,
                patches.overrides@,
                *rev,
            ) == spec_walk_fold(
                nodes@,
                walk_init(),
                wikitext@,
                page.0@,
                links.0@,
                patches.overrides@,
                *rev,
            ),
        decreases n - i,
    {
        proof {
            assert(nodes@.skip(i as int)[0] == nodes@[i as int]);
            assert(nodes@.skip(i as int).skip(1) =~= nodes@.skip(i as int + 1));
        }
        let ghost st_pre = st;
        let ghost step_r = spec_walk_step(
            st,
            nodes@[i as int],
            wikitext@,
            page.0@,
            links.0@,
            patches.overrides@,
            *rev,
        );
        let node = &nodes[i];
        let config = crate::wikitext::InnerTextConfig { stop_after_br: false };
        match node {
            WtNode::Template { name, parameters, start, end } => {
                let tname_raw = crate::wikitext::nodes_inner_text(name, &config);
                let tname = lowercase(tname_raw.as_str());
                let whitelisted = crate::strutil::str_eq(tname.as_str(), "nihongo")
                    || crate::strutil::str_eq(tname.as_str(), "transliteration")
                    || crate::strutil::str_eq(tname.as_str(), "tlit") || crate::strutil::str_eq(
                    tname.as_str(),
                    "transl",
                ) || crate::strutil::str_eq(tname.as_str(), "lang");
                let a: usize = match last_end {
                    Some(le) => if le < *start {
                        le
                    } else {
                        *start
                    },
                    None => *start,
                };
                capturing = match capturing {
                    Some(mut buf) => {
                        let blank = crate::strutil::is_blank_bytes(&buf);
                        if !pause && (!blank || whitelisted) {
                            if !(a <= *end && *end <= wikitext.len()) {
                                proof {
                                    assert(step_r == Err::<WalkView, _>(
                                        WalkFault::MalformedSpans,
                                    ));
                                }
                                return Err(ProcessError::MalformedSpans { page: page.clone() });
                            }
                            crate::strutil::append_slice(&mut buf, wikitext, a, *end);
                        }
                        Some(buf)
                    },
                    None => None,
                };
                last_end = Some(*end);
                let is_infobox = crate::strutil::str_eq(tname.as_str(), "infobox music genre");
                if is_infobox && fields.is_none() {
                    match extract_infobox_fields(page, parameters, links, patches, rev) {
                        Ok(g) => {
                            fields = Some(g);
                            capturing = Some(Vec::new());
                        },
                        Err(e) => {
                            proof {
                                assert(step_r == Err::<WalkView, _>(WalkFault::EmptyName));
                            }
                            return Err(e);
                        },
                    }
                }
                proof {
                    st = step_r->Ok_0;
                    assert(step_r is Ok);
                    assert(st_matches(st, fields, capturing, flushed, pause, last_end, *rev));
                }
            },
            WtNode::StartTag { name, end, .. } => {
                if crate::strutil::str_eq(name.as_str(), "ref") {
                    pause = true;
                    last_end = Some(*end);
                    proof {
                        st = step_r->Ok_0;
                        assert(st_matches(st, fields, capturing, flushed, pause, last_end, *rev));
                    }
                } else {
                    let a: usize = match last_end {
                        Some(le) => if le < node.start() {
                            le
                        } else {
                            node.start()
                        },
                        None => node.start(),
                    };
                    let e = node.end();
                    capturing = match capturing {
                        Some(mut buf) => {
                            if !pause {
                                if !(a <= e && e <= wikitext.len()) {
                                    proof {
                                        assert(step_r == Err::<WalkView, _>(
                                            WalkFault::MalformedSpans,
                                        ));
                                    }
                                    return Err(ProcessError::MalformedSpans {
                                        page: page.clone(),
                                    });
                                }
                                crate::strutil::append_slice(&mut buf, wikitext, a, e);
                            }
                            Some(buf)
                        },
                        None => None,
                    };
                    last_end = Some(e);
                    proof {
                        st = step_r->Ok_0;
                        assert(step_r is Ok);
                        assert(st_matches(st, fields, capturing, flushed, pause, last_end, *rev));
                    }
                }
            },
            WtNode::EndTag { name, end, .. } => {
                if crate::strutil::str_eq(name.as_str(), "ref") {
                    pause = false;
                    last_end = Some(*end);
                    proof {
                        st = step_r->Ok_0;
                        assert(st_matches(st, fields, capturing, flushed, pause, last_end, *rev));
                    }
                } else {
                    let a: usize = match last_end {
                        Some(le) => if le < node.start() {
                            le
                        } else {
                            node.start()
                        },
                        None => node.start(),
                    };
                    let e = node.end();
                    capturing = match capturing {
                        Some(mut buf) => {
                            if !pause {
                                if !(a <= e && e <= wikitext.len()) {
                                    proof {
                                        assert(step_r == Err::<WalkView, _>(
                                            WalkFault::MalformedSpans,
                                        ));
                                    }
                                    return Err(ProcessError::MalformedSpans {
                                        page: page.clone(),
                                    });
                                }
                                crate::strutil::append_slice(&mut buf, wikitext, a, e);
                            }
                            Some(buf)
                        },
                        None => None,
                    };
                    last_end = Some(e);
                    proof {
                        st = step_r->Ok_0;
                        assert(step_r is Ok);
                        assert(st_matches(st, fields, capturing, flushed, pause, last_end, *rev));
                    }
                }
            },
            WtNode::Tag { name, end, .. } => {
                if crate::strutil::str_eq(name.as_str(), "ref") {
                    last_end = Some(*end);
                    proof {
                        st = step_r->Ok_0;
                        assert(st_matches(st, fields, capturing, flushed, pause, last_end, *rev));
                    }
                } else {
                    let a: usize = match last_end {
                        Some(le) => if le < node.start() {
                            le
                        } else {
                            node.start()
                        },
                        None => node.start(),
                    };
                    let e = node.end();
                    capturing = match capturing {
                        Some(mut buf) => {
                            if !pause {
                                if !(a <= e && e <= wikitext.len()) {
                                    proof {
                                        assert(step_r == Err::<WalkView, _>(
                                            WalkFault::MalformedSpans,
                                        ));
                                    }
                                    return Err(ProcessError::MalformedSpans {
                                        page: page.clone(),
                                    });
                                }
                                crate::strutil::append_slice(&mut buf, wikitext, a, e);
                            }
                            Some(buf)
                        },
                        None => None,
                    };
                    last_end = Some(e);
                    proof {
                        st = step_r->Ok_0;
                        assert(step_r is Ok);
                        assert(st_matches(st, fields, capturing, flushed, pause, last_end, *rev));
                    }
                }
            },
            WtNode::Heading { .. } => {
                if fields.is_some() && capturing.is_some() {
                    let mut moved: Option<Vec<u8>> = None;
                    core::mem::swap(&mut moved, &mut capturing);
                    flushed = moved;
                }
                proof {
                    st = step_r->Ok_0;
                    assert(st_matches(st, fields, capturing, flushed, pause, last_end, *rev));
                }
            },
            WtNode::Image { end, .. } => {
                last_end = Some(*end);
                proof {
                    st = step_r->Ok_0;
                    assert(st_matches(st, fields, capturing, flushed, pause, last_end, *rev));
                }
            },
            WtNode::Comment { end, .. } => {
                last_end = Some(*end);
                proof {
                    st = step_r->Ok_0;
                    assert(st_matches(st, fields, capturing, flushed, pause, last_end, *rev));
                }
            },
            _ => {
                let a: usize = match last_end {
                    Some(le) => if le < node.start() {
                        le
                    } else {
                        node.start()
                    },
                    None => node.start(),
                };
                let e = node.end();
                capturing = match capturing {
                    Some(mut buf) => {
                        if !pause {
                            if !(a <= e && e <= wikitext.len()) {
                                proof {
                                    assert(step_r == Err::<WalkView, _>(
                                        WalkFault::MalformedSpans,
                                    ));
                                }
                                return Err(ProcessError::MalformedSpans { page: page.clone() });
                            }
                            crate::strutil::append_slice(&mut buf, wikitext, a, e);
                        }
                        Some(buf)
                    },
                    None => None,
                };
                last_end = Some(e);
                proof {
                    st = step_r->Ok_0;
                    assert(step_r is Ok);
                    assert(st_matches(st, fields, capturing, flushed, pause, last_end, *rev));
                }
            },
        }
        i = i + 1;
    }
    proof {
        assert(nodes@.skip(n as int).len() == 0);
    }
    match fields {
        None => Ok(None),
        Some(g) => {
            let desc: Option<Vec<u8>> = match flushed {
                Some(b) => Some(b),
                None => capturing,
            };
            Ok(Some((g, desc)))
        },
    }
}

} // verus!

verus! {

/// Whether a page is in the ignore table.
pub open spec fn spec_ignored(p: PageName, ignore: Seq<PageName>) -> bool {
    exists|i: int| 0 <= i < ignore.len() && (#[trigger] ignore[i]).0@ == p.0@
}

/// The records that survive the ignore table, in order.
pub open spec fn spec_filter_ignored(
    rs: Seq<(PageName, ProcessedGenre)>,
    ignore: Seq<PageName>,
) -> Seq<(PageName, ProcessedGenre)>
    decreases rs.len(),
{
    if rs.len() == 0 {
        Seq::empty()
    } else {
        (if spec_ignored(rs[0].0, ignore) {
            Seq::empty()
        } else {
            seq![rs[0]]
        }) + spec_filter_ignored(rs.skip(1), ignore)
    }
}

fn is_ignored(p: &PageName, ignore: &Vec<PageName>) -> (r: bool)
    ensures
        r == spec_ignored(*p, ignore@),
{
    let n = ignore.len();
    let mut i: usize = 0;
    while i < n
        invariant
            i <= n,
            n == ignore@.len(),
            forall|j: int| 0 <= j < i ==> (#[trigger] ignore@[j]).0@ != p.0@,
        decreases n - i,
    {
        if crate::strutil::str_eq(ignore[i].0.as_str(), p.0.as_str()) {
            proof {
                assert((ignore@[i as int]).0@ == p.0@);
            }
            return true;
        }
        i = i + 1;
    }
    false
}

/// Names are pairwise distinct across the records.
pub open spec fn records_names_distinct(rs: Seq<(PageName, ProcessedGenre)>) -> bool {
    forall|i: int, j: int|
        0 <= i < j < rs.len() ==> (#[trigger] rs[i].1.name.0@) != (#[trigger] rs[j].1.name.0@)
}

/// Drops the pages of the ignore table, then checks that every genre name
/// occurs once; a second occurrence ends the run, naming both pages.
pub fn remove_ignored_pages_and_detect_duplicates(
    records: ProcessedGenres,
    patches: &DataPatches,
) -> (r: Result<ProcessedGenres, ProcessError>)
    ensures
        ({
            let f = spec_filter_ignored(records.0@, patches.ignore@);
            match r {
                Ok(out) => out.0@ == f && records_names_distinct(f),
                Err(ProcessError::DuplicateGenre { name, first, second }) => exists|i: int, j: int|
                    0 <= i < j < f.len() && (#[trigger] f[i]).1.name.0@ == (
                    #[trigger] f[j]).1.name.0@ && first.0@ == f[i].0.0@ && second.0@
                        == f[j].0.0@ && name.0@ == f[j].1.name.0@,
                Err(_) => false,
            }
        }),
{
    let ghost orig = records.0@;
    let mut rest = records.0;
    let mut rev: Vec<(PageName, ProcessedGenre)> = Vec::new();
    while rest.len() > 0
        invariant
            rest@.len() + rev@.len() == orig.len(),
            rest@ =~= orig.take(rest@.len() as int),
            forall|m: int|
                0 <= m < rev@.len() ==> #[trigger] rev@[m] == orig[orig.len() - 1 - m],
        decreases rest@.len(),
    {
        let ghost rest_pre = rest@;
        let x = rest.pop().unwrap();
        proof {
            assert(rest_pre.drop_last() =~= orig.take(rest_pre.len() - 1));
            assert(rest_pre.last() == orig[rest_pre.len() - 1]);
        }
        rev.push(x);
    }
    let mut out: Vec<(PageName, ProcessedGenre)> = Vec::new();
    proof {
        assert(orig.skip(0) =~= orig);
        assert(out@ + spec_filter_ignored(orig, patches.ignore@) =~= spec_filter_ignored(
            orig,
            patches.ignore@,
        ));
    }
    while rev.len() > 0
        invariant
            rev@.len() <= orig.len(),
            forall|m: int|
                0 <= m < rev@.len() ==> #[trigger] rev@[m] == orig[orig.len() - 1 - m],
            out@ + spec_filter_ignored(
                orig.skip(orig.len() - rev@.len()),
                patches.ignore@,
            ) =~= spec_filter_ignored(orig, patches.ignore@),
        decreases rev@.len(),
    {
        let ghost rev_pre = rev@;
        let ghost i = orig.len() - rev_pre.len();
        let x = rev.pop().unwrap();
        proof {
            assert(rev_pre.last() == orig[i]);
            assert(orig.skip(i)[0] == orig[i]);
            assert(orig.skip(i).skip(1) =~= orig.skip(i + 1));
        }
        let keep = !is_ignored(&x.0, &patches.ignore);
        let ghost out_pre = out@;
        if keep {
            out.push(x);
            proof {
                assert(out@ =~= out_pre + seq![orig[i]]);
            }
        }
        proof {
            assert(out@ + spec_filter_ignored(orig.skip(i + 1), patches.ignore@)
                =~= spec_filter_ignored(orig, patches.ignore@));
        }
    }
    proof {
        assert(orig.skip(orig.len() - 0) =~= Seq::<(PageName, ProcessedGenre)>::empty());
        assert(out@ =~= spec_filter_ignored(orig, patches.ignore@));
    }
    let n = out.len();
    let mut j: usize = 0;
    while j < n
        invariant
            j <= n,
            n == out@.len(),
            orig == records.0@,
            out@ == spec_filter_ignored(orig, patches.ignore@),
            forall|a: int, b: int|
                0 <= a < b < j ==> (#[trigger] out@[a].1.name.0@) != (
                #[trigger] out@[b].1.name.0@),
        decreases n - j,
    {
        let mut i: usize = 0;
        while i < j
            invariant
                i <= j < n,
                n == out@.len(),
                orig == records.0@,
                out@ == spec_filter_ignored(orig, patches.ignore@),
                forall|a: int| 0 <= a < i ==> (#[trigger] out@[a].1.name.0@) != out@[
                    j as int
                ].1.name.0@,
            decreases j - i,
        {
            if crate::strutil::str_eq(out[i].1.name.0.as_str(), out[j].1.name.0.as_str()) {
                let name = out[j].1.name.clone();
                let first = out[i].0.clone();
                let second = out[j].0.clone();
                proof {
                    let f = spec_filter_ignored(records.0@, patches.ignore@);
                    assert(f == out@);
                    assert(f[i as int].1.name.0@ == f[j as int].1.name.0@);
                    assert(first.0@ == f[i as int].0.0@);
                    assert(second.0@ == f[j as int].0.0@);
                    assert(name.0@ == f[j as int].1.name.0@);
                }
                return Err(ProcessError::DuplicateGenre { name, first, second });
            }
            i = i + 1;
        }
        j = j + 1;
    }
    Ok(ProcessedGenres(out))
}

} // verus!

verus! {

/// The walk over some parse of some text yields exactly these fields and
/// this captured description.
pub open spec fn walk_produces(
    ns: Seq<WtNode>,
    w: Seq<u8>,
    page: Seq<char>,
    links: Map<Seq<char>, PageName>,
    patches: Seq<NamePatch>,
    rev: WikiTimestamp,
    f: FieldsView,
    desc: Option<Seq<u8>>,
) -> bool {
    spec_process_nodes(ns, w, page, links, patches, rev) == Ok::<
        Option<(FieldsView, Option<Seq<u8>>)>,
        WalkFault,
    >(Some((f, desc)))
}

/// The walk over some parse of some text yields these fields and a captured
/// description slice, and the slice's own parse simplifies to this tree.
pub open spec fn walk_and_simplify(
    ns: Seq<WtNode>,
    w: Seq<u8>,
    page: Seq<char>,
    links: Map<Seq<char>, PageName>,
    patches: Seq<NamePatch>,
    rev: WikiTimestamp,
    f: FieldsView,
    desc: Seq<u8>,
    dns: Seq<WtNode>,
    tree: Seq<SimpleView>,
) -> bool {
    &&& walk_produces(ns, w, page, links, patches, rev, f, Some(desc))
    &&& spec_simplify(desc, dns) == Ok::<Seq<SimpleView>, SimplifyError>(tree)
}

/// Processes one page's wikitext: parses it, strips the comments that hide
/// headings from the parser, parses the clean text again, walks it for the
/// infobox and the description slice, and simplifies the description. The
/// walk and the simplification carry the exact contracts; what the parser
/// returns is taken as it comes.
pub fn process_genre_wikitext(
    configuration: &parse_wiki_text_2::Configuration,
    page: &PageName,
    rev: &WikiTimestamp,
    body: &Vec<u8>,
    links: &LinksToArticles,
    patches: &DataPatches,
) -> (r: Result<Option<ProcessedGenre>, ProcessError>)
    requires
        crate::timestamp::TS_MIN_SECOND <= rev.seconds <= crate::timestamp::TS_MAX_SECOND,
        -999999999 <= rev.nanos <= 999999999,
        forall|i: int|
            0 <= i < patches.overrides@.len() ==> patch_cutoff_ok(
                #[trigger] patches.overrides@[i],
            ),
    ensures
        match r {
            Ok(Some(g)) => {
                &&& g.last_revision_date.seconds == rev.seconds
                &&& g.last_revision_date.nanos == rev.nanos
                &&& g.last_revision_date.text@ == rev.text@
                &&& match g.wikitext_description {
                    None => exists|ns: Seq<WtNode>, w: Seq<u8>|
                        #[trigger] walk_produces(
                            ns,
                            w,
                            page.0@,
                            links.0@,
                            patches.overrides@,
                            *rev,
                            fields_view_rec(g),
                            None::<Seq<u8>>,
                        ),
                    Some(tree) => exists|ns: Seq<WtNode>, w: Seq<u8>, desc: Seq<u8>, dns: Seq<
                        WtNode,
                    >|
                        #[trigger] walk_and_simplify(
                            ns,
                            w,
                            page.0@,
                            links.0@,
                            patches.overrides@,
                            *rev,
                            fields_view_rec(g),
                            desc,
                            dns,
                            nodes_view(tree@),
                        ),
                }
            },
            Ok(None) => true,
            Err(ProcessError::ParseFailed { page: p }) => p.0@ == page.0@,
            Err(ProcessError::MalformedSpans { page: p }) => p.0@ == page.0@,
            Err(ProcessError::EmptyGenreName { page: p }) => p.0@ == page.0@,
            Err(ProcessError::Simplify { page: p, .. }) => p.0@ == page.0@,
            Err(_) => false,
        },
{
    let parsed_once = match crate::wikitext::parse_wikitext(configuration, body) {
        Some(ns) => ns,
        None => {
            return Err(ProcessError::ParseFailed { page: page.clone() });
        },
    };
    let cleaned = match strip_comment_spans(body, &parsed_once) {
        Some(b) => b,
        None => {
            return Err(ProcessError::MalformedSpans { page: page.clone() });
        },
    };
    let parsed = match crate::wikitext::parse_wikitext(configuration, &cleaned) {
        Some(ns) => ns,
        None => {
            return Err(ProcessError::ParseFailed { page: page.clone() });
        },
    };
    let walked = match walk_genre_page(page, &cleaned, &parsed, links, patches, rev) {
        Ok(w) => w,
        Err(e) => {
            return Err(e);
        },
    };
    match walked {
        None => Ok(None),
        Some((g, desc)) => {
            match desc {
                None => {
                    proof {
                        assert(walk_produces(
                            parsed@,
                            cleaned@,
                            page.0@,
                            links.0@,
                            patches.overrides@,
                            *rev,
                            fields_view_rec(g),
                            None::<Seq<u8>>,
                        ));
                        assert(exists|ns: Seq<WtNode>, w: Seq<u8>|
                            #[trigger] walk_produces(
                                ns,
                                w,
                                page.0@,
                                links.0@,
                                patches.overrides@,
                                *rev,
                                fields_view_rec(g),
                                None::<Seq<u8>>,
                            ));
                    }
                    Ok(Some(g))
                },
                Some(desc_bytes) => {
                    let desc_nodes = match crate::wikitext::parse_wikitext(
                        configuration,
                        &desc_bytes,
                    ) {
                        Some(ns) => ns,
                        None => {
                            return Err(ProcessError::ParseFailed { page: page.clone() });
                        },
                    };
                    match crate::simplify::simplify_wikitext_nodes(&desc_bytes, &desc_nodes) {
                        Ok(tree) => {
                            let mut g2 = g;
                            proof {
                                assert(walk_produces(
                                    parsed@,
                                    cleaned@,
                                    page.0@,
                                    links.0@,
                                    patches.overrides@,
                                    *rev,
                                    fields_view_rec(g2),
                                    Some(desc_bytes@),
                                ));
                            }
                            let ghost tree_snapshot = tree@;
                            g2.wikitext_description = Some(tree);
                            proof {
                                assert(fields_view_rec(g2) == fields_view_rec(g));
                                assert(walk_and_simplify(
                                    parsed@,
                                    cleaned@,
                                    page.0@,
                                    links.0@,
                                    patches.overrides@,
                                    *rev,
                                    fields_view_rec(g2),
                                    desc_bytes@,
                                    desc_nodes@,
                                    nodes_view(tree_snapshot),
                                ));
                                assert(g2.wikitext_description->Some_0@ == tree_snapshot);
                                assert(exists|ns: Seq<WtNode>, w: Seq<u8>, desc: Seq<u8>, dns: Seq<
                                    WtNode,
                                >|
                                    #[trigger] walk_and_simplify(
                                        ns,
                                        w,
                                        page.0@,
                                        links.0@,
                                        patches.overrides@,
                                        *rev,
                                        fields_view_rec(g2),
                                        desc,
                                        dns,
                                        nodes_view(g2.wikitext_description->Some_0@),
                                    ));
                            }
                            Ok(Some(g2))
                        },
                        Err(e) => Err(
                            ProcessError::Simplify { page: page.clone(), error: e },
                        ),
                    }
                },
            }
        },
    }
}

/// Whether a header line is unusable: it does not frame a timestamp text,
/// or the framed text does not parse as an instant.
pub open spec fn header_bad(header_line: Seq<char>) -> bool {
    ||| crate::timestamp::spec_parse_header(header_line) is None
    ||| crate::timestamp::ts_of(crate::timestamp::spec_parse_header(header_line)->Some_0) is None
}

/// The instant a good header line carries.
pub open spec fn header_instant(header_line: Seq<char>) -> (i64, i32) {
    crate::timestamp::ts_of(crate::timestamp::spec_parse_header(header_line)->Some_0)->Some_0
}

/// Processes one cached wikitext file: reads the timestamp out of the
/// header line — an unusable header is fatal, exactly then — and processes
/// the body under that revision instant.
pub fn process_cached_page(
    configuration: &parse_wiki_text_2::Configuration,
    page: &PageName,
    header_line: &str,
    body: &Vec<u8>,
    links: &LinksToArticles,
    patches: &DataPatches,
) -> (r: Result<Option<ProcessedGenre>, ProcessError>)
    requires
        forall|i: int|
            0 <= i < patches.overrides@.len() ==> patch_cutoff_ok(
                #[trigger] patches.overrides@[i],
            ),
    ensures
        (r matches Err(ProcessError::BadHeader { .. })) <==> header_bad(header_line@),
        match r {
            Ok(Some(g)) => {
                &&& (g.last_revision_date.seconds, g.last_revision_date.nanos) == header_instant(
                    header_line@,
                )
                &&& g.last_revision_date.text@ == crate::timestamp::ts_canon(
                    crate::timestamp::spec_parse_header(header_line@)->Some_0,
                )
                &&& match g.wikitext_description {
                    None => exists|ns: Seq<WtNode>, w: Seq<u8>, rev: WikiTimestamp|
                        rev.seconds == g.last_revision_date.seconds && rev.nanos
                            == g.last_revision_date.nanos && #[trigger] walk_produces(
                            ns,
                            w,
                            page.0@,
                            links.0@,
                            patches.overrides@,
                            rev,
                            fields_view_rec(g),
                            None::<Seq<u8>>,
                        ),
                    Some(tree) => exists|
                        ns: Seq<WtNode>,
                        w: Seq<u8>,
                        desc: Seq<u8>,
                        dns: Seq<WtNode>,
                        rev: WikiTimestamp,
                    |
                        rev.seconds == g.last_revision_date.seconds && rev.nanos
                            == g.last_revision_date.nanos && #[trigger] walk_and_simplify(
                            ns,
                            w,
                            page.0@,
                            links.0@,
                            patches.overrides@,
                            rev,
                            fields_view_rec(g),
                            desc,
                            dns,
                            nodes_view(tree@),
                        ),
                }
            },
            Ok(None) => true,
            Err(ProcessError::BadHeader { page: p }) => p.0@ == page.0@,
            Err(ProcessError::ParseFailed { page: p }) => p.0@ == page.0@,
            Err(ProcessError::MalformedSpans { page: p }) => p.0@ == page.0@,
            Err(ProcessError::EmptyGenreName { page: p }) => p.0@ == page.0@,
            Err(ProcessError::Simplify { page: p, .. }) => p.0@ == page.0@,
            Err(_) => false,
        },
{
    let header_text = match crate::timestamp::parse_header(header_line) {
        Some(t) => t,
        None => {
            return Err(ProcessError::BadHeader { page: page.clone() });
        },
    };
    let rev = match crate::timestamp::parse_timestamp(header_text.as_str()) {
        Some(t) => t,
        None => {
            return Err(ProcessError::BadHeader { page: page.clone() });
        },
    };
    let outcome = process_genre_wikitext(configuration, page, &rev, body, links, patches);
    proof {
        match &outcome {
            Ok(Some(g)) => {
                match &g.wikitext_description {
                    None => {
                        let (ns, w) = choose|ns: Seq<WtNode>, w: Seq<u8>|
                            #[trigger] walk_produces(
                                ns,
                                w,
                                page.0@,
                                links.0@,
                                patches.overrides@,
                                rev,
                                fields_view_rec(*g),
                                None::<Seq<u8>>,
                            );
                        assert(walk_produces(
                            ns,
                            w,
                            page.0@,
                            links.0@,
                            patches.overrides@,
                            rev,
                            fields_view_rec(*g),
                            None::<Seq<u8>>,
                        ));
                    },
                    Some(tree) => {
                        let (ns, w, desc, dns) = choose|
                            ns: Seq<WtNode>,
                            w: Seq<u8>,
                            desc: Seq<u8>,
                            dns: Seq<WtNode>,
                        |
                            #[trigger] walk_and_simplify(
                                ns,
                                w,
                                page.0@,
                                links.0@,
                                patches.overrides@,
                                rev,
                                fields_view_rec(*g),
                                desc,
                                dns,
                                nodes_view(tree@),
                            );
                        assert(walk_and_simplify(
                            ns,
                            w,
                            page.0@,
                            links.0@,
                            patches.overrides@,
                            rev,
                            fields_view_rec(*g),
                            desc,
                            dns,
                            nodes_view(tree@),
                        ));
                    },
                }
            },
            _ => {},
        }
    }
    outcome
}

} // verus!
