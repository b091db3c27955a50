//! The final graph: nodes in sorted title order, a sorted set of typed
//! links, the incident-link indices of every node, and the maximum degree.

use vstd::prelude::*;
use vstd::seq_lib::group_to_multiset_ensures;
use vstd::multiset::Multiset;
use crate::page::{PageName, GenreName, PageDataId};
use crate::process::{ProcessedGenre, ProcessedGenres};
use crate::simplify::SimplifiedNode;
use crate::strutil::{seq_lt, str_lt, str_eq, vec_insert_at, lemma_seq_lt_trans};
use crate::timestamp::WikiTimestamp;
use crate::wikitext::views_of;
use crate::dump_date::{DumpDate, date_iso, format_date_iso};

verus! {

broadcast use group_to_multiset_ensures;

/// The relation a link encodes.
#[derive(Debug, Clone, Copy, PartialEq, Eq, Structural)]
pub enum LinkType {
    Derivative,
    Subgenre,
    FusionGenre,
}

/// One directed link of the graph.
#[derive(Debug, Clone, Copy, PartialEq, Eq, Structural)]
pub struct LinkData {
    pub source: PageDataId,
    pub target: PageDataId,
    pub ty: LinkType,
}

/// One node of the graph.
#[derive(Debug)]
pub struct NodeData {
    pub id: PageDataId,
    pub page_title: PageName,
    pub wikitext_description: Option<Vec<SimplifiedNode>>,
    pub label: GenreName,
    pub last_revision_date: WikiTimestamp,
    pub links: Vec<usize>,
}

/// The assembled graph document.
#[derive(Debug)]
pub struct Graph {
    pub dump_date: String,
    pub nodes: Vec<NodeData>,
    pub links: Vec<LinkData>,
    pub max_degree: usize,
}

pub open spec fn ty_rank(t: LinkType) -> int {
    match t {
        LinkType::Derivative => 0,
        LinkType::Subgenre => 1,
        LinkType::FusionGenre => 2,
    }
}

/// The order of the link set: by source, then target, then relation.
pub open spec fn link_lt(a: LinkData, b: LinkData) -> bool {
    ||| a.source.0 < b.source.0
    ||| (a.source.0 == b.source.0 && a.target.0 < b.target.0)
    ||| (a.source.0 == b.source.0 && a.target.0 == b.target.0 && ty_rank(a.ty) < ty_rank(b.ty))
}

fn link_lt_exec(a: &LinkData, b: &LinkData) -> (r: bool)
    ensures
        r == link_lt(*a, *b),
{
    let ar: u8 = match a.ty {
        LinkType::Derivative => 0,
        LinkType::Subgenre => 1,
        LinkType::FusionGenre => 2,
    };
    let br: u8 = match b.ty {
        LinkType::Derivative => 0,
        LinkType::Subgenre => 1,
        LinkType::FusionGenre => 2,
    };
    a.source.0 < b.source.0 || (a.source.0 == b.source.0 && a.target.0 < b.target.0) || (
    a.source.0 == b.source.0 && a.target.0 == b.target.0 && ar < br)
}

/// A strictly ascending link sequence: sorted with no duplicates.
pub open spec fn links_sorted(ls: Seq<LinkData>) -> bool {
    forall|i: int, j: int| 0 <= i < j < ls.len() ==> link_lt(#[trigger] ls[i], #[trigger] ls[j])
}

/// The position of the first occurrence of the title, or the length when it
/// does not occur.
pub open spec fn spec_title_index(ts: Seq<Seq<char>>, t: Seq<char>) -> int
    decreases ts.len(),
{
    if ts.len() == 0 {
        0
    } else if ts[0] == t {
        0
    } else {
        1 + spec_title_index(ts.skip(1), t)
    }
}

pub open spec fn mk_link(source: int, target: int, ty: LinkType) -> LinkData {
    LinkData { source: PageDataId(source as usize), target: PageDataId(target as usize), ty }
}

/// The links one relation list contributes: incoming lists point at the
/// record, outgoing lists point away from it.
pub open spec fn edges_of_list(
    ts: Seq<Seq<char>>,
    list: Seq<PageName>,
    self_id: int,
    ty: LinkType,
    incoming: bool,
) -> Seq<LinkData>
    decreases list.len(),
{
    if list.len() == 0 {
        Seq::empty()
    } else {
        let other = spec_title_index(ts, list[0].0@);
        let l = if incoming {
            mk_link(other, self_id, ty)
        } else {
            mk_link(self_id, other, ty)
        };
        seq![l] + edges_of_list(ts, list.skip(1), self_id, ty, incoming)
    }
}

/// Every link one record contributes: each stylistic origin points at the
/// record, each derivative and subgenre is pointed at by it, and each
/// fusion genre points at it.
pub open spec fn record_edges(ts: Seq<Seq<char>>, g: ProcessedGenre, k: int) -> Seq<LinkData> {
    edges_of_list(ts, g.stylistic_origins@, k, LinkType::Derivative, true) + edges_of_list(
        ts,
        g.derivatives@,
        k,
        LinkType::Derivative,
        false,
    ) + edges_of_list(ts, g.subgenres@, k, LinkType::Subgenre, false) + edges_of_list(
        ts,
        g.fusion_genres@,
        k,
        LinkType::FusionGenre,
        true,
    )
}

pub open spec fn raw_edges_upto(ts: Seq<Seq<char>>, rs: Seq<(PageName, ProcessedGenre)>, k: int) -> Seq<
    LinkData,
>
    decreases k,
{
    if k <= 0 {
        Seq::empty()
    } else {
        raw_edges_upto(ts, rs, k - 1) + record_edges(ts, rs[k - 1].1, k - 1)
    }
}

/// Whether a link arises from one record, with node identities given by the
/// position of each title in the sorted title sequence.
pub open spec fn edge_from_element(
    x: (PageName, ProcessedGenre),
    ts: Seq<Seq<char>>,
    l: LinkData,
) -> bool {
    let self_id = spec_title_index(ts, x.0.0@);
    let g = x.1;
    ||| exists|m: int|
        0 <= m < g.stylistic_origins@.len() && l == mk_link(
            spec_title_index(ts, g.stylistic_origins@[m].0@),
            self_id,
            LinkType::Derivative,
        )
    ||| exists|m: int|
        0 <= m < g.derivatives@.len() && l == mk_link(
            self_id,
            spec_title_index(ts, g.derivatives@[m].0@),
            LinkType::Derivative,
        )
    ||| exists|m: int|
        0 <= m < g.subgenres@.len() && l == mk_link(
            self_id,
            spec_title_index(ts, g.subgenres@[m].0@),
            LinkType::Subgenre,
        )
    ||| exists|m: int|
        0 <= m < g.fusion_genres@.len() && l == mk_link(
            spec_title_index(ts, g.fusion_genres@[m].0@),
            self_id,
            LinkType::FusionGenre,
        )
}

/// Whether a link belongs to the graph of the given records.
pub open spec fn spec_is_edge(
    records: Seq<(PageName, ProcessedGenre)>,
    ts: Seq<Seq<char>>,
    l: LinkData,
) -> bool {
    exists|x: (PageName, ProcessedGenre)|
        #[trigger] records.contains(x) && edge_from_element(x, ts, l)
}

/// The indices of the links incident to node `i`, among the first `j`
/// links, in ascending order.
pub open spec fn incident_upto(ls: Seq<LinkData>, i: int, j: int) -> Seq<int>
    decreases j,
{
    if j <= 0 {
        Seq::empty()
    } else {
        incident_upto(ls, i, j - 1) + (if ls[j - 1].source.0 == i || ls[j - 1].target.0 == i {
            seq![j - 1]
        } else {
            Seq::empty()
        })
    }
}

pub open spec fn ints_of(v: Seq<usize>) -> Seq<int> {
    v.map_values(|x: usize| x as int)
}

pub open spec fn spec_max_degree(ns: Seq<NodeData>) -> int
    decreases ns.len(),
{
    if ns.len() == 0 {
        0
    } else {
        let rest = spec_max_degree(ns.drop_last());
        if ns.last().links@.len() > rest {
            ns.last().links@.len() as int
        } else {
            rest
        }
    }
}

/// The titles of the records.
pub open spec fn record_titles(rs: Seq<(PageName, ProcessedGenre)>) -> Seq<Seq<char>> {
    rs.map_values(|x: (PageName, ProcessedGenre)| x.0.0@)
}

/// Each referenced relation target is the title of some record.
pub open spec fn title_present(rs: Seq<(PageName, ProcessedGenre)>, t: Seq<char>) -> bool {
    exists|x: (PageName, ProcessedGenre)| #[trigger] rs.contains(x) && x.0.0@ == t
}

pub open spec fn records_closed(rs: Seq<(PageName, ProcessedGenre)>) -> bool {
    forall|k: int|
        0 <= k < rs.len() ==> {
            let g = #[trigger] rs[k].1;
            &&& forall|m: int|
                0 <= m < g.stylistic_origins@.len() ==> title_present(
                    rs,
                    #[trigger] g.stylistic_origins@[m].0@,
                )
            &&& forall|m: int|
                0 <= m < g.derivatives@.len() ==> title_present(
                    rs,
                    #[trigger] g.derivatives@[m].0@,
                )
            &&& forall|m: int|
                0 <= m < g.subgenres@.len() ==> title_present(rs, #[trigger] g.subgenres@[m].0@)
            &&& forall|m: int|
                0 <= m < g.fusion_genres@.len() ==> title_present(
                    rs,
                    #[trigger] g.fusion_genres@[m].0@,
                )
        }
}

pub open spec fn titles_distinct(rs: Seq<(PageName, ProcessedGenre)>) -> bool {
    forall|i: int, j: int|
        0 <= i < j < rs.len() ==> (#[trigger] rs[i].0.0@) != (#[trigger] rs[j].0.0@)
}

pub open spec fn names_distinct(rs: Seq<(PageName, ProcessedGenre)>) -> bool {
    forall|i: int, j: int|
        0 <= i < j < rs.len() ==> (#[trigger] rs[i].1.name.0@) != (#[trigger] rs[j].1.name.0@)
}

/// The graph invariants: dense ids in title order, a strictly sorted link
/// set over valid endpoints, exact incident-link sets, the true maximum
/// degree, and unique labels.
pub open spec fn graph_wf(g: Graph) -> bool {
    &&& forall|i: int| 0 <= i < g.nodes@.len() ==> (#[trigger] g.nodes@[i].id).0 == i
    &&& forall|i: int, j: int|
        0 <= i < j < g.nodes@.len() ==> !seq_lt(
            #[trigger] g.nodes@[j].page_title.0@,
            #[trigger] g.nodes@[i].page_title.0@,
        ) && g.nodes@[i].page_title.0@ != g.nodes@[j].page_title.0@
    &&& forall|k: int|
        0 <= k < g.links@.len() ==> (#[trigger] g.links@[k]).source.0 < g.nodes@.len()
            && g.links@[k].target.0 < g.nodes@.len()
    &&& links_sorted(g.links@)
    &&& forall|i: int|
        0 <= i < g.nodes@.len() ==> ints_of(#[trigger] g.nodes@[i].links@) == incident_upto(
            g.links@,
            i,
            g.links@.len() as int,
        )
    &&& g.max_degree as int == spec_max_degree(g.nodes@)
    &&& forall|i: int, j: int|
        0 <= i < j < g.nodes@.len() ==> (#[trigger] g.nodes@[i].label.0@) != (
        #[trigger] g.nodes@[j].label.0@)
}

} // verus!

verus! {

proof fn lemma_insert_index_facts<T>(pre: Seq<T>, post: Seq<T>, p: int, x: T)
    requires
        0 <= p <= pre.len(),
        post == pre.insert(p, x),
    ensures
        post.len() == pre.len() + 1,
        forall|k: int| 0 <= k < p ==> post[k] == pre[k],
        post[p] == x,
        forall|k: int| p < k < post.len() ==> post[k] == pre[k - 1],
{
    pre.insert_ensures(p, x);
    assert forall|k: int| 0 <= k < p implies post[k] == pre[k] by {
        assert(pre.insert(p, x)[k] == pre[k]);
    }
    assert(post[p] == x) by {
        assert(pre.insert(p, x)[p] == x);
    }
    assert forall|k: int| p < k < post.len() implies post[k] == pre[k - 1] by {
        assert(pre.insert(p, x)[(k - 1) + 1] == pre[k - 1]);
    }
}

proof fn lemma_insert_multiset<T>(s: Seq<T>, i: int, x: T)
    requires
        0 <= i <= s.len(),
    ensures
        s.insert(i, x).to_multiset() == s.to_multiset().insert(x),
{
    assert(s.insert(i, x) =~= s.take(i).push(x) + s.skip(i));
    assert(s =~= s.take(i) + s.skip(i));
    vstd::seq_lib::lemma_multiset_commutative(s.take(i).push(x), s.skip(i));
    vstd::seq_lib::lemma_multiset_commutative(s.take(i), s.skip(i));
    assert(s.take(i).push(x).to_multiset() =~= s.take(i).to_multiset().insert(x));
    assert(s.insert(i, x).to_multiset() =~= s.to_multiset().insert(x));
}

/// Sorted by title, allowing no direction of descent.
pub open spec fn records_sorted_le(rs: Seq<(PageName, ProcessedGenre)>) -> bool {
    forall|i: int, j: int|
        0 <= i < j < rs.len() ==> !seq_lt(#[trigger] rs[j].0.0@, #[trigger] rs[i].0.0@)
}

/// Sorts the records by page title.
fn sort_records(input: Vec<(PageName, ProcessedGenre)>) -> (r: Vec<(PageName, ProcessedGenre)>)
    ensures
        r@.to_multiset() == input@.to_multiset(),
        records_sorted_le(r@),
{
    let mut rest = input;
    let mut out: Vec<(PageName, ProcessedGenre)> = Vec::new();
    proof {
        assert(out@.to_multiset().add(rest@.to_multiset()) =~= input@.to_multiset()) by {
            assert(out@.to_multiset() =~= Multiset::<(PageName, ProcessedGenre)>::empty());
        }
    }
    while rest.len() > 0
        invariant
            out@.to_multiset().add(rest@.to_multiset()) == input@.to_multiset(),
            records_sorted_le(out@),
        decreases rest@.len(),
    {
        let ghost rest_pre = rest@;
        let x = rest.pop().unwrap();
        proof {
            assert(rest_pre.drop_last().push(x) =~= rest_pre);
            assert(rest@.to_multiset().insert(x) == rest_pre.to_multiset());
        }
        let n = out.len();
        let mut p: usize = 0;
        let mut placed = false;
        while p < n && !placed
            invariant
                p <= n,
                n == out@.len(),
                forall|i: int| 0 <= i < p ==> !seq_lt(x.0.0@, #[trigger] out@[i].0.0@),
                placed ==> p < n && seq_lt(x.0.0@, out@[p as int].0.0@),
            decreases n - p, (if placed { 0int } else { 1int }),
        {
            if str_lt(x.0.0.as_str(), out[p].0.0.as_str()) {
                placed = true;
            } else {
                p = p + 1;
            }
        }
        let ghost out_pre = out@;
        let ghost xtitle = x.0.0@;
        let ghost p_saved = p as int;
        let ghost cut_holds = placed;
        vec_insert_at(&mut out, p, x);
        proof {
            lemma_insert_multiset(out_pre, p_saved, x);
            assert(out@.to_multiset() =~= out_pre.to_multiset().insert(x));
            assert(out@.to_multiset().add(rest@.to_multiset()) =~= input@.to_multiset()) by {
                assert(out_pre.to_multiset().add(rest_pre.to_multiset())
                    == input@.to_multiset());
                assert(rest@.to_multiset().insert(x) == rest_pre.to_multiset());
            }
            lemma_insert_index_facts(out_pre, out@, p_saved, x);
            assert(records_sorted_le(out@)) by {
                assert forall|i: int, j: int| 0 <= i < j < out@.len() implies !seq_lt(
                    out@[j].0.0@,
                    out@[i].0.0@,
                ) by {
                    if j < p_saved {
                        assert(out@[i] == out_pre[i] && out@[j] == out_pre[j]);
                        assert(!seq_lt(out_pre[j].0.0@, out_pre[i].0.0@));
                    } else if i > p_saved {
                        assert(out@[i] == out_pre[i - 1] && out@[j] == out_pre[j - 1]);
                        assert(!seq_lt(out_pre[j - 1].0.0@, out_pre[i - 1].0.0@));
                    } else if i < p_saved && j == p_saved {
                        assert(out@[i] == out_pre[i] && out@[j] == x);
                        assert(!seq_lt(xtitle, out_pre[i].0.0@));
                    } else if i == p_saved && j > p_saved {
                        assert(out@[i] == x && out@[j] == out_pre[j - 1]);
                        assert(p_saved < out_pre.len());
                        assert(cut_holds);
                        assert(seq_lt(xtitle, out_pre[p_saved].0.0@));
                        if seq_lt(out_pre[j - 1].0.0@, xtitle) {
                            lemma_seq_lt_trans(
                                out_pre[j - 1].0.0@,
                                xtitle,
                                out_pre[p_saved].0.0@,
                            );
                            if j - 1 == p_saved {
                                crate::strutil::lemma_seq_lt_irrefl(out_pre[p_saved].0.0@);
                            } else {
                                assert(!seq_lt(out_pre[j - 1].0.0@, out_pre[p_saved].0.0@));
                            }
                        }
                    } else if i < p_saved && j > p_saved {
                        assert(out@[i] == out_pre[i] && out@[j] == out_pre[j - 1]);
                        assert(!seq_lt(out_pre[j - 1].0.0@, out_pre[i].0.0@));
                    }
                }
            }
        }
    }
    proof {
        assert(rest@.to_multiset() =~= Multiset::<(PageName, ProcessedGenre)>::empty()) by {
            assert(rest@ =~= Seq::<(PageName, ProcessedGenre)>::empty());
        }
        assert(out@.to_multiset() =~= input@.to_multiset());
    }
    out
}

/// The title occurs in the list.
pub open spec fn title_in(titles: Seq<String>, t: Seq<char>) -> bool {
    exists|j: int| 0 <= j < titles.len() && (#[trigger] titles[j])@ == t
}

/// Every title of the list occurs among the titles.
pub open spec fn all_titles_present(titles: Seq<String>, list: Seq<PageName>) -> bool {
    forall|m: int| 0 <= m < list.len() ==> title_in(titles, (#[trigger] list[m]).0@)
}

fn find_title(titles: &Vec<String>, t: &str) -> (r: usize)
    requires
        title_in(titles@, t@),
    ensures
        r < titles@.len(),
        titles@[r as int]@ == t@,
        r as int == spec_title_index(views_of(titles@), t@),
{
    let n = titles.len();
    let mut i: usize = 0;
    proof {
        assert(views_of(titles@).skip(0) =~= views_of(titles@));
    }
    while i < n
        invariant
            i <= n,
            n == titles@.len(),
            title_in(titles@, t@),
            forall|j: int| 0 <= j < i ==> (#[trigger] titles@[j])@ != t@,
            spec_title_index(views_of(titles@), t@) == i + spec_title_index(
                views_of(titles@).skip(i as int),
                t@,
            ),
        decreases n - i,
    {
        proof {
            assert(views_of(titles@).skip(i as int)[0] == titles@[i as int]@);
            assert(views_of(titles@).skip(i as int).skip(1) =~= views_of(titles@).skip(
                i as int + 1,
            ));
        }
        if str_eq(titles[i].as_str(), t) {
            return i;
        }
        i = i + 1;
    }
    proof {
        let j = choose|j: int| 0 <= j < titles@.len() && (#[trigger] titles@[j])@ == t@;
        assert(titles@[j]@ != t@);
        assert(false);
    }
    0
}

fn emit_list_edges(
    out: &mut Vec<LinkData>,
    titles: &Vec<String>,
    list: &Vec<PageName>,
    self_id: usize,
    ty: LinkType,
    incoming: bool,
)
    requires
        all_titles_present(titles@, list@),
    ensures
        final(out)@ == old(out)@ + edges_of_list(
            views_of(titles@),
            list@,
            self_id as int,
            ty,
            incoming,
        ),
{
    let ghost ts = views_of(titles@);
    let n = list.len();
    let mut i: usize = 0;
    proof {
        assert(list@.skip(0) =~= list@);
        assert(out@ + Seq::<LinkData>::empty() =~= out@);
    }
    while i < n
        invariant
            i <= n,
            n == list@.len(),
            ts == views_of(titles@),
            all_titles_present(titles@, list@),
            out@ + edges_of_list(ts, list@.skip(i as int), self_id as int, ty, incoming) == old(
                out,
            )@ + edges_of_list(ts, list@, self_id as int, ty, incoming),
        decreases n - i,
    {
        proof {
            assert(list@.skip(i as int)[0] == list@[i as int]);
            assert(list@.skip(i as int).skip(1) =~= list@.skip(i as int + 1));
        }
        let other = find_title(titles, list[i].0.as_str());
        let l = if incoming {
            LinkData { source: PageDataId(other), target: PageDataId(self_id), ty }
        } else {
            LinkData { source: PageDataId(self_id), target: PageDataId(other), ty }
        };
        let ghost out_pre = out@;
        out.push(l);
        i = i + 1;
        proof {
            assert(out@ =~= out_pre.push(l));
            assert(out@ + edges_of_list(ts, list@.skip(i as int), self_id as int, ty, incoming)
                =~= old(out)@ + edges_of_list(ts, list@, self_id as int, ty, incoming));
        }
    }
    proof {
        assert(edges_of_list(ts, list@.skip(n as int), self_id as int, ty, incoming) =~= Seq::<
            LinkData,
        >::empty());
        assert(final(out)@ =~= old(out)@ + edges_of_list(
            ts,
            list@,
            self_id as int,
            ty,
            incoming,
        ));
    }
}

/// Inserts a link into the sorted set, keeping it sorted and dropping
/// duplicates.
fn insert_link(links: &mut Vec<LinkData>, l: LinkData)
    requires
        links_sorted(old(links)@),
    ensures
        links_sorted(final(links)@),
        forall|x: LinkData|
            final(links)@.contains(x) <==> old(links)@.contains(x) || x == l,
{
    let n = links.len();
    let mut p: usize = 0;
    while p < n && link_lt_exec(&links[p], &l)
        invariant
            p <= n,
            n == links@.len(),
            links@ == old(links)@,
            forall|i: int| 0 <= i < p ==> link_lt(#[trigger] links@[i], l),
        decreases n - p,
    {
        p = p + 1;
    }
    if p < n && links[p] == l {
        proof {
            assert(old(links)@.contains(l)) by {
                assert(old(links)@[p as int] == l);
            }
            assert(forall|x: LinkData|
                final(links)@.contains(x) <==> old(links)@.contains(x) || x == l);
        }
        return ;
    }
    let ghost pre = links@;
    let ghost p_saved = p as int;
    vec_insert_at(links, p, l);
    proof {
        lemma_insert_index_facts(pre, links@, p_saved, l);
        assert(links_sorted(links@)) by {
            assert forall|i: int, j: int| 0 <= i < j < links@.len() implies link_lt(
                links@[i],
                links@[j],
            ) by {
                if j < p_saved {
                    assert(links@[i] == pre[i] && links@[j] == pre[j]);
                } else if i > p_saved {
                    assert(links@[i] == pre[i - 1] && links@[j] == pre[j - 1]);
                } else if i < p_saved && j == p_saved {
                    assert(links@[i] == pre[i] && links@[j] == l);
                } else if i == p_saved && j > p_saved {
                    assert(links@[i] == l && links@[j] == pre[j - 1]);
                    assert(!link_lt(pre[p_saved], l));
                    assert(pre[p_saved] != l);
                    if j - 1 == p_saved {
                        assert(link_lt(l, pre[p_saved]));
                    } else {
                        assert(link_lt(pre[p_saved], pre[j - 1]));
                        assert(link_lt(l, pre[p_saved]));
                    }
                } else if i < p_saved && j > p_saved {
                    assert(links@[i] == pre[i] && links@[j] == pre[j - 1]);
                    if i < p_saved && p_saved < links@.len() - 1 && j - 1 >= p_saved {
                        if j - 1 == p_saved {
                        } else {
                        }
                    }
                }
            }
        }
        assert(forall|x: LinkData|
            links@.contains(x) <==> pre.contains(x) || x == l) by {
            assert(links@ =~= pre.take(p_saved).push(l) + pre.skip(p_saved));
            assert(pre =~= pre.take(p_saved) + pre.skip(p_saved));
            assert forall|x: LinkData| links@.contains(x) implies pre.contains(x) || x == l by {
                let i = choose|i: int| 0 <= i < links@.len() && links@[i] == x;
                if i < p_saved {
                    assert(pre[i] == x);
                } else if i > p_saved {
                    assert(pre[i - 1] == x);
                }
            }
            assert forall|x: LinkData| pre.contains(x) || x == l implies links@.contains(
                x,
            ) by {
                if x == l {
                    assert(links@[p_saved] == x);
                } else {
                    let i = choose|i: int| 0 <= i < pre.len() && pre[i] == x;
                    if i < p_saved {
                        assert(links@[i] == x);
                    } else {
                        assert(links@[i + 1] == x);
                    }
                }
            }
        }
    }
}

} // verus!

verus! {

proof fn lemma_concat_contains(a: Seq<LinkData>, b: Seq<LinkData>, x: LinkData)
    ensures
        (a + b).contains(x) <==> a.contains(x) || b.contains(x),
{
    if (a + b).contains(x) {
        let i = choose|i: int| 0 <= i < (a + b).len() && (a + b)[i] == x;
        if i < a.len() {
            assert(a[i] == x);
        } else {
            assert(b[i - a.len()] == x);
        }
    }
    if a.contains(x) {
        let i = choose|i: int| 0 <= i < a.len() && a[i] == x;
        assert((a + b)[i] == x);
    }
    if b.contains(x) {
        let i = choose|i: int| 0 <= i < b.len() && b[i] == x;
        assert((a + b)[a.len() + i] == x);
    }
}

proof fn lemma_eol_membership(
    ts: Seq<Seq<char>>,
    list: Seq<PageName>,
    self_id: int,
    ty: LinkType,
    incoming: bool,
    l: LinkData,
)
    ensures
        edges_of_list(ts, list, self_id, ty, incoming).contains(l) <==> exists|m: int|
            0 <= m < list.len() && l == (if incoming {
                mk_link(spec_title_index(ts, list[m].0@), self_id, ty)
            } else {
                mk_link(self_id, spec_title_index(ts, list[m].0@), ty)
            }),
    decreases list.len(),
{
    if list.len() > 0 {
        lemma_eol_membership(ts, list.skip(1), self_id, ty, incoming, l);
        let other = spec_title_index(ts, list[0].0@);
        let head = if incoming {
            mk_link(other, self_id, ty)
        } else {
            mk_link(self_id, other, ty)
        };
        lemma_concat_contains(
            seq![head],
            edges_of_list(ts, list.skip(1), self_id, ty, incoming),
            l,
        );
        assert(seq![head].contains(l) <==> l == head) by {
            if seq![head].contains(l) {
                assert(seq![head][0] == head);
            } else {
                assert(seq![head][0] == head);
            }
        }
        if exists|m: int|
            0 <= m < list.len() && l == (if incoming {
                mk_link(spec_title_index(ts, list[m].0@), self_id, ty)
            } else {
                mk_link(self_id, spec_title_index(ts, list[m].0@), ty)
            }) {
            let m = choose|m: int|
                0 <= m < list.len() && l == (if incoming {
                    mk_link(spec_title_index(ts, list[m].0@), self_id, ty)
                } else {
                    mk_link(self_id, spec_title_index(ts, list[m].0@), ty)
                });
            if m == 0 {
                assert(l == head);
            } else {
                assert(list.skip(1)[m - 1] == list[m]);
            }
        }
        if exists|m: int|
            0 <= m < list.skip(1).len() && l == (if incoming {
                mk_link(spec_title_index(ts, list.skip(1)[m].0@), self_id, ty)
            } else {
                mk_link(self_id, spec_title_index(ts, list.skip(1)[m].0@), ty)
            }) {
            let m = choose|m: int|
                0 <= m < list.skip(1).len() && l == (if incoming {
                    mk_link(spec_title_index(ts, list.skip(1)[m].0@), self_id, ty)
                } else {
                    mk_link(self_id, spec_title_index(ts, list.skip(1)[m].0@), ty)
                });
            assert(list.skip(1)[m] == list[m + 1]);
        }
    }
}

proof fn lemma_record_membership(
    ts: Seq<Seq<char>>,
    g: ProcessedGenre,
    k: int,
    l: LinkData,
)
    ensures
        record_edges(ts, g, k).contains(l) <==> {
            ||| exists|m: int|
                0 <= m < g.stylistic_origins@.len() && l == mk_link(
                    spec_title_index(ts, g.stylistic_origins@[m].0@),
                    k,
                    LinkType::Derivative,
                )
            ||| exists|m: int|
                0 <= m < g.derivatives@.len() && l == mk_link(
                    k,
                    spec_title_index(ts, g.derivatives@[m].0@),
                    LinkType::Derivative,
                )
            ||| exists|m: int|
                0 <= m < g.subgenres@.len() && l == mk_link(
                    k,
                    spec_title_index(ts, g.subgenres@[m].0@),
                    LinkType::Subgenre,
                )
            ||| exists|m: int|
                0 <= m < g.fusion_genres@.len() && l == mk_link(
                    spec_title_index(ts, g.fusion_genres@[m].0@),
                    k,
                    LinkType::FusionGenre,
                )
        },
{
    let a = edges_of_list(ts, g.stylistic_origins@, k, LinkType::Derivative, true);
    let b = edges_of_list(ts, g.derivatives@, k, LinkType::Derivative, false);
    let c = edges_of_list(ts, g.subgenres@, k, LinkType::Subgenre, false);
    let d = edges_of_list(ts, g.fusion_genres@, k, LinkType::FusionGenre, true);
    lemma_concat_contains(a + b + c, d, l);
    lemma_concat_contains(a + b, c, l);
    lemma_concat_contains(a, b, l);
    lemma_eol_membership(ts, g.stylistic_origins@, k, LinkType::Derivative, true, l);
    lemma_eol_membership(ts, g.derivatives@, k, LinkType::Derivative, false, l);
    lemma_eol_membership(ts, g.subgenres@, k, LinkType::Subgenre, false, l);
    lemma_eol_membership(ts, g.fusion_genres@, k, LinkType::FusionGenre, true, l);
}

proof fn lemma_raw_membership(
    ts: Seq<Seq<char>>,
    rs: Seq<(PageName, ProcessedGenre)>,
    k: int,
    l: LinkData,
)
    requires
        0 <= k <= rs.len(),
    ensures
        raw_edges_upto(ts, rs, k).contains(l) <==> exists|kk: int|
            0 <= kk < k && record_edges(ts, (#[trigger] rs[kk]).1, kk).contains(l),
    decreases k,
{
    if k > 0 {
        lemma_raw_membership(ts, rs, k - 1, l);
        lemma_concat_contains(raw_edges_upto(ts, rs, k - 1), record_edges(ts, rs[k - 1].1, k - 1), l);
    }
}

/// With pairwise distinct titles, each title's first occurrence is its own
/// position.
proof fn lemma_title_index_self(ts: Seq<Seq<char>>, k: int)
    requires
        0 <= k < ts.len(),
        forall|i: int, j: int| 0 <= i < j < ts.len() ==> (#[trigger] ts[i]) != (#[trigger] ts[j]),
    ensures
        spec_title_index(ts, ts[k]) == k,
    decreases k,
{
    if ts.len() > 0 {
        if k == 0 {
        } else {
            assert(ts[0] != ts[k]);
            assert(forall|i: int, j: int|
                0 <= i < j < ts.skip(1).len() ==> (#[trigger] ts.skip(1)[i]) != (
                #[trigger] ts.skip(1)[j])) by {
                assert(forall|i: int|
                    0 <= i < ts.skip(1).len() ==> #[trigger] ts.skip(1)[i] == ts[i + 1]);
            }
            assert(ts.skip(1)[k - 1] == ts[k]);
            lemma_title_index_self(ts.skip(1), k - 1);
        }
    }
}

/// A present title's first occurrence lies inside the sequence.
proof fn lemma_title_index_bound(ts: Seq<Seq<char>>, t: Seq<char>)
    requires
        exists|j: int| 0 <= j < ts.len() && ts[j] == t,
    ensures
        0 <= spec_title_index(ts, t) < ts.len(),
        ts[spec_title_index(ts, t)] == t,
    decreases ts.len(),
{
    if ts.len() > 0 {
        if ts[0] == t {
        } else {
            let j = choose|j: int| 0 <= j < ts.len() && ts[j] == t;
            assert(ts.skip(1)[j - 1] == t);
            lemma_title_index_bound(ts.skip(1), t);
        }
    }
}

} // verus!

verus! {

/// The title of each node.
pub open spec fn node_titles(ns: Seq<NodeData>) -> Seq<Seq<char>> {
    ns.map_values(|nd: NodeData| nd.page_title.0@)
}

/// The node carries the record's title, label, description and timestamp.
pub open spec fn node_matches(nd: NodeData, x: (PageName, ProcessedGenre)) -> bool {
    &&& nd.page_title.0@ == x.0.0@
    &&& nd.label == x.1.name
    &&& nd.wikitext_description == x.1.wikitext_description
    &&& nd.last_revision_date == x.1.last_revision_date
}

proof fn lemma_no_dup_transfer(
    a: Seq<(PageName, ProcessedGenre)>,
    b: Seq<(PageName, ProcessedGenre)>,
)
    requires
        a.to_multiset() == b.to_multiset(),
        titles_distinct(a),
    ensures
        titles_distinct(b),
        forall|x: (PageName, ProcessedGenre)| a.contains(x) <==> b.contains(x),
{
    assert(a.no_duplicates()) by {
        assert forall|i: int, j: int|
            0 <= i < a.len() && 0 <= j < a.len() && i != j implies a[i] != a[j] by {
            if i < j {
                assert(a[i].0.0@ != a[j].0.0@);
            } else {
                assert(a[j].0.0@ != a[i].0.0@);
            }
        }
    }
    a.lemma_multiset_has_no_duplicates();
    b.lemma_multiset_has_no_duplicates_conv();
    assert forall|x: (PageName, ProcessedGenre)| a.contains(x) <==> b.contains(x) by {
        assert(a.contains(x) <==> a.to_multiset().count(x) > 0);
        assert(b.contains(x) <==> b.to_multiset().count(x) > 0);
    }
    assert forall|i: int, j: int| 0 <= i < j < b.len() implies (#[trigger] b[i].0.0@) != (
    #[trigger] b[j].0.0@) by {
        if b[i].0.0@ == b[j].0.0@ {
            assert(b[i] != b[j]);
            assert(b.contains(b[i]) && b.contains(b[j]));
            assert(a.contains(b[i]) && a.contains(b[j]));
            let ii = choose|k: int| 0 <= k < a.len() && a[k] == b[i];
            let jj = choose|k: int| 0 <= k < a.len() && a[k] == b[j];
            assert(ii != jj);
            if ii < jj {
                assert(a[ii].0.0@ != a[jj].0.0@);
            } else {
                assert(a[jj].0.0@ != a[ii].0.0@);
            }
        }
    }
}

proof fn lemma_closed_transfer(
    a: Seq<(PageName, ProcessedGenre)>,
    b: Seq<(PageName, ProcessedGenre)>,
)
    requires
        forall|x: (PageName, ProcessedGenre)| a.contains(x) <==> #[trigger] b.contains(x),
        records_closed(a),
    ensures
        records_closed(b),
{
    assert forall|k: int| 0 <= k < b.len() implies {
        let g = #[trigger] b[k].1;
        &&& forall|m: int|
            0 <= m < g.stylistic_origins@.len() ==> title_present(
                b,
                #[trigger] g.stylistic_origins@[m].0@,
            )
        &&& forall|m: int|
            0 <= m < g.derivatives@.len() ==> title_present(b, #[trigger] g.derivatives@[m].0@)
        &&& forall|m: int|
            0 <= m < g.subgenres@.len() ==> title_present(b, #[trigger] g.subgenres@[m].0@)
        &&& forall|m: int|
            0 <= m < g.fusion_genres@.len() ==> title_present(
                b,
                #[trigger] g.fusion_genres@[m].0@,
            )
    } by {
        let g = b[k].1;
        assert(b.contains(b[k]));
        assert(a.contains(b[k]));
        let ka = choose|ka: int| 0 <= ka < a.len() && a[ka] == b[k];
        assert(a[ka].1 == g);
        assert forall|m: int| 0 <= m < g.stylistic_origins@.len() implies title_present(
            b,
            #[trigger] g.stylistic_origins@[m].0@,
        ) by {
            assert(title_present(a, g.stylistic_origins@[m].0@));
            let x = choose|x: (PageName, ProcessedGenre)|
                #[trigger] a.contains(x) && x.0.0@ == g.stylistic_origins@[m].0@;
            assert(b.contains(x));
        }
        assert forall|m: int| 0 <= m < g.derivatives@.len() implies title_present(
            b,
            #[trigger] g.derivatives@[m].0@,
        ) by {
            assert(title_present(a, g.derivatives@[m].0@));
            let x = choose|x: (PageName, ProcessedGenre)|
                #[trigger] a.contains(x) && x.0.0@ == g.derivatives@[m].0@;
            assert(b.contains(x));
        }
        assert forall|m: int| 0 <= m < g.subgenres@.len() implies title_present(
            b,
            #[trigger] g.subgenres@[m].0@,
        ) by {
            assert(title_present(a, g.subgenres@[m].0@));
            let x = choose|x: (PageName, ProcessedGenre)|
                #[trigger] a.contains(x) && x.0.0@ == g.subgenres@[m].0@;
            assert(b.contains(x));
        }
        assert forall|m: int| 0 <= m < g.fusion_genres@.len() implies title_present(
            b,
            #[trigger] g.fusion_genres@[m].0@,
        ) by {
            assert(title_present(a, g.fusion_genres@[m].0@));
            let x = choose|x: (PageName, ProcessedGenre)|
                #[trigger] a.contains(x) && x.0.0@ == g.fusion_genres@[m].0@;
            assert(b.contains(x));
        }
    }
}

proof fn lemma_one_list_present(
    titles: Seq<String>,
    sorted0: Seq<(PageName, ProcessedGenre)>,
    list: Seq<PageName>,
)
    requires
        titles.len() == sorted0.len(),
        forall|j: int| 0 <= j < sorted0.len() ==> (#[trigger] titles[j])@ == sorted0[j].0.0@,
        forall|m: int| 0 <= m < list.len() ==> title_present(sorted0, (#[trigger] list[m]).0@),
    ensures
        all_titles_present(titles, list),
{
    assert forall|m: int| 0 <= m < list.len() implies title_in(
        titles,
        (#[trigger] list[m]).0@,
    ) by {
        assert(title_present(sorted0, list[m].0@));
        let x = choose|x: (PageName, ProcessedGenre)|
            #[trigger] sorted0.contains(x) && x.0.0@ == list[m].0@;
        let j = choose|j: int| 0 <= j < sorted0.len() && sorted0[j] == x;
        assert(titles[j]@ == x.0.0@);
    }
}

proof fn lemma_presence(
    titles: Seq<String>,
    sorted0: Seq<(PageName, ProcessedGenre)>,
    k: int,
)
    requires
        titles.len() == sorted0.len(),
        forall|j: int| 0 <= j < sorted0.len() ==> (#[trigger] titles[j])@ == sorted0[j].0.0@,
        records_closed(sorted0),
        0 <= k < sorted0.len(),
    ensures
        all_titles_present(titles, sorted0[k].1.stylistic_origins@),
        all_titles_present(titles, sorted0[k].1.derivatives@),
        all_titles_present(titles, sorted0[k].1.subgenres@),
        all_titles_present(titles, sorted0[k].1.fusion_genres@),
{
    let g = sorted0[k].1;
    assert(forall|m: int|
        0 <= m < g.stylistic_origins@.len() ==> title_present(
            sorted0,
            #[trigger] g.stylistic_origins@[m].0@,
        ));
    assert(forall|m: int|
        0 <= m < g.derivatives@.len() ==> title_present(
            sorted0,
            #[trigger] g.derivatives@[m].0@,
        ));
    assert(forall|m: int|
        0 <= m < g.subgenres@.len() ==> title_present(sorted0, #[trigger] g.subgenres@[m].0@));
    assert(forall|m: int|
        0 <= m < g.fusion_genres@.len() ==> title_present(
            sorted0,
            #[trigger] g.fusion_genres@[m].0@,
        ));
    lemma_one_list_present(titles, sorted0, g.stylistic_origins@);
    lemma_one_list_present(titles, sorted0, g.derivatives@);
    lemma_one_list_present(titles, sorted0, g.subgenres@);
    lemma_one_list_present(titles, sorted0, g.fusion_genres@);
}

proof fn lemma_endpoint_bounds(
    ts: Seq<Seq<char>>,
    sorted0: Seq<(PageName, ProcessedGenre)>,
    l: LinkData,
)
    requires
        ts == record_titles(sorted0),
        records_closed(sorted0),
        raw_edges_upto(ts, sorted0, sorted0.len() as int).contains(l),
    ensures
        l.source.0 < sorted0.len(),
        l.target.0 < sorted0.len(),
{
    lemma_raw_membership(ts, sorted0, sorted0.len() as int, l);
    {
            let kk = choose|kk: int|
                0 <= kk < sorted0.len() && record_edges(ts, (#[trigger] sorted0[kk]).1, kk).contains(
                    l,
                );
            lemma_record_membership(ts, sorted0[kk].1, kk, l);
            let gg = sorted0[kk].1;
            if exists|m2: int|
                0 <= m2 < gg.stylistic_origins@.len() && l == mk_link(
                    spec_title_index(ts, gg.stylistic_origins@[m2].0@),
                    kk,
                    LinkType::Derivative,
                ) {
                let m2 = choose|m2: int|
                    0 <= m2 < gg.stylistic_origins@.len() && l == mk_link(
                        spec_title_index(ts, gg.stylistic_origins@[m2].0@),
                        kk,
                        LinkType::Derivative,
                    );
                assert(title_present(sorted0, gg.stylistic_origins@[m2].0@));
                let x = choose|x: (PageName, ProcessedGenre)|
                    #[trigger] sorted0.contains(x) && x.0.0@ == gg.stylistic_origins@[m2].0@;
                let w = choose|w: int| 0 <= w < sorted0.len() && sorted0[w] == x;
                assert(ts[w] == gg.stylistic_origins@[m2].0@);
                lemma_title_index_bound(ts, gg.stylistic_origins@[m2].0@);
            } else if exists|m2: int|
                0 <= m2 < gg.derivatives@.len() && l == mk_link(
                    kk,
                    spec_title_index(ts, gg.derivatives@[m2].0@),
                    LinkType::Derivative,
                ) {
                let m2 = choose|m2: int|
                    0 <= m2 < gg.derivatives@.len() && l == mk_link(
                        kk,
                        spec_title_index(ts, gg.derivatives@[m2].0@),
                        LinkType::Derivative,
                    );
                assert(title_present(sorted0, gg.derivatives@[m2].0@));
                let x = choose|x: (PageName, ProcessedGenre)|
                    #[trigger] sorted0.contains(x) && x.0.0@ == gg.derivatives@[m2].0@;
                let w = choose|w: int| 0 <= w < sorted0.len() && sorted0[w] == x;
                assert(ts[w] == gg.derivatives@[m2].0@);
                lemma_title_index_bound(ts, gg.derivatives@[m2].0@);
            } else if exists|m2: int|
                0 <= m2 < gg.subgenres@.len() && l == mk_link(
                    kk,
                    spec_title_index(ts, gg.subgenres@[m2].0@),
                    LinkType::Subgenre,
                ) {
                let m2 = choose|m2: int|
                    0 <= m2 < gg.subgenres@.len() && l == mk_link(
                        kk,
                        spec_title_index(ts, gg.subgenres@[m2].0@),
                        LinkType::Subgenre,
                    );
                assert(title_present(sorted0, gg.subgenres@[m2].0@));
                let x = choose|x: (PageName, ProcessedGenre)|
                    #[trigger] sorted0.contains(x) && x.0.0@ == gg.subgenres@[m2].0@;
                let w = choose|w: int| 0 <= w < sorted0.len() && sorted0[w] == x;
                assert(ts[w] == gg.subgenres@[m2].0@);
                lemma_title_index_bound(ts, gg.subgenres@[m2].0@);
            } else {
                let m2 = choose|m2: int|
                    0 <= m2 < gg.fusion_genres@.len() && l == mk_link(
                        spec_title_index(ts, gg.fusion_genres@[m2].0@),
                        kk,
                        LinkType::FusionGenre,
                    );
                assert(title_present(sorted0, gg.fusion_genres@[m2].0@));
                let x = choose|x: (PageName, ProcessedGenre)|
                    #[trigger] sorted0.contains(x) && x.0.0@ == gg.fusion_genres@[m2].0@;
                let w = choose|w: int| 0 <= w < sorted0.len() && sorted0[w] == x;
                assert(ts[w] == gg.fusion_genres@[m2].0@);
                lemma_title_index_bound(ts, gg.fusion_genres@[m2].0@);
            }
        }
}

proof fn lemma_edge_iff(
    ts: Seq<Seq<char>>,
    sorted0: Seq<(PageName, ProcessedGenre)>,
    input: Seq<(PageName, ProcessedGenre)>,
    l: LinkData,
)
    requires
        ts == record_titles(sorted0),
        forall|x: (PageName, ProcessedGenre)| input.contains(x) <==> #[trigger] sorted0.contains(
            x,
        ),
        forall|i: int, j: int| 0 <= i < j < ts.len() ==> (#[trigger] ts[i]) != (#[trigger] ts[j]),
    ensures
        raw_edges_upto(ts, sorted0, sorted0.len() as int).contains(l) <==> spec_is_edge(
            input,
            ts,
            l,
        ),
{
    lemma_raw_membership(ts, sorted0, sorted0.len() as int, l);
    {
        if raw_edges_upto(ts, sorted0, sorted0.len() as int).contains(l) {
                let kk = choose|kk: int|
                    0 <= kk < sorted0.len() && record_edges(ts, (#[trigger] sorted0[kk]).1, kk).contains(l);
                lemma_record_membership(ts, sorted0[kk].1, kk, l);
                lemma_title_index_self(ts, kk);
                assert(edge_from_element(sorted0[kk], ts, l)) by {
                    assert(spec_title_index(ts, sorted0[kk].0.0@) == kk);
                }
                assert(sorted0.contains(sorted0[kk]));
                assert(input.contains(sorted0[kk]));
            }
            if spec_is_edge(input, ts, l) {
                let x = choose|x: (PageName, ProcessedGenre)|
                    #[trigger] input.contains(x) && edge_from_element(x, ts, l);
                assert(sorted0.contains(x));
                let kk = choose|kk: int| 0 <= kk < sorted0.len() && sorted0[kk] == x;
                lemma_title_index_self(ts, kk);
                assert(spec_title_index(ts, x.0.0@) == kk);
                lemma_record_membership(ts, sorted0[kk].1, kk, l);
                assert(record_edges(ts, sorted0[kk].1, kk).contains(l));
                assert(raw_edges_upto(ts, sorted0, sorted0.len() as int).contains(l));
            }
        }
}

/// Builds the graph: records sorted by title take dense ids, every record
/// contributes its typed links, duplicates collapse into a sorted link set,
/// each node gathers the indices of its incident links, and the maximum
/// degree is taken over all nodes.
pub fn produce_graph(dump_date: &DumpDate, records: ProcessedGenres) -> (r: Graph)
    requires
        dump_date.wf(),
        titles_distinct(records.0@),
        names_distinct(records.0@),
        records_closed(records.0@),
    ensures
        graph_wf(r),
        r.dump_date@ == date_iso(*dump_date),
        r.nodes@.len() == records.0@.len(),
        forall|i: int|
            0 <= i < r.nodes@.len() ==> exists|x: (PageName, ProcessedGenre)|
                records.0@.contains(x) && node_matches(#[trigger] r.nodes@[i], x),
        forall|l: LinkData|
            #[trigger] r.links@.contains(l) <==> spec_is_edge(
                records.0@,
                node_titles(r.nodes@),
                l,
            ),
{
    let ghost input = records.0@;
    let mut sorted = sort_records(records.0);
    let n = sorted.len();
    proof {
        lemma_no_dup_transfer(input, sorted@);
        lemma_closed_transfer(input, sorted@);
        assert(sorted@.len() == input.len()) by {
            assert(sorted@.to_multiset().len() == sorted@.len());
            assert(input.to_multiset().len() == input.len());
        }
    }
    let ghost sorted0 = sorted@;
    let mut titles: Vec<String> = Vec::new();
    let mut i: usize = 0;
    while i < n
        invariant
            i <= n,
            n == sorted@.len(),
            sorted@ == sorted0,
            titles@.len() == i,
            forall|j: int| 0 <= j < i ==> (#[trigger] titles@[j])@ == sorted0[j].0.0@,
        decreases n - i,
    {
        titles.push(sorted[i].0.0.clone());
        i = i + 1;
    }
    let ghost ts = views_of(titles@);
    proof {
        assert(ts =~= record_titles(sorted0));
        assert(forall|i2: int, j2: int|
            0 <= i2 < j2 < ts.len() ==> (#[trigger] ts[i2]) != (#[trigger] ts[j2]));
    }
    let mut raw: Vec<LinkData> = Vec::new();
    let mut k: usize = 0;
    proof {
        assert(raw@ =~= raw_edges_upto(ts, sorted0, 0));
    }
    while k < n
        invariant
            k <= n,
            n == sorted@.len(),
            sorted@ == sorted0,
            n == titles@.len(),
            ts == views_of(titles@),
            forall|j: int| 0 <= j < n ==> (#[trigger] titles@[j])@ == sorted0[j].0.0@,
            records_closed(sorted0),
            raw@ == raw_edges_upto(ts, sorted0, k as int),
        decreases n - k,
    {
        proof {
            lemma_presence(titles@, sorted0, k as int);
        }
        let g = &sorted[k].1;
        emit_list_edges(&mut raw, &titles, &g.stylistic_origins, k, LinkType::Derivative, true);
        emit_list_edges(&mut raw, &titles, &g.derivatives, k, LinkType::Derivative, false);
        emit_list_edges(&mut raw, &titles, &g.subgenres, k, LinkType::Subgenre, false);
        emit_list_edges(&mut raw, &titles, &g.fusion_genres, k, LinkType::FusionGenre, true);
        k = k + 1;
        proof {
            assert(raw@ =~= raw_edges_upto(ts, sorted0, k as int)) by {
                assert(record_edges(ts, sorted0[k - 1].1, k - 1) =~= edges_of_list(
                    ts,
                    sorted0[k - 1].1.stylistic_origins@,
                    k - 1,
                    LinkType::Derivative,
                    true,
                ) + edges_of_list(
                    ts,
                    sorted0[k - 1].1.derivatives@,
                    k - 1,
                    LinkType::Derivative,
                    false,
                ) + edges_of_list(
                    ts,
                    sorted0[k - 1].1.subgenres@,
                    k - 1,
                    LinkType::Subgenre,
                    false,
                ) + edges_of_list(
                    ts,
                    sorted0[k - 1].1.fusion_genres@,
                    k - 1,
                    LinkType::FusionGenre,
                    true,
                ));
            }
        }
    }
    let mut links: Vec<LinkData> = Vec::new();
    let m_raw = raw.len();
    let mut j: usize = 0;
    proof {
        assert(raw@.take(0) =~= Seq::<LinkData>::empty());
    }
    while j < m_raw
        invariant
            j <= m_raw,
            m_raw == raw@.len(),
            links_sorted(links@),
            forall|x: LinkData|
                links@.contains(x) <==> raw@.take(j as int).contains(x),
        decreases m_raw - j,
    {
        let l = raw[j];
        insert_link(&mut links, l);
        j = j + 1;
        proof {
            assert(raw@.take(j as int).drop_last() =~= raw@.take(j as int - 1));
            assert(raw@.take(j as int).last() == raw@[j - 1]);
            assert forall|x: LinkData|
                links@.contains(x) <==> raw@.take(j as int).contains(x) by {
                if raw@.take(j as int).contains(x) {
                    let idx = choose|idx: int|
                        0 <= idx < j && #[trigger] raw@.take(j as int)[idx] == x;
                    if idx < j - 1 {
                        assert(raw@.take(j as int - 1)[idx] == x);
                    }
                }
                if raw@.take(j as int - 1).contains(x) {
                    let idx = choose|idx: int|
                        0 <= idx < j - 1 && #[trigger] raw@.take(j as int - 1)[idx] == x;
                    assert(raw@.take(j as int)[idx] == x);
                }
                if x == raw@[j - 1] {
                    assert(raw@.take(j as int)[j - 1] == x);
                }
            }
        }
    }
    proof {
        assert(raw@.take(m_raw as int) =~= raw@);
    }
    let n_links = links.len();
    let mut incidents: Vec<Vec<usize>> = Vec::new();
    let mut i2: usize = 0;
    while i2 < n
        invariant
            i2 <= n,
            incidents@.len() == i2,
            n_links == links@.len(),
            forall|q: int|
                0 <= q < i2 ==> ints_of(#[trigger] incidents@[q]@) == incident_upto(
                    links@,
                    q,
                    links@.len() as int,
                ),
        decreases n - i2,
    {
        let mut inc: Vec<usize> = Vec::new();
        let mut j2: usize = 0;
        proof {
            assert(ints_of(inc@) =~= incident_upto(links@, i2 as int, 0));
        }
        while j2 < n_links
            invariant
                j2 <= n_links,
                n_links == links@.len(),
                ints_of(inc@) == incident_upto(links@, i2 as int, j2 as int),
            decreases n_links - j2,
        {
            if links[j2].source.0 == i2 || links[j2].target.0 == i2 {
                let ghost pre = inc@;
                inc.push(j2);
                proof {
                    assert(ints_of(inc@) =~= ints_of(pre) + seq![j2 as int]);
                }
            } else {
                proof {
                    assert(ints_of(inc@) + Seq::<int>::empty() =~= ints_of(inc@));
                }
            }
            j2 = j2 + 1;
            proof {
                assert(ints_of(inc@) =~= incident_upto(links@, i2 as int, j2 as int));
            }
        }
        incidents.push(inc);
        i2 = i2 + 1;
    }
    let mut nodes_rev: Vec<NodeData> = Vec::new();
    while sorted.len() > 0
        invariant
            n == sorted0.len(),
            sorted@.len() + nodes_rev@.len() == n,
            sorted@ =~= sorted0.take(sorted@.len() as int),
            incidents@.len() == sorted@.len(),
            n_links == links@.len(),
            forall|q: int|
                0 <= q < incidents@.len() ==> ints_of(#[trigger] incidents@[q]@)
                    == incident_upto(links@, q, links@.len() as int),
            forall|m: int|
                0 <= m < nodes_rev@.len() ==> {
                    let kk = n - 1 - m;
                    &&& (#[trigger] nodes_rev@[m]).id.0 == kk
                    &&& node_matches(nodes_rev@[m], sorted0[kk as int])
                    &&& ints_of(nodes_rev@[m].links@) == incident_upto(
                        links@,
                        kk as int,
                        links@.len() as int,
                    )
                },
        decreases sorted@.len(),
    {
        let ghost sorted_pre = sorted@;
        let kk = sorted.len() - 1;
        let (title, g) = sorted.pop().unwrap();
        let inc = incidents.pop().unwrap();
        proof {
            assert(sorted_pre.drop_last() =~= sorted0.take(kk as int));
            assert(sorted_pre.last() == sorted0[kk as int]);
        }
        nodes_rev.push(
            NodeData {
                id: PageDataId(kk),
                page_title: title,
                wikitext_description: g.wikitext_description,
                label: g.name,
                last_revision_date: g.last_revision_date,
                links: inc,
            },
        );
    }
    let mut nodes: Vec<NodeData> = Vec::new();
    while nodes_rev.len() > 0
        invariant
            n == sorted0.len(),
            nodes@.len() + nodes_rev@.len() == n,
            n_links == links@.len(),
            forall|m: int|
                0 <= m < nodes_rev@.len() ==> {
                    let kk = n - 1 - m;
                    &&& (#[trigger] nodes_rev@[m]).id.0 == kk
                    &&& node_matches(nodes_rev@[m], sorted0[kk as int])
                    &&& ints_of(nodes_rev@[m].links@) == incident_upto(
                        links@,
                        kk as int,
                        links@.len() as int,
                    )
                },
            forall|q: int|
                0 <= q < nodes@.len() ==> {
                    &&& (#[trigger] nodes@[q]).id.0 == q
                    &&& node_matches(nodes@[q], sorted0[q])
                    &&& ints_of(nodes@[q].links@) == incident_upto(
                        links@,
                        q,
                        links@.len() as int,
                    )
                },
        decreases nodes_rev@.len(),
    {
        let nd = nodes_rev.pop().unwrap();
        nodes.push(nd);
    }
    let mut max_degree: usize = 0;
    let mut q: usize = 0;
    proof {
        assert(spec_max_degree(nodes@.take(0)) == 0) by {
            assert(nodes@.take(0).len() == 0);
        }
    }
    while q < n
        invariant
            q <= n,
            n == nodes@.len(),
            max_degree as int == spec_max_degree(nodes@.take(q as int)),
        decreases n - q,
    {
        let d = nodes[q].links.len();
        if d > max_degree {
            max_degree = d;
        }
        q = q + 1;
        proof {
            assert(nodes@.take(q as int).drop_last() =~= nodes@.take(q as int - 1));
            assert(nodes@.take(q as int).last() == nodes@[q - 1]);
        }
    }
    proof {
        assert(nodes@.take(n as int) =~= nodes@);
    }
    let dump_date_str = format_date_iso(dump_date);
    let g = Graph { dump_date: dump_date_str, nodes, links, max_degree };
    proof {
        assert(node_titles(g.nodes@) =~= ts) by {
            assert(forall|q2: int|
                0 <= q2 < n ==> (#[trigger] g.nodes@[q2]).page_title.0@ == sorted0[q2].0.0@);
        }
        assert forall|i3: int, j3: int| 0 <= i3 < j3 < g.nodes@.len() implies !seq_lt(
            (#[trigger] g.nodes@[j3]).page_title.0@,
            (#[trigger] g.nodes@[i3]).page_title.0@,
        ) && g.nodes@[i3].page_title.0@ != g.nodes@[j3].page_title.0@ by {
            assert(!seq_lt(sorted0[j3].0.0@, sorted0[i3].0.0@));
            assert(ts[i3] != ts[j3]);
        }
        assert forall|i3: int, j3: int| 0 <= i3 < j3 < g.nodes@.len() implies (
        #[trigger] g.nodes@[i3]).label.0@ != (#[trigger] g.nodes@[j3]).label.0@ by {
            assert(node_matches(g.nodes@[i3], sorted0[i3]));
            assert(node_matches(g.nodes@[j3], sorted0[j3]));
            assert(sorted0.contains(sorted0[i3]) && sorted0.contains(sorted0[j3]));
            assert(input.contains(sorted0[i3]) && input.contains(sorted0[j3]));
            if sorted0[i3].1.name.0@ == sorted0[j3].1.name.0@ {
                assert(sorted0[i3] != sorted0[j3]) by {
                    assert(sorted0[i3].0.0@ != sorted0[j3].0.0@);
                }
                let ii = choose|w: int| 0 <= w < input.len() && input[w] == sorted0[i3];
                let jj = choose|w: int| 0 <= w < input.len() && input[w] == sorted0[j3];
                assert(ii != jj);
                if ii < jj {
                    assert(input[ii].1.name.0@ != input[jj].1.name.0@);
                } else {
                    assert(input[jj].1.name.0@ != input[ii].1.name.0@);
                }
            }
        }
        assert forall|k3: int| 0 <= k3 < g.links@.len() implies (
        #[trigger] g.links@[k3]).source.0 < g.nodes@.len() && g.links@[k3].target.0
            < g.nodes@.len() by {
            assert(g.links@.contains(g.links@[k3]));
            assert(raw@.contains(g.links@[k3]));
            lemma_endpoint_bounds(ts, sorted0, g.links@[k3]);
        }
        assert forall|i3: int| 0 <= i3 < g.nodes@.len() implies exists|x: (
            PageName,
            ProcessedGenre,
        )| input.contains(x) && node_matches(#[trigger] g.nodes@[i3], x) by {
            assert(sorted0.contains(sorted0[i3]));
            assert(input.contains(sorted0[i3]) && node_matches(g.nodes@[i3], sorted0[i3]));
        }
        assert forall|l: LinkData| g.links@.contains(l) <==> spec_is_edge(
            input,
            node_titles(g.nodes@),
            l,
        ) by {
            lemma_edge_iff(ts, sorted0, input, l);
        }
    }
    g
}

} // verus!
