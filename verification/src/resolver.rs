//! The link map: lowercased page names and redirect sources resolved to
//! extracted genre titles, as the fixed point of chasing redirects.

use vstd::prelude::*;
use crate::page::PageName;

verus! {

/// What a string lowercases to. The result depends on the characters alone.
pub uninterp spec fn lower_of(s: Seq<char>) -> Seq<char>;

/// Relies on `str::to_lowercase`: the Unicode lowercase form of the string,
/// a function of the characters alone.
#[verifier::external_body]
pub fn lowercase(s: &str) -> (r: String)
    ensures
        r@ == lower_of(s@),
        s@.len() == 0 ==> r@.len() == 0,
{
    s.to_lowercase()
}

/// The map of links to articles: a lowercased page name or redirect source
/// resolves to the title of an extracted genre page.
pub struct LinksToArticles(pub vstd::hash_map::StringHashMap<PageName>);

impl LinksToArticles {
    /// An empty link map.
    pub fn new() -> (r: Self)
        ensures
            r.0@ == Map::<Seq<char>, PageName>::empty(),
    {
        LinksToArticles(vstd::hash_map::StringHashMap::new())
    }

    /// Binds a key to a genre title, replacing any earlier binding.
    pub fn insert(&mut self, key: String, target: PageName)
        ensures
            final(self).0@ == old(self).0@.insert(key@, target),
    {
        self.0.insert(key, target);
    }

    /// The genre title a key resolves to, if any.
    pub fn lookup<'a>(&'a self, key: &str) -> (r: Option<&'a PageName>)
        ensures
            match r {
                Some(v) => self.0@.contains_key(key@) && *v == self.0@[key@],
                None => !self.0@.contains_key(key@),
            },
    {
        self.0.get(key)
    }
}

/// A key resolves to a genre title within `n` redirect hops: either it is
/// the lowercased title itself, or some redirect leads from it to a key that
/// resolves in one hop fewer.
pub open spec fn resolves_in(
    k: Seq<char>,
    t: Seq<char>,
    genres: Seq<PageName>,
    redirects: Seq<(PageName, PageName)>,
    n: nat,
) -> bool
    decreases n,
{
    let direct = k == lower_of(t) && exists|i: int| 0 <= i < genres.len() && genres[i].0@ == t;
    if n == 0 {
        direct
    } else {
        direct || exists|j: int|
            0 <= j < redirects.len() && lower_of(redirects[j].0.0@) == k && resolves_in(
                lower_of(redirects[j].1.0@),
                t,
                genres,
                redirects,
                (n - 1) as nat,
            )
    }
}

/// Every key of the map is justified: it resolves to the genre title stored
/// for it by some chain of redirects.
pub open spec fn map_sound(
    m: Map<Seq<char>, PageName>,
    genres: Seq<PageName>,
    redirects: Seq<(PageName, PageName)>,
) -> bool {
    forall|k: Seq<char>|
        #[trigger] m.contains_key(k) ==> exists|n: nat|
            resolves_in(k, m[k].0@, genres, redirects, n)
}

/// The map holds an entry for every genre title's lowercase form.
pub open spec fn map_seeded(m: Map<Seq<char>, PageName>, genres: Seq<PageName>) -> bool {
    forall|i: int| 0 <= i < genres.len() ==> m.contains_key(#[trigger] lower_of(genres[i].0@))
}

/// No redirect can extend the map: whenever a redirect's target is a key,
/// its source is one too.
pub open spec fn map_closed(
    m: Map<Seq<char>, PageName>,
    redirects: Seq<(PageName, PageName)>,
) -> bool {
    forall|j: int|
        0 <= j < redirects.len() && m.contains_key(#[trigger] lower_of(redirects[j].1.0@))
            ==> m.contains_key(lower_of(redirects[j].0.0@))
}

/// Builds the link map: seeds it with every genre title's lowercase form,
/// then repeatedly walks the redirects, adding each source whose target
/// already resolves, until a full pass adds nothing.
/// The keys the map could ever hold: the lowercase form of every genre
/// title and of every redirect source.
pub open spec fn key_universe(
    genres: Seq<PageName>,
    redirects: Seq<(PageName, PageName)>,
) -> Seq<Seq<char>> {
    genres.map_values(|g: PageName| lower_of(g.0@)) + redirects.map_values(
        |p: (PageName, PageName)| lower_of(p.0.0@),
    )
}

/// Every value of the map is the title of an extracted genre page.
pub open spec fn map_values_are_genres(
    m: Map<Seq<char>, PageName>,
    genres: Seq<PageName>,
) -> bool {
    forall|k: Seq<char>|
        #[trigger] m.contains_key(k) ==> exists|i: int|
            0 <= i < genres.len() && m[k].0@ == genres[i].0@
}

/// No two genre titles share a lowercase form.
pub open spec fn lower_keys_distinct(genres: Seq<PageName>) -> bool {
    forall|i: int, j: int|
        0 <= i < j < genres.len() ==> lower_of(#[trigger] genres[i].0@) != lower_of(
            #[trigger] genres[j].0@,
        )
}

/// No redirect source lowercases to a genre title's key.
pub open spec fn no_source_shadows_genre(
    genres: Seq<PageName>,
    redirects: Seq<(PageName, PageName)>,
) -> bool {
    forall|j: int, i: int|
        0 <= j < redirects.len() && 0 <= i < genres.len() ==> lower_of(
            #[trigger] redirects[j].0.0@,
        ) != lower_of(#[trigger] genres[i].0@)
}

/// Every genre title's key maps to that very title.
pub open spec fn map_seeds_itself(m: Map<Seq<char>, PageName>, genres: Seq<PageName>) -> bool {
    forall|i: int|
        0 <= i < genres.len() ==> m[#[trigger] lower_of(genres[i].0@)].0@ == genres[i].0@
}

/// No two redirect sources share a lowercase form.
pub open spec fn sources_lower_distinct(redirects: Seq<(PageName, PageName)>) -> bool {
    forall|a: int, b: int|
        0 <= a < b < redirects.len() ==> lower_of(#[trigger] redirects[a].0.0@) != lower_of(
            #[trigger] redirects[b].0.0@,
        )
}

/// The keys of the inputs do not collide: genre keys are pairwise distinct,
/// source keys are pairwise distinct, and no source key is a genre key. On
/// real data this always holds, as keys come from distinct page titles.
pub open spec fn resolver_inputs_separated(
    genres: Seq<PageName>,
    redirects: Seq<(PageName, PageName)>,
) -> bool {
    &&& lower_keys_distinct(genres)
    &&& no_source_shadows_genre(genres, redirects)
    &&& sources_lower_distinct(redirects)
}

/// Values propagate along redirects: a source key resolves to the same
/// title as its target's key.
pub open spec fn map_propagates(
    m: Map<Seq<char>, PageName>,
    redirects: Seq<(PageName, PageName)>,
) -> bool {
    forall|jj: int|
        0 <= jj < redirects.len() && m.contains_key(#[trigger] lower_of(redirects[jj].0.0@))
            ==> m.contains_key(lower_of(redirects[jj].1.0@)) && m[lower_of(
            redirects[jj].0.0@,
        )].0@ == m[lower_of(redirects[jj].1.0@)].0@
}

/// A chain can only end at a genre title.
proof fn lemma_resolves_target_is_genre(
    k: Seq<char>,
    t: Seq<char>,
    genres: Seq<PageName>,
    redirects: Seq<(PageName, PageName)>,
    n: nat,
)
    requires
        resolves_in(k, t, genres, redirects, n),
    ensures
        exists|i: int| 0 <= i < genres.len() && (#[trigger] genres[i]).0@ == t,
    decreases n,
{
    let direct = k == lower_of(t) && exists|i: int| 0 <= i < genres.len() && genres[i].0@ == t;
    if direct {
        let i = choose|i: int| 0 <= i < genres.len() && genres[i].0@ == t;
        assert(genres[i].0@ == t);
    } else {
        let j = choose|j: int|
            0 <= j < redirects.len() && lower_of(redirects[j].0.0@) == k && resolves_in(
                lower_of(redirects[j].1.0@),
                t,
                genres,
                redirects,
                (n - 1) as nat,
            );
        lemma_resolves_target_is_genre(
            lower_of(redirects[j].1.0@),
            t,
            genres,
            redirects,
            (n - 1) as nat,
        );
    }
}

pub fn resolve_links_to_articles(
    genres: &Vec<PageName>,
    redirects: &Vec<(PageName, PageName)>,
) -> (r: LinksToArticles)
    ensures
        map_seeded(r.0@, genres@),
        map_sound(r.0@, genres@, redirects@),
        map_closed(r.0@, redirects@),
        map_values_are_genres(r.0@, genres@),
        lower_keys_distinct(genres@) && no_source_shadows_genre(genres@, redirects@)
            ==> map_seeds_itself(r.0@, genres@),
        resolver_inputs_separated(genres@, redirects@) ==> map_propagates(r.0@, redirects@),
{
    let ghost all_keys = key_universe(genres@, redirects@);
    let mut m = vstd::hash_map::StringHashMap::<PageName>::new();
    let n_genres = genres.len();
    let mut i: usize = 0;
    while i < n_genres
        invariant
            i <= n_genres,
            n_genres == genres@.len(),
            all_keys == key_universe(genres@, redirects@),
            m@.dom().subset_of(all_keys.to_set()),
            forall|j: int|
                0 <= j < i ==> m@.contains_key(#[trigger] lower_of(genres@[j].0@)),
            lower_keys_distinct(genres@) ==> forall|j: int|
                0 <= j < i ==> m@[#[trigger] lower_of(genres@[j].0@)].0@ == genres@[j].0@,
            forall|k: Seq<char>|
                #[trigger] m@.contains_key(k) ==> exists|ii: int|
                    0 <= ii < i && k == lower_of(genres@[ii].0@),
            map_sound(m@, genres@, redirects@),
        decreases n_genres - i,
    {
        let key = lowercase(genres[i].0.as_str());
        let value = genres[i].clone();
        proof {
            assert(resolves_in(key@, value.0@, genres@, redirects@, 0)) by {
                assert(genres@[i as int].0@ == value.0@);
            }
            assert(all_keys[i as int] == key@);
            assert(all_keys.contains(key@));
            assert(all_keys.to_set().contains(key@));
        }
        let ghost pre = m@;
        m.insert(key, value);
        proof {
            assert(map_sound(m@, genres@, redirects@)) by {
                assert forall|k: Seq<char>| #[trigger] m@.contains_key(k) implies exists|n: nat|
                    resolves_in(k, m@[k].0@, genres@, redirects@, n) by {
                    if k == key@ {
                        assert(m@[k] == value);
                        assert(resolves_in(k, m@[k].0@, genres@, redirects@, 0));
                    } else {
                        assert(pre.contains_key(k));
                        assert(m@[k] == pre[k]);
                    }
                }
            }
        }
        i = i + 1;
    }
    let n_redirects = redirects.len();
    proof {
        vstd::seq_lib::seq_to_set_is_finite(all_keys);
        all_keys.lemma_cardinality_of_set();
        vstd::set_lib::lemma_len_subset(m@.dom(), all_keys.to_set());
        assert(all_keys.len() == n_genres + n_redirects);
        if resolver_inputs_separated(genres@, redirects@) {
            assert forall|jj: int|
                0 <= jj < redirects@.len() && m@.contains_key(
                    #[trigger] lower_of(redirects@[jj].0.0@),
                ) implies m@.contains_key(lower_of(redirects@[jj].1.0@)) && m@[lower_of(
                redirects@[jj].0.0@,
            )].0@ == m@[lower_of(redirects@[jj].1.0@)].0@ by {
                let ii = choose|ii: int|
                    0 <= ii < n_genres && lower_of(redirects@[jj].0.0@) == lower_of(
                        genres@[ii].0@,
                    );
                assert(false);
            }
        }
    }
    loop
        invariant
            n_genres == genres@.len(),
            n_redirects == redirects@.len(),
            all_keys == key_universe(genres@, redirects@),
            m@.dom().subset_of(all_keys.to_set()),
            m@.len() <= n_genres + n_redirects,
            map_seeded(m@, genres@),
            map_sound(m@, genres@, redirects@),
            lower_keys_distinct(genres@) && no_source_shadows_genre(genres@, redirects@)
                ==> map_seeds_itself(m@, genres@),
            resolver_inputs_separated(genres@, redirects@) ==> map_propagates(m@, redirects@),
        decreases n_genres + n_redirects - m@.len(),
    {
        let ghost m0 = m@;
        let mut added = false;
        let mut j: usize = 0;
        while j < n_redirects
            invariant
                j <= n_redirects,
                n_genres == genres@.len(),
                n_redirects == redirects@.len(),
                all_keys == key_universe(genres@, redirects@),
                m@.dom().subset_of(all_keys.to_set()),
                m@.len() <= n_genres + n_redirects,
                m@.len() >= m0.len(),
                added ==> m@.len() > m0.len(),
                map_seeded(m@, genres@),
                map_sound(m@, genres@, redirects@),
                lower_keys_distinct(genres@) && no_source_shadows_genre(genres@, redirects@)
                    ==> map_seeds_itself(m@, genres@),
                resolver_inputs_separated(genres@, redirects@) ==> map_propagates(
                    m@,
                    redirects@,
                ),
                !added ==> m@ == m0,
                !added ==> forall|jj: int|
                    0 <= jj < j && m@.contains_key(#[trigger] lower_of(redirects@[jj].1.0@))
                        ==> m@.contains_key(lower_of(redirects@[jj].0.0@)),
            decreases n_redirects - j,
        {
            let src_key = lowercase(redirects[j].0.0.as_str());
            let dst_key = lowercase(redirects[j].1.0.as_str());
            let target: Option<PageName> = match m.get(dst_key.as_str()) {
                Some(t) => Some(t.clone()),
                None => None,
            };
            match target {
                Some(t) => {
                    if !m.contains_key(src_key.as_str()) {
                        proof {
                            let hops = choose|n: nat|
                                resolves_in(dst_key@, m@[dst_key@].0@, genres@, redirects@, n);
                            assert(resolves_in(
                                src_key@,
                                t.0@,
                                genres@,
                                redirects@,
                                hops + 1,
                            )) by {
                                assert(lower_of(redirects@[j as int].0.0@) == src_key@);
                                assert(resolves_in(
                                    lower_of(redirects@[j as int].1.0@),
                                    t.0@,
                                    genres@,
                                    redirects@,
                                    hops,
                                ));
                            }
                        }
                        proof {
                            assert(all_keys[n_genres + j] == src_key@);
                            assert(all_keys.contains(src_key@));
                            assert(all_keys.to_set().contains(src_key@));
                            vstd::seq_lib::seq_to_set_is_finite(all_keys);
                            vstd::set_lib::lemma_len_subset(m@.dom(), all_keys.to_set());
                        }
                        let ghost pre = m@;
                        let ghost hops = choose|n: nat|
                            resolves_in(dst_key@, m@[dst_key@].0@, genres@, redirects@, n);
                        m.insert(src_key, t);
                        proof {
                            all_keys.lemma_cardinality_of_set();
                            vstd::set_lib::lemma_len_subset(m@.dom(), all_keys.to_set());
                            assert(map_sound(m@, genres@, redirects@)) by {
                                assert forall|k: Seq<char>| #[trigger] m@.contains_key(k)
                                    implies exists|n: nat|
                                    resolves_in(k, m@[k].0@, genres@, redirects@, n) by {
                                    if k == src_key@ {
                                        assert(m@[k] == t);
                                        assert(resolves_in(
                                            k,
                                            m@[k].0@,
                                            genres@,
                                            redirects@,
                                            hops + 1,
                                        ));
                                    } else {
                                        assert(pre.contains_key(k));
                                        assert(m@[k] == pre[k]);
                                    }
                                }
                            }
                            if lower_keys_distinct(genres@) && no_source_shadows_genre(
                                genres@,
                                redirects@,
                            ) {
                                assert forall|i2: int| 0 <= i2 < genres@.len() implies m@[
                                    #[trigger] lower_of(genres@[i2].0@)
                                ].0@ == genres@[i2].0@ by {
                                    assert(lower_of(redirects@[j as int].0.0@) != lower_of(
                                        genres@[i2].0@,
                                    ));
                                    assert(m@[lower_of(genres@[i2].0@)] == pre[lower_of(
                                        genres@[i2].0@,
                                    )]);
                                }
                            }
                            if resolver_inputs_separated(genres@, redirects@) {
                                assert forall|jj: int|
                                    0 <= jj < redirects@.len() && m@.contains_key(
                                        #[trigger] lower_of(redirects@[jj].0.0@),
                                    ) implies m@.contains_key(lower_of(redirects@[jj].1.0@))
                                    && m@[lower_of(redirects@[jj].0.0@)].0@ == m@[lower_of(
                                    redirects@[jj].1.0@,
                                )].0@ by {
                                    if lower_of(redirects@[jj].0.0@) == src_key@ {
                                        assert(jj == j as int) by {
                                            if jj < j as int {
                                                assert(lower_of(redirects@[jj].0.0@)
                                                    != lower_of(redirects@[j as int].0.0@));
                                            } else if jj > j as int {
                                                assert(lower_of(redirects@[j as int].0.0@)
                                                    != lower_of(redirects@[jj].0.0@));
                                            }
                                        }
                                        assert(pre.contains_key(dst_key@));
                                        assert(dst_key@ != src_key@);
                                        assert(m@[src_key@] == t);
                                        assert(t.0@ == pre[dst_key@].0@);
                                        assert(m@[dst_key@] == pre[dst_key@]);
                                    } else {
                                        assert(m@.contains_key(lower_of(redirects@[jj].0.0@))
                                            == pre.contains_key(
                                            lower_of(redirects@[jj].0.0@),
                                        ));
                                        assert(pre.contains_key(lower_of(redirects@[jj].1.0@)));
                                        assert(lower_of(redirects@[jj].1.0@) != src_key@);
                                        assert(m@[lower_of(redirects@[jj].0.0@)] == pre[
                                            lower_of(redirects@[jj].0.0@)
                                        ]);
                                        assert(m@[lower_of(redirects@[jj].1.0@)] == pre[
                                            lower_of(redirects@[jj].1.0@)
                                        ]);
                                    }
                                }
                            }
                        }
                        added = true;
                    }
                },
                None => {},
            }
            j = j + 1;
        }
        if !added {
            proof {
                assert(map_closed(m@, redirects@));
                assert(map_values_are_genres(m@, genres@)) by {
                    assert forall|k: Seq<char>| #[trigger] m@.contains_key(k) implies exists|
                        i: int,
                    | 0 <= i < genres@.len() && m@[k].0@ == genres@[i].0@ by {
                        let hops = choose|n: nat|
                            resolves_in(k, m@[k].0@, genres@, redirects@, n);
                        lemma_resolves_target_is_genre(k, m@[k].0@, genres@, redirects@, hops);
                        let i = choose|i: int|
                            0 <= i < genres@.len() && (#[trigger] genres@[i]).0@ == m@[k].0@;
                        assert(m@[k].0@ == genres@[i].0@);
                    }
                }
            }
            return LinksToArticles(m);
        }
    }
}

} // verus!

verus! {

/// Redirect chains of any length resolve: a seeded and closed map holds
/// every key that reaches a genre title through some chain of redirects, so
/// the fixed point contains the transitive closure.
pub proof fn lemma_chain_resolves(
    m: Map<Seq<char>, PageName>,
    genres: Seq<PageName>,
    redirects: Seq<(PageName, PageName)>,
    k: Seq<char>,
    t: Seq<char>,
    n: nat,
)
    requires
        map_seeded(m, genres),
        map_closed(m, redirects),
        resolves_in(k, t, genres, redirects, n),
    ensures
        m.contains_key(k),
    decreases n,
{
    let direct = k == lower_of(t) && exists|i: int| 0 <= i < genres.len() && genres[i].0@ == t;
    if direct {
        let i = choose|i: int| 0 <= i < genres.len() && genres[i].0@ == t;
        assert(m.contains_key(lower_of(genres[i].0@)));
    } else {
        let j = choose|j: int|
            0 <= j < redirects.len() && lower_of(redirects[j].0.0@) == k && resolves_in(
                lower_of(redirects[j].1.0@),
                t,
                genres,
                redirects,
                (n - 1) as nat,
            );
        lemma_chain_resolves(m, genres, redirects, lower_of(redirects[j].1.0@), t, (n - 1) as nat);
        assert(m.contains_key(lower_of(redirects[j].1.0@)));
    }
}

} // verus!
