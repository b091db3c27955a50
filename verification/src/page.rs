//! Page names, genre names and the on-disk sanitization of titles.

use vstd::prelude::*;
use crate::strutil::push_char;

verus! {

/// A newtype for a Wikipedia page name.
#[derive(Debug, PartialEq, Eq, Hash)]
pub struct PageName(pub String);

impl Clone for PageName {
    fn clone(&self) -> (r: Self)
        ensures
            r.0@ == self.0@,
    {
        PageName(self.0.clone())
    }
}

/// A newtype for a genre's display name.
#[derive(Debug, PartialEq, Eq, Hash)]
pub struct GenreName(pub String);

impl Clone for GenreName {
    fn clone(&self) -> (r: Self)
        ensures
            r.0@ == self.0@,
    {
        GenreName(self.0.clone())
    }
}

/// A newtype for an ID assigned to a page for the graph.
#[derive(Copy, Clone, Debug, PartialEq, Eq, Structural, Hash)]
pub struct PageDataId(pub usize);

/// The character that stands in for `/` in file names: a big solidus, which
/// looks like a slash but may appear in a file name.
pub open spec fn slash_substitute() -> char {
    '\u{29F8}'
}

pub open spec fn sanitize_char(c: char) -> char {
    if c == '/' {
        slash_substitute()
    } else {
        c
    }
}

pub open spec fn unsanitize_char(c: char) -> char {
    if c == slash_substitute() {
        '/'
    } else {
        c
    }
}

pub open spec fn sanitize_title(s: Seq<char>) -> Seq<char> {
    s.map_values(|c: char| sanitize_char(c))
}

pub open spec fn unsanitize_title(s: Seq<char>) -> Seq<char> {
    s.map_values(|c: char| unsanitize_char(c))
}

/// Makes a Wikipedia page name safe to store on disk by replacing every `/`
/// with a visually similar substitute character.
pub fn sanitize_page_name(title: &PageName) -> (r: String)
    ensures
        r@ == sanitize_title(title.0@),
{
    let s = title.0.as_str();
    let n = s.unicode_len();
    let mut r = String::new();
    let mut i: usize = 0;
    while i < n
        invariant
            i <= n,
            n == s@.len(),
            r@ =~= sanitize_title(s@.subrange(0, i as int)),
        decreases n - i,
    {
        let c = s.get_char(i);
        if c == '/' {
            push_char(&mut r, '\u{29F8}');
        } else {
            push_char(&mut r, c);
        }
        i = i + 1;
        proof {
            assert(s@.subrange(0, i as int) =~= s@.subrange(0, i as int - 1).push(
                s@[i as int - 1],
            ));
        }
    }
    proof {
        assert(s@.subrange(0, n as int) =~= s@);
    }
    r
}

/// Reverses [`sanitize_page_name`] when rehydrating cached files.
pub fn unsanitize_page_name(title: &str) -> (r: PageName)
    ensures
        r.0@ == unsanitize_title(title@),
{
    let n = title.unicode_len();
    let mut r = String::new();
    let mut i: usize = 0;
    while i < n
        invariant
            i <= n,
            n == title@.len(),
            r@ =~= unsanitize_title(title@.subrange(0, i as int)),
        decreases n - i,
    {
        let c = title.get_char(i);
        if c == '\u{29F8}' {
            push_char(&mut r, '/');
        } else {
            push_char(&mut r, c);
        }
        i = i + 1;
        proof {
            assert(title@.subrange(0, i as int) =~= title@.subrange(0, i as int - 1).push(
                title@[i as int - 1],
            ));
        }
    }
    proof {
        assert(title@.subrange(0, n as int) =~= title@);
    }
    PageName(r)
}

/// A title that does not itself contain the substitute character survives the
/// trip to a file name and back unchanged.
pub proof fn lemma_sanitize_round_trip(t: Seq<char>)
    requires
        forall|i: int| 0 <= i < t.len() ==> t[i] != slash_substitute(),
    ensures
        unsanitize_title(sanitize_title(t)) == t,
{
    assert(unsanitize_title(sanitize_title(t)) =~= t);
}

/// The set of cached genre pages: each page name together with the path of
/// the wikitext file written for it.
#[derive(Debug)]
pub struct GenrePages(pub Vec<(PageName, String)>);

impl GenrePages {
    /// The names of all cached genre pages, in cache order.
    pub fn all(&self) -> (r: Vec<PageName>)
        ensures
            r@.len() == self.0@.len(),
            forall|i: int| 0 <= i < r@.len() ==> r@[i].0@ == self.0@[i].0.0@,
    {
        let mut r: Vec<PageName> = Vec::new();
        let mut i: usize = 0;
        while i < self.0.len()
            invariant
                i <= self.0@.len(),
                r@.len() == i,
                forall|j: int| 0 <= j < i ==> r@[j].0@ == self.0@[j].0.0@,
            decreases self.0@.len() - i,
        {
            r.push(self.0[i].0.clone());
            i = i + 1;
        }
        r
    }

    /// The cached pages with the paths of their wikitext files.
    pub fn iter(&self) -> (r: &Vec<(PageName, String)>)
        ensures
            r == &self.0,
    {
        &self.0
    }
}

} // verus!
