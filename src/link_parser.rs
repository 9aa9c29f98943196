//! The extractor's work on one page: find the page's links on the crawl's
//! subdomain, leave out resources that are not pages, and claim each new key
//! in the frontier.
use vstd::prelude::*;
use crate::frontier::Frontier;
use crate::link::{ends_with_any, has_any_suffix, key_of, path_key, views, Link, LinkView};
use crate::page::{
    lemma_links_of_documents_on_subdomain,
    link_views,
    links_of_documents,
    page_documents,
    parse_urls,
};

verus! {

/// Claiming `links` in order, starting from the frontier `f`: a link whose path
/// ends with one of `excluded` is passed over; one whose key is already in the
/// frontier is dropped; any other has its key inserted and is emitted. Gives the
/// emitted links and the frontier afterwards.
pub open spec fn claim_all(
    f: Set<Seq<char>>,
    links: Seq<LinkView>,
    excluded: Seq<Seq<char>>,
) -> (Seq<LinkView>, Set<Seq<char>>)
    decreases links.len(),
{
    if links.len() == 0 {
        (Seq::empty(), f)
    } else {
        let prev = claim_all(f, links.drop_last(), excluded);
        let l = links.last();
        if has_any_suffix(l.path, excluded) || prev.1.contains(key_of(l)) {
            prev
        } else {
            (prev.0.push(l), prev.1.insert(key_of(l)))
        }
    }
}

/// No two of `out` share a frontier key.
pub open spec fn keys_distinct(out: Seq<LinkView>) -> bool {
    forall|i: int, j: int|
        0 <= i < j < out.len() ==> #[trigger] key_of(out[i]) != #[trigger] key_of(out[j])
}

/// No key of `out` is in `f`.
pub open spec fn all_fresh(out: Seq<LinkView>, f: Set<Seq<char>>) -> bool {
    forall|i: int| 0 <= i < out.len() ==> !f.contains(#[trigger] key_of(out[i]))
}

/// `f` together with the keys of `out`.
pub open spec fn with_keys(f: Set<Seq<char>>, out: Seq<LinkView>) -> Set<Seq<char>> {
    f.union(Set::new(|k: Seq<char>| exists|i: int| 0 <= i < out.len() && key_of(out[i]) == k))
}

/// What claiming a list of links guarantees: the emitted links have distinct
/// keys, none of which the frontier held before; the frontier afterwards is the
/// one before together with those keys; each emitted link is one of `links` and
/// is not an excluded resource; and every key of a link that is not excluded
/// is in the frontier afterwards.
pub proof fn lemma_claim_all(f: Set<Seq<char>>, links: Seq<LinkView>, excluded: Seq<Seq<char>>)
    ensures
        keys_distinct(claim_all(f, links, excluded).0),
        all_fresh(claim_all(f, links, excluded).0, f),
        claim_all(f, links, excluded).1 == with_keys(f, claim_all(f, links, excluded).0),
        forall|i: int|
            0 <= i < claim_all(f, links, excluded).0.len() ==> links.contains(
                #[trigger] claim_all(f, links, excluded).0[i],
            ) && !has_any_suffix(claim_all(f, links, excluded).0[i].path, excluded),
        forall|i: int|
            0 <= i < links.len() && !has_any_suffix(links[i].path, excluded) ==> claim_all(
                f,
                links,
                excluded,
            ).1.contains(key_of(#[trigger] links[i])),
    decreases links.len(),
{
    let r = claim_all(f, links, excluded);
    if links.len() == 0 {
        assert(with_keys(f, r.0) =~= f);
    } else {
        let init = links.drop_last();
        let prev = claim_all(f, init, excluded);
        let l = links.last();
        lemma_claim_all(f, init, excluded);
        assert forall|i: int| 0 <= i < init.len() implies links.contains(#[trigger] init[i]) by {
            assert(links[i] == init[i]);
        }
        if has_any_suffix(l.path, excluded) || prev.1.contains(key_of(l)) {
            assert forall|i: int|
                0 <= i < links.len() && !has_any_suffix(
                    links[i].path,
                    excluded,
                ) implies r.1.contains(key_of(#[trigger] links[i])) by {
                if i < init.len() {
                    assert(links[i] == init[i]);
                }
            }
        } else {
            let k = key_of(l);
            assert(r.0 == prev.0.push(l));
            assert forall|i: int, j: int| 0 <= i < j < r.0.len() implies #[trigger] key_of(r.0[i])
                != #[trigger] key_of(r.0[j]) by {
                if j == prev.0.len() {
                    assert(r.0[i] == prev.0[i]);
                    assert(prev.1.contains(key_of(prev.0[i])));
                } else {
                    assert(r.0[i] == prev.0[i]);
                    assert(r.0[j] == prev.0[j]);
                }
            }
            assert forall|i: int| 0 <= i < r.0.len() implies !f.contains(
                #[trigger] key_of(r.0[i]),
            ) by {
                if i < prev.0.len() {
                    assert(r.0[i] == prev.0[i]);
                } else {
                    assert(r.0[i] == l);
                }
            }
            assert(r.1 =~= with_keys(f, r.0)) by {
                assert forall|x: Seq<char>| r.1.contains(x) implies with_keys(f, r.0).contains(
                    x,
                ) by {
                    if x == k {
                        assert(key_of(r.0[prev.0.len() as int]) == x);
                    } else if !f.contains(x) {
                        let i = choose|i: int| 0 <= i < prev.0.len() && key_of(prev.0[i]) == x;
                        assert(r.0[i] == prev.0[i]);
                    }
                }
                assert forall|x: Seq<char>| with_keys(f, r.0).contains(x) implies r.1.contains(
                    x,
                ) by {
                    if !f.contains(x) {
                        let i = choose|i: int| 0 <= i < r.0.len() && key_of(r.0[i]) == x;
                        if i < prev.0.len() {
                            assert(r.0[i] == prev.0[i]);
                        }
                    }
                }
            }
            assert forall|i: int| 0 <= i < r.0.len() implies links.contains(#[trigger] r.0[i])
                && !has_any_suffix(r.0[i].path, excluded) by {
                if i < prev.0.len() {
                    assert(r.0[i] == prev.0[i]);
                } else {
                    assert(links[links.len() - 1] == l);
                }
            }
            assert forall|i: int|
                0 <= i < links.len() && !has_any_suffix(
                    links[i].path,
                    excluded,
                ) implies r.1.contains(key_of(#[trigger] links[i])) by {
                if i < init.len() {
                    assert(links[i] == init[i]);
                }
            }
        }
    }
}

/// A key that the frontier does not hold, discovered once or many times among
/// `links` (not as an excluded resource), is claimed by exactly one of those
/// discoveries: exactly one emitted link has it.
pub proof fn lemma_claimed_exactly_once(
    f: Set<Seq<char>>,
    links: Seq<LinkView>,
    excluded: Seq<Seq<char>>,
    k: Seq<char>,
)
    requires
        !f.contains(k),
        exists|i: int|
            0 <= i < links.len() && key_of(#[trigger] links[i]) == k && !has_any_suffix(
                links[i].path,
                excluded,
            ),
    ensures
        exists|i: int|
            0 <= i < claim_all(f, links, excluded).0.len() && key_of(
                #[trigger] claim_all(f, links, excluded).0[i],
            ) == k,
        forall|i: int, j: int|
            0 <= i < claim_all(f, links, excluded).0.len() && 0 <= j < claim_all(
                f,
                links,
                excluded,
            ).0.len() && key_of(#[trigger] claim_all(f, links, excluded).0[i]) == k && key_of(
                #[trigger] claim_all(f, links, excluded).0[j],
            ) == k ==> i == j,
{
    lemma_claim_all(f, links, excluded);
    let out = claim_all(f, links, excluded).0;
    let i0 = choose|i: int|
        0 <= i < links.len() && key_of(#[trigger] links[i]) == k && !has_any_suffix(
            links[i].path,
            excluded,
        );
    assert(with_keys(f, out).contains(k));
    assert forall|i: int, j: int|
        0 <= i < out.len() && 0 <= j < out.len() && key_of(#[trigger] out[i]) == k && key_of(
            #[trigger] out[j],
        ) == k implies i == j by {
        if i < j {
            assert(key_of(out[i]) != key_of(out[j]));
        } else if j < i {
            assert(key_of(out[j]) != key_of(out[i]));
        }
    }
}

/// Two pages processed one after the other never emit the same key twice:
/// the links emitted for both, together, have distinct keys.
pub proof fn lemma_no_repeat_across_pages(
    f: Set<Seq<char>>,
    first: Seq<LinkView>,
    second: Seq<LinkView>,
    excluded: Seq<Seq<char>>,
)
    ensures
        keys_distinct(
            claim_all(f, first, excluded).0 + claim_all(
                claim_all(f, first, excluded).1,
                second,
                excluded,
            ).0,
        ),
{
    let (a, g) = claim_all(f, first, excluded);
    let b = claim_all(g, second, excluded).0;
    lemma_claim_all(f, first, excluded);
    lemma_claim_all(g, second, excluded);
    let ab = a + b;
    assert forall|i: int, j: int| 0 <= i < j < ab.len() implies #[trigger] key_of(ab[i])
        != #[trigger] key_of(ab[j]) by {
        if j < a.len() {
            assert(ab[i] == a[i] && ab[j] == a[j]);
        } else if i >= a.len() {
            assert(ab[i] == b[i - a.len()] && ab[j] == b[j - a.len()]);
        } else {
            assert(ab[i] == a[i] && ab[j] == b[j - a.len()]);
            assert(with_keys(f, a).contains(key_of(a[i])));
            assert(!g.contains(key_of(b[j - a.len()])));
        }
    }
}

/// A page's links to another host are never claimed nor emitted: every link
/// that processing the page emits is on `subdomain`, and every key that it adds
/// to the frontier is the key of such a link.
pub proof fn lemma_only_subdomain_claimed(
    f: Set<Seq<char>>,
    html: Seq<char>,
    subdomain: Seq<char>,
    excluded: Seq<Seq<char>>,
)
    ensures
        forall|i: int|
            0 <= i < claim_all(
                f,
                links_of_documents(page_documents(html), subdomain),
                excluded,
            ).0.len() ==> (#[trigger] claim_all(
                f,
                links_of_documents(page_documents(html), subdomain),
                excluded,
            ).0[i]).host == Some(subdomain),
        forall|k: Seq<char>|
            #[trigger] claim_all(
                f,
                links_of_documents(page_documents(html), subdomain),
                excluded,
            ).1.contains(k) && !f.contains(k) ==> exists|i: int|
                0 <= i < claim_all(
                    f,
                    links_of_documents(page_documents(html), subdomain),
                    excluded,
                ).0.len() && key_of(
                    claim_all(f, links_of_documents(page_documents(html), subdomain), excluded).0[i],
                ) == k && claim_all(
                    f,
                    links_of_documents(page_documents(html), subdomain),
                    excluded,
                ).0[i].host == Some(subdomain),
{
    let links = links_of_documents(page_documents(html), subdomain);
    let (out, g) = claim_all(f, links, excluded);
    lemma_claim_all(f, links, excluded);
    lemma_links_of_documents_on_subdomain(page_documents(html), subdomain);
    assert forall|i: int| 0 <= i < out.len() implies (#[trigger] out[i]).host == Some(
        subdomain,
    ) by {
        assert(links.contains(out[i]));
        let j = choose|j: int| 0 <= j < links.len() && links[j] == out[i];
        assert(links[j].host == Some(subdomain));
    }
    assert forall|k: Seq<char>| #[trigger] g.contains(k) && !f.contains(k) implies exists|i: int|
        0 <= i < out.len() && key_of(out[i]) == k && out[i].host == Some(subdomain) by {
        assert(with_keys(f, out).contains(k));
        let i = choose|i: int| 0 <= i < out.len() && key_of(out[i]) == k;
        assert(out[i].host == Some(subdomain));
    }
}

/// The extractor's configuration: the crawl's subdomain, and the path endings
/// of resources that are not pages and are never claimed.
pub struct LinkParser {
    pub subdomain: String,
    pub excluded_suffixes: Vec<String>,
}

impl LinkParser {
    /// An extractor for the site `subdomain` that passes over `.pdf` and `.mp3`
    /// resources.
    pub fn new(subdomain: &str) -> (r: LinkParser)
        ensures
            r.subdomain@ == subdomain@,
            views(r.excluded_suffixes@) == seq![seq!['.', 'p', 'd', 'f'], seq!['.', 'm', 'p', '3']],
    {
        let pdf = String::from_str(".pdf");
        let mp3 = String::from_str(".mp3");
        proof {
            reveal_strlit(".pdf");
            reveal_strlit(".mp3");
        }
        assert(pdf@ =~= seq!['.', 'p', 'd', 'f']);
        assert(mp3@ =~= seq!['.', 'm', 'p', '3']);
        let mut excluded_suffixes: Vec<String> = Vec::new();
        excluded_suffixes.push(pdf);
        excluded_suffixes.push(mp3);
        let r = LinkParser { subdomain: String::from_str(subdomain), excluded_suffixes };
        assert(views(r.excluded_suffixes@) =~= seq![
            seq!['.', 'p', 'd', 'f'],
            seq!['.', 'm', 'p', '3'],
        ]);
        r
    }

    /// An extractor for the site `subdomain` that passes over the resources
    /// whose path ends with one of `excluded_suffixes`.
    pub fn with_excluded_suffixes(subdomain: &str, excluded_suffixes: Vec<String>) -> (r:
        LinkParser)
        ensures
            r.subdomain@ == subdomain@,
            r.excluded_suffixes@ == excluded_suffixes@,
    {
        LinkParser { subdomain: String::from_str(subdomain), excluded_suffixes }
    }

    /// Claims `links` in order in `frontier` and returns those whose key this
    /// call inserted: the links to send for fetching.
    pub fn claim_links(&self, frontier: &mut Frontier, links: &Vec<Link>) -> (fresh: Vec<Link>)
        ensures
            link_views(fresh@) == claim_all(
                old(frontier)@,
                link_views(links@),
                views(self.excluded_suffixes@),
            ).0,
            final(frontier)@ == claim_all(
                old(frontier)@,
                link_views(links@),
                views(self.excluded_suffixes@),
            ).1,
    {
        let ghost f0 = frontier@;
        let ghost ls = link_views(links@);
        let ghost ex = views(self.excluded_suffixes@);
        let mut fresh: Vec<Link> = Vec::new();
        let mut i: usize = 0;
        assert(ls.take(0) =~= Seq::<LinkView>::empty());
        assert(link_views(fresh@) =~= Seq::<LinkView>::empty());
        while i < links.len()
            invariant
                i <= links@.len(),
                ls == link_views(links@),
                ex == views(self.excluded_suffixes@),
                link_views(fresh@) == claim_all(f0, ls.take(i as int), ex).0,
                frontier@ == claim_all(f0, ls.take(i as int), ex).1,
            decreases links@.len() - i,
        {
            assert(ls.take(i + 1).drop_last() =~= ls.take(i as int));
            assert(ls.take(i + 1).last() == links@[i as int]@);
            let l = &links[i];
            if !ends_with_any(l.path.as_str(), &self.excluded_suffixes) {
                let key = path_key(l.path.as_str());
                let ghost prev = fresh@;
                if frontier.try_claim(key.as_str()) {
                    fresh.push(l.duplicate());
                    assert(link_views(fresh@) =~= link_views(prev).push(l@));
                }
            }
            i = i + 1;
        }
        assert(ls.take(links@.len() as int) =~= ls);
        fresh
    }

    /// The extractor's work on one page: the page's links on the subdomain
    /// (those of its `noscript` blocks first), claimed in order in `frontier`.
    /// Returns the links whose key this call claimed.
    pub fn process_page(&self, frontier: &mut Frontier, html: &str) -> (fresh: Vec<Link>)
        ensures
            link_views(fresh@) == claim_all(
                old(frontier)@,
                links_of_documents(page_documents(html@), self.subdomain@),
                views(self.excluded_suffixes@),
            ).0,
            final(frontier)@ == claim_all(
                old(frontier)@,
                links_of_documents(page_documents(html@), self.subdomain@),
                views(self.excluded_suffixes@),
            ).1,
    {
        let links = parse_urls(html, self.subdomain.as_str());
        self.claim_links(frontier, &links)
    }
}

} // verus!
