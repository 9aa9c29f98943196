//! Link extraction from one page: the page's documents (the page itself and
//! each `noscript` block re-read as markup), their anchors' `href` values, and
//! the links among them that lie on the crawl's subdomain.
use vstd::prelude::*;
use crate::href::{normalize_href, normalized_href};
use crate::link::{parse_url, parsed_url, views, Link, LinkView};

verus! {

/// What the HTML parser finds in `markup`: the text of each `noscript`
/// element, and the `href` attribute of each anchor element (`None` for an
/// anchor without one), both in document order.
pub uninterp spec fn scanned_markup(markup: Seq<char>) -> (Seq<Seq<char>>, Seq<Option<Seq<char>>>);

/// The text of each `noscript` element of `markup`, in document order.
pub open spec fn noscript_texts_of(markup: Seq<char>) -> Seq<Seq<char>> {
    scanned_markup(markup).0
}

/// The `href` attribute of each anchor element of `markup`, in document order.
pub open spec fn anchor_hrefs_of(markup: Seq<char>) -> Seq<Option<Seq<char>>> {
    scanned_markup(markup).1
}

/// Relies on `scraper::Html::parse_document` and its `noscript` and `a`
/// selectors: the text of each `noscript` element (its text nodes joined) and
/// the `href` attribute of each anchor. The outcome is a function of `markup`
/// alone.
#[verifier::external_body]
fn scan_markup(markup: &str) -> (r: (Vec<String>, Vec<Option<String>>))
    ensures
        views(r.0@) == scanned_markup(markup@).0,
        opt_views(r.1@) == scanned_markup(markup@).1,
{
    let document = scraper::Html::parse_document(markup);
    let texts = match scraper::Selector::parse("noscript") {
        Ok(s) => document.select(&s).map(|n| n.text().collect::<String>()).collect(),
        Err(_) => Vec::new(),
    };
    let hrefs = match scraper::Selector::parse("a") {
        Ok(s) => document.select(&s).map(|a| a.value().attr("href").map(String::from)).collect(),
        Err(_) => Vec::new(),
    };
    (texts, hrefs)
}

/// The views of a list of optional strings.
pub open spec fn opt_views(v: Seq<Option<String>>) -> Seq<Option<Seq<char>>> {
    v.map_values(
        |o: Option<String>|
            match o {
                Some(s) => Some(s@),
                None => None,
            },
    )
}

/// The views of a list of links.
pub open spec fn link_views(v: Seq<Link>) -> Seq<LinkView> {
    v.map_values(|l: Link| l@)
}

/// The documents of a page: one per `noscript` block, then the page itself.
pub open spec fn page_documents(markup: Seq<char>) -> Seq<Seq<char>> {
    noscript_texts_of(markup).push(markup)
}

/// The link that `href` yields on the site `subdomain`: its normalization,
/// parsed, where it parses and its host is `subdomain`.
pub open spec fn accepted_link(href: Seq<char>, subdomain: Seq<char>) -> Option<LinkView> {
    match parsed_url(normalized_href(href, subdomain)) {
        Some(l) => if l.host == Some(subdomain) {
            Some(l)
        } else {
            None
        },
        None => None,
    }
}

/// The links that a list of `href` values yields on `subdomain`, in order.
pub open spec fn links_of_hrefs(hrefs: Seq<Option<Seq<char>>>, subdomain: Seq<char>) -> Seq<
    LinkView,
>
    decreases hrefs.len(),
{
    if hrefs.len() == 0 {
        Seq::empty()
    } else {
        let rest = links_of_hrefs(hrefs.drop_last(), subdomain);
        match hrefs.last() {
            Some(h) => match accepted_link(h, subdomain) {
                Some(l) => rest.push(l),
                None => rest,
            },
            None => rest,
        }
    }
}

/// The links that the anchors of a list of documents yield on `subdomain`.
pub open spec fn links_of_documents(docs: Seq<Seq<char>>, subdomain: Seq<char>) -> Seq<LinkView>
    decreases docs.len(),
{
    if docs.len() == 0 {
        Seq::empty()
    } else {
        links_of_documents(docs.drop_last(), subdomain) + links_of_hrefs(
            anchor_hrefs_of(docs.last()),
            subdomain,
        )
    }
}

/// Every link that a list of `href` values yields is on `subdomain`.
pub proof fn lemma_links_of_hrefs_on_subdomain(
    hrefs: Seq<Option<Seq<char>>>,
    subdomain: Seq<char>,
)
    ensures
        forall|i: int|
            0 <= i < links_of_hrefs(hrefs, subdomain).len() ==> (#[trigger] links_of_hrefs(
                hrefs,
                subdomain,
            )[i]).host == Some(subdomain),
    decreases hrefs.len(),
{
    if hrefs.len() > 0 {
        lemma_links_of_hrefs_on_subdomain(hrefs.drop_last(), subdomain);
    }
}

/// Every link that the anchors of a page's documents yield is on `subdomain`.
pub proof fn lemma_links_of_documents_on_subdomain(docs: Seq<Seq<char>>, subdomain: Seq<char>)
    ensures
        forall|i: int|
            0 <= i < links_of_documents(docs, subdomain).len() ==> (
            #[trigger] links_of_documents(docs, subdomain)[i]).host == Some(subdomain),
    decreases docs.len(),
{
    if docs.len() > 0 {
        let a = links_of_documents(docs.drop_last(), subdomain);
        let b = links_of_hrefs(anchor_hrefs_of(docs.last()), subdomain);
        lemma_links_of_documents_on_subdomain(docs.drop_last(), subdomain);
        lemma_links_of_hrefs_on_subdomain(anchor_hrefs_of(docs.last()), subdomain);
        assert forall|i: int| 0 <= i < (a + b).len() implies (#[trigger] (a + b)[i]).host == Some(
            subdomain,
        ) by {
            if i >= a.len() {
                assert((a + b)[i] == b[i - a.len()]);
            }
        }
    }
}

/// The documents of a page: the text of each `noscript` block, to be read as
/// markup of its own, followed by the page's markup.
pub fn parse_html(html: &str) -> (r: Vec<String>)
    ensures
        views(r@) == page_documents(html@),
{
    let (mut documents, _) = scan_markup(html);
    let ghost before = documents@;
    documents.push(String::from_str(html));
    assert(views(documents@) =~= views(before).push(html@));
    documents
}

/// Appends to `out` the links that `hrefs` yields on `subdomain`.
fn push_links_from_hrefs(hrefs: &Vec<Option<String>>, subdomain: &str, out: &mut Vec<Link>)
    ensures
        link_views(final(out)@) == link_views(old(out)@) + links_of_hrefs(
            opt_views(hrefs@),
            subdomain@,
        ),
{
    let ghost start = link_views(out@);
    let ghost hs = opt_views(hrefs@);
    let mut i: usize = 0;
    assert(hs.take(0) =~= Seq::<Option<Seq<char>>>::empty());
    assert(start + Seq::<LinkView>::empty() =~= start);
    while i < hrefs.len()
        invariant
            i <= hrefs@.len(),
            hs == opt_views(hrefs@),
            link_views(out@) == start + links_of_hrefs(hs.take(i as int), subdomain@),
        decreases hrefs@.len() - i,
    {
        let ghost prev = out@;
        assert(hs.take(i + 1).drop_last() =~= hs.take(i as int));
        assert(hs.take(i + 1).last() == hs[i as int]);
        match &hrefs[i] {
            Some(h) => {
                let normalized = normalize_href(h.as_str(), subdomain);
                match parse_url(normalized.as_str()) {
                    Some(l) => {
                        if l.is_on(subdomain) {
                            out.push(l);
                            assert(link_views(out@) =~= link_views(prev).push(l@));
                        }
                    },
                    None => {},
                }
            },
            None => {},
        }
        i = i + 1;
    }
    assert(hs.take(hrefs@.len() as int) =~= hs);
}

/// The links that the `href` values `hrefs` yield on `subdomain`, in order:
/// each is normalized and parsed; those that fail to parse, lack a value, or
/// lie on another host are left out.
pub fn links_from_hrefs(hrefs: &Vec<Option<String>>, subdomain: &str) -> (r: Vec<Link>)
    ensures
        link_views(r@) == links_of_hrefs(opt_views(hrefs@), subdomain@),
{
    let mut out: Vec<Link> = Vec::new();
    push_links_from_hrefs(hrefs, subdomain, &mut out);
    assert(link_views(Seq::<Link>::empty()) + links_of_hrefs(opt_views(hrefs@), subdomain@)
        =~= links_of_hrefs(opt_views(hrefs@), subdomain@));
    out
}

/// The links of the page `html` that lie on `subdomain`: those of the
/// anchors of each `noscript` block, then those of the page's own anchors.
pub fn parse_urls(html: &str, subdomain: &str) -> (r: Vec<Link>)
    ensures
        link_views(r@) == links_of_documents(page_documents(html@), subdomain@),
{
    let (texts, page_hrefs) = scan_markup(html);
    let ghost docs = page_documents(html@);
    assert(views(texts@).len() == texts@.len());
    assert(docs.take(texts@.len() as int) =~= views(texts@));
    let mut out: Vec<Link> = Vec::new();
    let mut i: usize = 0;
    assert(docs.take(0) =~= Seq::<Seq<char>>::empty());
    assert(link_views(out@) =~= Seq::<LinkView>::empty());
    while i < texts.len()
        invariant
            i <= texts@.len(),
            docs == page_documents(html@),
            docs.len() == texts@.len() + 1,
            docs.take(texts@.len() as int) == views(texts@),
            link_views(out@) == links_of_documents(docs.take(i as int), subdomain@),
        decreases texts@.len() - i,
    {
        let (_, hrefs) = scan_markup(texts[i].as_str());
        push_links_from_hrefs(&hrefs, subdomain, &mut out);
        assert(docs.take(i + 1).drop_last() =~= docs.take(i as int));
        assert(docs.take(i + 1).last() == docs.take(texts@.len() as int)[i as int]);
        i = i + 1;
    }
    push_links_from_hrefs(&page_hrefs, subdomain, &mut out);
    assert(docs.take(texts@.len() + 1 as int) =~= docs);
    assert(docs.take(texts@.len() + 1 as int).drop_last() =~= docs.take(texts@.len() as int));
    out
}

} // verus!
