//! Parsed links as plain values, their frontier keys, and the resource filter.
use vstd::prelude::*;

verus! {

/// A parsed absolute URL, as the crawl reads it: its serialization, its DNS
/// host (absent for IP hosts and for URLs without a host) and its path.
#[derive(Debug)]
pub struct Link {
    pub url: String,
    pub host: Option<String>,
    pub path: String,
}

/// The mathematical value of a [`Link`].
pub struct LinkView {
    pub url: Seq<char>,
    pub host: Option<Seq<char>>,
    pub path: Seq<char>,
}

impl View for Link {
    type V = LinkView;

    open spec fn view(&self) -> LinkView {
        LinkView {
            url: self.url@,
            host: match self.host {
                Some(h) => Some(h@),
                None => None,
            },
            path: self.path@,
        }
    }
}

/// What the URL parser makes of `s`: `None` where `s` is no absolute URL.
pub uninterp spec fn parsed_url(s: Seq<char>) -> Option<LinkView>;

/// Relies on `url::Url::parse` to parse `s` as an absolute URL, read back
/// through `Url::as_str`, `Url::domain` and `Url::path`. The outcome is a
/// function of `s` alone.
#[verifier::external_body]
pub(crate) fn parse_url(s: &str) -> (r: Option<Link>)
    ensures
        match r {
            Some(l) => parsed_url(s@) == Some(l@),
            None => parsed_url(s@) is None,
        },
{
    match url::Url::parse(s) {
        Ok(u) => Some(
            Link {
                url: u.as_str().to_string(),
                host: u.domain().map(|d| d.to_string()),
                path: u.path().to_string(),
            },
        ),
        Err(_) => None,
    }
}

impl Link {
    /// A copy of this link.
    pub fn duplicate(&self) -> (r: Link)
        ensures
            r@ == self@,
    {
        let host = match &self.host {
            Some(h) => Some(h.clone()),
            None => None,
        };
        Link { url: self.url.clone(), host, path: self.path.clone() }
    }

    /// The URL's serialization.
    pub fn as_str(&self) -> (r: &str)
        ensures
            r@ == self.url@,
    {
        self.url.as_str()
    }

    /// Whether the link's DNS host is exactly `subdomain`.
    pub fn is_on(&self, subdomain: &str) -> (r: bool)
        ensures
            r == (self@.host == Some(subdomain@)),
    {
        match &self.host {
            Some(h) => {
                let s = String::from_str(subdomain);
                *h == s
            },
            None => false,
        }
    }
}

/// `p` without the `/` characters at its end.
pub open spec fn trim_trailing_slashes(p: Seq<char>) -> Seq<char>
    decreases p.len(),
{
    if p.len() > 0 && p.last() == '/' {
        trim_trailing_slashes(p.drop_last())
    } else {
        p
    }
}

/// The frontier key of a link: its path without trailing `/`.
pub open spec fn key_of(l: LinkView) -> Seq<char> {
    trim_trailing_slashes(l.path)
}

/// The frontier key of a URL path: the path with its trailing `/` removed.
pub fn path_key(path: &str) -> (r: String)
    ensures
        r@ == trim_trailing_slashes(path@),
{
    let n = path.unicode_len();
    let mut k: usize = n;
    assert(path@.take(n as int) =~= path@);
    while k > 0 && path.get_char(k - 1) == '/'
        invariant
            n == path@.len(),
            k <= n,
            trim_trailing_slashes(path@.take(k as int)) == trim_trailing_slashes(path@),
        decreases k,
    {
        assert(path@.take(k as int).drop_last() =~= path@.take(k - 1));
        k = k - 1;
    }
    let r = String::from_str(path.substring_char(0, k));
    assert(k == 0 || path@.take(k as int).last() != '/');
    r
}

/// `s` ends with `suffix`.
pub open spec fn has_suffix(s: Seq<char>, suffix: Seq<char>) -> bool {
    suffix.len() <= s.len() && s.subrange(s.len() - suffix.len(), s.len() as int) == suffix
}

/// `path` ends with one of `suffixes`.
pub open spec fn has_any_suffix(path: Seq<char>, suffixes: Seq<Seq<char>>) -> bool {
    exists|i: int| 0 <= i < suffixes.len() && has_suffix(path, #[trigger] suffixes[i])
}

/// Whether `s` ends with `suffix`.
pub fn ends_with(s: &str, suffix: &str) -> (r: bool)
    ensures
        r == has_suffix(s@, suffix@),
{
    let n = s.unicode_len();
    let m = suffix.unicode_len();
    if m > n {
        return false;
    }
    let d = n - m;
    let mut i: usize = 0;
    while i < m
        invariant
            n == s@.len(),
            m == suffix@.len(),
            d == n - m,
            i <= m,
            forall|j: int| 0 <= j < i ==> s@[d + j] == suffix@[j],
        decreases m - i,
    {
        if s.get_char(d + i) != suffix.get_char(i) {
            assert(s@.subrange(d as int, n as int)[i as int] != suffix@[i as int]);
            return false;
        }
        i = i + 1;
    }
    assert(s@.subrange(d as int, n as int) =~= suffix@);
    true
}

/// The views of a list of strings.
pub open spec fn views(v: Seq<String>) -> Seq<Seq<char>> {
    v.map_values(|s: String| s@)
}

/// Whether `path` ends with one of `suffixes`.
pub fn ends_with_any(path: &str, suffixes: &Vec<String>) -> (r: bool)
    ensures
        r == has_any_suffix(path@, views(suffixes@)),
{
    let mut i: usize = 0;
    while i < suffixes.len()
        invariant
            i <= suffixes@.len(),
            forall|j: int| 0 <= j < i ==> !has_suffix(path@, #[trigger] views(suffixes@)[j]),
        decreases suffixes@.len() - i,
    {
        if ends_with(path, suffixes[i].as_str()) {
            assert(has_suffix(path@, views(suffixes@)[i as int]));
            return true;
        }
        i = i + 1;
    }
    false
}

} // verus!
