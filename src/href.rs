//! Normalization of raw `href` attribute values into absolute URL strings.
use vstd::prelude::*;

verus! {

/// The characters of `s` before its first `#`: the value without its fragment.
pub open spec fn strip_fragment(s: Seq<char>) -> Seq<char>
    decreases s.len(),
{
    if s.len() == 0 {
        s
    } else if s[0] == '#' {
        Seq::empty()
    } else {
        seq![s[0]] + strip_fragment(s.drop_first())
    }
}

/// No character of `s` is `#`.
pub open spec fn no_hash(s: Seq<char>) -> bool {
    forall|i: int| 0 <= i < s.len() ==> s[i] != '#'
}

/// `https://`
pub open spec fn https_prefix() -> Seq<char> {
    seq!['h', 't', 't', 'p', 's', ':', '/', '/']
}

/// The href values that all stand for the site root: empty, `/`, `#` and `/#`.
pub open spec fn is_root_href(h: Seq<char>) -> bool {
    h.len() == 0 || h == seq!['/'] || h == seq!['#'] || h == seq!['/', '#']
}

/// What `href` becomes on the site `subdomain`: the root forms give
/// `https://<subdomain>`; otherwise the fragment is dropped, and a root-relative
/// path gets `https://<subdomain>` in front of it.
pub open spec fn normalized_href(href: Seq<char>, subdomain: Seq<char>) -> Seq<char> {
    if is_root_href(href) {
        https_prefix() + subdomain
    } else {
        let t = strip_fragment(href);
        if t.len() > 0 && t[0] == '/' {
            https_prefix() + subdomain + t
        } else {
            t
        }
    }
}

proof fn lemma_strip_fragment_at(s: Seq<char>, k: int)
    requires
        0 <= k <= s.len(),
        forall|j: int| 0 <= j < k ==> s[j] != '#',
        k == s.len() || s[k] == '#',
    ensures
        strip_fragment(s) == s.take(k),
    decreases k,
{
    if k == 0 {
        if s.len() == 0 {
            assert(s.take(0) =~= s);
        } else {
            assert(s.take(0) =~= Seq::<char>::empty());
        }
    } else {
        let t = s.drop_first();
        assert forall|j: int| 0 <= j < k - 1 implies t[j] != '#' by {
            assert(t[j] == s[j + 1]);
        }
        lemma_strip_fragment_at(t, k - 1);
        assert(s.take(k) =~= seq![s[0]] + t.take(k - 1));
    }
}

/// Stripping the fragment of a value without `#` leaves it unchanged.
pub proof fn lemma_strip_fragment_no_hash(s: Seq<char>)
    requires
        no_hash(s),
    ensures
        strip_fragment(s) == s,
{
    lemma_strip_fragment_at(s, s.len() as int);
    assert(s.take(s.len() as int) =~= s);
}

/// Stripping the fragment leaves a value without `#`.
pub proof fn lemma_strip_fragment_no_hash_result(s: Seq<char>)
    ensures
        no_hash(strip_fragment(s)),
    decreases s.len(),
{
    if s.len() > 0 && s[0] != '#' {
        let t = s.drop_first();
        lemma_strip_fragment_no_hash_result(t);
        let r = strip_fragment(s);
        assert(r =~= seq![s[0]] + strip_fragment(t));
        assert forall|i: int| 0 <= i < r.len() implies r[i] != '#' by {
            if i > 0 {
                assert(r[i] == strip_fragment(t)[i - 1]);
            }
        }
    }
}

/// An absolute URL string without a fragment is left as it is by normalization.
pub proof fn lemma_normalize_absolute_unchanged(url: Seq<char>, subdomain: Seq<char>)
    requires
        no_hash(url),
        url.len() > 0,
        url[0] != '/',
    ensures
        normalized_href(url, subdomain) == url,
{
    lemma_strip_fragment_no_hash(url);
    if url.len() == 2 {
        assert(url != seq!['/', '#']) by {
            if url == seq!['/', '#'] {
                assert(url[0] == '/');
            }
        }
    }
    if url.len() == 1 {
        assert(url != seq!['/'] && url != seq!['#']) by {
            if url == seq!['/'] {
                assert(url[0] == '/');
            }
            if url == seq!['#'] {
                assert(url[0] == '#');
            }
        }
    }
}

/// Normalizing twice gives what normalizing once gives, wherever the first
/// result is not empty (a host holds no `#`).
pub proof fn lemma_normalize_idempotent(href: Seq<char>, subdomain: Seq<char>)
    requires
        no_hash(subdomain),
        normalized_href(href, subdomain).len() > 0,
    ensures
        normalized_href(normalized_href(href, subdomain), subdomain) == normalized_href(
            href,
            subdomain,
        ),
{
    let r = normalized_href(href, subdomain);
    lemma_strip_fragment_no_hash_result(href);
    let t = strip_fragment(href);
    if is_root_href(href) || (t.len() > 0 && t[0] == '/') {
        let rest = if is_root_href(href) {
            Seq::<char>::empty()
        } else {
            t
        };
        assert(r =~= https_prefix() + (subdomain + rest));
        assert forall|i: int| 0 <= i < r.len() implies r[i] != '#' by {
            if i >= 8 && i < 8 + subdomain.len() {
                assert(r[i] == subdomain[i - 8]);
            } else if i >= 8 + subdomain.len() {
                assert(r[i] == rest[i - 8 - subdomain.len()]);
            }
        }
        assert(r[0] == 'h');
    }
    lemma_normalize_absolute_unchanged(r, subdomain);
}

/// Two hrefs that differ only in their fragment normalize to the same string,
/// unless the part before the fragment is empty or `/` (`#` is the root, `#a` is
/// empty).
pub proof fn lemma_fragment_equivalence(
    page: Seq<char>,
    frag1: Seq<char>,
    frag2: Seq<char>,
    subdomain: Seq<char>,
)
    requires
        no_hash(page),
        page.len() > 0,
        page != seq!['/'],
    ensures
        normalized_href(page + seq!['#'] + frag1, subdomain) == normalized_href(
            page + seq!['#'] + frag2,
            subdomain,
        ),
{
    lemma_with_fragment(page, frag1);
    lemma_with_fragment(page, frag2);
}

proof fn lemma_with_fragment(page: Seq<char>, frag: Seq<char>)
    requires
        no_hash(page),
        page.len() > 0,
        page != seq!['/'],
    ensures
        !is_root_href(page + seq!['#'] + frag),
        strip_fragment(page + seq!['#'] + frag) == page,
{
    let h = page + seq!['#'] + frag;
    let k = page.len() as int;
    assert(h[k] == '#');
    assert forall|j: int| 0 <= j < k implies h[j] != '#' by {
        assert(h[j] == page[j]);
    }
    lemma_strip_fragment_at(h, k);
    assert(h.take(k) =~= page);
    if h == seq!['/', '#'] {
        assert(page =~= seq!['/']);
    }
}

/// The part of `s` before its first `#`.
fn without_fragment(s: &str) -> (r: &str)
    ensures
        r@ == strip_fragment(s@),
{
    let n = s.unicode_len();
    let mut i: usize = 0;
    while i < n
        invariant_except_break
            n == s@.len(),
            i <= n,
            forall|j: int| 0 <= j < i ==> s@[j] != '#',
        ensures
            i <= n,
            forall|j: int| 0 <= j < i ==> s@[j] != '#',
            i == n || s@[i as int] == '#',
        decreases n - i,
    {
        if s.get_char(i) == '#' {
            break;
        }
        i = i + 1;
    }
    proof {
        lemma_strip_fragment_at(s@, i as int);
    }
    s.substring_char(0, i)
}

/// Whether `href` is one of the forms that stand for the site root.
fn is_root(href: &str) -> (r: bool)
    ensures
        r == is_root_href(href@),
{
    let n = href.unicode_len();
    if n == 0 {
        true
    } else if n == 1 {
        let c = href.get_char(0);
        if c == '/' {
            assert(href@ =~= seq!['/']);
            true
        } else if c == '#' {
            assert(href@ =~= seq!['#']);
            true
        } else {
            assert(href@ != seq!['/'] && href@ != seq!['#']);
            false
        }
    } else if n == 2 {
        let c0 = href.get_char(0);
        let c1 = href.get_char(1);
        if c0 == '/' && c1 == '#' {
            assert(href@ =~= seq!['/', '#']);
            true
        } else {
            assert(href@ != seq!['/', '#']);
            false
        }
    } else {
        false
    }
}

/// `https://<subdomain><rest>`
fn site_url(subdomain: &str, rest: &str) -> (r: String)
    ensures
        r@ == https_prefix() + subdomain@ + rest@,
{
    let mut r = String::from_str("https://");
    proof {
        reveal_strlit("https://");
    }
    assert(r@ =~= https_prefix());
    r.append(subdomain);
    r.append(rest);
    r
}

/// Turns a raw `href` value into an absolute URL string on the site `subdomain`:
/// the root forms (empty, `/`, `#`, `/#`) become `https://<subdomain>`, the
/// fragment is removed, and a root-relative path is made absolute. Other values
/// are returned without their fragment.
pub fn normalize_href(href: &str, subdomain: &str) -> (r: String)
    ensures
        r@ == normalized_href(href@, subdomain@),
{
    if is_root(href) {
        proof {
            reveal_strlit("");
        }
        let r = site_url(subdomain, "");
        assert(r@ =~= https_prefix() + subdomain@);
        return r;
    }
    let t = without_fragment(href);
    if t.unicode_len() > 0 && t.get_char(0) == '/' {
        site_url(subdomain, t)
    } else {
        String::from_str(t)
    }
}

} // verus!
