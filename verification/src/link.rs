//! A funding link: a platform tag and the URI it points at. Links order by
//! (platform, URI) and each package's links are kept as a strictly sorted
//! vector, the canonical form of a link set.

use crate::platform::{
    lemma_platform_cmp_antisym, lemma_platform_cmp_eq, lemma_platform_cmp_refl,
    lemma_platform_cmp_trans, platform_cmp, platform_of, Platform, PlatformV,
};
use crate::text::{
    lemma_seq_char_cmp_antisym, lemma_seq_char_cmp_eq, lemma_seq_char_cmp_refl,
    lemma_seq_char_cmp_trans, seq_char_cmp,
};
use vstd::prelude::*;

verus! {

/// A funding destination: where the money goes and through which platform.
#[derive(Clone, Debug, Hash, PartialEq, Eq)]
pub struct Link {
    pub platform: Platform,
    pub uri: String,
}

/// The mathematical value of a `Link`.
pub struct LinkV {
    pub platform: PlatformV,
    pub uri: Seq<char>,
}

impl View for Link {
    type V = LinkV;

    open spec fn view(&self) -> LinkV {
        LinkV { platform: self.platform@, uri: self.uri@ }
    }
}

/// What a URI string normalizes to, if it parses at all: the serialization
/// of `http::Uri` after a round trip through its parser.
pub uninterp spec fn uri_norm_of(s: Seq<char>) -> Option<Seq<char>>;

/// Relies on `http::Uri`'s `FromStr` and `Display`: parsing either fails or
/// yields a URI whose serialization depends on the input characters alone.
#[verifier::external_body]
pub fn parse_normalize_uri(s: &str) -> (r: Option<String>)
    ensures
        (r is Some) == (uri_norm_of(s@) is Some),
        r matches Some(t) ==> uri_norm_of(s@) == Some(t@),
{
    match s.parse::<http::Uri>() {
        Ok(u) => Some(u.to_string()),
        Err(_) => None,
    }
}

/// The path-and-query component a URL's parts carry, if the URL parses and
/// has one.
pub uninterp spec fn paq_of(s: Seq<char>) -> Option<Seq<char>>;

/// Relies on `http::Uri`'s parser, `Uri::into_parts` and
/// `PathAndQuery::as_str`: the component's text depends on the input
/// characters alone, and parse failure is reported, never a panic.
#[verifier::external_body]
pub fn uri_path_and_query(s: &str) -> (r: Option<String>)
    ensures
        (r is Some) == (paq_of(s@) is Some),
        r matches Some(t) ==> paq_of(s@) == Some(t@),
{
    let uri: http::Uri = s.parse().ok()?;
    let paq = uri.into_parts().path_and_query?;
    Some(paq.as_str().to_string())
}

/// What a URL serializes to after its path-and-query is replaced by the
/// given component: parse, swap the component in, re-validate, serialize;
/// or nothing, where any of those steps refuses.
pub uninterp spec fn set_paq_of(s: Seq<char>, paq: Seq<char>) -> Option<Seq<char>>;

/// Relies on `http::Uri`'s parser, `Uri::into_parts`,
/// `PathAndQuery::try_from`, `Uri::from_parts` and `Display`: the result
/// depends on the two inputs alone, and every step reports failure instead
/// of panicking.
#[verifier::external_body]
pub fn replace_uri_path(s: &str, paq: &str) -> (r: Option<String>)
    ensures
        (r is Some) == (set_paq_of(s@, paq@) is Some),
        r matches Some(t) ==> set_paq_of(s@, paq@) == Some(t@),
{
    let uri: http::Uri = s.parse().ok()?;
    let mut parts = uri.into_parts();
    parts.path_and_query = Some(http::uri::PathAndQuery::try_from(paq).ok()?);
    Some(http::Uri::from_parts(parts).ok()?.to_string())
}

/// The forge's own sponsorship URLs come back as bare profile paths, so the
/// fixed `/sponsors` prefix is inserted immediately before the existing
/// path-and-query and the URL re-validated; a URL without a usable
/// component yields nothing.
pub open spec fn sponsors_rewritten(url: Seq<char>) -> Option<Seq<char>> {
    match paq_of(url) {
        Some(paq) => set_paq_of(url, ("/sponsors")@ + paq),
        None => None,
    }
}

/// The link a (platform token, URL) pair from the forge yields: the platform
/// is matched case-insensitively; the forge's own sponsorship platform gets
/// its URL rewritten with the `/sponsors` path prefix, every other platform's
/// URL is taken as sent; a URL that does not parse yields no link.
pub open spec fn link_of_pair(platform: Seq<char>, url: Seq<char>) -> Option<LinkV> {
    let p = platform_of(platform);
    let u = if p == PlatformV::Github {
        sponsors_rewritten(url)
    } else {
        uri_norm_of(url)
    };
    match u {
        Some(t) => Some(LinkV { platform: p, uri: t }),
        None => None,
    }
}

impl Link {
    /// Builds the link a (platform token, URL) pair denotes, or nothing when
    /// the URL is unusable.
    pub fn from_pair(platform: &str, url: &str) -> (r: Option<Link>)
        ensures
            (r is Some) == (link_of_pair(platform@, url@) is Some),
            r matches Some(l) ==> link_of_pair(platform@, url@) == Some(l@),
    {
        let p = Platform::from_text(platform);
        let is_github = match p {
            Platform::Github => true,
            _ => false,
        };
        let u = if is_github {
            match uri_path_and_query(url) {
                Some(paq) => {
                    let mut prefixed = String::from_str("/sponsors");
                    prefixed.append(paq.as_str());
                    replace_uri_path(url, prefixed.as_str())
                },
                None => None,
            }
        } else {
            parse_normalize_uri(url)
        };
        match u {
            Some(uri) => Some(Link { platform: p, uri }),
            None => None,
        }
    }

    /// An owned copy of the link.
    pub fn duplicate(&self) -> (r: Link)
        ensures
            r@ == self@,
    {
        Link { platform: self.platform.duplicate(), uri: self.uri.clone() }
    }

    /// Three-way comparison by (platform, URI).
    pub fn cmp_with(&self, other: &Link) -> (r: i8)
        ensures
            r as int == link_cmp(self@, other@),
    {
        let pc = self.platform.cmp_with(&other.platform);
        if pc != 0 {
            pc
        } else {
            crate::text::str_cmp(self.uri.as_str(), other.uri.as_str())
        }
    }
}

/// Three-way ordering of links: by platform, then by URI.
pub open spec fn link_cmp(a: LinkV, b: LinkV) -> int {
    if platform_cmp(a.platform, b.platform) != 0 {
        platform_cmp(a.platform, b.platform)
    } else {
        seq_char_cmp(a.uri, b.uri)
    }
}

pub proof fn lemma_link_cmp_refl(a: LinkV)
    ensures
        link_cmp(a, a) == 0,
{
    lemma_platform_cmp_refl(a.platform);
    lemma_seq_char_cmp_refl(a.uri);
}

pub proof fn lemma_link_cmp_eq(a: LinkV, b: LinkV)
    requires
        link_cmp(a, b) == 0,
    ensures
        a == b,
{
    lemma_platform_cmp_eq(a.platform, b.platform);
    lemma_seq_char_cmp_eq(a.uri, b.uri);
}

pub proof fn lemma_link_cmp_antisym(a: LinkV, b: LinkV)
    ensures
        link_cmp(a, b) == -link_cmp(b, a),
{
    lemma_platform_cmp_antisym(a.platform, b.platform);
    lemma_seq_char_cmp_antisym(a.uri, b.uri);
}

pub proof fn lemma_link_cmp_trans(a: LinkV, b: LinkV, c: LinkV)
    requires
        link_cmp(a, b) <= 0,
        link_cmp(b, c) <= 0,
    ensures
        link_cmp(a, c) <= 0,
        link_cmp(a, b) < 0 || link_cmp(b, c) < 0 ==> link_cmp(a, c) < 0,
{
    lemma_platform_cmp_antisym(a.platform, b.platform);
    lemma_platform_cmp_antisym(b.platform, c.platform);
    lemma_platform_cmp_antisym(a.platform, c.platform);
    lemma_platform_cmp_trans(a.platform, b.platform, c.platform);
    if platform_cmp(a.platform, b.platform) == 0 {
        lemma_platform_cmp_eq(a.platform, b.platform);
    }
    if platform_cmp(b.platform, c.platform) == 0 {
        lemma_platform_cmp_eq(b.platform, c.platform);
    }
    if platform_cmp(a.platform, b.platform) == 0 && platform_cmp(b.platform, c.platform) == 0 {
        lemma_seq_char_cmp_trans(a.uri, b.uri, c.uri);
    }
}

/// The mathematical values of a vector of links.
pub open spec fn link_views(s: Seq<Link>) -> Seq<LinkV> {
    s.map_values(|l: Link| l@)
}

/// Strictly increasing by `link_cmp`: sorted, and free of duplicates.
pub open spec fn sorted_links(s: Seq<LinkV>) -> bool {
    forall|i: int, j: int| 0 <= i < j < s.len() ==> link_cmp(s[i], s[j]) < 0
}

/// Inserts a link into a strictly sorted vector, keeping it strictly sorted;
/// a link already present is not duplicated.
#[verifier::loop_isolation(false)]
pub fn insert_link(v: &mut Vec<Link>, l: Link)
    requires
        sorted_links(link_views(old(v)@)),
    ensures
        sorted_links(link_views(final(v)@)),
        link_views(final(v)@).to_set() == link_views(old(v)@).to_set().insert(l@),
{
    let ghost s0 = link_views(v@);
    let n = v.len();
    let mut i: usize = 0;
    while i < n && v[i].cmp_with(&l) < 0
        invariant
            i <= n,
            v@ == old(v)@,
            forall|j: int| 0 <= j < i ==> link_cmp(s0[j], l@) < 0,
        decreases n - i,
    {
        i = i + 1;
    }
    if i < n {
        let c = v[i].cmp_with(&l);
        if c == 0 {
            proof {
                lemma_link_cmp_eq(s0[i as int], l@);
                assert(s0.to_set().contains(l@));
                assert(s0.to_set() =~= s0.to_set().insert(l@));
            }
            return ;
        }
    }
    proof {
        if i < n {
            assert(link_cmp(s0[i as int], l@) > 0);
            lemma_link_cmp_antisym(s0[i as int], l@);
        }
    }
    v.insert(i, l);
    proof {
        let s1 = link_views(v@);
        assert(s1 =~= s0.insert(i as int, l@));
        assert forall|p: int, q: int| 0 <= p < q < s1.len() implies link_cmp(s1[p], s1[q]) < 0 by {
            if p == i {
                // s1[p] is l; q > i
                if q == i + 1 {
                    lemma_link_cmp_antisym(s0[i as int], l@);
                } else {
                    lemma_link_cmp_antisym(s0[i as int], l@);
                    lemma_link_cmp_trans(l@, s0[i as int], s0[q - 1]);
                }
            } else if q == i {
                // s1[q] is l; p < i
            } else if p < i && q > i {
                if q == i + 1 {
                    // s1[q] is s0[i]... no: q > i means s1[q] == s0[q-1]; q-1 >= i
                    if q - 1 == i {
                        // handled by p < i branch below over s0
                        assert(link_cmp(s0[p], l@) < 0);
                        lemma_link_cmp_antisym(s0[i as int], l@);
                        if i < s0.len() {
                            lemma_link_cmp_trans(s0[p], l@, s0[i as int]);
                        }
                    }
                } else {
                }
            } else {
            }
        }
        assert(s1.to_set() =~= s0.to_set().insert(l@)) by {
            assert forall|x: LinkV| s1.to_set().contains(x) implies s0.to_set().insert(l@).contains(
                x,
            ) by {
                let k = choose|k: int| 0 <= k < s1.len() && s1[k] == x;
                if k < i {
                    assert(s0[k] == x);
                    assert(s0.to_set().contains(x));
                } else if k == i {
                    assert(x == l@);
                } else {
                    assert(s0[k - 1] == x);
                    assert(s0.to_set().contains(x));
                }
            }
            assert forall|x: LinkV| s0.to_set().insert(l@).contains(x) implies s1.to_set().contains(
                x,
            ) by {
                if x == l@ {
                    assert(s1[i as int] == x);
                } else {
                    assert(s0.to_set().contains(x));
                    let k = choose|k: int| 0 <= k < s0.len() && s0[k] == x;
                    if k < i {
                        assert(s1[k] == x);
                    } else {
                        assert(s1[k + 1] == x);
                    }
                }
            }
        }
    }
}

/// Dropping the last element of a strictly sorted sequence removes exactly
/// its maximum from the set of elements.
pub proof fn lemma_sorted_drop_last(s: Seq<LinkV>)
    requires
        sorted_links(s),
        s.len() > 0,
    ensures
        s.drop_last().to_set() == s.to_set().remove(s.last()),
{
    assert forall|x: LinkV| s.drop_last().to_set().contains(x) implies s.to_set().remove(
        s.last(),
    ).contains(x) by {
        let k = choose|k: int| 0 <= k < s.drop_last().len() && s.drop_last()[k] == x;
        assert(s[k] == x);
        assert(s.to_set().contains(x));
        assert(link_cmp(s[k], s.last()) < 0);
        if x == s.last() {
            lemma_link_cmp_refl(x);
        }
    }
    assert forall|x: LinkV| s.to_set().remove(s.last()).contains(x) implies s.drop_last(
    ).to_set().contains(x) by {
        let k = choose|k: int| 0 <= k < s.len() && s[k] == x;
        assert(k < s.len() - 1);
        assert(s.drop_last()[k] == x);
        assert(s.drop_last().to_set().contains(x));
    }
    assert(s.drop_last().to_set() =~= s.to_set().remove(s.last()));
}

/// Two strictly sorted sequences over the same set of links are the same
/// sequence: the sorted form is canonical.
pub proof fn lemma_sorted_links_canonical(a: Seq<LinkV>, b: Seq<LinkV>)
    requires
        sorted_links(a),
        sorted_links(b),
        a.to_set() == b.to_set(),
    ensures
        a == b,
    decreases a.len(),
{
    if a.len() == 0 {
        if b.len() > 0 {
            assert(b.to_set().contains(b[0]));
            assert(a.to_set().contains(b[0]));
            let k = choose|k: int| 0 <= k < a.len() && a[k] == b[0];
            assert(false);
        }
        assert(a =~= b);
    } else {
        if b.len() == 0 {
            assert(a.to_set().contains(a[0]));
            assert(b.to_set().contains(a[0]));
            let k = choose|k: int| 0 <= k < b.len() && b[k] == a[0];
            assert(false);
        }
        // the two maxima coincide
        assert(a.to_set().contains(a.last()));
        assert(b.to_set().contains(a.last()));
        let ka = choose|k: int| 0 <= k < b.len() && b[k] == a.last();
        assert(link_cmp(a.last(), b.last()) <= 0) by {
            if ka < b.len() - 1 {
                assert(link_cmp(b[ka], b.last()) < 0);
            } else {
                lemma_link_cmp_refl(b.last());
            }
        }
        assert(b.to_set().contains(b.last()));
        assert(a.to_set().contains(b.last()));
        let kb = choose|k: int| 0 <= k < a.len() && a[k] == b.last();
        assert(link_cmp(b.last(), a.last()) <= 0) by {
            if kb < a.len() - 1 {
                assert(link_cmp(a[kb], a.last()) < 0);
            } else {
                lemma_link_cmp_refl(a.last());
            }
        }
        lemma_link_cmp_antisym(a.last(), b.last());
        lemma_link_cmp_eq(a.last(), b.last());
        lemma_sorted_drop_last(a);
        lemma_sorted_drop_last(b);
        lemma_sorted_links_canonical(a.drop_last(), b.drop_last());
        assert(a =~= a.drop_last() + seq![a.last()]);
        assert(b =~= b.drop_last() + seq![b.last()]);
        assert(a =~= b);
    }
}

} // verus!
