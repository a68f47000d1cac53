//! Merges the per-alias replies into the resolved map: for every alias, the
//! links it yields are added to every package that shares the alias's
//! source, deduplicated by (platform, URI). A package commonly accumulates
//! links from both its repository source and its owner source.

use crate::error::{ErrorV, FundError};
use crate::link::{
    insert_link, link_of_pair, link_views, parse_normalize_uri, sorted_links, uri_norm_of, Link,
    LinkV,
};
use crate::platform::PlatformV;
use crate::response::{
    body_errors, check_status, classify_errors, classify_model, decode_replies, err_views,
    errors_of, raw_views, replies_model, reply_views, status_model, AliasReply, AliasReplyV,
    RawLink, RawLinkV,
};
use crate::source::{entries_in_range, entry_views, SourceEntry, SourceEntryV, SourceV};
use vstd::prelude::*;

verus! {

/// Whether some raw link lacks a field the forge promises on every funding
/// link.
pub open spec fn raw_fatal(raws: Seq<RawLinkV>) -> bool {
    exists|i: int|
        0 <= i < raws.len() && ((#[trigger] raws[i].platform) is None || raws[i].url is None)
}

/// The links a repository's raw list yields, in order; a link whose URL
/// cannot be used is dropped.
pub open spec fn links_of_raws(raws: Seq<RawLinkV>) -> Seq<LinkV>
    decreases raws.len(),
{
    if raws.len() == 0 {
        Seq::empty()
    } else {
        let rest = links_of_raws(raws.drop_first());
        match (raws[0].platform, raws[0].url) {
            (Some(p), Some(u)) => match link_of_pair(p, u) {
                Some(l) => seq![l] + rest,
                None => rest,
            },
            _ => rest,
        }
    }
}

/// The URL synthesized for an owner with a sponsorship listing: built from
/// the owner's login alone, never read out of the response.
pub open spec fn owner_candidate(owner: Seq<char>) -> Seq<char> {
    ("https://github.com/sponsors/")@ + owner
}

/// The link an owner's sponsorship listing yields, or nothing when the
/// synthesized URL cannot be validated.
pub open spec fn owner_link_of(owner: Seq<char>) -> Option<LinkV> {
    match uri_norm_of(owner_candidate(owner)) {
        Some(u) => Some(LinkV { platform: PlatformV::Github, uri: u }),
        None => None,
    }
}

/// Whether an alias aborts the run: a repository reply holding a link entry
/// without a platform or without a URL.
pub open spec fn alias_fatal(src: SourceV, rep: AliasReplyV) -> bool {
    &&& src matches SourceV::Repo { .. }
    &&& rep matches AliasReplyV::RepoLinks(raws) && raw_fatal(raws)
}

/// The links one alias contributes.
pub open spec fn alias_links(src: SourceV, rep: AliasReplyV) -> Seq<LinkV> {
    match rep {
        AliasReplyV::Absent => Seq::empty(),
        AliasReplyV::RepoLinks(raws) => if src matches SourceV::Repo { .. } {
            links_of_raws(raws)
        } else {
            Seq::empty()
        },
        AliasReplyV::OwnerListed => match src {
            SourceV::Owner { owner } => match owner_link_of(owner) {
                Some(l) => seq![l],
                None => Seq::empty(),
            },
            _ => Seq::empty(),
        },
    }
}

/// Adding one alias's links to the set of every package sharing its source.
pub open spec fn insert_all(resolved: Seq<Set<LinkV>>, pkgs: Seq<int>, links: Seq<LinkV>) -> Seq<
    Set<LinkV>,
> {
    Seq::new(
        resolved.len(),
        |p: int|
            if pkgs.contains(p) {
                resolved[p].union(links.to_set())
            } else {
                resolved[p]
            },
    )
}

/// The per-package link sets after the first `i` aliases.
pub open spec fn resolve_model(
    entries: Seq<SourceEntryV>,
    replies: Seq<AliasReplyV>,
    n: int,
    i: int,
) -> Seq<Set<LinkV>>
    decreases i,
{
    if i <= 0 {
        Seq::new(n as nat, |p: int| Set::empty())
    } else {
        let prev = resolve_model(entries, replies, n, i - 1);
        insert_all(prev, entries[i - 1].pkgs, alias_links(entries[i - 1].source, replies[i - 1]))
    }
}

/// Whether any alias aborts the run.
pub open spec fn any_fatal(entries: Seq<SourceEntryV>, replies: Seq<AliasReplyV>) -> bool {
    exists|j: int|
        0 <= j < entries.len() && alias_fatal(
            (#[trigger] entries[j]).source,
            #[trigger] replies[j],
        )
}

/// The per-package sets of a resolved map held as sorted vectors.
pub open spec fn resolved_sets(rs: Seq<Vec<Link>>) -> Seq<Set<LinkV>> {
    rs.map_values(|v: Vec<Link>| link_views(v@).to_set())
}

/// Every package's link vector is strictly sorted: the canonical form.
pub open spec fn resolved_wf(rs: Seq<Vec<Link>>) -> bool {
    forall|p: int| 0 <= p < rs.len() ==> sorted_links(link_views(#[trigger] rs[p]@))
}

/// Appending one raw link to a list that extracted cleanly.
pub proof fn lemma_links_of_raws_snoc(raws: Seq<RawLinkV>, r: RawLinkV)
    ensures
        raw_fatal(raws.push(r)) == (raw_fatal(raws) || r.platform is None || r.url is None),
        !raw_fatal(raws.push(r)) ==> links_of_raws(raws.push(r)) == links_of_raws(raws) + (match (
            r.platform,
            r.url,
        ) {
            (Some(p), Some(u)) => match link_of_pair(p, u) {
                Some(l) => seq![l],
                None => Seq::<LinkV>::empty(),
            },
            _ => Seq::<LinkV>::empty(),
        }),
    decreases raws.len(),
{
    let s = raws.push(r);
    assert(raw_fatal(s) == (raw_fatal(raws) || r.platform is None || r.url is None)) by {
        if raw_fatal(raws) {
            let i = choose|i: int|
                0 <= i < raws.len() && ((#[trigger] raws[i].platform) is None || raws[i].url
                    is None);
            assert(s[i] == raws[i]);
        }
        if r.platform is None || r.url is None {
            assert(s[raws.len() as int] == r);
        }
        if raw_fatal(s) {
            let i = choose|i: int|
                0 <= i < s.len() && ((#[trigger] s[i].platform) is None || s[i].url is None);
            if i < raws.len() {
                assert(raws[i] == s[i]);
            } else {
                assert(s[i] == r);
            }
        }
    }
    if !raw_fatal(s) {
        let tail = match (r.platform, r.url) {
            (Some(p), Some(u)) => match link_of_pair(p, u) {
                Some(l) => seq![l],
                None => Seq::<LinkV>::empty(),
            },
            _ => Seq::<LinkV>::empty(),
        };
        if raws.len() == 0 {
            assert(s[0] == r);
            assert(s.drop_first() =~= Seq::<RawLinkV>::empty());
            assert(links_of_raws(Seq::<RawLinkV>::empty()) == Seq::<LinkV>::empty());
            assert(links_of_raws(s) =~= tail);
            assert(links_of_raws(raws) + tail =~= tail);
        } else {
            assert(s[0] == raws[0]);
            assert(s.drop_first() =~= raws.drop_first().push(r));
            lemma_links_of_raws_snoc(raws.drop_first(), r);
            assert(!raw_fatal(raws.drop_first())) by {
                if raw_fatal(raws.drop_first()) {
                    let i = choose|i: int|
                        0 <= i < raws.drop_first().len() && ((#[trigger] raws.drop_first(
                        )[i].platform) is None || raws.drop_first()[i].url is None);
                    assert(raws[i + 1] == raws.drop_first()[i]);
                }
            }
            let rest = links_of_raws(raws.drop_first());
            match (raws[0].platform, raws[0].url) {
                (Some(p), Some(u)) => {
                    match link_of_pair(p, u) {
                        Some(l) => {
                            assert(seq![l] + (rest + tail) =~= (seq![l] + rest) + tail);
                        },
                        None => {},
                    }
                },
                _ => {
                    assert(raws[0].platform is None || raws[0].url is None);
                    assert(s[0] == raws[0]);
                    assert(raw_fatal(s));
                },
            }
        }
    }
}

/// Extracts the usable links of one repository alias, in order; fails when
/// some entry lacks a field the forge promises.
#[verifier::loop_isolation(false)]
pub fn extract_repo_links(raws: &Vec<RawLink>) -> (r: Result<Vec<Link>, FundError>)
    ensures
        ({
            let rv = raw_views(raws@);
            match r {
                Ok(v) => !raw_fatal(rv) && link_views(v@) == links_of_raws(rv),
                Err(e) => raw_fatal(rv) && e@ == ErrorV::MalformedResponse,
            }
        }),
{
    let ghost rv = raw_views(raws@);
    let mut out: Vec<Link> = Vec::new();
    let mut i: usize = 0;
    proof {
        assert(rv.take(0) =~= Seq::<RawLinkV>::empty());
        assert(link_views(out@) =~= Seq::<LinkV>::empty());
    }
    while i < raws.len()
        invariant
            i <= raws@.len(),
            !raw_fatal(rv.take(i as int)),
            link_views(out@) == links_of_raws(rv.take(i as int)),
        decreases raws@.len() - i,
    {
        proof {
            lemma_links_of_raws_snoc(rv.take(i as int), rv[i as int]);
            assert(rv.take(i as int).push(rv[i as int]) =~= rv.take(i + 1));
        }
        let entry = &raws[i];
        proof {
            assert(entry@ == rv[i as int]);
        }
        let platform = match &entry.platform {
            Some(p) => p,
            None => {
                proof {
                    assert(rv[i as int].platform is None);
                }
                return Err(FundError::MalformedResponse);
            },
        };
        let url = match &entry.url {
            Some(u) => u,
            None => {
                proof {
                    assert(rv[i as int].url is None);
                }
                return Err(FundError::MalformedResponse);
            },
        };
        let ghost obefore = out@;
        match Link::from_pair(platform.as_str(), url.as_str()) {
            Some(l) => {
                out.push(l);
                proof {
                    assert(link_views(out@) =~= link_views(obefore).push(
                        link_of_pair(platform@, url@)->Some_0,
                    ));
                    assert(links_of_raws(rv.take(i + 1)) =~= links_of_raws(rv.take(i as int))
                        + seq![link_of_pair(platform@, url@)->Some_0]);
                }
            },
            None => {
                proof {
                    assert(links_of_raws(rv.take(i + 1)) == links_of_raws(rv.take(i as int))
                        + Seq::<LinkV>::empty());
                    assert(links_of_raws(rv.take(i as int)) + Seq::<LinkV>::empty()
                        =~= links_of_raws(rv.take(i as int)));
                }
            },
        }
        i = i + 1;
    }
    proof {
        assert(rv.take(raws@.len() as int) =~= rv);
    }
    Ok(out)
}

/// Builds the synthesized sponsorship link of an owner, or nothing when the
/// URL cannot be validated.
pub fn owner_link(owner: &str) -> (r: Option<Link>)
    ensures
        (r is Some) == (owner_link_of(owner@) is Some),
        r matches Some(l) ==> owner_link_of(owner@) == Some(l@),
{
    let mut s = String::from_str("https://github.com/sponsors/");
    s.append(owner);
    proof {
        assert(s@ == owner_candidate(owner@));
    }
    match parse_normalize_uri(s.as_str()) {
        Some(uri) => Some(Link { platform: crate::platform::Platform::Github, uri }),
        None => None,
    }
}

/// Adds every link of the batch to the set of every named package.
#[verifier::loop_isolation(false)]
fn add_links(resolved: &mut Vec<Vec<Link>>, pkgs: &Vec<usize>, links: &Vec<Link>)
    requires
        resolved_wf(old(resolved)@),
        forall|k: int| 0 <= k < pkgs@.len() ==> #[trigger] pkgs@[k] < old(resolved)@.len(),
    ensures
        final(resolved)@.len() == old(resolved)@.len(),
        resolved_wf(final(resolved)@),
        resolved_sets(final(resolved)@) == insert_all(
            resolved_sets(old(resolved)@),
            pkgs@.map_values(|u: usize| u as int),
            link_views(links@),
        ),
{
    let ghost sets0 = resolved_sets(resolved@);
    let ghost pkgsv = pkgs@.map_values(|u: usize| u as int);
    let ghost linksv = link_views(links@);
    let n = resolved.len();
    let mut k: usize = 0;
    proof {
        assert(resolved_sets(resolved@) =~= insert_all(sets0, pkgsv.take(0), linksv)) by {
            assert forall|q: int| 0 <= q < n implies resolved_sets(resolved@)[q] == insert_all(
                sets0,
                pkgsv.take(0),
                linksv,
            )[q] by {
                assert(!pkgsv.take(0).contains(q));
            }
        }
    }
    while k < pkgs.len()
        invariant
            k <= pkgs@.len(),
            resolved@.len() == n,
            resolved_wf(resolved@),
            resolved_sets(resolved@) == insert_all(sets0, pkgsv.take(k as int), linksv),
        decreases pkgs@.len() - k,
    {
        let p = pkgs[k];
        let ghost before = resolved@;
        let mut row: Vec<Link> = Vec::new();
        resolved.set_and_swap(p, &mut row);
        let ghost row0 = link_views(row@);
        proof {
            assert(row@ == before[p as int]@);
            assert(linksv.take(0).to_set() =~= Set::<LinkV>::empty());
            assert(link_views(row@).to_set() =~= row0.to_set().union(linksv.take(0).to_set()));
        }
        let mut j: usize = 0;
        while j < links.len()
            invariant
                j <= links@.len(),
                sorted_links(link_views(row@)),
                link_views(row@).to_set() == row0.to_set().union(
                    linksv.take(j as int).to_set(),
                ),
            decreases links@.len() - j,
        {
            let l = links[j].duplicate();
            let ghost rbefore = link_views(row@);
            insert_link(&mut row, l);
            proof {
                assert(linksv.take(j + 1) =~= linksv.take(j as int).push(linksv[j as int]));
                assert(linksv.take(j + 1).to_set() =~= linksv.take(j as int).to_set().insert(
                    linksv[j as int],
                )) by {
                    assert forall|x: LinkV| linksv.take(j + 1).to_set().contains(x) implies linksv
                        .take(j as int).to_set().insert(linksv[j as int]).contains(x) by {
                        let m = choose|m: int|
                            0 <= m < linksv.take(j + 1).len() && (#[trigger] linksv.take(j + 1)[m]) == x;
                        if m < j {
                            assert(linksv.take(j as int)[m] == x);
                            assert(linksv.take(j as int).to_set().contains(x));
                        }
                    }
                    assert forall|x: LinkV|
                        linksv.take(j as int).to_set().insert(linksv[j as int]).contains(
                            x,
                        ) implies linksv.take(j + 1).to_set().contains(x) by {
                        if x == linksv[j as int] {
                            assert(linksv.take(j + 1)[j as int] == x);
                        } else {
                            let m = choose|m: int|
                                0 <= m < linksv.take(j as int).len() && (#[trigger] linksv.take(
                                    j as int,
                                )[m]) == x;
                            assert(linksv.take(j + 1)[m] == x);
                        }
                    }
                }
                assert(link_views(row@).to_set() =~= row0.to_set().union(
                    linksv.take(j + 1).to_set(),
                ));
            }
            j = j + 1;
        }
        proof {
            assert(linksv.take(links@.len() as int) =~= linksv);
        }
        resolved.set(p, row);
        proof {
            assert(resolved@ =~= before.update(p as int, resolved@[p as int]));
            assert(pkgsv.take(k + 1) =~= pkgsv.take(k as int).push(p as int));
            assert forall|q: int| 0 <= q < n implies resolved_sets(resolved@)[q] == insert_all(
                sets0,
                pkgsv.take(k + 1),
                linksv,
            )[q] by {
                if q == p as int {
                    assert(resolved@[q] == row);
                    assert(row0.to_set() == resolved_sets(before)[q]);
                    assert(pkgsv.take(k + 1).contains(q)) by {
                        assert(pkgsv.take(k + 1)[k as int] == q);
                    }
                    if pkgsv.take(k as int).contains(q) {
                        assert(resolved_sets(before)[q] == sets0[q].union(linksv.to_set()));
                        assert(link_views(resolved@[q]@).to_set() =~= sets0[q].union(
                            linksv.to_set(),
                        ));
                    } else {
                        assert(resolved_sets(before)[q] == sets0[q]);
                        assert(link_views(resolved@[q]@).to_set() =~= sets0[q].union(
                            linksv.to_set(),
                        ));
                    }
                    assert(insert_all(sets0, pkgsv.take(k + 1), linksv)[q] == sets0[q].union(
                        linksv.to_set(),
                    ));
                    assert(resolved_sets(resolved@)[q] == insert_all(
                        sets0,
                        pkgsv.take(k + 1),
                        linksv,
                    )[q]);
                } else {
                    assert(resolved@[q] == before[q]);
                    assert(pkgsv.take(k + 1).contains(q) == pkgsv.take(k as int).contains(q)) by {
                        if pkgsv.take(k as int).contains(q) {
                            let m = choose|m: int|
                                0 <= m < k && (#[trigger] pkgsv.take(k as int)[m]) == q;
                            assert(pkgsv.take(k + 1)[m] == q);
                        }
                        if pkgsv.take(k + 1).contains(q) {
                            let m = choose|m: int|
                                0 <= m < k + 1 && (#[trigger] pkgsv.take(k + 1)[m]) == q;
                            if m < k {
                                assert(pkgsv.take(k as int)[m] == q);
                            }
                        }
                    }
                    assert(resolved_sets(resolved@)[q] == resolved_sets(before)[q]);
                    assert(resolved_sets(before)[q] == insert_all(
                        sets0,
                        pkgsv.take(k as int),
                        linksv,
                    )[q]);
                    assert(insert_all(sets0, pkgsv.take(k as int), linksv)[q] == insert_all(
                        sets0,
                        pkgsv.take(k + 1),
                        linksv,
                    )[q]);
                    assert(resolved_sets(resolved@)[q] == insert_all(
                        sets0,
                        pkgsv.take(k + 1),
                        linksv,
                    )[q]);
                }
            }
            assert(resolved_sets(resolved@) =~= insert_all(sets0, pkgsv.take(k + 1), linksv));
        }
        k = k + 1;
    }
    proof {
        assert(pkgsv.take(pkgs@.len() as int) =~= pkgsv);
    }
}

/// `insert_all` with no links changes nothing.
pub proof fn lemma_insert_all_empty(resolved: Seq<Set<LinkV>>, pkgs: Seq<int>)
    ensures
        insert_all(resolved, pkgs, Seq::<LinkV>::empty()) == resolved,
{
    assert forall|q: int| 0 <= q < resolved.len() implies insert_all(
        resolved,
        pkgs,
        Seq::<LinkV>::empty(),
    )[q] == resolved[q] by {
        assert(Seq::<LinkV>::empty().to_set() =~= Set::<LinkV>::empty());
        assert(resolved[q].union(Set::<LinkV>::empty()) =~= resolved[q]);
    }
    assert(insert_all(resolved, pkgs, Seq::<LinkV>::empty()) =~= resolved);
}

/// Merges every alias's reply into per-package link sets. The result has
/// one strictly sorted link vector per package; a package out of every
/// alias's reach keeps an empty vector. The only failure is a repository
/// reply with a malformed link entry.
#[verifier::loop_isolation(false)]
pub fn resolve_replies(entries: &Vec<SourceEntry>, replies: &Vec<AliasReply>, n_pkgs: usize) -> (r:
    Result<Vec<Vec<Link>>, FundError>)
    requires
        replies@.len() == entries@.len(),
        entries_in_range(entry_views(entries@), n_pkgs as int),
    ensures
        ({
            let ev = entry_views(entries@);
            let rv = reply_views(replies@);
            match r {
                Ok(v) => !any_fatal(ev, rv) && v@.len() == n_pkgs && resolved_wf(v@)
                    && resolved_sets(v@) == resolve_model(
                    ev,
                    rv,
                    n_pkgs as int,
                    ev.len() as int,
                ),
                Err(e) => any_fatal(ev, rv) && e@ == ErrorV::MalformedResponse,
            }
        }),
{
    let ghost ev = entry_views(entries@);
    let ghost rv = reply_views(replies@);
    let ghost n = n_pkgs as int;
    let mut resolved: Vec<Vec<Link>> = Vec::new();
    let mut p: usize = 0;
    while p < n_pkgs
        invariant
            p <= n_pkgs,
            resolved@.len() == p,
            forall|q: int| 0 <= q < p ==> (#[trigger] resolved@[q])@.len() == 0,
        decreases n_pkgs - p,
    {
        resolved.push(Vec::new());
        p = p + 1;
    }
    proof {
        assert(resolved_sets(resolved@) =~= resolve_model(ev, rv, n, 0)) by {
            assert forall|q: int| 0 <= q < n implies resolved_sets(resolved@)[q] == resolve_model(
                ev,
                rv,
                n,
                0,
            )[q] by {
                assert(link_views(resolved@[q]@) =~= Seq::<LinkV>::empty());
                assert(link_views(resolved@[q]@).to_set() =~= Set::<LinkV>::empty());
            }
        }
    }
    let mut i: usize = 0;
    while i < entries.len()
        invariant
            i <= entries@.len(),
            resolved@.len() == n_pkgs,
            resolved_wf(resolved@),
            forall|j: int| 0 <= j < i ==> !alias_fatal((#[trigger] ev[j]).source, rv[j]),
            resolved_sets(resolved@) == resolve_model(ev, rv, n, i as int),
        decreases entries@.len() - i,
    {
        let entry = &entries[i];
        let reply = &replies[i];
        proof {
            assert(entry@ == ev[i as int]);
            assert(reply@ == rv[i as int]);
        }
        match (&entry.source, reply) {
            (crate::source::GithubLinkSource::Repo { .. }, AliasReply::RepoLinks(raws)) => {
                let links = match extract_repo_links(raws) {
                    Ok(ls) => ls,
                    Err(e) => {
                        proof {
                            assert(alias_fatal(ev[i as int].source, rv[i as int]));
                        }
                        return Err(e);
                    },
                };
                proof {
                    assert(forall|k: int|
                        0 <= k < entry.pkgs@.len() ==> #[trigger] entry.pkgs@[k] < n_pkgs) by {
                        assert(forall|k: int|
                            0 <= k < ev[i as int].pkgs.len() ==> 0 <= #[trigger] ev[
                            i as int].pkgs[k] < n);
                        assert(forall|k: int|
                            0 <= k < entry.pkgs@.len() ==> ev[i as int].pkgs[k] == #[trigger] entry
                                .pkgs@[k] as int);
                    }
                }
                add_links(&mut resolved, &entry.pkgs, &links);
                proof {
                    assert(entry.pkgs@.map_values(|u: usize| u as int) == ev[i as int].pkgs);
                    assert(link_views(links@) == alias_links(ev[i as int].source, rv[i as int]));
                    assert(resolved_sets(resolved@) == resolve_model(ev, rv, n, i + 1));
                }
            },
            (crate::source::GithubLinkSource::Owner { owner }, AliasReply::OwnerListed) => {
                match owner_link(owner.as_str()) {
                    Some(l) => {
                        let mut ls: Vec<Link> = Vec::new();
                        ls.push(l);
                        proof {
                            assert(forall|k: int|
                                0 <= k < entry.pkgs@.len() ==> #[trigger] entry.pkgs@[k]
                                    < n_pkgs) by {
                                assert(forall|k: int|
                                    0 <= k < ev[i as int].pkgs.len() ==> 0 <= #[trigger] ev[
                                    i as int].pkgs[k] < n);
                                assert(forall|k: int|
                                    0 <= k < entry.pkgs@.len() ==> ev[i as int].pkgs[k]
                                        == #[trigger] entry.pkgs@[k] as int);
                            }
                            assert(link_views(ls@) =~= alias_links(
                                ev[i as int].source,
                                rv[i as int],
                            ));
                        }
                        add_links(&mut resolved, &entry.pkgs, &ls);
                        proof {
                            assert(entry.pkgs@.map_values(|u: usize| u as int) == ev[
                            i as int].pkgs);
                            assert(resolved_sets(resolved@) == resolve_model(ev, rv, n, i + 1));
                        }
                    },
                    None => {
                        proof {
                            assert(alias_links(ev[i as int].source, rv[i as int])
                                =~= Seq::<LinkV>::empty());
                            lemma_insert_all_empty(resolved_sets(resolved@), ev[i as int].pkgs);
                            assert(resolved_sets(resolved@) == resolve_model(ev, rv, n, i + 1));
                        }
                    },
                }
            },
            _ => {
                proof {
                    assert(alias_links(ev[i as int].source, rv[i as int])
                        =~= Seq::<LinkV>::empty());
                    lemma_insert_all_empty(resolved_sets(resolved@), ev[i as int].pkgs);
                    assert(resolved_sets(resolved@) == resolve_model(ev, rv, n, i + 1));
                }
            },
        }
        i = i + 1;
    }
    Ok(resolved)
}

/// How many packages resolved to at least one link.
pub open spec fn count_nonempty(rs: Seq<Vec<Link>>) -> int
    decreases rs.len(),
{
    if rs.len() == 0 {
        0
    } else {
        count_nonempty(rs.drop_last()) + (if rs.last()@.len() > 0 {
            1int
        } else {
            0int
        })
    }
}

/// Counts the packages that resolved to at least one link.
#[verifier::loop_isolation(false)]
pub fn count_matched(resolved: &Vec<Vec<Link>>) -> (r: usize)
    ensures
        r as int == count_nonempty(resolved@),
{
    let mut count: usize = 0;
    let mut i: usize = 0;
    proof {
        assert(resolved@.take(0) =~= Seq::<Vec<Link>>::empty());
    }
    while i < resolved.len()
        invariant
            i <= resolved@.len(),
            count <= i,
            count as int == count_nonempty(resolved@.take(i as int)),
        decreases resolved@.len() - i,
    {
        proof {
            assert(resolved@.take(i + 1).drop_last() =~= resolved@.take(i as int));
            assert(resolved@.take(i + 1).last() == resolved@[i as int]);
        }
        if resolved[i].len() > 0 {
            count = count + 1;
        }
        i = i + 1;
    }
    proof {
        assert(resolved@.take(resolved@.len() as int) =~= resolved@);
    }
    count
}

/// The notice a funding link whose URL cannot be used leaves behind.
pub open spec fn link_notice(platform: Seq<char>, url: Seq<char>) -> Seq<char> {
    ("could not parse funding link; skipping: ")@ + platform + (" ")@ + url
}

/// The notice an owner whose sponsorship URL cannot be built leaves behind.
pub open spec fn owner_notice(owner: Seq<char>) -> Seq<char> {
    ("could not create valid owner sponsor link; skipping: ")@ + owner
}

/// The notices the first `i` raw links of a repository reply leave: one per
/// well-formed entry whose URL yields no link.
pub open spec fn raw_notices(raws: Seq<RawLinkV>, i: int) -> Seq<Seq<char>>
    decreases i,
{
    if i <= 0 {
        Seq::empty()
    } else {
        raw_notices(raws, i - 1) + (match (raws[i - 1].platform, raws[i - 1].url) {
            (Some(p), Some(u)) => if link_of_pair(p, u) is None {
                seq![link_notice(p, u)]
            } else {
                Seq::<Seq<char>>::empty()
            },
            _ => Seq::<Seq<char>>::empty(),
        })
    }
}

/// The notices one alias leaves behind for links it had to drop.
pub open spec fn alias_notices(src: SourceV, rep: AliasReplyV) -> Seq<Seq<char>> {
    match rep {
        AliasReplyV::RepoLinks(raws) => if src matches SourceV::Repo { .. } {
            raw_notices(raws, raws.len() as int)
        } else {
            Seq::empty()
        },
        AliasReplyV::OwnerListed => match src {
            SourceV::Owner { owner } => if owner_link_of(owner) is None {
                seq![owner_notice(owner)]
            } else {
                Seq::empty()
            },
            _ => Seq::empty(),
        },
        AliasReplyV::Absent => Seq::empty(),
    }
}

/// The drop notices of the first `i` aliases, in order.
pub open spec fn notices_model(
    entries: Seq<SourceEntryV>,
    replies: Seq<AliasReplyV>,
    i: int,
) -> Seq<Seq<char>>
    decreases i,
{
    if i <= 0 {
        Seq::empty()
    } else {
        notices_model(entries, replies, i - 1) + alias_notices(
            entries[i - 1].source,
            replies[i - 1],
        )
    }
}

/// Builds the notice for one dropped funding link.
fn make_link_notice(platform: &str, url: &str) -> (r: String)
    ensures
        r@ == link_notice(platform@, url@),
{
    let mut r = String::from_str("could not parse funding link; skipping: ");
    r.append(platform);
    r.append(" ");
    r.append(url);
    proof {
        assert(r@ =~= link_notice(platform@, url@));
    }
    r
}

/// Collects the notices of every recoverable drop: a funding link whose URL
/// could not be used, or an owner whose sponsorship URL could not be built.
/// These are logged, never surfaced as failures.
#[verifier::loop_isolation(false)]
pub fn dropped_link_notices(entries: &Vec<SourceEntry>, replies: &Vec<AliasReply>) -> (r: Vec<
    String,
>)
    requires
        replies@.len() == entries@.len(),
    ensures
        r@.map_values(|t: String| t@) == notices_model(
            entry_views(entries@),
            reply_views(replies@),
            entries@.len() as int,
        ),
{
    let ghost ev = entry_views(entries@);
    let ghost rv = reply_views(replies@);
    let mut out: Vec<String> = Vec::new();
    let mut i: usize = 0;
    proof {
        assert(out@.map_values(|t: String| t@) =~= notices_model(ev, rv, 0));
    }
    while i < entries.len()
        invariant
            i <= entries@.len(),
            out@.map_values(|t: String| t@) == notices_model(ev, rv, i as int),
        decreases entries@.len() - i,
    {
        let ghost ostart = out@;
        proof {
            assert(ev[i as int] == entries@[i as int]@);
            assert(rv[i as int] == replies@[i as int]@);
        }
        match (&entries[i].source, &replies[i]) {
            (crate::source::GithubLinkSource::Repo { .. }, AliasReply::RepoLinks(raws)) => {
                let ghost raws_v = raw_views(raws@);
                let mut k: usize = 0;
                proof {
                    assert(out@.map_values(|t: String| t@) =~= notices_model(ev, rv, i as int)
                        + raw_notices(raws_v, 0));
                }
                while k < raws.len()
                    invariant
                        k <= raws@.len(),
                        out@.map_values(|t: String| t@) == notices_model(ev, rv, i as int)
                            + raw_notices(raws_v, k as int),
                    decreases raws@.len() - k,
                {
                    let ghost kstart = out@;
                    let entry = &raws[k];
                    proof {
                        assert(entry@ == raws_v[k as int]);
                    }
                    if let (Some(p), Some(u)) = (&entry.platform, &entry.url) {
                        if Link::from_pair(p.as_str(), u.as_str()).is_none() {
                            let notice = make_link_notice(p.as_str(), u.as_str());
                            out.push(notice);
                            proof {
                                assert(out@.map_values(|t: String| t@) =~= kstart.map_values(
                                    |t: String| t@,
                                ).push(link_notice(p@, u@)));
                                assert(notices_model(ev, rv, i as int) + raw_notices(
                                    raws_v,
                                    k + 1,
                                ) =~= (notices_model(ev, rv, i as int) + raw_notices(
                                    raws_v,
                                    k as int,
                                )).push(link_notice(p@, u@)));
                            }
                        } else {
                            proof {
                                assert(raw_notices(raws_v, k + 1) =~= raw_notices(
                                    raws_v,
                                    k as int,
                                ) + Seq::<Seq<char>>::empty());
                                assert(notices_model(ev, rv, i as int) + raw_notices(raws_v, k + 1)
                                    =~= notices_model(ev, rv, i as int) + raw_notices(
                                    raws_v,
                                    k as int,
                                ));
                            }
                        }
                    } else {
                        proof {
                            assert(raw_notices(raws_v, k + 1) =~= raw_notices(raws_v, k as int)
                                + Seq::<Seq<char>>::empty());
                            assert(notices_model(ev, rv, i as int) + raw_notices(raws_v, k + 1)
                                =~= notices_model(ev, rv, i as int) + raw_notices(
                                raws_v,
                                k as int,
                            ));
                        }
                    }
                    k = k + 1;
                }
                proof {
                    assert(raw_notices(raws_v, raws@.len() as int) == alias_notices(
                        ev[i as int].source,
                        rv[i as int],
                    ));
                    assert(out@.map_values(|t: String| t@) =~= notices_model(ev, rv, i + 1));
                }
            },
            (crate::source::GithubLinkSource::Owner { owner }, AliasReply::OwnerListed) => {
                if owner_link(owner.as_str()).is_none() {
                    let mut notice = String::from_str(
                        "could not create valid owner sponsor link; skipping: ",
                    );
                    notice.append(owner.as_str());
                    proof {
                        assert(notice@ =~= owner_notice(owner@));
                    }
                    out.push(notice);
                    proof {
                        assert(out@.map_values(|t: String| t@) =~= ostart.map_values(
                            |t: String| t@,
                        ).push(owner_notice(owner@)));
                        assert(notices_model(ev, rv, i + 1) =~= notices_model(
                            ev,
                            rv,
                            i as int,
                        ).push(owner_notice(owner@)));
                    }
                } else {
                    proof {
                        assert(alias_notices(ev[i as int].source, rv[i as int])
                            =~= Seq::<Seq<char>>::empty());
                        assert(notices_model(ev, rv, i + 1) =~= notices_model(ev, rv, i as int));
                    }
                }
            },
            _ => {
                proof {
                    assert(alias_notices(ev[i as int].source, rv[i as int])
                        =~= Seq::<Seq<char>>::empty());
                    assert(notices_model(ev, rv, i + 1) =~= notices_model(ev, rv, i as int));
                }
            },
        }
        i = i + 1;
    }
    out
}

/// What a whole transport response resolves to: the status decides first;
/// a body that is not JSON is malformed; a fatal error entry aborts with
/// its classification; a malformed funding-link entry aborts as malformed;
/// otherwise the per-package link sets together with the recoverable
/// warnings — the `NOT_FOUND` messages, then the drop notices, in order.
pub open spec fn response_model(
    entries: Seq<SourceEntryV>,
    n: int,
    status: u16,
    body: Seq<char>,
) -> Result<(Seq<Set<LinkV>>, Seq<Seq<char>>), ErrorV> {
    match status_model(status) {
        Err(e) => Err(e),
        Ok(_) => match errors_of(body) {
            None => Err(ErrorV::MalformedResponse),
            Some(errs) => match classify_model(errs) {
                Err(e) => Err(e),
                Ok(warns) => {
                    let replies = replies_model(body, entries);
                    if any_fatal(entries, replies) {
                        Err(ErrorV::MalformedResponse)
                    } else {
                        Ok(
                            (
                                resolve_model(entries, replies, n, entries.len() as int),
                                warns + notices_model(entries, replies, entries.len() as int),
                            ),
                        )
                    }
                },
            },
        },
    }
}

/// Resolves a transport response end to end: validates the status, decodes
/// the body's error list and per-alias payloads, classifies, and merges
/// everything into the per-package link sets. The result is exactly
/// `response_model` of the inputs: success comes if and only if the status
/// is 200, the body parses, no error entry is fatal and no funding-link
/// entry is malformed, and then the resolved map and the warnings are the
/// model's.
pub fn resolve_response(entries: &Vec<SourceEntry>, n_pkgs: usize, status: u16, body: &str) -> (r:
    Result<(Vec<Vec<Link>>, Vec<String>), FundError>)
    requires
        entries_in_range(entry_views(entries@), n_pkgs as int),
    ensures
        ({
            let m = response_model(entry_views(entries@), n_pkgs as int, status, body@);
            match r {
                Ok(p) => m is Ok && p.0@.len() == n_pkgs && resolved_wf(p.0@) && resolved_sets(
                    p.0@,
                ) == m->Ok_0.0 && p.1@.map_values(|t: String| t@) == m->Ok_0.1,
                Err(e) => m is Err && e@ == m->Err_0,
            }
        }),
{
    let ghost ev = entry_views(entries@);
    match check_status(status) {
        Ok(_) => (),
        Err(e) => {
            return Err(e);
        },
    }
    let errors = match body_errors(body) {
        Some(e) => e,
        None => {
            return Err(FundError::MalformedResponse);
        },
    };
    let mut warnings = match classify_errors(&errors) {
        Ok(w) => w,
        Err(e) => {
            return Err(e);
        },
    };
    let replies = decode_replies(body, entries);
    proof {
        assert(reply_views(replies@) == replies_model(body@, ev));
    }
    let resolved = match resolve_replies(entries, &replies, n_pkgs) {
        Ok(v) => v,
        Err(e) => {
            return Err(e);
        },
    };
    let ghost warns0 = warnings@;
    let mut notices = dropped_link_notices(entries, &replies);
    let ghost notices_v = notices@;
    warnings.append(&mut notices);
    proof {
        assert(warnings@.map_values(|t: String| t@) =~= warns0.map_values(|t: String| t@)
            + notices_v.map_values(|t: String| t@));
    }
    Ok((resolved, warnings))
}

} // verus!
