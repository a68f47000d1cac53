//! Candidate forge sources for a package: its repository, and the owner of
//! that repository, each of which can publish funding information on its own.

use crate::error::{ErrorV, FundError};
use crate::text::{split_all, split_char, str_eq, trim_git, trim_git_suffix};
use vstd::prelude::*;

verus! {

/// A place on the forge that may carry funding data: a repository, or an
/// owner's profile.
#[derive(Clone, Debug, Hash, PartialEq, Eq)]
pub enum GithubLinkSource {
    Repo { owner: String, name: String },
    Owner { owner: String },
}

/// The mathematical value of a `GithubLinkSource`.
pub enum SourceV {
    Repo { owner: Seq<char>, name: Seq<char> },
    Owner { owner: Seq<char> },
}

impl View for GithubLinkSource {
    type V = SourceV;

    open spec fn view(&self) -> SourceV {
        match self {
            GithubLinkSource::Repo { owner, name } => SourceV::Repo { owner: owner@, name: name@ },
            GithubLinkSource::Owner { owner } => SourceV::Owner { owner: owner@ },
        }
    }
}

/// The owner either kind of source belongs to.
pub open spec fn source_owner(s: SourceV) -> Seq<char> {
    match s {
        SourceV::Repo { owner, .. } => owner,
        SourceV::Owner { owner } => owner,
    }
}

impl GithubLinkSource {
    /// The owner this source belongs to.
    pub fn owner(&self) -> (r: &str)
        ensures
            r@ == source_owner(self@),
    {
        match self {
            GithubLinkSource::Repo { owner, .. } => owner.as_str(),
            GithubLinkSource::Owner { owner } => owner.as_str(),
        }
    }

    /// An owned copy of the source.
    pub fn duplicate(&self) -> (r: GithubLinkSource)
        ensures
            r@ == self@,
    {
        match self {
            GithubLinkSource::Repo { owner, name } => GithubLinkSource::Repo {
                owner: owner.clone(),
                name: name.clone(),
            },
            GithubLinkSource::Owner { owner } => GithubLinkSource::Owner { owner: owner.clone() },
        }
    }

    /// Whether two sources name the same place.
    pub fn same_as(&self, other: &GithubLinkSource) -> (r: bool)
        ensures
            r == (self@ == other@),
    {
        match (self, other) {
            (
                GithubLinkSource::Repo { owner: oa, name: na },
                GithubLinkSource::Repo { owner: ob, name: nb },
            ) => str_eq(oa.as_str(), ob.as_str()) && str_eq(na.as_str(), nb.as_str()),
            (GithubLinkSource::Owner { owner: oa }, GithubLinkSource::Owner { owner: ob }) => str_eq(
                oa.as_str(),
                ob.as_str(),
            ),
            _ => false,
        }
    }
}

/// One dependency as the metadata collaborator reports it: identity, the
/// name and version shown in the tree, an optional repository URL, and
/// whether the package belongs to the local workspace.
#[derive(Clone, Debug, PartialEq, Eq)]
pub struct PackageInfo {
    pub id: String,
    pub name: String,
    pub version: String,
    pub repository: Option<String>,
    pub workspace_member: bool,
}

/// The mathematical value of a `PackageInfo`.
pub struct PackageInfoV {
    pub id: Seq<char>,
    pub name: Seq<char>,
    pub version: Seq<char>,
    pub repository: Option<Seq<char>>,
    pub workspace_member: bool,
}

impl View for PackageInfo {
    type V = PackageInfoV;

    open spec fn view(&self) -> PackageInfoV {
        PackageInfoV {
            id: self.id@,
            name: self.name@,
            version: self.version@,
            repository: match self.repository {
                Some(s) => Some(s@),
                None => None,
            },
            workspace_member: self.workspace_member,
        }
    }
}

/// The mathematical values of a package vector.
pub open spec fn package_views(s: Seq<PackageInfo>) -> Seq<PackageInfoV> {
    s.map_values(|p: PackageInfo| p@)
}

/// The mathematical values of a source vector.
pub open spec fn source_views(s: Seq<GithubLinkSource>) -> Seq<SourceV> {
    s.map_values(|x: GithubLinkSource| x@)
}

/// What splitting a URL comes to: nothing when it does not parse, else its
/// authority (when present) and its path.
pub uninterp spec fn url_split_of(s: Seq<char>) -> Option<(Option<Seq<char>>, Seq<char>)>;

/// The view of an optional string.
pub open spec fn opt_str_view(o: Option<String>) -> Option<Seq<char>> {
    match o {
        Some(s) => Some(s@),
        None => None,
    }
}

/// Relies on `http::Uri`'s parser, `Uri::authority` and `Uri::path`: parsing
/// either fails or yields authority and path strings that depend on the
/// input characters alone.
#[verifier::external_body]
fn split_url(s: &str) -> (r: Option<(Option<String>, String)>)
    ensures
        (r is Some) == (url_split_of(s@) is Some),
        r matches Some(p) ==> url_split_of(s@) == Some((opt_str_view(p.0), p.1@)),
{
    match s.parse::<http::Uri>() {
        Ok(u) => {
            let auth = match u.authority() {
                Some(a) => Some(a.as_str().to_string()),
                None => None,
            };
            Some((auth, u.path().to_string()))
        },
        Err(_) => None,
    }
}

/// The sources a path on the forge's host yields: its second and third
/// slash-separated components name the owner and the repository (the path
/// begins with a slash, so the first component is empty); a trailing
/// `".git"` is trimmed from the repository name. A shorter path yields
/// nothing.
pub open spec fn github_path_sources(path: Seq<char>) -> Option<Seq<SourceV>> {
    let segs = split_char(path, '/');
    if segs.len() >= 3 {
        let owner = segs[1];
        let name = trim_git(segs[2]);
        Some(seq![SourceV::Repo { owner, name }, SourceV::Owner { owner }])
    } else {
        None
    }
}

/// The sources a package's optional repository URL yields. No URL, or a URL
/// on another host, yields no source; a URL that does not parse, or one on
/// the forge's host whose path names no repository, is a fatal error.
pub open spec fn sources_of_repo(repo: Option<Seq<char>>) -> Result<Seq<SourceV>, ErrorV> {
    match repo {
        None => Ok(Seq::empty()),
        Some(s) => match url_split_of(s) {
            None => Err(ErrorV::InvalidRepoUrl(s)),
            Some((auth, path)) => {
                if auth == Some(("github.com")@) || auth == Some(("www.github.com")@) {
                    match github_path_sources(path) {
                        Some(ss) => Ok(ss),
                        None => Err(ErrorV::NotGithubUri(s)),
                    }
                } else {
                    Ok(Seq::empty())
                }
            },
        },
    }
}

/// Derives the candidate sources from a package's repository URL.
pub fn try_get_sources(repo: &Option<String>) -> (r: Result<Vec<GithubLinkSource>, FundError>)
    ensures
        ({
            let m = sources_of_repo(opt_str_view(*repo));
            match r {
                Ok(v) => m is Ok && source_views(v@) == m->Ok_0,
                Err(e) => m is Err && e@ == m->Err_0,
            }
        }),
{
    let url = match repo {
        Some(u) => u,
        None => {
            let v: Vec<GithubLinkSource> = Vec::new();
            proof {
                assert(source_views(v@) =~= Seq::<SourceV>::empty());
            }
            return Ok(v);
        },
    };
    let parts = match split_url(url.as_str()) {
        Some(p) => p,
        None => {
            return Err(FundError::InvalidRepoUrl(url.clone()));
        },
    };
    let on_github = match &parts.0 {
        Some(a) => str_eq(a.as_str(), "github.com") || str_eq(a.as_str(), "www.github.com"),
        None => false,
    };
    if !on_github {
        let v: Vec<GithubLinkSource> = Vec::new();
        proof {
            assert(source_views(v@) =~= Seq::<SourceV>::empty());
        }
        return Ok(v);
    }
    let segs = split_all(parts.1.as_str(), '/');
    if segs.len() >= 3 {
        let owner = segs[1].clone();
        let name = trim_git_suffix(segs[2].as_str());
        let mut v: Vec<GithubLinkSource> = Vec::new();
        v.push(GithubLinkSource::Repo { owner: owner.clone(), name });
        v.push(GithubLinkSource::Owner { owner });
        proof {
            let m = sources_of_repo(opt_str_view(*repo));
            assert(segs@.map_values(|t: String| t@)[1] == segs@[1]@);
            assert(segs@.map_values(|t: String| t@)[2] == segs@[2]@);
            assert(source_views(v@) =~= m->Ok_0);
        }
        Ok(v)
    } else {
        Err(FundError::NotGithubUri(url.clone()))
    }
}

/// One source together with the packages discovered to share it. The order
/// of entries is the order sources were first seen in, so that alias
/// assignment is reproducible for a given package list.
#[derive(Clone, Debug)]
pub struct SourceEntry {
    pub source: GithubLinkSource,
    pub pkgs: Vec<usize>,
}

/// The mathematical value of a `SourceEntry`.
pub struct SourceEntryV {
    pub source: SourceV,
    pub pkgs: Seq<int>,
}

impl View for SourceEntry {
    type V = SourceEntryV;

    open spec fn view(&self) -> SourceEntryV {
        SourceEntryV { source: self.source@, pkgs: self.pkgs@.map_values(|u: usize| u as int) }
    }
}

/// The mathematical values of a source-map vector.
pub open spec fn entry_views(s: Seq<SourceEntry>) -> Seq<SourceEntryV> {
    s.map_values(|e: SourceEntry| e@)
}

/// Index of the first entry holding this source, or -1.
pub open spec fn find_source(m: Seq<SourceEntryV>, s: SourceV) -> int
    decreases m.len(),
{
    if m.len() == 0 {
        -1
    } else if m[0].source == s {
        0
    } else {
        let r = find_source(m.drop_first(), s);
        if r < 0 {
            -1
        } else {
            r + 1
        }
    }
}

pub proof fn lemma_find_source_props(m: Seq<SourceEntryV>, s: SourceV)
    ensures
        -1 <= find_source(m, s) < m.len(),
        find_source(m, s) >= 0 ==> m[find_source(m, s)].source == s,
        find_source(m, s) == -1 ==> forall|j: int| 0 <= j < m.len() ==> m[j].source != s,
    decreases m.len(),
{
    if m.len() > 0 && m[0].source != s {
        lemma_find_source_props(m.drop_first(), s);
        if find_source(m.drop_first(), s) == -1 {
            assert forall|j: int| 0 <= j < m.len() implies m[j].source != s by {
                if j > 0 {
                    assert(m.drop_first()[j - 1] == m[j]);
                }
            }
        }
    }
}

/// The first match decides `find_source`.
pub proof fn lemma_find_source_at(m: Seq<SourceEntryV>, s: SourceV, j: int)
    requires
        0 <= j < m.len(),
        m[j].source == s,
        forall|k: int| 0 <= k < j ==> m[k].source != s,
    ensures
        find_source(m, s) == j,
    decreases j,
{
    if j > 0 {
        lemma_find_source_at(m.drop_first(), s, j - 1);
    }
}

/// Recording that package `p` uses source `s`: extend the source's package
/// list (first occurrence of the source opens a new entry; a package already
/// recorded for it is not repeated).
pub open spec fn add_pkg(m: Seq<SourceEntryV>, s: SourceV, p: int) -> Seq<SourceEntryV> {
    let j = find_source(m, s);
    if j < 0 {
        m.push(SourceEntryV { source: s, pkgs: seq![p] })
    } else if m[j].pkgs.contains(p) {
        m
    } else {
        m.update(j, SourceEntryV { source: s, pkgs: m[j].pkgs.push(p) })
    }
}

/// Recording every source of one package.
pub open spec fn add_sources(m: Seq<SourceEntryV>, ss: Seq<SourceV>, p: int) -> Seq<SourceEntryV>
    decreases ss.len(),
{
    if ss.len() == 0 {
        m
    } else {
        add_sources(add_pkg(m, ss[0], p), ss.drop_first(), p)
    }
}

/// The source map after the first `i` packages: workspace members are
/// skipped, every other package contributes the sources its repository URL
/// yields, and the first fatal error aborts the collection.
pub open spec fn collect_model(pkgs: Seq<PackageInfoV>, i: int) -> Result<
    Seq<SourceEntryV>,
    ErrorV,
>
    decreases i,
{
    if i <= 0 {
        Ok(Seq::empty())
    } else {
        match collect_model(pkgs, i - 1) {
            Err(e) => Err(e),
            Ok(m) => {
                let pk = pkgs[i - 1];
                if pk.workspace_member {
                    Ok(m)
                } else {
                    match sources_of_repo(pk.repository) {
                        Err(e) => Err(e),
                        Ok(ss) => Ok(add_sources(m, ss, i - 1)),
                    }
                }
            },
        }
    }
}

/// Every recorded package index lies below `n`.
pub open spec fn entries_in_range(m: Seq<SourceEntryV>, n: int) -> bool {
    forall|j: int, k: int|
        0 <= j < m.len() && 0 <= k < m[j].pkgs.len() ==> 0 <= #[trigger] m[j].pkgs[k] < n
}

pub proof fn lemma_add_pkg_range(m: Seq<SourceEntryV>, s: SourceV, p: int, n: int)
    requires
        entries_in_range(m, n),
        0 <= p < n,
    ensures
        entries_in_range(add_pkg(m, s, p), n),
{
    lemma_find_source_props(m, s);
}

pub proof fn lemma_add_sources_range(m: Seq<SourceEntryV>, ss: Seq<SourceV>, p: int, n: int)
    requires
        entries_in_range(m, n),
        0 <= p < n,
    ensures
        entries_in_range(add_sources(m, ss, p), n),
    decreases ss.len(),
{
    if ss.len() > 0 {
        lemma_add_pkg_range(m, ss[0], p, n);
        lemma_add_sources_range(add_pkg(m, ss[0], p), ss.drop_first(), p, n);
    }
}

pub proof fn lemma_collect_range(pkgs: Seq<PackageInfoV>, i: int)
    requires
        0 <= i <= pkgs.len(),
    ensures
        collect_model(pkgs, i) matches Ok(m) ==> entries_in_range(m, pkgs.len() as int),
    decreases i,
{
    if i > 0 {
        lemma_collect_range(pkgs, i - 1);
        if let Ok(m) = collect_model(pkgs, i - 1) {
            let pk = pkgs[i - 1];
            if !pk.workspace_member {
                if let Ok(ss) = sources_of_repo(pk.repository) {
                    lemma_add_sources_range(m, ss, i - 1, pkgs.len() as int);
                }
            }
        }
    }
}

/// Whether a package-index vector holds `p`.
#[verifier::loop_isolation(false)]
fn contains_pkg(v: &Vec<usize>, p: usize) -> (r: bool)
    ensures
        r == v@.map_values(|u: usize| u as int).contains(p as int),
{
    let mut i: usize = 0;
    while i < v.len()
        invariant
            i <= v@.len(),
            forall|k: int| 0 <= k < i ==> v@[k] != p,
        decreases v@.len() - i,
    {
        if v[i] == p {
            assert(v@.map_values(|u: usize| u as int)[i as int] == p as int);
            return true;
        }
        i = i + 1;
    }
    proof {
        let mv = v@.map_values(|u: usize| u as int);
        if mv.contains(p as int) {
            let k = choose|k: int| 0 <= k < mv.len() && mv[k] == p as int;
            assert(v@[k] != p);
            assert(mv[k] == v@[k] as int);
        }
    }
    false
}

/// Records that package `p` uses source `s`.
#[verifier::loop_isolation(false)]
fn add_pkg_to_map(m: &mut Vec<SourceEntry>, s: GithubLinkSource, p: usize)
    ensures
        entry_views(final(m)@) == add_pkg(entry_views(old(m)@), s@, p as int),
{
    let ghost m0 = entry_views(m@);
    let mut j: usize = 0;
    while j < m.len()
        invariant
            j <= m@.len(),
            m@ == old(m)@,
            forall|k: int| 0 <= k < j ==> m0[k].source != s@,
        decreases m@.len() - j,
    {
        if m[j].source.same_as(&s) {
            proof {
                assert(m0[j as int].source == s@);
                lemma_find_source_at(m0, s@, j as int);
            }
            if !contains_pkg(&m[j].pkgs, p) {
                let mut ent = m.remove(j);
                ent.pkgs.push(p);
                proof {
                    assert(ent@.pkgs =~= m0[j as int].pkgs.push(p as int));
                }
                m.insert(j, ent);
                proof {
                    assert(entry_views(m@) =~= add_pkg(m0, s@, p as int));
                }
            } else {
                proof {
                    assert(entry_views(m@) =~= add_pkg(m0, s@, p as int));
                }
            }
            return ;
        }
        proof {
            assert(m0[j as int] == entry_views(m@)[j as int]);
        }
        j = j + 1;
    }
    proof {
        lemma_find_source_props(m0, s@);
        if find_source(m0, s@) >= 0 {
            assert(false);
        }
    }
    let mut pkgs: Vec<usize> = Vec::new();
    pkgs.push(p);
    let ent = SourceEntry { source: s, pkgs };
    proof {
        assert(ent@.pkgs =~= seq![p as int]);
    }
    m.push(ent);
    proof {
        assert(entry_views(m@) =~= add_pkg(m0, s@, p as int));
    }
}

/// Collects the sources of every dependency outside the workspace, keyed by
/// source, each with the packages that share it.
#[verifier::loop_isolation(false)]
pub fn collect_sources(packages: &Vec<PackageInfo>) -> (r: Result<Vec<SourceEntry>, FundError>)
    ensures
        ({
            let model = collect_model(package_views(packages@), packages@.len() as int);
            match r {
                Ok(v) => model is Ok && entry_views(v@) == model->Ok_0 && entries_in_range(
                    entry_views(v@),
                    packages@.len() as int,
                ),
                Err(e) => model is Err && e@ == model->Err_0,
            }
        }),
{
    let ghost pv = package_views(packages@);
    let mut m: Vec<SourceEntry> = Vec::new();
    let mut i: usize = 0;
    proof {
        assert(entry_views(m@) =~= Seq::<SourceEntryV>::empty());
    }
    while i < packages.len()
        invariant
            i <= packages@.len(),
            collect_model(pv, i as int) is Ok,
            entry_views(m@) == collect_model(pv, i as int)->Ok_0,
        decreases packages@.len() - i,
    {
        let pk = &packages[i];
        proof {
            assert(pv[i as int] == pk@);
        }
        if !pk.workspace_member {
            let ss = match try_get_sources(&pk.repository) {
                Ok(ss) => ss,
                Err(e) => {
                    proof {
                        assert(pk@.repository == opt_str_view(pk.repository));
                        assert(sources_of_repo(pv[i as int].repository) is Err);
                        assert(e@ == sources_of_repo(pv[i as int].repository)->Err_0);
                        assert(collect_model(pv, i + 1) == Err::<Seq<SourceEntryV>, ErrorV>(
                            sources_of_repo(pv[i as int].repository)->Err_0,
                        ));
                        lemma_collect_err_persists(pv, i + 1, packages@.len() as int);
                    }
                    return Err(e);
                },
            };
            let ghost ssv = source_views(ss@);
            let ghost mstart = entry_views(m@);
            let mut k: usize = 0;
            let mut ms = m;
            while k < ss.len()
                invariant
                    k <= ss@.len(),
                    entry_views(ms@) == add_sources(mstart, ssv.take(k as int), i as int),
                decreases ss@.len() - k,
            {
                proof {
                    lemma_add_sources_snoc(mstart, ssv.take(k as int), ssv[k as int], i as int);
                    assert(ssv.take(k as int).push(ssv[k as int]) =~= ssv.take(k + 1 as int));
                }
                let s = ss[k].duplicate();
                proof {
                    assert(s@ == ssv[k as int]);
                }
                add_pkg_to_map(&mut ms, s, i);
                k = k + 1;
            }
            m = ms;
            proof {
                assert(ssv.take(ss@.len() as int) =~= ssv);
            }
        }
        i = i + 1;
    }
    proof {
        lemma_collect_range(pv, pv.len() as int);
    }
    Ok(m)
}

/// Appending one more source to a package's batch.
pub proof fn lemma_add_sources_snoc(m: Seq<SourceEntryV>, ss: Seq<SourceV>, s: SourceV, p: int)
    ensures
        add_sources(m, ss.push(s), p) == add_pkg(add_sources(m, ss, p), s, p),
    decreases ss.len(),
{
    if ss.len() == 0 {
        assert(ss.push(s)[0] == s);
        assert(ss.push(s).drop_first() =~= Seq::<SourceV>::empty());
        assert(add_sources(m, ss.push(s), p) == add_sources(
            add_pkg(m, s, p),
            Seq::<SourceV>::empty(),
            p,
        ));
        assert(add_sources(m, ss, p) == m);
    } else {
        assert(ss.push(s)[0] == ss[0]);
        assert(ss.push(s).drop_first() =~= ss.drop_first().push(s));
        lemma_add_sources_snoc(add_pkg(m, ss[0], p), ss.drop_first(), s, p);
        assert(add_sources(m, ss.push(s), p) == add_sources(
            add_pkg(m, ss[0], p),
            ss.drop_first().push(s),
            p,
        ));
        assert(add_sources(m, ss, p) == add_sources(add_pkg(m, ss[0], p), ss.drop_first(), p));
    }
}

/// A collection that has failed stays failed.
pub proof fn lemma_collect_err_persists(pkgs: Seq<PackageInfoV>, i: int, n: int)
    requires
        0 <= i <= n,
        collect_model(pkgs, i) is Err,
    ensures
        collect_model(pkgs, n) == collect_model(pkgs, i),
    decreases n - i,
{
    if i < n {
        lemma_collect_err_persists(pkgs, i, n - 1);
    }
}

} // verus!
