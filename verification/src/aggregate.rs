//! Groups packages by their resolved link sets. Each package's links are
//! already a strictly sorted vector — the canonical form of the set — so
//! set-equality of link sets is plain equality of keys, and the grouped map
//! sorts its groups by key and each group's packages by package id, making
//! the rendered output reproducible.

use crate::link::{
    lemma_link_cmp_antisym, lemma_link_cmp_eq, lemma_link_cmp_refl, lemma_link_cmp_trans,
    lemma_sorted_links_canonical, link_cmp, link_views, sorted_links, Link, LinkV,
};
use crate::source::{PackageInfo, PackageInfoV};
use crate::text::{
    lemma_seq_char_cmp_antisym, lemma_seq_char_cmp_trans, seq_char_cmp, str_cmp,
};
use vstd::prelude::*;

verus! {

/// One group of the output: a canonical sorted link set, and the packages
/// that resolved to exactly that set.
#[derive(Clone, Debug)]
pub struct Group {
    pub key: Vec<Link>,
    pub pkgs: Vec<usize>,
}

/// The mathematical value of a `Group`.
pub struct GroupV {
    pub key: Seq<LinkV>,
    pub pkgs: Seq<int>,
}

impl View for Group {
    type V = GroupV;

    open spec fn view(&self) -> GroupV {
        GroupV { key: link_views(self.key@), pkgs: self.pkgs@.map_values(|u: usize| u as int) }
    }
}

/// The mathematical values of a group vector.
pub open spec fn group_views(s: Seq<Group>) -> Seq<GroupV> {
    s.map_values(|g: Group| g@)
}

/// The id of every package, in package order.
pub open spec fn pkg_ids(pkgs: Seq<PackageInfoV>) -> Seq<Seq<char>> {
    pkgs.map_values(|p: PackageInfoV| p.id)
}

/// The canonical link sequence of every package, in package order.
pub open spec fn rows_of(resolved: Seq<Vec<Link>>) -> Seq<Seq<LinkV>> {
    resolved.map_values(|v: Vec<Link>| link_views(v@))
}

/// Three-way lexicographic ordering of canonical link sequences: the order
/// the grouped output lists its groups in.
pub open spec fn key_cmp(a: Seq<LinkV>, b: Seq<LinkV>) -> int
    decreases a.len(),
{
    if a.len() == 0 && b.len() == 0 {
        0
    } else if a.len() == 0 {
        -1
    } else if b.len() == 0 {
        1
    } else if link_cmp(a[0], b[0]) != 0 {
        link_cmp(a[0], b[0])
    } else {
        key_cmp(a.drop_first(), b.drop_first())
    }
}

pub proof fn lemma_key_cmp_refl(a: Seq<LinkV>)
    ensures
        key_cmp(a, a) == 0,
    decreases a.len(),
{
    if a.len() > 0 {
        lemma_link_cmp_refl(a[0]);
        lemma_key_cmp_refl(a.drop_first());
    }
}

pub proof fn lemma_key_cmp_eq(a: Seq<LinkV>, b: Seq<LinkV>)
    requires
        key_cmp(a, b) == 0,
    ensures
        a == b,
    decreases a.len(),
{
    if a.len() == 0 {
        assert(a =~= b);
    } else {
        lemma_link_cmp_eq(a[0], b[0]);
        lemma_key_cmp_eq(a.drop_first(), b.drop_first());
        assert(a =~= seq![a[0]] + a.drop_first());
        assert(b =~= seq![b[0]] + b.drop_first());
        assert(a =~= b);
    }
}

pub proof fn lemma_key_cmp_antisym(a: Seq<LinkV>, b: Seq<LinkV>)
    ensures
        key_cmp(a, b) == -key_cmp(b, a),
    decreases a.len(),
{
    if a.len() > 0 && b.len() > 0 {
        lemma_link_cmp_antisym(a[0], b[0]);
        lemma_key_cmp_antisym(a.drop_first(), b.drop_first());
    }
}

pub proof fn lemma_key_cmp_trans(a: Seq<LinkV>, b: Seq<LinkV>, c: Seq<LinkV>)
    requires
        key_cmp(a, b) <= 0,
        key_cmp(b, c) <= 0,
    ensures
        key_cmp(a, c) <= 0,
        key_cmp(a, b) < 0 || key_cmp(b, c) < 0 ==> key_cmp(a, c) < 0,
    decreases a.len(),
{
    if a.len() > 0 && b.len() > 0 && c.len() > 0 {
        lemma_link_cmp_antisym(a[0], b[0]);
        lemma_link_cmp_antisym(b[0], c[0]);
        lemma_link_cmp_antisym(a[0], c[0]);
        lemma_link_cmp_trans(a[0], b[0], c[0]);
        if link_cmp(a[0], b[0]) == 0 {
            lemma_link_cmp_eq(a[0], b[0]);
        }
        if link_cmp(b[0], c[0]) == 0 {
            lemma_link_cmp_eq(b[0], c[0]);
        }
        if link_cmp(a[0], b[0]) == 0 && link_cmp(b[0], c[0]) == 0 {
            lemma_key_cmp_trans(a.drop_first(), b.drop_first(), c.drop_first());
        }
    }
}

/// If the first `i` links agree, the comparison is decided by the tails.
pub proof fn lemma_key_cmp_skip(a: Seq<LinkV>, b: Seq<LinkV>, i: int)
    requires
        0 <= i <= a.len(),
        i <= b.len(),
        forall|j: int| 0 <= j < i ==> a[j] == b[j],
    ensures
        key_cmp(a, b) == key_cmp(a.skip(i), b.skip(i)),
    decreases i,
{
    if i == 0 {
        assert(a.skip(0) =~= a);
        assert(b.skip(0) =~= b);
    } else {
        assert(a[0] == b[0]);
        lemma_link_cmp_refl(a[0]);
        lemma_key_cmp_skip(a.drop_first(), b.drop_first(), i - 1);
        assert(a.drop_first().skip(i - 1) =~= a.skip(i));
        assert(b.drop_first().skip(i - 1) =~= b.skip(i));
    }
}

/// Three-way comparison of two canonical link vectors.
#[verifier::loop_isolation(false)]
pub fn key_cmp_exec(a: &Vec<Link>, b: &Vec<Link>) -> (r: i8)
    ensures
        r as int == key_cmp(link_views(a@), link_views(b@)),
{
    let ghost av = link_views(a@);
    let ghost bv = link_views(b@);
    let mut i: usize = 0;
    while i < a.len() && i < b.len()
        invariant
            i <= av.len(),
            i <= bv.len(),
            forall|j: int| 0 <= j < i ==> av[j] == bv[j],
        decreases av.len() - i,
    {
        let c = a[i].cmp_with(&b[i]);
        if c != 0 {
            proof {
                lemma_key_cmp_skip(av, bv, i as int);
                assert(av.skip(i as int)[0] == av[i as int]);
                assert(bv.skip(i as int)[0] == bv[i as int]);
            }
            return c;
        }
        proof {
            lemma_link_cmp_eq(av[i as int], bv[i as int]);
        }
        i = i + 1;
    }
    proof {
        lemma_key_cmp_skip(av, bv, i as int);
        assert(i == av.len() || i == bv.len());
        if i == av.len() {
            assert(av.skip(i as int).len() == 0);
        }
        if i == bv.len() {
            assert(bv.skip(i as int).len() == 0);
        }
        if (i as int) < av.len() {
            assert(av.skip(i as int).len() > 0);
        }
        if (i as int) < bv.len() {
            assert(bv.skip(i as int).len() > 0);
        }
    }
    if a.len() == b.len() {
        0
    } else if a.len() < b.len() {
        -1
    } else {
        1
    }
}

/// An owned copy of a canonical link vector.
#[verifier::loop_isolation(false)]
pub fn duplicate_links(v: &Vec<Link>) -> (r: Vec<Link>)
    ensures
        link_views(r@) == link_views(v@),
{
    let mut out: Vec<Link> = Vec::new();
    let mut i: usize = 0;
    proof {
        assert(link_views(out@) =~= link_views(v@).take(0));
    }
    while i < v.len()
        invariant
            i <= v@.len(),
            link_views(out@) == link_views(v@).take(i as int),
        decreases v@.len() - i,
    {
        let ghost obefore = out@;
        out.push(v[i].duplicate());
        proof {
            assert(link_views(out@) =~= link_views(obefore).push(link_views(v@)[i as int]));
            assert(link_views(v@).take(i as int).push(link_views(v@)[i as int]) =~= link_views(
                v@,
            ).take(i + 1));
        }
        i = i + 1;
    }
    proof {
        assert(link_views(v@).take(v@.len() as int) =~= link_views(v@));
    }
    out
}

/// A package list sorted by package id, the order packages take inside a
/// group.
pub open spec fn pkgs_sorted(pkgs: Seq<int>, ids: Seq<Seq<char>>) -> bool {
    forall|k1: int, k2: int|
        0 <= k1 < k2 < pkgs.len() ==> seq_char_cmp(
            ids[#[trigger] pkgs[k1]],
            ids[#[trigger] pkgs[k2]],
        ) <= 0
}

/// Inserts a package into a group's list, keeping it sorted by id.
#[verifier::loop_isolation(false)]
fn insert_pkg_sorted(pkgs: &mut Vec<usize>, p: usize, packages: &Vec<PackageInfo>)
    requires
        p < packages@.len(),
        forall|k: int| 0 <= k < old(pkgs)@.len() ==> #[trigger] old(pkgs)@[k] < packages@.len(),
        pkgs_sorted(
            old(pkgs)@.map_values(|u: usize| u as int),
            pkg_ids(crate::source::package_views(packages@)),
        ),
    ensures
        final(pkgs)@.len() == old(pkgs)@.len() + 1,
        forall|k: int| 0 <= k < final(pkgs)@.len() ==> #[trigger] final(pkgs)@[k] < packages@.len(),
        pkgs_sorted(
            final(pkgs)@.map_values(|u: usize| u as int),
            pkg_ids(crate::source::package_views(packages@)),
        ),
        final(pkgs)@.map_values(|u: usize| u as int).to_set() == old(pkgs)@.map_values(
            |u: usize| u as int,
        ).to_set().insert(p as int),
{
    let ghost ids = pkg_ids(crate::source::package_views(packages@));
    let ghost s0 = pkgs@.map_values(|u: usize| u as int);
    let n = pkgs.len();
    let mut j: usize = 0;
    while j < n && str_cmp(packages[pkgs[j]].id.as_str(), packages[p].id.as_str()) <= 0
        invariant
            j <= n,
            pkgs@ == old(pkgs)@,
            forall|k: int| 0 <= k < j ==> seq_char_cmp(ids[s0[k]], ids[p as int]) <= 0,
        decreases n - j,
    {
        proof {
            assert(ids[s0[j as int]] == packages@[pkgs@[j as int] as int].id@);
        }
        j = j + 1;
    }
    proof {
        if j < n {
            assert(seq_char_cmp(ids[s0[j as int]], ids[p as int]) > 0);
            lemma_seq_char_cmp_antisym(ids[s0[j as int]], ids[p as int]);
        }
    }
    pkgs.insert(j, p);
    proof {
        let s1 = pkgs@.map_values(|u: usize| u as int);
        assert(s1 =~= s0.insert(j as int, p as int));
        assert forall|k1: int, k2: int| 0 <= k1 < k2 < s1.len() implies seq_char_cmp(
            ids[s1[k1]],
            ids[s1[k2]],
        ) <= 0 by {
            if k1 == j {
                if k2 == j + 1 {
                    lemma_seq_char_cmp_antisym(ids[s0[j as int]], ids[p as int]);
                } else {
                    lemma_seq_char_cmp_antisym(ids[s0[j as int]], ids[p as int]);
                    lemma_seq_char_cmp_trans(ids[p as int], ids[s0[j as int]], ids[s0[k2 - 1]]);
                }
            } else if k2 == j {
            } else if k1 < j && k2 > j {
                if k2 == j + 1 {
                } else {
                    lemma_seq_char_cmp_antisym(ids[s0[j as int]], ids[p as int]);
                    lemma_seq_char_cmp_trans(ids[p as int], ids[s0[j as int]], ids[s0[k2 - 1]]);
                }
            } else {
            }
        }
        assert(s1.to_set() =~= s0.to_set().insert(p as int)) by {
            assert forall|x: int| s1.to_set().contains(x) implies s0.to_set().insert(
                p as int,
            ).contains(x) by {
                let k = choose|k: int| 0 <= k < s1.len() && (#[trigger] s1[k]) == x;
                if k < j {
                    assert(s0[k] == x);
                    assert(s0.to_set().contains(x));
                } else if k == j {
                } else {
                    assert(s0[k - 1] == x);
                    assert(s0.to_set().contains(x));
                }
            }
            assert forall|x: int| s0.to_set().insert(p as int).contains(x) implies s1
                .to_set().contains(x) by {
                if x == p as int {
                    assert(s1[j as int] == x);
                } else {
                    let k = choose|k: int| 0 <= k < s0.len() && (#[trigger] s0[k]) == x;
                    if k < j {
                        assert(s1[k] == x);
                    } else {
                        assert(s1[k + 1] == x);
                    }
                }
            }
        }
    }
}

/// Group keys strictly ascending: sorted, and pairwise distinct.
pub open spec fn groups_sorted(groups: Seq<GroupV>) -> bool {
    forall|g1: int, g2: int|
        0 <= g1 < g2 < groups.len() ==> key_cmp(
            (#[trigger] groups[g1]).key,
            (#[trigger] groups[g2]).key,
        ) < 0
}

/// Every member of a group resolved to exactly the group's key.
pub open spec fn groups_match_rows(groups: Seq<GroupV>, rows: Seq<Seq<LinkV>>) -> bool {
    forall|g: int, k: int|
        0 <= g < groups.len() && 0 <= k < groups[g].pkgs.len() ==> 0 <= #[trigger] groups[g].pkgs[k]
            < rows.len() && rows[groups[g].pkgs[k]] == groups[g].key
}

/// Every package with at least one link lies in some group.
pub open spec fn groups_cover(groups: Seq<GroupV>, rows: Seq<Seq<LinkV>>) -> bool {
    forall|p: int|
        0 <= p < rows.len() && (#[trigger] rows[p]).len() > 0 ==> exists|g: int|
            0 <= g < groups.len() && (#[trigger] groups[g]).pkgs.contains(p)
}

/// Every group is nonempty and lists its packages sorted by id.
pub open spec fn groups_wf(groups: Seq<GroupV>, ids: Seq<Seq<char>>) -> bool {
    forall|g: int|
        0 <= g < groups.len() ==> (#[trigger] groups[g]).pkgs.len() > 0 && pkgs_sorted(
            groups[g].pkgs,
            ids,
        )
}

/// Inverts the resolved map: packages are clustered by their exact link
/// set (canonical keys make set equality plain equality), groups come out
/// sorted by key, and each group's packages sorted by id, so the rendered
/// output is reproducible for identical input data.
#[verifier::loop_isolation(false)]
pub fn group_packages(packages: &Vec<PackageInfo>, resolved: &Vec<Vec<Link>>) -> (groups: Vec<
    Group,
>)
    requires
        resolved@.len() == packages@.len(),
        crate::resolve::resolved_wf(resolved@),
    ensures
        groups_match_rows(group_views(groups@), rows_of(resolved@)),
        groups_cover(group_views(groups@), rows_of(resolved@)),
        groups_sorted(group_views(groups@)),
        groups_wf(group_views(groups@), pkg_ids(crate::source::package_views(packages@))),
        forall|g: int|
            0 <= g < group_views(groups@).len() ==> (#[trigger] group_views(groups@)[g]).key.len()
                > 0,
{
    let ghost rows = rows_of(resolved@);
    let ghost ids = pkg_ids(crate::source::package_views(packages@));
    let mut groups: Vec<Group> = Vec::new();
    let mut p: usize = 0;
    while p < resolved.len()
        invariant
            p <= resolved@.len(),
            groups_match_rows(group_views(groups@), rows),
            groups_sorted(group_views(groups@)),
            groups_wf(group_views(groups@), ids),
            forall|g: int|
                0 <= g < group_views(groups@).len() ==> (#[trigger] group_views(
                    groups@,
                )[g]).key.len() > 0,
            forall|q: int|
                0 <= q < p && (#[trigger] rows[q]).len() > 0 ==> exists|g: int|
                    0 <= g < group_views(groups@).len() && (#[trigger] group_views(
                        groups@,
                    )[g]).pkgs.contains(q),
        decreases resolved@.len() - p,
    {
        if resolved[p].len() > 0 {
            let ghost gv = group_views(groups@);
            let ghost rowv = rows[p as int];
            proof {
                assert(link_views(resolved@[p as int]@) == rowv);
            }
            let n = groups.len();
            let mut j: usize = 0;
            while j < n && key_cmp_exec(&groups[j].key, &resolved[p]) < 0
                invariant
                    j <= n,
                    groups@.len() == n,
                    group_views(groups@) == gv,
                    forall|g: int| 0 <= g < j ==> key_cmp((#[trigger] gv[g]).key, rowv) < 0,
                decreases n - j,
            {
                proof {
                    assert(gv[j as int].key == link_views(groups@[j as int].key@));
                }
                j = j + 1;
            }
            let mut found = false;
            if j < n {
                let c = key_cmp_exec(&groups[j].key, &resolved[p]);
                if c == 0 {
                    found = true;
                }
                proof {
                    if c != 0 {
                        assert(key_cmp(gv[j as int].key, rowv) != 0);
                    }
                }
            }
            if found {
                proof {
                    lemma_key_cmp_eq(gv[j as int].key, rowv);
                    assert(gv[j as int].key == rowv);
                }
                let mut tmp = Group { key: Vec::new(), pkgs: Vec::new() };
                groups.set_and_swap(j, &mut tmp);
                proof {
                    assert(tmp@ == gv[j as int]);
                    assert(forall|k: int|
                        0 <= k < tmp.pkgs@.len() ==> #[trigger] tmp.pkgs@[k]
                            < packages@.len()) by {
                        assert(forall|k: int|
                            0 <= k < gv[j as int].pkgs.len() ==> 0 <= #[trigger] gv[
                            j as int].pkgs[k] < rows.len());
                        assert(forall|k: int|
                            0 <= k < tmp.pkgs@.len() ==> gv[j as int].pkgs[k] == #[trigger] tmp
                                .pkgs@[k] as int);
                    }
                }
                let ghost pkgs0 = tmp.pkgs@.map_values(|u: usize| u as int);
                insert_pkg_sorted(&mut tmp.pkgs, p, packages);
                let ghost pkgs1 = tmp.pkgs@.map_values(|u: usize| u as int);
                groups.set(j, tmp);
                proof {
                    let gv1 = group_views(groups@);
                    assert(gv1 =~= gv.update(
                        j as int,
                        GroupV { key: gv[j as int].key, pkgs: pkgs1 },
                    ));
                    assert(pkgs1.to_set() == pkgs0.to_set().insert(p as int));
                    assert forall|g: int, k: int|
                        0 <= g < gv1.len() && 0 <= k < gv1[g].pkgs.len() implies 0 <= #[trigger] gv1[g].pkgs[k] < rows.len() && rows[gv1[g].pkgs[k]] == gv1[g].key by {
                        if g == j {
                            let x = gv1[g].pkgs[k];
                            assert(pkgs1.to_set().contains(x)) by {
                                assert(pkgs1[k] == x);
                            }
                            if x == p as int {
                                assert(rows[x] == gv1[g].key);
                            } else {
                                assert(pkgs0.to_set().contains(x));
                                let m = choose|m: int|
                                    0 <= m < pkgs0.len() && (#[trigger] pkgs0[m]) == x;
                                assert(gv[j as int].pkgs[m] == x);
                            }
                        }
                    }
                    assert forall|g1: int, g2: int|
                        0 <= g1 < g2 < gv1.len() implies key_cmp(
                        (#[trigger] gv1[g1]).key,
                        (#[trigger] gv1[g2]).key,
                    ) < 0 by {
                        assert(gv1[g1].key == gv[g1].key);
                        assert(gv1[g2].key == gv[g2].key);
                    }
                    assert forall|g: int| 0 <= g < gv1.len() implies (#[trigger] gv1[g]).pkgs.len()
                        > 0 && pkgs_sorted(gv1[g].pkgs, ids) && gv1[g].key.len() > 0 by {
                        if g != j {
                            assert(gv1[g] == gv[g]);
                        } else {
                            assert(gv1[g].key == gv[g].key);
                        }
                    }
                    assert forall|q: int|
                        0 <= q < p + 1 && (#[trigger] rows[q]).len() > 0 implies exists|g: int|
                        0 <= g < gv1.len() && (#[trigger] gv1[g]).pkgs.contains(q) by {
                        if q == p as int {
                            assert(pkgs1.to_set().contains(p as int));
                            let m = choose|m: int|
                                0 <= m < pkgs1.len() && (#[trigger] pkgs1[m]) == p as int;
                            assert(gv1[j as int].pkgs.contains(p as int)) by {
                                assert(gv1[j as int].pkgs[m] == p as int);
                            }
                        } else {
                            let g0 = choose|g: int|
                                0 <= g < gv.len() && (#[trigger] gv[g]).pkgs.contains(q);
                            if g0 == j {
                                let m = choose|m: int|
                                    0 <= m < gv[g0].pkgs.len() && (#[trigger] gv[g0].pkgs[m]) == q;
                                assert(pkgs0[m] == q);
                                assert(pkgs1.to_set().contains(q)) by {
                                    assert(pkgs0.to_set().contains(q)) by {
                                        assert(pkgs0[m] == q);
                                    }
                                }
                                let m1 = choose|m1: int|
                                    0 <= m1 < pkgs1.len() && (#[trigger] pkgs1[m1]) == q;
                                assert(gv1[j as int].pkgs.contains(q)) by {
                                    assert(gv1[j as int].pkgs[m1] == q);
                                }
                            } else {
                                assert(gv1[g0] == gv[g0]);
                            }
                        }
                    }
                }
            } else {
                proof {
                    if j < n {
                        assert(key_cmp(gv[j as int].key, rowv) > 0);
                        lemma_key_cmp_antisym(gv[j as int].key, rowv);
                    }
                }
                let key = duplicate_links(&resolved[p]);
                let mut pk: Vec<usize> = Vec::new();
                pk.push(p);
                let newg = Group { key, pkgs: pk };
                proof {
                    assert(newg@.key == rowv);
                    assert(newg@.pkgs =~= seq![p as int]);
                }
                groups.insert(j, newg);
                proof {
                    let gv1 = group_views(groups@);
                    assert(gv1 =~= gv.insert(j as int, GroupV { key: rowv, pkgs: seq![p as int] }));
                    assert forall|g: int, k: int|
                        0 <= g < gv1.len() && 0 <= k < gv1[g].pkgs.len() implies 0 <= #[trigger] gv1[g].pkgs[k] < rows.len() && rows[gv1[g].pkgs[k]] == gv1[g].key by {
                        if g < j {
                            assert(gv1[g] == gv[g]);
                        } else if g == j {
                            assert(gv1[g].pkgs[k] == p as int);
                        } else {
                            assert(gv1[g] == gv[g - 1]);
                        }
                    }
                    assert forall|g1: int, g2: int|
                        0 <= g1 < g2 < gv1.len() implies key_cmp(
                        (#[trigger] gv1[g1]).key,
                        (#[trigger] gv1[g2]).key,
                    ) < 0 by {
                        if g1 == j {
                            if g2 == j + 1 {
                                lemma_key_cmp_antisym(gv[j as int].key, rowv);
                            } else {
                                lemma_key_cmp_antisym(gv[j as int].key, rowv);
                                lemma_key_cmp_trans(rowv, gv[j as int].key, gv[g2 - 1].key);
                            }
                        } else if g2 == j {
                        } else if g1 < j && g2 > j {
                            if g2 > j + 1 {
                                lemma_key_cmp_antisym(gv[j as int].key, rowv);
                                lemma_key_cmp_trans(rowv, gv[j as int].key, gv[g2 - 1].key);
                            }
                        } else {
                        }
                    }
                    assert forall|g: int| 0 <= g < gv1.len() implies (#[trigger] gv1[g]).pkgs.len()
                        > 0 && pkgs_sorted(gv1[g].pkgs, ids) && gv1[g].key.len() > 0 by {
                        if g < j {
                            assert(gv1[g] == gv[g]);
                        } else if g > j {
                            assert(gv1[g] == gv[g - 1]);
                        } else {
                            assert(gv1[g].key == rowv);
                        }
                    }
                    assert forall|q: int|
                        0 <= q < p + 1 && (#[trigger] rows[q]).len() > 0 implies exists|g: int|
                        0 <= g < gv1.len() && (#[trigger] gv1[g]).pkgs.contains(q) by {
                        if q == p as int {
                            assert(gv1[j as int].pkgs.contains(q)) by {
                                assert(gv1[j as int].pkgs[0] == q);
                            }
                        } else {
                            let g0 = choose|g: int|
                                0 <= g < gv.len() && (#[trigger] gv[g]).pkgs.contains(q);
                            if g0 < j {
                                assert(gv1[g0] == gv[g0]);
                            } else {
                                assert(gv1[g0 + 1] == gv[g0]);
                            }
                        }
                    }
                }
            }
        }
        p = p + 1;
    }
    groups
}

/// Law: two packages whose resolved link sets are set-equal — however their
/// links were discovered — lie in the same group of the inverted map.
pub proof fn lemma_equal_sets_same_group(
    groups: Seq<GroupV>,
    rows: Seq<Seq<LinkV>>,
    p1: int,
    p2: int,
    g1: int,
    g2: int,
)
    requires
        groups_match_rows(groups, rows),
        groups_sorted(groups),
        forall|p: int| 0 <= p < rows.len() ==> sorted_links(#[trigger] rows[p]),
        0 <= g1 < groups.len(),
        0 <= g2 < groups.len(),
        groups[g1].pkgs.contains(p1),
        groups[g2].pkgs.contains(p2),
        0 <= p1 < rows.len(),
        0 <= p2 < rows.len(),
        rows[p1].to_set() == rows[p2].to_set(),
    ensures
        g1 == g2,
{
    let k1 = choose|k: int| 0 <= k < groups[g1].pkgs.len() && (#[trigger] groups[g1].pkgs[k]) == p1;
    let k2 = choose|k: int| 0 <= k < groups[g2].pkgs.len() && (#[trigger] groups[g2].pkgs[k]) == p2;
    assert(rows[p1] == groups[g1].key);
    assert(rows[p2] == groups[g2].key);
    lemma_sorted_links_canonical(rows[p1], rows[p2]);
    if g1 < g2 {
        assert(key_cmp(groups[g1].key, groups[g2].key) < 0);
        lemma_key_cmp_refl(groups[g1].key);
        assert(false);
    }
    if g2 < g1 {
        assert(key_cmp(groups[g2].key, groups[g1].key) < 0);
        lemma_key_cmp_refl(groups[g1].key);
        assert(false);
    }
}

/// The link set a package gets back when the grouped map's first `i` groups
/// are merged again: the union of the keys of those that list it.
pub open spec fn remerge_pkg(groups: Seq<GroupV>, p: int, i: int) -> Set<LinkV>
    decreases i,
{
    if i <= 0 {
        Set::empty()
    } else {
        remerge_pkg(groups, p, i - 1).union(
            if groups[i - 1].pkgs.contains(p) {
                groups[i - 1].key.to_set()
            } else {
                Set::empty()
            },
        )
    }
}

/// The whole resolved map read back from the grouped map.
pub open spec fn remerge(groups: Seq<GroupV>, n: int) -> Seq<Set<LinkV>> {
    Seq::new(n as nat, |p: int| remerge_pkg(groups, p, groups.len() as int))
}

/// Merging the first `i` groups gives a package its exact link set as soon
/// as one of them lists it, and nothing before that.
pub proof fn lemma_remerge_pkg(groups: Seq<GroupV>, rows: Seq<Seq<LinkV>>, p: int, i: int)
    requires
        groups_match_rows(groups, rows),
        0 <= p < rows.len(),
        0 <= i <= groups.len(),
    ensures
        remerge_pkg(groups, p, i) == (if exists|g: int|
            0 <= g < i && (#[trigger] groups[g]).pkgs.contains(p) {
            rows[p].to_set()
        } else {
            Set::<LinkV>::empty()
        }),
    decreases i,
{
    if i > 0 {
        lemma_remerge_pkg(groups, rows, p, i - 1);
        if groups[i - 1].pkgs.contains(p) {
            let k = choose|k: int|
                0 <= k < groups[i - 1].pkgs.len() && (#[trigger] groups[i - 1].pkgs[k]) == p;
            assert(rows[p] == groups[i - 1].key);
            assert(exists|g: int| 0 <= g < i && (#[trigger] groups[g]).pkgs.contains(p)) by {
                assert(groups[i - 1].pkgs.contains(p));
            }
            if exists|g: int| 0 <= g < i - 1 && (#[trigger] groups[g]).pkgs.contains(p) {
                assert(remerge_pkg(groups, p, i) =~= rows[p].to_set());
            } else {
                assert(remerge_pkg(groups, p, i) =~= rows[p].to_set());
            }
        } else {
            if exists|g: int| 0 <= g < i && (#[trigger] groups[g]).pkgs.contains(p) {
                let g = choose|g: int| 0 <= g < i && (#[trigger] groups[g]).pkgs.contains(p);
                assert(g < i - 1);
                assert(remerge_pkg(groups, p, i) =~= rows[p].to_set());
            } else {
                assert(remerge_pkg(groups, p, i) =~= Set::<LinkV>::empty());
            }
        }
    }
}

/// Law: inverting the resolved map and merging the grouped entries again
/// reconstructs exactly the per-package link sets the run resolved.
pub proof fn lemma_remerge_round_trip(groups: Seq<GroupV>, rows: Seq<Seq<LinkV>>)
    requires
        groups_match_rows(groups, rows),
        groups_cover(groups, rows),
    ensures
        remerge(groups, rows.len() as int) == Seq::new(
            rows.len() as nat,
            |p: int| rows[p].to_set(),
        ),
{
    assert forall|p: int| 0 <= p < rows.len() implies remerge(groups, rows.len() as int)[p]
        == rows[p].to_set() by {
        lemma_remerge_pkg(groups, rows, p, groups.len() as int);
        if exists|g: int| 0 <= g < groups.len() && (#[trigger] groups[g]).pkgs.contains(p) {
        } else {
            assert(rows[p].len() == 0);
            assert(rows[p].to_set() =~= Set::<LinkV>::empty()) by {
                if rows[p].to_set().contains(choose|x: LinkV| rows[p].to_set().contains(x)) {
                }
                assert forall|x: LinkV| !rows[p].to_set().contains(x) by {
                    if rows[p].contains(x) {
                        let k = choose|k: int| 0 <= k < rows[p].len() && rows[p][k] == x;
                    }
                }
            }
        }
    }
    assert(remerge(groups, rows.len() as int) =~= Seq::new(
        rows.len() as nat,
        |p: int| rows[p].to_set(),
    ));
}

} // verus!
