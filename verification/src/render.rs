//! Renders the grouped map as a deterministic box-drawn tree. Every line's
//! two-glyph prefixes are fixed by the group's position (first, middle,
//! last, only) and the line's position inside the group, and clients diff
//! the literal output, so the text is specified to the byte.

use crate::aggregate::{group_views, Group, GroupV};
use crate::source::{package_views, PackageInfo, PackageInfoV};
use crate::text::{dec_of, dec_str};
use vstd::prelude::*;

verus! {

/// The first glyph pair of a link line: the trunk column, fixed by whether
/// this group is first, last or the only one, and whether the line is the
/// group's first.
pub open spec fn glyph1(g: int, li: int, glen: int) -> Seq<char> {
    if g == 0 && li == 0 && glen == 1 {
        ("──")@
    } else if li == 0 && g + 1 < glen {
        ("├─")@
    } else if g + 1 < glen {
        ("│ ")@
    } else if li == 0 {
        ("└─")@
    } else {
        ("  ")@
    }
}

/// The second glyph pair of a link line: the branch toward the link, fixed
/// by the line's position among the group's links.
pub open spec fn glyph2(li: int, klen: int) -> Seq<char> {
    if li == 0 && klen > 1 {
        ("┬─")@
    } else if li == 0 {
        ("──")@
    } else if li + 1 < klen {
        ("├─")@
    } else {
        ("└─")@
    }
}

/// One link line of a group.
pub open spec fn link_line(g: int, li: int, glen: int, klen: int, uri: Seq<char>) -> Seq<char> {
    glyph1(g, li, glen) + glyph2(li, klen) + (" ")@ + uri + ("\n")@
}

/// The first `i` link lines of a group.
pub open spec fn links_text(g: int, glen: int, key: Seq<crate::link::LinkV>, i: int) -> Seq<char>
    decreases i,
{
    if i <= 0 {
        Seq::empty()
    } else {
        links_text(g, glen, key, i - 1) + link_line(
            g,
            i - 1,
            glen,
            key.len() as int,
            key[i - 1].uri,
        )
    }
}

/// One package line of a group: indented one level further, with a vertical
/// trunk column only while more groups follow.
pub open spec fn pkg_line(
    g: int,
    ki: int,
    glen: int,
    plen: int,
    name: Seq<char>,
    version: Seq<char>,
) -> Seq<char> {
    (if g + 1 < glen {
        ("│    ")@
    } else {
        ("     ")@
    }) + (if ki + 1 == plen {
        ("└─")@
    } else {
        ("├─")@
    }) + (" ")@ + name + (" ")@ + version + ("\n")@
}

/// The first `i` package lines of a group.
pub open spec fn pkgs_text(
    g: int,
    glen: int,
    pkgs: Seq<int>,
    meta: Seq<PackageInfoV>,
    i: int,
) -> Seq<char>
    decreases i,
{
    if i <= 0 {
        Seq::empty()
    } else {
        pkgs_text(g, glen, pkgs, meta, i - 1) + pkg_line(
            g,
            i - 1,
            glen,
            pkgs.len() as int,
            meta[pkgs[i - 1]].name,
            meta[pkgs[i - 1]].version,
        )
    }
}

/// One whole group: its link lines, then its package lines.
pub open spec fn group_text(g: int, glen: int, group: GroupV, meta: Seq<PackageInfoV>) -> Seq<
    char,
> {
    links_text(g, glen, group.key, group.key.len() as int) + pkgs_text(
        g,
        glen,
        group.pkgs,
        meta,
        group.pkgs.len() as int,
    )
}

/// The first `i` groups.
pub open spec fn groups_text(gv: Seq<GroupV>, meta: Seq<PackageInfoV>, i: int) -> Seq<char>
    decreases i,
{
    if i <= 0 {
        Seq::empty()
    } else {
        groups_text(gv, meta, i - 1) + group_text(i - 1, gv.len() as int, gv[i - 1], meta)
    }
}

/// The tree's first line.
pub open spec fn header_text(root: Seq<char>, matched: nat, total: nat) -> Seq<char> {
    root + (" (found funding links for ")@ + dec_str(matched) + (" out of ")@ + dec_str(total) + (
    " dependencies)\n")@
}

/// The whole rendered tree: a pure function of its inputs, so two runs over
/// the same data produce byte-identical output.
pub open spec fn render_spec(
    root: Seq<char>,
    gv: Seq<GroupV>,
    meta: Seq<PackageInfoV>,
    matched: nat,
    total: nat,
) -> Seq<char> {
    header_text(root, matched, total) + groups_text(gv, meta, gv.len() as int)
}

/// Emits one group's link lines.
#[verifier::loop_isolation(false)]
fn render_links(out: &mut String, group: &Group, g: usize, glen: usize)
    requires
        g < glen,
    ensures
        final(out)@ == old(out)@ + links_text(
            g as int,
            glen as int,
            group@.key,
            group@.key.len() as int,
        ),
{
    let ghost gstart = out@;
    let klen = group.key.len();
    let mut li: usize = 0;
    proof {
        assert(out@ =~= gstart + links_text(g as int, glen as int, group@.key, 0));
    }
    while li < klen
        invariant
            li <= klen,
            out@ == gstart + links_text(g as int, glen as int, group@.key, li as int),
        decreases klen - li,
    {
        let ghost lstart = out@;
        if g == 0 && li == 0 && glen == 1 {
            out.append("──");
        } else if li == 0 && g + 1 < glen {
            out.append("├─");
        } else if g + 1 < glen {
            out.append("│ ");
        } else if li == 0 {
            out.append("└─");
        } else {
            out.append("  ");
        }
        if li == 0 && klen > 1 {
            out.append("┬─");
        } else if li == 0 {
            out.append("──");
        } else if li + 1 < klen {
            out.append("├─");
        } else {
            out.append("└─");
        }
        out.append(" ");
        out.append(group.key[li].uri.as_str());
        out.append("\n");
        proof {
            assert(group.key@[li as int]@.uri == group@.key[li as int].uri);
            assert(out@ =~= lstart + link_line(
                g as int,
                li as int,
                glen as int,
                klen as int,
                group@.key[li as int].uri,
            ));
            assert(out@ =~= gstart + links_text(g as int, glen as int, group@.key, li + 1));
        }
        li = li + 1;
    }
}

/// Emits one group's package lines.
#[verifier::loop_isolation(false)]
fn render_pkgs(out: &mut String, group: &Group, packages: &Vec<PackageInfo>, g: usize, glen: usize)
    requires
        g < glen,
        forall|k: int|
            0 <= k < group@.pkgs.len() ==> 0 <= #[trigger] group@.pkgs[k] < packages@.len(),
    ensures
        final(out)@ == old(out)@ + pkgs_text(
            g as int,
            glen as int,
            group@.pkgs,
            package_views(packages@),
            group@.pkgs.len() as int,
        ),
{
    let ghost meta = package_views(packages@);
    let ghost pstart = out@;
    let plen = group.pkgs.len();
    let mut ki: usize = 0;
    proof {
        assert(out@ =~= pstart + pkgs_text(g as int, glen as int, group@.pkgs, meta, 0));
    }
    while ki < plen
        invariant
            ki <= plen,
            out@ == pstart + pkgs_text(g as int, glen as int, group@.pkgs, meta, ki as int),
        decreases plen - ki,
    {
        let ghost kstart = out@;
        if g + 1 < glen {
            out.append("│    ");
        } else {
            out.append("     ");
        }
        if ki + 1 == plen {
            out.append("└─");
        } else {
            out.append("├─");
        }
        out.append(" ");
        let pi = group.pkgs[ki];
        proof {
            assert(group@.pkgs[ki as int] == pi as int);
            assert(pi < packages@.len());
            assert(meta[pi as int].name == packages@[pi as int].name@);
            assert(meta[pi as int].version == packages@[pi as int].version@);
        }
        out.append(packages[pi].name.as_str());
        out.append(" ");
        out.append(packages[pi].version.as_str());
        out.append("\n");
        proof {
            assert(out@ =~= kstart + pkg_line(
                g as int,
                ki as int,
                glen as int,
                plen as int,
                meta[group@.pkgs[ki as int]].name,
                meta[group@.pkgs[ki as int]].version,
            ));
            assert(out@ =~= pstart + pkgs_text(g as int, glen as int, group@.pkgs, meta, ki + 1));
        }
        ki = ki + 1;
    }
}

/// Renders the grouped map as the box-drawn tree.
#[verifier::loop_isolation(false)]
pub fn render_tree(
    root: &str,
    packages: &Vec<PackageInfo>,
    groups: &Vec<Group>,
    matched: usize,
    total: usize,
) -> (out: String)
    requires
        forall|g: int, k: int|
            0 <= g < group_views(groups@).len() && 0 <= k < group_views(groups@)[g].pkgs.len()
                ==> 0 <= #[trigger] group_views(groups@)[g].pkgs[k] < packages@.len(),
    ensures
        out@ == render_spec(
            root@,
            group_views(groups@),
            package_views(packages@),
            matched as nat,
            total as nat,
        ),
{
    let ghost gv = group_views(groups@);
    let ghost meta = package_views(packages@);
    let mut out = String::new();
    out.append(root);
    out.append(" (found funding links for ");
    let m = dec_of(matched);
    out.append(m.as_str());
    out.append(" out of ");
    let t = dec_of(total);
    out.append(t.as_str());
    out.append(" dependencies)\n");
    let ghost header = header_text(root@, matched as nat, total as nat);
    proof {
        assert(out@ =~= header);
        assert(out@ =~= header + groups_text(gv, meta, 0));
    }
    let glen = groups.len();
    let mut g: usize = 0;
    while g < glen
        invariant
            g <= glen,
            out@ == header + groups_text(gv, meta, g as int),
        decreases glen - g,
    {
        let ghost gstart = out@;
        proof {
            assert(gv[g as int] == groups@[g as int]@);
            assert(forall|k: int|
                0 <= k < groups@[g as int]@.pkgs.len() ==> 0 <= #[trigger] groups@[
                g as int]@.pkgs[k] < packages@.len());
        }
        render_links(&mut out, &groups[g], g, glen);
        render_pkgs(&mut out, &groups[g], packages, g, glen);
        proof {
            assert(out@ =~= gstart + group_text(g as int, glen as int, gv[g as int], meta));
            assert(out@ =~= header + groups_text(gv, meta, g + 1));
        }
        g = g + 1;
    }
    out
}

/// Law: the rendered tree is a function of the grouped data, the package
/// metadata, the counts and the root label alone, so two independent runs
/// over the same inputs produce byte-identical output.
pub proof fn lemma_render_deterministic(
    out1: Seq<char>,
    out2: Seq<char>,
    root: Seq<char>,
    gv: Seq<GroupV>,
    meta: Seq<PackageInfoV>,
    matched: nat,
    total: nat,
)
    requires
        out1 == render_spec(root, gv, meta, matched, total),
        out2 == render_spec(root, gv, meta, matched, total),
    ensures
        out1 == out2,
{
}

/// How many of the packages are candidates for resolution: everything
/// outside the local workspace.
pub open spec fn count_candidates(pkgs: Seq<PackageInfoV>) -> int
    decreases pkgs.len(),
{
    if pkgs.len() == 0 {
        0
    } else {
        count_candidates(pkgs.drop_last()) + (if pkgs.last().workspace_member {
            0int
        } else {
            1int
        })
    }
}

/// Counts the dependencies outside the local workspace: the total the
/// tree's first line reports.
#[verifier::loop_isolation(false)]
pub fn count_dependencies(packages: &Vec<PackageInfo>) -> (r: usize)
    ensures
        r as int == count_candidates(package_views(packages@)),
{
    let ghost meta = package_views(packages@);
    let mut count: usize = 0;
    let mut i: usize = 0;
    proof {
        assert(meta.take(0) =~= Seq::<PackageInfoV>::empty());
    }
    while i < packages.len()
        invariant
            i <= packages@.len(),
            count <= i,
            count as int == count_candidates(meta.take(i as int)),
        decreases packages@.len() - i,
    {
        proof {
            assert(meta.take(i + 1).drop_last() =~= meta.take(i as int));
            assert(meta.take(i + 1).last() == meta[i as int]);
        }
        if !packages[i].workspace_member {
            count = count + 1;
        }
        i = i + 1;
    }
    proof {
        assert(meta.take(packages@.len() as int) =~= meta);
    }
    count
}

} // verus!
