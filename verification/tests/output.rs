//! Tests of the query batcher, the aggregator's grouping, and the rendered
//! tree's exact bytes.

use cargo_fund::aggregate::{group_packages, Group};
use cargo_fund::link::Link;
use cargo_fund::platform::Platform;
use cargo_fund::query::build_query;
use cargo_fund::render::{count_dependencies, render_tree};
use cargo_fund::resolve::{count_matched, resolve_replies};
use cargo_fund::response::{AliasReply, RawLink};
use cargo_fund::source::{collect_sources, GithubLinkSource, PackageInfo, SourceEntry};

fn pkg(id: &str, name: &str, version: &str, repo: Option<&str>, ws: bool) -> PackageInfo {
    PackageInfo {
        id: id.to_string(),
        name: name.to_string(),
        version: version.to_string(),
        repository: repo.map(|r| r.to_string()),
        workspace_member: ws,
    }
}

fn raw(platform: &str, url: &str) -> RawLink {
    RawLink {
        platform: Some(platform.to_string()),
        url: Some(url.to_string()),
    }
}

fn link(platform: Platform, uri: &str) -> Link {
    Link {
        platform,
        uri: uri.to_string(),
    }
}

#[test]
fn one_query_for_all_sources() {
    let entries = vec![
        SourceEntry {
            source: GithubLinkSource::Repo {
                owner: "acfoltzer".to_string(),
                name: "funding-test".to_string(),
            },
            pkgs: vec![0],
        },
        SourceEntry {
            source: GithubLinkSource::Owner {
                owner: "acfoltzer".to_string(),
            },
            pkgs: vec![0],
        },
    ];
    let expected = "query FundingLinks {\n\
                    _0: repository(owner: \"acfoltzer\", name: \"funding-test\") {\n\
                    \x20 fundingLinks {\n\
                    \x20   platform\n\
                    \x20   url\n\
                    \x20 }\n\
                    }\n\n\
                    _1: repositoryOwner(login: \"acfoltzer\") {\n\
                    \x20 ... on Organization {\n\
                    \x20   sponsorsListing {\n\
                    \x20     id\n\
                    \x20   }\n\
                    \x20 }\n\
                    \x20 ... on User {\n\
                    \x20   sponsorsListing {\n\
                    \x20     id\n\
                    \x20   }\n\
                    \x20 }\n\
                    }\n\n\n\
                    \x20 rateLimit {\n\
                    \x20   cost\n\
                    \x20   remaining\n\
                    \x20 }\n\
                    }\n";
    assert_eq!(build_query(&entries), expected);
}

#[test]
fn query_escapes_quotes_and_backslashes() {
    let entries = vec![SourceEntry {
        source: GithubLinkSource::Repo {
            owner: "a\"b".to_string(),
            name: "c\\d".to_string(),
        },
        pkgs: vec![0],
    }];
    let q = build_query(&entries);
    assert!(q.contains("repository(owner: \"a\\\"b\", name: \"c\\\\d\")"));
}

#[test]
fn grouping_joins_set_equal_packages() {
    // packages 0 and 2 resolved to the same set, discovered through
    // different aliases and in different orders
    let entries = vec![
        SourceEntry {
            source: GithubLinkSource::Repo {
                owner: "one".to_string(),
                name: "r1".to_string(),
            },
            pkgs: vec![0],
        },
        SourceEntry {
            source: GithubLinkSource::Repo {
                owner: "two".to_string(),
                name: "r2".to_string(),
            },
            pkgs: vec![1],
        },
        SourceEntry {
            source: GithubLinkSource::Repo {
                owner: "three".to_string(),
                name: "r3".to_string(),
            },
            pkgs: vec![2],
        },
    ];
    let replies = vec![
        AliasReply::RepoLinks(vec![
            raw("KO_FI", "https://ko-fi.com/x"),
            raw("PATREON", "https://patreon.com/x"),
        ]),
        AliasReply::RepoLinks(vec![raw("KO_FI", "https://ko-fi.com/x")]),
        AliasReply::RepoLinks(vec![
            raw("PATREON", "https://patreon.com/x"),
            raw("KO_FI", "https://ko-fi.com/x"),
        ]),
    ];
    let packages = vec![
        pkg("a-id", "a", "1.0.0", None, false),
        pkg("b-id", "b", "1.0.0", None, false),
        pkg("c-id", "c", "1.0.0", None, false),
    ];
    let resolved = resolve_replies(&entries, &replies, 3).expect("no fatal reply");
    let groups = group_packages(&packages, &resolved);
    assert_eq!(groups.len(), 2);
    // the one-link set sorts before the two-link set sharing its first link
    assert_eq!(groups[0].key.len(), 1);
    assert_eq!(groups[0].pkgs, vec![1]);
    assert_eq!(groups[1].key.len(), 2);
    assert_eq!(groups[1].pkgs, vec![0, 2]);
}

#[test]
fn grouping_round_trip_rebuilds_resolved_sets() {
    let packages = vec![
        pkg("a-id", "a", "1.0.0", None, false),
        pkg("b-id", "b", "1.0.0", None, false),
        pkg("c-id", "c", "1.0.0", None, false),
    ];
    let resolved = vec![
        vec![
            link(Platform::Kofi, "https://ko-fi.com/x"),
            link(Platform::Patreon, "https://patreon.com/x"),
        ],
        vec![],
        vec![
            link(Platform::Kofi, "https://ko-fi.com/x"),
            link(Platform::Patreon, "https://patreon.com/x"),
        ],
    ];
    let groups = group_packages(&packages, &resolved);
    // re-merge: every package gets back the union of the keys of the
    // groups that list it
    let mut remerged: Vec<Vec<Link>> = vec![Vec::new(), Vec::new(), Vec::new()];
    for g in &groups {
        for p in &g.pkgs {
            for l in &g.key {
                if !remerged[*p].contains(l) {
                    remerged[*p].push(l.clone());
                }
            }
        }
    }
    assert_eq!(remerged, resolved);
}

#[test]
fn grouping_sorts_groups_and_packages() {
    let packages = vec![
        pkg("z-id", "z", "1.0.0", None, false),
        pkg("a-id", "a", "1.0.0", None, false),
    ];
    // both packages share one set; package order inside the group follows
    // the id, not the package index
    let resolved = vec![
        vec![link(Platform::Kofi, "https://ko-fi.com/x")],
        vec![link(Platform::Kofi, "https://ko-fi.com/x")],
    ];
    let groups = group_packages(&packages, &resolved);
    assert_eq!(groups.len(), 1);
    assert_eq!(groups[0].pkgs, vec![1, 0]);
}

#[test]
fn render_is_byte_identical_across_runs() {
    let packages = vec![
        pkg("a-id", "a", "1.0.0", None, false),
        pkg("b-id", "b", "2.0.0", None, false),
    ];
    let groups = vec![
        Group {
            key: vec![link(Platform::Kofi, "https://ko-fi.com/x")],
            pkgs: vec![0],
        },
        Group {
            key: vec![link(Platform::Patreon, "https://patreon.com/x")],
            pkgs: vec![1],
        },
    ];
    let once = render_tree("root", &packages, &groups, 2, 2);
    let twice = render_tree("root", &packages, &groups, 2, 2);
    assert_eq!(once, twice);
    let expected = "root (found funding links for 2 out of 2 dependencies)\n\
                    ├─── https://ko-fi.com/x\n\
                    │    └─ a 1.0.0\n\
                    └─── https://patreon.com/x\n\
                    \x20    └─ b 2.0.0\n";
    assert_eq!(once, expected);
}

#[test]
fn render_marks_first_middle_and_last_links() {
    let packages = vec![
        pkg("a-id", "a", "1.0.0", None, false),
        pkg("b-id", "b", "2.0.0", None, false),
    ];
    let groups = vec![
        Group {
            key: vec![
                link(Platform::Custom, "https://one.example/"),
                link(Platform::Kofi, "https://ko-fi.com/x"),
            ],
            pkgs: vec![0],
        },
        Group {
            key: vec![
                link(Platform::Custom, "https://two.example/"),
                link(Platform::Patreon, "https://patreon.com/x"),
            ],
            pkgs: vec![1],
        },
    ];
    let out = render_tree("root", &packages, &groups, 2, 2);
    let expected = "root (found funding links for 2 out of 2 dependencies)\n\
                    ├─┬─ https://one.example/\n\
                    │ └─ https://ko-fi.com/x\n\
                    │    └─ a 1.0.0\n\
                    └─┬─ https://two.example/\n\
                    \x20 └─ https://patreon.com/x\n\
                    \x20    └─ b 2.0.0\n";
    assert_eq!(out, expected);
}

#[test]
fn client_package_output_expected() {
    // a three-dependency graph where exactly one package's repository
    // yields seven distinct links
    let packages = vec![
        pkg("client-id", "client-package", "0.1.0", None, true),
        pkg(
            "funding-test-id",
            "funding-test",
            "0.1.0",
            Some("https://github.com/acfoltzer/funding-test.git"),
            false,
        ),
        pkg("other-a-id", "other-a", "1.0.0", None, false),
        pkg("other-b-id", "other-b", "2.0.0", None, false),
    ];
    let entries = collect_sources(&packages).expect("collection succeeds");
    assert_eq!(entries.len(), 2);
    let replies = vec![
        AliasReply::RepoLinks(vec![
            raw("CUSTOM", "https://acfoltzer.net/bare_relative_link"),
            raw("CUSTOM", "https://www.acfoltzer.net"),
            raw("CUSTOM", "https://www.acfoltzer.net/another_url"),
            raw("ISSUEHUNT", "https://issuehunt.io/r/acfoltzer"),
            raw("KO_FI", "https://ko-fi.com/acfoltzer"),
            raw("LIBERAPAY", "https://liberapay.com/acfoltzer"),
            raw("PATREON", "https://patreon.com/acfoltzer"),
        ]),
        AliasReply::Absent,
    ];
    let resolved = resolve_replies(&entries, &replies, packages.len()).expect("no fatal reply");
    let matched = count_matched(&resolved);
    let total = count_dependencies(&packages);
    let groups = group_packages(&packages, &resolved);
    let out = render_tree("client-package", &packages, &groups, matched, total);
    let expected = "client-package (found funding links for 1 out of 3 dependencies)\n\
                    ──┬─ https://acfoltzer.net/bare_relative_link\n\
                    \x20 ├─ https://www.acfoltzer.net/\n\
                    \x20 ├─ https://www.acfoltzer.net/another_url\n\
                    \x20 ├─ https://issuehunt.io/r/acfoltzer\n\
                    \x20 ├─ https://ko-fi.com/acfoltzer\n\
                    \x20 ├─ https://liberapay.com/acfoltzer\n\
                    \x20 └─ https://patreon.com/acfoltzer\n\
                    \x20    └─ funding-test 0.1.0\n";
    assert_eq!(out, expected);
}

#[test]
fn render_with_no_groups_is_just_the_header() {
    let packages = vec![pkg("a-id", "a", "1.0.0", None, false)];
    let groups: Vec<Group> = Vec::new();
    let out = render_tree("root", &packages, &groups, 0, 1);
    assert_eq!(out, "root (found funding links for 0 out of 1 dependencies)\n");
}
