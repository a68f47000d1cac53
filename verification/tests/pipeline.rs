//! Tests of the resolution pipeline: platform mapping, link normalization,
//! source extraction, error classification, and the merge of alias replies
//! into per-package link sets.

use cargo_fund::error::FundError;
use cargo_fund::link::Link;
use cargo_fund::platform::Platform;
use cargo_fund::resolve::{count_matched, owner_link, resolve_replies, resolve_response};
use cargo_fund::response::{check_status, classify_errors, AliasReply, ApiErrorEntry, RawLink};
use cargo_fund::source::{collect_sources, try_get_sources, GithubLinkSource, PackageInfo};

fn pkg(id: &str, name: &str, version: &str, repo: Option<&str>, ws: bool) -> PackageInfo {
    PackageInfo {
        id: id.to_string(),
        name: name.to_string(),
        version: version.to_string(),
        repository: repo.map(|r| r.to_string()),
        workspace_member: ws,
    }
}

fn raw(platform: &str, url: &str) -> RawLink {
    RawLink {
        platform: Some(platform.to_string()),
        url: Some(url.to_string()),
    }
}

#[test]
fn platform_ko_fi_any_case_maps_to_kofi() {
    assert_eq!(Platform::from_text("KO_FI"), Platform::Kofi);
    assert_eq!(Platform::from_text("ko_fi"), Platform::Kofi);
    assert_eq!(Platform::from_text("Ko_Fi"), Platform::Kofi);
    assert_ne!(Platform::from_text("KO_FI"), Platform::Other("KO_FI".to_string()));
}

#[test]
fn platform_tokens_map_to_variants() {
    assert_eq!(Platform::from_text("COMMUNITY_BRIDGE"), Platform::CommunityBridge);
    assert_eq!(Platform::from_text("custom"), Platform::Custom);
    assert_eq!(Platform::from_text("GITHUB"), Platform::Github);
    assert_eq!(Platform::from_text("IssueHunt"), Platform::IssueHunt);
    assert_eq!(Platform::from_text("LIBERAPAY"), Platform::Liberapay);
    assert_eq!(Platform::from_text("open_collective"), Platform::OpenCollective);
    assert_eq!(Platform::from_text("OTECHIE"), Platform::Otechie);
    assert_eq!(Platform::from_text("PATREON"), Platform::Patreon);
    assert_eq!(Platform::from_text("TIDELIFT"), Platform::Tidelift);
    assert_eq!(
        Platform::from_text("SOME_NEW_THING"),
        Platform::Other("SOME_NEW_THING".to_string())
    );
    assert_eq!(
        Platform::from_text("kofi"),
        Platform::Other("kofi".to_string())
    );
}

#[test]
fn owner_link_is_synthesized_from_login() {
    let l = owner_link("acfoltzer").expect("owner link builds");
    assert_eq!(l.platform, Platform::Github);
    assert_eq!(l.uri, "https://github.com/sponsors/acfoltzer");
}

#[test]
fn github_platform_url_gets_sponsors_prefix() {
    let l = Link::from_pair("GITHUB", "https://github.com/acfoltzer").expect("link builds");
    assert_eq!(l.platform, Platform::Github);
    assert_eq!(l.uri, "https://github.com/sponsors/acfoltzer");
}

#[test]
fn other_platform_url_is_normalized_only() {
    let l = Link::from_pair("KO_FI", "https://ko-fi.com/acfoltzer").expect("link builds");
    assert_eq!(l.platform, Platform::Kofi);
    assert_eq!(l.uri, "https://ko-fi.com/acfoltzer");
    let l = Link::from_pair("CUSTOM", "https://www.acfoltzer.net").expect("link builds");
    assert_eq!(l.uri, "https://www.acfoltzer.net/");
}

#[test]
fn unparsable_link_url_is_dropped() {
    assert!(Link::from_pair("CUSTOM", "http://[").is_none());
}

#[test]
fn sources_from_github_repository_url() {
    let repo = Some("https://github.com/acfoltzer/funding-test".to_string());
    let sources = try_get_sources(&repo).expect("sources extract");
    assert_eq!(
        sources,
        vec![
            GithubLinkSource::Repo {
                owner: "acfoltzer".to_string(),
                name: "funding-test".to_string()
            },
            GithubLinkSource::Owner {
                owner: "acfoltzer".to_string()
            },
        ]
    );
}

#[test]
fn sources_trim_git_suffix_and_accept_www() {
    let repo = Some("https://www.github.com/acfoltzer/funding-test.git".to_string());
    let sources = try_get_sources(&repo).expect("sources extract");
    assert_eq!(
        sources[0],
        GithubLinkSource::Repo {
            owner: "acfoltzer".to_string(),
            name: "funding-test".to_string()
        }
    );
    assert_eq!(sources[0].owner(), "acfoltzer");
    assert_eq!(sources[1].owner(), "acfoltzer");
}

#[test]
fn sources_skip_other_hosts_and_missing_urls() {
    assert_eq!(
        try_get_sources(&Some("https://gitlab.com/a/b".to_string())).expect("no error"),
        vec![]
    );
    assert_eq!(try_get_sources(&None).expect("no error"), vec![]);
}

#[test]
fn sources_short_github_path_is_fatal() {
    let r = try_get_sources(&Some("https://github.com/acfoltzer".to_string()));
    assert_eq!(
        r,
        Err(FundError::NotGithubUri(
            "https://github.com/acfoltzer".to_string()
        ))
    );
}

#[test]
fn collect_sources_shares_entries_across_packages() {
    let packages = vec![
        pkg("root-id", "root", "0.1.0", None, true),
        pkg(
            "a-id",
            "a",
            "1.0.0",
            Some("https://github.com/owner/shared"),
            false,
        ),
        pkg(
            "b-id",
            "b",
            "2.0.0",
            Some("https://github.com/owner/shared"),
            false,
        ),
    ];
    let entries = collect_sources(&packages).expect("collection succeeds");
    assert_eq!(entries.len(), 2);
    assert_eq!(
        entries[0].source,
        GithubLinkSource::Repo {
            owner: "owner".to_string(),
            name: "shared".to_string()
        }
    );
    assert_eq!(entries[0].pkgs, vec![1, 2]);
    assert_eq!(
        entries[1].source,
        GithubLinkSource::Owner {
            owner: "owner".to_string()
        }
    );
    assert_eq!(entries[1].pkgs, vec![1, 2]);
}

#[test]
fn missing_token() {
    let expected = "Github API token must be provided through the CARGO_FUND_GITHUB_API_TOKEN \
                    environment variable or the --github-api-token flag.";
    assert_eq!(FundError::MissingToken.message(), expected);
}

#[test]
fn invalid_token() {
    let expected = "Invalid Github API token. Create a token with the `public_repo` and `user` \
                    scopes at https://github.com/settings/tokens.";
    let e = check_status(401).expect_err("401 is fatal");
    assert_eq!(e, FundError::InvalidToken);
    assert_eq!(e.message(), expected);
    assert!(check_status(200).is_ok());
}

#[test]
fn insufficient_scopes() {
    let expected = "Insufficient Github API token scopes. Modify your token to include the \
                    `public_repo` and `user` scopes at https://github.com/settings/tokens.";
    let errors = vec![ApiErrorEntry {
        message: Some("scopes".to_string()),
        etype: Some("INSUFFICIENT_SCOPES".to_string()),
    }];
    let e = classify_errors(&errors).expect_err("scope error is fatal");
    assert_eq!(e, FundError::InsufficientScopes);
    assert_eq!(e.message(), expected);
}

#[test]
fn unexpected_status_names_the_code() {
    let e = check_status(502).expect_err("non-200 is fatal");
    assert_eq!(e, FundError::UnexpectedStatus(502));
    assert_eq!(e.message(), "Github API returned unexpected status: 502");
}

#[test]
fn classify_not_found_is_recoverable() {
    let errors = vec![
        ApiErrorEntry {
            message: Some("repo one is gone".to_string()),
            etype: Some("NOT_FOUND".to_string()),
        },
        ApiErrorEntry {
            message: Some("repo two is gone".to_string()),
            etype: Some("NOT_FOUND".to_string()),
        },
    ];
    let warnings = classify_errors(&errors).expect("NOT_FOUND is recoverable");
    assert_eq!(
        warnings,
        vec!["repo one is gone".to_string(), "repo two is gone".to_string()]
    );
}

#[test]
fn classify_malformed_and_unknown_entries() {
    let errors = vec![ApiErrorEntry {
        message: None,
        etype: Some("NOT_FOUND".to_string()),
    }];
    assert_eq!(classify_errors(&errors), Err(FundError::MalformedResponse));
    let errors = vec![ApiErrorEntry {
        message: Some("boom".to_string()),
        etype: None,
    }];
    assert_eq!(classify_errors(&errors), Err(FundError::MalformedResponse));
    let errors = vec![ApiErrorEntry {
        message: Some("boom".to_string()),
        etype: Some("SOMETHING_ELSE".to_string()),
    }];
    assert_eq!(
        classify_errors(&errors),
        Err(FundError::ApiError("boom".to_string()))
    );
    let e = FundError::ApiError("boom".to_string());
    assert_eq!(e.message(), "Github API response contained error: boom");
}

#[test]
fn not_found_alias_contributes_zero_links() {
    // three repository sources over three packages; the middle alias came
    // back NOT_FOUND, so its data is absent from the response
    let entries = vec![
        cargo_fund::source::SourceEntry {
            source: GithubLinkSource::Repo {
                owner: "one".to_string(),
                name: "r1".to_string(),
            },
            pkgs: vec![0],
        },
        cargo_fund::source::SourceEntry {
            source: GithubLinkSource::Repo {
                owner: "two".to_string(),
                name: "r2".to_string(),
            },
            pkgs: vec![1],
        },
        cargo_fund::source::SourceEntry {
            source: GithubLinkSource::Repo {
                owner: "three".to_string(),
                name: "r3".to_string(),
            },
            pkgs: vec![2],
        },
    ];
    let replies = vec![
        AliasReply::RepoLinks(vec![raw("KO_FI", "https://ko-fi.com/one")]),
        AliasReply::Absent,
        AliasReply::RepoLinks(vec![raw("PATREON", "https://patreon.com/three")]),
    ];
    let resolved = resolve_replies(&entries, &replies, 3).expect("no fatal reply");
    assert_eq!(resolved[0].len(), 1);
    assert_eq!(resolved[0][0].uri, "https://ko-fi.com/one");
    assert_eq!(resolved[1].len(), 0);
    assert_eq!(resolved[2].len(), 1);
    assert_eq!(resolved[2][0].uri, "https://patreon.com/three");
    assert_eq!(count_matched(&resolved), 2);
}

#[test]
fn malformed_raw_link_aborts_the_run() {
    let entries = vec![cargo_fund::source::SourceEntry {
        source: GithubLinkSource::Repo {
            owner: "one".to_string(),
            name: "r1".to_string(),
        },
        pkgs: vec![0],
    }];
    let replies = vec![AliasReply::RepoLinks(vec![RawLink {
        platform: Some("KO_FI".to_string()),
        url: None,
    }])];
    assert_eq!(
        resolve_replies(&entries, &replies, 1),
        Err(FundError::MalformedResponse)
    );
}

#[test]
fn repo_and_owner_links_merge_per_package() {
    let entries = vec![
        cargo_fund::source::SourceEntry {
            source: GithubLinkSource::Repo {
                owner: "owner".to_string(),
                name: "repo".to_string(),
            },
            pkgs: vec![0],
        },
        cargo_fund::source::SourceEntry {
            source: GithubLinkSource::Owner {
                owner: "owner".to_string(),
            },
            pkgs: vec![0],
        },
    ];
    let replies = vec![
        AliasReply::RepoLinks(vec![
            raw("KO_FI", "https://ko-fi.com/owner"),
            // a duplicate of the same link is deduplicated
            raw("KO_FI", "https://ko-fi.com/owner"),
        ]),
        AliasReply::OwnerListed,
    ];
    let resolved = resolve_replies(&entries, &replies, 1).expect("no fatal reply");
    assert_eq!(resolved[0].len(), 2);
    // canonical order: Github before Kofi
    assert_eq!(resolved[0][0].uri, "https://github.com/sponsors/owner");
    assert_eq!(resolved[0][0].platform, Platform::Github);
    assert_eq!(resolved[0][1].uri, "https://ko-fi.com/owner");
    assert_eq!(resolved[0][1].platform, Platform::Kofi);
}

#[test]
fn resolve_response_parses_a_real_body() {
    let packages = vec![
        pkg("root-id", "root", "0.1.0", None, true),
        pkg(
            "dep-id",
            "dep",
            "1.0.0",
            Some("https://github.com/owner/repo"),
            false,
        ),
    ];
    let entries = collect_sources(&packages).expect("collection succeeds");
    let body = "{\"data\": {\"_0\": {\"fundingLinks\": [{\"platform\": \"KO_FI\", \"url\": \
                \"https://ko-fi.com/owner\"}]}, \"_1\": {\"sponsorsListing\": {\"id\": \"x\"}}}}";
    let (resolved, warnings) = resolve_response(&entries, packages.len(), 200, body)
        .expect("response resolves");
    assert!(warnings.is_empty());
    assert_eq!(resolved[0].len(), 0);
    assert_eq!(resolved[1].len(), 2);
    assert_eq!(resolved[1][0].uri, "https://github.com/sponsors/owner");
    assert_eq!(resolved[1][1].uri, "https://ko-fi.com/owner");
}

#[test]
fn resolve_response_with_not_found_error_entry() {
    let packages = vec![
        pkg(
            "a-id",
            "a",
            "1.0.0",
            Some("https://github.com/owner/gone"),
            false,
        ),
    ];
    let entries = collect_sources(&packages).expect("collection succeeds");
    let body = "{\"data\": {\"_0\": null, \"_1\": {\"sponsorsListing\": null}}, \"errors\": \
                [{\"type\": \"NOT_FOUND\", \"message\": \"Could not resolve\", \"path\": [\"_0\"]}]}";
    let (resolved, warnings) = resolve_response(&entries, packages.len(), 200, body)
        .expect("NOT_FOUND is recoverable");
    assert_eq!(warnings, vec!["Could not resolve".to_string()]);
    assert_eq!(resolved[0].len(), 0);
}

#[test]
fn resolve_response_rejects_bad_status_and_body() {
    let entries: Vec<cargo_fund::source::SourceEntry> = Vec::new();
    assert_eq!(
        resolve_response(&entries, 0, 401, "{}"),
        Err(FundError::InvalidToken)
    );
    assert_eq!(
        resolve_response(&entries, 0, 503, "{}"),
        Err(FundError::UnexpectedStatus(503))
    );
    assert_eq!(
        resolve_response(&entries, 0, 200, "not json"),
        Err(FundError::MalformedResponse)
    );
}

#[test]
fn sources_take_first_two_path_components() {
    let repo = Some("https://github.com/owner/repo/tree/main".to_string());
    let sources = try_get_sources(&repo).expect("sources extract");
    assert_eq!(
        sources[0],
        GithubLinkSource::Repo {
            owner: "owner".to_string(),
            name: "repo".to_string()
        }
    );
}

#[test]
fn sources_trim_every_git_suffix_repetition() {
    let repo = Some("https://github.com/owner/repo.git.git".to_string());
    let sources = try_get_sources(&repo).expect("sources extract");
    assert_eq!(
        sources[0],
        GithubLinkSource::Repo {
            owner: "owner".to_string(),
            name: "repo".to_string()
        }
    );
}

#[test]
fn status_message_renders_large_codes() {
    let e = check_status(65535).expect_err("non-200 is fatal");
    assert_eq!(e.message(), "Github API returned unexpected status: 65535");
}

#[test]
fn effective_token_prefers_the_flag() {
    let args = cargo_fund::args::Args {
        github_api_token: Some("flag-token".to_string()),
        manifest_path: None,
        verbose: 0,
        quiet: false,
        color: None,
        unstable_flags: vec![],
    };
    let env = cargo_fund::args::Env {
        github_api_token: Some("env-token".to_string()),
    };
    assert_eq!(args.effective_token(&env), Ok("flag-token".to_string()));
    let args = cargo_fund::args::Args {
        github_api_token: None,
        manifest_path: None,
        verbose: 0,
        quiet: false,
        color: None,
        unstable_flags: vec![],
    };
    assert_eq!(args.effective_token(&env), Ok("env-token".to_string()));
    let empty = cargo_fund::args::Env {
        github_api_token: None,
    };
    assert_eq!(args.effective_token(&empty), Err(FundError::MissingToken));
}

#[test]
fn dropped_link_leaves_a_warning_notice() {
    let packages = vec![
        pkg(
            "dep-id",
            "dep",
            "1.0.0",
            Some("https://github.com/owner/repo"),
            false,
        ),
    ];
    let entries = collect_sources(&packages).expect("collection succeeds");
    let body = "{\"data\": {\"_0\": {\"fundingLinks\": [{\"platform\": \"CUSTOM\", \"url\": \
                \"http://[\"}, {\"platform\": \"KO_FI\", \"url\": \"https://ko-fi.com/owner\"}]}, \
                \"_1\": {\"sponsorsListing\": null}}}";
    let (resolved, warnings) = resolve_response(&entries, packages.len(), 200, body)
        .expect("response resolves");
    assert_eq!(resolved[0].len(), 1);
    assert_eq!(resolved[0][0].uri, "https://ko-fi.com/owner");
    assert_eq!(
        warnings,
        vec!["could not parse funding link; skipping: CUSTOM http://[".to_string()]
    );
}
