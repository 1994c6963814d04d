use agentctl::error::Error;
use agentctl::excerpt::{find_bounded_end, floor_boundary, line_count, part};
use agentctl::git::{
    check_listing, check_query, configuration, driver_overrides, environment, git_failure,
    git_variable, head_commit, parse_remotes, path_line, record_complete, refuse_privileged,
    HeadAnswers,
};
use agentctl::ids::identifier;
use agentctl::planning::scope::{overlap, permits, safe_scope, ProtectedPath, ScopePath};
use agentctl::repository::{RepositoryId, WorkspaceId};
use agentctl::text;

fn message<T: std::fmt::Debug>(r: Result<T, Error>) -> String {
    match r.unwrap_err() {
        Error::Invalid(m) => m,
    }
}

#[test]
fn texts_are_trimmed_on_both_sides() {
    assert_eq!(text::trim("  a b \t\n"), "a b");
    assert_eq!(text::trim(" \u{a0}\u{2028} "), "");
    assert_eq!(text::trim(""), "");
    assert_eq!(text::trim("x"), "x");
}

#[test]
fn texts_are_padded_by_characters() {
    assert_eq!(text::pad("ab", 5), "ab   ");
    assert_eq!(text::pad("é", 3), "é  ");
    assert_eq!(text::pad("abcdef", 3), "abcdef");
}

#[test]
fn numbers_are_read_like_unsigned_integers() {
    assert_eq!(text::parse("0", 10), Some(0));
    assert_eq!(text::parse("+42", 100), Some(42));
    assert_eq!(text::parse("0007", 7), Some(7));
    assert_eq!(text::parse("18446744073709551615", u64::MAX), Some(u64::MAX));
    assert_eq!(text::parse("18446744073709551616", u64::MAX), None);
    assert_eq!(text::parse("8", 7), None);
    for bad in ["", "+", "-1", "1 ", " 1", "1_0", "++1", "x"] {
        assert_eq!(text::parse(bad, u64::MAX), None, "{bad}");
    }
    for s in ["0", "9", "10", "255", "256", "+255", "0256", "999"] {
        assert_eq!(
            text::parse(s, 255),
            s.parse::<u8>().ok().map(u64::from),
            "{s}"
        );
    }
}

#[test]
fn numbers_are_written_in_decimal() {
    assert_eq!(text::decimal(0), "0");
    assert_eq!(text::decimal(u64::MAX), "18446744073709551615");
}

#[test]
fn pieces_join_to_what_was_cut() {
    let pieces = text::split_ascii("a,,b,", b',');
    assert_eq!(pieces, ["a", "", "b", ""]);
    assert_eq!(pieces.join(","), "a,,b,");
    assert_eq!(text::split_ascii("", b','), [""]);
}

#[test]
fn a_set_of_texts_is_ordered_and_holds_each_once() {
    let v: Vec<String> = ["b", "a", "b", "é", "Z"].map(String::from).to_vec();
    assert_eq!(text::set_of(&v), ["Z", "a", "b", "é"]);
    let mut sorted: Vec<String> = v.clone();
    sorted.sort();
    sorted.dedup();
    assert_eq!(text::set_of(&v), sorted);
}

#[test]
fn a_part_of_a_text_never_splits_a_character() {
    let s = "aé日b";
    assert_eq!(floor_boundary(s, 2), 1);
    assert_eq!(floor_boundary(s, 5), 3);
    assert_eq!(part(s, 1, 3), "é");
    let end = find_bounded_end(s, 0, s.len(), 5, 10);
    assert_eq!(&s[..end], "aé");
    assert_eq!(find_bounded_end("a\nb\nc\n", 0, 6, 100, 2), 4);
    assert_eq!(line_count("a\nb"), 2);
    assert_eq!(line_count("a\nb\n"), 2);
}

#[test]
fn identifiers_are_checked() {
    assert!(identifier("plan:a-1"));
    assert!(!identifier(""));
    assert!(!identifier("a b"));
}

#[test]
fn identities_are_digests_of_directories() {
    let repo = RepositoryId::for_common_directory("/fixture/.git");
    assert_eq!(
        repo.as_str(),
        "repo-31e1d13919797932fb4618dd27de5e1671d637cb537ec5d6250c558018ccbbb3"
    );
    let workspace = WorkspaceId::for_git_directory("/fixture/.git");
    assert_eq!(
        workspace.as_str(),
        "workspace-7d9e319659d4ea288d55d81408bad672c3f86cdac615332ecd6e1fef2658ccb3"
    );
    assert!(RepositoryId::try_from(repo.as_str().to_string()).is_ok());
    assert_eq!(
        WorkspaceId::try_from(repo.as_str().to_string()).unwrap_err(),
        "workspace ID must be workspace- followed by 64 lowercase hex digits"
    );
    assert_eq!(
        RepositoryId::try_from(format!("repo-{}", "A".repeat(64))).unwrap_err(),
        "repository ID must be repo- followed by 64 lowercase hex digits"
    );
    assert_eq!(repo.clone().into_string(), repo.as_str());
}

#[test]
fn remotes_are_grouped_by_name_in_order() {
    let listing = "remote.origin.url\nhttps://a\0remote.backup.url\nb\0remote.origin.url\nc\0";
    let remotes = parse_remotes(listing).unwrap();
    assert_eq!(remotes.len(), 2);
    assert_eq!(remotes[0].name, "backup");
    assert_eq!(remotes[0].urls, ["b"]);
    assert_eq!(remotes[1].name, "origin");
    assert_eq!(remotes[1].urls, ["https://a", "c"]);
    assert!(parse_remotes("").unwrap().is_empty());
    assert_eq!(
        message(parse_remotes("remote.origin.url\0")),
        "malformed Git remote metadata"
    );
    assert_eq!(
        message(parse_remotes("branch.origin.url\nx\0")),
        "malformed Git remote name"
    );
}

#[test]
fn every_driver_is_neutralised() {
    let lines = driver_overrides(
        "filter.lfs.clean\0filter.lfs.smudge\0diff.a.b.textconv\0merge.m.driver\0filter.abc.process\0",
    );
    let lines: Vec<(&str, &str)> = lines.iter().map(|(k, v)| (k.as_str(), v.as_str())).collect();
    assert_eq!(
        lines,
        [
            ("diff.a.b.textconv", ""),
            ("diff.a.b.command", ""),
            ("merge.m.driver", ""),
            ("filter.abc.clean", ""),
            ("filter.abc.smudge", ""),
            ("filter.abc.process", ""),
            ("filter.abc.required", "false"),
            ("filter.lfs.clean", ""),
            ("filter.lfs.smudge", ""),
            ("filter.lfs.process", ""),
            ("filter.lfs.required", "false"),
        ]
    );
}

#[test]
fn git_is_started_with_its_configuration_in_variables() {
    let overrides = vec![("core.excludesFile".to_string(), "/dev/null".to_string())];
    let lines = configuration(&overrides, "/dev/null");
    assert_eq!(lines.len(), 4);
    assert_eq!(lines[0], ("core.fsmonitor".to_string(), "false".to_string()));
    assert_eq!(lines[3], overrides[0]);
    let variables = environment(&lines);
    assert_eq!(
        variables[0],
        ("GIT_CONFIG_COUNT".to_string(), "4".to_string())
    );
    assert_eq!(
        variables[7],
        (
            "GIT_CONFIG_KEY_3".to_string(),
            "core.excludesFile".to_string()
        )
    );
    assert_eq!(
        variables[8],
        ("GIT_CONFIG_VALUE_3".to_string(), "/dev/null".to_string())
    );
    assert_eq!(
        variables[10],
        ("GIT_ATTR_NOSYSTEM".to_string(), "1".to_string())
    );
    assert_eq!(variables.len(), 11);
    assert!(git_variable("GIT_DIR"));
    assert!(git_variable("git_dir"));
    assert!(!git_variable("GITHUB_TOKEN"));
    assert!(!git_variable("GIT"));
}

#[test]
fn failures_of_git_are_told() {
    assert_eq!(
        git_failure("/w", b" fatal: no \n"),
        "Git discovery in /w failed: fatal: no"
    );
    assert!(check_query(&Some(0), false, "/w", b"").is_ok());
    assert!(check_query(&Some(1), true, "/w", b"").is_ok());
    assert_eq!(
        message(check_query(&Some(1), false, "/w", b"x")),
        "Git discovery in /w failed: x"
    );
    assert_eq!(
        message(check_query(&None, true, "/w", b"\xff")),
        "Git discovery in /w failed: \u{fffd}"
    );
    assert_eq!(
        message(check_listing(false, "/w", "bad\n")),
        "Git source listing in /w failed: bad"
    );
    assert!(check_listing(true, "/w", "").is_ok());
}

#[test]
fn listing_records_end_with_their_terminator() {
    assert!(record_complete(&b"a\0".to_vec()).is_ok());
    assert_eq!(
        message(record_complete(&b"a".to_vec())),
        "Git source listing record is unterminated or oversized"
    );
    assert!(record_complete(&vec![]).is_err());
}

#[test]
fn root_keeps_out_of_other_peoples_repositories() {
    assert!(refuse_privileged(0, 0).is_ok());
    assert!(refuse_privileged(1000, 1001).is_ok());
    assert!(message(refuse_privileged(0, 1000)).starts_with("refusing to run agentctl"));
}

#[test]
fn a_head_is_a_commit_or_unborn() {
    let answers = |resolved: bool, symbolic: bool, lookup: Option<i32>| HeadAnswers {
        resolved,
        commit: "abc\n\n".to_string(),
        symbolic,
        lookup,
    };
    assert_eq!(
        head_commit(&answers(true, false, None), "f").unwrap(),
        Some("abc".to_string())
    );
    assert_eq!(head_commit(&answers(false, true, Some(1)), "f").unwrap(), None);
    assert_eq!(message(head_commit(&answers(false, true, Some(0)), "f")), "f");
    assert_eq!(message(head_commit(&answers(false, false, Some(1)), "f")), "f");
    assert_eq!(path_line("/a\n"), "/a");
    assert_eq!(path_line("/a\n\n"), "/a\n");
    assert_eq!(path_line("/a"), "/a");
}

#[test]
fn a_scope_permits_what_lies_in_it() {
    let directory = ScopePath::Directory { path: "src".into() };
    let file = ScopePath::File { path: "src/a.rs".into() };
    assert!(permits(&directory, "src/a.rs"));
    assert!(permits(&directory, "src"));
    assert!(!permits(&directory, "srcs/a.rs"));
    assert!(permits(&file, "src/a.rs"));
    assert!(!permits(&file, "src/a.rs/b"));
    assert!(overlap(&directory, &file));
    assert!(!overlap(&file, &ScopePath::File { path: "src/b.rs".into() }));
}

#[test]
fn protected_paths_are_refused() {
    let rules = vec![ProtectedPath {
        path: "secrets".into(),
        deny_read: false,
        deny_write: true,
    }];
    let scope = ScopePath::File { path: "secrets/key".into() };
    assert!(safe_scope(&None, &rules, &scope, false, false).is_ok());
    assert_eq!(
        message(safe_scope(&None, &rules, &scope, true, false)),
        "scope secrets/key intersects protected path secrets"
    );
    let git = ScopePath::Directory { path: "a/.git".into() };
    assert!(safe_scope(&None, &rules, &git, false, false).is_err());
    assert_eq!(
        message(safe_scope(&Some("rule".into()), &rules, &scope, false, false)),
        "rule"
    );
}
