use soulgit_proposals::delete_matching_except;

#[test]
fn deletes_only_the_selected_metadata_family() {
    let refs: Vec<(String, String)> = vec![
        ("refs/soulgit/proposals/p/state/open".into(), "a".into()),
        ("refs/soulgit/proposals/p/checks/tests/passed".into(), "a".into()),
    ];
    assert_eq!(
        delete_matching_except(&refs, &["/state/"], &[]),
        [":refs/soulgit/proposals/p/state/open"]
    );
    assert!(delete_matching_except(
        &refs,
        &["/state/"],
        &["refs/soulgit/proposals/p/state/open"]
    )
    .is_empty());
}

use soulgit_proposals::commands::{
    actor, check_push_args, create_push_args, current_head, list_lines, ls_remote_pattern,
    new_proposal_id, parse_ls_remote, proposal_id_from_uuid, push_atomic_args,
    review_push_args, state_push_args, update_push_args,
};
use soulgit_proposals::{
    project, validate_id, CheckResult, ParseError, ProposalState, ReviewDecision,
};

fn pairs(v: &[(&str, &str)]) -> Vec<(String, String)> {
    v.iter().map(|(a, b)| (a.to_string(), b.to_string())).collect()
}

#[test]
fn deletion_keeps_refs_without_a_marker_and_kept_refs() {
    let refs = pairs(&[
        ("refs/soulgit/proposals/p/target/main", "a"),
        ("refs/soulgit/proposals/p/author/x", "a"),
        ("refs/soulgit/proposals/p/state/open", "a"),
        ("refs/soulgit/proposals/p/head", "a"),
    ]);
    assert_eq!(
        delete_matching_except(
            &refs,
            &["/target/", "/state/"],
            &["refs/soulgit/proposals/p/state/open"]
        ),
        [":refs/soulgit/proposals/p/target/main"]
    );
    assert_eq!(delete_matching_except(&refs, &[], &[]), Vec::<String>::new());
    assert_eq!(delete_matching_except(&refs, &[""], &[]).len(), 4);
}

#[test]
fn current_head_finds_the_first_head_ref() {
    let refs = pairs(&[
        ("refs/soulgit/proposals/p/state/open", "a"),
        ("refs/soulgit/proposals/p/head", "b"),
        ("refs/soulgit/proposals/p/head", "c"),
    ]);
    assert_eq!(current_head("p", &refs), Ok(Some("b".to_string())));
    assert_eq!(current_head("q", &refs), Ok(None));
    assert_eq!(current_head("a b", &refs), Err(ParseError::InvalidId("a b".into())));
}

#[test]
fn ls_remote_patterns() {
    assert_eq!(ls_remote_pattern("*"), "refs/soulgit/proposals/*");
    assert_eq!(ls_remote_pattern("p-1"), "refs/soulgit/proposals/p-1/*");
}

#[test]
fn ls_remote_output_is_read_line_by_line() {
    let out = "aaa\trefs/soulgit/proposals/p/head\r\nbbb refs/x  \nnowhitespace\n\nccc\u{2003} refs/y\n";
    assert_eq!(
        parse_ls_remote(out),
        [
            ("refs/soulgit/proposals/p/head".to_string(), "aaa".to_string()),
            ("refs/x".to_string(), "bbb".to_string()),
            ("refs/y".to_string(), "ccc".to_string()),
        ]
    );
    assert!(parse_ls_remote("").is_empty());
    assert_eq!(parse_ls_remote("o n\r"), [("n".to_string(), "o".to_string())]);
}

#[test]
fn push_arguments() {
    assert_eq!(
        push_atomic_args("origin", Some(("refs/h", "abc")), vec!["x:y".to_string()]),
        ["push", "--atomic", "--force-with-lease=refs/h:abc", "origin", "x:y"]
    );
    assert_eq!(push_atomic_args("o", None, vec![]), ["push", "--atomic", "o"]);
}

#[test]
fn actor_is_trimmed_and_validated() {
    assert_eq!(actor("  alice@example.com\n"), Ok("alice@example.com".to_string()));
    assert_eq!(actor("\u{a0}bob\u{3000}"), Ok("bob".to_string()));
    assert_eq!(actor("  "), Err(ParseError::InvalidActor(String::new())));
    assert_eq!(actor(" a/b "), Err(ParseError::InvalidActor("a/b".into())));
}

#[test]
fn create_pushes_all_metadata_at_once() {
    assert_eq!(
        create_push_args("p-1", "origin", "main", "alice", "abc").unwrap(),
        [
            "push",
            "--atomic",
            "--force-with-lease=refs/soulgit/proposals/p-1/head:",
            "origin",
            "abc:refs/soulgit/proposals/p-1/head",
            "abc:refs/soulgit/proposals/p-1/target/main",
            "abc:refs/soulgit/proposals/p-1/author/alice",
            "abc:refs/soulgit/proposals/p-1/state/open",
        ]
    );
    assert_eq!(
        create_push_args("p 1", "o", "m..", "a/b", "x"),
        Err(ParseError::InvalidId("p 1".into()))
    );
    assert_eq!(
        create_push_args("p", "o", "m..", "a/b", "x"),
        Err(ParseError::InvalidTarget("m..".into()))
    );
    assert_eq!(
        create_push_args("p", "o", "m", "a/b", "x"),
        Err(ParseError::InvalidActor("a/b".into()))
    );
}

#[test]
fn update_rewrites_metadata_and_keeps_attestations() {
    let listing = [
        ("refs/soulgit/proposals/p/head", "old"),
        ("refs/soulgit/proposals/p/target/dev", "old"),
        ("refs/soulgit/proposals/p/target/main", "old"),
        ("refs/soulgit/proposals/p/author/alice", "old"),
        ("refs/soulgit/proposals/p/state/approved", "old"),
        ("refs/soulgit/proposals/p/reviews/bob/approved", "old"),
    ];
    let refs = pairs(&listing);
    let current = project(&listing).pop().unwrap();
    assert_eq!(current.target, "dev");
    assert_eq!(
        update_push_args("p", "origin", &refs, &current, "new").unwrap(),
        [
            "push",
            "--atomic",
            "--force-with-lease=refs/soulgit/proposals/p/head:old",
            "origin",
            ":refs/soulgit/proposals/p/target/main",
            ":refs/soulgit/proposals/p/state/approved",
            "+new:refs/soulgit/proposals/p/head",
            "+new:refs/soulgit/proposals/p/target/dev",
            "+new:refs/soulgit/proposals/p/author/alice",
            "+new:refs/soulgit/proposals/p/state/open",
        ]
    );
    assert_eq!(
        update_push_args("p q", "origin", &refs, &current, "new"),
        Err(ParseError::InvalidId("p q".into()))
    );
}

#[test]
fn attestations_replace_their_own_family() {
    let refs = pairs(&[
        ("refs/soulgit/proposals/p/reviews/bob/changes-requested", "h"),
        ("refs/soulgit/proposals/p/reviews/bobby/approved", "h"),
        ("refs/soulgit/proposals/p/checks/ci/failed", "h"),
        ("refs/soulgit/proposals/p/state/open", "h"),
    ]);
    assert_eq!(
        review_push_args("p", "o", "bob", ReviewDecision::Approved, &refs, "h").unwrap(),
        [
            "push",
            "--atomic",
            "o",
            ":refs/soulgit/proposals/p/reviews/bob/changes-requested",
            "+h:refs/soulgit/proposals/p/reviews/bob/approved",
        ]
    );
    assert_eq!(
        check_push_args("p", "o", "ci", CheckResult::Passed, &refs, "h").unwrap(),
        [
            "push",
            "--atomic",
            "o",
            ":refs/soulgit/proposals/p/checks/ci/failed",
            "+h:refs/soulgit/proposals/p/checks/ci/passed",
        ]
    );
    assert_eq!(
        state_push_args("p", "o", ProposalState::Open, &refs, "h").unwrap(),
        ["push", "--atomic", "o", "+h:refs/soulgit/proposals/p/state/open"]
    );
    assert_eq!(
        review_push_args("p", "o", "b/c", ReviewDecision::Approved, &refs, "h"),
        Err(ParseError::InvalidActor("b/c".into()))
    );
    assert_eq!(
        check_push_args("", "o", "ci", CheckResult::Passed, &refs, "h"),
        Err(ParseError::InvalidId(String::new()))
    );
    assert_eq!(
        state_push_args("..", "o", ProposalState::Merged, &refs, "h"),
        Err(ParseError::InvalidId("..".into()))
    );
}

#[test]
fn listing_lines() {
    assert_eq!(list_lines(&[]), ["(no proposals)"]);
    let listing = [
        ("refs/soulgit/proposals/p-1/head", "0123456789abcdef0123"),
        ("refs/soulgit/proposals/p-1/author/alice", "0123456789abcdef0123"),
        ("refs/soulgit/proposals/q/head", "abc"),
    ];
    let lines = list_lines(&project(&listing));
    assert_eq!(
        lines,
        [
            format!("{:<24} {} {:<20} {} -> {}", "p-1", "open", "alice", "0123456789ab", "main"),
            format!("{:<24} {} {:<20} {} -> {}", "q", "open", "unknown", "abc", "main"),
        ]
    );
    assert_eq!(lines[0].len(), 24 + 1 + 4 + 1 + 20 + 1 + 12 + 4 + 4);
}

#[test]
fn proposal_ids_from_uuids() {
    assert_eq!(proposal_id_from_uuid("0123456789abcdef0123456789abcdef"), "p-0123456789ab");
    let id = new_proposal_id();
    assert_eq!(id.len(), 14);
    assert!(id.starts_with("p-"));
    assert!(id[2..].bytes().all(|b| b.is_ascii_hexdigit() && !b.is_ascii_uppercase()));
    assert!(validate_id(&id).is_ok());
    assert_ne!(new_proposal_id(), new_proposal_id());
}

#[test]
fn rewrites_touch_only_the_families_of_the_proposal() {
    let listing = [
        ("refs/soulgit/proposals/p/head", "old"),
        ("refs/soulgit/proposals/p/target/main", "old"),
        ("refs/soulgit/proposals/p/checks/target/passed", "old"),
        ("refs/soulgit/proposals/p/reviews/state/approved", "old"),
    ];
    let refs = pairs(&listing);
    let current = project(&listing).pop().unwrap();
    let args = update_push_args("p", "origin", &refs, &current, "new").unwrap();
    assert!(!args.iter().any(|a| a.starts_with(':')));

    let refs = pairs(&[
        ("refs/soulgit/proposals/state/head", "h"),
        ("refs/soulgit/proposals/state/state/open", "h"),
    ]);
    assert_eq!(
        state_push_args("state", "o", ProposalState::Merged, &refs, "h").unwrap(),
        [
            "push",
            "--atomic",
            "o",
            ":refs/soulgit/proposals/state/state/open",
            "+h:refs/soulgit/proposals/state/state/merged",
        ]
    );

    let refs = pairs(&[
        ("refs/soulgit/proposals/reviews/head", "h"),
        ("refs/soulgit/proposals/reviews/target/main", "h"),
    ]);
    assert_eq!(
        review_push_args("reviews", "o", "target", ReviewDecision::Approved, &refs, "h").unwrap(),
        ["push", "--atomic", "o", "+h:refs/soulgit/proposals/reviews/reviews/target/approved"]
    );
    let refs = pairs(&[
        ("refs/soulgit/proposals/checks/head", "h"),
        ("refs/soulgit/proposals/checks/target/main", "h"),
    ]);
    assert_eq!(
        check_push_args("checks", "o", "target", CheckResult::Passed, &refs, "h").unwrap(),
        ["push", "--atomic", "o", "+h:refs/soulgit/proposals/checks/checks/target/passed"]
    );
}

/// The remote's refs after a push of `refspecs`: `:<name>` deletes, and
/// `+<oid>:<name>` sets `name` to `oid`, listed last.
fn after_push(refs: &[(String, String)], refspecs: &[String]) -> Vec<(String, String)> {
    let mut out = refs.to_vec();
    for spec in refspecs {
        let body = spec.strip_prefix('+').unwrap_or(spec);
        let (oid, name) = body.split_once(':').unwrap();
        out.retain(|(n, _)| n != name);
        if !oid.is_empty() {
            out.push((name.to_string(), oid.to_string()));
        }
    }
    out
}

#[test]
fn an_applied_update_projects_at_the_new_head() {
    let listing = [
        ("refs/soulgit/proposals/p/head", "old"),
        ("refs/soulgit/proposals/p/target/dev", "old"),
        ("refs/soulgit/proposals/p/author/alice", "old"),
        ("refs/soulgit/proposals/p/state/approved", "old"),
        ("refs/soulgit/proposals/p/reviews/bob/approved", "old"),
        ("refs/soulgit/proposals/p/checks/ci/passed", "old"),
    ];
    let refs = pairs(&listing);
    let current = project(&listing).pop().unwrap();
    let args = update_push_args("p", "origin", &refs, &current, "new").unwrap();
    let after = after_push(&refs, &args[4..]);
    assert!(after.iter().any(|(n, o)| n == "refs/soulgit/proposals/p/reviews/bob/approved" && o == "old"));
    let view: Vec<(&str, &str)> = after.iter().map(|(n, o)| (n.as_str(), o.as_str())).collect();
    let ps = project(&view);
    assert_eq!(ps.len(), 1);
    let p = &ps[0];
    assert_eq!((p.head.as_str(), p.target.as_str(), p.author.as_str()), ("new", "dev", "alice"));
    assert_eq!(p.state, ProposalState::Open);
    assert!(p.reviews.is_empty() && p.checks.is_empty() && p.healthy);
}

#[test]
fn family_deletion_matches_name_prefixes_only() {
    let refs = pairs(&[
        ("refs/soulgit/proposals/p/state/open", "h"),
        ("refs/soulgit/proposals/p/checks/state/passed", "h"),
        ("refs/soulgit/proposals/state/head", "h"),
        ("refs/soulgit/proposals/p/state/merged", "h"),
    ]);
    assert_eq!(
        soulgit_proposals::commands::delete_family_except(
            &refs,
            &["refs/soulgit/proposals/p/state/"],
            &["refs/soulgit/proposals/p/state/merged"],
        ),
        [":refs/soulgit/proposals/p/state/open"]
    );
    assert_eq!(
        delete_matching_except(&refs, &["/state/"], &["refs/soulgit/proposals/p/state/merged"]).len(),
        3
    );
}
