use soulgit_proposals::project::existing_proposal;
use soulgit_proposals::{
    author_ref, check_ref, head_ref, project, review_ref, state_ref, target_ref, CheckResult,
    ProposalState, ReviewDecision,
};

const A: &str = "aaaaaaaaaaaaaaaaaaaaaaaaaaaaaaaaaaaaaaaa";
const B: &str = "bbbbbbbbbbbbbbbbbbbbbbbbbbbbbbbbbbbbbbbb";

#[test]
fn created_refs_project_back() {
    let names = [
        head_ref("new-1").unwrap(),
        target_ref("new-1", "release/2").unwrap(),
        author_ref("new-1", "carol@example.com").unwrap(),
        state_ref("new-1", ProposalState::Open).unwrap(),
    ];
    let refs: Vec<(&str, &str)> = names.iter().map(|n| (n.as_str(), A)).collect();
    let ps = project(&refs);
    assert_eq!(ps.len(), 1);
    let p = &ps[0];
    assert_eq!(p.id, "new-1");
    assert_eq!(p.head, A);
    assert_eq!(p.target, "release/2");
    assert_eq!(p.author, "carol@example.com");
    assert_eq!(p.state, ProposalState::Open);
    assert!(p.reviews.is_empty());
    assert!(p.checks.is_empty());
    assert!(p.healthy);
    assert!(p.issues.is_empty());
}

#[test]
fn moving_the_head_makes_everything_stale() {
    let refs = [
        ("refs/soulgit/proposals/p/head", A),
        ("refs/soulgit/proposals/p/target/dev", A),
        ("refs/soulgit/proposals/p/author/alice", A),
        ("refs/soulgit/proposals/p/state/approved", A),
        ("refs/soulgit/proposals/p/reviews/bob/approved", A),
        ("refs/soulgit/proposals/p/checks/ci/passed", A),
        ("refs/soulgit/proposals/p/head", B),
    ];
    let p = project(&refs).pop().unwrap();
    assert_eq!(p.head, B);
    assert_eq!(p.target, "main");
    assert_eq!(p.author, "unknown");
    assert_eq!(p.state, ProposalState::Open);
    assert_eq!(p.approvals(), 0);
    assert_eq!(p.checks_passed(), 0);
    assert!(p.healthy);
}

#[test]
fn the_last_head_ref_wins() {
    let refs = [
        ("refs/soulgit/proposals/p/head", B),
        ("refs/soulgit/proposals/p/reviews/bob/approved", B),
        ("refs/soulgit/proposals/p/head", A),
    ];
    let p = project(&refs).pop().unwrap();
    assert_eq!(p.head, A);
    assert!(p.reviews.is_empty());
}

#[test]
fn proposals_without_head_or_with_bad_ids_are_dropped() {
    let refs = [
        ("refs/soulgit/proposals/nohead/state/open", A),
        ("refs/soulgit/proposals/..bad/head", A),
        ("refs/soulgit/proposals/head", A),
        ("refs/soulgit/proposalsx/p/head", A),
        ("refs/heads/main", A),
    ];
    assert!(project(&refs).is_empty());
}

#[test]
fn proposals_come_out_in_id_order() {
    let refs = [
        ("refs/soulgit/proposals/zeta/head", A),
        ("refs/soulgit/proposals/Alpha/head", A),
        ("refs/soulgit/proposals/alpha/head", B),
        ("refs/soulgit/proposals/mid/head", A),
    ];
    let ids: Vec<String> = project(&refs).into_iter().map(|p| p.id).collect();
    assert_eq!(ids, ["Alpha", "alpha", "mid", "zeta"]);
}

#[test]
fn least_metadata_wins_and_conflicts_are_reported() {
    let refs = [
        ("refs/soulgit/proposals/p/head", A),
        ("refs/soulgit/proposals/p/target/zz", A),
        ("refs/soulgit/proposals/p/target/main", A),
        ("refs/soulgit/proposals/p/author/zed", A),
        ("refs/soulgit/proposals/p/author/amy", A),
        ("refs/soulgit/proposals/p/state/reviewing", A),
        ("refs/soulgit/proposals/p/state/merged", A),
        ("refs/soulgit/proposals/p/reviews/bob/changes-requested", A),
        ("refs/soulgit/proposals/p/reviews/bob/approved", A),
        ("refs/soulgit/proposals/p/reviews/al/approved", A),
        ("refs/soulgit/proposals/p/checks/ci/passed", A),
        ("refs/soulgit/proposals/p/checks/ci/failed", A),
    ];
    let p = project(&refs).pop().unwrap();
    assert_eq!(p.target, "main");
    assert_eq!(p.author, "amy");
    assert_eq!(p.state, ProposalState::Merged);
    let reviews: Vec<(String, ReviewDecision)> =
        p.reviews.iter().map(|r| (r.reviewer.clone(), r.decision)).collect();
    assert_eq!(
        reviews,
        [
            ("al".to_string(), ReviewDecision::Approved),
            ("bob".to_string(), ReviewDecision::Approved),
            ("bob".to_string(), ReviewDecision::ChangesRequested),
        ]
    );
    let checks: Vec<(String, CheckResult)> =
        p.checks.iter().map(|c| (c.runner.clone(), c.result)).collect();
    assert_eq!(
        checks,
        [("ci".to_string(), CheckResult::Failed), ("ci".to_string(), CheckResult::Passed)]
    );
    assert_eq!(p.approvals(), 2);
    assert_eq!(p.checks_passed(), 1);
    assert!(!p.healthy);
    assert_eq!(
        p.issues,
        [
            "multiple current target refs",
            "multiple current author refs",
            "multiple current state refs",
            "multiple current reviews from bob",
            "multiple current checks from ci",
        ]
    );
}

#[test]
fn malformed_metadata_is_ignored() {
    let refs = [
        ("refs/soulgit/proposals/p/head", A),
        ("refs/soulgit/proposals/p/target/bad..name", A),
        ("refs/soulgit/proposals/p/author/team/agent", A),
        ("refs/soulgit/proposals/p/state/closed", A),
        ("refs/soulgit/proposals/p/reviews/bob", A),
        ("refs/soulgit/proposals/p/reviews/bob/fine", A),
        ("refs/soulgit/proposals/p/checks/ci/passed/extra", A),
        ("refs/soulgit/proposals/p/notes/anything", A),
    ];
    let p = project(&refs).pop().unwrap();
    assert_eq!(p.target, "main");
    assert_eq!(p.author, "unknown");
    assert_eq!(p.state, ProposalState::Open);
    assert!(p.reviews.is_empty());
    assert!(p.checks.is_empty());
    assert!(p.healthy);
}

#[test]
fn a_review_at_the_head_counts() {
    let review = review_ref("p", "dana", ReviewDecision::Approved).unwrap();
    let check = check_ref("p", "lint", CheckResult::Passed).unwrap();
    let refs = [
        ("refs/soulgit/proposals/p/head", B),
        (review.as_str(), B),
        (check.as_str(), B),
        ("refs/heads/main", B),
    ];
    let p = project(&refs).pop().unwrap();
    assert_eq!(p.approvals(), 1);
    assert_eq!(p.checks_passed(), 1);
    assert_eq!(p.reviews[0].reviewer, "dana");
    assert_eq!(p.checks[0].runner, "lint");
}

fn summaries(listing: &[(&str, &str)]) -> Vec<soulgit_proposals::Proposal> {
    project(listing)
}

#[test]
fn one_commit_of_attestations_round_trips() {
    let names = [
        head_ref("p").unwrap(),
        target_ref("p", "main").unwrap(),
        author_ref("p", "alice").unwrap(),
        state_ref("p", ProposalState::Reviewing).unwrap(),
        review_ref("p", "bob", ReviewDecision::Approved).unwrap(),
        check_ref("p", "ci", CheckResult::Passed).unwrap(),
    ];
    let refs: Vec<(&str, &str)> = names.iter().map(|n| (n.as_str(), A)).collect();
    let ps = summaries(&refs);
    assert_eq!(ps.len(), 1);
    let p = &ps[0];
    assert_eq!((p.id.as_str(), p.head.as_str(), p.target.as_str()), ("p", A, "main"));
    assert_eq!((p.author.as_str(), p.state), ("alice", ProposalState::Reviewing));
    assert_eq!(p.reviews.len(), 1);
    assert_eq!((p.reviews[0].reviewer.as_str(), p.reviews[0].decision), ("bob", ReviewDecision::Approved));
    assert_eq!(p.checks.len(), 1);
    assert_eq!((p.checks[0].runner.as_str(), p.checks[0].result), ("ci", CheckResult::Passed));
    assert!(p.healthy && p.issues.is_empty());
}

#[test]
fn stale_and_foreign_refs_change_nothing() {
    let base = [
        ("refs/soulgit/proposals/p/head", A),
        ("refs/soulgit/proposals/p/target/main", A),
        ("refs/soulgit/proposals/p/reviews/bob/approved", A),
    ];
    let before = summaries(&base);
    let mut more = base.to_vec();
    more.push(("refs/soulgit/proposals/p/reviews/carol/approved", B));
    more.push(("refs/heads/main", A));
    more.push(("refs/soulgit/proposals/p/state/merged", B));
    assert_eq!(summaries(&more), before);
}

#[test]
fn listing_order_does_not_matter_for_distinct_names() {
    let listing = [
        ("refs/soulgit/proposals/q/head", B),
        ("refs/soulgit/proposals/p/checks/ci/failed", A),
        ("refs/soulgit/proposals/p/head", A),
        ("refs/soulgit/proposals/p/target/main", A),
        ("refs/soulgit/proposals/p/target/dev", A),
        ("refs/soulgit/proposals/q/reviews/bob/approved", B),
    ];
    let mut reversed = listing.to_vec();
    reversed.reverse();
    assert_eq!(summaries(&reversed), summaries(&listing));
}

#[test]
fn the_existing_proposal_is_the_last_projected() {
    assert_eq!(existing_proposal(&[("refs/soulgit/proposals/p/state/open", A)]), None);
    let listing = [
        ("refs/soulgit/proposals/a/head", A),
        ("refs/soulgit/proposals/b/head", B),
    ];
    let p = existing_proposal(&listing).unwrap();
    assert_eq!(p.id, "b");
    assert_eq!(p.head, B);
}
