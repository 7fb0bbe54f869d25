use soulgit_proposals::{author_ref, head_ref, project, target_ref, ProposalState};

const A: &str = "aaaaaaaaaaaaaaaaaaaaaaaaaaaaaaaaaaaaaaaa";
const B: &str = "bbbbbbbbbbbbbbbbbbbbbbbbbbbbbbbbbbbbbbbb";

#[test]
fn projects_current_revision_and_ignores_stale_attestations() {
    let refs = [
        ("refs/heads/main", A),
        ("refs/soulgit/proposals/p-1/head", B),
        ("refs/soulgit/proposals/p-1/target/main", B),
        ("refs/soulgit/proposals/p-1/author/alice@example.com", B),
        ("refs/soulgit/proposals/p-1/state/reviewing", B),
        ("refs/soulgit/proposals/p-1/reviews/bob@example.com/approved", B),
        ("refs/soulgit/proposals/p-1/checks/tests/passed", B),
        ("refs/soulgit/proposals/p-1/checks/security/failed", A),
    ];
    let proposals = project(&refs);
    assert_eq!(proposals.len(), 1);
    let p = &proposals[0];
    assert_eq!(p.id, "p-1");
    assert_eq!(p.head, B);
    assert_eq!(p.target, "main");
    assert_eq!(p.author, "alice@example.com");
    assert_eq!(p.state, ProposalState::Reviewing);
    assert_eq!(p.approvals(), 1);
    assert_eq!(p.checks_passed(), 1);
    assert!(p.healthy);
}

#[test]
fn detects_conflicting_current_metadata() {
    let refs = [
        ("refs/soulgit/proposals/p-2/head", A),
        ("refs/soulgit/proposals/p-2/state/open", A),
        ("refs/soulgit/proposals/p-2/state/approved", A),
    ];
    let p = project(&refs).pop().unwrap();
    assert!(!p.healthy);
    assert_eq!(p.issues, ["multiple current state refs"]);
}

#[test]
fn validates_ref_components() {
    assert!(head_ref("update-deps").is_ok());
    assert!(head_ref("../escape").is_err());
    assert!(target_ref("p", "feature/agent-hooks").is_ok());
    assert!(target_ref("p", "bad..branch").is_err());
    assert!(author_ref("p", "agent+review@example.com").is_ok());
    assert!(author_ref("p", "team/agent").is_err());
}
