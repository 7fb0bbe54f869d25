use soulgit_proposals::{
    author_ref, check_ref, head_ref, review_ref, state_ref, target_ref, validate_actor,
    validate_id, validate_target, CheckResult, ParseError, ProposalState, ReviewDecision,
    PROPOSAL_PREFIX,
};

#[test]
fn state_names_are_exact() {
    let expected = [
        (ProposalState::Open, "open"),
        (ProposalState::Reviewing, "reviewing"),
        (ProposalState::ChangesRequested, "changes-requested"),
        (ProposalState::Approved, "approved"),
        (ProposalState::Merging, "merging"),
        (ProposalState::Merged, "merged"),
        (ProposalState::Rejected, "rejected"),
        (ProposalState::Superseded, "superseded"),
        (ProposalState::Expired, "expired"),
    ];
    for (state, name) in expected {
        assert_eq!(state.as_str(), name);
        assert_eq!(ProposalState::from_name(name), Ok(state));
        assert_eq!(name.parse::<ProposalState>(), Ok(state));
    }
    assert_eq!(ProposalState::default(), ProposalState::Open);
}

#[test]
fn decision_and_result_names_are_exact() {
    assert_eq!(ReviewDecision::Approved.as_str(), "approved");
    assert_eq!(ReviewDecision::ChangesRequested.as_str(), "changes-requested");
    assert_eq!(ReviewDecision::from_name("approved"), Ok(ReviewDecision::Approved));
    assert_eq!(
        "changes-requested".parse::<ReviewDecision>(),
        Ok(ReviewDecision::ChangesRequested)
    );
    let results = [
        (CheckResult::Pending, "pending"),
        (CheckResult::Passed, "passed"),
        (CheckResult::Failed, "failed"),
        (CheckResult::Skipped, "skipped"),
    ];
    for (result, name) in results {
        assert_eq!(result.as_str(), name);
        assert_eq!(CheckResult::from_name(name), Ok(result));
    }
}

#[test]
fn unknown_names_are_errors() {
    assert_eq!(
        ProposalState::from_name("closed"),
        Err(ParseError::UnknownState("closed".to_string()))
    );
    assert_eq!(
        ProposalState::from_name("Open"),
        Err(ParseError::UnknownState("Open".to_string()))
    );
    assert_eq!(
        ReviewDecision::from_name("rejected"),
        Err(ParseError::UnknownReview("rejected".to_string()))
    );
    assert_eq!(
        CheckResult::from_name(""),
        Err(ParseError::UnknownCheck(String::new()))
    );
}

#[test]
fn error_messages() {
    assert_eq!(ParseError::InvalidId("x y".into()).message(), "invalid proposal id `x y`");
    assert_eq!(ParseError::InvalidActor("a/b".into()).message(), "invalid actor `a/b`");
    assert_eq!(
        ParseError::InvalidTarget("a..b".into()).message(),
        "invalid target branch `a..b`"
    );
    assert_eq!(ParseError::UnknownState("s".into()).message(), "unknown proposal state `s`");
    assert_eq!(ParseError::UnknownReview("d".into()).message(), "unknown review decision `d`");
    assert_eq!(ParseError::UnknownCheck("c".into()).message(), "unknown check result `c`");
}

#[test]
fn id_validation_edges() {
    assert!(validate_id("p-1").is_ok());
    assert!(validate_id("a.b_c-D9").is_ok());
    assert_eq!(validate_id(""), Err(ParseError::InvalidId(String::new())));
    assert!(validate_id(&"a".repeat(64)).is_ok());
    assert!(validate_id(&"a".repeat(65)).is_err());
    assert!(validate_id(".a").is_err());
    assert!(validate_id("a.").is_err());
    assert!(validate_id("a..b").is_err());
    assert!(validate_id("a/b").is_err());
    assert!(validate_id("a@b").is_err());
    assert!(validate_id("é").is_err());
}

#[test]
fn actor_validation_edges() {
    assert!(validate_actor("bob@example.com").is_ok());
    assert!(validate_actor("agent+review@example.com").is_ok());
    assert!(validate_actor(&"b".repeat(128)).is_ok());
    assert_eq!(
        validate_actor(&"b".repeat(129)),
        Err(ParseError::InvalidActor("b".repeat(129)))
    );
    assert!(validate_actor(".bob").is_err());
    assert!(validate_actor("bob.").is_err());
    assert!(validate_actor("b..ob").is_err());
    assert!(validate_actor("team/agent").is_err());
    assert!(validate_actor("a b").is_err());
}

#[test]
fn target_validation_edges() {
    assert!(validate_target("main").is_ok());
    assert!(validate_target("feature/agent-hooks").is_ok());
    assert!(validate_target("fé/ature").is_ok());
    assert!(validate_target(&"x".repeat(255)).is_ok());
    assert!(validate_target(&"x".repeat(256)).is_err());
    // 127 two-byte characters are 254 bytes; one more is 256.
    assert!(validate_target(&"é".repeat(127)).is_ok());
    assert!(validate_target(&"é".repeat(128)).is_err());
    assert_eq!(validate_target(""), Err(ParseError::InvalidTarget(String::new())));
    assert!(validate_target("/main").is_err());
    assert!(validate_target("main/").is_err());
    assert!(validate_target("main.").is_err());
    assert!(validate_target("main.lock").is_err());
    assert!(validate_target("main.locks").is_ok());
    assert!(validate_target("a..b").is_err());
    assert!(validate_target("a//b").is_err());
    for bad in ["a b", "a~b", "a^b", "a:b", "a?b", "a*b", "a[b", "a\\b", "a\tb", "a\u{7f}b"] {
        assert!(validate_target(bad).is_err(), "{bad:?}");
    }
}

#[test]
fn ref_names_are_exact() {
    assert_eq!(PROPOSAL_PREFIX, "refs/soulgit/proposals/");
    assert_eq!(head_ref("p-1").unwrap(), "refs/soulgit/proposals/p-1/head");
    assert_eq!(
        target_ref("p-1", "feature/x").unwrap(),
        "refs/soulgit/proposals/p-1/target/feature/x"
    );
    assert_eq!(
        author_ref("p-1", "alice@example.com").unwrap(),
        "refs/soulgit/proposals/p-1/author/alice@example.com"
    );
    assert_eq!(
        state_ref("p-1", ProposalState::ChangesRequested).unwrap(),
        "refs/soulgit/proposals/p-1/state/changes-requested"
    );
    assert_eq!(
        review_ref("p-1", "bob", ReviewDecision::Approved).unwrap(),
        "refs/soulgit/proposals/p-1/reviews/bob/approved"
    );
    assert_eq!(
        check_ref("p-1", "ci", CheckResult::Skipped).unwrap(),
        "refs/soulgit/proposals/p-1/checks/ci/skipped"
    );
}

#[test]
fn ref_builders_report_the_first_invalid_component() {
    assert_eq!(head_ref("a b"), Err(ParseError::InvalidId("a b".into())));
    assert_eq!(target_ref("a b", "x y"), Err(ParseError::InvalidId("a b".into())));
    assert_eq!(target_ref("p", "x y"), Err(ParseError::InvalidTarget("x y".into())));
    assert_eq!(author_ref("p", "a/b"), Err(ParseError::InvalidActor("a/b".into())));
    assert_eq!(
        state_ref("..", ProposalState::Open),
        Err(ParseError::InvalidId("..".into()))
    );
    assert_eq!(
        review_ref("p", "", ReviewDecision::Approved),
        Err(ParseError::InvalidActor(String::new()))
    );
    assert_eq!(
        check_ref("", "ci", CheckResult::Passed),
        Err(ParseError::InvalidId(String::new()))
    );
}

#[test]
fn every_kind_is_listed_once_in_order() {
    let states = ProposalState::all();
    assert_eq!(states.len(), 9);
    assert_eq!(states[0], ProposalState::Open);
    assert_eq!(states[8], ProposalState::Expired);
    for (i, s) in states.iter().enumerate() {
        assert_eq!(ProposalState::from_name(s.as_str()), Ok(*s));
        assert!(!states[..i].contains(s));
    }
    assert_eq!(
        ReviewDecision::all(),
        [ReviewDecision::Approved, ReviewDecision::ChangesRequested]
    );
    assert_eq!(
        CheckResult::all(),
        [CheckResult::Pending, CheckResult::Passed, CheckResult::Failed, CheckResult::Skipped]
    );
}
