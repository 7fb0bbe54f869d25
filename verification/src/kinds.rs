//! The closed vocabularies that appear as ref-name components: proposal states,
//! review decisions and check results, and the error type of the ref model.

use vstd::prelude::*;
use crate::text::str_equal;

verus! {

/// Lifecycle state of a proposal, as written in `state/<state>` refs.
#[derive(Debug, Clone, Copy, PartialEq, Eq, Structural)]
pub enum ProposalState {
    Open,
    Reviewing,
    ChangesRequested,
    Approved,
    Merging,
    Merged,
    Rejected,
    Superseded,
    Expired,
}

/// The ref-name component of a proposal state.
pub open spec fn state_name(s: ProposalState) -> Seq<char> {
    match s {
        ProposalState::Open => "open"@,
        ProposalState::Reviewing => "reviewing"@,
        ProposalState::ChangesRequested => "changes-requested"@,
        ProposalState::Approved => "approved"@,
        ProposalState::Merging => "merging"@,
        ProposalState::Merged => "merged"@,
        ProposalState::Rejected => "rejected"@,
        ProposalState::Superseded => "superseded"@,
        ProposalState::Expired => "expired"@,
    }
}

/// The state whose name is `v`, if there is one.
pub open spec fn parse_state(v: Seq<char>) -> Option<ProposalState> {
    if exists|s: ProposalState| state_name(s) == v {
        Some(choose|s: ProposalState| state_name(s) == v)
    } else {
        None
    }
}

impl ProposalState {
    /// Every state, in declaration order.
    pub fn all() -> (r: [ProposalState; 9])
        ensures
            r@ == seq![ProposalState::Open, ProposalState::Reviewing, ProposalState::ChangesRequested, ProposalState::Approved, ProposalState::Merging, ProposalState::Merged, ProposalState::Rejected, ProposalState::Superseded, ProposalState::Expired],
    {
        let r = [
            ProposalState::Open,
            ProposalState::Reviewing,
            ProposalState::ChangesRequested,
            ProposalState::Approved,
            ProposalState::Merging,
            ProposalState::Merged,
            ProposalState::Rejected,
            ProposalState::Superseded,
            ProposalState::Expired,
        ];
        assert(r@ =~= seq![ProposalState::Open, ProposalState::Reviewing, ProposalState::ChangesRequested, ProposalState::Approved, ProposalState::Merging, ProposalState::Merged, ProposalState::Rejected, ProposalState::Superseded, ProposalState::Expired]);
        r
    }

    /// The name used for this state in refs and in output.
    pub fn as_str(self) -> (r: &'static str)
        ensures
            r@ == state_name(self),
    {
        match self {
            ProposalState::Open => "open",
            ProposalState::Reviewing => "reviewing",
            ProposalState::ChangesRequested => "changes-requested",
            ProposalState::Approved => "approved",
            ProposalState::Merging => "merging",
            ProposalState::Merged => "merged",
            ProposalState::Rejected => "rejected",
            ProposalState::Superseded => "superseded",
            ProposalState::Expired => "expired",
        }
    }

    /// Reads a state from its name; any other text is `UnknownState`.
    pub fn from_name(value: &str) -> (r: Result<ProposalState, ParseError>)
        ensures
            match r {
                Ok(s) => state_name(s) == value@,
                Err(e) => (forall|s: ProposalState| state_name(s) != value@) && e
                    == ParseError::UnknownState(e->UnknownState_0) && e->UnknownState_0@ == value@,
            },
            r is Ok <==> parse_state(value@) is Some,
            r matches Ok(s) ==> parse_state(value@) == Some(s),
    {
        proof {
            lemma_state_names_distinct();
        }
        let candidates = [
            ProposalState::Open,
            ProposalState::Reviewing,
            ProposalState::ChangesRequested,
            ProposalState::Approved,
            ProposalState::Merging,
            ProposalState::Merged,
            ProposalState::Rejected,
            ProposalState::Superseded,
            ProposalState::Expired,
        ];
        let mut i: usize = 0;
        while i < 9
            invariant
                i <= 9,
                candidates@ == seq![
                    ProposalState::Open,
                    ProposalState::Reviewing,
                    ProposalState::ChangesRequested,
                    ProposalState::Approved,
                    ProposalState::Merging,
                    ProposalState::Merged,
                    ProposalState::Rejected,
                    ProposalState::Superseded,
                    ProposalState::Expired,
                ],
                forall|j: int| 0 <= j < i ==> state_name(#[trigger] candidates@[j]) != value@,
            decreases 9 - i,
        {
            if str_equal(candidates[i].as_str(), value) {
                proof {
                    lemma_state_names_distinct();
                    let c = choose|s: ProposalState| state_name(s) == value@;
                    assert(state_name(c) == value@);
                    assert(state_name(c) == state_name(candidates@[i as int]));
                }
                return Ok(candidates[i]);
            }
            i = i + 1;
        }
        proof {
            assert forall|s: ProposalState| state_name(s) != value@ by {
                match s {
                    ProposalState::Open => assert(candidates@[0] == s),
                    ProposalState::Reviewing => assert(candidates@[1] == s),
                    ProposalState::ChangesRequested => assert(candidates@[2] == s),
                    ProposalState::Approved => assert(candidates@[3] == s),
                    ProposalState::Merging => assert(candidates@[4] == s),
                    ProposalState::Merged => assert(candidates@[5] == s),
                    ProposalState::Rejected => assert(candidates@[6] == s),
                    ProposalState::Superseded => assert(candidates@[7] == s),
                    ProposalState::Expired => assert(candidates@[8] == s),
                }
            }
        }
        Err(ParseError::UnknownState(String::from_str(value)))
    }
}

impl Default for ProposalState {
    fn default() -> (r: ProposalState)
        ensures
            r == ProposalState::Open,
    {
        ProposalState::Open
    }
}

/// Distinct states have distinct names, so a name identifies its state.
pub proof fn lemma_state_names_distinct()
    ensures
        forall|a: ProposalState, b: ProposalState|
            #[trigger] state_name(a) == #[trigger] state_name(b) ==> a == b,
{
    reveal_strlit("open");
    reveal_strlit("reviewing");
    reveal_strlit("changes-requested");
    reveal_strlit("approved");
    reveal_strlit("merging");
    reveal_strlit("merged");
    reveal_strlit("rejected");
    reveal_strlit("superseded");
    reveal_strlit("expired");
    assert forall|a: ProposalState, b: ProposalState|
        #[trigger] state_name(a) == #[trigger] state_name(b) implies a == b by {
        if state_name(a) == state_name(b) && a != b {
            assert(state_name(a)[0] == state_name(b)[0]);
            assert(state_name(a)[2] == state_name(b)[2]);
            assert(state_name(a)[5] == state_name(b)[5]);
        }
    }
}


/// Outcome of a review, as written in `reviews/<actor>/<decision>` refs.
#[derive(Debug, Clone, Copy, PartialEq, Eq, Structural)]
pub enum ReviewDecision {
    Approved,
    ChangesRequested,
}

/// The ref-name component of a review decision.
pub open spec fn decision_name(d: ReviewDecision) -> Seq<char> {
    match d {
        ReviewDecision::Approved => "approved"@,
        ReviewDecision::ChangesRequested => "changes-requested"@,
    }
}

/// The decision whose name is `v`, if there is one.
pub open spec fn parse_decision(v: Seq<char>) -> Option<ReviewDecision> {
    if exists|d: ReviewDecision| decision_name(d) == v {
        Some(choose|d: ReviewDecision| decision_name(d) == v)
    } else {
        None
    }
}

impl ReviewDecision {
    /// Every decision, in declaration order.
    pub fn all() -> (r: [ReviewDecision; 2])
        ensures
            r@ == seq![ReviewDecision::Approved, ReviewDecision::ChangesRequested],
    {
        let r = [
            ReviewDecision::Approved,
            ReviewDecision::ChangesRequested,
        ];
        assert(r@ =~= seq![ReviewDecision::Approved, ReviewDecision::ChangesRequested]);
        r
    }

    /// The name used for this decision in refs and in output.
    pub fn as_str(self) -> (r: &'static str)
        ensures
            r@ == decision_name(self),
    {
        match self {
            ReviewDecision::Approved => "approved",
            ReviewDecision::ChangesRequested => "changes-requested",
        }
    }

    /// Reads a decision from its name; any other text is `UnknownReview`.
    pub fn from_name(value: &str) -> (r: Result<ReviewDecision, ParseError>)
        ensures
            match r {
                Ok(d) => decision_name(d) == value@,
                Err(e) => (forall|d: ReviewDecision| decision_name(d) != value@) && e
                    == ParseError::UnknownReview(e->UnknownReview_0) && e->UnknownReview_0@ == value@,
            },
            r is Ok <==> parse_decision(value@) is Some,
            r matches Ok(d) ==> parse_decision(value@) == Some(d),
    {
        proof {
            lemma_decision_names_distinct();
        }
        if str_equal(ReviewDecision::Approved.as_str(), value) {
            proof {
                let c = choose|d: ReviewDecision| decision_name(d) == value@;
                assert(decision_name(c) == decision_name(ReviewDecision::Approved));
            }
            Ok(ReviewDecision::Approved)
        } else if str_equal(ReviewDecision::ChangesRequested.as_str(), value) {
            proof {
                let c = choose|d: ReviewDecision| decision_name(d) == value@;
                assert(decision_name(c) == decision_name(ReviewDecision::ChangesRequested));
            }
            Ok(ReviewDecision::ChangesRequested)
        } else {
            proof {
                assert forall|d: ReviewDecision| decision_name(d) != value@ by {
                    match d {
                        ReviewDecision::Approved => {},
                        ReviewDecision::ChangesRequested => {},
                    }
                }
            }
            Err(ParseError::UnknownReview(String::from_str(value)))
        }
    }
}

/// Distinct decisions have distinct names.
pub proof fn lemma_decision_names_distinct()
    ensures
        forall|a: ReviewDecision, b: ReviewDecision|
            #[trigger] decision_name(a) == #[trigger] decision_name(b) ==> a == b,
{
    reveal_strlit("approved");
    reveal_strlit("changes-requested");
    assert forall|a: ReviewDecision, b: ReviewDecision|
        #[trigger] decision_name(a) == #[trigger] decision_name(b) implies a == b by {
        if decision_name(a) == decision_name(b) && a != b {
            assert(decision_name(a)[0] == decision_name(b)[0]);
        }
    }
}

/// Result of an automated check, as written in `checks/<actor>/<result>` refs.
#[derive(Debug, Clone, Copy, PartialEq, Eq, Structural)]
pub enum CheckResult {
    Pending,
    Passed,
    Failed,
    Skipped,
}

/// The ref-name component of a check result.
pub open spec fn result_name(c: CheckResult) -> Seq<char> {
    match c {
        CheckResult::Pending => "pending"@,
        CheckResult::Passed => "passed"@,
        CheckResult::Failed => "failed"@,
        CheckResult::Skipped => "skipped"@,
    }
}

/// The check result whose name is `v`, if there is one.
pub open spec fn parse_result(v: Seq<char>) -> Option<CheckResult> {
    if exists|c: CheckResult| result_name(c) == v {
        Some(choose|c: CheckResult| result_name(c) == v)
    } else {
        None
    }
}

impl CheckResult {
    /// Every result, in declaration order.
    pub fn all() -> (r: [CheckResult; 4])
        ensures
            r@ == seq![CheckResult::Pending, CheckResult::Passed, CheckResult::Failed, CheckResult::Skipped],
    {
        let r = [
            CheckResult::Pending,
            CheckResult::Passed,
            CheckResult::Failed,
            CheckResult::Skipped,
        ];
        assert(r@ =~= seq![CheckResult::Pending, CheckResult::Passed, CheckResult::Failed, CheckResult::Skipped]);
        r
    }

    /// The name used for this result in refs and in output.
    pub fn as_str(self) -> (r: &'static str)
        ensures
            r@ == result_name(self),
    {
        match self {
            CheckResult::Pending => "pending",
            CheckResult::Passed => "passed",
            CheckResult::Failed => "failed",
            CheckResult::Skipped => "skipped",
        }
    }

    /// Reads a check result from its name; any other text is `UnknownCheck`.
    pub fn from_name(value: &str) -> (r: Result<CheckResult, ParseError>)
        ensures
            match r {
                Ok(c) => result_name(c) == value@,
                Err(e) => (forall|c: CheckResult| result_name(c) != value@) && e
                    == ParseError::UnknownCheck(e->UnknownCheck_0) && e->UnknownCheck_0@ == value@,
            },
            r is Ok <==> parse_result(value@) is Some,
            r matches Ok(c) ==> parse_result(value@) == Some(c),
    {
        proof {
            lemma_result_names_distinct();
        }
        let candidates = [
            CheckResult::Pending,
            CheckResult::Passed,
            CheckResult::Failed,
            CheckResult::Skipped,
        ];
        let mut i: usize = 0;
        while i < 4
            invariant
                i <= 4,
                candidates@ == seq![
                    CheckResult::Pending,
                    CheckResult::Passed,
                    CheckResult::Failed,
                    CheckResult::Skipped,
                ],
                forall|j: int| 0 <= j < i ==> result_name(#[trigger] candidates@[j]) != value@,
            decreases 4 - i,
        {
            if str_equal(candidates[i].as_str(), value) {
                proof {
                    lemma_result_names_distinct();
                    let c = choose|c: CheckResult| result_name(c) == value@;
                    assert(result_name(c) == value@);
                    assert(result_name(c) == result_name(candidates@[i as int]));
                }
                return Ok(candidates[i]);
            }
            i = i + 1;
        }
        proof {
            assert forall|c: CheckResult| result_name(c) != value@ by {
                match c {
                    CheckResult::Pending => assert(candidates@[0] == c),
                    CheckResult::Passed => assert(candidates@[1] == c),
                    CheckResult::Failed => assert(candidates@[2] == c),
                    CheckResult::Skipped => assert(candidates@[3] == c),
                }
            }
        }
        Err(ParseError::UnknownCheck(String::from_str(value)))
    }
}

/// Distinct check results have distinct names.
pub proof fn lemma_result_names_distinct()
    ensures
        forall|a: CheckResult, b: CheckResult|
            #[trigger] result_name(a) == #[trigger] result_name(b) ==> a == b,
{
    reveal_strlit("pending");
    reveal_strlit("passed");
    reveal_strlit("failed");
    reveal_strlit("skipped");
    assert forall|a: CheckResult, b: CheckResult|
        #[trigger] result_name(a) == #[trigger] result_name(b) implies a == b by {
        if result_name(a) == result_name(b) && a != b {
            assert(result_name(a)[0] == result_name(b)[0]);
            assert(result_name(a)[1] == result_name(b)[1]);
        }
    }
}

/// Errors of the ref model; each carries the offending text.
#[derive(Debug, Clone, PartialEq, Eq)]
pub enum ParseError {
    InvalidId(String),
    InvalidActor(String),
    InvalidTarget(String),
    UnknownState(String),
    UnknownReview(String),
    UnknownCheck(String),
}


/// The human-readable text of an error.
pub open spec fn error_message(e: ParseError) -> Seq<char> {
    match e {
        ParseError::InvalidId(v) => "invalid proposal id `"@ + v@ + "`"@,
        ParseError::InvalidActor(v) => "invalid actor `"@ + v@ + "`"@,
        ParseError::InvalidTarget(v) => "invalid target branch `"@ + v@ + "`"@,
        ParseError::UnknownState(v) => "unknown proposal state `"@ + v@ + "`"@,
        ParseError::UnknownReview(v) => "unknown review decision `"@ + v@ + "`"@,
        ParseError::UnknownCheck(v) => "unknown check result `"@ + v@ + "`"@,
    }
}

impl ParseError {
    /// The human-readable text of this error.
    pub fn message(&self) -> (r: String)
        ensures
            r@ == error_message(*self),
    {
        let (mut r, v) = match self {
            ParseError::InvalidId(v) => (String::from_str("invalid proposal id `"), v),
            ParseError::InvalidActor(v) => (String::from_str("invalid actor `"), v),
            ParseError::InvalidTarget(v) => (String::from_str("invalid target branch `"), v),
            ParseError::UnknownState(v) => (String::from_str("unknown proposal state `"), v),
            ParseError::UnknownReview(v) => (String::from_str("unknown review decision `"), v),
            ParseError::UnknownCheck(v) => (String::from_str("unknown check result `"), v),
        };
        r.append(v.as_str());
        r.append("`");
        r
    }
}

impl std::str::FromStr for ProposalState {
    type Err = ParseError;

    fn from_str(value: &str) -> (r: Result<ProposalState, ParseError>)
        ensures
            match r {
                Ok(s) => state_name(s) == value@,
                Err(e) => e == ParseError::UnknownState(e->UnknownState_0) && e->UnknownState_0@ == value@,
            },
            r is Ok <==> parse_state(value@) is Some,
            r matches Ok(s) ==> parse_state(value@) == Some(s),
    {
        ProposalState::from_name(value)
    }
}

impl std::str::FromStr for ReviewDecision {
    type Err = ParseError;

    fn from_str(value: &str) -> (r: Result<ReviewDecision, ParseError>)
        ensures
            match r {
                Ok(d) => decision_name(d) == value@,
                Err(e) => e == ParseError::UnknownReview(e->UnknownReview_0) && e->UnknownReview_0@ == value@,
            },
            r is Ok <==> parse_decision(value@) is Some,
            r matches Ok(d) ==> parse_decision(value@) == Some(d),
    {
        ReviewDecision::from_name(value)
    }
}

impl std::str::FromStr for CheckResult {
    type Err = ParseError;

    fn from_str(value: &str) -> (r: Result<CheckResult, ParseError>)
        ensures
            match r {
                Ok(c) => result_name(c) == value@,
                Err(e) => e == ParseError::UnknownCheck(e->UnknownCheck_0) && e->UnknownCheck_0@ == value@,
            },
            r is Ok <==> parse_result(value@) is Some,
            r matches Ok(c) ==> parse_result(value@) == Some(c),
    {
        CheckResult::from_name(value)
    }
}

} // verus!
