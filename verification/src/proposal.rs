//! The projected proposal summary and its attestations.

use vstd::prelude::*;
use crate::kinds::{CheckResult, ProposalState, ReviewDecision};

verus! {

/// A review that counts for the current revision.
#[derive(Debug, Clone, PartialEq, Eq)]
pub struct Review {
    pub reviewer: String,
    pub decision: ReviewDecision,
}

/// A check result that counts for the current revision.
#[derive(Debug, Clone, PartialEq, Eq)]
pub struct Check {
    pub runner: String,
    pub result: CheckResult,
}

impl View for Review {
    type V = (Seq<char>, ReviewDecision);

    open spec fn view(&self) -> (Seq<char>, ReviewDecision) {
        (self.reviewer@, self.decision)
    }
}

impl View for Check {
    type V = (Seq<char>, CheckResult);

    open spec fn view(&self) -> (Seq<char>, CheckResult) {
        (self.runner@, self.result)
    }
}

/// Mathematical model of a [`Proposal`].
pub struct ProposalView {
    pub id: Seq<char>,
    pub head: Seq<char>,
    pub target: Seq<char>,
    pub author: Seq<char>,
    pub state: ProposalState,
    pub reviews: Seq<(Seq<char>, ReviewDecision)>,
    pub checks: Seq<(Seq<char>, CheckResult)>,
    pub healthy: bool,
    pub issues: Seq<Seq<char>>,
}

/// Summary of one proposal at its current head revision.
#[derive(Debug, Clone, PartialEq, Eq)]
pub struct Proposal {
    pub id: String,
    pub head: String,
    pub target: String,
    pub author: String,
    pub state: ProposalState,
    pub reviews: Vec<Review>,
    pub checks: Vec<Check>,
    pub healthy: bool,
    pub issues: Vec<String>,
}

/// The models of a sequence of reviews.
pub open spec fn reviews_view(s: Seq<Review>) -> Seq<(Seq<char>, ReviewDecision)> {
    s.map_values(|r: Review| r@)
}

/// The models of a sequence of checks.
pub open spec fn checks_view(s: Seq<Check>) -> Seq<(Seq<char>, CheckResult)> {
    s.map_values(|c: Check| c@)
}

/// The models of a sequence of strings.
pub open spec fn strings_view(s: Seq<String>) -> Seq<Seq<char>> {
    s.map_values(|t: String| t@)
}

impl View for Proposal {
    type V = ProposalView;

    open spec fn view(&self) -> ProposalView {
        ProposalView {
            id: self.id@,
            head: self.head@,
            target: self.target@,
            author: self.author@,
            state: self.state,
            reviews: reviews_view(self.reviews@),
            checks: checks_view(self.checks@),
            healthy: self.healthy,
            issues: strings_view(self.issues@),
        }
    }
}

/// The reviews whose decision is `d`.
pub open spec fn reviews_with(s: Seq<(Seq<char>, ReviewDecision)>, d: ReviewDecision) -> Seq<
    (Seq<char>, ReviewDecision),
> {
    s.filter(|r: (Seq<char>, ReviewDecision)| r.1 == d)
}

/// The checks whose result is `c`.
pub open spec fn checks_with(s: Seq<(Seq<char>, CheckResult)>, c: CheckResult) -> Seq<
    (Seq<char>, CheckResult),
> {
    s.filter(|r: (Seq<char>, CheckResult)| r.1 == c)
}

impl Proposal {
    /// Number of current reviews that approve.
    pub fn approvals(&self) -> (n: usize)
        ensures
            n == reviews_with(self@.reviews, ReviewDecision::Approved).len(),
    {
        let ghost s = self@.reviews;
        let mut n: usize = 0;
        let mut i: usize = 0;
        while i < self.reviews.len()
            invariant
                i <= self.reviews@.len(),
                s == reviews_view(self.reviews@),
                n == reviews_with(s.take(i as int), ReviewDecision::Approved).len(),
                n <= i,
            decreases self.reviews.len() - i,
        {
            proof {
                assert(s.take(i + 1).drop_last() =~= s.take(i as int));
                assert(s.take(i + 1).last() == s[i as int]);
                assert(s[i as int].1 == self.reviews@[i as int].decision);
                reveal_with_fuel(Seq::filter, 1);
            }
            if self.reviews[i].decision == ReviewDecision::Approved {
                n = n + 1;
            }
            i = i + 1;
        }
        proof {
            assert(s.take(i as int) =~= s);
        }
        n
    }

    /// Number of current checks that passed.
    pub fn checks_passed(&self) -> (n: usize)
        ensures
            n == checks_with(self@.checks, CheckResult::Passed).len(),
    {
        let ghost s = self@.checks;
        let mut n: usize = 0;
        let mut i: usize = 0;
        while i < self.checks.len()
            invariant
                i <= self.checks@.len(),
                s == checks_view(self.checks@),
                n == checks_with(s.take(i as int), CheckResult::Passed).len(),
                n <= i,
            decreases self.checks.len() - i,
        {
            proof {
                assert(s.take(i + 1).drop_last() =~= s.take(i as int));
                assert(s.take(i + 1).last() == s[i as int]);
                assert(s[i as int].1 == self.checks@[i as int].result);
                reveal_with_fuel(Seq::filter, 1);
            }
            if self.checks[i].result == CheckResult::Passed {
                n = n + 1;
            }
            i = i + 1;
        }
        proof {
            assert(s.take(i as int) =~= s);
        }
        n
    }
}

} // verus!
