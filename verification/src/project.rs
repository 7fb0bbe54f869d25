//! Projection of proposal summaries from a listing of refs.

use vstd::prelude::*;
use vstd::relations::sorted_by;
use crate::kinds::{
    decision_name, lemma_decision_names_distinct, lemma_result_names_distinct, result_name, state_name, CheckResult, ProposalState,
    ReviewDecision,
};
use crate::proposal::{checks_view, reviews_view, strings_view, Check, Proposal, ProposalView, Review};
use crate::refs::{
    lemma_split_once_at, parse_ref_name, split_once, strip_prefix, tail_entry, RefEntry,
    PROPOSAL_PREFIX,
};
use crate::text::{
    chars_of, find_from, lemma_lex_le_transitive, lemma_lex_lt_irreflexive,
    lemma_lex_lt_le_transitive, lemma_lex_lt_transitive, lemma_lex_not_lt, lemma_lex_trichotomy,
    lex_le, lex_lt, rest_equals, starts_with_at, str_equal, str_less,
};
use crate::validate::{valid_id, validate_actor, validate_id, validate_target};

verus! {

broadcast use vstd::string::group_string_axioms;

/// Each listed ref as the pair of its name and oid.
pub open spec fn refs_view(refs: Seq<(&str, &str)>) -> Seq<(Seq<char>, Seq<char>)> {
    refs.map_values(|r: (&str, &str)| (r.0@, r.1@))
}

/// The entries of proposal `id`, each with the oid its ref points at, in
/// listing order.
pub open spec fn id_entries(refs: Seq<(Seq<char>, Seq<char>)>, id: Seq<char>) -> Seq<
    (RefEntry, Seq<char>),
>
    decreases refs.len(),
{
    if refs.len() == 0 {
        seq![]
    } else {
        let prev = id_entries(refs.drop_last(), id);
        match parse_ref_name(refs.last().0) {
            Some((i, e)) => if i == id {
                prev.push((e, refs.last().1))
            } else {
                prev
            },
            None => prev,
        }
    }
}

/// The oid of the last head entry; a proposal without one does not exist.
pub open spec fn last_head(es: Seq<(RefEntry, Seq<char>)>) -> Option<Seq<char>>
    decreases es.len(),
{
    if es.len() == 0 {
        None
    } else if es.last().0 is Head {
        Some(es.last().1)
    } else {
        last_head(es.drop_last())
    }
}

/// Targets recorded at oid `h`.
pub open spec fn current_targets(es: Seq<(RefEntry, Seq<char>)>, h: Seq<char>) -> Seq<Seq<char>>
    decreases es.len(),
{
    if es.len() == 0 {
        seq![]
    } else {
        let prev = current_targets(es.drop_last(), h);
        match es.last().0 {
            RefEntry::Target(t) => if es.last().1 == h {
                prev.push(t)
            } else {
                prev
            },
            _ => prev,
        }
    }
}

/// Authors recorded at oid `h`.
pub open spec fn current_authors(es: Seq<(RefEntry, Seq<char>)>, h: Seq<char>) -> Seq<Seq<char>>
    decreases es.len(),
{
    if es.len() == 0 {
        seq![]
    } else {
        let prev = current_authors(es.drop_last(), h);
        match es.last().0 {
            RefEntry::Author(a) => if es.last().1 == h {
                prev.push(a)
            } else {
                prev
            },
            _ => prev,
        }
    }
}

/// States recorded at oid `h`.
pub open spec fn current_states(es: Seq<(RefEntry, Seq<char>)>, h: Seq<char>) -> Seq<
    ProposalState,
>
    decreases es.len(),
{
    if es.len() == 0 {
        seq![]
    } else {
        let prev = current_states(es.drop_last(), h);
        match es.last().0 {
            RefEntry::State(st) => if es.last().1 == h {
                prev.push(st)
            } else {
                prev
            },
            _ => prev,
        }
    }
}

/// Reviews recorded at oid `h`.
pub open spec fn current_reviews(es: Seq<(RefEntry, Seq<char>)>, h: Seq<char>) -> Seq<
    (Seq<char>, ReviewDecision),
>
    decreases es.len(),
{
    if es.len() == 0 {
        seq![]
    } else {
        let prev = current_reviews(es.drop_last(), h);
        match es.last().0 {
            RefEntry::Review(who, d) => if es.last().1 == h {
                prev.push((who, d))
            } else {
                prev
            },
            _ => prev,
        }
    }
}

/// Check results recorded at oid `h`.
pub open spec fn current_checks(es: Seq<(RefEntry, Seq<char>)>, h: Seq<char>) -> Seq<
    (Seq<char>, CheckResult),
>
    decreases es.len(),
{
    if es.len() == 0 {
        seq![]
    } else {
        let prev = current_checks(es.drop_last(), h);
        match es.last().0 {
            RefEntry::Check(who, c) => if es.last().1 == h {
                prev.push((who, c))
            } else {
                prev
            },
            _ => prev,
        }
    }
}

/// `x` is one of `s` and comes no later than any of them.
pub open spec fn is_least_string(x: Seq<char>, s: Seq<Seq<char>>) -> bool {
    s.contains(x) && forall|i: int| 0 <= i < s.len() ==> lex_le(x, #[trigger] s[i])
}

/// `x` is one of `s` and its name comes no later than any of theirs.
pub open spec fn is_least_state(x: ProposalState, s: Seq<ProposalState>) -> bool {
    s.contains(x) && forall|i: int|
        0 <= i < s.len() ==> lex_le(state_name(x), state_name(#[trigger] s[i]))
}

/// Order of reviews: by actor, then by decision name.
pub open spec fn review_le(a: (Seq<char>, ReviewDecision), b: (Seq<char>, ReviewDecision)) -> bool {
    lex_lt(a.0, b.0) || (a.0 == b.0 && lex_le(decision_name(a.1), decision_name(b.1)))
}

/// Order of checks: by runner, then by result name.
pub open spec fn check_le(a: (Seq<char>, CheckResult), b: (Seq<char>, CheckResult)) -> bool {
    lex_lt(a.0, b.0) || (a.0 == b.0 && lex_le(result_name(a.1), result_name(b.1)))
}

/// `review_le` as a relation.
pub open spec fn review_order() -> spec_fn((Seq<char>, ReviewDecision), (Seq<char>, ReviewDecision)) -> bool {
    |a: (Seq<char>, ReviewDecision), b: (Seq<char>, ReviewDecision)| review_le(a, b)
}

/// `check_le` as a relation.
pub open spec fn check_order() -> spec_fn((Seq<char>, CheckResult), (Seq<char>, CheckResult)) -> bool {
    |a: (Seq<char>, CheckResult), b: (Seq<char>, CheckResult)| check_le(a, b)
}

/// One issue `msg` when more than one ref of a kind is current.
pub open spec fn multiple_issue(n: nat, msg: Seq<char>) -> Seq<Seq<char>> {
    if n > 1 {
        seq![msg]
    } else {
        seq![]
    }
}

/// An issue for each pair of neighbouring sorted reviews from one actor.
pub open spec fn review_conflicts(rs: Seq<(Seq<char>, ReviewDecision)>) -> Seq<Seq<char>>
    decreases rs.len(),
{
    if rs.len() < 2 {
        seq![]
    } else {
        review_conflicts(rs.drop_last()) + if rs[rs.len() - 2].0 == rs.last().0 {
            seq!["multiple current reviews from "@ + rs.last().0]
        } else {
            seq![]
        }
    }
}

/// An issue for each pair of neighbouring sorted checks from one runner.
pub open spec fn check_conflicts(cs: Seq<(Seq<char>, CheckResult)>) -> Seq<Seq<char>>
    decreases cs.len(),
{
    if cs.len() < 2 {
        seq![]
    } else {
        check_conflicts(cs.drop_last()) + if cs[cs.len() - 2].0 == cs.last().0 {
            seq!["multiple current checks from "@ + cs.last().0]
        } else {
            seq![]
        }
    }
}

/// The issues of a proposal whose entries are `es`, at head `h`, with sorted
/// current reviews `rs` and checks `cs`.
pub open spec fn expected_issues(
    es: Seq<(RefEntry, Seq<char>)>,
    h: Seq<char>,
    rs: Seq<(Seq<char>, ReviewDecision)>,
    cs: Seq<(Seq<char>, CheckResult)>,
) -> Seq<Seq<char>> {
    multiple_issue(current_targets(es, h).len(), "multiple current target refs"@) + multiple_issue(
        current_authors(es, h).len(),
        "multiple current author refs"@,
    ) + multiple_issue(current_states(es, h).len(), "multiple current state refs"@)
        + review_conflicts(rs) + check_conflicts(cs)
}

/// `p` is the summary that the entries `es` of proposal `p.id` project to:
/// the last head, and among the entries recorded at that head the least target
/// (else `main`), the least author (else `unknown`), the state with the least
/// name (else `Open`), all reviews and checks in order, and the issues found.
pub open spec fn summarizes(es: Seq<(RefEntry, Seq<char>)>, p: ProposalView) -> bool {
    let h = p.head;
    let ts = current_targets(es, h);
    let aus = current_authors(es, h);
    let ss = current_states(es, h);
    &&& last_head(es) == Some(h)
    &&& if ts.len() == 0 {
        p.target == "main"@
    } else {
        is_least_string(p.target, ts)
    }
    &&& if aus.len() == 0 {
        p.author == "unknown"@
    } else {
        is_least_string(p.author, aus)
    }
    &&& if ss.len() == 0 {
        p.state == ProposalState::Open
    } else {
        is_least_state(p.state, ss)
    }
    &&& sorted_by(p.reviews, review_order())
    &&& p.reviews.to_multiset() == current_reviews(es, h).to_multiset()
    &&& sorted_by(p.checks, check_order())
    &&& p.checks.to_multiset() == current_checks(es, h).to_multiset()
    &&& p.issues == expected_issues(es, h, p.reviews, p.checks)
    &&& p.healthy == (p.issues.len() == 0)
}

/// `p` is the summary that the listing `refs` projects for proposal `p.id`.
pub open spec fn projected(refs: Seq<(Seq<char>, Seq<char>)>, p: ProposalView) -> bool {
    summarizes(id_entries(refs, p.id), p)
}

/// `ps` is the projection of the listing `refs`: one summary for each proposal
/// that has a head, in increasing order of id.
pub open spec fn is_projection(refs: Seq<(Seq<char>, Seq<char>)>, ps: Seq<ProposalView>) -> bool {
    &&& forall|i: int, j: int| 0 <= i < j < ps.len() ==> lex_lt(ps[i].id, ps[j].id)
    &&& forall|i: int| 0 <= i < ps.len() ==> projected(refs, #[trigger] ps[i])
    &&& forall|id: Seq<char>| #[trigger]
        last_head(id_entries(refs, id)) is Some ==> exists|i: int| 0 <= i < ps.len() && ps[i].id == id
}

/// `review_le` is a total order.
pub proof fn lemma_review_le_total_ordering()
    ensures
        vstd::relations::total_ordering(review_order()),
{
    lemma_decision_names_distinct();
    assert forall|a: (Seq<char>, ReviewDecision)| review_le(a, a) by {}
    assert forall|a: (Seq<char>, ReviewDecision), b: (Seq<char>, ReviewDecision)|
        review_le(a, b) && review_le(b, a) implies a == b by {
        lemma_lex_trichotomy(a.0, b.0);
        lemma_lex_lt_irreflexive(a.0);
        lemma_lex_trichotomy(decision_name(a.1), decision_name(b.1));
    }
    assert forall|
        a: (Seq<char>, ReviewDecision),
        b: (Seq<char>, ReviewDecision),
        c: (Seq<char>, ReviewDecision),
    | review_le(a, b) && review_le(b, c) implies review_le(a, c) by {
        if lex_lt(a.0, b.0) && lex_lt(b.0, c.0) {
            lemma_lex_lt_transitive(a.0, b.0, c.0);
        } else if a.0 == b.0 && b.0 == c.0 {
            lemma_lex_le_transitive(decision_name(a.1), decision_name(b.1), decision_name(c.1));
        }
    }
    assert forall|a: (Seq<char>, ReviewDecision), b: (Seq<char>, ReviewDecision)|
        review_le(a, b) || review_le(b, a) by {
        lemma_lex_trichotomy(a.0, b.0);
        lemma_lex_trichotomy(decision_name(a.1), decision_name(b.1));
    }
}

/// `check_le` is a total order.
pub proof fn lemma_check_le_total_ordering()
    ensures
        vstd::relations::total_ordering(check_order()),
{
    lemma_result_names_distinct();
    assert forall|a: (Seq<char>, CheckResult)| check_le(a, a) by {}
    assert forall|a: (Seq<char>, CheckResult), b: (Seq<char>, CheckResult)|
        check_le(a, b) && check_le(b, a) implies a == b by {
        lemma_lex_trichotomy(a.0, b.0);
        lemma_lex_lt_irreflexive(a.0);
        lemma_lex_trichotomy(result_name(a.1), result_name(b.1));
    }
    assert forall|
        a: (Seq<char>, CheckResult),
        b: (Seq<char>, CheckResult),
        c: (Seq<char>, CheckResult),
    | check_le(a, b) && check_le(b, c) implies check_le(a, c) by {
        if lex_lt(a.0, b.0) && lex_lt(b.0, c.0) {
            lemma_lex_lt_transitive(a.0, b.0, c.0);
        } else if a.0 == b.0 && b.0 == c.0 {
            lemma_lex_le_transitive(result_name(a.1), result_name(b.1), result_name(c.1));
        }
    }
    assert forall|a: (Seq<char>, CheckResult), b: (Seq<char>, CheckResult)|
        check_le(a, b) || check_le(b, a) by {
        lemma_lex_trichotomy(a.0, b.0);
        lemma_lex_trichotomy(result_name(a.1), result_name(b.1));
    }
}

/// A metadata entry read from one proposal ref.
enum Entry {
    Head,
    Target(String),
    Author(String),
    State(ProposalState),
    Review(Review),
    Check(Check),
    Unrecognized,
}

impl View for Entry {
    type V = RefEntry;

    closed spec fn view(&self) -> RefEntry {
        match self {
            Entry::Head => RefEntry::Head,
            Entry::Target(t) => RefEntry::Target(t@),
            Entry::Author(a) => RefEntry::Author(a@),
            Entry::State(s) => RefEntry::State(*s),
            Entry::Review(r) => RefEntry::Review(r.reviewer@, r.decision),
            Entry::Check(c) => RefEntry::Check(c.runner@, c.result),
            Entry::Unrecognized => RefEntry::Unrecognized,
        }
    }
}

/// Splitting the part of `v` from `from` on at its first `c`, when `k` is the
/// first position at or after `from` that holds `c`.
proof fn lemma_split_found(v: Seq<char>, from: int, k: int, c: char)
    requires
        0 <= from <= k < v.len(),
        v[k] == c,
        forall|j: int| from <= j < k ==> v[j] != c,
    ensures
        split_once(v.skip(from), c) == Some((v.subrange(from, k), v.skip(k + 1))),
{
    let a = v.subrange(from, k);
    assert(v.skip(from) =~= a + seq![c] + v.skip(k + 1));
    assert(!a.contains(c)) by {
        if a.contains(c) {
            let j = choose|j: int| 0 <= j < a.len() && a[j] == c;
            assert(v[from + j] == c);
        }
    }
    lemma_split_once_at(a, c, v.skip(k + 1));
}

/// No split when the part of `v` from `from` on holds no `c`.
proof fn lemma_split_missing(v: Seq<char>, from: int, c: char)
    requires
        0 <= from <= v.len(),
        forall|j: int| from <= j < v.len() ==> v[j] != c,
    ensures
        split_once(v.skip(from), c) is None,
{
    if v.skip(from).contains(c) {
        let j = choose|j: int| 0 <= j < v.skip(from).len() && v.skip(from)[j] == c;
        assert(v[from + j] == c);
    }
}

/// Reads the entry that the tail of `name`, from position `from` on, denotes.
fn parse_tail(name: &str, v: &Vec<char>, from: usize) -> (r: Entry)
    requires
        v@ == name@,
        from <= v@.len(),
    ensures
        r@ == tail_entry(v@.skip(from as int)),
{
    let n = v.len();
    let ghost tail = v@.skip(from as int);
    if rest_equals(v, from, "head") {
        return Entry::Head;
    }
    if starts_with_at(v, from, "target/") {
        proof {
            reveal_strlit("target/");
            assert(tail.skip(7) =~= v@.skip(from + 7));
        }
        let t = name.substring_char(from + 7, n);
        assert(t@ =~= tail.skip(7));
        if validate_target(t).is_ok() {
            return Entry::Target(String::from_str(t));
        } else {
            return Entry::Unrecognized;
        }
    }
    if starts_with_at(v, from, "author/") {
        proof {
            reveal_strlit("author/");
            assert(tail.skip(7) =~= v@.skip(from + 7));
        }
        let a = name.substring_char(from + 7, n);
        assert(a@ =~= tail.skip(7));
        if validate_actor(a).is_ok() {
            return Entry::Author(String::from_str(a));
        } else {
            return Entry::Unrecognized;
        }
    }
    if starts_with_at(v, from, "state/") {
        proof {
            reveal_strlit("state/");
        }
        let s = name.substring_char(from + 6, n);
        assert(s@ =~= tail.skip(6));
        match ProposalState::from_name(s) {
            Ok(st) => {
                return Entry::State(st);
            },
            Err(_) => {
                return Entry::Unrecognized;
            },
        }
    }
    if starts_with_at(v, from, "reviews/") {
        proof {
            reveal_strlit("reviews/");
            assert(tail.skip(8) =~= v@.skip(from + 8));
        }
        match find_from(v, from + 8, '/') {
            Some(k) => {
                proof {
                    lemma_split_found(v@, from + 8, k as int, '/');
                }
                let who = name.substring_char(from + 8, k);
                let what = name.substring_char(k + 1, n);
                assert(what@ =~= v@.skip(k + 1));
                if validate_actor(who).is_ok() {
                    match ReviewDecision::from_name(what) {
                        Ok(d) => {
                            return Entry::Review(Review { reviewer: String::from_str(who), decision: d });
                        },
                        Err(_) => {
                            return Entry::Unrecognized;
                        },
                    }
                } else {
                    return Entry::Unrecognized;
                }
            },
            None => {
                proof {
                    lemma_split_missing(v@, from + 8, '/');
                }
                return Entry::Unrecognized;
            },
        }
    }
    if starts_with_at(v, from, "checks/") {
        proof {
            reveal_strlit("checks/");
            assert(tail.skip(7) =~= v@.skip(from + 7));
        }
        match find_from(v, from + 7, '/') {
            Some(k) => {
                proof {
                    lemma_split_found(v@, from + 7, k as int, '/');
                }
                let who = name.substring_char(from + 7, k);
                let what = name.substring_char(k + 1, n);
                assert(what@ =~= v@.skip(k + 1));
                if validate_actor(who).is_ok() {
                    match CheckResult::from_name(what) {
                        Ok(c) => {
                            return Entry::Check(Check { runner: String::from_str(who), result: c });
                        },
                        Err(_) => {
                            return Entry::Unrecognized;
                        },
                    }
                } else {
                    return Entry::Unrecognized;
                }
            },
            None => {
                proof {
                    lemma_split_missing(v@, from + 7, '/');
                }
                return Entry::Unrecognized;
            },
        }
    }
    Entry::Unrecognized
}

/// Reads a ref name into its proposal id and entry; `None` for names outside
/// the proposal namespace or with an invalid id.
fn parse_ref(name: &str) -> (r: Option<(String, Entry)>)
    ensures
        match r {
            Some((id, e)) => parse_ref_name(name@) == Some((id@, e@)),
            None => parse_ref_name(name@) is None,
        },
{
    let v = chars_of(name);
    let n = v.len();
    if !starts_with_at(&v, 0, PROPOSAL_PREFIX) {
        assert(v@.skip(0) =~= v@);
        return None;
    }
    assert(v@.skip(0) =~= v@);
    let start = PROPOSAL_PREFIX.unicode_len();
    assert(strip_prefix(name@, PROPOSAL_PREFIX@) == Some(v@.skip(start as int)));
    match find_from(&v, start, '/') {
        None => {
            proof {
                lemma_split_missing(v@, start as int, '/');
            }
            None
        },
        Some(k) => {
            proof {
                lemma_split_found(v@, start as int, k as int, '/');
            }
            assert(k < n);
            let id = name.substring_char(start, k);
            if validate_id(id).is_err() {
                return None;
            }
            let entry = parse_tail(name, &v, k + 1);
            Some((String::from_str(id), entry))
        },
    }
}


/// Whether review `a` sorts no later than review `b`.
fn review_le_exec(a: &Review, b: &Review) -> (r: bool)
    ensures
        r == review_le(a@, b@),
{
    if str_less(a.reviewer.as_str(), b.reviewer.as_str()) {
        true
    } else if str_equal(a.reviewer.as_str(), b.reviewer.as_str()) {
        str_equal(a.decision.as_str(), b.decision.as_str()) || str_less(
            a.decision.as_str(),
            b.decision.as_str(),
        )
    } else {
        false
    }
}

/// Whether check `a` sorts no later than check `b`.
fn check_le_exec(a: &Check, b: &Check) -> (r: bool)
    ensures
        r == check_le(a@, b@),
{
    if str_less(a.runner.as_str(), b.runner.as_str()) {
        true
    } else if str_equal(a.runner.as_str(), b.runner.as_str()) {
        str_equal(a.result.as_str(), b.result.as_str()) || str_less(
            a.result.as_str(),
            b.result.as_str(),
        )
    } else {
        false
    }
}

/// Sorts reviews by actor, then decision name.
fn sort_reviews(v: Vec<Review>) -> (r: Vec<Review>)
    ensures
        sorted_by(reviews_view(r@), review_order()),
        reviews_view(r@).to_multiset() == reviews_view(v@).to_multiset(),
{
    broadcast use vstd::seq_lib::group_to_multiset_ensures;

    proof {
        lemma_review_le_total_ordering();
    }
    let ghost orig = reviews_view(v@);
    let mut rest = v;
    let mut out: Vec<Review> = Vec::new();
    while rest.len() > 0
        invariant
            vstd::relations::total_ordering(review_order()),
            sorted_by(reviews_view(out@), review_order()),
            reviews_view(out@).to_multiset().add(reviews_view(rest@).to_multiset()) == orig.to_multiset(),
        decreases rest.len(),
    {
        let ghost before = rest@;
        let x = rest.pop().unwrap();
        proof {
            assert(reviews_view(before) =~= reviews_view(rest@).push(x@));
        }
        let mut pos: usize = 0;
        while pos < out.len() && review_le_exec(&out[pos], &x)
            invariant
                pos <= out@.len(),
                forall|j: int| 0 <= j < pos ==> review_le(#[trigger] reviews_view(out@)[j], x@),
            decreases out.len() - pos,
        {
            pos = pos + 1;
        }
        let ghost old_out = reviews_view(out@);
        out.insert(pos, x);
        proof {
            let s = reviews_view(out@);
            assert(s =~= old_out.insert(pos as int, x@));
            vstd::seq_lib::to_multiset_insert(old_out, pos as int, x@);
            vstd::seq_lib::to_multiset_build(reviews_view(rest@), x@);
            broadcast use vstd::multiset::group_multiset_axioms;
            assert(s.to_multiset().add(reviews_view(rest@).to_multiset()) =~= old_out.to_multiset().add(
                reviews_view(before).to_multiset(),
            ));
            assert forall|i: int, j: int| 0 <= i < j < s.len() implies #[trigger] review_le(s[i], s[j]) by {
                let o = review_order();
                if j < pos {
                    assert(o(old_out[i], old_out[j]));
                } else if j == pos {
                } else if i < pos {
                    assert(review_le(old_out[i], x@));
                    assert(!review_le(old_out[pos as int], x@));
                    assert(!o(old_out[pos as int], x@));
                    assert(o(x@, old_out[pos as int]));
                    if j - 1 > pos {
                        assert(o(old_out[pos as int], old_out[j - 1]));
                    }
                    assert(o(x@, old_out[j - 1]));
                    assert(o(old_out[i], old_out[j - 1]));
                } else if i == pos {
                    assert(!review_le(old_out[pos as int], x@));
                    assert(!o(old_out[pos as int], x@));
                    assert(o(x@, old_out[pos as int]));
                    if j - 1 > pos {
                        assert(o(old_out[pos as int], old_out[j - 1]));
                    }
                } else {
                    assert(o(old_out[i - 1], old_out[j - 1]));
                }
            }
        }
    }
    out
}

/// Sorts checks by runner, then result name.
fn sort_checks(v: Vec<Check>) -> (r: Vec<Check>)
    ensures
        sorted_by(checks_view(r@), check_order()),
        checks_view(r@).to_multiset() == checks_view(v@).to_multiset(),
{
    broadcast use vstd::seq_lib::group_to_multiset_ensures;

    proof {
        lemma_check_le_total_ordering();
    }
    let ghost orig = checks_view(v@);
    let mut rest = v;
    let mut out: Vec<Check> = Vec::new();
    while rest.len() > 0
        invariant
            vstd::relations::total_ordering(check_order()),
            sorted_by(checks_view(out@), check_order()),
            checks_view(out@).to_multiset().add(checks_view(rest@).to_multiset()) == orig.to_multiset(),
        decreases rest.len(),
    {
        let ghost before = rest@;
        let x = rest.pop().unwrap();
        proof {
            assert(checks_view(before) =~= checks_view(rest@).push(x@));
        }
        let mut pos: usize = 0;
        while pos < out.len() && check_le_exec(&out[pos], &x)
            invariant
                pos <= out@.len(),
                forall|j: int| 0 <= j < pos ==> check_le(#[trigger] checks_view(out@)[j], x@),
            decreases out.len() - pos,
        {
            pos = pos + 1;
        }
        let ghost old_out = checks_view(out@);
        out.insert(pos, x);
        proof {
            let s = checks_view(out@);
            assert(s =~= old_out.insert(pos as int, x@));
            vstd::seq_lib::to_multiset_insert(old_out, pos as int, x@);
            vstd::seq_lib::to_multiset_build(checks_view(rest@), x@);
            broadcast use vstd::multiset::group_multiset_axioms;
            assert(s.to_multiset().add(checks_view(rest@).to_multiset()) =~= old_out.to_multiset().add(
                checks_view(before).to_multiset(),
            ));
            assert forall|i: int, j: int| 0 <= i < j < s.len() implies #[trigger] check_le(s[i], s[j]) by {
                let o = check_order();
                if j < pos {
                    assert(o(old_out[i], old_out[j]));
                } else if j == pos {
                } else if i < pos {
                    assert(check_le(old_out[i], x@));
                    assert(!check_le(old_out[pos as int], x@));
                    assert(!o(old_out[pos as int], x@));
                    assert(o(x@, old_out[pos as int]));
                    if j - 1 > pos {
                        assert(o(old_out[pos as int], old_out[j - 1]));
                    }
                    assert(o(x@, old_out[j - 1]));
                    assert(o(old_out[i], old_out[j - 1]));
                } else if i == pos {
                    assert(!check_le(old_out[pos as int], x@));
                    assert(!o(old_out[pos as int], x@));
                    assert(o(x@, old_out[pos as int]));
                    if j - 1 > pos {
                        assert(o(old_out[pos as int], old_out[j - 1]));
                    }
                } else {
                    assert(o(old_out[i - 1], old_out[j - 1]));
                }
            }
        }
    }
    out
}


/// Position of a least string of a non-empty list.
fn least_string(v: &Vec<String>) -> (r: usize)
    requires
        v@.len() > 0,
    ensures
        r < v@.len(),
        is_least_string(v@[r as int]@, strings_view(v@)),
{
    let ghost sv = strings_view(v@);
    let mut best: usize = 0;
    let mut i: usize = 1;
    while i < v.len()
        invariant
            1 <= i <= v@.len(),
            best < i,
            sv == strings_view(v@),
            forall|j: int| 0 <= j < i ==> lex_le(v@[best as int]@, #[trigger] sv[j]),
        decreases v.len() - i,
    {
        if str_less(v[i].as_str(), v[best].as_str()) {
            proof {
                assert forall|j: int| 0 <= j < i + 1 implies lex_le(v@[i as int]@, #[trigger] sv[j]) by {
                    if j < i {
                        lemma_lex_lt_le_transitive(v@[i as int]@, v@[best as int]@, sv[j]);
                    }
                }
            }
            best = i;
        } else {
            proof {
                lemma_lex_not_lt(v@[i as int]@, v@[best as int]@);
            }
        }
        i = i + 1;
    }
    assert(sv[best as int] == v@[best as int]@);
    best
}

/// Position of a state with the least name in a non-empty list.
fn least_state(v: &Vec<ProposalState>) -> (r: usize)
    requires
        v@.len() > 0,
    ensures
        r < v@.len(),
        is_least_state(v@[r as int], v@),
{
    let mut best: usize = 0;
    let mut i: usize = 1;
    while i < v.len()
        invariant
            1 <= i <= v@.len(),
            best < i,
            forall|j: int| 0 <= j < i ==> lex_le(state_name(v@[best as int]), state_name(#[trigger] v@[j])),
        decreases v.len() - i,
    {
        if str_less(v[i].as_str(), v[best].as_str()) {
            proof {
                assert forall|j: int| 0 <= j < i + 1 implies lex_le(state_name(v@[i as int]), state_name(#[trigger] v@[j])) by {
                    if j < i {
                        lemma_lex_lt_le_transitive(state_name(v@[i as int]), state_name(v@[best as int]), state_name(v@[j]));
                    }
                }
            }
            best = i;
        } else {
            proof {
                lemma_lex_not_lt(state_name(v@[i as int]), state_name(v@[best as int]));
            }
        }
        i = i + 1;
    }
    best
}

/// Appends an issue for each pair of neighbouring reviews from one actor.
fn push_review_conflicts(rs: &Vec<Review>, issues: &mut Vec<String>)
    ensures
        strings_view(final(issues)@) == strings_view(old(issues)@) + review_conflicts(reviews_view(rs@)),
{
    let ghost rv = reviews_view(rs@);
    let ghost start = strings_view(issues@);
    if rs.len() < 2 {
        assert(review_conflicts(rv) =~= seq![]);
        assert(strings_view(issues@) =~= start + seq![]);
        return;
    }
    let mut i: usize = 1;
    proof {
        assert(review_conflicts(rv.take(1)) =~= seq![]);
        assert(strings_view(issues@) =~= start + seq![]);
    }
    while i < rs.len()
        invariant
            1 <= i <= rs@.len(),
            rv == reviews_view(rs@),
            strings_view(issues@) == start + review_conflicts(rv.take(i as int)),
        decreases rs.len() - i,
    {
        let ghost t = rv.take(i + 1);
        proof {
            assert(t.drop_last() =~= rv.take(i as int));
            assert(t[t.len() - 2] == rv[i - 1]);
            assert(t.last() == rv[i as int]);
        }
        if str_equal(rs[i - 1].reviewer.as_str(), rs[i].reviewer.as_str()) {
            let mut m = String::from_str("multiple current reviews from ");
            m.append(rs[i].reviewer.as_str());
            let ghost before = strings_view(issues@);
            issues.push(m);
            proof {
                assert(strings_view(issues@) =~= before.push(m@));
                assert(strings_view(issues@) =~= start + review_conflicts(t));
            }
        } else {
            proof {
                assert(review_conflicts(t) =~= review_conflicts(rv.take(i as int)) + seq![]);
            }
        }
        i = i + 1;
    }
    assert(rv.take(i as int) =~= rv);
}

/// Appends an issue for each pair of neighbouring checks from one runner.
fn push_check_conflicts(cs: &Vec<Check>, issues: &mut Vec<String>)
    ensures
        strings_view(final(issues)@) == strings_view(old(issues)@) + check_conflicts(checks_view(cs@)),
{
    let ghost cv = checks_view(cs@);
    let ghost start = strings_view(issues@);
    if cs.len() < 2 {
        assert(check_conflicts(cv) =~= seq![]);
        assert(strings_view(issues@) =~= start + seq![]);
        return;
    }
    let mut i: usize = 1;
    proof {
        assert(check_conflicts(cv.take(1)) =~= seq![]);
        assert(strings_view(issues@) =~= start + seq![]);
    }
    while i < cs.len()
        invariant
            1 <= i <= cs@.len(),
            cv == checks_view(cs@),
            strings_view(issues@) == start + check_conflicts(cv.take(i as int)),
        decreases cs.len() - i,
    {
        let ghost t = cv.take(i + 1);
        proof {
            assert(t.drop_last() =~= cv.take(i as int));
            assert(t[t.len() - 2] == cv[i - 1]);
            assert(t.last() == cv[i as int]);
        }
        if str_equal(cs[i - 1].runner.as_str(), cs[i].runner.as_str()) {
            let mut m = String::from_str("multiple current checks from ");
            m.append(cs[i].runner.as_str());
            let ghost before = strings_view(issues@);
            issues.push(m);
            proof {
                assert(strings_view(issues@) =~= before.push(m@));
                assert(strings_view(issues@) =~= start + check_conflicts(t));
            }
        } else {
            proof {
                assert(check_conflicts(t) =~= check_conflicts(cv.take(i as int)) + seq![]);
            }
        }
        i = i + 1;
    }
    assert(cv.take(i as int) =~= cv);
}


/// The entries gathered so far for one proposal id.
struct Builder {
    id: String,
    entries: Vec<(Entry, String)>,
}

/// The models of gathered entries.
spec fn entries_view(s: Seq<(Entry, String)>) -> Seq<(RefEntry, Seq<char>)> {
    s.map_values(|e: (Entry, String)| (e.0@, e.1@))
}

/// The oid of the last head entry.
fn find_head(entries: &Vec<(Entry, String)>) -> (r: Option<String>)
    ensures
        match r {
            Some(h) => last_head(entries_view(entries@)) == Some(h@),
            None => last_head(entries_view(entries@)) is None,
        },
{
    let ghost es = entries_view(entries@);
    let mut head: Option<String> = None;
    let mut i: usize = 0;
    while i < entries.len()
        invariant
            i <= entries@.len(),
            es == entries_view(entries@),
            match head {
                Some(h) => last_head(es.take(i as int)) == Some(h@),
                None => last_head(es.take(i as int)) is None,
            },
        decreases entries.len() - i,
    {
        proof {
            assert(es.take(i + 1).drop_last() =~= es.take(i as int));
            assert(es.take(i + 1).last() == es[i as int]);
        }
        match &entries[i].0 {
            Entry::Head => {
                head = Some(entries[i].1.clone());
            },
            _ => {},
        }
        i = i + 1;
    }
    assert(es.take(i as int) =~= es);
    head
}

/// Summarizes the entries of one proposal; `None` when it has no head.
fn finalize(b: &Builder) -> (r: Option<Proposal>)
    ensures
        match r {
            Some(p) => p.id@ == b.id@ && summarizes(entries_view(b.entries@), p@),
            None => last_head(entries_view(b.entries@)) is None,
        },
{
    let ghost es = entries_view(b.entries@);
    let head = match find_head(&b.entries) {
        None => {
            return None;
        },
        Some(h) => h,
    };
    let ghost h = head@;
    let mut targets: Vec<String> = Vec::new();
    let mut authors: Vec<String> = Vec::new();
    let mut states: Vec<ProposalState> = Vec::new();
    let mut reviews: Vec<Review> = Vec::new();
    let mut checks: Vec<Check> = Vec::new();
    let mut i: usize = 0;
    while i < b.entries.len()
        invariant
            i <= b.entries@.len(),
            es == entries_view(b.entries@),
            h == head@,
            strings_view(targets@) == current_targets(es.take(i as int), h),
            strings_view(authors@) == current_authors(es.take(i as int), h),
            states@ == current_states(es.take(i as int), h),
            reviews_view(reviews@) == current_reviews(es.take(i as int), h),
            checks_view(checks@) == current_checks(es.take(i as int), h),
        decreases b.entries.len() - i,
    {
        let ghost t = es.take(i + 1);
        proof {
            assert(t.drop_last() =~= es.take(i as int));
            assert(t.last() == es[i as int]);
            assert(es[i as int] == (b.entries@[i as int].0@, b.entries@[i as int].1@));
        }
        let ghost old_t = strings_view(targets@);
        let ghost old_a = strings_view(authors@);
        let ghost old_r = reviews_view(reviews@);
        let ghost old_c = checks_view(checks@);
        if str_equal(b.entries[i].1.as_str(), head.as_str()) {
            match &b.entries[i].0 {
                Entry::Target(x) => {
                    targets.push(x.clone());
                    assert(strings_view(targets@) =~= old_t.push(x@));
                },
                Entry::Author(x) => {
                    authors.push(x.clone());
                    assert(strings_view(authors@) =~= old_a.push(x@));
                },
                Entry::State(x) => {
                    states.push(*x);
                },
                Entry::Review(x) => {
                    let y = Review { reviewer: x.reviewer.clone(), decision: x.decision };
                    reviews.push(y);
                    assert(reviews_view(reviews@) =~= old_r.push(y@));
                },
                Entry::Check(x) => {
                    let y = Check { runner: x.runner.clone(), result: x.result };
                    checks.push(y);
                    assert(checks_view(checks@) =~= old_c.push(y@));
                },
                _ => {},
            }
        }
        i = i + 1;
    }
    proof {
        assert(es.take(i as int) =~= es);
    }
    let target = if targets.len() == 0 {
        String::from_str("main")
    } else {
        let k = least_string(&targets);
        targets[k].clone()
    };
    let author = if authors.len() == 0 {
        String::from_str("unknown")
    } else {
        let k = least_string(&authors);
        authors[k].clone()
    };
    let state = if states.len() == 0 {
        ProposalState::Open
    } else {
        let k = least_state(&states);
        states[k]
    };
    let n_targets = targets.len();
    let n_authors = authors.len();
    let n_states = states.len();
    let reviews = sort_reviews(reviews);
    let checks = sort_checks(checks);
    let mut issues: Vec<String> = Vec::new();
    if n_targets > 1 {
        issues.push(String::from_str("multiple current target refs"));
    }
    if n_authors > 1 {
        issues.push(String::from_str("multiple current author refs"));
    }
    if n_states > 1 {
        issues.push(String::from_str("multiple current state refs"));
    }
    proof {
        assert(strings_view(issues@) =~= multiple_issue(n_targets as nat, "multiple current target refs"@)
            + multiple_issue(n_authors as nat, "multiple current author refs"@) + multiple_issue(
            n_states as nat,
            "multiple current state refs"@,
        ));
    }
    push_review_conflicts(&reviews, &mut issues);
    push_check_conflicts(&checks, &mut issues);
    let healthy = issues.len() == 0;
    let p = Proposal {
        id: b.id.clone(),
        head,
        target,
        author,
        state,
        reviews,
        checks,
        healthy,
        issues,
    };
    proof {
        assert(p@.issues == expected_issues(es, h, p@.reviews, p@.checks));
    }
    Some(p)
}


/// Where `id` stands among builders sorted by id: its position when present,
/// else the position at which it would be inserted.
fn locate(bs: &Vec<Builder>, id: &String) -> (r: (usize, bool))
    requires
        forall|i: int, j: int| 0 <= i < j < bs@.len() ==> lex_lt(bs@[i].id@, bs@[j].id@),
    ensures
        r.0 <= bs@.len(),
        r.1 ==> r.0 < bs@.len() && bs@[r.0 as int].id@ == id@,
        !r.1 ==> (forall|i: int| 0 <= i < r.0 ==> lex_lt(#[trigger] bs@[i].id@, id@)) && (forall|i: int|
            r.0 <= i < bs@.len() ==> lex_lt(id@, #[trigger] bs@[i].id@)),
{
    let mut lo: usize = 0;
    let mut hi: usize = bs.len();
    while lo < hi
        invariant
            lo <= hi <= bs@.len(),
            forall|i: int, j: int| 0 <= i < j < bs@.len() ==> lex_lt(bs@[i].id@, bs@[j].id@),
            forall|i: int| 0 <= i < lo ==> lex_lt(#[trigger] bs@[i].id@, id@),
            forall|i: int| hi <= i < bs@.len() ==> lex_lt(id@, #[trigger] bs@[i].id@),
        decreases hi - lo,
    {
        let mid = lo + (hi - lo) / 2;
        if str_less(bs[mid].id.as_str(), id.as_str()) {
            proof {
                assert forall|i: int| 0 <= i < mid + 1 implies lex_lt(#[trigger] bs@[i].id@, id@) by {
                    if i < mid {
                        lemma_lex_lt_transitive(bs@[i].id@, bs@[mid as int].id@, id@);
                    }
                }
            }
            lo = mid + 1;
        } else if str_less(id.as_str(), bs[mid].id.as_str()) {
            proof {
                assert forall|i: int| mid <= i < bs@.len() implies lex_lt(id@, #[trigger] bs@[i].id@) by {
                    if i > mid {
                        lemma_lex_lt_transitive(id@, bs@[mid as int].id@, bs@[i].id@);
                    }
                }
            }
            hi = mid;
        } else {
            proof {
                lemma_lex_trichotomy(bs@[mid as int].id@, id@);
            }
            return (mid, true);
        }
    }
    (lo, false)
}

/// Only valid ids have entries.
proof fn lemma_entries_have_valid_id(refs: Seq<(Seq<char>, Seq<char>)>, id: Seq<char>)
    requires
        id_entries(refs, id).len() > 0,
    ensures
        valid_id(id),
    decreases refs.len(),
{
    if refs.len() > 0 {
        if id_entries(refs.drop_last(), id).len() > 0 {
            lemma_entries_have_valid_id(refs.drop_last(), id);
        }
    }
}

/// Projects proposal summaries from `(ref name, oid)` pairs.
///
/// A proposal exists for each valid id that has a head ref; its metadata,
/// reviews and checks count only when their ref points at the current head, so
/// moving the head makes earlier attestations stale without deleting them.
/// Summaries come out in order of id.
pub fn project(refs: &[(&str, &str)]) -> (out: Vec<Proposal>)
    ensures
        forall|i: int, j: int| 0 <= i < j < out@.len() ==> lex_lt(out@[i].id@, out@[j].id@),
        forall|i: int| 0 <= i < out@.len() ==> projected(refs_view(refs@), #[trigger] out@[i]@),
        forall|i: int| 0 <= i < out@.len() ==> valid_id(#[trigger] out@[i].id@),
        forall|id: Seq<char>| #[trigger]
            last_head(id_entries(refs_view(refs@), id)) is Some ==> exists|i: int|
                0 <= i < out@.len() && out@[i].id@ == id,
        is_projection(refs_view(refs@), out@.map_values(|p: Proposal| p@)),
{
    let ghost rv = refs_view(refs@);
    let mut bs: Vec<Builder> = Vec::new();
    let mut k: usize = 0;
    while k < refs.len()
        invariant
            k <= refs@.len(),
            rv == refs_view(refs@),
            forall|i: int, j: int| 0 <= i < j < bs@.len() ==> lex_lt(bs@[i].id@, bs@[j].id@),
            forall|i: int|
                0 <= i < bs@.len() ==> entries_view(#[trigger] bs@[i].entries@) == id_entries(
                    rv.take(k as int),
                    bs@[i].id@,
                ),
            forall|x: Seq<char>| #[trigger]
                id_entries(rv.take(k as int), x).len() > 0 ==> exists|i: int|
                    0 <= i < bs@.len() && bs@[i].id@ == x,
        decreases refs.len() - k,
    {
        let ghost t = rv.take(k + 1);
        proof {
            assert(t.drop_last() =~= rv.take(k as int));
            assert(t.last() == rv[k as int]);
            assert(rv[k as int] == (refs@[k as int].0@, refs@[k as int].1@));
        }
        let name = refs[k].0;
        let oid = refs[k].1;
        match parse_ref(name) {
            None => {
                proof {
                    assert forall|x: Seq<char>| id_entries(t, x) == id_entries(rv.take(k as int), x) by {}
                }
            },
            Some((id, e)) => {
                let ghost old_bs = bs@;
                let ghost idv = id@;
                let (pos, found) = locate(&bs, &id);
                if !found {
                    let nb = Builder { id: id, entries: Vec::new() };
                    bs.insert(pos, nb);
                    proof {
                        assert(bs@ == old_bs.insert(pos as int, nb));
                        assert forall|i: int, j: int| 0 <= i < j < bs@.len() implies lex_lt(
                            bs@[i].id@,
                            bs@[j].id@,
                        ) by {
                            if j < pos {
                            } else if j == pos {
                            } else if i < pos {
                                lemma_lex_lt_transitive(bs@[i].id@, nb.id@, bs@[j].id@);
                            } else if i == pos {
                            } else {
                                assert(bs@[i] == old_bs[i - 1]);
                                assert(bs@[j] == old_bs[j - 1]);
                            }
                        }
                        assert forall|x: Seq<char>| #[trigger]
                            id_entries(rv.take(k as int), x).len() > 0 implies exists|i: int|
                                0 <= i < bs@.len() && bs@[i].id@ == x by {
                            let i = choose|i: int| 0 <= i < old_bs.len() && old_bs[i].id@ == x;
                            if i < pos {
                                assert(bs@[i] == old_bs[i]);
                            } else {
                                assert(bs@[i + 1] == old_bs[i]);
                            }
                        }
                        assert(id_entries(rv.take(k as int), nb.id@).len() == 0) by {
                            if id_entries(rv.take(k as int), nb.id@).len() > 0 {
                                let i = choose|i: int| 0 <= i < old_bs.len() && old_bs[i].id@ == nb.id@;
                                lemma_lex_lt_irreflexive(nb.id@);
                            }
                        }
                        assert(id_entries(rv.take(k as int), nb.id@) =~= entries_view(nb.entries@));
                        assert forall|i: int|
                            0 <= i < bs@.len() implies entries_view(#[trigger] bs@[i].entries@)
                            == id_entries(rv.take(k as int), bs@[i].id@) by {
                            if i < pos {
                                assert(bs@[i] == old_bs[i]);
                            } else if i > pos {
                                assert(bs@[i] == old_bs[i - 1]);
                            }
                        }
                    }
                }
                let ghost mid_bs = bs@;
                let ghost the_id = bs@[pos as int].id@;
                let ghost new_entry = (e@, oid@);
                let b = &mut bs[pos];
                b.entries.push((e, String::from_str(oid)));
                proof {
                    assert(the_id == idv);
                    assert(id_entries(t, idv) == id_entries(rv.take(k as int), idv).push(new_entry));
                    assert(bs@[pos as int].id@ == the_id);
                    assert(entries_view(bs@[pos as int].entries@) =~= entries_view(
                        mid_bs[pos as int].entries@,
                    ).push(new_entry));
                    assert forall|i: int|
                        0 <= i < bs@.len() implies entries_view(#[trigger] bs@[i].entries@)
                        == id_entries(t, bs@[i].id@) by {
                        assert(entries_view(mid_bs[i].entries@) == id_entries(
                            rv.take(k as int),
                            mid_bs[i].id@,
                        ));
                        if i != pos {
                            assert(bs@[i] == mid_bs[i]);
                            lemma_lex_lt_irreflexive(idv);
                            if i < pos {
                                assert(lex_lt(mid_bs[i].id@, mid_bs[pos as int].id@));
                            } else {
                                assert(lex_lt(mid_bs[pos as int].id@, mid_bs[i].id@));
                            }
                            assert(mid_bs[i].id@ != idv);
                            assert(id_entries(t, bs@[i].id@) == id_entries(
                                rv.take(k as int),
                                bs@[i].id@,
                            ));
                        } else {
                            assert(entries_view(bs@[i].entries@) == entries_view(
                                mid_bs[i].entries@,
                            ).push(new_entry));
                        }
                    }
                    assert forall|x: Seq<char>| #[trigger]
                        id_entries(t, x).len() > 0 implies exists|i: int|
                            0 <= i < bs@.len() && bs@[i].id@ == x by {
                        if x == the_id {
                            assert(bs@[pos as int].id@ == x);
                        } else {
                            assert(id_entries(t, x) == id_entries(rv.take(k as int), x));
                            let i = choose|i: int| 0 <= i < mid_bs.len() && mid_bs[i].id@ == x;
                            assert(bs@[i].id@ == x);
                        }
                    }
                }
            },
        }
        k = k + 1;
    }
    proof {
        assert(rv.take(k as int) =~= rv);
    }
    let mut out: Vec<Proposal> = Vec::new();
    let mut i: usize = 0;
    while i < bs.len()
        invariant
            i <= bs@.len(),
            forall|a: int, b: int| 0 <= a < b < bs@.len() ==> lex_lt(bs@[a].id@, bs@[b].id@),
            forall|a: int|
                0 <= a < bs@.len() ==> entries_view(#[trigger] bs@[a].entries@) == id_entries(
                    rv,
                    bs@[a].id@,
                ),
            forall|a: int, b: int| 0 <= a < b < out@.len() ==> lex_lt(out@[a].id@, out@[b].id@),
            forall|a: int, j: int|
                0 <= a < out@.len() && i <= j < bs@.len() ==> lex_lt(out@[a].id@, bs@[j].id@),
            forall|a: int| 0 <= a < out@.len() ==> projected(rv, #[trigger] out@[a]@),
            forall|a: int| 0 <= a < out@.len() ==> valid_id(#[trigger] out@[a].id@),
            forall|j: int|
                0 <= j < i && (#[trigger] last_head(id_entries(rv, bs@[j].id@))) is Some
                    ==> exists|a: int| 0 <= a < out@.len() && out@[a].id@ == bs@[j].id@,
        decreases bs.len() - i,
    {
        let ghost old_out = out@;
        match finalize(&bs[i]) {
            Some(p) => {
                proof {
                    lemma_entries_have_valid_id(rv, p.id@);
                }
                out.push(p);
                proof {
                    assert(out@[out@.len() - 1].id@ == bs@[i as int].id@);
                    assert forall|j: int|
                        0 <= j < i + 1 && (#[trigger] last_head(id_entries(rv, bs@[j].id@))) is Some
                        implies exists|a: int| 0 <= a < out@.len() && out@[a].id@ == bs@[j].id@ by {
                        if j < i {
                            let a = choose|a: int| 0 <= a < old_out.len() && old_out[a].id@ == bs@[j].id@;
                            assert(out@[a] == old_out[a]);
                        } else {
                            assert(out@[out@.len() - 1].id@ == bs@[j].id@);
                        }
                    }
                }
            },
            None => {},
        }
        i = i + 1;
    }
    proof {
        assert forall|id: Seq<char>| #[trigger]
            last_head(id_entries(rv, id)) is Some implies exists|a: int|
                0 <= a < out@.len() && out@[a].id@ == id by {
            let j = choose|j: int| 0 <= j < bs@.len() && bs@[j].id@ == id;
            assert(last_head(id_entries(rv, bs@[j].id@)) is Some);
        }
        let ps = out@.map_values(|p: Proposal| p@);
        assert forall|id: Seq<char>| #[trigger]
            last_head(id_entries(rv, id)) is Some implies exists|a: int|
                0 <= a < ps.len() && ps[a].id == id by {
            let a = choose|a: int| 0 <= a < out@.len() && out@[a].id@ == id;
            assert(ps[a] == out@[a]@);
        }
        assert forall|i: int| 0 <= i < ps.len() implies projected(rv, #[trigger] ps[i]) by {
            assert(ps[i] == out@[i]@);
        }
        assert forall|i: int, j: int| 0 <= i < j < ps.len() implies lex_lt(ps[i].id, ps[j].id) by {
            assert(ps[i] == out@[i]@);
            assert(ps[j] == out@[j]@);
        }
    }
    out
}

/// The proposal that a listing of one proposal's refs describes: the summary
/// with the greatest id among those the listing projects, or `None` when no
/// proposal in the listing has a head ref.
pub fn existing_proposal(refs: &[(&str, &str)]) -> (r: Option<Proposal>)
    ensures
        r is None <==> forall|id: Seq<char>|
            #[trigger] last_head(id_entries(refs_view(refs@), id)) is None,
        r matches Some(p) ==> {
            &&& valid_id(p.id@)
            &&& projected(refs_view(refs@), p@)
            &&& forall|id: Seq<char>| #[trigger]
                last_head(id_entries(refs_view(refs@), id)) is Some ==> lex_le(id, p.id@)
        },
{
    let mut all = project(refs);
    let ghost out = all@;
    let r = all.pop();
    proof {
        let rv = refs_view(refs@);
        if out.len() > 0 {
            let last = out[out.len() - 1];
            assert(projected(rv, last@));
            assert(last_head(id_entries(rv, last.id@)) is Some);
            assert forall|id: Seq<char>| #[trigger]
                last_head(id_entries(rv, id)) is Some implies lex_le(id, last.id@) by {
                let i = choose|i: int| 0 <= i < out.len() && out[i].id@ == id;
                if i < out.len() - 1 {
                    assert(lex_lt(out[i].id@, out[out.len() - 1].id@));
                }
            }
        }
    }
    r
}

} // verus!
