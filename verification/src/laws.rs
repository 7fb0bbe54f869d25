//! Properties of the ref model that relate several of its functions.

use vstd::prelude::*;
use crate::kinds::{
    decision_name, lemma_decision_names_distinct, lemma_result_names_distinct,
    lemma_state_names_distinct, parse_decision, parse_result, parse_state, result_name,
    state_name, CheckResult, ProposalState, ReviewDecision,
};
use crate::refs::{
    author_ref_name, check_ref_name, head_ref_name, lemma_split_once_at, parse_ref_name,
    review_ref_name, state_ref_name, strip_prefix, tail_entry, target_ref_name,
    RefEntry, PROPOSAL_PREFIX,
};
use crate::validate::{is_actor_char, is_id_char, valid_actor, valid_id, valid_target};
use crate::project::{
    current_authors, current_checks, current_reviews, current_states, current_targets,
    id_entries, is_projection, last_head, projected, lemma_review_le_total_ordering, lemma_check_le_total_ordering, review_conflicts, check_conflicts, review_order, check_order,
};
use crate::text::{lex_le, lex_lt, lemma_lex_lt_irreflexive, lemma_lex_trichotomy};
use vstd::relations::sorted_by;
use crate::proposal::ProposalView;
use crate::commands::{
    names_view, pairs_view, apply_refspec, apply_refspecs, family_deletion_refspecs, force_refspec, metadata_prefixes,
    remove_ref, update_refspecs,
};

verus! {

/// A name made of the prefix, a valid id, `/` and a tail reads back as that id
/// with the entry of that tail.
proof fn lemma_parse_id_and_tail(id: Seq<char>, tail: Seq<char>)
    requires
        valid_id(id),
    ensures
        parse_ref_name(PROPOSAL_PREFIX@ + id + seq!['/'] + tail) == Some((id, tail_entry(tail))),
{
    let p = PROPOSAL_PREFIX@;
    let name = p + id + seq!['/'] + tail;
    assert(name.take(p.len() as int) =~= p);
    assert(p.is_prefix_of(name));
    let rest = name.skip(p.len() as int);
    assert(rest =~= id + seq!['/'] + tail);
    assert(strip_prefix(name, p) == Some(rest));
    assert(!id.contains('/')) by {
        if id.contains('/') {
            let k = choose|k: int| 0 <= k < id.len() && id[k] == '/';
            assert(is_id_char(id[k]));
        }
    }
    lemma_split_once_at(id, '/', tail);
}

/// The name that `head_ref` writes reads back as the head of that proposal.
pub proof fn lemma_head_ref_round_trip(id: Seq<char>)
    requires
        valid_id(id),
    ensures
        parse_ref_name(head_ref_name(id)) == Some((id, RefEntry::Head)),
{
    reveal_strlit("/head");
    reveal_strlit("head");
    assert(head_ref_name(id) =~= PROPOSAL_PREFIX@ + id + seq!['/'] + "head"@);
    lemma_parse_id_and_tail(id, "head"@);
}


/// A sequence is not a prefix of one that starts with another character.
proof fn lemma_first_char_differs(p: Seq<char>, s: Seq<char>)
    requires
        p.len() > 0,
        s.len() > 0,
        p[0] != s[0],
    ensures
        !p.is_prefix_of(s),
{
    if p.is_prefix_of(s) {
        assert(s.subrange(0, p.len() as int)[0] == s[0]);
    }
}

/// An actor holds no `/`.
proof fn lemma_actor_has_no_slash(a: Seq<char>)
    requires
        valid_actor(a),
    ensures
        !a.contains('/'),
{
    if a.contains('/') {
        let k = choose|k: int| 0 <= k < a.len() && a[k] == '/';
        assert(is_actor_char(a[k]));
    }
}

/// The name that `target_ref` writes reads back as that target.
pub proof fn lemma_target_ref_round_trip(id: Seq<char>, target: Seq<char>)
    requires
        valid_id(id),
        valid_target(target),
    ensures
        parse_ref_name(target_ref_name(id, target)) == Some((id, RefEntry::Target(target))),
{
    reveal_strlit("/target/");
    reveal_strlit("target/");
    reveal_strlit("head");
    let tail = "target/"@ + target;
    assert(target_ref_name(id, target) =~= PROPOSAL_PREFIX@ + id + seq!['/'] + tail);
    lemma_parse_id_and_tail(id, tail);
    assert(tail != "head"@) by {
        assert(tail[0] == 't');
    }
    assert(tail.take(7) =~= "target/"@);
    assert(tail.skip(7) =~= target);
}

/// The name that `author_ref` writes reads back as that author.
pub proof fn lemma_author_ref_round_trip(id: Seq<char>, author: Seq<char>)
    requires
        valid_id(id),
        valid_actor(author),
    ensures
        parse_ref_name(author_ref_name(id, author)) == Some((id, RefEntry::Author(author))),
{
    reveal_strlit("/author/");
    reveal_strlit("author/");
    reveal_strlit("target/");
    reveal_strlit("head");
    let tail = "author/"@ + author;
    assert(author_ref_name(id, author) =~= PROPOSAL_PREFIX@ + id + seq!['/'] + tail);
    lemma_parse_id_and_tail(id, tail);
    assert(tail != "head"@) by {
        assert(tail[0] == 'a');
    }
    lemma_first_char_differs("target/"@, tail);
    assert(tail.take(7) =~= "author/"@);
    assert(tail.skip(7) =~= author);
}

/// The name that `state_ref` writes reads back as that state.
pub proof fn lemma_state_ref_round_trip(id: Seq<char>, state: ProposalState)
    requires
        valid_id(id),
    ensures
        parse_ref_name(state_ref_name(id, state)) == Some((id, RefEntry::State(state))),
{
    reveal_strlit("/state/");
    reveal_strlit("state/");
    reveal_strlit("author/");
    reveal_strlit("target/");
    reveal_strlit("head");
    let tail = "state/"@ + state_name(state);
    assert(state_ref_name(id, state) =~= PROPOSAL_PREFIX@ + id + seq!['/'] + tail);
    lemma_parse_id_and_tail(id, tail);
    assert(tail != "head"@) by {
        assert(tail[0] == 's');
    }
    lemma_first_char_differs("target/"@, tail);
    lemma_first_char_differs("author/"@, tail);
    assert(tail.take(6) =~= "state/"@);
    assert(tail.skip(6) =~= state_name(state));
    lemma_state_names_distinct();
    let c = choose|s: ProposalState| state_name(s) == state_name(state);
    assert(state_name(c) == state_name(state));
    assert(parse_state(state_name(state)) == Some(state));
}

/// The name that `review_ref` writes reads back as that review.
pub proof fn lemma_review_ref_round_trip(id: Seq<char>, reviewer: Seq<char>, d: ReviewDecision)
    requires
        valid_id(id),
        valid_actor(reviewer),
    ensures
        parse_ref_name(review_ref_name(id, reviewer, d)) == Some(
            (id, RefEntry::Review(reviewer, d)),
        ),
{
    reveal_strlit("/reviews/");
    reveal_strlit("reviews/");
    reveal_strlit("/");
    reveal_strlit("state/");
    reveal_strlit("author/");
    reveal_strlit("target/");
    reveal_strlit("head");
    let tail = "reviews/"@ + reviewer + seq!['/'] + decision_name(d);
    assert(review_ref_name(id, reviewer, d) =~= PROPOSAL_PREFIX@ + id + seq!['/'] + tail);
    lemma_parse_id_and_tail(id, tail);
    assert(tail != "head"@) by {
        assert(tail[0] == 'r');
    }
    lemma_first_char_differs("target/"@, tail);
    lemma_first_char_differs("author/"@, tail);
    lemma_first_char_differs("state/"@, tail);
    assert(tail.take(8) =~= "reviews/"@);
    assert(tail.skip(8) =~= reviewer + seq!['/'] + decision_name(d));
    lemma_actor_has_no_slash(reviewer);
    lemma_split_once_at(reviewer, '/', decision_name(d));
    lemma_decision_names_distinct();
    let c = choose|x: ReviewDecision| decision_name(x) == decision_name(d);
    assert(decision_name(c) == decision_name(d));
    assert(parse_decision(decision_name(d)) == Some(d));
}

/// The name that `check_ref` writes reads back as that check.
pub proof fn lemma_check_ref_round_trip(id: Seq<char>, runner: Seq<char>, c: CheckResult)
    requires
        valid_id(id),
        valid_actor(runner),
    ensures
        parse_ref_name(check_ref_name(id, runner, c)) == Some((id, RefEntry::Check(runner, c))),
{
    reveal_strlit("/checks/");
    reveal_strlit("checks/");
    reveal_strlit("reviews/");
    reveal_strlit("/");
    reveal_strlit("state/");
    reveal_strlit("author/");
    reveal_strlit("target/");
    reveal_strlit("head");
    let tail = "checks/"@ + runner + seq!['/'] + result_name(c);
    assert(check_ref_name(id, runner, c) =~= PROPOSAL_PREFIX@ + id + seq!['/'] + tail);
    lemma_parse_id_and_tail(id, tail);
    assert(tail != "head"@) by {
        assert(tail[0] == 'c');
    }
    lemma_first_char_differs("target/"@, tail);
    lemma_first_char_differs("author/"@, tail);
    lemma_first_char_differs("state/"@, tail);
    lemma_first_char_differs("reviews/"@, tail);
    assert(tail.take(7) =~= "checks/"@);
    assert(tail.skip(7) =~= runner + seq!['/'] + result_name(c));
    lemma_actor_has_no_slash(runner);
    lemma_split_once_at(runner, '/', result_name(c));
    lemma_result_names_distinct();
    let x = choose|x: CheckResult| result_name(x) == result_name(c);
    assert(result_name(x) == result_name(c));
    assert(parse_result(result_name(c)) == Some(c));
}


/// A state's name reads back as that state.
pub proof fn lemma_state_name_round_trip(s: ProposalState)
    ensures
        parse_state(state_name(s)) == Some(s),
{
    lemma_state_names_distinct();
    let c = choose|x: ProposalState| state_name(x) == state_name(s);
    assert(state_name(c) == state_name(s));
}

/// A decision's name reads back as that decision.
pub proof fn lemma_decision_name_round_trip(d: ReviewDecision)
    ensures
        parse_decision(decision_name(d)) == Some(d),
{
    lemma_decision_names_distinct();
    let c = choose|x: ReviewDecision| decision_name(x) == decision_name(d);
    assert(decision_name(c) == decision_name(d));
}

/// A check result's name reads back as that result.
pub proof fn lemma_result_name_round_trip(c: CheckResult)
    ensures
        parse_result(result_name(c)) == Some(c),
{
    lemma_result_names_distinct();
    let x = choose|x: CheckResult| result_name(x) == result_name(c);
    assert(result_name(x) == result_name(c));
}

/// The refs that creating a proposal writes (head, target, author and the
/// `open` state, all at the proposed commit) project back to a healthy
/// proposal with exactly that id, head, target, author and state, and with no
/// reviews or checks.
pub proof fn lemma_created_proposal_projects(
    id: Seq<char>,
    target: Seq<char>,
    author: Seq<char>,
    oid: Seq<char>,
)
    requires
        valid_id(id),
        valid_target(target),
        valid_actor(author),
    ensures
        projected(
            seq![
                (head_ref_name(id), oid),
                (target_ref_name(id, target), oid),
                (author_ref_name(id, author), oid),
                (state_ref_name(id, ProposalState::Open), oid),
            ],
            ProposalView {
                id,
                head: oid,
                target,
                author,
                state: ProposalState::Open,
                reviews: seq![],
                checks: seq![],
                healthy: true,
                issues: seq![],
            },
        ),
{
    lemma_head_ref_round_trip(id);
    lemma_target_ref_round_trip(id, target);
    lemma_author_ref_round_trip(id, author);
    lemma_state_ref_round_trip(id, ProposalState::Open);
    let r4 = seq![
        (head_ref_name(id), oid),
        (target_ref_name(id, target), oid),
        (author_ref_name(id, author), oid),
        (state_ref_name(id, ProposalState::Open), oid),
    ];
    let r3 = r4.drop_last();
    let r2 = r3.drop_last();
    let r1 = r2.drop_last();
    let r0 = r1.drop_last();
    assert(r0 =~= seq![]);
    assert(r1 =~= seq![(head_ref_name(id), oid)]);
    assert(r1.last() == (head_ref_name(id), oid));
    assert(id_entries(r0, id) =~= seq![]);
    assert(id_entries(r1, id) =~= seq![(RefEntry::Head, oid)]);
    assert(id_entries(r2, id) =~= seq![(RefEntry::Head, oid), (RefEntry::Target(target), oid)]);
    assert(id_entries(r3, id) =~= seq![
        (RefEntry::Head, oid),
        (RefEntry::Target(target), oid),
        (RefEntry::Author(author), oid),
    ]);
    let es = id_entries(r4, id);
    assert(es =~= seq![
        (RefEntry::Head, oid),
        (RefEntry::Target(target), oid),
        (RefEntry::Author(author), oid),
        (RefEntry::State(ProposalState::Open), oid),
    ]);
    let e3 = es.drop_last();
    let e2 = e3.drop_last();
    let e1 = e2.drop_last();
    let e0 = e1.drop_last();
    assert(e0 =~= seq![]);
    assert(last_head(e1) == Some(oid));
    assert(last_head(e2) == Some(oid));
    assert(last_head(e3) == Some(oid));
    assert(last_head(es) == Some(oid));
    assert(e1 =~= seq![(RefEntry::Head, oid)]);
    assert(e2 =~= seq![(RefEntry::Head, oid), (RefEntry::Target(target), oid)]);
    assert(e3 =~= seq![
        (RefEntry::Head, oid),
        (RefEntry::Target(target), oid),
        (RefEntry::Author(author), oid),
    ]);
    assert(current_targets(e0, oid) =~= seq![]);
    assert(current_targets(e1, oid) =~= seq![]);
    assert(current_targets(e2, oid) =~= seq![target]);
    assert(current_targets(e3, oid) =~= seq![target]);
    assert(current_targets(es, oid) =~= seq![target]);
    assert(current_authors(e0, oid) =~= seq![]);
    assert(current_authors(e1, oid) =~= seq![]);
    assert(current_authors(e2, oid) =~= seq![]);
    assert(current_authors(e3, oid) =~= seq![author]);
    assert(current_authors(es, oid) =~= seq![author]);
    assert(current_states(e0, oid) =~= seq![]);
    assert(current_states(e1, oid) =~= seq![]);
    assert(current_states(e2, oid) =~= seq![]);
    assert(current_states(e3, oid) =~= seq![]);
    assert(current_states(es, oid) =~= seq![ProposalState::Open]);
    assert(current_reviews(e0, oid) =~= seq![]);
    assert(current_reviews(e1, oid) =~= seq![]);
    assert(current_reviews(e2, oid) =~= seq![]);
    assert(current_reviews(e3, oid) =~= seq![]);
    assert(current_reviews(es, oid) =~= seq![]);
    assert(current_checks(e0, oid) =~= seq![]);
    assert(current_checks(e1, oid) =~= seq![]);
    assert(current_checks(e2, oid) =~= seq![]);
    assert(current_checks(e3, oid) =~= seq![]);
    assert(current_checks(es, oid) =~= seq![]);
    assert(seq![target][0] == target);
    assert(seq![author][0] == author);
    assert(seq![ProposalState::Open][0] == ProposalState::Open);
    assert(review_conflicts(seq![]) =~= seq![]);
    assert(check_conflicts(seq![]) =~= seq![]);
    broadcast use vstd::seq_lib::group_to_multiset_ensures;

}


/// The refs that a proposal and one review and one check of it write, all at
/// one commit, project back to exactly that proposal: its id, head, target,
/// author and state, that review and that check, and no issues.
pub proof fn lemma_attested_proposal_projects(
    id: Seq<char>,
    target: Seq<char>,
    author: Seq<char>,
    state: ProposalState,
    reviewer: Seq<char>,
    d: ReviewDecision,
    runner: Seq<char>,
    c: CheckResult,
    oid: Seq<char>,
)
    requires
        valid_id(id),
        valid_target(target),
        valid_actor(author),
        valid_actor(reviewer),
        valid_actor(runner),
    ensures
        projected(
            seq![
                (head_ref_name(id), oid),
                (target_ref_name(id, target), oid),
                (author_ref_name(id, author), oid),
                (state_ref_name(id, state), oid),
                (review_ref_name(id, reviewer, d), oid),
                (check_ref_name(id, runner, c), oid),
            ],
            ProposalView {
                id,
                head: oid,
                target,
                author,
                state,
                reviews: seq![(reviewer, d)],
                checks: seq![(runner, c)],
                healthy: true,
                issues: seq![],
            },
        ),
{
    broadcast use vstd::seq_lib::group_to_multiset_ensures;

    lemma_head_ref_round_trip(id);
    lemma_target_ref_round_trip(id, target);
    lemma_author_ref_round_trip(id, author);
    lemma_state_ref_round_trip(id, state);
    lemma_review_ref_round_trip(id, reviewer, d);
    lemma_check_ref_round_trip(id, runner, c);
    let r6 = seq![
        (head_ref_name(id), oid),
        (target_ref_name(id, target), oid),
        (author_ref_name(id, author), oid),
        (state_ref_name(id, state), oid),
        (review_ref_name(id, reviewer, d), oid),
        (check_ref_name(id, runner, c), oid),
    ];
    let r5 = r6.drop_last();
    let r4 = r5.drop_last();
    let r3 = r4.drop_last();
    let r2 = r3.drop_last();
    let r1 = r2.drop_last();
    let r0 = r1.drop_last();
    assert(r0 =~= seq![]);
    assert(r1 =~= seq![(head_ref_name(id), oid)]);
    let es = id_entries(r6, id);
    assert(id_entries(r0, id) =~= seq![]);
    assert(id_entries(r1, id) =~= seq![(RefEntry::Head, oid)]);
    assert(id_entries(r2, id) =~= seq![(RefEntry::Head, oid), (RefEntry::Target(target), oid)]);
    assert(id_entries(r3, id) =~= id_entries(r2, id).push((RefEntry::Author(author), oid)));
    assert(id_entries(r4, id) =~= id_entries(r3, id).push((RefEntry::State(state), oid)));
    assert(id_entries(r5, id) =~= id_entries(r4, id).push((RefEntry::Review(reviewer, d), oid)));
    assert(es =~= id_entries(r5, id).push((RefEntry::Check(runner, c), oid)));
    let e5 = es.drop_last();
    let e4 = e5.drop_last();
    let e3 = e4.drop_last();
    let e2 = e3.drop_last();
    let e1 = e2.drop_last();
    let e0 = e1.drop_last();
    assert(e5 =~= id_entries(r5, id));
    assert(e4 =~= id_entries(r4, id));
    assert(e3 =~= id_entries(r3, id));
    assert(e2 =~= id_entries(r2, id));
    assert(e1 =~= id_entries(r1, id));
    assert(e0 =~= seq![]);
    assert(last_head(e1) == Some(oid));
    assert(last_head(e2) == Some(oid));
    assert(last_head(e3) == Some(oid));
    assert(last_head(e4) == Some(oid));
    assert(last_head(e5) == Some(oid));
    assert(last_head(es) == Some(oid));
    assert(current_targets(e0, oid) =~= seq![]);
    assert(current_targets(e1, oid) =~= seq![]);
    assert(current_targets(e2, oid) =~= seq![target]);
    assert(current_targets(e3, oid) =~= seq![target]);
    assert(current_targets(e4, oid) =~= seq![target]);
    assert(current_targets(e5, oid) =~= seq![target]);
    assert(current_targets(es, oid) =~= seq![target]);
    assert(current_authors(e0, oid) =~= seq![]);
    assert(current_authors(e1, oid) =~= seq![]);
    assert(current_authors(e2, oid) =~= seq![]);
    assert(current_authors(e3, oid) =~= seq![author]);
    assert(current_authors(e4, oid) =~= seq![author]);
    assert(current_authors(e5, oid) =~= seq![author]);
    assert(current_authors(es, oid) =~= seq![author]);
    assert(current_states(e0, oid) =~= seq![]);
    assert(current_states(e1, oid) =~= seq![]);
    assert(current_states(e2, oid) =~= seq![]);
    assert(current_states(e3, oid) =~= seq![]);
    assert(current_states(e4, oid) =~= seq![state]);
    assert(current_states(e5, oid) =~= seq![state]);
    assert(current_states(es, oid) =~= seq![state]);
    assert(current_reviews(e0, oid) =~= seq![]);
    assert(current_reviews(e1, oid) =~= seq![]);
    assert(current_reviews(e2, oid) =~= seq![]);
    assert(current_reviews(e3, oid) =~= seq![]);
    assert(current_reviews(e4, oid) =~= seq![]);
    assert(current_reviews(e5, oid) =~= seq![(reviewer, d)]);
    assert(current_reviews(es, oid) =~= seq![(reviewer, d)]);
    assert(current_checks(e0, oid) =~= seq![]);
    assert(current_checks(e1, oid) =~= seq![]);
    assert(current_checks(e2, oid) =~= seq![]);
    assert(current_checks(e3, oid) =~= seq![]);
    assert(current_checks(e4, oid) =~= seq![]);
    assert(current_checks(e5, oid) =~= seq![]);
    assert(current_checks(es, oid) =~= seq![(runner, c)]);
    assert(seq![target][0] == target);
    assert(seq![author][0] == author);
    assert(seq![state][0] == state);
    let rs = seq![(reviewer, d)];
    let cs = seq![(runner, c)];
    assert(rs.drop_last() =~= seq![]);
    assert(cs.drop_last() =~= seq![]);
    assert(review_conflicts(rs) =~= seq![]);
    assert(check_conflicts(cs) =~= seq![]);
    assert(sorted_by(rs, review_order()));
    assert(sorted_by(cs, check_order()));
    assert(lex_le(state_name(state), state_name(state)));
}

/// Entries none of which is recorded at `h` leave nothing current at `h`.
proof fn lemma_nothing_recorded_at(es: Seq<(RefEntry, Seq<char>)>, h: Seq<char>)
    requires
        forall|i: int| 0 <= i < es.len() ==> (#[trigger] es[i]).1 != h,
    ensures
        current_targets(es, h).len() == 0,
        current_authors(es, h).len() == 0,
        current_states(es, h).len() == 0,
        current_reviews(es, h).len() == 0,
        current_checks(es, h).len() == 0,
    decreases es.len(),
{
    if es.len() > 0 {
        let prev = es.drop_last();
        assert forall|i: int| 0 <= i < prev.len() implies (#[trigger] prev[i]).1 != h by {
            assert(prev[i] == es[i]);
        }
        lemma_nothing_recorded_at(prev, h);
        assert(es.last() == es[es.len() - 1]);
    }
}

/// Pointing a proposal's head at a commit that none of its refs records makes
/// every earlier target, author, state, review and check stale: the summary
/// has that head, the default target, author and state, no reviews or checks,
/// and no issues.
pub proof fn lemma_new_head_makes_metadata_stale(
    refs: Seq<(Seq<char>, Seq<char>)>,
    id: Seq<char>,
    oid: Seq<char>,
    p: ProposalView,
)
    requires
        valid_id(id),
        forall|i: int| 0 <= i < id_entries(refs, id).len() ==> (#[trigger] id_entries(refs, id)[i]).1
            != oid,
        p.id == id,
        projected(refs.push((head_ref_name(id), oid)), p),
    ensures
        p.head == oid,
        p.target == "main"@,
        p.author == "unknown"@,
        p.state == ProposalState::Open,
        p.reviews.len() == 0,
        p.checks.len() == 0,
        p.issues.len() == 0,
        p.healthy,
{
    broadcast use vstd::seq_lib::group_to_multiset_ensures;

    lemma_head_ref_round_trip(id);
    let r = refs.push((head_ref_name(id), oid));
    assert(r.drop_last() =~= refs);
    let old_es = id_entries(refs, id);
    let es = id_entries(r, id);
    assert(es == old_es.push((RefEntry::Head, oid)));
    assert(es.drop_last() =~= old_es);
    assert(last_head(es) == Some(oid));
    lemma_nothing_recorded_at(old_es, oid);
    assert(p.reviews.to_multiset().len() == 0);
    assert(p.checks.to_multiset().len() == 0);
    assert(review_conflicts(p.reviews) =~= seq![]);
    assert(check_conflicts(p.checks) =~= seq![]);
}


/// Refs outside the proposal namespace, or with an invalid id, change no
/// proposal's entries.
pub proof fn lemma_foreign_refs_ignored(
    refs: Seq<(Seq<char>, Seq<char>)>,
    name: Seq<char>,
    oid: Seq<char>,
    id: Seq<char>,
)
    requires
        parse_ref_name(name) is None,
    ensures
        id_entries(refs.push((name, oid)), id) == id_entries(refs, id),
{
    assert(refs.push((name, oid)).drop_last() =~= refs);
}

/// A review recorded at the current head counts: after adding its ref, the
/// head is unchanged and the current reviews gain exactly that review.
pub proof fn lemma_review_at_head_counts(
    refs: Seq<(Seq<char>, Seq<char>)>,
    id: Seq<char>,
    who: Seq<char>,
    d: ReviewDecision,
    h: Seq<char>,
)
    requires
        valid_id(id),
        valid_actor(who),
        last_head(id_entries(refs, id)) == Some(h),
    ensures
        last_head(id_entries(refs.push((review_ref_name(id, who, d), h)), id)) == Some(h),
        current_reviews(id_entries(refs.push((review_ref_name(id, who, d), h)), id), h)
            == current_reviews(id_entries(refs, id), h).push((who, d)),
{
    lemma_review_ref_round_trip(id, who, d);
    let r = refs.push((review_ref_name(id, who, d), h));
    assert(r.drop_last() =~= refs);
    let es = id_entries(r, id);
    assert(es == id_entries(refs, id).push((RefEntry::Review(who, d), h)));
    assert(es.drop_last() =~= id_entries(refs, id));
}

/// A check result recorded at the current head counts: after adding its ref,
/// the head is unchanged and the current checks gain exactly that result.
pub proof fn lemma_check_at_head_counts(
    refs: Seq<(Seq<char>, Seq<char>)>,
    id: Seq<char>,
    runner: Seq<char>,
    c: CheckResult,
    h: Seq<char>,
)
    requires
        valid_id(id),
        valid_actor(runner),
        last_head(id_entries(refs, id)) == Some(h),
    ensures
        last_head(id_entries(refs.push((check_ref_name(id, runner, c), h)), id)) == Some(h),
        current_checks(id_entries(refs.push((check_ref_name(id, runner, c), h)), id), h)
            == current_checks(id_entries(refs, id), h).push((runner, c)),
{
    lemma_check_ref_round_trip(id, runner, c);
    let r = refs.push((check_ref_name(id, runner, c), h));
    assert(r.drop_last() =~= refs);
    let es = id_entries(r, id);
    assert(es == id_entries(refs, id).push((RefEntry::Check(runner, c), h)));
    assert(es.drop_last() =~= id_entries(refs, id));
}

/// Adding a ref that is not a head ref, and that does not point at the current
/// head of the proposal it belongs to (an attestation for an older revision,
/// or a ref outside the proposal namespace), changes no proposal's head and no
/// summary: the listing projects exactly the summaries it projected before
/// (with `lemma_projection_determined`, `project` returns the same result).
pub proof fn lemma_stale_ref_changes_nothing(
    refs: Seq<(Seq<char>, Seq<char>)>,
    name: Seq<char>,
    oid: Seq<char>,
)
    requires
        !(parse_ref_name(name) matches Some((_, RefEntry::Head))),
        parse_ref_name(name) matches Some((id, _)) ==> last_head(id_entries(refs, id)) != Some(
            oid,
        ),
    ensures
        forall|id: Seq<char>|
            #[trigger] last_head(id_entries(refs.push((name, oid)), id)) == last_head(
                id_entries(refs, id),
            ),
        forall|p: ProposalView|
            #[trigger] projected(refs.push((name, oid)), p) <==> projected(refs, p),
        forall|ps: Seq<ProposalView>|
            #[trigger] is_projection(refs.push((name, oid)), ps) <==> is_projection(refs, ps),
{
    let r = refs.push((name, oid));
    assert(r.drop_last() =~= refs);
    assert forall|id: Seq<char>|
        #[trigger] id_entries(r, id) == id_entries(refs, id) || (parse_ref_name(name) matches Some(
            (i, e),
        ) && i == id && id_entries(r, id) == id_entries(refs, id).push((e, oid))) by {}
    assert forall|id: Seq<char>|
        #[trigger] last_head(id_entries(r, id)) == last_head(id_entries(refs, id)) by {
        let es = id_entries(refs, id);
        if id_entries(r, id) != es {
            assert(id_entries(r, id).drop_last() =~= es);
        }
    }
    assert forall|p: ProposalView| #[trigger] projected(r, p) <==> projected(refs, p) by {
        let es = id_entries(refs, p.id);
        let es2 = id_entries(r, p.id);
        let h = p.head;
        if es2 != es {
            assert(es2.drop_last() =~= es);
            if last_head(es) == Some(h) {
                assert(h != oid);
                assert(current_targets(es2, h) == current_targets(es, h));
                assert(current_authors(es2, h) == current_authors(es, h));
                assert(current_states(es2, h) == current_states(es, h));
                assert(current_reviews(es2, h) == current_reviews(es, h));
                assert(current_checks(es2, h) == current_checks(es, h));
            }
        }
    }
    assert forall|ps: Seq<ProposalView>| #[trigger] is_projection(r, ps) <==> is_projection(refs, ps) by {
        if is_projection(r, ps) {
            assert forall|i: int| 0 <= i < ps.len() implies projected(refs, #[trigger] ps[i]) by {
                assert(projected(r, ps[i]));
            }
            assert forall|id: Seq<char>| #[trigger]
                last_head(id_entries(refs, id)) is Some implies exists|i: int|
                    0 <= i < ps.len() && ps[i].id == id by {
                assert(last_head(id_entries(r, id)) == last_head(id_entries(refs, id)));
            }
        }
        if is_projection(refs, ps) {
            assert forall|i: int| 0 <= i < ps.len() implies projected(r, #[trigger] ps[i]) by {
                assert(projected(refs, ps[i]));
            }
            assert forall|id: Seq<char>| #[trigger]
                last_head(id_entries(r, id)) is Some implies exists|i: int|
                    0 <= i < ps.len() && ps[i].id == id by {
                assert(last_head(id_entries(r, id)) == last_head(id_entries(refs, id)));
            }
        }
    }
}

/// Every ref of `a` is a ref of `b`.
spec fn refs_within(a: Seq<(Seq<char>, Seq<char>)>, b: Seq<(Seq<char>, Seq<char>)>) -> bool {
    forall|k: int| 0 <= k < a.len() ==> b.contains(#[trigger] a[k])
}

/// Removing the refs of a name keeps refs of the listing only.
proof fn lemma_remove_ref_within(s: Seq<(Seq<char>, Seq<char>)>, n: Seq<char>)
    ensures
        refs_within(remove_ref(s, n), s),
    decreases s.len(),
{
    reveal_with_fuel(Seq::filter, 1);
    if s.len() > 0 {
        let s0 = s.drop_last();
        lemma_remove_ref_within(s0, n);
        let r = remove_ref(s, n);
        let r0 = remove_ref(s0, n);
        assert forall|k: int| 0 <= k < r.len() implies s.contains(#[trigger] r[k]) by {
            if k < r0.len() {
                assert(r[k] == r0[k]);
                let j = choose|j: int| 0 <= j < s0.len() && s0[j] == r0[k];
                assert(s[j] == s0[j]);
            } else {
                assert(r[k] == s.last());
                assert(s[s.len() - 1] == s.last());
            }
        }
    }
}

/// Within is transitive.
proof fn lemma_within_trans(
    a: Seq<(Seq<char>, Seq<char>)>,
    b: Seq<(Seq<char>, Seq<char>)>,
    c: Seq<(Seq<char>, Seq<char>)>,
)
    requires
        refs_within(a, b),
        refs_within(b, c),
    ensures
        refs_within(a, c),
{
    assert forall|k: int| 0 <= k < a.len() implies c.contains(#[trigger] a[k]) by {
        let j = choose|j: int| 0 <= j < b.len() && b[j] == a[k];
        assert(c.contains(b[j]));
    }
}

/// Removing the refs of a name from a listing with a last ref of another name
/// keeps that ref last.
proof fn lemma_remove_push(s: Seq<(Seq<char>, Seq<char>)>, x: (Seq<char>, Seq<char>), n: Seq<char>)
    requires
        x.0 != n,
    ensures
        remove_ref(s.push(x), n) == remove_ref(s, n).push(x),
{
    reveal_with_fuel(Seq::filter, 1);
    assert(s.push(x).drop_last() =~= s);
}

/// A refspec `:<name>` deletes `name`.
proof fn lemma_delete_refspec(s: Seq<(Seq<char>, Seq<char>)>, spec: Seq<char>)
    requires
        spec.len() > 0,
        spec[0] == ':',
    ensures
        apply_refspec(s, spec) == remove_ref(s, spec.skip(1)),
{
    let e: Seq<char> = seq![];
    assert(spec =~= e + seq![':'] + spec.skip(1));
    lemma_split_once_at(e, ':', spec.skip(1));
}

/// A refspec `+<oid>:<name>` sets `name` to `oid`.
proof fn lemma_force_refspec(s: Seq<(Seq<char>, Seq<char>)>, oid: Seq<char>, n: Seq<char>)
    requires
        oid.len() > 0,
        !oid.contains(':'),
    ensures
        apply_refspec(s, force_refspec(oid, n)) == remove_ref(s, n).push((n, oid)),
{
    reveal_strlit("+");
    reveal_strlit(":");
    let spec = force_refspec(oid, n);
    assert(spec[0] == '+');
    assert(spec.skip(1) =~= oid + seq![':'] + n);
    lemma_split_once_at(oid, ':', n);
}

/// Deleting refspecs leave refs of the listing only.
proof fn lemma_deletions_within(rv: Seq<(Seq<char>, Seq<char>)>, specs: Seq<Seq<char>>)
    requires
        forall|i: int| 0 <= i < specs.len() ==> (#[trigger] specs[i]).len() > 0 && specs[i][0] == ':',
    ensures
        refs_within(apply_refspecs(rv, specs), rv),
    decreases specs.len(),
{
    if specs.len() == 0 {
        let r = apply_refspecs(rv, specs);
        assert forall|k: int| 0 <= k < r.len() implies rv.contains(#[trigger] r[k]) by {
            assert(rv[k] == r[k]);
        }
    } else {
        let prev = specs.drop_last();
        assert forall|i: int| 0 <= i < prev.len() implies (#[trigger] prev[i]).len() > 0
            && prev[i][0] == ':' by {
            assert(prev[i] == specs[i]);
        }
        lemma_deletions_within(rv, prev);
        let p = apply_refspecs(rv, prev);
        assert(specs.last() == specs[specs.len() - 1]);
        lemma_delete_refspec(p, specs.last());
        lemma_remove_ref_within(p, specs.last().skip(1));
        lemma_within_trans(apply_refspecs(rv, specs), p, rv);
    }
}

/// A proposal has a head exactly when some listed ref is its head ref.
proof fn lemma_last_head_some(refs: Seq<(Seq<char>, Seq<char>)>, x: Seq<char>)
    ensures
        last_head(id_entries(refs, x)) is Some <==> exists|j: int|
            0 <= j < refs.len() && parse_ref_name(#[trigger] refs[j].0) == Some((x, RefEntry::Head)),
    decreases refs.len(),
{
    if refs.len() > 0 {
        let prev = refs.drop_last();
        lemma_last_head_some(prev, x);
        let es = id_entries(refs, x);
        let ps = id_entries(prev, x);
        if es != ps {
            assert(es.drop_last() =~= ps);
        }
        if exists|j: int| 0 <= j < prev.len() && parse_ref_name(#[trigger] prev[j].0) == Some((x, RefEntry::Head)) {
            let j = choose|j: int| 0 <= j < prev.len() && parse_ref_name(#[trigger] prev[j].0) == Some((x, RefEntry::Head));
            assert(refs[j] == prev[j]);
        }
        if exists|j: int| 0 <= j < refs.len() && parse_ref_name(#[trigger] refs[j].0) == Some((x, RefEntry::Head)) {
            let j = choose|j: int| 0 <= j < refs.len() && parse_ref_name(#[trigger] refs[j].0) == Some((x, RefEntry::Head));
            if j < refs.len() - 1 {
                assert(prev[j] == refs[j]);
            } else {
                assert(refs.last() == refs[j]);
            }
        }
    }
}

/// No entry of a listing whose refs all avoid oid `h` is recorded at `h`.
proof fn lemma_entries_avoid(refs: Seq<(Seq<char>, Seq<char>)>, id: Seq<char>, h: Seq<char>)
    requires
        forall|j: int| 0 <= j < refs.len() ==> (#[trigger] refs[j]).1 != h,
    ensures
        forall|i: int|
            0 <= i < id_entries(refs, id).len() ==> (#[trigger] id_entries(refs, id)[i]).1 != h,
    decreases refs.len(),
{
    if refs.len() > 0 {
        let prev = refs.drop_last();
        assert forall|j: int| 0 <= j < prev.len() implies (#[trigger] prev[j]).1 != h by {
            assert(prev[j] == refs[j]);
        }
        lemma_entries_avoid(prev, id, h);
        assert(refs.last() == refs[refs.len() - 1]);
        let es = id_entries(refs, id);
        let ps = id_entries(prev, id);
        assert forall|i: int| 0 <= i < es.len() implies (#[trigger] es[i]).1 != h by {
            if i < ps.len() {
                assert(es[i] == ps[i]);
            }
        }
    }
}

/// The names of the refs of a listing.
pub open spec fn ref_names(rv: Seq<(Seq<char>, Seq<char>)>) -> Seq<Seq<char>> {
    rv.map_values(|r: (Seq<char>, Seq<char>)| r.0)
}

/// The listing after an update's push: a part of the listing it was planned
/// from, followed by the head, target, author and `open` state refs at `oid`.
proof fn lemma_update_listing(
    rv: Seq<(Seq<char>, Seq<char>)>,
    id: Seq<char>,
    target: Seq<char>,
    author: Seq<char>,
    oid: Seq<char>,
) -> (b: Seq<(Seq<char>, Seq<char>)>)
    requires
        valid_id(id),
        valid_target(target),
        valid_actor(author),
        oid.len() > 0,
        !oid.contains(':'),
    ensures
        refs_within(b, rv),
        apply_refspecs(rv, update_refspecs(ref_names(rv), id, target, author, oid)) == b.push(
            (head_ref_name(id), oid),
        ).push((target_ref_name(id, target), oid)).push((author_ref_name(id, author), oid)).push(
            (state_ref_name(id, ProposalState::Open), oid),
        ),
{
    reveal_strlit(":");
    let hn = head_ref_name(id);
    let tn = target_ref_name(id, target);
    let an = author_ref_name(id, author);
    let sn = state_ref_name(id, ProposalState::Open);
    lemma_head_ref_round_trip(id);
    lemma_target_ref_round_trip(id, target);
    lemma_author_ref_round_trip(id, author);
    lemma_state_ref_round_trip(id, ProposalState::Open);
    assert(hn != tn && hn != an && hn != sn && tn != an && tn != sn && an != sn);
    let dels = family_deletion_refspecs(
        ref_names(rv),
        metadata_prefixes(id),
        seq![tn, an, sn],
    );
    let f1 = force_refspec(oid, hn);
    let f2 = force_refspec(oid, tn);
    let f3 = force_refspec(oid, an);
    let f4 = force_refspec(oid, sn);
    let specs = update_refspecs(ref_names(rv), id, target, author, oid);
    assert(specs =~= dels + seq![f1, f2, f3, f4]);
    assert(specs.drop_last() =~= dels + seq![f1, f2, f3]);
    assert(specs.drop_last().drop_last() =~= dels + seq![f1, f2]);
    assert(specs.drop_last().drop_last().drop_last() =~= dels + seq![f1]);
    assert(specs.drop_last().drop_last().drop_last().drop_last() =~= dels);
    assert forall|i: int| 0 <= i < dels.len() implies (#[trigger] dels[i]).len() > 0 && dels[i][0]
        == ':' by {}
    lemma_deletions_within(rv, dels);
    let s0 = apply_refspecs(rv, dels);
    lemma_force_refspec(s0, oid, hn);
    let b1 = remove_ref(s0, hn);
    let s1 = b1.push((hn, oid));
    assert(apply_refspecs(rv, dels + seq![f1]) == s1);
    lemma_force_refspec(s1, oid, tn);
    lemma_remove_push(b1, (hn, oid), tn);
    let b2 = remove_ref(b1, tn);
    let s2 = b2.push((hn, oid)).push((tn, oid));
    assert(apply_refspecs(rv, dels + seq![f1, f2]) == s2);
    lemma_force_refspec(s2, oid, an);
    lemma_remove_push(b2.push((hn, oid)), (tn, oid), an);
    lemma_remove_push(b2, (hn, oid), an);
    let b3 = remove_ref(b2, an);
    let s3 = b3.push((hn, oid)).push((tn, oid)).push((an, oid));
    assert(apply_refspecs(rv, dels + seq![f1, f2, f3]) == s3);
    lemma_force_refspec(s3, oid, sn);
    lemma_remove_push(b3.push((hn, oid)).push((tn, oid)), (an, oid), sn);
    lemma_remove_push(b3.push((hn, oid)), (tn, oid), sn);
    lemma_remove_push(b3, (hn, oid), sn);
    let b4 = remove_ref(b3, sn);
    let q1 = b4.push((hn, oid));
    let q2 = q1.push((tn, oid));
    let q3 = q2.push((an, oid));
    let q4 = q3.push((sn, oid));
    assert(apply_refspecs(rv, specs) == q4);
    lemma_remove_ref_within(s0, hn);
    lemma_remove_ref_within(b1, tn);
    lemma_remove_ref_within(b2, an);
    lemma_remove_ref_within(b3, sn);
    lemma_within_trans(b1, s0, rv);
    lemma_within_trans(b2, b1, rv);
    lemma_within_trans(b3, b2, rv);
    lemma_within_trans(b4, b3, rv);
    b4
}

/// The names of the pairs of a listing are its names: the refspecs that
/// `update_push_args` plans for a listing are those that `update_refspecs`
/// gives for its pairs.
pub proof fn lemma_pair_names(refs: Seq<(String, String)>)
    ensures
        ref_names(pairs_view(refs)) == names_view(refs),
{
    assert(ref_names(pairs_view(refs)) =~= names_view(refs));
}

/// Applying an update's push to the listing it was planned from, with a new
/// commit that no listed ref points at, leaves a listing that projects the
/// proposal at the new head, with its target and author kept, the `open`
/// state, no current reviews or checks, and no issues; and it gives no other
/// proposal a head that it did not have.
pub proof fn lemma_update_projects(
    rv: Seq<(Seq<char>, Seq<char>)>,
    id: Seq<char>,
    target: Seq<char>,
    author: Seq<char>,
    oid: Seq<char>,
)
    requires
        valid_id(id),
        valid_target(target),
        valid_actor(author),
        oid.len() > 0,
        !oid.contains(':'),
        forall|j: int| 0 <= j < rv.len() ==> (#[trigger] rv[j]).1 != oid,
    ensures
        projected(
            apply_refspecs(rv, update_refspecs(ref_names(rv), id, target, author, oid)),
            ProposalView {
                id,
                head: oid,
                target,
                author,
                state: ProposalState::Open,
                reviews: seq![],
                checks: seq![],
                healthy: true,
                issues: seq![],
            },
        ),
        forall|x: Seq<char>|
            x != id && #[trigger] last_head(
                id_entries(
                    apply_refspecs(rv, update_refspecs(ref_names(rv), id, target, author, oid)),
                    x,
                ),
            ) is Some ==> last_head(id_entries(rv, x)) is Some,
{
    broadcast use vstd::seq_lib::group_to_multiset_ensures;

    let hn = head_ref_name(id);
    let tn = target_ref_name(id, target);
    let an = author_ref_name(id, author);
    let sn = state_ref_name(id, ProposalState::Open);
    lemma_head_ref_round_trip(id);
    lemma_target_ref_round_trip(id, target);
    lemma_author_ref_round_trip(id, author);
    lemma_state_ref_round_trip(id, ProposalState::Open);
    let specs = update_refspecs(ref_names(rv), id, target, author, oid);
    let b4 = lemma_update_listing(rv, id, target, author, oid);
    let q1 = b4.push((hn, oid));
    let q2 = q1.push((tn, oid));
    let q3 = q2.push((an, oid));
    let q4 = q3.push((sn, oid));
    assert forall|j: int| 0 <= j < b4.len() implies (#[trigger] b4[j]).1 != oid by {
        let k = choose|k: int| 0 <= k < rv.len() && rv[k] == b4[j];
    }
    lemma_entries_avoid(b4, id, oid);
    let e0 = id_entries(b4, id);
    lemma_nothing_recorded_at(e0, oid);
    assert(q1.drop_last() =~= b4);
    assert(q2.drop_last() =~= q1);
    assert(q3.drop_last() =~= q2);
    assert(q4.drop_last() =~= q3);
    let e1 = e0.push((RefEntry::Head, oid));
    let e2 = e1.push((RefEntry::Target(target), oid));
    let e3 = e2.push((RefEntry::Author(author), oid));
    let es = e3.push((RefEntry::State(ProposalState::Open), oid));
    assert(id_entries(q1, id) == e1);
    assert(id_entries(q2, id) == e2);
    assert(id_entries(q3, id) == e3);
    assert(id_entries(q4, id) == es);
    assert(e1.drop_last() =~= e0);
    assert(e2.drop_last() =~= e1);
    assert(e3.drop_last() =~= e2);
    assert(es.drop_last() =~= e3);
    assert(last_head(e1) == Some(oid));
    assert(last_head(e2) == Some(oid));
    assert(last_head(e3) == Some(oid));
    assert(last_head(es) == Some(oid));
    assert(current_targets(e0, oid) =~= seq![]);
    assert(current_authors(e0, oid) =~= seq![]);
    assert(current_states(e0, oid) =~= seq![]);
    assert(current_reviews(e0, oid) =~= seq![]);
    assert(current_checks(e0, oid) =~= seq![]);
    assert(current_targets(e1, oid) =~= seq![]);
    assert(current_targets(e2, oid) =~= seq![target]);
    assert(current_targets(e3, oid) =~= seq![target]);
    assert(current_authors(e1, oid) =~= seq![]);
    assert(current_authors(e2, oid) =~= seq![]);
    assert(current_authors(e3, oid) =~= seq![author]);
    assert(current_states(e1, oid) =~= seq![]);
    assert(current_states(e2, oid) =~= seq![]);
    assert(current_states(e3, oid) =~= seq![]);
    assert(current_targets(es, oid) =~= seq![target]);
    assert(current_authors(es, oid) =~= seq![author]);
    assert(current_states(es, oid) =~= seq![ProposalState::Open]);
    assert(current_reviews(e1, oid) =~= seq![]);
    assert(current_reviews(e2, oid) =~= seq![]);
    assert(current_reviews(e3, oid) =~= seq![]);
    assert(current_checks(e1, oid) =~= seq![]);
    assert(current_checks(e2, oid) =~= seq![]);
    assert(current_checks(e3, oid) =~= seq![]);
    assert(current_reviews(es, oid) =~= seq![]);
    assert(current_checks(es, oid) =~= seq![]);
    assert(seq![target][0] == target);
    assert(seq![author][0] == author);
    assert(seq![ProposalState::Open][0] == ProposalState::Open);
    assert(lex_le(state_name(ProposalState::Open), state_name(ProposalState::Open)));
    assert(review_conflicts(seq![]) =~= seq![]);
    assert(check_conflicts(seq![]) =~= seq![]);
    assert forall|x: Seq<char>|
        x != id && #[trigger] last_head(id_entries(apply_refspecs(rv, specs), x)) is Some implies last_head(
            id_entries(rv, x),
        ) is Some by {
        assert(id_entries(q1, x) == id_entries(b4, x));
        assert(id_entries(q2, x) == id_entries(b4, x));
        assert(id_entries(q3, x) == id_entries(b4, x));
        assert(id_entries(q4, x) == id_entries(b4, x));
        lemma_last_head_some(b4, x);
        lemma_last_head_some(rv, x);
        let j = choose|j: int|
            0 <= j < b4.len() && parse_ref_name(#[trigger] b4[j].0) == Some((x, RefEntry::Head));
        let k = choose|k: int| 0 <= k < rv.len() && rv[k] == b4[j];
        assert(parse_ref_name(rv[k].0) == Some((x, RefEntry::Head)));
    }
}

/// A listing projects at most one summary for each proposal id: the summary
/// is a function of the listing, so listings that project the same summaries
/// and give the same proposals heads have the same projection.
pub proof fn lemma_projection_unique(
    refs: Seq<(Seq<char>, Seq<char>)>,
    p: ProposalView,
    q: ProposalView,
)
    requires
        projected(refs, p),
        projected(refs, q),
        p.id == q.id,
    ensures
        p == q,
{
    let es = id_entries(refs, p.id);
    let h = p.head;
    assert(q.head == h);
    let ts = current_targets(es, h);
    if ts.len() > 0 {
        let i = choose|i: int| 0 <= i < ts.len() && ts[i] == p.target;
        let j = choose|j: int| 0 <= j < ts.len() && ts[j] == q.target;
        assert(lex_le(p.target, ts[j]));
        assert(lex_le(q.target, ts[i]));
        lemma_lex_trichotomy(p.target, q.target);
    }
    let aus = current_authors(es, h);
    if aus.len() > 0 {
        let i = choose|i: int| 0 <= i < aus.len() && aus[i] == p.author;
        let j = choose|j: int| 0 <= j < aus.len() && aus[j] == q.author;
        assert(lex_le(p.author, aus[j]));
        assert(lex_le(q.author, aus[i]));
        lemma_lex_trichotomy(p.author, q.author);
    }
    let ss = current_states(es, h);
    if ss.len() > 0 {
        let i = choose|i: int| 0 <= i < ss.len() && ss[i] == p.state;
        let j = choose|j: int| 0 <= j < ss.len() && ss[j] == q.state;
        assert(lex_le(state_name(p.state), state_name(ss[j])));
        assert(lex_le(state_name(q.state), state_name(ss[i])));
        lemma_lex_trichotomy(state_name(p.state), state_name(q.state));
        lemma_state_names_distinct();
    }
    lemma_review_le_total_ordering();
    lemma_check_le_total_ordering();
    vstd::seq_lib::lemma_sorted_unique(p.reviews, q.reviews, review_order());
    vstd::seq_lib::lemma_sorted_unique(p.checks, q.checks, check_order());
}

/// Each id of `a` is an id of `b`.
#[verifier::opaque]
spec fn ids_within(a: Seq<ProposalView>, b: Seq<ProposalView>) -> bool {
    forall|i: int|
        #![trigger a[i]]
        0 <= i < a.len() ==> exists|j: int| #![trigger b[j]] 0 <= j < b.len() && b[j].id == a[i].id
}

/// The ids of `a` increase strictly.
#[verifier::opaque]
spec fn ids_increasing(a: Seq<ProposalView>) -> bool {
    forall|i: int, j: int| 0 <= i < j < a.len() ==> lex_lt(a[i].id, a[j].id)
}

/// Summaries of `a` and `b` with one id are equal.
#[verifier::opaque]
spec fn agree_by_id(a: Seq<ProposalView>, b: Seq<ProposalView>) -> bool {
    forall|i: int, j: int|
        0 <= i < a.len() && 0 <= j < b.len() && #[trigger] a[i].id == #[trigger] b[j].id ==> a[i]
            == b[j]
}

/// Of two strictly increasing sequences with the same ids, the first
/// elements have one id.
proof fn lemma_first_ids_agree(a: Seq<ProposalView>, b: Seq<ProposalView>)
    requires
        ids_increasing(a),
        ids_increasing(b),
        ids_within(a, b),
        ids_within(b, a),
        a.len() > 0,
    ensures
        b.len() > 0,
        a[0].id == b[0].id,
{
    reveal(ids_within);
    reveal(ids_increasing);
    assert(a[0].id == a[0].id);
    let j = choose|j: int| 0 <= j < b.len() && b[j].id == a[0].id;
    assert(b[0].id == b[0].id);
    let i = choose|i: int| 0 <= i < a.len() && a[i].id == b[0].id;
    lemma_lex_lt_irreflexive(a[0].id);
    if j > 0 {
        assert(lex_lt(b[0].id, b[j].id));
        if i > 0 {
            assert(lex_lt(a[0].id, a[i].id));
            lemma_lex_trichotomy(a[0].id, b[0].id);
        }
    }
}

/// The tail of a strictly increasing sequence increases strictly.
proof fn lemma_tail_increasing(a: Seq<ProposalView>)
    requires
        ids_increasing(a),
        a.len() > 0,
    ensures
        ids_increasing(a.drop_first()),
        forall|k: int| 1 <= k < a.len() ==> lex_lt(a[0].id, #[trigger] a[k].id),
{
    reveal(ids_increasing);
    let a1 = a.drop_first();
    assert forall|k: int, l: int| 0 <= k < l < a1.len() implies lex_lt(a1[k].id, a1[l].id) by {
        assert(a1[k] == a[k + 1]);
        assert(a1[l] == a[l + 1]);
    }
}

/// Dropping the first elements, of one id, of two strictly increasing
/// sequences keeps each id of one tail among the ids of the other.
proof fn lemma_tail_within(a: Seq<ProposalView>, b: Seq<ProposalView>)
    requires
        ids_within(a, b),
        a.len() > 0,
        b.len() > 0,
        a[0].id == b[0].id,
        forall|k: int| 1 <= k < a.len() ==> lex_lt(a[0].id, #[trigger] a[k].id),
    ensures
        ids_within(a.drop_first(), b.drop_first()),
{
    reveal(ids_within);
    let a1 = a.drop_first();
    let b1 = b.drop_first();
    assert forall|k: int| #![trigger a1[k]] 0 <= k < a1.len() implies exists|l: int|
        #![trigger b1[l]] 0 <= l < b1.len() && b1[l].id == a1[k].id by {
        assert(a1[k] == a[k + 1]);
        let l = choose|l: int| 0 <= l < b.len() && b[l].id == a[k + 1].id;
        lemma_lex_lt_irreflexive(a[k + 1].id);
        assert(lex_lt(a[0].id, a[k + 1].id));
        assert(l != 0);
        assert(b1[l - 1] == b[l]);
        assert(0 <= l - 1 < b1.len() && b1[l - 1].id == a1[k].id);
    }
    assert(ids_within(a1, b1));
}

/// Summaries that agree by id still agree after dropping first elements.
proof fn lemma_tail_agree(a: Seq<ProposalView>, b: Seq<ProposalView>)
    requires
        agree_by_id(a, b),
        a.len() > 0,
        b.len() > 0,
    ensures
        agree_by_id(a.drop_first(), b.drop_first()),
{
    reveal(agree_by_id);
    let a1 = a.drop_first();
    let b1 = b.drop_first();
    assert forall|k: int, l: int|
        0 <= k < a1.len() && 0 <= l < b1.len() && #[trigger] a1[k].id == #[trigger] b1[l].id
            implies a1[k] == b1[l] by {
        assert(a1[k] == a[k + 1]);
        assert(b1[l] == b[l + 1]);
    }
}

/// Two sequences of summaries, each in strictly increasing order of id, with
/// the same ids and the same summary for each id, are equal.
proof fn lemma_same_ids_same_summaries(a: Seq<ProposalView>, b: Seq<ProposalView>)
    requires
        ids_increasing(a),
        ids_increasing(b),
        ids_within(a, b),
        ids_within(b, a),
        agree_by_id(a, b),
    ensures
        a == b,
    decreases a.len(),
{
    if a.len() == 0 {
        if b.len() > 0 {
            lemma_first_ids_agree(b, a);
        }
        assert(b =~= a);
    } else {
        lemma_first_ids_agree(a, b);
        assert(a[0] == b[0]) by {
            reveal(agree_by_id);
        }
        lemma_tail_increasing(a);
        lemma_tail_increasing(b);
        lemma_tail_within(a, b);
        lemma_tail_within(b, a);
        lemma_tail_agree(a, b);
        lemma_same_ids_same_summaries(a.drop_first(), b.drop_first());
        assert(a =~= seq![a[0]] + a.drop_first());
        assert(b =~= seq![b[0]] + b.drop_first());
    }
}

/// A listing has one projection: any two sequences of summaries that meet
/// `is_projection` for it (such as what `project` returns) are equal.
pub proof fn lemma_projection_determined(
    refs: Seq<(Seq<char>, Seq<char>)>,
    a: Seq<ProposalView>,
    b: Seq<ProposalView>,
)
    requires
        is_projection(refs, a),
        is_projection(refs, b),
    ensures
        a == b,
{
    assert(ids_within(a, b)) by {
        reveal(ids_within);
        assert forall|i: int| 0 <= i < a.len() implies exists|j: int|
            0 <= j < b.len() && b[j].id == #[trigger] a[i].id by {
            assert(projected(refs, a[i]));
            assert(last_head(id_entries(refs, a[i].id)) is Some);
        }
    }
    assert(ids_within(b, a)) by {
        reveal(ids_within);
        assert forall|j: int| 0 <= j < b.len() implies exists|i: int|
            0 <= i < a.len() && a[i].id == #[trigger] b[j].id by {
            assert(projected(refs, b[j]));
            assert(last_head(id_entries(refs, b[j].id)) is Some);
        }
    }
    assert(ids_increasing(a)) by {
        reveal(ids_increasing);
    }
    assert(ids_increasing(b)) by {
        reveal(ids_increasing);
    }
    assert(agree_by_id(a, b)) by {
        reveal(agree_by_id);
        assert forall|i: int, j: int|
            0 <= i < a.len() && 0 <= j < b.len() && #[trigger] a[i].id == #[trigger] b[j].id
                implies a[i] == b[j] by {
            lemma_projection_unique(refs, a[i], b[j]);
        }
    }
    lemma_same_ids_same_summaries(a, b);
}

} // verus!
