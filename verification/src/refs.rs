//! The ref-name layout of proposals: the names the builders write and the
//! reading of a name back into a proposal id and a metadata entry.

use vstd::prelude::*;
use crate::kinds::{
    decision_name, parse_decision, parse_result, parse_state, result_name, state_name,
    CheckResult, ParseError, ProposalState, ReviewDecision,
};
use crate::validate::{
    valid_actor, valid_id, valid_target, validate_actor, validate_id, validate_target,
};

verus! {

/// Namespace under which every proposal ref lives.
pub const PROPOSAL_PREFIX: &'static str = "refs/soulgit/proposals/";

/// `s` without the leading `p`, when `s` starts with `p`.
pub open spec fn strip_prefix(s: Seq<char>, p: Seq<char>) -> Option<Seq<char>> {
    if p.is_prefix_of(s) {
        Some(s.skip(p.len() as int))
    } else {
        None
    }
}

/// `i` is the position of the first `c` in `s`.
pub open spec fn is_first_index(s: Seq<char>, c: char, i: int) -> bool {
    0 <= i < s.len() && s[i] == c && !s.take(i).contains(c)
}

/// The parts of `s` before and after its first `c`, when `s` holds a `c`.
pub open spec fn split_once(s: Seq<char>, c: char) -> Option<(Seq<char>, Seq<char>)> {
    if s.contains(c) {
        let i = choose|i: int| is_first_index(s, c, i);
        Some((s.take(i), s.skip(i + 1)))
    } else {
        None
    }
}

/// The first position of a character is unique.
pub proof fn lemma_first_index_unique(s: Seq<char>, c: char, i: int, j: int)
    requires
        is_first_index(s, c, i),
        is_first_index(s, c, j),
    ensures
        i == j,
{
    if i < j {
        assert(s.take(j)[i] == c);
    } else if j < i {
        assert(s.take(i)[j] == c);
    }
}

/// Splitting `a + [c] + b` at its first `c` gives back `a` and `b` when `a`
/// holds no `c`.
pub proof fn lemma_split_once_at(a: Seq<char>, c: char, b: Seq<char>)
    requires
        !a.contains(c),
    ensures
        split_once(a + seq![c] + b, c) == Some((a, b)),
{
    let s = a + seq![c] + b;
    let k = a.len() as int;
    assert(s.take(k) =~= a);
    assert(s[k] == c);
    assert(is_first_index(s, c, k));
    assert(s.contains(c));
    let i = choose|i: int| is_first_index(s, c, i);
    lemma_first_index_unique(s, c, i, k);
    assert(s.skip(k + 1) =~= b);
}

/// What one proposal ref records, read from the part of its name after the id.
pub enum RefEntry {
    Head,
    Target(Seq<char>),
    Author(Seq<char>),
    State(ProposalState),
    Review(Seq<char>, ReviewDecision),
    Check(Seq<char>, CheckResult),
    Unrecognized,
}

/// The entry that a ref-name tail (the part after `<id>/`) denotes.
pub open spec fn tail_entry(tail: Seq<char>) -> RefEntry {
    if tail == "head"@ {
        RefEntry::Head
    } else if "target/"@.is_prefix_of(tail) {
        let t = tail.skip(7);
        if valid_target(t) {
            RefEntry::Target(t)
        } else {
            RefEntry::Unrecognized
        }
    } else if "author/"@.is_prefix_of(tail) {
        let a = tail.skip(7);
        if valid_actor(a) {
            RefEntry::Author(a)
        } else {
            RefEntry::Unrecognized
        }
    } else if "state/"@.is_prefix_of(tail) {
        match parse_state(tail.skip(6)) {
            Some(s) => RefEntry::State(s),
            None => RefEntry::Unrecognized,
        }
    } else if "reviews/"@.is_prefix_of(tail) {
        match split_once(tail.skip(8), '/') {
            Some((who, what)) => if valid_actor(who) && parse_decision(what) is Some {
                RefEntry::Review(who, parse_decision(what)->0)
            } else {
                RefEntry::Unrecognized
            },
            None => RefEntry::Unrecognized,
        }
    } else if "checks/"@.is_prefix_of(tail) {
        match split_once(tail.skip(7), '/') {
            Some((who, what)) => if valid_actor(who) && parse_result(what) is Some {
                RefEntry::Check(who, parse_result(what)->0)
            } else {
                RefEntry::Unrecognized
            },
            None => RefEntry::Unrecognized,
        }
    } else {
        RefEntry::Unrecognized
    }
}

/// The proposal id and entry of a ref name: the name must start with the
/// proposal prefix, continue with a valid id and a `/`; anything else is not a
/// proposal ref.
pub open spec fn parse_ref_name(name: Seq<char>) -> Option<(Seq<char>, RefEntry)> {
    match strip_prefix(name, PROPOSAL_PREFIX@) {
        Some(rest) => match split_once(rest, '/') {
            Some((id, tail)) => if valid_id(id) {
                Some((id, tail_entry(tail)))
            } else {
                None
            },
            None => None,
        },
        None => None,
    }
}

/// `refs/soulgit/proposals/<id>/head`
pub open spec fn head_ref_name(id: Seq<char>) -> Seq<char> {
    PROPOSAL_PREFIX@ + id + "/head"@
}

/// `refs/soulgit/proposals/<id>/target/<target>`
pub open spec fn target_ref_name(id: Seq<char>, target: Seq<char>) -> Seq<char> {
    PROPOSAL_PREFIX@ + id + "/target/"@ + target
}

/// `refs/soulgit/proposals/<id>/author/<author>`
pub open spec fn author_ref_name(id: Seq<char>, author: Seq<char>) -> Seq<char> {
    PROPOSAL_PREFIX@ + id + "/author/"@ + author
}

/// `refs/soulgit/proposals/<id>/state/<state>`
pub open spec fn state_ref_name(id: Seq<char>, state: ProposalState) -> Seq<char> {
    PROPOSAL_PREFIX@ + id + "/state/"@ + state_name(state)
}

/// `refs/soulgit/proposals/<id>/reviews/<actor>/<decision>`
pub open spec fn review_ref_name(id: Seq<char>, reviewer: Seq<char>, d: ReviewDecision) -> Seq<
    char,
> {
    PROPOSAL_PREFIX@ + id + "/reviews/"@ + reviewer + "/"@ + decision_name(d)
}

/// `refs/soulgit/proposals/<id>/checks/<runner>/<result>`
pub open spec fn check_ref_name(id: Seq<char>, runner: Seq<char>, c: CheckResult) -> Seq<char> {
    PROPOSAL_PREFIX@ + id + "/checks/"@ + runner + "/"@ + result_name(c)
}

/// The head ref of proposal `id`.
pub fn head_ref(id: &str) -> (r: Result<String, ParseError>)
    ensures
        r is Ok <==> valid_id(id@),
        r matches Ok(s) ==> s@ == head_ref_name(id@),
        r matches Err(e) ==> e == ParseError::InvalidId(e->InvalidId_0) && e->InvalidId_0@
            == id@,
{
    validate_id(id)?;
    let mut s = String::from_str(PROPOSAL_PREFIX);
    s.append(id);
    s.append("/head");
    Ok(s)
}

/// The ref that records `target` as the branch proposal `id` targets.
pub fn target_ref(id: &str, target: &str) -> (r: Result<String, ParseError>)
    ensures
        r is Ok <==> valid_id(id@) && valid_target(target@),
        r matches Ok(s) ==> s@ == target_ref_name(id@, target@),
        r matches Err(e) ==> if !valid_id(id@) {
            e == ParseError::InvalidId(e->InvalidId_0) && e->InvalidId_0@ == id@
        } else {
            e == ParseError::InvalidTarget(e->InvalidTarget_0) && e->InvalidTarget_0@ == target@
        },
{
    validate_id(id)?;
    validate_target(target)?;
    let mut s = String::from_str(PROPOSAL_PREFIX);
    s.append(id);
    s.append("/target/");
    s.append(target);
    Ok(s)
}

/// The ref that records `author` as the author of proposal `id`.
pub fn author_ref(id: &str, author: &str) -> (r: Result<String, ParseError>)
    ensures
        r is Ok <==> valid_id(id@) && valid_actor(author@),
        r matches Ok(s) ==> s@ == author_ref_name(id@, author@),
        r matches Err(e) ==> if !valid_id(id@) {
            e == ParseError::InvalidId(e->InvalidId_0) && e->InvalidId_0@ == id@
        } else {
            e == ParseError::InvalidActor(e->InvalidActor_0) && e->InvalidActor_0@ == author@
        },
{
    validate_id(id)?;
    validate_actor(author)?;
    let mut s = String::from_str(PROPOSAL_PREFIX);
    s.append(id);
    s.append("/author/");
    s.append(author);
    Ok(s)
}

/// The ref that records `state` as the state of proposal `id`.
pub fn state_ref(id: &str, state: ProposalState) -> (r: Result<String, ParseError>)
    ensures
        r is Ok <==> valid_id(id@),
        r matches Ok(s) ==> s@ == state_ref_name(id@, state),
        r matches Err(e) ==> e == ParseError::InvalidId(e->InvalidId_0) && e->InvalidId_0@
            == id@,
{
    validate_id(id)?;
    let mut s = String::from_str(PROPOSAL_PREFIX);
    s.append(id);
    s.append("/state/");
    s.append(state.as_str());
    Ok(s)
}

/// The ref that records an actor's review `decision` on proposal `id`.
pub fn review_ref(id: &str, reviewer: &str, decision: ReviewDecision) -> (r: Result<
    String,
    ParseError,
>)
    ensures
        r is Ok <==> valid_id(id@) && valid_actor(reviewer@),
        r matches Ok(s) ==> s@ == review_ref_name(id@, reviewer@, decision),
        r matches Err(e) ==> if !valid_id(id@) {
            e == ParseError::InvalidId(e->InvalidId_0) && e->InvalidId_0@ == id@
        } else {
            e == ParseError::InvalidActor(e->InvalidActor_0) && e->InvalidActor_0@ == reviewer@
        },
{
    validate_id(id)?;
    validate_actor(reviewer)?;
    let mut s = String::from_str(PROPOSAL_PREFIX);
    s.append(id);
    s.append("/reviews/");
    s.append(reviewer);
    s.append("/");
    s.append(decision.as_str());
    Ok(s)
}

/// The ref that records `runner`'s check `result` on proposal `id`.
pub fn check_ref(id: &str, runner: &str, result: CheckResult) -> (r: Result<String, ParseError>)
    ensures
        r is Ok <==> valid_id(id@) && valid_actor(runner@),
        r matches Ok(s) ==> s@ == check_ref_name(id@, runner@, result),
        r matches Err(e) ==> if !valid_id(id@) {
            e == ParseError::InvalidId(e->InvalidId_0) && e->InvalidId_0@ == id@
        } else {
            e == ParseError::InvalidActor(e->InvalidActor_0) && e->InvalidActor_0@ == runner@
        },
{
    validate_id(id)?;
    validate_actor(runner)?;
    let mut s = String::from_str(PROPOSAL_PREFIX);
    s.append(id);
    s.append("/checks/");
    s.append(runner);
    s.append("/");
    s.append(result.as_str());
    Ok(s)
}

} // verus!
