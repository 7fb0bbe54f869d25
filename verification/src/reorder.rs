//! The projection does not depend on the order in which a listing names its
//! refs, as long as no name occurs twice.

use vstd::prelude::*;
use vstd::multiset::Multiset;
use crate::project::{
    current_authors, current_checks, current_reviews, current_states, current_targets,
    expected_issues, id_entries, is_least_state, is_least_string, is_projection, last_head,
    projected, summarizes,
};
use crate::text::lex_le;
use crate::proposal::ProposalView;
use crate::refs::{
    head_ref_name, is_first_index, parse_ref_name, split_once, strip_prefix, tail_entry, RefEntry,
    PROPOSAL_PREFIX,
};
use crate::laws::lemma_head_ref_round_trip;
use crate::validate::valid_id;
use crate::kinds::{state_name, CheckResult, ProposalState, ReviewDecision};

verus! {

broadcast use vstd::seq_lib::group_to_multiset_ensures;

/// The values `f` keeps from `s`, in order.
spec fn filter_map<A, B>(s: Seq<A>, f: spec_fn(A) -> Option<B>) -> Seq<B>
    decreases s.len(),
{
    if s.len() == 0 {
        seq![]
    } else {
        let prev = filter_map(s.drop_last(), f);
        match f(s.last()) {
            Some(b) => prev.push(b),
            None => prev,
        }
    }
}

/// Keeping values distributes over concatenation.
proof fn lemma_filter_map_add<A, B>(a: Seq<A>, b: Seq<A>, f: spec_fn(A) -> Option<B>)
    ensures
        filter_map(a + b, f) == filter_map(a, f) + filter_map(b, f),
    decreases b.len(),
{
    if b.len() == 0 {
        assert(a + b =~= a);
        assert(filter_map(a, f) + filter_map(b, f) =~= filter_map(a, f));
    } else {
        lemma_filter_map_add(a, b.drop_last(), f);
        assert((a + b).drop_last() =~= a + b.drop_last());
        assert((a + b).last() == b.last());
        match f(b.last()) {
            Some(v) => {
                assert(filter_map(a, f) + filter_map(b, f) =~= (filter_map(a, f) + filter_map(
                    b.drop_last(),
                    f,
                )).push(v));
            },
            None => {},
        }
    }
}

/// Sequences with the same elements, counted, keep the same values, counted.
proof fn lemma_filter_map_multiset<A, B>(a: Seq<A>, b: Seq<A>, f: spec_fn(A) -> Option<B>)
    requires
        a.to_multiset() == b.to_multiset(),
    ensures
        filter_map(a, f).to_multiset() == filter_map(b, f).to_multiset(),
    decreases a.len(),
{
    broadcast use vstd::multiset::group_multiset_axioms;

    if a.len() == 0 {
        assert(a.to_multiset().len() == a.len());
        assert(b.to_multiset().len() == b.len());
        assert(b =~= a);
    } else {
        let x = a.last();
        let a1 = a.drop_last();
        assert(a =~= a1.push(x));
        assert(b.to_multiset().count(x) > 0);
        assert(b.contains(x));
        let k = choose|k: int| 0 <= k < b.len() && b[k] == x;
        let b1 = b.remove(k);
        assert(b1.to_multiset() == b.to_multiset().remove(x));
        assert(a1.to_multiset() =~= a.to_multiset().remove(x));
        lemma_filter_map_multiset(a1, b1, f);
        let pre = b.take(k);
        let post = b.skip(k + 1);
        assert(b =~= pre + seq![x] + post);
        assert(b1 =~= pre + post);
        lemma_filter_map_add(pre + seq![x], post, f);
        lemma_filter_map_add(pre, seq![x], f);
        lemma_filter_map_add(pre, post, f);
        assert(seq![x].drop_last() =~= Seq::<A>::empty());
        vstd::seq_lib::lemma_multiset_commutative(
            filter_map(pre, f) + filter_map(seq![x], f),
            filter_map(post, f),
        );
        vstd::seq_lib::lemma_multiset_commutative(filter_map(pre, f), filter_map(seq![x], f));
        vstd::seq_lib::lemma_multiset_commutative(filter_map(pre, f), filter_map(post, f));
        assert(a.drop_last() == a1);
        assert(filter_map(seq![x], f) == match f(x) {
            Some(v) => seq![v],
            None => Seq::<B>::empty(),
        }) by {
            assert(filter_map(Seq::<A>::empty(), f) =~= Seq::<B>::empty());
            assert(seq![x].last() == x);
            match f(x) {
                Some(v) => {
                    assert(Seq::<B>::empty().push(v) =~= seq![v]);
                },
                None => {},
            }
        }
        match f(x) {
            Some(v) => {
                assert(filter_map(a, f) == filter_map(a1, f).push(v));
                assert(seq![v].to_multiset() =~= Multiset::<B>::empty().insert(v)) by {
                    assert(seq![v] =~= Seq::<B>::empty().push(v));
                }
            },
            None => {
                assert(filter_map(a, f) == filter_map(a1, f));
                assert(Seq::<B>::empty().to_multiset() =~= Multiset::<B>::empty());
            },
        }
        assert(filter_map(a, f).to_multiset() =~= filter_map(b, f).to_multiset());
    }
}

/// The entry, with its oid, that a ref records for proposal `id`.
spec fn entry_of(id: Seq<char>) -> spec_fn((Seq<char>, Seq<char>)) -> Option<(RefEntry, Seq<char>)> {
    |r: (Seq<char>, Seq<char>)|
        match parse_ref_name(r.0) {
            Some((i, e)) => if i == id {
                Some((e, r.1))
            } else {
                None
            },
            None => None,
        }
}

proof fn lemma_id_entries_filter_map(refs: Seq<(Seq<char>, Seq<char>)>, id: Seq<char>)
    ensures
        id_entries(refs, id) == filter_map(refs, entry_of(id)),
    decreases refs.len(),
{
    if refs.len() > 0 {
        lemma_id_entries_filter_map(refs.drop_last(), id);
    }
}

/// The target an entry records at `h`.
spec fn target_at(h: Seq<char>) -> spec_fn((RefEntry, Seq<char>)) -> Option<Seq<char>> {
    |x: (RefEntry, Seq<char>)|
        match x.0 {
            RefEntry::Target(t) => if x.1 == h {
                Some(t)
            } else {
                None
            },
            _ => None,
        }
}

proof fn lemma_current_targets_filter_map(es: Seq<(RefEntry, Seq<char>)>, h: Seq<char>)
    ensures
        current_targets(es, h) == filter_map(es, target_at(h)),
    decreases es.len(),
{
    if es.len() > 0 {
        lemma_current_targets_filter_map(es.drop_last(), h);
    }
}

/// The author an entry records at `h`.
spec fn author_at(h: Seq<char>) -> spec_fn((RefEntry, Seq<char>)) -> Option<Seq<char>> {
    |x: (RefEntry, Seq<char>)|
        match x.0 {
            RefEntry::Author(a) => if x.1 == h {
                Some(a)
            } else {
                None
            },
            _ => None,
        }
}

proof fn lemma_current_authors_filter_map(es: Seq<(RefEntry, Seq<char>)>, h: Seq<char>)
    ensures
        current_authors(es, h) == filter_map(es, author_at(h)),
    decreases es.len(),
{
    if es.len() > 0 {
        lemma_current_authors_filter_map(es.drop_last(), h);
    }
}

/// The state an entry records at `h`.
spec fn state_at(h: Seq<char>) -> spec_fn((RefEntry, Seq<char>)) -> Option<ProposalState> {
    |x: (RefEntry, Seq<char>)|
        match x.0 {
            RefEntry::State(st) => if x.1 == h {
                Some(st)
            } else {
                None
            },
            _ => None,
        }
}

proof fn lemma_current_states_filter_map(es: Seq<(RefEntry, Seq<char>)>, h: Seq<char>)
    ensures
        current_states(es, h) == filter_map(es, state_at(h)),
    decreases es.len(),
{
    if es.len() > 0 {
        lemma_current_states_filter_map(es.drop_last(), h);
    }
}

/// The review an entry records at `h`.
spec fn review_at(h: Seq<char>) -> spec_fn((RefEntry, Seq<char>)) -> Option<(Seq<char>, ReviewDecision)> {
    |x: (RefEntry, Seq<char>)|
        match x.0 {
            RefEntry::Review(who, d) => if x.1 == h {
                Some((who, d))
            } else {
                None
            },
            _ => None,
        }
}

proof fn lemma_current_reviews_filter_map(es: Seq<(RefEntry, Seq<char>)>, h: Seq<char>)
    ensures
        current_reviews(es, h) == filter_map(es, review_at(h)),
    decreases es.len(),
{
    if es.len() > 0 {
        lemma_current_reviews_filter_map(es.drop_last(), h);
    }
}

/// The check an entry records at `h`.
spec fn check_at(h: Seq<char>) -> spec_fn((RefEntry, Seq<char>)) -> Option<(Seq<char>, CheckResult)> {
    |x: (RefEntry, Seq<char>)|
        match x.0 {
            RefEntry::Check(who, c) => if x.1 == h {
                Some((who, c))
            } else {
                None
            },
            _ => None,
        }
}

proof fn lemma_current_checks_filter_map(es: Seq<(RefEntry, Seq<char>)>, h: Seq<char>)
    ensures
        current_checks(es, h) == filter_map(es, check_at(h)),
    decreases es.len(),
{
    if es.len() > 0 {
        lemma_current_checks_filter_map(es.drop_last(), h);
    }
}

/// A character that occurs in `s` has a first position in it.
proof fn lemma_first_index_exists(s: Seq<char>, c: char)
    requires
        s.contains(c),
    ensures
        exists|i: int| is_first_index(s, c, i),
    decreases s.len(),
{
    if s[0] == c {
        assert(s.take(0) =~= Seq::<char>::empty());
        assert(is_first_index(s, c, 0));
    } else {
        let t = s.drop_first();
        let j = choose|j: int| 0 <= j < s.len() && s[j] == c;
        assert(t[j - 1] == c);
        lemma_first_index_exists(t, c);
        let i = choose|i: int| is_first_index(t, c, i);
        assert(s.take(i + 1) =~= seq![s[0]] + t.take(i));
        assert(is_first_index(s, c, i + 1));
    }
}

/// A name that reads back as the head of proposal `id` is its head ref name.
proof fn lemma_head_name_inverse(n: Seq<char>, id: Seq<char>)
    requires
        parse_ref_name(n) == Some((id, RefEntry::Head)),
    ensures
        n == head_ref_name(id),
        valid_id(id),
{
    reveal_strlit("head");
    reveal_strlit("/head");
    let p = PROPOSAL_PREFIX@;
    let rest = n.skip(p.len() as int);
    assert(strip_prefix(n, p) == Some(rest));
    lemma_first_index_exists(rest, '/');
    let k = choose|k: int| is_first_index(rest, '/', k);
    let tail = rest.skip(k + 1);
    assert(split_once(rest, '/') == Some((rest.take(k), tail)));
    assert(tail_entry(tail) is Head);
    assert(tail == "head"@);
    assert(rest =~= rest.take(k) + seq!['/'] + tail);
    assert(n =~= p + rest);
    assert(head_ref_name(id) =~= p + id + seq!['/'] + "head"@);
}

/// No two refs of the listing have one name.
pub open spec fn names_distinct(refs: Seq<(Seq<char>, Seq<char>)>) -> bool {
    forall|i: int, j: int| 0 <= i < j < refs.len() ==> refs[i].0 != refs[j].0
}

/// In a listing without repeated names, proposal `id` has head `o` exactly
/// when its head ref is listed at `o`.
proof fn lemma_last_head_listed(refs: Seq<(Seq<char>, Seq<char>)>, id: Seq<char>, o: Seq<char>)
    requires
        names_distinct(refs),
    ensures
        last_head(id_entries(refs, id)) == Some(o) <==> valid_id(id) && refs.contains(
            (head_ref_name(id), o),
        ),
    decreases refs.len(),
{
    if refs.len() > 0 {
        let prev = refs.drop_last();
        let x = refs.last();
        assert(refs =~= prev.push(x));
        assert forall|i: int, j: int| 0 <= i < j < prev.len() implies prev[i].0 != prev[j].0 by {
            assert(prev[i] == refs[i]);
            assert(prev[j] == refs[j]);
        }
        lemma_last_head_listed(prev, id, o);
        let es = id_entries(refs, id);
        let ps = id_entries(prev, id);
        if es != ps {
            assert(es.drop_last() =~= ps);
        }
        if valid_id(id) {
            lemma_head_ref_round_trip(id);
        }
        if parse_ref_name(x.0) == Some((id, RefEntry::Head)) {
            lemma_head_name_inverse(x.0, id);
            if prev.contains((head_ref_name(id), o)) {
                let j = choose|j: int| 0 <= j < prev.len() && prev[j] == (head_ref_name(id), o);
                assert(refs[j] == prev[j]);
                assert(refs[refs.len() - 1] == x);
            }
        } else {
            if refs.contains((head_ref_name(id), o)) {
                let j = choose|j: int| 0 <= j < refs.len() && refs[j] == (head_ref_name(id), o);
                if j < prev.len() {
                    assert(prev[j] == refs[j]);
                } else {
                    assert(refs[j] == x);
                }
            }
            if prev.contains((head_ref_name(id), o)) {
                let j = choose|j: int| 0 <= j < prev.len() && prev[j] == (head_ref_name(id), o);
                assert(refs[j] == prev[j]);
            }
        }
    }
}

/// Being least among strings depends only on which strings there are.
proof fn lemma_least_string_same(x: Seq<char>, a: Seq<Seq<char>>, b: Seq<Seq<char>>)
    requires
        a.to_multiset() == b.to_multiset(),
    ensures
        is_least_string(x, a) <==> is_least_string(x, b),
{
    assert(a.contains(x) <==> a.to_multiset().count(x) > 0);
    assert(b.contains(x) <==> b.to_multiset().count(x) > 0);
    if is_least_string(x, a) {
        assert forall|i: int| 0 <= i < b.len() implies lex_le(x, #[trigger] b[i]) by {
            assert(b.to_multiset().count(b[i]) > 0);
            assert(a.contains(b[i]));
        }
    }
    if is_least_string(x, b) {
        assert forall|i: int| 0 <= i < a.len() implies lex_le(x, #[trigger] a[i]) by {
            assert(a.to_multiset().count(a[i]) > 0);
            assert(b.contains(a[i]));
        }
    }
}

/// Being the least state depends only on which states there are.
proof fn lemma_least_state_same(x: ProposalState, a: Seq<ProposalState>, b: Seq<ProposalState>)
    requires
        a.to_multiset() == b.to_multiset(),
    ensures
        is_least_state(x, a) <==> is_least_state(x, b),
{
    assert(a.contains(x) <==> a.to_multiset().count(x) > 0);
    assert(b.contains(x) <==> b.to_multiset().count(x) > 0);
    if is_least_state(x, a) {
        assert forall|i: int| 0 <= i < b.len() implies lex_le(
            state_name(x),
            state_name(#[trigger] b[i]),
        ) by {
            assert(b.to_multiset().count(b[i]) > 0);
            assert(a.contains(b[i]));
        }
    }
    if is_least_state(x, b) {
        assert forall|i: int| 0 <= i < a.len() implies lex_le(
            state_name(x),
            state_name(#[trigger] a[i]),
        ) by {
            assert(a.to_multiset().count(a[i]) > 0);
            assert(b.contains(a[i]));
        }
    }
}

/// Entries with the same elements, counted, summarize the same way.
proof fn lemma_summarizes_same(
    e1: Seq<(RefEntry, Seq<char>)>,
    e2: Seq<(RefEntry, Seq<char>)>,
    p: ProposalView,
)
    requires
        e1.to_multiset() == e2.to_multiset(),
        last_head(e1) == last_head(e2),
    ensures
        summarizes(e1, p) <==> summarizes(e2, p),
{
    let h = p.head;
    lemma_current_targets_filter_map(e1, h);
    lemma_current_targets_filter_map(e2, h);
    lemma_filter_map_multiset(e1, e2, target_at(h));
    lemma_current_authors_filter_map(e1, h);
    lemma_current_authors_filter_map(e2, h);
    lemma_filter_map_multiset(e1, e2, author_at(h));
    lemma_current_states_filter_map(e1, h);
    lemma_current_states_filter_map(e2, h);
    lemma_filter_map_multiset(e1, e2, state_at(h));
    lemma_current_reviews_filter_map(e1, h);
    lemma_current_reviews_filter_map(e2, h);
    lemma_filter_map_multiset(e1, e2, review_at(h));
    lemma_current_checks_filter_map(e1, h);
    lemma_current_checks_filter_map(e2, h);
    lemma_filter_map_multiset(e1, e2, check_at(h));
    let t1 = current_targets(e1, h);
    let t2 = current_targets(e2, h);
    let a1 = current_authors(e1, h);
    let a2 = current_authors(e2, h);
    let s1 = current_states(e1, h);
    let s2 = current_states(e2, h);
    assert(t1.len() == t2.len()) by {
        assert(t1.to_multiset().len() == t1.len());
        assert(t2.to_multiset().len() == t2.len());
    }
    assert(a1.len() == a2.len()) by {
        assert(a1.to_multiset().len() == a1.len());
        assert(a2.to_multiset().len() == a2.len());
    }
    assert(s1.len() == s2.len()) by {
        assert(s1.to_multiset().len() == s1.len());
        assert(s2.to_multiset().len() == s2.len());
    }
    lemma_least_string_same(p.target, t1, t2);
    lemma_least_string_same(p.author, a1, a2);
    lemma_least_state_same(p.state, s1, s2);
    assert(expected_issues(e1, h, p.reviews, p.checks) == expected_issues(
        e2,
        h,
        p.reviews,
        p.checks,
    ));
}

/// Reordering a listing that names no ref twice changes neither any
/// proposal's head nor any summary: both orders project the same summaries.
pub proof fn lemma_listing_order_irrelevant(
    r1: Seq<(Seq<char>, Seq<char>)>,
    r2: Seq<(Seq<char>, Seq<char>)>,
)
    requires
        r1.to_multiset() == r2.to_multiset(),
        names_distinct(r1),
        names_distinct(r2),
    ensures
        forall|id: Seq<char>|
            #[trigger] last_head(id_entries(r1, id)) == last_head(id_entries(r2, id)),
        forall|p: ProposalView| #[trigger] projected(r1, p) <==> projected(r2, p),
        forall|ps: Seq<ProposalView>| #[trigger] is_projection(r1, ps) <==> is_projection(r2, ps),
{
    assert forall|id: Seq<char>|
        #[trigger] last_head(id_entries(r1, id)) == last_head(id_entries(r2, id)) by {
        let h1 = last_head(id_entries(r1, id));
        let h2 = last_head(id_entries(r2, id));
        if h1 is Some {
            lemma_last_head_listed(r1, id, h1->0);
            lemma_last_head_listed(r2, id, h1->0);
            assert(r1.to_multiset().count((head_ref_name(id), h1->0)) > 0);
        }
        if h2 is Some {
            lemma_last_head_listed(r1, id, h2->0);
            lemma_last_head_listed(r2, id, h2->0);
            assert(r2.to_multiset().count((head_ref_name(id), h2->0)) > 0);
        }
    }
    assert forall|p: ProposalView| #[trigger] projected(r1, p) <==> projected(r2, p) by {
        lemma_id_entries_filter_map(r1, p.id);
        lemma_id_entries_filter_map(r2, p.id);
        lemma_filter_map_multiset(r1, r2, entry_of(p.id));
        assert(last_head(id_entries(r1, p.id)) == last_head(id_entries(r2, p.id)));
        lemma_summarizes_same(id_entries(r1, p.id), id_entries(r2, p.id), p);
    }
    assert forall|ps: Seq<ProposalView>| #[trigger] is_projection(r1, ps) <==> is_projection(r2, ps) by {
        if is_projection(r1, ps) {
            assert forall|i: int| 0 <= i < ps.len() implies projected(r2, #[trigger] ps[i]) by {
                assert(projected(r1, ps[i]));
            }
            assert forall|id: Seq<char>| #[trigger]
                last_head(id_entries(r2, id)) is Some implies exists|i: int|
                    0 <= i < ps.len() && ps[i].id == id by {
                assert(last_head(id_entries(r1, id)) == last_head(id_entries(r2, id)));
            }
        }
        if is_projection(r2, ps) {
            assert forall|i: int| 0 <= i < ps.len() implies projected(r1, #[trigger] ps[i]) by {
                assert(projected(r2, ps[i]));
            }
            assert forall|id: Seq<char>| #[trigger]
                last_head(id_entries(r1, id)) is Some implies exists|i: int|
                    0 <= i < ps.len() && ps[i].id == id by {
                assert(last_head(id_entries(r1, id)) == last_head(id_entries(r2, id)));
            }
        }
    }
}

} // verus!
