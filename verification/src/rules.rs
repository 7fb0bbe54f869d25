//! The library's rules stated over plain characters, lengths and positions:
//! which components are valid, the order in which names are compared, which
//! refs a command deletes, and how a listing line is laid out.

use vstd::prelude::*;
use vstd::utf8::{encode_utf8, is_ascii_chars, is_ascii_chars_encode_utf8};
use crate::text::{lex_le, lex_lt, pad_right};
use crate::commands::{
    check_family, family_deletion_refspecs, list_line, short_head, is_family_deletion, metadata_prefixes, review_family,
    state_family,
};
use crate::kinds::{state_name, CheckResult, ProposalState, ReviewDecision};
use crate::proposal::ProposalView;
use crate::refs::{
    author_ref_name, check_ref_name, review_ref_name, state_ref_name, target_ref_name,
    PROPOSAL_PREFIX,
};
use crate::validate::{
    byte_len, ends_with_lock, has_doubled, is_actor_char, is_id_char, valid_actor, valid_id,
    valid_target,
};

verus! {

/// Names are compared as `String`'s `Ord` compares them: `a` comes before `b`
/// exactly when, at the first position where they differ, `a` has the smaller
/// character, or when `a` is a proper prefix of `b`.
pub proof fn lemma_name_order(a: Seq<char>, b: Seq<char>)
    ensures
        lex_lt(a, b) <==> exists|k: int|
            0 <= k <= a.len() && k < b.len() && a.take(k) == b.take(k) && (k == a.len() || (
            a[k] as u32) < (b[k] as u32)),
    decreases a.len(),
{
    if b.len() == 0 {
    } else if a.len() == 0 {
        assert(a.take(0) =~= b.take(0));
    } else if a[0] != b[0] {
        assert(a.take(0) =~= b.take(0));
        if exists|k: int|
            0 <= k <= a.len() && k < b.len() && a.take(k) == b.take(k) && (k == a.len() || (
            a[k] as u32) < (b[k] as u32)) {
            let k = choose|k: int|
                0 <= k <= a.len() && k < b.len() && a.take(k) == b.take(k) && (k == a.len() || (
                a[k] as u32) < (b[k] as u32));
            if k > 0 {
                assert(a.take(k)[0] == b.take(k)[0]);
            }
        }
    } else {
        let a1 = a.drop_first();
        let b1 = b.drop_first();
        lemma_name_order(a1, b1);
        if lex_lt(a, b) {
            let k = choose|k: int|
                0 <= k <= a1.len() && k < b1.len() && a1.take(k) == b1.take(k) && (k == a1.len() || (
                a1[k] as u32) < (b1[k] as u32));
            assert(a.take(k + 1) =~= seq![a[0]] + a1.take(k));
            assert(b.take(k + 1) =~= seq![b[0]] + b1.take(k));
            assert(0 <= k + 1 <= a.len() && k + 1 < b.len() && a.take(k + 1) == b.take(k + 1) && (k
                + 1 == a.len() || (a[k + 1] as u32) < (b[k + 1] as u32)));
        }
        if exists|k: int|
            0 <= k <= a.len() && k < b.len() && a.take(k) == b.take(k) && (k == a.len() || (
            a[k] as u32) < (b[k] as u32)) {
            let k = choose|k: int|
                0 <= k <= a.len() && k < b.len() && a.take(k) == b.take(k) && (k == a.len() || (
                a[k] as u32) < (b[k] as u32));
            assert(k > 0);
            assert(a1.take(k - 1) =~= a.take(k).drop_first());
            assert(b1.take(k - 1) =~= b.take(k).drop_first());
            assert(0 <= k - 1 <= a1.len() && k - 1 < b1.len() && a1.take(k - 1) == b1.take(k - 1)
                && (k - 1 == a1.len() || (a1[k - 1] as u32) < (b1[k - 1] as u32)));
        }
    }
}

/// A proper prefix comes before every longer name that extends it.
pub proof fn lemma_prefix_first(s: Seq<char>, t: Seq<char>)
    requires
        t.len() > 0,
    ensures
        lex_lt(s, s + t),
        !lex_lt(s + t, s),
{
    lemma_name_order(s, s + t);
    lemma_name_order(s + t, s);
    assert((s + t).take(s.len() as int) =~= s.take(s.len() as int));
}

/// `s` has no two `c` in a row.
proof fn lemma_no_doubled(s: Seq<char>, c: char)
    ensures
        !has_doubled(s, c) <==> forall|i: int|
            0 <= i < s.len() - 1 ==> !(#[trigger] s[i] == c && s[i + 1] == c),
{
}

proof fn lemma_ascii_char(c: char)
    ensures
        (c as u32) < 128 ==> '\0' <= c <= '\u{7f}',
{
}

proof fn lemma_actor_char(c: char)
    ensures
        is_actor_char(c) <==> {
            ||| 'a' <= c <= 'z'
            ||| 'A' <= c <= 'Z'
            ||| '0' <= c <= '9'
            ||| c == '-'
            ||| c == '_'
            ||| c == '.'
            ||| c == '@'
            ||| c == '+'
        },
        is_actor_char(c) ==> (c as u32) < 128,
{
}

proof fn lemma_id_char(c: char)
    ensures
        is_id_char(c) <==> {
            ||| 'a' <= c <= 'z'
            ||| 'A' <= c <= 'Z'
            ||| '0' <= c <= '9'
            ||| c == '-'
            ||| c == '_'
            ||| c == '.'
        },
        is_id_char(c) ==> (c as u32) < 128,
{
}

/// Every character of `s` is ASCII when each is one of the allowed ones.
proof fn lemma_ascii_len(s: Seq<char>)
    requires
        forall|i: int| 0 <= i < s.len() ==> (#[trigger] s[i] as u32) < 128,
    ensures
        encode_utf8(s).len() == s.len(),
{
    assert forall|i: int| 0 <= i < s.len() implies '\0' <= #[trigger] s[i] <= '\u{7f}' by {
        lemma_ascii_char(s[i]);
    }
    assert(is_ascii_chars(s));
    is_ascii_chars_encode_utf8(s);
}

/// The actor rule: 1 to 128 characters, each an ASCII letter or digit or one
/// of `-`, `_`, `.`, `@`, `+`, neither first nor last a `.`, and no `..`.
/// Exactly these strings are actors (emails such as `alice@my-company.com`
/// and names such as `ci-bot` among them).
pub proof fn lemma_actor_rule(s: Seq<char>)
    ensures
        valid_actor(s) <==> {
            &&& 1 <= s.len() <= 128
            &&& s[0] != '.'
            &&& s[s.len() - 1] != '.'
            &&& forall|i: int| 0 <= i < s.len() - 1 ==> !(#[trigger] s[i] == '.' && s[i + 1] == '.')
            &&& forall|i: int|
                0 <= i < s.len() ==> {
                    let c = #[trigger] s[i];
                    ||| 'a' <= c <= 'z'
                    ||| 'A' <= c <= 'Z'
                    ||| '0' <= c <= '9'
                    ||| c == '-'
                    ||| c == '_'
                    ||| c == '.'
                    ||| c == '@'
                    ||| c == '+'
                }
        },
{
    lemma_no_doubled(s, '.');
    assert forall|i: int| 0 <= i < s.len() implies (is_actor_char(#[trigger] s[i]) <==> {
        let c = s[i];
        ||| 'a' <= c <= 'z'
        ||| 'A' <= c <= 'Z'
        ||| '0' <= c <= '9'
        ||| c == '-'
        ||| c == '_'
        ||| c == '.'
        ||| c == '@'
        ||| c == '+'
    }) by {
        lemma_actor_char(s[i]);
    }
    if forall|i: int| 0 <= i < s.len() ==> is_actor_char(#[trigger] s[i]) {
        assert forall|i: int| 0 <= i < s.len() implies (#[trigger] s[i] as u32) < 128 by {
            lemma_actor_char(s[i]);
        }
        lemma_ascii_len(s);
    }
}

/// The id rule: 1 to 64 characters, each an ASCII letter or digit or one of
/// `-`, `_`, `.`, neither first nor last a `.`, and no `..`. Exactly these
/// strings are proposal ids.
pub proof fn lemma_id_rule(s: Seq<char>)
    ensures
        valid_id(s) <==> {
            &&& 1 <= s.len() <= 64
            &&& s[0] != '.'
            &&& s[s.len() - 1] != '.'
            &&& forall|i: int| 0 <= i < s.len() - 1 ==> !(#[trigger] s[i] == '.' && s[i + 1] == '.')
            &&& forall|i: int|
                0 <= i < s.len() ==> {
                    let c = #[trigger] s[i];
                    ||| 'a' <= c <= 'z'
                    ||| 'A' <= c <= 'Z'
                    ||| '0' <= c <= '9'
                    ||| c == '-'
                    ||| c == '_'
                    ||| c == '.'
                }
        },
{
    lemma_no_doubled(s, '.');
    assert forall|i: int| 0 <= i < s.len() implies (is_id_char(#[trigger] s[i]) <==> {
        let c = s[i];
        ||| 'a' <= c <= 'z'
        ||| 'A' <= c <= 'Z'
        ||| '0' <= c <= '9'
        ||| c == '-'
        ||| c == '_'
        ||| c == '.'
    }) by {
        lemma_id_char(s[i]);
    }
    if forall|i: int| 0 <= i < s.len() ==> is_id_char(#[trigger] s[i]) {
        assert forall|i: int| 0 <= i < s.len() implies (#[trigger] s[i] as u32) < 128 by {
            lemma_id_char(s[i]);
        }
        lemma_ascii_len(s);
    }
}

/// The target rule, as Git's branch names have it: 1 to 255 bytes of UTF-8,
/// not starting or ending with `/`, not ending with `.` or `.lock`, without
/// `..` or `//`, and no character that is an ASCII control character, a space,
/// or one of `~ ^ : ? * [ \`. Exactly these strings are targets; any other
/// character (such as `_` or `-`) is allowed.
pub proof fn lemma_target_rule(s: Seq<char>)
    ensures
        valid_target(s) <==> {
            &&& s.len() >= 1
            &&& encode_utf8(s).len() <= 255
            &&& s[0] != '/'
            &&& s[s.len() - 1] != '/'
            &&& s[s.len() - 1] != '.'
            &&& !(s.len() >= 5 && s.subrange(s.len() - 5, s.len() as int) == seq![
                '.',
                'l',
                'o',
                'c',
                'k',
            ])
            &&& forall|i: int| 0 <= i < s.len() - 1 ==> !(#[trigger] s[i] == '.' && s[i + 1] == '.')
            &&& forall|i: int| 0 <= i < s.len() - 1 ==> !(#[trigger] s[i] == '/' && s[i + 1] == '/')
            &&& forall|i: int|
                0 <= i < s.len() ==> {
                    let c = #[trigger] s[i];
                    &&& (c as u32) >= 32
                    &&& (c as u32) != 127
                    &&& c != ' '
                    &&& c != '~'
                    &&& c != '^'
                    &&& c != ':'
                    &&& c != '?'
                    &&& c != '*'
                    &&& c != '['
                    &&& c != '\\'
                }
        },
{
    lemma_no_doubled(s, '.');
    lemma_no_doubled(s, '/');
    if s.len() >= 5 {
        assert(s.skip(s.len() - 5) =~= s.subrange(s.len() - 5, s.len() as int));
    }
}

/// The names a filter keeps are names of the listing, each meeting the test,
/// and every name meeting the test is kept.
proof fn lemma_filter_members(names: Seq<Seq<char>>, f: spec_fn(Seq<char>) -> bool)
    ensures
        forall|k: int|
            0 <= k < names.filter(f).len() ==> f(#[trigger] names.filter(f)[k]) && names.contains(
                names.filter(f)[k],
            ),
        forall|j: int| 0 <= j < names.len() && f(#[trigger] names[j]) ==> names.filter(f).contains(
            names[j],
        ),
    decreases names.len(),
{
    reveal_with_fuel(Seq::filter, 1);
    if names.len() > 0 {
        let prev = names.drop_last();
        lemma_filter_members(prev, f);
        let out = names.filter(f);
        let po = prev.filter(f);
        assert forall|k: int| 0 <= k < out.len() implies f(#[trigger] out[k]) && names.contains(
            out[k],
        ) by {
            if k < po.len() {
                assert(out[k] == po[k]);
                let j = choose|j: int| 0 <= j < prev.len() && prev[j] == po[k];
                assert(names[j] == prev[j]);
            } else {
                assert(out[k] == names.last());
                assert(names[names.len() - 1] == names.last());
            }
        }
        assert forall|j: int| 0 <= j < names.len() && f(#[trigger] names[j]) implies out.contains(
            names[j],
        ) by {
            if j < prev.len() {
                assert(prev[j] == names[j]);
                let l = choose|l: int| 0 <= l < po.len() && po[l] == prev[j];
                assert(out[l] == po[l]);
            } else {
                assert(out[out.len() - 1] == names[j]);
            }
        }
    }
}

/// The deletions of one family, with one kept name, are exactly `:<name>` for
/// the listed names that start with the family's prefix, other than the kept
/// one.
proof fn lemma_one_family_deletions(names: Seq<Seq<char>>, prefix: Seq<char>, keep: Seq<char>)
    ensures
        forall|k: int|
            0 <= k < family_deletion_refspecs(names, seq![prefix], seq![keep]).len() ==> {
                let spec = #[trigger] family_deletion_refspecs(names, seq![prefix], seq![keep])[k];
                &&& spec == ":"@ + spec.skip(1)
                &&& names.contains(spec.skip(1))
                &&& prefix.is_prefix_of(spec.skip(1))
                &&& spec.skip(1) != keep
            },
        forall|j: int|
            0 <= j < names.len() && prefix.is_prefix_of(#[trigger] names[j]) && names[j] != keep
                ==> family_deletion_refspecs(names, seq![prefix], seq![keep]).contains(
                ":"@ + names[j],
            ),
{
    reveal_strlit(":");
    let f = |n: Seq<char>| is_family_deletion(n, seq![prefix], seq![keep]);
    let g = |n: Seq<char>| ":"@ + n;
    lemma_filter_members(names, f);
    let filt = names.filter(f);
    let d = family_deletion_refspecs(names, seq![prefix], seq![keep]);
    assert(d == filt.map_values(g));
    assert forall|n: Seq<char>| #[trigger] f(n) <==> (prefix.is_prefix_of(n) && n != keep) by {
        if prefix.is_prefix_of(n) {
            assert(seq![prefix][0] == prefix);
        }
        if seq![keep].contains(n) {
            let z = choose|z: int| 0 <= z < 1 && seq![keep][z] == n;
        }
        if n == keep {
            assert(seq![keep][0] == n);
        }
    }
    assert forall|k: int| 0 <= k < d.len() implies {
        let spec = #[trigger] d[k];
        &&& spec == ":"@ + spec.skip(1)
        &&& names.contains(spec.skip(1))
        &&& prefix.is_prefix_of(spec.skip(1))
        &&& spec.skip(1) != keep
    } by {
        assert(d[k] == ":"@ + filt[k]);
        assert(d[k].skip(1) =~= filt[k]);
        assert(f(filt[k]));
    }
    assert forall|j: int|
        0 <= j < names.len() && prefix.is_prefix_of(#[trigger] names[j]) && names[j] != keep
            implies d.contains(":"@ + names[j]) by {
        assert(f(names[j]));
        let l = choose|l: int| 0 <= l < filt.len() && filt[l] == names[j];
        assert(d[l] == ":"@ + names[j]);
    }
}

/// Recording `runner`'s check result deletes exactly the listed refs named
/// `refs/soulgit/proposals/<id>/checks/<runner>/...` other than the one it
/// writes: no check of another runner and no other ref of the proposal.
pub proof fn lemma_check_push_deletes_only_that_runner(
    names: Seq<Seq<char>>,
    id: Seq<char>,
    runner: Seq<char>,
    result: CheckResult,
)
    ensures
        forall|k: int|
            0 <= k < family_deletion_refspecs(names, seq![check_family(id, runner)], seq![check_ref_name(id, runner, result)]).len() ==> {
                let spec = #[trigger] family_deletion_refspecs(
                    names,
                    seq![check_family(id, runner)],
                    seq![check_ref_name(id, runner, result)],
                )[k];
                &&& spec == ":"@ + spec.skip(1)
                &&& names.contains(spec.skip(1))
                &&& (PROPOSAL_PREFIX@ + id + "/checks/"@ + runner + "/"@).is_prefix_of(spec.skip(1))
                &&& spec.skip(1) != check_ref_name(id, runner, result)
            },
        forall|j: int|
            0 <= j < names.len() && (PROPOSAL_PREFIX@ + id + "/checks/"@ + runner + "/"@).is_prefix_of(#[trigger] names[j]) && names[j]
                != check_ref_name(id, runner, result) ==> family_deletion_refspecs(
                names,
                seq![check_family(id, runner)],
                seq![check_ref_name(id, runner, result)],
            ).contains(":"@ + names[j]),
{
    lemma_one_family_deletions(names, check_family(id, runner), check_ref_name(id, runner, result));
}

/// Recording a review deletes exactly the listed refs named
/// `refs/soulgit/proposals/<id>/reviews/<actor>/...` other than the one it
/// writes: no review of another actor and no other ref of the proposal.
pub proof fn lemma_review_push_deletes_only_that_actor(
    names: Seq<Seq<char>>,
    id: Seq<char>,
    reviewer: Seq<char>,
    d: ReviewDecision,
)
    ensures
        forall|k: int|
            0 <= k < family_deletion_refspecs(names, seq![review_family(id, reviewer)], seq![review_ref_name(id, reviewer, d)]).len() ==> {
                let spec = #[trigger] family_deletion_refspecs(
                    names,
                    seq![review_family(id, reviewer)],
                    seq![review_ref_name(id, reviewer, d)],
                )[k];
                &&& spec == ":"@ + spec.skip(1)
                &&& names.contains(spec.skip(1))
                &&& (PROPOSAL_PREFIX@ + id + "/reviews/"@ + reviewer + "/"@).is_prefix_of(spec.skip(1))
                &&& spec.skip(1) != review_ref_name(id, reviewer, d)
            },
        forall|j: int|
            0 <= j < names.len() && (PROPOSAL_PREFIX@ + id + "/reviews/"@ + reviewer + "/"@).is_prefix_of(#[trigger] names[j]) && names[j]
                != review_ref_name(id, reviewer, d) ==> family_deletion_refspecs(
                names,
                seq![review_family(id, reviewer)],
                seq![review_ref_name(id, reviewer, d)],
            ).contains(":"@ + names[j]),
{
    lemma_one_family_deletions(names, review_family(id, reviewer), review_ref_name(id, reviewer, d));
}

/// Setting a state deletes exactly the listed refs named
/// `refs/soulgit/proposals/<id>/state/...` other than the one it writes.
pub proof fn lemma_state_push_deletes_only_states(
    names: Seq<Seq<char>>,
    id: Seq<char>,
    state: ProposalState,
)
    ensures
        forall|k: int|
            0 <= k < family_deletion_refspecs(names, seq![state_family(id)], seq![state_ref_name(id, state)]).len() ==> {
                let spec = #[trigger] family_deletion_refspecs(
                    names,
                    seq![state_family(id)],
                    seq![state_ref_name(id, state)],
                )[k];
                &&& spec == ":"@ + spec.skip(1)
                &&& names.contains(spec.skip(1))
                &&& (PROPOSAL_PREFIX@ + id + "/state/"@).is_prefix_of(spec.skip(1))
                &&& spec.skip(1) != state_ref_name(id, state)
            },
        forall|j: int|
            0 <= j < names.len() && (PROPOSAL_PREFIX@ + id + "/state/"@).is_prefix_of(#[trigger] names[j]) && names[j]
                != state_ref_name(id, state) ==> family_deletion_refspecs(
                names,
                seq![state_family(id)],
                seq![state_ref_name(id, state)],
            ).contains(":"@ + names[j]),
{
    lemma_one_family_deletions(names, state_family(id), state_ref_name(id, state));
}

/// No name lies under the families of two different actors.
proof fn lemma_actor_families_disjoint(q: Seq<char>, r1: Seq<char>, r2: Seq<char>, n: Seq<char>)
    requires
        valid_actor(r1),
        valid_actor(r2),
        r1 != r2,
        (q + r1 + "/"@).is_prefix_of(n),
    ensures
        !(q + r2 + "/"@).is_prefix_of(n),
{
    reveal_strlit("/");
    let a = q + r1 + "/"@;
    let b = q + r2 + "/"@;
    if b.is_prefix_of(n) {
        let m = q.len();
        if r1.len() == r2.len() {
            assert forall|i: int| 0 <= i < r1.len() implies r1[i] == r2[i] by {
                assert(a[m + i] == n[m + i]);
                assert(b[m + i] == n[m + i]);
            }
            assert(r1 =~= r2);
        } else if r1.len() < r2.len() {
            let k = r1.len() as int;
            assert(a[m + k] == '/');
            assert(a[m + k] == n[m + k]);
            assert(b[m + k] == n[m + k]);
            assert(b[m + k] == r2[k]);
            assert(is_actor_char(r2[k]));
        } else {
            let k = r2.len() as int;
            assert(b[m + k] == '/');
            assert(a[m + k] == n[m + k]);
            assert(b[m + k] == n[m + k]);
            assert(a[m + k] == r1[k]);
            assert(is_actor_char(r1[k]));
        }
    }
}

/// Recording one runner's check never deletes a check ref of another runner.
pub proof fn lemma_check_push_spares_other_runners(
    names: Seq<Seq<char>>,
    id: Seq<char>,
    runner: Seq<char>,
    other: Seq<char>,
    result: CheckResult,
)
    requires
        valid_actor(runner),
        valid_actor(other),
        runner != other,
    ensures
        forall|k: int|
            0 <= k < family_deletion_refspecs(
                names,
                seq![check_family(id, runner)],
                seq![check_ref_name(id, runner, result)],
            ).len() ==> !(PROPOSAL_PREFIX@ + id + "/checks/"@ + other + "/"@).is_prefix_of(
                (#[trigger] family_deletion_refspecs(
                    names,
                    seq![check_family(id, runner)],
                    seq![check_ref_name(id, runner, result)],
                )[k]).skip(1),
            ),
{
    lemma_check_push_deletes_only_that_runner(names, id, runner, result);
    let d = family_deletion_refspecs(
        names,
        seq![check_family(id, runner)],
        seq![check_ref_name(id, runner, result)],
    );
    assert forall|k: int| 0 <= k < d.len() implies !(PROPOSAL_PREFIX@ + id + "/checks/"@ + other
        + "/"@).is_prefix_of(#[trigger] d[k].skip(1)) by {
        lemma_actor_families_disjoint(PROPOSAL_PREFIX@ + id + "/checks/"@, runner, other, d[k].skip(1));
    }
}

/// Recording one actor's review never deletes a review ref of another actor.
pub proof fn lemma_review_push_spares_other_actors(
    names: Seq<Seq<char>>,
    id: Seq<char>,
    reviewer: Seq<char>,
    other: Seq<char>,
    dec: ReviewDecision,
)
    requires
        valid_actor(reviewer),
        valid_actor(other),
        reviewer != other,
    ensures
        forall|k: int|
            0 <= k < family_deletion_refspecs(
                names,
                seq![review_family(id, reviewer)],
                seq![review_ref_name(id, reviewer, dec)],
            ).len() ==> !(PROPOSAL_PREFIX@ + id + "/reviews/"@ + other + "/"@).is_prefix_of(
                (#[trigger] family_deletion_refspecs(
                    names,
                    seq![review_family(id, reviewer)],
                    seq![review_ref_name(id, reviewer, dec)],
                )[k]).skip(1),
            ),
{
    lemma_review_push_deletes_only_that_actor(names, id, reviewer, dec);
    let d = family_deletion_refspecs(
        names,
        seq![review_family(id, reviewer)],
        seq![review_ref_name(id, reviewer, dec)],
    );
    assert forall|k: int| 0 <= k < d.len() implies !(PROPOSAL_PREFIX@ + id + "/reviews/"@ + other
        + "/"@).is_prefix_of(#[trigger] d[k].skip(1)) by {
        lemma_actor_families_disjoint(
            PROPOSAL_PREFIX@ + id + "/reviews/"@,
            reviewer,
            other,
            d[k].skip(1),
        );
    }
}

/// The deletions for some families and kept names are exactly `:<name>` for
/// the listed names that `is_family_deletion` selects.
proof fn lemma_family_deletions(
    names: Seq<Seq<char>>,
    prefixes: Seq<Seq<char>>,
    keep: Seq<Seq<char>>,
)
    ensures
        forall|k: int|
            0 <= k < family_deletion_refspecs(names, prefixes, keep).len() ==> {
                let spec = #[trigger] family_deletion_refspecs(names, prefixes, keep)[k];
                &&& spec == ":"@ + spec.skip(1)
                &&& names.contains(spec.skip(1))
                &&& is_family_deletion(spec.skip(1), prefixes, keep)
            },
        forall|j: int|
            0 <= j < names.len() && is_family_deletion(#[trigger] names[j], prefixes, keep)
                ==> family_deletion_refspecs(names, prefixes, keep).contains(":"@ + names[j]),
{
    reveal_strlit(":");
    let f = |n: Seq<char>| is_family_deletion(n, prefixes, keep);
    let g = |n: Seq<char>| ":"@ + n;
    lemma_filter_members(names, f);
    let filt = names.filter(f);
    let d = family_deletion_refspecs(names, prefixes, keep);
    assert(d == filt.map_values(g));
    assert forall|k: int| 0 <= k < d.len() implies {
        let spec = #[trigger] d[k];
        &&& spec == ":"@ + spec.skip(1)
        &&& names.contains(spec.skip(1))
        &&& is_family_deletion(spec.skip(1), prefixes, keep)
    } by {
        assert(d[k] == ":"@ + filt[k]);
        assert(d[k].skip(1) =~= filt[k]);
        assert(f(filt[k]));
    }
    assert forall|j: int|
        0 <= j < names.len() && is_family_deletion(#[trigger] names[j], prefixes, keep)
            implies d.contains(":"@ + names[j]) by {
        assert(f(names[j]));
        let l = choose|l: int| 0 <= l < filt.len() && filt[l] == names[j];
        assert(d[l] == ":"@ + names[j]);
    }
}

/// Moving a proposal to a new head deletes exactly the listed refs named
/// `refs/soulgit/proposals/<id>/target/...`, `.../author/...` or
/// `.../state/...` other than the target, author and `open` state refs it
/// writes (`kept`): no head, review or check ref, and no ref of another
/// proposal.
pub proof fn lemma_update_deletes_only_metadata(
    names: Seq<Seq<char>>,
    id: Seq<char>,
    target: Seq<char>,
    author: Seq<char>,
    kept: Seq<Seq<char>>,
)
    requires
        kept == seq![
            target_ref_name(id, target),
            author_ref_name(id, author),
            state_ref_name(id, ProposalState::Open),
        ],
    ensures
        forall|k: int|
            0 <= k < family_deletion_refspecs(
                names,
                metadata_prefixes(id),
                kept,
            ).len() ==> {
                let spec = #[trigger] family_deletion_refspecs(
                    names,
                    metadata_prefixes(id),
                    kept,
                )[k];
                let n = spec.skip(1);
                &&& spec == ":"@ + n
                &&& names.contains(n)
                &&& {
                    ||| (PROPOSAL_PREFIX@ + id + "/target/"@).is_prefix_of(n)
                    ||| (PROPOSAL_PREFIX@ + id + "/author/"@).is_prefix_of(n)
                    ||| (PROPOSAL_PREFIX@ + id + "/state/"@).is_prefix_of(n)
                }
                &&& n != target_ref_name(id, target)
                &&& n != author_ref_name(id, author)
                &&& n != state_ref_name(id, ProposalState::Open)
            },
        forall|j: int|
            0 <= j < names.len() && {
                ||| (PROPOSAL_PREFIX@ + id + "/target/"@).is_prefix_of(#[trigger] names[j])
                ||| (PROPOSAL_PREFIX@ + id + "/author/"@).is_prefix_of(names[j])
                ||| (PROPOSAL_PREFIX@ + id + "/state/"@).is_prefix_of(names[j])
            } && names[j] != target_ref_name(id, target) && names[j] != author_ref_name(id, author)
                && names[j] != state_ref_name(id, ProposalState::Open) ==> family_deletion_refspecs(
                names,
                metadata_prefixes(id),
                kept,
            ).contains(":"@ + names[j]),
{
    let ps = metadata_prefixes(id);
    let ks = kept;
    lemma_family_deletions(names, ps, ks);
    assert forall|n: Seq<char>| #[trigger] is_family_deletion(n, ps, ks) <==> ({
        ||| (PROPOSAL_PREFIX@ + id + "/target/"@).is_prefix_of(n)
        ||| (PROPOSAL_PREFIX@ + id + "/author/"@).is_prefix_of(n)
        ||| (PROPOSAL_PREFIX@ + id + "/state/"@).is_prefix_of(n)
    } && n != ks[0] && n != ks[1] && n != ks[2]) by {
        assert(ps[0] == PROPOSAL_PREFIX@ + id + "/target/"@);
        assert(ps[1] == PROPOSAL_PREFIX@ + id + "/author/"@);
        assert(ps[2] == PROPOSAL_PREFIX@ + id + "/state/"@);
        if ks.contains(n) {
            let z = choose|z: int| 0 <= z < ks.len() && ks[z] == n;
        }
        if n == ks[0] || n == ks[1] || n == ks[2] {
            assert(ks.contains(n));
        }
    }
}

/// Padding to a width keeps every character of `s` and only appends spaces,
/// up to the width: `{:<w}` never cuts.
pub proof fn lemma_pad_keeps_text(s: Seq<char>, w: nat)
    ensures
        pad_right(s, w).len() == if s.len() >= w {
            s.len()
        } else {
            w
        },
        pad_right(s, w).take(s.len() as int) == s,
        forall|i: int| s.len() <= i < pad_right(s, w).len() ==> #[trigger] pad_right(s, w)[i] == ' ',
{
    assert(pad_right(s, w).take(s.len() as int) =~= s);
}

/// A listing line holds the proposal's id and author in full: the id starts
/// the line, padded with spaces to 24 columns; after a space, the state's
/// name and a space, the author follows whole, padded with spaces to 20
/// columns; and the line ends with ` -> ` and the target.
pub proof fn lemma_list_line_layout(p: ProposalView)
    ensures
        list_line(p).take(p.id.len() as int) == p.id,
        ({
            let k = (if p.id.len() >= 24 {
                p.id.len() as int
            } else {
                24
            }) + 1 + state_name(p.state).len() + 1;
            &&& list_line(p).subrange(k, k + p.author.len()) == p.author
            &&& forall|j: int|
                p.author.len() <= j < 20 ==> #[trigger] list_line(p)[k + j] == ' '
            &&& list_line(p)[k + (if p.author.len() >= 20 {
                p.author.len() as int
            } else {
                20
            })] == ' '
        }),
        list_line(p).len() >= p.target.len() + 4,
        list_line(p).skip(list_line(p).len() - p.target.len() - 4) == " -> "@ + p.target,
{
    reveal_strlit(" ");
    reveal_strlit(" -> ");
    let a = pad_right(p.id, 24);
    let b = pad_right(p.author, 20);
    let st = state_name(p.state);
    let line = list_line(p);
    lemma_pad_keeps_text(p.id, 24);
    lemma_pad_keeps_text(p.author, 20);
    let k: int = a.len() as int + 1 + st.len() as int + 1;
    let head = a + " "@ + st + " "@;
    let rest = " "@ + short_head(p.head) + " -> "@ + p.target;
    assert(line =~= head + b + rest);
    assert(head.len() == k);
    assert(line.take(p.id.len() as int) =~= a.take(p.id.len() as int));
    assert(line.subrange(k, k + p.author.len() as int) =~= b.take(p.author.len() as int));
    assert forall|j: int| p.author.len() <= j < 20 implies #[trigger] line[k + j] == ' ' by {
        assert(line[k + j] == b[j]);
    }
    assert(line[k + b.len() as int] == rest[0]);
    assert(line.skip(line.len() - p.target.len() - 4) =~= " -> "@ + p.target);
}

} // verus!
