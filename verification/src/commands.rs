//! The decisions behind the proposal commands: which refs a command writes or
//! deletes, the arguments of the push that does it, and the reading of a
//! remote's ref listing. Running `git` and printing stay with the caller.

use vstd::prelude::*;
use vstd::utf8::{decode_utf8, encode_utf8, is_char_boundary};
use crate::kinds::{state_name, CheckResult, ParseError, ProposalState, ReviewDecision};
use crate::proposal::{strings_view, Proposal, ProposalView};
use crate::refs::{
    author_ref, author_ref_name, check_ref, check_ref_name, head_ref, head_ref_name, review_ref,
    review_ref_name, split_once, state_ref, state_ref_name, target_ref, target_ref_name,
    PROPOSAL_PREFIX,
};
use crate::text::{
    chars_of, contains_str, find_from, has_substring, is_whitespace, is_whitespace_char, pad_right,
    push_padded, starts_with_at, str_equal, trim, trim_str,
};
use crate::validate::{byte_len, is_id_char, valid_actor, valid_id, valid_target, validate_actor};

verus! {

broadcast use vstd::string::group_string_axioms;

/// The `(name, oid)` pairs of a ref listing.
pub open spec fn pairs_view(refs: Seq<(String, String)>) -> Seq<(Seq<char>, Seq<char>)> {
    refs.map_values(|r: (String, String)| (r.0@, r.1@))
}

/// The names of a ref listing.
pub open spec fn names_view(refs: Seq<(String, String)>) -> Seq<Seq<char>> {
    refs.map_values(|r: (String, String)| r.0@)
}

/// The texts of a list of string slices.
pub open spec fn strs_view(s: Seq<&str>) -> Seq<Seq<char>> {
    s.map_values(|x: &str| x@)
}

/// A ref is to be deleted when its name holds one of `markers` and is not one
/// of `keep`.
pub open spec fn is_deletion(name: Seq<char>, markers: Seq<Seq<char>>, keep: Seq<Seq<char>>) -> bool {
    !keep.contains(name) && exists|i: int| 0 <= i < markers.len() && has_substring(name, #[trigger] markers[i])
}

/// The refspecs `:<name>` that delete, in listing order, the refs to delete.
pub open spec fn deletion_refspecs(
    names: Seq<Seq<char>>,
    markers: Seq<Seq<char>>,
    keep: Seq<Seq<char>>,
) -> Seq<Seq<char>> {
    names.filter(|n: Seq<char>| is_deletion(n, markers, keep)).map_values(|n: Seq<char>| ":"@ + n)
}

/// Whether `name` is one of `list`.
fn is_listed(list: &[&str], name: &str) -> (r: bool)
    ensures
        r == strs_view(list@).contains(name@),
{
    let ghost ks = strs_view(list@);
    let mut found = false;
    let mut j: usize = 0;
    while j < list.len()
        invariant
            j <= list@.len(),
            ks == strs_view(list@),
            found == ks.take(j as int).contains(name@),
        decreases list.len() - j,
    {
        assert(ks.take(j + 1) =~= ks.take(j as int).push(list@[j as int]@));
        let same = str_equal(list[j], name);
        proof {
            let t0 = ks.take(j as int);
            let t1 = ks.take(j + 1);
            if t1.contains(name@) {
                let k = choose|k: int| 0 <= k < t1.len() && t1[k] == name@;
                if k < j {
                    assert(t0[k] == name@);
                }
            }
            if t0.contains(name@) {
                let k = choose|k: int| 0 <= k < t0.len() && t0[k] == name@;
                assert(t1[k] == name@);
            }
            if same {
                assert(t1[j as int] == name@);
            }
        }
        if same {
            found = true;
        }
        j = j + 1;
    }
    assert(ks.take(j as int) =~= ks);
    found
}

/// Deletion refspecs for the listed refs whose names hold one of `markers`,
/// except those named in `keep`.
pub fn delete_matching_except(refs: &[(String, String)], markers: &[&str], keep: &[&str]) -> (out:
    Vec<String>)
    ensures
        strings_view(out@) == deletion_refspecs(
            names_view(refs@),
            strs_view(markers@),
            strs_view(keep@),
        ),
{
    let ghost names = names_view(refs@);
    let ghost ms = strs_view(markers@);
    let ghost ks = strs_view(keep@);
    let mut out: Vec<String> = Vec::new();
    let mut i: usize = 0;
    while i < refs.len()
        invariant
            i <= refs@.len(),
            names == names_view(refs@),
            ms == strs_view(markers@),
            ks == strs_view(keep@),
            strings_view(out@) == deletion_refspecs(names.take(i as int), ms, ks),
        decreases refs.len() - i,
    {
        let name = refs[i].0.as_str();
        let v = chars_of(name);
        let kept = is_listed(keep, name);
        let mut marked = false;
        let mut j: usize = 0;
        while j < markers.len()
            invariant
                j <= markers@.len(),
                ms == strs_view(markers@),
                v@ == name@,
                marked == exists|k: int| 0 <= k < j && has_substring(name@, #[trigger] ms[k]),
            decreases markers.len() - j,
        {
            assert(ms[j as int] == markers@[j as int]@);
            if contains_str(&v, markers[j]) {
                marked = true;
            }
            j = j + 1;
        }
        let ghost before = strings_view(out@);
        proof {
            assert(names.take(i + 1).drop_last() =~= names.take(i as int));
            assert(names.take(i + 1).last() == name@);
            reveal_with_fuel(Seq::filter, 1);
        }
        if !kept && marked {
            let mut spec_str = String::from_str(":");
            spec_str.append(name);
            out.push(spec_str);
            proof {
                assert(strings_view(out@) =~= before.push(":"@ + name@));
                let f = |n: Seq<char>| is_deletion(n, ms, ks);
                let g = |n: Seq<char>| ":"@ + n;
                assert(names.take(i + 1).filter(f) == names.take(i as int).filter(f).push(name@));
                assert(names.take(i + 1).filter(f).map_values(g) =~= names.take(i as int).filter(
                    f,
                ).map_values(g).push(":"@ + name@));
            }
        }
        i = i + 1;
    }
    assert(names.take(i as int) =~= names);
    out
}

/// A ref is to be deleted as a member of a family when its name starts with
/// one of the family `prefixes` and is not one of `keep`.
pub open spec fn is_family_deletion(
    name: Seq<char>,
    prefixes: Seq<Seq<char>>,
    keep: Seq<Seq<char>>,
) -> bool {
    !keep.contains(name) && exists|i: int|
        0 <= i < prefixes.len() && (#[trigger] prefixes[i]).is_prefix_of(name)
}

/// The refspecs `:<name>` that delete, in listing order, the listed members of
/// the families other than the kept names.
pub open spec fn family_deletion_refspecs(
    names: Seq<Seq<char>>,
    prefixes: Seq<Seq<char>>,
    keep: Seq<Seq<char>>,
) -> Seq<Seq<char>> {
    names.filter(|n: Seq<char>| is_family_deletion(n, prefixes, keep)).map_values(
        |n: Seq<char>| ":"@ + n,
    )
}

/// Deletion refspecs for the listed refs whose names start with one of
/// `prefixes`, except those named in `keep`.
pub fn delete_family_except(refs: &[(String, String)], prefixes: &[&str], keep: &[&str]) -> (out:
    Vec<String>)
    ensures
        strings_view(out@) == family_deletion_refspecs(
            names_view(refs@),
            strs_view(prefixes@),
            strs_view(keep@),
        ),
{
    let ghost names = names_view(refs@);
    let ghost ps = strs_view(prefixes@);
    let ghost ks = strs_view(keep@);
    let mut out: Vec<String> = Vec::new();
    let mut i: usize = 0;
    while i < refs.len()
        invariant
            i <= refs@.len(),
            names == names_view(refs@),
            ps == strs_view(prefixes@),
            ks == strs_view(keep@),
            strings_view(out@) == family_deletion_refspecs(names.take(i as int), ps, ks),
        decreases refs.len() - i,
    {
        let name = refs[i].0.as_str();
        let v = chars_of(name);
        let kept = is_listed(keep, name);
        let mut member = false;
        let mut j: usize = 0;
        while j < prefixes.len()
            invariant
                j <= prefixes@.len(),
                ps == strs_view(prefixes@),
                v@ == name@,
                member == exists|k: int| 0 <= k < j && (#[trigger] ps[k]).is_prefix_of(name@),
            decreases prefixes.len() - j,
        {
            assert(ps[j as int] == prefixes@[j as int]@);
            assert(v@.skip(0) =~= v@);
            if starts_with_at(&v, 0, prefixes[j]) {
                member = true;
            }
            j = j + 1;
        }
        let ghost before = strings_view(out@);
        proof {
            assert(names.take(i + 1).drop_last() =~= names.take(i as int));
            assert(names.take(i + 1).last() == name@);
            reveal_with_fuel(Seq::filter, 1);
        }
        if !kept && member {
            let mut spec_str = String::from_str(":");
            spec_str.append(name);
            out.push(spec_str);
            proof {
                assert(strings_view(out@) =~= before.push(":"@ + name@));
                let f = |n: Seq<char>| is_family_deletion(n, ps, ks);
                let g = |n: Seq<char>| ":"@ + n;
                assert(names.take(i + 1).filter(f) == names.take(i as int).filter(f).push(name@));
                assert(names.take(i + 1).filter(f).map_values(g) =~= names.take(i as int).filter(
                    f,
                ).map_values(g).push(":"@ + name@));
            }
        }
        i = i + 1;
    }
    assert(names.take(i as int) =~= names);
    out
}

/// The oid of the first listed ref that is the head ref of proposal `id`;
/// `Ok(None)` when the listing has none.
pub fn current_head(id: &str, refs: &[(String, String)]) -> (r: Result<Option<String>, ParseError>)
    ensures
        r is Err <==> !valid_id(id@),
        r matches Err(e) ==> e == ParseError::InvalidId(e->InvalidId_0) && e->InvalidId_0@
            == id@,
        r matches Ok(None) ==> forall|i: int|
            0 <= i < refs@.len() ==> (#[trigger] refs@[i]).0@ != head_ref_name(id@),
        r matches Ok(Some(o)) ==> exists|i: int|
            0 <= i < refs@.len() && (#[trigger] refs@[i]).0@ == head_ref_name(id@) && o@
                == refs@[i].1@ && forall|j: int| 0 <= j < i ==> refs@[j].0@ != head_ref_name(id@),
{
    let expected = head_ref(id)?;
    let mut i: usize = 0;
    while i < refs.len()
        invariant
            i <= refs@.len(),
            expected@ == head_ref_name(id@),
            valid_id(id@),
            forall|j: int| 0 <= j < i ==> (#[trigger] refs@[j]).0@ != head_ref_name(id@),
        decreases refs.len() - i,
    {
        if str_equal(refs[i].0.as_str(), expected.as_str()) {
            return Ok(Some(refs[i].1.clone()));
        }
        i = i + 1;
    }
    Ok(None)
}

/// The ref pattern that lists proposal `id`, or every proposal for `*`.
pub fn ls_remote_pattern(id: &str) -> (r: String)
    ensures
        r@ == if id@ == "*"@ {
            PROPOSAL_PREFIX@ + "*"@
        } else {
            PROPOSAL_PREFIX@ + id@ + "/*"@
        },
{
    let mut r = String::from_str(PROPOSAL_PREFIX);
    if str_equal(id, "*") {
        r.append("*");
    } else {
        r.append(id);
        r.append("/*");
    }
    r
}

/// `--force-with-lease=<name>:<oid>`
pub open spec fn lease_arg(name: Seq<char>, oid: Seq<char>) -> Seq<char> {
    "--force-with-lease="@ + name + ":"@ + oid
}

/// Arguments of an atomic push of `refspecs` to `remote`, guarded by a lease
/// on a ref's expected oid when one is given.
pub fn push_atomic_args(remote: &str, lease: Option<(&str, &str)>, refspecs: Vec<String>) -> (r: Vec<
    String,
>)
    ensures
        strings_view(r@) == seq!["push"@, "--atomic"@] + match lease {
            Some((name, oid)) => seq![lease_arg(name@, oid@)],
            None => seq![],
        } + seq![remote@] + strings_view(refspecs@),
{
    let mut args: Vec<String> = Vec::new();
    args.push(String::from_str("push"));
    args.push(String::from_str("--atomic"));
    match lease {
        Some((name, oid)) => {
            let mut a = String::from_str("--force-with-lease=");
            a.append(name);
            a.append(":");
            a.append(oid);
            args.push(a);
        },
        None => {},
    }
    args.push(String::from_str(remote));
    let ghost head = strings_view(args@);
    let mut i: usize = 0;
    while i < refspecs.len()
        invariant
            i <= refspecs@.len(),
            strings_view(args@) == head + strings_view(refspecs@).take(i as int),
        decreases refspecs.len() - i,
    {
        let ghost before = strings_view(args@);
        args.push(refspecs[i].clone());
        proof {
            assert(strings_view(args@) =~= before.push(refspecs@[i as int]@));
            assert(strings_view(refspecs@).take(i + 1) =~= strings_view(refspecs@).take(i as int).push(
                refspecs@[i as int]@,
            ));
        }
        i = i + 1;
    }
    proof {
        assert(strings_view(refspecs@).take(i as int) =~= strings_view(refspecs@));
        assert(strings_view(args@) =~= seq!["push"@, "--atomic"@] + match lease {
            Some((name, oid)) => seq![lease_arg(name@, oid@)],
            None => seq![],
        } + seq![remote@] + strings_view(refspecs@));
    }
    args
}

/// The proposal identity to record: `value` without surrounding white space,
/// which must be a valid actor.
pub fn actor(value: &str) -> (r: Result<String, ParseError>)
    ensures
        r is Ok <==> valid_actor(trim(value@)),
        r matches Ok(s) ==> s@ == trim(value@),
        r matches Err(e) ==> e == ParseError::InvalidActor(e->InvalidActor_0)
            && e->InvalidActor_0@ == trim(value@),
{
    let t = trim_str(value);
    validate_actor(t)?;
    Ok(String::from_str(t))
}


/// Position of the first `c` in `s`, or the length of `s` when it holds none.
pub open spec fn index_of_char(s: Seq<char>, c: char) -> int
    decreases s.len(),
{
    if s.len() == 0 {
        0
    } else if s[0] == c {
        0
    } else {
        1 + index_of_char(s.drop_first(), c)
    }
}

pub proof fn lemma_index_of_char_bounds(s: Seq<char>, c: char)
    ensures
        0 <= index_of_char(s, c) <= s.len(),
    decreases s.len(),
{
    if s.len() > 0 && s[0] != c {
        lemma_index_of_char_bounds(s.drop_first(), c);
    }
}

/// The first `c` at or after `p` is at `k` (or there is none and `k` is the
/// length).
proof fn lemma_index_of_char_from(s: Seq<char>, p: int, k: int, c: char)
    requires
        0 <= p <= k <= s.len(),
        forall|j: int| p <= j < k ==> s[j] != c,
        k < s.len() ==> s[k] == c,
    ensures
        index_of_char(s.skip(p), c) == k - p,
    decreases k - p,
{
    if p < k {
        lemma_index_of_char_from(s, p + 1, k, c);
        assert(s.skip(p).drop_first() =~= s.skip(p + 1));
    }
}

/// A line without the `\r` of a `\r\n` ending.
pub open spec fn strip_cr(l: Seq<char>) -> Seq<char> {
    if l.len() > 0 && l.last() == '\r' {
        l.drop_last()
    } else {
        l
    }
}

/// The lines of `s`, as `str::lines` yields them: split at `\n`, a `\r`
/// before the `\n` removed, and no empty line after a final `\n`.
pub open spec fn lines(s: Seq<char>) -> Seq<Seq<char>>
    decreases s.len(),
{
    if s.len() == 0 {
        seq![]
    } else {
        let k = index_of_char(s, '\n');
        proof {
            lemma_index_of_char_bounds(s, '\n');
        }
        if k >= s.len() {
            seq![s]
        } else {
            seq![strip_cr(s.take(k))] + lines(s.skip(k + 1))
        }
    }
}

/// `i` is the position of the first white-space character of `l`.
pub open spec fn is_first_whitespace(l: Seq<char>, i: int) -> bool {
    0 <= i < l.len() && is_whitespace(l[i]) && forall|j: int| 0 <= j < i ==> !is_whitespace(#[trigger] l[j])
}

/// The `(name, oid)` pair of one `ls-remote` line: the oid before the first
/// white space, the name after it, trimmed; none without white space.
pub open spec fn ls_remote_entry(l: Seq<char>) -> Option<(Seq<char>, Seq<char>)> {
    if exists|i: int| is_first_whitespace(l, i) {
        let i = choose|i: int| is_first_whitespace(l, i);
        Some((trim(l.skip(i + 1)), l.take(i)))
    } else {
        None
    }
}

/// The `(name, oid)` pairs of the lines that have one, in order.
pub open spec fn ls_remote_pairs(ls: Seq<Seq<char>>) -> Seq<(Seq<char>, Seq<char>)>
    decreases ls.len(),
{
    if ls.len() == 0 {
        seq![]
    } else {
        let rest = ls_remote_pairs(ls.drop_first());
        match ls_remote_entry(ls[0]) {
            Some(e) => seq![e] + rest,
            None => rest,
        }
    }
}

/// Reads the output of `git ls-remote` into `(ref name, oid)` pairs.
pub fn parse_ls_remote(output: &str) -> (r: Vec<(String, String)>)
    ensures
        pairs_view(r@) == ls_remote_pairs(lines(output@)),
{
    let v = chars_of(output);
    let n = v.len();
    let mut out: Vec<(String, String)> = Vec::new();
    let mut pos: usize = 0;
    proof {
        assert(v@.skip(0) =~= v@);
    }
    while pos < n
        invariant
            pos <= n,
            n == v@.len(),
            v@ == output@,
            pairs_view(out@) + ls_remote_pairs(lines(v@.skip(pos as int))) == ls_remote_pairs(
                lines(output@),
            ),
        decreases n - pos,
    {
        let ghost rest = v@.skip(pos as int);
        let found = find_from(&v, pos, '\n');
        let (end, next) = match found {
            Some(k) => {
                proof {
                    lemma_index_of_char_from(v@, pos as int, k as int, '\n');
                    assert(rest.take(k - pos) =~= v@.subrange(pos as int, k as int));
                    assert(rest.skip(k - pos + 1) =~= v@.skip(k + 1));
                }
                if k > pos && v[k - 1] == '\r' {
                    (k - 1, k + 1)
                } else {
                    (k, k + 1)
                }
            },
            None => {
                proof {
                    lemma_index_of_char_from(v@, pos as int, n as int, '\n');
                    assert(rest =~= v@.subrange(pos as int, n as int));
                }
                (n, n)
            },
        };
        let ghost line = v@.subrange(pos as int, end as int);
        proof {
            assert(lines(rest) == seq![line] + lines(v@.skip(next as int))) by {
                if found is Some {
                    let k = found->0;
                    if k > pos && v@[k - 1] == '\r' {
                        assert(v@.subrange(pos as int, k as int).drop_last() =~= line);
                    }
                } else {
                    assert(v@.skip(n as int) =~= seq![]);
                }
            }
            assert((seq![line] + lines(v@.skip(next as int))).drop_first() =~= lines(
                v@.skip(next as int),
            ));
        }
        let mut w: usize = pos;
        while w < end && !is_whitespace_char(v[w])
            invariant
                pos <= w <= end <= n,
                n == v@.len(),
                forall|j: int| pos <= j < w ==> !is_whitespace(#[trigger] v@[j]),
            decreases end - w,
        {
            w = w + 1;
        }
        let ghost before = pairs_view(out@);
        if w < end {
            let oid = output.substring_char(pos, w);
            let name = trim_str(output.substring_char(w + 1, end));
            out.push((String::from_str(name), String::from_str(oid)));
            proof {
                let i = (w - pos) as int;
                assert(is_first_whitespace(line, i));
                let c = choose|c: int| is_first_whitespace(line, c);
                if c < i {
                    assert(!is_whitespace(line[c]));
                }
                if i < c {
                    assert(!is_whitespace(line[i]));
                }
                assert(line.skip(i + 1) =~= v@.subrange(w + 1, end as int));
                assert(line.take(i) =~= v@.subrange(pos as int, w as int));
                assert(ls_remote_entry(line) == Some((name@, oid@)));
                assert(pairs_view(out@) =~= before.push((name@, oid@)));
            }
        } else {
            proof {
                assert forall|i: int| !is_first_whitespace(line, i) by {
                    if is_first_whitespace(line, i) {
                        assert(!is_whitespace(v@[pos + i]));
                    }
                }
            }
        }
        pos = next;
    }
    proof {
        assert(v@.skip(pos as int) =~= seq![]);
    }
    out
}


/// `<oid>:<name>`: set `name` to `oid`.
pub open spec fn set_refspec(oid: Seq<char>, name: Seq<char>) -> Seq<char> {
    oid + ":"@ + name
}

/// `+<oid>:<name>`: force `name` to `oid`.
pub open spec fn force_refspec(oid: Seq<char>, name: Seq<char>) -> Seq<char> {
    "+"@ + oid + ":"@ + name
}

fn make_refspec(force: bool, oid: &str, name: &str) -> (r: String)
    ensures
        r@ == if force {
            force_refspec(oid@, name@)
        } else {
            set_refspec(oid@, name@)
        },
{
    let mut r = if force {
        String::from_str("+")
    } else {
        String::new()
    };
    r.append(oid);
    r.append(":");
    r.append(name);
    proof {
        if force {
            assert(r@ =~= force_refspec(oid@, name@));
        } else {
            assert(r@ =~= set_refspec(oid@, name@));
        }
    }
    r
}

/// The push that creates proposal `id` at `oid`: its head, target, author and
/// `open` state refs all set to `oid`, guarded by a lease that the head ref does
/// not exist yet. Fails on the first invalid component: id, target, author.
pub fn create_push_args(id: &str, remote: &str, target: &str, author: &str, oid: &str) -> (r:
    Result<Vec<String>, ParseError>)
    ensures
        r is Ok <==> valid_id(id@) && valid_target(target@) && valid_actor(author@),
        r matches Ok(args) ==> strings_view(args@) == seq![
            "push"@,
            "--atomic"@,
            lease_arg(head_ref_name(id@), ""@),
            remote@,
            set_refspec(oid@, head_ref_name(id@)),
            set_refspec(oid@, target_ref_name(id@, target@)),
            set_refspec(oid@, author_ref_name(id@, author@)),
            set_refspec(oid@, state_ref_name(id@, ProposalState::Open)),
        ],
        r matches Err(e) ==> if !valid_id(id@) {
            e == ParseError::InvalidId(e->InvalidId_0) && e->InvalidId_0@ == id@
        } else if !valid_target(target@) {
            e == ParseError::InvalidTarget(e->InvalidTarget_0) && e->InvalidTarget_0@ == target@
        } else {
            e == ParseError::InvalidActor(e->InvalidActor_0) && e->InvalidActor_0@ == author@
        },
{
    let head_name = head_ref(id)?;
    let target_name = target_ref(id, target)?;
    let author_name = author_ref(id, author)?;
    let state_name = state_ref(id, ProposalState::Open)?;
    let mut refspecs: Vec<String> = Vec::new();
    refspecs.push(make_refspec(false, oid, head_name.as_str()));
    refspecs.push(make_refspec(false, oid, target_name.as_str()));
    refspecs.push(make_refspec(false, oid, author_name.as_str()));
    refspecs.push(make_refspec(false, oid, state_name.as_str()));
    let args = push_atomic_args(remote, Some((head_name.as_str(), "")), refspecs);
    proof {
        reveal_strlit("");
        assert(strings_view(args@) =~= seq![
            "push"@,
            "--atomic"@,
            lease_arg(head_ref_name(id@), ""@),
            remote@,
            set_refspec(oid@, head_ref_name(id@)),
            set_refspec(oid@, target_ref_name(id@, target@)),
            set_refspec(oid@, author_ref_name(id@, author@)),
            set_refspec(oid@, state_ref_name(id@, ProposalState::Open)),
        ]);
    }
    Ok(args)
}

/// `refs/soulgit/proposals/<id>` followed by `rest`.
fn proposal_name(id: &str, rest: &str) -> (r: String)
    ensures
        r@ == PROPOSAL_PREFIX@ + id@ + rest@,
{
    let mut r = String::from_str(PROPOSAL_PREFIX);
    r.append(id);
    r.append(rest);
    r
}

/// The name prefixes of the target, author and state refs of proposal `id`:
/// the metadata families that an update rewrites.
pub open spec fn metadata_prefixes(id: Seq<char>) -> Seq<Seq<char>> {
    seq![
        PROPOSAL_PREFIX@ + id + "/target/"@,
        PROPOSAL_PREFIX@ + id + "/author/"@,
        PROPOSAL_PREFIX@ + id + "/state/"@,
    ]
}

/// The name prefix of the review refs of one actor on proposal `id`.
pub open spec fn review_family(id: Seq<char>, reviewer: Seq<char>) -> Seq<char> {
    PROPOSAL_PREFIX@ + id + "/reviews/"@ + reviewer + "/"@
}

/// The name prefix of the check refs of one runner on proposal `id`.
pub open spec fn check_family(id: Seq<char>, runner: Seq<char>) -> Seq<char> {
    PROPOSAL_PREFIX@ + id + "/checks/"@ + runner + "/"@
}

/// The name prefix of the state refs of proposal `id`.
pub open spec fn state_family(id: Seq<char>) -> Seq<char> {
    PROPOSAL_PREFIX@ + id + "/state/"@
}

/// The refspecs of the push that moves proposal `id` to `oid`, keeping
/// `target` and `author`: deletions of the other listed target, author and
/// state refs of the proposal, then head, target, author and an `open` state
/// forced to `oid`.
pub open spec fn update_refspecs(
    names: Seq<Seq<char>>,
    id: Seq<char>,
    target: Seq<char>,
    author: Seq<char>,
    oid: Seq<char>,
) -> Seq<Seq<char>> {
    family_deletion_refspecs(
        names,
        metadata_prefixes(id),
        seq![
            target_ref_name(id, target),
            author_ref_name(id, author),
            state_ref_name(id, ProposalState::Open),
        ],
    ) + seq![
        force_refspec(oid, head_ref_name(id)),
        force_refspec(oid, target_ref_name(id, target)),
        force_refspec(oid, author_ref_name(id, author)),
        force_refspec(oid, state_ref_name(id, ProposalState::Open)),
    ]
}

/// The listing without the refs named `name`.
pub open spec fn remove_ref(refs: Seq<(Seq<char>, Seq<char>)>, name: Seq<char>) -> Seq<
    (Seq<char>, Seq<char>),
> {
    refs.filter(|r: (Seq<char>, Seq<char>)| r.0 != name)
}

/// The listing after a push of one refspec: `:<name>` deletes `name`;
/// `<oid>:<name>` and `+<oid>:<name>` set `name` to `oid`, listed last.
pub open spec fn apply_refspec(refs: Seq<(Seq<char>, Seq<char>)>, spec: Seq<char>) -> Seq<
    (Seq<char>, Seq<char>),
> {
    let body = if spec.len() > 0 && spec[0] == '+' {
        spec.skip(1)
    } else {
        spec
    };
    match split_once(body, ':') {
        Some((oid, name)) => if oid.len() == 0 {
            remove_ref(refs, name)
        } else {
            remove_ref(refs, name).push((name, oid))
        },
        None => refs,
    }
}

/// The listing after a push of `specs`, applied in order.
pub open spec fn apply_refspecs(refs: Seq<(Seq<char>, Seq<char>)>, specs: Seq<Seq<char>>) -> Seq<
    (Seq<char>, Seq<char>),
>
    decreases specs.len(),
{
    if specs.len() == 0 {
        refs
    } else {
        apply_refspec(apply_refspecs(refs, specs.drop_last()), specs.last())
    }
}

/// The push that moves proposal `id` to `oid`: it deletes the stale target,
/// author and state refs, forces head, target, author and an `open` state to
/// `oid`, and is guarded by a lease on the head still being `current.head`.
/// Reviews and checks stay, stale, for audit.
pub fn update_push_args(
    id: &str,
    remote: &str,
    remote_refs: &[(String, String)],
    current: &Proposal,
    oid: &str,
) -> (r: Result<Vec<String>, ParseError>)
    ensures
        r is Ok <==> valid_id(id@) && valid_target(current.target@) && valid_actor(
            current.author@,
        ),
        r matches Ok(args) ==> strings_view(args@) == seq![
            "push"@,
            "--atomic"@,
            lease_arg(head_ref_name(id@), current.head@),
            remote@,
        ] + update_refspecs(
            names_view(remote_refs@),
            id@,
            current.target@,
            current.author@,
            oid@,
        ),
        r matches Err(e) ==> if !valid_id(id@) {
            e == ParseError::InvalidId(e->InvalidId_0) && e->InvalidId_0@ == id@
        } else if !valid_target(current.target@) {
            e == ParseError::InvalidTarget(e->InvalidTarget_0) && e->InvalidTarget_0@
                == current.target@
        } else {
            e == ParseError::InvalidActor(e->InvalidActor_0) && e->InvalidActor_0@
                == current.author@
        },
{
    let head_name = head_ref(id)?;
    let target_name = target_ref(id, current.target.as_str())?;
    let author_name = author_ref(id, current.author.as_str())?;
    let state_name = state_ref(id, ProposalState::Open)?;
    let target_family = proposal_name(id, "/target/");
    let author_family = proposal_name(id, "/author/");
    let state_family = proposal_name(id, "/state/");
    let prefixes = [target_family.as_str(), author_family.as_str(), state_family.as_str()];
    let keep = [target_name.as_str(), author_name.as_str(), state_name.as_str()];
    let mut refspecs = delete_family_except(remote_refs, &prefixes, &keep);
    let ghost dels = strings_view(refspecs@);
    refspecs.push(make_refspec(true, oid, head_name.as_str()));
    refspecs.push(make_refspec(true, oid, target_name.as_str()));
    refspecs.push(make_refspec(true, oid, author_name.as_str()));
    refspecs.push(make_refspec(true, oid, state_name.as_str()));
    let args = push_atomic_args(remote, Some((head_name.as_str(), current.head.as_str())), refspecs);
    proof {
        assert(strs_view(prefixes@) =~= metadata_prefixes(id@));
        assert(strs_view(keep@) =~= seq![
            target_ref_name(id@, current.target@),
            author_ref_name(id@, current.author@),
            state_ref_name(id@, ProposalState::Open),
        ]);
        assert(strings_view(args@) =~= seq![
            "push"@,
            "--atomic"@,
            lease_arg(head_ref_name(id@), current.head@),
            remote@,
        ] + dels + seq![
            force_refspec(oid@, head_ref_name(id@)),
            force_refspec(oid@, target_ref_name(id@, current.target@)),
            force_refspec(oid@, author_ref_name(id@, current.author@)),
            force_refspec(oid@, state_ref_name(id@, ProposalState::Open)),
        ]);
    }
    Ok(args)
}

/// Refspecs that replace one family of refs: delete every listed ref whose
/// name starts with `prefix` except `desired`, then force `desired` to `head`.
fn replace_family(refs: &[(String, String)], prefix: &str, desired: &str, head: &str) -> (r: Vec<
    String,
>)
    ensures
        strings_view(r@) == family_deletion_refspecs(
            names_view(refs@),
            seq![prefix@],
            seq![desired@],
        ) + seq![force_refspec(head@, desired@)],
{
    let prefixes = [prefix];
    let keep = [desired];
    let mut refspecs = delete_family_except(refs, &prefixes, &keep);
    let ghost dels = strings_view(refspecs@);
    refspecs.push(make_refspec(true, head, desired));
    proof {
        assert(strs_view(prefixes@) =~= seq![prefix@]);
        assert(strs_view(keep@) =~= seq![desired@]);
        assert(strings_view(refspecs@) =~= dels + seq![force_refspec(head@, desired@)]);
    }
    refspecs
}

/// The push that records a review `decision` on proposal `id` at its current
/// `head`, replacing the other review refs of the same actor.
pub fn review_push_args(
    id: &str,
    remote: &str,
    reviewer: &str,
    decision: ReviewDecision,
    refs: &[(String, String)],
    head: &str,
) -> (r: Result<Vec<String>, ParseError>)
    ensures
        r is Ok <==> valid_id(id@) && valid_actor(reviewer@),
        r matches Ok(args) ==> strings_view(args@) == seq!["push"@, "--atomic"@, remote@]
            + family_deletion_refspecs(
            names_view(refs@),
            seq![review_family(id@, reviewer@)],
            seq![review_ref_name(id@, reviewer@, decision)],
        ) + seq![force_refspec(head@, review_ref_name(id@, reviewer@, decision))],
        r matches Err(e) ==> if !valid_id(id@) {
            e == ParseError::InvalidId(e->InvalidId_0) && e->InvalidId_0@ == id@
        } else {
            e == ParseError::InvalidActor(e->InvalidActor_0) && e->InvalidActor_0@ == reviewer@
        },
{
    let desired = review_ref(id, reviewer, decision)?;
    let mut family = proposal_name(id, "/reviews/");
    family.append(reviewer);
    family.append("/");
    let refspecs = replace_family(refs, family.as_str(), desired.as_str(), head);
    let args = push_atomic_args(remote, None, refspecs);
    proof {
        assert(strings_view(args@) =~= seq!["push"@, "--atomic"@, remote@] + strings_view(
            refspecs@,
        ));
    }
    Ok(args)
}

/// The push that records `runner`'s check `result` on proposal `id` at its
/// current `head`, replacing that runner's other check refs.
pub fn check_push_args(
    id: &str,
    remote: &str,
    runner: &str,
    result: CheckResult,
    refs: &[(String, String)],
    head: &str,
) -> (r: Result<Vec<String>, ParseError>)
    ensures
        r is Ok <==> valid_id(id@) && valid_actor(runner@),
        r matches Ok(args) ==> strings_view(args@) == seq!["push"@, "--atomic"@, remote@]
            + family_deletion_refspecs(
            names_view(refs@),
            seq![check_family(id@, runner@)],
            seq![check_ref_name(id@, runner@, result)],
        ) + seq![force_refspec(head@, check_ref_name(id@, runner@, result))],
        r matches Err(e) ==> if !valid_id(id@) {
            e == ParseError::InvalidId(e->InvalidId_0) && e->InvalidId_0@ == id@
        } else {
            e == ParseError::InvalidActor(e->InvalidActor_0) && e->InvalidActor_0@ == runner@
        },
{
    let desired = check_ref(id, runner, result)?;
    let mut family = proposal_name(id, "/checks/");
    family.append(runner);
    family.append("/");
    let refspecs = replace_family(refs, family.as_str(), desired.as_str(), head);
    let args = push_atomic_args(remote, None, refspecs);
    proof {
        assert(strings_view(args@) =~= seq!["push"@, "--atomic"@, remote@] + strings_view(
            refspecs@,
        ));
    }
    Ok(args)
}

/// The push that sets proposal `id` to `state` at its current `head`,
/// replacing its other state refs.
pub fn state_push_args(
    id: &str,
    remote: &str,
    state: ProposalState,
    refs: &[(String, String)],
    head: &str,
) -> (r: Result<Vec<String>, ParseError>)
    ensures
        r is Ok <==> valid_id(id@),
        r matches Ok(args) ==> strings_view(args@) == seq!["push"@, "--atomic"@, remote@]
            + family_deletion_refspecs(
            names_view(refs@),
            seq![state_family(id@)],
            seq![state_ref_name(id@, state)],
        ) + seq![force_refspec(head@, state_ref_name(id@, state))],
        r matches Err(e) ==> e == ParseError::InvalidId(e->InvalidId_0) && e->InvalidId_0@
            == id@,
{
    let desired = state_ref(id, state)?;
    let family = proposal_name(id, "/state/");
    let refspecs = replace_family(refs, family.as_str(), desired.as_str(), head);
    let args = push_atomic_args(remote, None, refspecs);
    proof {
        assert(strings_view(args@) =~= seq!["push"@, "--atomic"@, remote@] + strings_view(
            refspecs@,
        ));
    }
    Ok(args)
}


/// How many bytes of a head oid a listing shows: at most 12.
pub open spec fn short_head_len(h: Seq<char>) -> int {
    if byte_len(h) < 12 {
        byte_len(h) as int
    } else {
        12
    }
}

/// The first (at most 12) bytes of a head oid, as text.
pub open spec fn short_head(h: Seq<char>) -> Seq<char> {
    decode_utf8(encode_utf8(h).subrange(0, short_head_len(h)))
}

/// One line of the proposal listing: id (padded to 24), state, author (padded
/// to 20), the start of the head, and the target.
pub open spec fn list_line(p: ProposalView) -> Seq<char> {
    pad_right(p.id, 24) + " "@ + state_name(p.state) + " "@ + pad_right(p.author, 20) + " "@
        + short_head(p.head) + " -> "@ + p.target
}

/// The line listing one proposal.
fn proposal_line(p: &Proposal) -> (r: String)
    requires
        is_char_boundary(encode_utf8(p.head@), short_head_len(p.head@)),
    ensures
        r@ == list_line(p@),
{
    broadcast use vstd::utf8::group_utf8_lib;

    let mut line = String::new();
    push_padded(&mut line, p.id.as_str(), 24);
    line.append(" ");
    line.append(p.state.as_str());
    line.append(" ");
    push_padded(&mut line, p.author.as_str(), 20);
    line.append(" ");
    let h = p.head.as_str();
    let n = h.as_bytes().len();
    let k = if n < 12 {
        n
    } else {
        12
    };
    let (short, _) = h.split_at(k);
    assert(short@ == short_head(p.head@));
    line.append(short);
    line.append(" -> ");
    line.append(p.target.as_str());
    proof {
        reveal_strlit("");
        assert(line@ =~= list_line(p@));
    }
    line
}

/// The lines that list `proposals`, or the one line `(no proposals)`.
pub fn list_lines(proposals: &[Proposal]) -> (r: Vec<String>)
    requires
        forall|i: int|
            0 <= i < proposals@.len() ==> is_char_boundary(
                encode_utf8((#[trigger] proposals@[i]).head@),
                short_head_len(proposals@[i].head@),
            ),
    ensures
        proposals@.len() == 0 ==> strings_view(r@) == seq!["(no proposals)"@],
        proposals@.len() > 0 ==> strings_view(r@) == proposals@.map_values(
            |p: Proposal| list_line(p@),
        ),
{
    let mut out: Vec<String> = Vec::new();
    if proposals.len() == 0 {
        out.push(String::from_str("(no proposals)"));
        assert(strings_view(out@) =~= seq!["(no proposals)"@]);
        return out;
    }
    let mut i: usize = 0;
    while i < proposals.len()
        invariant
            i <= proposals@.len(),
            forall|j: int|
                0 <= j < proposals@.len() ==> is_char_boundary(
                    encode_utf8((#[trigger] proposals@[j]).head@),
                    short_head_len(proposals@[j].head@),
                ),
            strings_view(out@) == proposals@.take(i as int).map_values(|p: Proposal| list_line(p@)),
        decreases proposals.len() - i,
    {
        let line = proposal_line(&proposals[i]);
        let ghost before = strings_view(out@);
        out.push(line);
        proof {
            assert(strings_view(out@) =~= before.push(line@));
            assert(proposals@.take(i + 1).map_values(|p: Proposal| list_line(p@)) =~= proposals@.take(
                i as int,
            ).map_values(|p: Proposal| list_line(p@)).push(list_line(proposals@[i as int]@)));
        }
        i = i + 1;
    }
    assert(proposals@.take(i as int) =~= proposals@);
    out
}

/// A lower-case hexadecimal digit.
pub open spec fn is_lower_hex(c: char) -> bool {
    ('0' <= c <= '9') || ('a' <= c <= 'f')
}

/// `uuid::Uuid::new_v4().simple().to_string()`: a random version-4 UUID in the
/// simple format, which the crate writes as 32 lower-case hexadecimal digits.
#[verifier::external_body]
fn uuid_v4_simple() -> (s: String)
    ensures
        s@.len() == 32,
        forall|i: int| 0 <= i < s@.len() ==> is_lower_hex(#[trigger] s@[i]),
{
    uuid::Uuid::new_v4().simple().to_string()
}

/// The proposal id made from a UUID in simple format: `p-` and its first 12
/// hexadecimal digits.
pub fn proposal_id_from_uuid(uuid: &str) -> (id: String)
    requires
        uuid@.len() >= 12,
        forall|i: int| 0 <= i < 12 ==> is_lower_hex(#[trigger] uuid@[i]),
    ensures
        id@ == "p-"@ + uuid@.take(12),
        valid_id(id@),
{
    broadcast use vstd::utf8::group_utf8_lib;

    let mut id = String::from_str("p-");
    id.append(uuid.substring_char(0, 12));
    proof {
        reveal_strlit("p-");
        let s = id@;
        assert(s =~= "p-"@ + uuid@.take(12));
        assert(forall|i: int| 2 <= i < 14 ==> s[i] == uuid@[i - 2]);
        assert forall|i: int| 0 <= i < s.len() implies is_id_char(#[trigger] s[i]) by {
            if i >= 2 {
                assert(is_lower_hex(uuid@[i - 2]));
            }
        }
        assert(vstd::utf8::is_ascii_chars(s)) by {
            assert forall|i: int| 0 <= i < s.len() implies '\0' <= #[trigger] s[i] <= '\u{7f}' by {
                if i >= 2 {
                    assert(is_lower_hex(uuid@[i - 2]));
                }
            }
        }
        vstd::utf8::is_ascii_chars_encode_utf8(s);
        assert(!crate::validate::has_doubled(s, '.')) by {
            if crate::validate::has_doubled(s, '.') {
                let i = choose|i: int| 0 <= i < s.len() - 1 && #[trigger] s[i] == '.' && s[i + 1] == '.';
                if i >= 2 {
                    assert(is_lower_hex(uuid@[i - 2]));
                }
            }
        }
        assert(is_lower_hex(uuid@[11]));
    }
    id
}

/// A fresh random proposal id: `p-` and 12 lower-case hexadecimal digits.
pub fn new_proposal_id() -> (id: String)
    ensures
        valid_id(id@),
        id@.len() == 14,
        id@.take(2) == "p-"@,
        forall|i: int| 2 <= i < 14 ==> is_lower_hex(#[trigger] id@[i]),
{
    let u = uuid_v4_simple();
    let id = proposal_id_from_uuid(u.as_str());
    proof {
        reveal_strlit("p-");
        assert(id@.take(2) =~= "p-"@);
        assert forall|i: int| 2 <= i < 14 implies is_lower_hex(#[trigger] id@[i]) by {
            assert(id@[i] == u@[i - 2]);
        }
    }
    id
}

} // verus!
