//! Validation of the components that are embedded in proposal ref names.
//!
//! The checks read characters; every character that an id or an actor may hold
//! is ASCII, and a target's other limits are stated on its UTF-8 byte length,
//! exactly as the length limits of the ref model count bytes.

use vstd::prelude::*;
use vstd::utf8::encode_utf8;
use crate::kinds::ParseError;
use crate::text::chars_of;

verus! {

broadcast use vstd::string::group_string_axioms;

/// ASCII letter or digit.
pub open spec fn is_ascii_alnum(c: char) -> bool {
    ||| (48 <= (c as u32) <= 57)
    ||| (65 <= (c as u32) <= 90)
    ||| (97 <= (c as u32) <= 122)
}

/// A character allowed in a proposal id.
pub open spec fn is_id_char(c: char) -> bool {
    is_ascii_alnum(c) || c == '-' || c == '_' || c == '.'
}

/// A character allowed in an actor (author, reviewing actor, check runner).
pub open spec fn is_actor_char(c: char) -> bool {
    is_ascii_alnum(c) || c == '-' || c == '_' || c == '.' || c == '@' || c == '+'
}

/// A character that a target branch may not hold: ASCII control characters,
/// space, and the characters that Git reserves in ref names.
pub open spec fn is_forbidden_target_char(c: char) -> bool {
    ||| (c as u32) < 32
    ||| (c as u32) == 127
    ||| c == ' '
    ||| c == '~'
    ||| c == '^'
    ||| c == ':'
    ||| c == '?'
    ||| c == '*'
    ||| c == '['
    ||| c == '\\'
}

/// `s` holds `c` immediately followed by `c`.
pub open spec fn has_doubled(s: Seq<char>, c: char) -> bool {
    exists|i: int| 0 <= i < s.len() - 1 && #[trigger] s[i] == c && s[i + 1] == c
}

/// Number of bytes in the UTF-8 encoding of `s` (what `str::len` returns).
pub open spec fn byte_len(s: Seq<char>) -> nat {
    encode_utf8(s).len()
}

/// A valid proposal id: 1 to 64 bytes of ASCII letters, digits, `-`, `_` and
/// `.`, neither starting nor ending with `.`, and without `..`.
pub open spec fn valid_id(s: Seq<char>) -> bool {
    &&& s.len() > 0
    &&& byte_len(s) <= 64
    &&& s[0] != '.'
    &&& s.last() != '.'
    &&& !has_doubled(s, '.')
    &&& forall|i: int| 0 <= i < s.len() ==> is_id_char(#[trigger] s[i])
}

/// A valid actor: like an id, with `@` and `+` also allowed, and up to 128 bytes.
pub open spec fn valid_actor(s: Seq<char>) -> bool {
    &&& s.len() > 0
    &&& byte_len(s) <= 128
    &&& s[0] != '.'
    &&& s.last() != '.'
    &&& !has_doubled(s, '.')
    &&& forall|i: int| 0 <= i < s.len() ==> is_actor_char(#[trigger] s[i])
}

/// `s` ends with `.lock`.
pub open spec fn ends_with_lock(s: Seq<char>) -> bool {
    s.len() >= 5 && s.skip(s.len() - 5) == seq!['.', 'l', 'o', 'c', 'k']
}

/// A valid target branch: 1 to 255 bytes, not starting or ending with `/`, not
/// ending with `.` or `.lock`, without `..` or `//`, and without forbidden
/// characters.
pub open spec fn valid_target(s: Seq<char>) -> bool {
    &&& s.len() > 0
    &&& byte_len(s) <= 255
    &&& s[0] != '/'
    &&& s.last() != '/'
    &&& s.last() != '.'
    &&& !ends_with_lock(s)
    &&& !has_doubled(s, '.')
    &&& !has_doubled(s, '/')
    &&& forall|i: int| 0 <= i < s.len() ==> !is_forbidden_target_char(#[trigger] s[i])
}

fn is_ascii_alnum_char(c: char) -> (r: bool)
    ensures
        r == is_ascii_alnum(c),
{
    let u = c as u32;
    (48 <= u && u <= 57) || (65 <= u && u <= 90) || (97 <= u && u <= 122)
}

/// Whether `v` holds `c` twice in a row.
fn find_doubled(v: &Vec<char>, c: char) -> (r: bool)
    ensures
        r == has_doubled(v@, c),
{
    let mut i: usize = 0;
    while v.len() > 0 && i < v.len() - 1
        invariant
            i <= v@.len(),
            forall|j: int| 0 <= j < i ==> !(#[trigger] v@[j] == c && v@[j + 1] == c),
        decreases v.len() - i,
    {
        if v[i] == c && v[i + 1] == c {
            return true;
        }
        i = i + 1;
    }
    false
}

/// Checks a proposal id.
pub fn validate_id(value: &str) -> (r: Result<(), ParseError>)
    ensures
        r is Ok <==> valid_id(value@),
        r matches Err(e) ==> e == ParseError::InvalidId(e->InvalidId_0) && e->InvalidId_0@
            == value@,
{
    let v = chars_of(value);
    let n = v.len();
    let mut ok = n > 0 && value.as_bytes().len() <= 64 && v[0] != '.' && v[n - 1] != '.' && !find_doubled(
        &v,
        '.',
    );
    let mut i: usize = 0;
    while i < n
        invariant
            n == v@.len(),
            v@ == value@,
            ok ==> forall|j: int| 0 <= j < i ==> is_id_char(#[trigger] v@[j]),
            !ok ==> !valid_id(value@),
            ok ==> (n > 0 && byte_len(value@) <= 64 && v@[0] != '.' && v@.last() != '.'
                && !has_doubled(v@, '.')),
        decreases n - i,
    {
        let c = v[i];
        if !(is_ascii_alnum_char(c) || c == '-' || c == '_' || c == '.') {
            ok = false;
        }
        i = i + 1;
    }
    if ok {
        Ok(())
    } else {
        Err(ParseError::InvalidId(String::from_str(value)))
    }
}

/// Checks an actor name.
pub fn validate_actor(value: &str) -> (r: Result<(), ParseError>)
    ensures
        r is Ok <==> valid_actor(value@),
        r matches Err(e) ==> e == ParseError::InvalidActor(e->InvalidActor_0)
            && e->InvalidActor_0@ == value@,
{
    let v = chars_of(value);
    let n = v.len();
    let mut ok = n > 0 && value.as_bytes().len() <= 128 && v[0] != '.' && v[n - 1] != '.' && !find_doubled(
        &v,
        '.',
    );
    let mut i: usize = 0;
    while i < n
        invariant
            n == v@.len(),
            v@ == value@,
            ok ==> forall|j: int| 0 <= j < i ==> is_actor_char(#[trigger] v@[j]),
            !ok ==> !valid_actor(value@),
            ok ==> (n > 0 && byte_len(value@) <= 128 && v@[0] != '.' && v@.last() != '.'
                && !has_doubled(v@, '.')),
        decreases n - i,
    {
        let c = v[i];
        if !(is_ascii_alnum_char(c) || c == '-' || c == '_' || c == '.' || c == '@' || c == '+') {
            ok = false;
        }
        i = i + 1;
    }
    if ok {
        Ok(())
    } else {
        Err(ParseError::InvalidActor(String::from_str(value)))
    }
}

fn is_forbidden_target_char_exec(c: char) -> (r: bool)
    ensures
        r == is_forbidden_target_char(c),
{
    let u = c as u32;
    u < 32 || u == 127 || c == ' ' || c == '~' || c == '^' || c == ':' || c == '?' || c == '*'
        || c == '[' || c == '\\'
}

/// Checks a target branch name.
pub fn validate_target(value: &str) -> (r: Result<(), ParseError>)
    ensures
        r is Ok <==> valid_target(value@),
        r matches Err(e) ==> e == ParseError::InvalidTarget(e->InvalidTarget_0)
            && e->InvalidTarget_0@ == value@,
{
    let v = chars_of(value);
    let n = v.len();
    let lock = n >= 5 && v[n - 5] == '.' && v[n - 4] == 'l' && v[n - 3] == 'o' && v[n - 2] == 'c'
        && v[n - 1] == 'k';
    proof {
        if n >= 5 {
            let t = v@.skip(n - 5);
            if t == seq!['.', 'l', 'o', 'c', 'k'] {
                assert(t[0] == '.' && t[1] == 'l' && t[2] == 'o' && t[3] == 'c' && t[4] == 'k');
            }
            if lock {
                assert(t =~= seq!['.', 'l', 'o', 'c', 'k']);
            }
        }
    }
    let mut ok = n > 0 && value.as_bytes().len() <= 255 && v[0] != '/' && v[n - 1] != '/' && v[n - 1] != '.'
        && !lock && !find_doubled(&v, '.') && !find_doubled(&v, '/');
    let mut i: usize = 0;
    while i < n
        invariant
            n == v@.len(),
            v@ == value@,
            ok ==> forall|j: int| 0 <= j < i ==> !is_forbidden_target_char(#[trigger] v@[j]),
            !ok ==> !valid_target(value@),
            ok ==> (n > 0 && byte_len(value@) <= 255 && v@[0] != '/' && v@.last() != '/'
                && v@.last() != '.' && !ends_with_lock(v@) && !has_doubled(v@, '.')
                && !has_doubled(v@, '/')),
        decreases n - i,
    {
        if is_forbidden_target_char_exec(v[i]) {
            ok = false;
        }
        i = i + 1;
    }
    if ok {
        Ok(())
    } else {
        Err(ParseError::InvalidTarget(String::from_str(value)))
    }
}

} // verus!
