//! Character-level helpers on strings, with their specifications.

use vstd::prelude::*;

verus! {

broadcast use vstd::string::group_string_axioms;

/// The characters of `s`, in order.
pub fn chars_of(s: &str) -> (v: Vec<char>)
    ensures
        v@ == s@,
{
    let mut v: Vec<char> = Vec::new();
    for c in it: s.chars()
        invariant
            v@ == it.seq().take(it.index() as int),
    {
        v.push(c);
    }
    v
}


/// Strict lexicographic order on character sequences, comparing characters by
/// code point. On valid UTF-8 this is the byte order that `String`'s `Ord` uses.
pub open spec fn lex_lt(a: Seq<char>, b: Seq<char>) -> bool
    decreases a.len(),
{
    if b.len() == 0 {
        false
    } else if a.len() == 0 {
        true
    } else if a[0] != b[0] {
        (a[0] as u32) < (b[0] as u32)
    } else {
        lex_lt(a.drop_first(), b.drop_first())
    }
}

/// Non-strict lexicographic order.
pub open spec fn lex_le(a: Seq<char>, b: Seq<char>) -> bool {
    a == b || lex_lt(a, b)
}

pub proof fn lemma_lex_lt_irreflexive(a: Seq<char>)
    ensures
        !lex_lt(a, a),
    decreases a.len(),
{
    if a.len() > 0 {
        lemma_lex_lt_irreflexive(a.drop_first());
    }
}

pub proof fn lemma_lex_trichotomy(a: Seq<char>, b: Seq<char>)
    ensures
        a == b || lex_lt(a, b) || lex_lt(b, a),
        !(lex_lt(a, b) && lex_lt(b, a)),
    decreases a.len(),
{
    if a.len() > 0 && b.len() > 0 && a[0] == b[0] {
        lemma_lex_trichotomy(a.drop_first(), b.drop_first());
        if a.drop_first() == b.drop_first() {
            assert(a =~= seq![a[0]] + a.drop_first());
            assert(b =~= seq![b[0]] + b.drop_first());
        }
    } else if a.len() == 0 && b.len() == 0 {
        assert(a =~= b);
    } else if a.len() > 0 && b.len() > 0 {
        lemma_char_u32_injective(a[0], b[0]);
    }
}

/// Distinct characters have distinct code points.
pub proof fn lemma_char_u32_injective(c: char, d: char)
    ensures
        c != d ==> (c as u32) != (d as u32),
{
    vstd::utf8::char_u32_cast(c, c as u32);
    vstd::utf8::char_u32_cast(d, d as u32);
}

pub proof fn lemma_lex_lt_transitive(a: Seq<char>, b: Seq<char>, c: Seq<char>)
    requires
        lex_lt(a, b),
        lex_lt(b, c),
    ensures
        lex_lt(a, c),
    decreases a.len(),
{
    if a.len() > 0 && a[0] == b[0] && b[0] == c[0] {
        lemma_lex_lt_transitive(a.drop_first(), b.drop_first(), c.drop_first());
    }
}

/// `lex_le` is transitive.
pub proof fn lemma_lex_le_transitive(a: Seq<char>, b: Seq<char>, c: Seq<char>)
    requires
        lex_le(a, b),
        lex_le(b, c),
    ensures
        lex_le(a, c),
{
    if lex_lt(a, b) && lex_lt(b, c) {
        lemma_lex_lt_transitive(a, b, c);
    }
}

/// Strictly before and then not after is strictly before.
pub proof fn lemma_lex_lt_le_transitive(a: Seq<char>, b: Seq<char>, c: Seq<char>)
    requires
        lex_lt(a, b),
        lex_le(b, c),
    ensures
        lex_lt(a, c),
{
    if lex_lt(b, c) {
        lemma_lex_lt_transitive(a, b, c);
    }
}

/// What is not strictly before comes at or after.
pub proof fn lemma_lex_not_lt(a: Seq<char>, b: Seq<char>)
    ensures
        !lex_lt(a, b) <==> lex_le(b, a),
{
    lemma_lex_trichotomy(a, b);
    lemma_lex_lt_irreflexive(a);
}

proof fn lemma_lex_lt_skip(a: Seq<char>, b: Seq<char>, i: int)
    requires
        0 <= i <= a.len(),
        i <= b.len(),
        a.take(i) == b.take(i),
    ensures
        lex_lt(a, b) == lex_lt(a.skip(i), b.skip(i)),
    decreases i,
{
    if i > 0 {
        assert(a[0] == a.take(i)[0]);
        assert(b[0] == b.take(i)[0]);
        assert(a.drop_first().take(i - 1) =~= a.take(i).drop_first());
        assert(b.drop_first().take(i - 1) =~= b.take(i).drop_first());
        lemma_lex_lt_skip(a.drop_first(), b.drop_first(), i - 1);
        assert(a.drop_first().skip(i - 1) =~= a.skip(i));
        assert(b.drop_first().skip(i - 1) =~= b.skip(i));
    } else {
        assert(a.skip(0) =~= a);
        assert(b.skip(0) =~= b);
    }
}

/// Whether `a` comes strictly before `b` in lexicographic order.
pub fn chars_less(a: &[char], b: &[char]) -> (r: bool)
    ensures
        r == lex_lt(a@, b@),
{
    let mut i: usize = 0;
    while i < a.len() && i < b.len() && a[i] == b[i]
        invariant
            i <= a@.len(),
            i <= b@.len(),
            a@.take(i as int) == b@.take(i as int),
        decreases a.len() - i,
    {
        assert(a@.take(i + 1) =~= a@.take(i as int).push(a@[i as int]));
        assert(b@.take(i + 1) =~= b@.take(i as int).push(b@[i as int]));
        i = i + 1;
    }
    proof {
        lemma_lex_lt_skip(a@, b@, i as int);
    }
    if i == b.len() {
        false
    } else if i == a.len() {
        true
    } else {
        (a[i] as u32) < (b[i] as u32)
    }
}

/// Whether two character slices are equal.
pub fn chars_equal(a: &[char], b: &[char]) -> (r: bool)
    ensures
        r == (a@ == b@),
{
    if a.len() != b.len() {
        return false;
    }
    let mut i: usize = 0;
    while i < a.len()
        invariant
            a@.len() == b@.len(),
            i <= a@.len(),
            a@.take(i as int) == b@.take(i as int),
        decreases a.len() - i,
    {
        if a[i] != b[i] {
            return false;
        }
        assert(a@.take(i + 1) =~= a@.take(i as int).push(a@[i as int]));
        assert(b@.take(i + 1) =~= b@.take(i as int).push(b@[i as int]));
        i = i + 1;
    }
    assert(a@ =~= a@.take(i as int));
    assert(b@ =~= b@.take(i as int));
    true
}

/// Whether two strings are equal.
pub fn str_equal(a: &str, b: &str) -> (r: bool)
    ensures
        r == (a@ == b@),
{
    let va = chars_of(a);
    let vb = chars_of(b);
    chars_equal(va.as_slice(), vb.as_slice())
}

/// Whether `a` comes strictly before `b` in lexicographic order.
pub fn str_less(a: &str, b: &str) -> (r: bool)
    ensures
        r == lex_lt(a@, b@),
{
    let va = chars_of(a);
    let vb = chars_of(b);
    chars_less(va.as_slice(), vb.as_slice())
}


/// Whether `v`, from position `from` on, starts with `p`.
pub fn starts_with_at(v: &Vec<char>, from: usize, p: &str) -> (r: bool)
    requires
        from <= v@.len(),
    ensures
        r == p@.is_prefix_of(v@.skip(from as int)),
{
    let pv = chars_of(p);
    if pv.len() > v.len() - from {
        return false;
    }
    let mut i: usize = 0;
    while i < pv.len()
        invariant
            from + pv@.len() <= v@.len(),
            v@.len() <= usize::MAX,
            pv@ == p@,
            i <= pv@.len(),
            forall|j: int| 0 <= j < i ==> pv@[j] == v@[from + j],
        decreases pv.len() - i,
    {
        if pv[i] != v[from + i] {
            proof {
                if p@.is_prefix_of(v@.skip(from as int)) {
                    assert(v@.skip(from as int).subrange(0, p@.len() as int)[i as int] == v@[from
                        + i]);
                }
            }
            return false;
        }
        i = i + 1;
    }
    assert(pv@ =~= v@.skip(from as int).subrange(0, pv@.len() as int));
    true
}

/// Whether `v`, from position `from` on, is exactly `p`.
pub fn rest_equals(v: &Vec<char>, from: usize, p: &str) -> (r: bool)
    requires
        from <= v@.len(),
    ensures
        r == (v@.skip(from as int) == p@),
{
    let pv = chars_of(p);
    if pv.len() != v.len() - from {
        return false;
    }
    let r = starts_with_at(v, from, p);
    proof {
        if r {
            assert(v@.skip(from as int) =~= v@.skip(from as int).subrange(0, p@.len() as int));
        }
    }
    r
}

/// The first position at or after `from` that holds `c`.
pub fn find_from(v: &Vec<char>, from: usize, c: char) -> (r: Option<usize>)
    requires
        from <= v@.len(),
    ensures
        match r {
            Some(k) => from <= k < v@.len() && v@[k as int] == c && forall|j: int|
                from <= j < k ==> v@[j] != c,
            None => forall|j: int| from <= j < v@.len() ==> v@[j] != c,
        },
{
    let mut i: usize = from;
    while i < v.len()
        invariant
            from <= i <= v@.len(),
            forall|j: int| from <= j < i ==> v@[j] != c,
        decreases v.len() - i,
    {
        if v[i] == c {
            return Some(i);
        }
        i = i + 1;
    }
    None
}


/// Unicode `White_Space`, the characters that `char::is_whitespace` accepts.
pub open spec fn is_whitespace(c: char) -> bool {
    let u = c as u32;
    ||| (9 <= u <= 13)
    ||| u == 32
    ||| u == 0x85
    ||| u == 0xA0
    ||| u == 0x1680
    ||| (0x2000 <= u <= 0x200A)
    ||| u == 0x2028
    ||| u == 0x2029
    ||| u == 0x202F
    ||| u == 0x205F
    ||| u == 0x3000
}

/// Whether `c` is Unicode white space.
pub fn is_whitespace_char(c: char) -> (r: bool)
    ensures
        r == is_whitespace(c),
{
    let u = c as u32;
    (9 <= u && u <= 13) || u == 32 || u == 0x85 || u == 0xA0 || u == 0x1680 || (0x2000 <= u && u
        <= 0x200A) || u == 0x2028 || u == 0x2029 || u == 0x202F || u == 0x205F || u == 0x3000
}

/// `s[a..b]` is `s` with leading and trailing white space removed.
pub open spec fn is_trim_bounds(s: Seq<char>, a: int, b: int) -> bool {
    &&& 0 <= a <= b <= s.len()
    &&& forall|i: int| 0 <= i < a ==> is_whitespace(#[trigger] s[i])
    &&& forall|i: int| b <= i < s.len() ==> is_whitespace(#[trigger] s[i])
    &&& a < b ==> !is_whitespace(s[a]) && !is_whitespace(s[b - 1])
    &&& a == b ==> b == s.len()
}

/// `s` without leading and trailing white space (what `str::trim` returns).
pub open spec fn trim(s: Seq<char>) -> Seq<char> {
    let (a, b) = choose|a: int, b: int| is_trim_bounds(s, a, b);
    s.subrange(a, b)
}

/// The trim bounds of a sequence are unique.
pub proof fn lemma_trim_bounds_unique(s: Seq<char>, a1: int, b1: int, a2: int, b2: int)
    requires
        is_trim_bounds(s, a1, b1),
        is_trim_bounds(s, a2, b2),
    ensures
        a1 == a2 && b1 == b2,
{
    if a1 < a2 {
        if a1 < b1 {
            assert(is_whitespace(s[a1]));
        } else {
            assert(a2 <= s.len());
        }
    }
    if a2 < a1 {
        if a2 < b2 {
            assert(is_whitespace(s[a2]));
        } else {
            assert(a1 <= s.len());
        }
    }
    if b1 < b2 {
        if a2 < b2 {
            assert(is_whitespace(s[b2 - 1]));
        }
    }
    if b2 < b1 {
        if a1 < b1 {
            assert(is_whitespace(s[b1 - 1]));
        }
    }
}

/// `s` with leading and trailing white space removed.
pub fn trim_str(s: &str) -> (r: &str)
    ensures
        r@ == trim(s@),
{
    let v = chars_of(s);
    let n = v.len();
    let mut a: usize = 0;
    while a < n && is_whitespace_char(v[a])
        invariant
            a <= n,
            n == v@.len(),
            forall|i: int| 0 <= i < a ==> is_whitespace(#[trigger] v@[i]),
        decreases n - a,
    {
        a = a + 1;
    }
    let mut b: usize = n;
    while b > a && is_whitespace_char(v[b - 1])
        invariant
            a <= b <= n,
            n == v@.len(),
            forall|i: int| b <= i < n ==> is_whitespace(#[trigger] v@[i]),
        decreases b,
    {
        b = b - 1;
    }
    proof {
        assert(is_trim_bounds(s@, a as int, b as int));
        let (a2, b2) = choose|a2: int, b2: int| is_trim_bounds(s@, a2, b2);
        lemma_trim_bounds_unique(s@, a as int, b as int, a2, b2);
    }
    s.substring_char(a, b)
}

/// `m` occurs in `s`.
pub open spec fn has_substring(s: Seq<char>, m: Seq<char>) -> bool {
    exists|i: int| 0 <= i <= s.len() - m.len() && #[trigger] s.subrange(i, i + m.len()) == m
}

/// Whether `m` occurs in the characters `v`.
pub fn contains_str(v: &Vec<char>, m: &str) -> (r: bool)
    ensures
        r == has_substring(v@, m@),
{
    let mv = chars_of(m);
    if mv.len() > v.len() {
        return false;
    }
    let last = v.len() - mv.len();
    let mut i: usize = 0;
    loop
        invariant
            i <= last,
            last == v@.len() - m@.len(),
            mv@ == m@,
            forall|j: int| 0 <= j < i ==> #[trigger] v@.subrange(j, j + m@.len()) != m@,
        decreases last - i,
    {
        assert(v@.skip(i as int).subrange(0, m@.len() as int) =~= v@.subrange(i as int, i + m@.len()));
        if starts_with_at(v, i, m) {
            return true;
        }
        if i == last {
            return false;
        }
        i = i + 1;
    }
}

/// `n` spaces.
pub open spec fn spaces(n: nat) -> Seq<char> {
    Seq::new(n, |i: int| ' ')
}

/// `s` padded with spaces on the right to at least `w` characters, as the
/// `{:<w}` format does.
pub open spec fn pad_right(s: Seq<char>, w: nat) -> Seq<char> {
    if s.len() >= w {
        s
    } else {
        s + spaces((w - s.len()) as nat)
    }
}

/// Appends `s`, padded with spaces on the right to at least `w` characters.
pub fn push_padded(out: &mut String, s: &str, w: usize)
    ensures
        final(out)@ == old(out)@ + pad_right(s@, w as nat),
{
    out.append(s);
    let n = s.unicode_len();
    let mut k: usize = n;
    let ghost start = old(out)@ + s@;
    assert(spaces(0) =~= seq![]);
    assert(out@ =~= start + spaces(0));
    while k < w
        invariant
            n == s@.len(),
            out@ == start + spaces((k - n) as nat),
            n <= k,
            k == n || k <= w,
        decreases w - k,
    {
        out.append(" ");
        proof {
            reveal_strlit(" ");
            assert(spaces((k + 1 - n) as nat) =~= spaces((k - n) as nat).push(' '));
        }
        k = k + 1;
    }
    proof {
        if n >= w {
            assert(spaces(0) =~= seq![]);
            assert(out@ =~= old(out)@ + s@);
        } else {
            assert(k == w);
            assert(out@ == start + spaces((w - n) as nat));
            assert(out@ =~= old(out)@ + (s@ + spaces((w - n) as nat)));
        }
    }
}

} // verus!
