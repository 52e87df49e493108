//! Verified text helpers: character access, ASCII lowercasing, substring
//! search, prefix/suffix tests and whitespace trimming.  Lowercasing is
//! ASCII-only: exactly the letters `A` through `Z` change, every other
//! character is kept, which is what the matching rules here need.

use vstd::prelude::*;

verus! {

/// ASCII lowercase of one character.
pub open spec fn lower_char(c: char) -> char {
    if c == 'A' {
        'a'
    } else if c == 'B' {
        'b'
    } else if c == 'C' {
        'c'
    } else if c == 'D' {
        'd'
    } else if c == 'E' {
        'e'
    } else if c == 'F' {
        'f'
    } else if c == 'G' {
        'g'
    } else if c == 'H' {
        'h'
    } else if c == 'I' {
        'i'
    } else if c == 'J' {
        'j'
    } else if c == 'K' {
        'k'
    } else if c == 'L' {
        'l'
    } else if c == 'M' {
        'm'
    } else if c == 'N' {
        'n'
    } else if c == 'O' {
        'o'
    } else if c == 'P' {
        'p'
    } else if c == 'Q' {
        'q'
    } else if c == 'R' {
        'r'
    } else if c == 'S' {
        's'
    } else if c == 'T' {
        't'
    } else if c == 'U' {
        'u'
    } else if c == 'V' {
        'v'
    } else if c == 'W' {
        'w'
    } else if c == 'X' {
        'x'
    } else if c == 'Y' {
        'y'
    } else if c == 'Z' {
        'z'
    } else {
        c
    }
}

/// ASCII lowercase of a character sequence.
pub open spec fn lower_seq(s: Seq<char>) -> Seq<char> {
    s.map_values(|c: char| lower_char(c))
}

/// Whether `n` occurs in `h` starting at position `i`.
pub open spec fn substring_at(h: Seq<char>, n: Seq<char>, i: int) -> bool {
    h.subrange(i, i + n.len()) == n
}

/// Whether `n` occurs anywhere in `h`.
pub open spec fn contains_seq(h: Seq<char>, n: Seq<char>) -> bool {
    exists|i: int| 0 <= i && i + n.len() <= h.len() && substring_at(h, n, i)
}

/// The whitespace characters trimmed from edges.
pub open spec fn is_space(c: char) -> bool {
    c == ' ' || c == '\t' || c == '\n' || c == '\r'
}

/// ASCII lowercase of one character.
pub fn lower_char_exec(c: char) -> (r: char)
    ensures
        r == lower_char(c),
{
    if c == 'A' {
        'a'
    } else if c == 'B' {
        'b'
    } else if c == 'C' {
        'c'
    } else if c == 'D' {
        'd'
    } else if c == 'E' {
        'e'
    } else if c == 'F' {
        'f'
    } else if c == 'G' {
        'g'
    } else if c == 'H' {
        'h'
    } else if c == 'I' {
        'i'
    } else if c == 'J' {
        'j'
    } else if c == 'K' {
        'k'
    } else if c == 'L' {
        'l'
    } else if c == 'M' {
        'm'
    } else if c == 'N' {
        'n'
    } else if c == 'O' {
        'o'
    } else if c == 'P' {
        'p'
    } else if c == 'Q' {
        'q'
    } else if c == 'R' {
        'r'
    } else if c == 'S' {
        's'
    } else if c == 'T' {
        't'
    } else if c == 'U' {
        'u'
    } else if c == 'V' {
        'v'
    } else if c == 'W' {
        'w'
    } else if c == 'X' {
        'x'
    } else if c == 'Y' {
        'y'
    } else if c == 'Z' {
        'z'
    } else {
        c
    }
}

/// Relies on String::push: appends one character to the string.
#[verifier::external_body]
pub fn push_char(s: &mut String, c: char)
    ensures
        final(s)@ == old(s)@.push(c),
{
    s.push(c);
}

/// Builds a string from characters.
pub fn string_of_chars(v: &Vec<char>) -> (r: String)
    ensures
        r@ == v@,
{
    let mut s = String::new();
    let mut i: usize = 0;
    while i < v.len()
        invariant
            i <= v@.len(),
            s@ == v@.take(i as int),
        decreases v@.len() - i,
    {
        push_char(&mut s, v[i]);
        proof {
            assert(s@ =~= v@.take(i + 1));
        }
        i += 1;
    }
    proof {
        assert(v@.take(v@.len() as int) =~= v@);
    }
    s
}

/// The characters of a string, in order.
pub fn chars_of(s: &str) -> (r: Vec<char>)
    ensures
        r@ == s@,
{
    let n = s.unicode_len();
    let mut v: Vec<char> = Vec::new();
    let mut i: usize = 0;
    while i < n
        invariant
            n == s@.len(),
            i <= n,
            v@ == s@.take(i as int),
        decreases n - i,
    {
        let c = s.get_char(i);
        v.push(c);
        proof {
            assert(v@ =~= s@.take(i + 1));
        }
        i += 1;
    }
    proof {
        assert(s@.take(n as int) =~= s@);
    }
    v
}

/// The ASCII-lowercased characters of a string.
pub fn lower_chars_of(s: &str) -> (r: Vec<char>)
    ensures
        r@ == lower_seq(s@),
{
    let cs = chars_of(s);
    let mut v: Vec<char> = Vec::new();
    let mut i: usize = 0;
    while i < cs.len()
        invariant
            cs@ == s@,
            i <= cs@.len(),
            v@.len() == i,
            forall|j: int| 0 <= j < i ==> #[trigger] v@[j] == lower_char(s@[j]),
        decreases cs@.len() - i,
    {
        v.push(lower_char_exec(cs[i]));
        i += 1;
    }
    proof {
        assert(v@ =~= lower_seq(s@));
    }
    v
}

/// Whether the needle occurs in the haystack, both given as characters.
pub fn contains_chars(h: &Vec<char>, n: &Vec<char>) -> (r: bool)
    ensures
        r == contains_seq(h@, n@),
{
    let hl: usize = h.len();
    let nl: usize = n.len();
    if nl == 0 {
        proof {
            assert(h@.subrange(0, 0) =~= n@);
            assert(substring_at(h@, n@, 0));
        }
        return true;
    }
    if nl > hl {
        return false;
    }
    let last: usize = hl - nl;
    let mut i: usize = 0;
    while i <= last
        invariant
            hl == h@.len(),
            nl == n@.len(),
            1 <= nl <= hl,
            last == hl - nl,
            i <= last,
            forall|k: int| 0 <= k < i ==> !substring_at(h@, n@, k),
        decreases last - i,
    {
        let mut j: usize = 0;
        let mut matched = true;
        while j < nl && matched
            invariant
                hl == h@.len(),
                nl == n@.len(),
                i + nl <= hl,
                j <= nl,
                matched ==> forall|k: int| 0 <= k < j ==> h@[i + k] == n@[k],
                !matched ==> !substring_at(h@, n@, i as int),
            decreases nl - j + (if matched {
                1int
            } else {
                0int
            }),
        {
            if h[i + j] != n[j] {
                proof {
                    assert(h@.subrange(i as int, i + n@.len())[j as int] != n@[j as int]);
                }
                matched = false;
            } else {
                j += 1;
            }
        }
        if matched {
            proof {
                assert(h@.subrange(i as int, i + n@.len()) =~= n@);
                assert(substring_at(h@, n@, i as int));
                assert(contains_seq(h@, n@));
            }
            return true;
        }
        if i == last {
            proof {
                assert forall|k: int| 0 <= k && k + n@.len() <= h@.len() implies !substring_at(
                    h@,
                    n@,
                    k,
                ) by {
                    assert(k <= last);
                }
            }
            return false;
        }
        i += 1;
    }
    proof {
        assert forall|k: int| 0 <= k && k + n@.len() <= h@.len() implies !substring_at(
            h@,
            n@,
            k,
        ) by {
            assert(k < i);
        }
    }
    false
}

/// The positions that survive trimming whitespace from both edges: the
/// subrange `[trim_start, trim_end)`.
pub open spec fn trim_start_of(s: Seq<char>) -> int
    decreases s.len(),
{
    if s.len() == 0 {
        0
    } else if is_space(s[0]) {
        1 + trim_start_of(s.drop_first())
    } else {
        0
    }
}

/// One past the last non-whitespace position, or `trim_start_of(s)` when the
/// tail is all whitespace.
pub open spec fn trim_end_of(s: Seq<char>) -> int
    decreases s.len(),
{
    if s.len() == 0 {
        0
    } else if is_space(s.last()) {
        trim_end_of(s.drop_last())
    } else {
        s.len() as int
    }
}

/// The sequence with whitespace removed from both edges.
pub open spec fn trim_seq(s: Seq<char>) -> Seq<char> {
    let a = trim_start_of(s);
    let b = trim_end_of(s);
    if a <= b {
        s.subrange(a, b)
    } else {
        Seq::empty()
    }
}

/// Leading whitespace ends at a position no later than the end.
proof fn lemma_trim_start_bounds(s: Seq<char>)
    ensures
        0 <= trim_start_of(s) <= s.len(),
        forall|j: int| 0 <= j < trim_start_of(s) ==> is_space(#[trigger] s[j]),
        trim_start_of(s) < s.len() ==> !is_space(s[trim_start_of(s)]),
    decreases s.len(),
{
    if s.len() > 0 && is_space(s[0]) {
        lemma_trim_start_bounds(s.drop_first());
        assert forall|j: int| 0 <= j < trim_start_of(s) implies is_space(#[trigger] s[j]) by {
            if j > 0 {
                assert(s.drop_first()[j - 1] == s[j]);
            }
        }
    }
}

/// Trailing whitespace starts no earlier than the beginning.
proof fn lemma_trim_end_bounds(s: Seq<char>)
    ensures
        0 <= trim_end_of(s) <= s.len(),
        forall|j: int| trim_end_of(s) <= j < s.len() ==> is_space(#[trigger] s[j]),
        trim_end_of(s) > 0 ==> !is_space(s[trim_end_of(s) - 1]),
    decreases s.len(),
{
    if s.len() > 0 && is_space(s.last()) {
        lemma_trim_end_bounds(s.drop_last());
        assert forall|j: int| trim_end_of(s) <= j < s.len() implies is_space(
            #[trigger] s[j],
        ) by {
            if j < s.len() - 1 {
                assert(s.drop_last()[j] == s[j]);
            }
        }
    }
}

/// The characters that survive trimming whitespace from both edges.
pub fn trim_chars(v: &Vec<char>) -> (r: Vec<char>)
    ensures
        r@ == trim_seq(v@),
{
    proof {
        lemma_trim_start_bounds(v@);
        lemma_trim_end_bounds(v@);
    }
    let mut a: usize = 0;
    while a < v.len() && is_space_exec(v[a])
        invariant
            a <= v@.len(),
            forall|j: int| 0 <= j < a ==> is_space(#[trigger] v@[j]),
            a <= trim_start_of(v@) || (a <= v@.len() && forall|j: int|
                0 <= j < trim_start_of(v@) ==> is_space(#[trigger] v@[j])),
        decreases v@.len() - a,
    {
        a += 1;
    }
    proof {
        lemma_trim_start_is(v@, a as int);
    }
    let mut b: usize = v.len();
    while b > a && is_space_exec(v[b - 1])
        invariant
            a <= b <= v@.len(),
            a == trim_start_of(v@),
            forall|j: int| b <= j < v@.len() ==> is_space(#[trigger] v@[j]),
        decreases b,
    {
        b -= 1;
    }
    proof {
        lemma_trim_end_is(v@, a as int, b as int);
    }
    let mut r: Vec<char> = Vec::new();
    let mut i: usize = a;
    while i < b
        invariant
            a <= i <= b <= v@.len(),
            r@ == v@.subrange(a as int, i as int),
        decreases b - i,
    {
        r.push(v[i]);
        proof {
            assert(r@ =~= v@.subrange(a as int, i + 1));
        }
        i += 1;
    }
    proof {
        assert(r@ =~= trim_seq(v@));
    }
    r
}

/// Whether one character counts as whitespace for trimming.
pub fn is_space_exec(c: char) -> (r: bool)
    ensures
        r == is_space(c),
{
    c == ' ' || c == '\t' || c == '\n' || c == '\r'
}

/// A scan that stopped at the first non-space position found it exactly.
proof fn lemma_trim_start_is(s: Seq<char>, a: int)
    requires
        0 <= a <= s.len(),
        forall|j: int| 0 <= j < a ==> is_space(#[trigger] s[j]),
        a < s.len() ==> !is_space(s[a]),
    ensures
        trim_start_of(s) == a,
    decreases s.len(),
{
    lemma_trim_start_bounds(s);
    if trim_start_of(s) < a {
        assert(is_space(s[trim_start_of(s)]));
    }
    if trim_start_of(s) > a {
        assert(a < s.len());
        assert(is_space(s[a]));
    }
}

/// A scan that stopped at the last non-space position found the end exactly.
proof fn lemma_trim_end_is(s: Seq<char>, a: int, b: int)
    requires
        0 <= a <= b <= s.len(),
        a == trim_start_of(s),
        forall|j: int| b <= j < s.len() ==> is_space(#[trigger] s[j]),
        b > a ==> !is_space(s[b - 1]),
    ensures
        b > a ==> trim_end_of(s) == b,
        b == a ==> trim_seq(s) == Seq::<char>::empty(),
{
    lemma_trim_start_bounds(s);
    lemma_trim_end_bounds(s);
    if b > a {
        if trim_end_of(s) < b {
            assert(is_space(s[b - 1]));
        }
        if trim_end_of(s) > b {
            assert(is_space(s[trim_end_of(s) - 1]));
        }
    } else {
        if trim_end_of(s) > a {
            assert(is_space(s[trim_end_of(s) - 1]));
        }
        assert(trim_seq(s) =~= Seq::<char>::empty());
    }
}

/// The characters of `v` from `a` (inclusive) to `b` (exclusive).
pub fn sub_vec(v: &Vec<char>, a: usize, b: usize) -> (r: Vec<char>)
    requires
        a <= b <= v@.len(),
    ensures
        r@ == v@.subrange(a as int, b as int),
{
    let mut r: Vec<char> = Vec::new();
    let mut i: usize = a;
    while i < b
        invariant
            a <= i <= b <= v@.len(),
            r@ == v@.subrange(a as int, i as int),
        decreases b - i,
    {
        r.push(v[i]);
        proof {
            assert(r@ =~= v@.subrange(a as int, i + 1));
        }
        i += 1;
    }
    r
}

/// Whether `h` starts with `n`.
pub fn starts_with_chars(h: &Vec<char>, n: &Vec<char>) -> (r: bool)
    ensures
        r == (n@.len() <= h@.len() && h@.subrange(0, n@.len() as int) == n@),
{
    if n.len() > h.len() {
        return false;
    }
    let mut j: usize = 0;
    while j < n.len()
        invariant
            n@.len() <= h@.len(),
            j <= n@.len(),
            forall|k: int| 0 <= k < j ==> h@[k] == n@[k],
        decreases n@.len() - j,
    {
        if h[j] != n[j] {
            return false;
        }
        j += 1;
    }
    proof {
        assert(h@.subrange(0, n@.len() as int) =~= n@);
    }
    true
}

/// Whether `h` ends with `n`.
pub fn ends_with_chars(h: &Vec<char>, n: &Vec<char>) -> (r: bool)
    ensures
        r == (n@.len() <= h@.len() && h@.subrange(
            h@.len() - n@.len(),
            h@.len() as int,
        ) == n@),
{
    let hl: usize = h.len();
    let nl: usize = n.len();
    if nl > hl {
        return false;
    }
    let off: usize = hl - nl;
    let mut j: usize = 0;
    while j < nl
        invariant
            hl == h@.len(),
            nl == n@.len(),
            nl <= hl,
            off == hl - nl,
            j <= nl,
            forall|k: int| 0 <= k < j ==> h@[off + k] == n@[k],
        decreases nl - j,
    {
        if h[off + j] != n[j] {
            return false;
        }
        j += 1;
    }
    proof {
        assert(h@.subrange(h@.len() - n@.len(), h@.len() as int) =~= n@);
    }
    true
}

} // verus!
