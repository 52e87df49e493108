//! The remote model strategy: everything the library decides about the
//! chat protocol — how answers are cleaned and parsed, how scores are read,
//! how structured-output support is negotiated, and how streamed fragments
//! are assembled.  The HTTP transport itself lives outside; the functions
//! here work on the bodies it hands back.

use vstd::prelude::*;
use crate::category::{CategoryKey, category_at, spec_key_str, spec_key_of_str, str_eq};
use crate::model::ModelOut;
use crate::scores::{Scores, scores_of_entries, SCORE_SCALE};
use crate::textmatch::{
    chars_of, contains_chars, contains_seq, ends_with_chars, lower_chars_of, lower_seq,
    starts_with_chars, string_of_chars, sub_vec, trim_chars, trim_seq,
};
use crate::json::{
    json_parse, json_get, json_as_str, json_as_bool, json_as_array, json_object_entries,
    json_value_text, jv_parse_of, jv_get_of, jv_str_of, jv_bool_of, jv_items_of, jv_entries_of,
    jv_text_of,
};

verus! {

/// How the remote strategy can fail on the library's side.
#[derive(Clone, Copy, Debug, PartialEq, Eq, Structural)]
pub enum RemoteError {
    EmptyModelName,
    ScoresMissing,
    ParseFailed,
    ModelNotFound,
    ImagesUnsupported,
    Canceled,
    StreamEnded,
    Other,
}

/// The characters a Korean-only text field keeps: Hangul, digits,
/// whitespace and basic punctuation; every other script is dropped.
pub open spec fn is_korean_keep(c: char) -> bool {
    let u = c as u32;
    (0x1100 <= u && u <= 0x11FF) || (0x3130 <= u && u <= 0x318F) || (0xAC00 <= u && u <= 0xD7A3)
        || (48 <= u && u <= 57) || c == ' ' || c == '\n' || c == '\t' || c == '.' || c == ','
        || c == '!' || c == '?' || c == ':' || c == ';' || c == '-' || c == '_' || c == '/'
        || c == '\\' || c == '(' || c == ')' || c == '[' || c == ']' || c == '{' || c == '}'
        || c == '"' || c == '\'' || c == '“' || c == '”' || c == '’' || c == '‘' || c == '·'
        || c == '…' || c == '—'
}

/// The kept characters of a sequence, in order.
pub open spec fn keep_filter(s: Seq<char>) -> Seq<char>
    decreases s.len(),
{
    if s.len() == 0 {
        Seq::empty()
    } else if is_korean_keep(s.last()) {
        keep_filter(s.drop_last()).push(s.last())
    } else {
        keep_filter(s.drop_last())
    }
}

/// What sanitizing a text field yields: the kept characters, trimmed.
pub open spec fn spec_sanitize(s: Seq<char>) -> Seq<char> {
    trim_seq(keep_filter(s))
}

/// Whether one character survives sanitizing.
fn is_korean_keep_exec(c: char) -> (r: bool)
    ensures
        r == is_korean_keep(c),
{
    let u = c as u32;
    (0x1100 <= u && u <= 0x11FF) || (0x3130 <= u && u <= 0x318F) || (0xAC00 <= u && u <= 0xD7A3)
        || (48 <= u && u <= 57) || c == ' ' || c == '\n' || c == '\t' || c == '.' || c == ','
        || c == '!' || c == '?' || c == ':' || c == ';' || c == '-' || c == '_' || c == '/'
        || c == '\\' || c == '(' || c == ')' || c == '[' || c == ']' || c == '{' || c == '}'
        || c == '"' || c == '\'' || c == '“' || c == '”' || c == '’' || c == '‘' || c == '·'
        || c == '…' || c == '—'
}

/// Strips every character outside the Korean-only keep set and trims
/// whitespace from the edges.
pub fn sanitize_korean_only(s: &str) -> (r: String)
    ensures
        r@ == spec_sanitize(s@),
{
    let cs = chars_of(s);
    let mut kept: Vec<char> = Vec::new();
    let mut i: usize = 0;
    while i < cs.len()
        invariant
            cs@ == s@,
            i <= cs@.len(),
            kept@ == keep_filter(s@.take(i as int)),
        decreases cs@.len() - i,
    {
        proof {
            assert(s@.take(i + 1).drop_last() =~= s@.take(i as int));
            assert(s@.take(i + 1).last() == s@[i as int]);
        }
        if is_korean_keep_exec(cs[i]) {
            kept.push(cs[i]);
        }
        i += 1;
    }
    proof {
        assert(s@.take(s@.len() as int) =~= s@);
    }
    let trimmed = trim_chars(&kept);
    string_of_chars(&trimmed)
}

/// Ten to the `n`-th power.
pub open spec fn pow10(n: nat) -> nat
    decreases n,
{
    if n == 0 {
        1
    } else {
        10 * pow10((n - 1) as nat)
    }
}

/// Whether a character is a decimal digit.
pub open spec fn is_digit(c: char) -> bool {
    48 <= c as u32 && c as u32 <= 57
}

/// The numeric value of one digit character.
pub open spec fn digit_val(c: char) -> nat {
    (c as u32 - 48) as nat
}

/// The value of a digit string.
pub open spec fn digits_val(s: Seq<char>) -> nat
    decreases s.len(),
{
    if s.len() == 0 {
        0
    } else {
        digits_val(s.drop_last()) * 10 + digit_val(s.last())
    }
}

/// The position of the first `.` in `s`, or the length when there is none.
pub open spec fn first_dot(s: Seq<char>, i: int) -> int
    decreases s.len() - i,
{
    if i < 0 || i >= s.len() {
        s.len() as int
    } else if s[i] == '.' {
        i
    } else {
        first_dot(s, i + 1)
    }
}

/// Whether a sequence is all digits.
pub open spec fn all_digits(s: Seq<char>) -> bool {
    forall|j: int| 0 <= j < s.len() ==> is_digit(#[trigger] s[j])
}

/// A well-formed non-negative decimal: one to nineteen integer digits, then
/// optionally a dot and fraction digits.
pub open spec fn decimal_well_formed(s: Seq<char>) -> bool {
    let d = first_dot(s, 0);
    let ip = s.subrange(0, d);
    let fp = if d < s.len() {
        s.subrange(d + 1, s.len() as int)
    } else {
        Seq::empty()
    };
    1 <= ip.len() <= 19 && all_digits(ip) && all_digits(fp) && first_dot(s, d + 1) == s.len()
}

/// The value of a well-formed decimal in millionths, truncated to six
/// fraction digits and saturated at the largest representable score.
pub open spec fn spec_decimal_micro_value(s: Seq<char>) -> int {
    let d = first_dot(s, 0);
    let ip = s.subrange(0, d);
    let fp = if d < s.len() {
        s.subrange(d + 1, s.len() as int)
    } else {
        Seq::empty()
    };
    let fp6 = if fp.len() > 6 {
        fp.subrange(0, 6)
    } else {
        fp
    };
    let v = digits_val(ip) * 1000000 + digits_val(fp6) * pow10((6 - fp6.len()) as nat);
    if v > u64::MAX {
        u64::MAX as int
    } else {
        v as int
    }
}

/// What parsing a score text yields: the value in millionths for a
/// well-formed decimal, zero for a negative number whose body is well
/// formed, nothing for anything else.
pub open spec fn spec_parse_micro(s: Seq<char>) -> Option<u64> {
    if s.len() > 0 && s[0] == '-' {
        if decimal_well_formed(s.drop_first()) {
            Some(0u64)
        } else {
            None
        }
    } else if decimal_well_formed(s) {
        Some(spec_decimal_micro_value(s) as u64)
    } else {
        None
    }
}

/// The value of a digit string is below ten to its length.
proof fn lemma_digits_val_bound(s: Seq<char>)
    requires
        all_digits(s),
    ensures
        digits_val(s) < pow10(s.len() as nat),
    decreases s.len(),
{
    if s.len() > 0 {
        assert forall|j: int| 0 <= j < s.drop_last().len() implies is_digit(
            #[trigger] s.drop_last()[j],
        ) by {
            assert(s.drop_last()[j] == s[j]);
        }
        lemma_digits_val_bound(s.drop_last());
        assert(is_digit(s.last()));
    }
}

/// Parses a score text as a non-negative decimal into millionths; negative
/// numbers clamp to zero, and anything malformed is rejected.
pub fn parse_score_micro(s: &str) -> (r: Option<u64>)
    ensures
        r == spec_parse_micro(s@),
{
    let cs = chars_of(s);
    if cs.len() > 0 && cs[0] == '-' {
        let mut rest: Vec<char> = Vec::new();
        let mut i: usize = 1;
        while i < cs.len()
            invariant
                cs@ == s@,
                1 <= i <= cs@.len(),
                rest@ == s@.drop_first().take(i - 1),
            decreases cs@.len() - i,
        {
            rest.push(cs[i]);
            proof {
                assert(rest@ =~= s@.drop_first().take(i as int));
            }
            i += 1;
        }
        proof {
            assert(s@.drop_first().take(s@.drop_first().len() as int) =~= s@.drop_first());
        }
        if decimal_micro_of_digits(&rest).is_some() {
            return Some(0);
        } else {
            return None;
        }
    }
    match decimal_micro_of_digits(&cs) {
        Some(v) => Some(v),
        None => None,
    }
}

/// Parses the body of a decimal (no sign) into millionths.
fn decimal_micro_of_digits(cs: &Vec<char>) -> (r: Option<u64>)
    ensures
        decimal_well_formed(cs@) ==> r == Some(spec_decimal_micro_value(cs@) as u64),
        !decimal_well_formed(cs@) ==> r is None,
{
    let ghost s = cs@;
    // Find the dot and check every other character is a digit.
    let mut dot: usize = cs.len();
    let mut i: usize = 0;
    let mut seen_dot = false;
    while i < cs.len()
        invariant
            s == cs@,
            i <= cs@.len(),
            dot <= cs@.len(),
            !seen_dot ==> dot == cs@.len() && (forall|j: int| 0 <= j < i ==> cs@[j] != '.'),
            seen_dot ==> dot < i && cs@[dot as int] == '.' && first_dot(cs@, 0) == dot as int
                && (forall|j: int| dot < j < i ==> cs@[j] != '.'),
            forall|j: int| 0 <= j < i && j != dot as int ==> is_digit(#[trigger] cs@[j]),
        decreases cs@.len() - i,
    {
        let c = cs[i];
        let cu = c as u32;
        if c == '.' {
            if seen_dot {
                proof {
                    lemma_first_dot_at(cs@, dot + 1, i as int);
                    lemma_wf_needs_one_dot(cs@, dot as int, i as int);
                }
                return None;
            }
            dot = i;
            seen_dot = true;
            proof {
                lemma_first_dot_at(cs@, 0, i as int);
            }
        } else if !(48 <= cu && cu <= 57) {
            proof {
                if seen_dot {
                    lemma_first_dot_at(cs@, 0, dot as int);
                }
                lemma_not_digit_not_wf(cs@, i as int, dot as int, seen_dot);
            }
            return None;
        }
        i += 1;
    }
    proof {
        if !seen_dot {
            lemma_first_dot_none(cs@, 0);
        } else {
            lemma_first_dot_none(cs@, dot + 1);
        }
    }
    let ip_len: usize = dot;
    if ip_len < 1 || ip_len > 19 {
        proof {
            assert(s.subrange(0, first_dot(s, 0)).len() == dot);
        }
        return None;
    }
    // The input is now known to be well formed.
    let ghost ip = s.subrange(0, dot as int);
    let ghost fp = if (dot as int) < s.len() {
        s.subrange(dot as int + 1, s.len() as int)
    } else {
        Seq::<char>::empty()
    };
    proof {
        assert forall|j: int| 0 <= j < ip.len() implies is_digit(#[trigger] ip[j]) by {
            assert(ip[j] == s[j]);
        }
        assert forall|j: int| 0 <= j < fp.len() implies is_digit(#[trigger] fp[j]) by {
            assert(fp[j] == s[dot + 1 + j]);
        }
        assert(decimal_well_formed(s));
    }
    // Integer part.
    let mut v: u64 = 0;
    let mut k: usize = 0;
    proof {
        assert(s.subrange(0, 0) =~= Seq::<char>::empty());
        lemma_pow10_concrete();
    }
    while k < ip_len
        invariant
            s == cs@,
            1 <= ip_len <= 19,
            ip_len <= cs@.len(),
            k <= ip_len,
            forall|j: int| 0 <= j < ip_len ==> is_digit(#[trigger] cs@[j]),
            (v as nat) == digits_val(s.subrange(0, k as int)),
            (v as nat) < pow10(k as nat),
            pow10(19) == 10000000000000000000,
        decreases ip_len - k,
    {
        let c = cs[k];
        let d: u64 = (c as u32 - 48) as u64;
        proof {
            assert(s.subrange(0, k + 1).drop_last() =~= s.subrange(0, k as int));
            assert(s.subrange(0, k + 1).last() == s[k as int]);
            assert(pow10((k + 1) as nat) == 10 * pow10(k as nat));
            lemma_pow10_mono(k as nat + 1, 19);
            lemma_pow10_concrete();
        }
        v = v * 10 + d;
        k += 1;
    }
    // Fraction part: the first six digits, padded with zeros to six.
    let mut frac: u64 = 0;
    let mut taken: usize = 0;
    let mut k2: usize = if seen_dot {
        dot + 1
    } else {
        cs.len()
    };
    proof {
        assert(fp.subrange(0, 0) =~= Seq::<char>::empty());
        lemma_pow10_concrete();
    }
    while k2 < cs.len() && taken < 6
        invariant
            s == cs@,
            dot <= cs@.len(),
            seen_dot ==> dot < cs@.len() && k2 == dot + 1 + taken,
            !seen_dot ==> k2 == cs@.len() && taken == 0,
            fp == (if (dot as int) < s.len() {
                s.subrange(dot as int + 1, s.len() as int)
            } else {
                Seq::<char>::empty()
            }),
            seen_dot ==> fp.len() == cs@.len() - dot - 1,
            !seen_dot ==> fp.len() == 0,
            taken <= 6,
            taken <= fp.len(),
            forall|j: int| 0 <= j < fp.len() ==> is_digit(#[trigger] fp[j]),
            (frac as nat) == digits_val(fp.subrange(0, taken as int)),
            (frac as nat) < pow10(taken as nat),
        decreases cs@.len() - k2,
    {
        let c = cs[k2];
        proof {
            assert(fp[taken as int] == cs@[k2 as int]);
            assert(is_digit(fp[taken as int]));
        }
        let d: u64 = (c as u32 - 48) as u64;
        proof {
            assert(fp.subrange(0, taken + 1).drop_last() =~= fp.subrange(0, taken as int));
            assert(fp.subrange(0, taken + 1).last() == fp[taken as int]);
            assert(pow10((taken + 1) as nat) == 10 * pow10(taken as nat));
            lemma_pow10_concrete();
            lemma_pow10_mono(taken as nat + 1, 6);
        }
        frac = frac * 10 + d;
        taken += 1;
        k2 += 1;
    }
    let ghost fp6 = if fp.len() > 6 {
        fp.subrange(0, 6)
    } else {
        fp
    };
    proof {
        lemma_pow10_concrete();
        lemma_pow10_mono(taken as nat, 6);
        if taken < 6 {
            assert(k2 == cs@.len());
            assert(taken == fp.len());
            assert(fp.subrange(0, taken as int) =~= fp6);
        } else {
            if fp.len() > 6 {
                assert(fp.subrange(0, taken as int) =~= fp6);
            } else {
                assert(fp.subrange(0, taken as int) =~= fp6);
            }
        }
    }
    // Pad to six fraction digits.
    let mut pad: usize = taken;
    proof {
        assert(pow10(0) == 1);
        assert(digits_val(fp.subrange(0, taken as int)) == digits_val(fp6));
        assert(digits_val(fp6) * pow10((pad - taken) as nat) == digits_val(fp6))
            by (nonlinear_arith)
            requires
                pow10((pad - taken) as nat) == 1,
        ;
        assert((frac as nat) == digits_val(fp6) * pow10((pad - taken) as nat));
    }
    while pad < 6
        invariant
            taken <= pad <= 6,
            (frac as nat) == digits_val(fp6) * pow10((pad - taken) as nat),
            (frac as nat) < pow10(pad as nat),
        decreases 6 - pad,
    {
        proof {
            lemma_pow10_concrete();
            assert(pow10((pad + 1 - taken) as nat) == 10 * pow10((pad - taken) as nat));
            assert(pow10((pad + 1) as nat) == 10 * pow10(pad as nat));
            assert(digits_val(fp6) * pow10((pad - taken) as nat) * 10 == digits_val(fp6) * pow10(
                (pad + 1 - taken) as nat,
            )) by (nonlinear_arith)
                requires
                    pow10((pad + 1 - taken) as nat) == 10 * pow10((pad - taken) as nat),
            ;
            lemma_pow10_mono(pad as nat, 6);
        }
        frac = frac * 10 + 0;
        pad += 1;
    }
    proof {
        lemma_pow10_concrete();
        assert((6 - pad) + (pad - taken) == 6 - taken);
        assert((frac as nat) == digits_val(fp6) * pow10((6 - taken) as nat));
        assert(fp6.len() == taken);
    }
    let total: u128 = v as u128 * 1000000u128 + frac as u128;
    let out: u64 = if total > 0xFFFFFFFFFFFFFFFFu128 {
        0xFFFFFFFFFFFFFFFFu64
    } else {
        total as u64
    };
    proof {
        assert(ip =~= s.subrange(0, first_dot(s, 0)));
    }
    Some(out)
}

/// Powers of ten up to the twentieth, written out.
proof fn lemma_pow10_concrete()
    ensures
        pow10(0) == 1,
        pow10(1) == 10,
        pow10(2) == 100,
        pow10(3) == 1000,
        pow10(4) == 10000,
        pow10(5) == 100000,
        pow10(6) == 1000000,
        pow10(19) == 10000000000000000000,
{
    reveal_with_fuel(pow10, 21);
}

/// Ten to a power never shrinks as the power grows.
proof fn lemma_pow10_mono(a: nat, b: nat)
    requires
        a <= b,
    ensures
        pow10(a) <= pow10(b),
    decreases b,
{
    if a < b {
        lemma_pow10_mono(a, (b - 1) as nat);
    }
}

/// Scanning from `i` finds the dot at `p` when nothing before it is one.
proof fn lemma_first_dot_at(s: Seq<char>, i: int, p: int)
    requires
        0 <= i <= p < s.len(),
        s[p] == '.',
        forall|j: int| i <= j < p ==> s[j] != '.',
    ensures
        first_dot(s, i) == p,
    decreases p - i,
{
    if i < p {
        lemma_first_dot_at(s, i + 1, p);
    }
}

/// Scanning from a position past every dot runs to the end.
proof fn lemma_first_dot_none(s: Seq<char>, i: int)
    requires
        0 <= i,
        forall|j: int| i <= j < s.len() ==> s[j] != '.',
    ensures
        first_dot(s, i) == s.len(),
    decreases s.len() - i,
{
    if i < s.len() {
        lemma_first_dot_none(s, i + 1);
    }
}

/// A second dot refutes well-formedness.
proof fn lemma_wf_needs_one_dot(s: Seq<char>, dot: int, i: int)
    requires
        0 <= dot < i < s.len(),
        first_dot(s, 0) == dot,
        s[i] == '.',
        first_dot(s, dot + 1) == i,
    ensures
        !decimal_well_formed(s),
{
}

/// A character that is neither a digit nor the first dot refutes
/// well-formedness.
proof fn lemma_not_digit_not_wf(s: Seq<char>, i: int, dot: int, seen_dot: bool)
    requires
        0 <= i < s.len(),
        !is_digit(s[i]),
        s[i] != '.',
        seen_dot ==> 0 <= dot < i && s[dot] == '.' && first_dot(s, 0) == dot,
        !seen_dot ==> forall|j: int| 0 <= j < i ==> s[j] != '.',
    ensures
        !decimal_well_formed(s),
{
    let d = first_dot(s, 0);
    lemma_first_dot_props(s, 0);
    if decimal_well_formed(s) {
        if i < d {
            assert(s.subrange(0, d)[i] == s[i]);
        } else if i == d {
            if d < s.len() {
                assert(s[d] == '.');
            } else {
                assert(s.subrange(0, d)[i] == s[i]);
            }
        } else {
            assert(d < s.len());
            assert(s.subrange(d + 1, s.len() as int)[i - d - 1] == s[i]);
        }
    }
}

/// The first-dot scan stays within bounds and lands on a dot when inside.
proof fn lemma_first_dot_props(s: Seq<char>, i: int)
    requires
        0 <= i,
    ensures
        first_dot(s, i) >= i || i >= s.len(),
        first_dot(s, i) <= s.len(),
        first_dot(s, i) < s.len() ==> s[first_dot(s, i)] == '.',
        forall|j: int| i <= j < first_dot(s, i) && j < s.len() ==> s[j] != '.',
    decreases s.len() - i,
{
    if i < s.len() && s[i] != '.' {
        lemma_first_dot_props(s, i + 1);
    }
}


/// What stripping code fences yields: the trimmed text, less one leading
/// fence marker and one trailing one, trimmed again.
pub open spec fn spec_strip_fences(s: Seq<char>) -> Seq<char> {
    let t = trim_seq(s);
    let t2 = if t.len() >= 7 && t.subrange(0, 7) == "```json"@ {
        t.subrange(7, t.len() as int)
    } else if t.len() >= 7 && t.subrange(0, 7) == "```JSON"@ {
        t.subrange(7, t.len() as int)
    } else if t.len() >= 3 && t.subrange(0, 3) == "```"@ {
        t.subrange(3, t.len() as int)
    } else {
        t
    };
    let t3 = if t2.len() >= 3 && t2.subrange(t2.len() - 3, t2.len() as int) == "```"@ {
        t2.subrange(0, t2.len() - 3)
    } else {
        t2
    };
    trim_seq(t3)
}

/// Strips a leading and a trailing code-fence marker, with the surrounding
/// whitespace, from a model answer.
pub fn strip_code_fences(s: &str) -> (r: String)
    ensures
        r@ == spec_strip_fences(s@),
{
    proof {
        reveal_strlit("```json");
        reveal_strlit("```JSON");
        reveal_strlit("```");
        assert("```json"@.len() == 7);
        assert("```JSON"@.len() == 7);
        assert("```"@.len() == 3);
    }
    let cs = chars_of(s);
    let t = trim_chars(&cs);
    let fence_json = chars_of("```json");
    let fence_json_upper = chars_of("```JSON");
    let fence = chars_of("```");
    let t2 = if starts_with_chars(&t, &fence_json) {
        sub_vec(&t, 7, t.len())
    } else if starts_with_chars(&t, &fence_json_upper) {
        sub_vec(&t, 7, t.len())
    } else if starts_with_chars(&t, &fence) {
        sub_vec(&t, 3, t.len())
    } else {
        t
    };
    let t3 = if ends_with_chars(&t2, &fence) {
        sub_vec(&t2, 0, t2.len() - 3)
    } else {
        t2
    };
    let out = trim_chars(&t3);
    string_of_chars(&out)
}

/// The balanced-object scan: from position `i`, with the first `{` seen at
/// `start` (negative when none yet) and `depth` open braces, the first
/// position where the depth returns to zero closes the first object.
pub open spec fn scan_obj(s: Seq<char>, i: int, start: int, depth: int) -> Option<(int, int)>
    decreases s.len() - i,
{
    if i < 0 || i >= s.len() {
        None
    } else if s[i] == '{' {
        scan_obj(s, i + 1, if start < 0 {
            i
        } else {
            start
        }, depth + 1)
    } else if s[i] == '}' && start >= 0 {
        if depth == 1 {
            Some((start, i))
        } else {
            scan_obj(s, i + 1, start, depth - 1)
        }
    } else {
        scan_obj(s, i + 1, start, depth)
    }
}

/// The first balanced `{...}` object in the text, if any.
pub open spec fn spec_extract_obj(s: Seq<char>) -> Option<Seq<char>> {
    match scan_obj(s, 0, -1, 0) {
        Some((a, b)) => Some(s.subrange(a, b + 1)),
        None => None,
    }
}

/// Finds the first balanced `{...}` object in a model answer.
pub fn extract_first_json_object(s: &str) -> (r: Option<String>)
    ensures
        match r {
            Some(o) => spec_extract_obj(s@) == Some(o@),
            None => spec_extract_obj(s@) is None,
        },
{
    let cs = chars_of(s);
    let mut i: usize = 0;
    let mut start: usize = 0;
    let mut found = false;
    let mut depth: usize = 0;
    while i < cs.len()
        invariant
            cs@ == s@,
            i <= cs@.len(),
            found ==> start < i && depth >= 1 && depth <= i,
            !found ==> depth == 0,
            scan_obj(s@, 0, -1, 0) == scan_obj(
                s@,
                i as int,
                if found {
                    start as int
                } else {
                    -1
                },
                depth as int,
            ),
        decreases cs@.len() - i,
    {
        let c = cs[i];
        if c == '{' {
            if !found {
                start = i;
                found = true;
            }
            depth += 1;
        } else if c == '}' && found {
            if depth == 1 {
                let obj = sub_vec(&cs, start, i + 1);
                return Some(string_of_chars(&obj));
            }
            depth -= 1;
        }
        i += 1;
    }
    None
}

/// What a remote answer document carries, as plain values: the category
/// text, the score entries with their numeric literals, and the Korean text
/// fields, each present only where the answer had it.
#[derive(Clone, Debug)]
pub struct RawDoc {
    pub category: Option<String>,
    pub scores: Option<Vec<(String, String)>>,
    pub tags: Option<Vec<String>>,
    pub caption: Option<String>,
    pub text_in_image: Option<String>,
}

/// The text a string member of the answer holds under a key, if both the
/// member and its text exist.
pub open spec fn spec_member_str(v: serde_json::Value, key: Seq<char>) -> Option<Seq<char>> {
    match jv_get_of(v, key) {
        Some(m) => jv_str_of(m),
        None => None,
    }
}

/// The entries of the answer's scores object, if it has one.
pub open spec fn spec_scores_member(v: serde_json::Value) -> Option<
    Seq<(Seq<char>, serde_json::Value)>,
> {
    match jv_get_of(v, "scores"@) {
        Some(sv) => jv_entries_of(sv),
        None => None,
    }
}

/// The elements of the answer's tag array, if it has one.
pub open spec fn spec_tags_member(v: serde_json::Value) -> Option<Seq<serde_json::Value>> {
    match jv_get_of(v, "tags_ko"@) {
        Some(av) => jv_items_of(av),
        None => None,
    }
}

/// The texts of the string elements among an array's items, in order; other
/// items are dropped.
pub open spec fn spec_str_items(items: Seq<serde_json::Value>) -> Seq<Seq<char>>
    decreases items.len(),
{
    if items.len() == 0 {
        Seq::empty()
    } else {
        match jv_str_of(items.last()) {
            Some(s) => spec_str_items(items.drop_last()).push(s),
            None => spec_str_items(items.drop_last()),
        }
    }
}

/// Whether an optional owned string carries exactly the named optional text.
pub open spec fn opt_text_is(o: Option<String>, g: Option<Seq<char>>) -> bool {
    match o {
        Some(s) => g == Some(s@),
        None => g is None,
    }
}

/// How a parsed answer value determines the plain document: each field is
/// present exactly when the answer carries it, with the member's text, the
/// score entries' literals, and the string tags in order.
pub open spec fn spec_doc_rel(v: serde_json::Value, doc: RawDoc) -> bool {
    &&& opt_text_is(doc.category, spec_member_str(v, "category"@))
    &&& (match doc.scores {
        Some(es) => spec_scores_member(v) matches Some(g) && es@.len() == g.len() && (forall|
            i: int,
        |
            0 <= i < g.len() ==> (#[trigger] es@[i]).0@ == g[i].0 && es@[i].1@ == jv_text_of(
                g[i].1,
            )),
        None => spec_scores_member(v) is None,
    })
    &&& (match doc.tags {
        Some(ts) => spec_tags_member(v) matches Some(g) && ts@.len() == spec_str_items(g).len()
            && (forall|i: int|
            0 <= i < ts@.len() ==> (#[trigger] ts@[i])@ == spec_str_items(g)[i]),
        None => spec_tags_member(v) is None,
    })
    &&& opt_text_is(doc.caption, spec_member_str(v, "caption_ko"@))
    &&& opt_text_is(doc.text_in_image, spec_member_str(v, "text_in_image_ko"@))
}

/// Reads a remote answer into a plain document: parses the JSON text and
/// hands each recognized field out as plain values, exactly as the parsed
/// answer carries them.
pub fn extract_doc(content: &str) -> (r: Option<RawDoc>)
    ensures
        match r {
            Some(doc) => jv_parse_of(content@) matches Some(v) && spec_doc_rel(v, doc),
            None => jv_parse_of(content@) is None,
        },
{
    let v = match json_parse(content) {
        Some(v) => v,
        None => {
            return None;
        }
    };
    let category = match json_get(&v, "category") {
        Some(c) => json_as_str(c),
        None => None,
    };
    let scores = match json_get(&v, "scores") {
        Some(sv) => match json_object_entries(sv) {
            Some(entries) => {
                let ghost g: Seq<(Seq<char>, serde_json::Value)> =
                    spec_scores_member(v).unwrap();
                let mut out: Vec<(String, String)> = Vec::new();
                let mut i: usize = 0;
                while i < entries.len()
                    invariant
                        i <= entries@.len(),
                        entries@.len() == g.len(),
                        forall|k: int|
                            0 <= k < g.len() ==> (#[trigger] entries@[k]).0@ == g[k].0
                                && entries@[k].1 == g[k].1,
                        out@.len() == i,
                        forall|k: int|
                            0 <= k < i ==> (#[trigger] out@[k]).0@ == g[k].0 && out@[k].1@
                                == jv_text_of(g[k].1),
                    decreases entries@.len() - i,
                {
                    let key = entries[i].0.clone();
                    let text = json_value_text(&entries[i].1);
                    out.push((key, text));
                    i += 1;
                }
                Some(out)
            }
            None => None,
        },
        None => None,
    };
    let tags = match json_get(&v, "tags_ko") {
        Some(av) => match json_as_array(av) {
            Some(arr) => {
                let ghost g: Seq<serde_json::Value> = spec_tags_member(v).unwrap();
                let mut out: Vec<String> = Vec::new();
                let mut i: usize = 0;
                while i < arr.len()
                    invariant
                        i <= arr@.len(),
                        arr@ == g,
                        out@.len() == spec_str_items(g.take(i as int)).len(),
                        forall|k: int|
                            0 <= k < out@.len() ==> (#[trigger] out@[k])@ == spec_str_items(
                                g.take(i as int),
                            )[k],
                    decreases arr@.len() - i,
                {
                    proof {
                        assert(g.take(i + 1).drop_last() =~= g.take(i as int));
                        assert(g.take(i + 1).last() == g[i as int]);
                    }
                    match json_as_str(&arr[i]) {
                        Some(t) => out.push(t),
                        None => (),
                    }
                    i += 1;
                }
                proof {
                    assert(g.take(g.len() as int) =~= g);
                }
                Some(out)
            }
            None => None,
        },
        None => None,
    };
    let caption = match json_get(&v, "caption_ko") {
        Some(c) => json_as_str(c),
        None => None,
    };
    let text_in_image = match json_get(&v, "text_in_image_ko") {
        Some(c) => json_as_str(c),
        None => None,
    };
    Some(RawDoc { category, scores, tags, caption, text_in_image })
}

/// The score entries whose numeric literal parses, each with its value in
/// millionths; the others are dropped.
pub open spec fn spec_kept_entries(entries: Seq<(String, String)>) -> Seq<(String, u64)>
    decreases entries.len(),
{
    if entries.len() == 0 {
        Seq::empty()
    } else {
        match spec_parse_micro(entries.last().1@) {
            Some(v) => spec_kept_entries(entries.drop_last()).push((entries.last().0, v)),
            None => spec_kept_entries(entries.drop_last()),
        }
    }
}

/// Keeps the score entries whose numeric literal parses.
fn kept_entries(entries: &Vec<(String, String)>) -> (r: Vec<(String, u64)>)
    ensures
        r@ == spec_kept_entries(entries@),
{
    let mut out: Vec<(String, u64)> = Vec::new();
    let mut i: usize = 0;
    while i < entries.len()
        invariant
            i <= entries@.len(),
            out@ == spec_kept_entries(entries@.take(i as int)),
        decreases entries@.len() - i,
    {
        proof {
            assert(entries@.take(i + 1).drop_last() =~= entries@.take(i as int));
            assert(entries@.take(i + 1).last() == entries@[i as int]);
        }
        match parse_score_micro(entries[i].1.as_str()) {
            Some(v) => {
                out.push((entries[i].0.clone(), v));
            }
            None => (),
        }
        i += 1;
    }
    proof {
        assert(entries@.take(entries@.len() as int) =~= entries@);
    }
    out
}

/// The raw one-hot scores for a category text: one whole on the matching
/// machine key, zero elsewhere; an unknown key leaves every field zero.
pub open spec fn spec_one_hot(cat: Seq<char>) -> Scores {
    Scores {
        screenshot_document: if spec_key_str(category_at(0)) == cat {
            SCORE_SCALE
        } else {
            0u64
        },
        people: if spec_key_str(category_at(1)) == cat {
            SCORE_SCALE
        } else {
            0u64
        },
        food_cafe: if spec_key_str(category_at(2)) == cat {
            SCORE_SCALE
        } else {
            0u64
        },
        nature_landscape: if spec_key_str(category_at(3)) == cat {
            SCORE_SCALE
        } else {
            0u64
        },
        city_street_travel: if spec_key_str(category_at(4)) == cat {
            SCORE_SCALE
        } else {
            0u64
        },
        pets_animals: if spec_key_str(category_at(5)) == cat {
            SCORE_SCALE
        } else {
            0u64
        },
        products_objects: if spec_key_str(category_at(6)) == cat {
            SCORE_SCALE
        } else {
            0u64
        },
        other: if spec_key_str(category_at(7)) == cat {
            SCORE_SCALE
        } else {
            0u64
        },
    }
}

/// Builds the one-hot scores for a category text.
fn one_hot(cat: &str) -> (r: Scores)
    ensures
        r == spec_one_hot(cat@),
{
    Scores {
        screenshot_document: if str_eq(cat, "screenshot_document") {
            SCORE_SCALE
        } else {
            0
        },
        people: if str_eq(cat, "people") {
            SCORE_SCALE
        } else {
            0
        },
        food_cafe: if str_eq(cat, "food_cafe") {
            SCORE_SCALE
        } else {
            0
        },
        nature_landscape: if str_eq(cat, "nature_landscape") {
            SCORE_SCALE
        } else {
            0
        },
        city_street_travel: if str_eq(cat, "city_street_travel") {
            SCORE_SCALE
        } else {
            0
        },
        pets_animals: if str_eq(cat, "pets_animals") {
            SCORE_SCALE
        } else {
            0
        },
        products_objects: if str_eq(cat, "products_objects") {
            SCORE_SCALE
        } else {
            0
        },
        other: if str_eq(cat, "other") {
            SCORE_SCALE
        } else {
            0
        },
    }
}

/// The sanitized, non-empty tags, in order.
pub open spec fn spec_clean_tags(ts: Seq<String>) -> Seq<Seq<char>>
    decreases ts.len(),
{
    if ts.len() == 0 {
        Seq::empty()
    } else if spec_sanitize(ts.last()@).len() > 0 {
        spec_clean_tags(ts.drop_last()).push(spec_sanitize(ts.last()@))
    } else {
        spec_clean_tags(ts.drop_last())
    }
}

/// The final tag list: the cleaned tags, or the fallback tag when none
/// survive.
pub open spec fn spec_final_tags(ts: Seq<String>) -> Seq<Seq<char>> {
    let c = spec_clean_tags(ts);
    if c.len() == 0 {
        seq!["기타"@]
    } else {
        c
    }
}

/// The final caption: the sanitized text, or the fallback caption when
/// nothing survives.
pub open spec fn spec_final_caption(s: Seq<char>) -> Seq<char> {
    if spec_sanitize(s).len() == 0 {
        "설명 없음"@
    } else {
        spec_sanitize(s)
    }
}

/// How a plain answer document determines the classification result.
pub open spec fn spec_model_out_rel(doc: RawDoc, m: ModelOut) -> bool {
    let scores = (match doc.scores {
        Some(entries) => scores_of_entries(spec_kept_entries(entries@)).normalized(),
        None => (match doc.category {
            Some(c) => spec_one_hot(c@).normalized(),
            None => m.scores,
        }),
    });
    &&& (doc.scores is Some || doc.category is Some)
    &&& m.scores == scores
    &&& m.category == (match doc.category {
        Some(c) => spec_key_of_str(c@),
        None => category_at(scores.spec_top_index()),
    })
    &&& {
        let ts = (match doc.tags {
            Some(ts0) => ts0@,
            None => Seq::empty(),
        });
        m.tags_ko@.len() == spec_final_tags(ts).len() && (forall|i: int|
            0 <= i < m.tags_ko@.len() ==> (#[trigger] m.tags_ko@[i])@ == spec_final_tags(ts)[i])
    }
    &&& m.caption_ko@ == spec_final_caption(
        match doc.caption {
            Some(c) => c@,
            None => Seq::empty(),
        },
    )
    &&& m.text_in_image_ko@ == spec_sanitize(
        match doc.text_in_image {
            Some(c) => c@,
            None => Seq::empty(),
        },
    )
}

/// Turns a plain answer document into the classification result: scores
/// re-normalized from the answer's own mapping, or one-hot from its
/// category, the category read from its text or taken from the top score,
/// and every Korean text field sanitized with its fallback.  An answer with
/// neither scores nor category is rejected.
pub fn model_out_from_doc(doc: &RawDoc) -> (r: Result<ModelOut, RemoteError>)
    ensures
        match r {
            Ok(m) => spec_model_out_rel(*doc, m),
            Err(e) => doc.scores is None && doc.category is None && e
                == RemoteError::ScoresMissing,
        },
{
    let scores = match &doc.scores {
        Some(entries) => {
            let kept = kept_entries(entries);
            Scores::from_map(&kept)
        }
        None => match &doc.category {
            Some(c) => one_hot(c.as_str()).normalize(),
            None => {
                return Err(RemoteError::ScoresMissing);
            }
        },
    };
    let category = match &doc.category {
        Some(c) => CategoryKey::from_key(c.as_str()),
        None => {
            let top = scores.top();
            proof {
                crate::category::lemma_category_at_index(top.0);
            }
            top.0
        }
    };
    let mut tags: Vec<String> = Vec::new();
    let ghost ts: Seq<String> = (match &doc.tags {
        Some(ts0) => ts0@,
        None => Seq::empty(),
    });
    match &doc.tags {
        Some(ts0) => {
            let mut i: usize = 0;
            while i < ts0.len()
                invariant
                    ts == ts0@,
                    i <= ts0@.len(),
                    tags@.len() == spec_clean_tags(ts.take(i as int)).len(),
                    forall|j: int|
                        0 <= j < tags@.len() ==> (#[trigger] tags@[j])@ == spec_clean_tags(
                            ts.take(i as int),
                        )[j],
                decreases ts0@.len() - i,
            {
                proof {
                    assert(ts.take(i + 1).drop_last() =~= ts.take(i as int));
                    assert(ts.take(i + 1).last() == ts[i as int]);
                }
                let cleaned = sanitize_korean_only(ts0[i].as_str());
                if cleaned.unicode_len() > 0 {
                    tags.push(cleaned);
                }
                i += 1;
            }
            proof {
                assert(ts.take(ts.len() as int) =~= ts);
            }
        }
        None => {
            proof {
                assert(ts.take(0) =~= Seq::<String>::empty());
            }
        }
    }
    if tags.len() == 0 {
        tags.push("기타".to_owned());
    }
    proof {
        reveal_strlit("");
        assert(""@ =~= Seq::<char>::empty());
    }
    let caption_raw = match &doc.caption {
        Some(c) => sanitize_korean_only(c.as_str()),
        None => sanitize_korean_only(""),
    };
    let caption = if caption_raw.unicode_len() == 0 {
        "설명 없음".to_owned()
    } else {
        caption_raw
    };
    let text_in_image = match &doc.text_in_image {
        Some(c) => sanitize_korean_only(c.as_str()),
        None => sanitize_korean_only(""),
    };
    Ok(
        ModelOut {
            category,
            scores,
            tags_ko: tags,
            caption_ko: caption,
            text_in_image_ko: text_in_image,
        },
    )
}

/// Parses a full remote answer: strips code fences, narrows to the first
/// balanced JSON object when one is present, reads the document and turns
/// it into the classification result.
/// The text the parser actually reads: the fence-stripped answer, narrowed
/// to its first balanced JSON object when one is present.
pub open spec fn spec_candidate_text(content: Seq<char>) -> Seq<char> {
    let stripped = spec_strip_fences(content);
    match spec_extract_obj(stripped) {
        Some(o) => o,
        None => stripped,
    }
}

pub fn parse_model_out(content: &str) -> (r: Result<ModelOut, RemoteError>)
    ensures
        ({
            let cand = spec_candidate_text(content@);
            match r {
                Ok(m) => jv_parse_of(cand) matches Some(v) && (spec_scores_member(v) is Some
                    || spec_member_str(v, "category"@) is Some) && (exists|d: RawDoc|
                    spec_doc_rel(v, d) && spec_model_out_rel(d, m)),
                Err(e) => (e == RemoteError::ParseFailed && jv_parse_of(cand) is None) || (e
                    == RemoteError::ScoresMissing && (jv_parse_of(cand) matches Some(v)
                    && spec_scores_member(v) is None && spec_member_str(v, "category"@) is None)),
            }
        }),
{
    let stripped = strip_code_fences(content);
    let candidate = match extract_first_json_object(stripped.as_str()) {
        Some(o) => o,
        None => stripped,
    };
    proof {
        assert(candidate@ == spec_candidate_text(content@));
    }
    let doc = match extract_doc(candidate.as_str()) {
        Some(d) => d,
        None => {
            return Err(RemoteError::ParseFailed);
        }
    };
    match model_out_from_doc(&doc) {
        Ok(m) => {
            proof {
                assert(spec_model_out_rel(doc, m));
            }
            Ok(m)
        }
        Err(e) => Err(e),
    }
}

/// The structured-output modes the chat request can ask for, strongest
/// first.
#[derive(Clone, Copy, Debug, PartialEq, Eq, Structural)]
pub enum ReqFormat {
    JsonSchema,
    JsonMode,
    NoFormat,
}

/// Where the protocol negotiation stands: which format the last request
/// asked for, and whether the think-related field has already been stripped
/// for servers that reject it.
#[derive(Clone, Copy, Debug, PartialEq, Eq, Structural)]
pub struct NegotiationState {
    pub format: ReqFormat,
    pub think_stripped: bool,
}

/// Whether an error body complains about the requested output format.
pub open spec fn spec_format_problem(s: Seq<char>) -> bool {
    contains_seq(lower_seq(s), "format"@) || contains_seq(lower_seq(s), "json schema"@)
        || contains_seq(lower_seq(s), "schema"@) || contains_seq(lower_seq(s), "expected"@)
        || contains_seq(lower_seq(s), "unknown field"@)
}

/// Whether an error body says the server rejects the think-related field.
pub open spec fn spec_think_unsupported(s: Seq<char>) -> bool {
    contains_seq(lower_seq(s), "unknown field"@) && contains_seq(lower_seq(s), "think"@)
}

/// Tests an error body for a format complaint, ignoring ASCII case.
pub fn detect_format_problem(body: &str) -> (r: bool)
    ensures
        r == spec_format_problem(body@),
{
    let low = lower_chars_of(body);
    contains_chars(&low, &chars_of("format")) || contains_chars(&low, &chars_of("json schema"))
        || contains_chars(&low, &chars_of("schema")) || contains_chars(&low, &chars_of("expected"))
        || contains_chars(&low, &chars_of("unknown field"))
}

/// Tests an error body for a rejected think-related field, ignoring ASCII
/// case.
pub fn detect_think_unsupported(body: &str) -> (r: bool)
    ensures
        r == spec_think_unsupported(body@),
{
    let low = lower_chars_of(body);
    contains_chars(&low, &chars_of("unknown field")) && contains_chars(&low, &chars_of("think"))
}

/// The retry ladder: after a failed request, which request to try next.
/// Format complaints walk down schema-constrained, generic JSON, then
/// unconstrained; a rejected think-related field restarts the ladder once
/// with that field stripped; anything else gives up.
pub open spec fn spec_next_attempt(
    st: NegotiationState,
    format_problem: bool,
    think_unsupported: bool,
) -> Option<NegotiationState> {
    if !st.think_stripped {
        if st.format == ReqFormat::JsonSchema && format_problem {
            Some(NegotiationState { format: ReqFormat::JsonMode, think_stripped: false })
        } else if st.format == ReqFormat::JsonMode {
            Some(NegotiationState { format: ReqFormat::NoFormat, think_stripped: false })
        } else if think_unsupported {
            Some(NegotiationState { format: ReqFormat::JsonSchema, think_stripped: true })
        } else {
            None
        }
    } else {
        if st.format == ReqFormat::JsonSchema {
            Some(NegotiationState { format: ReqFormat::JsonMode, think_stripped: true })
        } else if st.format == ReqFormat::JsonMode {
            Some(NegotiationState { format: ReqFormat::NoFormat, think_stripped: true })
        } else {
            None
        }
    }
}

/// Decides the next request after a failed one, from its error body.
pub fn next_attempt(st: NegotiationState, body: &str) -> (r: Option<NegotiationState>)
    ensures
        r == spec_next_attempt(st, spec_format_problem(body@), spec_think_unsupported(body@)),
{
    if !st.think_stripped {
        if st.format == ReqFormat::JsonSchema && detect_format_problem(body) {
            Some(NegotiationState { format: ReqFormat::JsonMode, think_stripped: false })
        } else if st.format == ReqFormat::JsonMode {
            Some(NegotiationState { format: ReqFormat::NoFormat, think_stripped: false })
        } else if detect_think_unsupported(body) {
            Some(NegotiationState { format: ReqFormat::JsonSchema, think_stripped: true })
        } else {
            None
        }
    } else {
        if st.format == ReqFormat::JsonSchema {
            Some(NegotiationState { format: ReqFormat::JsonMode, think_stripped: true })
        } else if st.format == ReqFormat::JsonMode {
            Some(NegotiationState { format: ReqFormat::NoFormat, think_stripped: true })
        } else {
            None
        }
    }
}

/// How many attempts the ladder still allows from a state.
pub open spec fn attempt_rank(st: NegotiationState) -> int {
    (if st.think_stripped {
        0int
    } else {
        3int
    }) + (match st.format {
        ReqFormat::JsonSchema => 2int,
        ReqFormat::JsonMode => 1int,
        ReqFormat::NoFormat => 0int,
    })
}

/// The ladder terminates: every retry strictly lowers the rank, so at most
/// six requests are ever sent for one classification.
pub proof fn lemma_negotiation_terminates(
    st: NegotiationState,
    format_problem: bool,
    think_unsupported: bool,
)
    ensures
        spec_next_attempt(st, format_problem, think_unsupported) matches Some(n) ==> attempt_rank(
            n,
        ) < attempt_rank(st),
        spec_next_attempt(st, format_problem, think_unsupported) matches Some(n)
            ==> st.think_stripped ==> n.think_stripped,
{
}

/// An error body that names an unknown think-related field makes the ladder
/// retry exactly once with the field stripped: the retry starts the format
/// ladder over without the field, and a stripped state never strips again.
pub proof fn lemma_think_field_retry(st: NegotiationState, body: Seq<char>)
    requires
        !st.think_stripped,
        st.format == ReqFormat::NoFormat || (st.format == ReqFormat::JsonSchema
            && !spec_format_problem(body)),
        spec_think_unsupported(body),
    ensures
        spec_next_attempt(st, spec_format_problem(body), spec_think_unsupported(body)) == Some(
            NegotiationState { format: ReqFormat::JsonSchema, think_stripped: true },
        ),
        forall|fp: bool, tu: bool|
            (#[trigger] spec_next_attempt(
                NegotiationState { format: ReqFormat::JsonSchema, think_stripped: true },
                fp,
                tu,
            )) matches Some(n) ==> n.think_stripped,
{
    assert(spec_format_problem(body)) by {
        assert(contains_seq(lower_seq(body), "unknown field"@));
    }
}

/// How a failed remote conversation is reported once every retry is
/// exhausted: a missing model, a model without image support, or a plain
/// error.
pub open spec fn spec_remote_failure(status: u16, body: Seq<char>) -> RemoteError {
    if status == 404 && contains_seq(lower_seq(body), "model"@) {
        RemoteError::ModelNotFound
    } else if contains_seq(lower_seq(body), "does not support image"@) || contains_seq(
        lower_seq(body),
        "images are not supported"@,
    ) {
        RemoteError::ImagesUnsupported
    } else {
        RemoteError::Other
    }
}

/// Classifies a final remote failure from its status and body.
pub fn classify_remote_failure(status: u16, body: &str) -> (r: RemoteError)
    ensures
        r == spec_remote_failure(status, body@),
{
    let low = lower_chars_of(body);
    if status == 404 && contains_chars(&low, &chars_of("model")) {
        RemoteError::ModelNotFound
    } else if contains_chars(&low, &chars_of("does not support image")) || contains_chars(
        &low,
        &chars_of("images are not supported"),
    ) {
        RemoteError::ImagesUnsupported
    } else {
        RemoteError::Other
    }
}

/// Checks the configured model name before any request: it must not be
/// blank.
pub fn check_model_name(model: &str) -> (r: Result<(), RemoteError>)
    ensures
        r is Ok <==> trim_seq(model@).len() > 0,
        r is Err ==> r == Err::<(), RemoteError>(RemoteError::EmptyModelName),
{
    let cs = chars_of(model);
    let t = trim_chars(&cs);
    if t.len() == 0 {
        Err(RemoteError::EmptyModelName)
    } else {
        Ok(())
    }
}

/// The first newline at or after position `i`, or the length when none.
pub open spec fn first_nl(s: Seq<char>, i: int) -> int
    decreases s.len() - i,
{
    if i < 0 || i >= s.len() {
        s.len() as int
    } else if s[i] == '\n' {
        i
    } else {
        first_nl(s, i + 1)
    }
}

/// Splitting text at newlines: the complete lines, and the tail after the
/// last newline.
pub open spec fn spec_split_nl(s: Seq<char>) -> (Seq<Seq<char>>, Seq<char>)
    decreases s.len(),
{
    let p = first_nl(s, 0);
    if p < 0 || p >= s.len() {
        (Seq::empty(), s)
    } else {
        let rest = spec_split_nl(s.subrange(p + 1, s.len() as int));
        (seq![s.subrange(0, p)] + rest.0, rest.1)
    }
}

/// Assembles the newline-delimited fragments of a streamed response: chunks
/// come in arbitrary pieces, complete lines come out, and the partial tail
/// waits for the next chunk.
pub struct StreamSplitter {
    buf: Vec<char>,
}

impl StreamSplitter {
    /// The pending, not yet newline-terminated text.
    pub closed spec fn pending(&self) -> Seq<char> {
        self.buf@
    }

    /// An empty splitter: nothing pending.
    pub fn new() -> (r: StreamSplitter)
        ensures
            r.pending() == Seq::<char>::empty(),
    {
        StreamSplitter { buf: Vec::new() }
    }

    /// Takes in one chunk: every line completed by it comes out in order,
    /// and the unterminated tail stays pending.
    pub fn push_chunk(&mut self, part: &str) -> (lines: Vec<String>)
        ensures
            ({
                let split = spec_split_nl(old(self).pending() + part@);
                lines@.len() == split.0.len() && (forall|i: int|
                    0 <= i < lines@.len() ==> (#[trigger] lines@[i])@ == split.0[i])
                    && final(self).pending() == split.1
            }),
    {
        let ghost whole = self.buf@ + part@;
        let pcs = chars_of(part);
        let mut i: usize = 0;
        while i < pcs.len()
            invariant
                pcs@ == part@,
                i <= pcs@.len(),
                self.buf@ == old(self).buf@ + part@.take(i as int),
            decreases pcs@.len() - i,
        {
            self.buf.push(pcs[i]);
            proof {
                assert(old(self).buf@ + part@.take(i as int) + seq![part@[i as int]] =~= old(
                    self,
                ).buf@ + part@.take(i + 1));
            }
            i += 1;
        }
        proof {
            assert(old(self).buf@ + part@.take(part@.len() as int) =~= whole);
        }
        let mut lines: Vec<String> = Vec::new();
        let mut done = false;
        while !done
            invariant
                spec_split_nl(whole).0 =~= lines@.map_values(|l: String| l@) + spec_split_nl(
                    self.buf@,
                ).0,
                spec_split_nl(whole).1 == spec_split_nl(self.buf@).1,
                done ==> spec_split_nl(self.buf@).0 == Seq::<Seq<char>>::empty()
                    && spec_split_nl(self.buf@).1 == self.buf@,
            decreases self.buf@.len() + (if done {
                0int
            } else {
                1int
            }),
        {
            match find_nl(&self.buf) {
                None => {
                    proof {
                        assert(spec_split_nl(self.buf@).0 =~= Seq::<Seq<char>>::empty());
                    }
                    done = true;
                }
                Some(p) => {
                    let n = self.buf.len();
                    let line_chars = sub_vec(&self.buf, 0, p);
                    let line = string_of_chars(&line_chars);
                    let rest = sub_vec(&self.buf, p + 1, n);
                    let ghost old_buf = self.buf@;
                    let ghost old_lines = lines@;
                    self.buf = rest;
                    lines.push(line);
                    proof {
                        assert(spec_split_nl(old_buf).0 =~= seq![old_buf.subrange(0, p as int)]
                            + spec_split_nl(self.buf@).0);
                        assert(lines@.map_values(|l: String| l@) =~= old_lines.map_values(
                            |l: String| l@,
                        ).push(old_buf.subrange(0, p as int)));
                        assert(old_lines.map_values(|l: String| l@) + (seq![
                            old_buf.subrange(0, p as int),
                        ] + spec_split_nl(self.buf@).0) =~= lines@.map_values(|l: String| l@)
                            + spec_split_nl(self.buf@).0);
                    }
                }
            }
        }
        proof {
            assert(spec_split_nl(whole).0 =~= lines@.map_values(|l: String| l@));
            assert forall|i: int| 0 <= i < lines@.len() implies (#[trigger] lines@[i])@
                == spec_split_nl(whole).0[i] by {
                assert(lines@.map_values(|l: String| l@)[i] == lines@[i]@);
            }
        }
        lines
    }
}

/// The position of the first newline in the pending text, if any.
fn find_nl(buf: &Vec<char>) -> (r: Option<usize>)
    ensures
        match r {
            Some(p) => p < buf@.len() && first_nl(buf@, 0) == p as int,
            None => first_nl(buf@, 0) == buf@.len(),
        },
{
    let mut p: usize = 0;
    while p < buf.len()
        invariant
            p <= buf@.len(),
            forall|j: int| 0 <= j < p ==> buf@[j] != '\n',
        decreases buf@.len() - p,
    {
        if buf[p] == '\n' {
            proof {
                lemma_first_nl_at(buf@, 0, p as int);
            }
            return Some(p);
        }
        p += 1;
    }
    proof {
        lemma_first_nl_none(buf@, 0);
    }
    None
}

/// Scanning from `i` finds the newline at `p` when nothing before it is
/// one.
proof fn lemma_first_nl_at(s: Seq<char>, i: int, p: int)
    requires
        0 <= i <= p < s.len(),
        s[p] == '\n',
        forall|j: int| i <= j < p ==> s[j] != '\n',
    ensures
        first_nl(s, i) == p,
    decreases p - i,
{
    if i < p {
        lemma_first_nl_at(s, i + 1, p);
    }
}

/// Scanning past every newline runs to the end.
proof fn lemma_first_nl_none(s: Seq<char>, i: int)
    requires
        0 <= i,
        forall|j: int| i <= j < s.len() ==> s[j] != '\n',
    ensures
        first_nl(s, i) == s.len(),
    decreases s.len() - i,
{
    if i < s.len() {
        lemma_first_nl_none(s, i + 1);
    }
}


/// Applies one streamed line to the accumulated answer: the line is
/// trimmed, parsed, and its incremental text (if any) appended; the flag
/// says whether the stream declared itself finished.  Whatever the line
/// held, the accumulator only ever grows by exactly the returned delta.
/// The incremental text a streamed fragment carries under
/// `message.content`, if any.
pub open spec fn spec_line_delta(v: serde_json::Value) -> Option<Seq<char>> {
    match jv_get_of(v, "message"@) {
        Some(m) => match jv_get_of(m, "content"@) {
            Some(c) => jv_str_of(c),
            None => None,
        },
        None => None,
    }
}

/// Whether a streamed fragment declares the stream finished: its `done`
/// member read as a boolean, false where absent or not a boolean.
pub open spec fn spec_line_done(v: serde_json::Value) -> bool {
    match jv_get_of(v, "done"@) {
        Some(d) => match jv_bool_of(d) {
            Some(b) => b,
            None => false,
        },
        None => false,
    }
}

pub fn apply_stream_line(acc: &mut String, line: &str) -> (r: (Option<String>, bool))
    ensures
        r.0 matches Some(d) ==> final(acc)@ == old(acc)@ + d@ && d@.len() > 0,
        r.0 is None ==> final(acc)@ == old(acc)@,
        ({
            let tl = trim_seq(line@);
            if tl.len() == 0 {
                r.0 is None && !r.1
            } else {
                match jv_parse_of(tl) {
                    Some(v) => r.1 == spec_line_done(v) && (match spec_line_delta(v) {
                        Some(c) => (if c.len() > 0 {
                            r.0 matches Some(d) && d@ == c
                        } else {
                            r.0 is None
                        }),
                        None => r.0 is None,
                    }),
                    None => r.0 is None && !r.1,
                }
            }
        }),
{
    let cs = chars_of(line);
    let tv = trim_chars(&cs);
    if tv.len() == 0 {
        return (None, false);
    }
    let trimmed = string_of_chars(&tv);
    let v = match json_parse(trimmed.as_str()) {
        Some(v) => v,
        None => {
            return (None, false);
        }
    };
    let delta = match json_get(&v, "message") {
        Some(m) => match json_get(m, "content") {
            Some(c) => json_as_str(c),
            None => None,
        },
        None => None,
    };
    let done = match json_get(&v, "done") {
        Some(d) => match json_as_bool(d) {
            Some(b) => b,
            None => false,
        },
        None => false,
    };
    match delta {
        Some(d) => {
            if d.unicode_len() > 0 {
                acc.append(d.as_str());
                (Some(d), done)
            } else {
                (None, done)
            }
        }
        None => (None, done),
    }
}


/// Reads the non-streaming chat envelope: the answer text under
/// `message.content`, when the body parses and carries one.
pub fn envelope_content(text: &str) -> (r: Option<String>)
    ensures
        match r {
            Some(s) => jv_parse_of(text@) matches Some(v) && spec_line_delta(v) == Some(s@),
            None => jv_parse_of(text@) is None || (jv_parse_of(text@) matches Some(v)
                && spec_line_delta(v) is None),
        },
{
    let v = match json_parse(text) {
        Some(v) => v,
        None => {
            return None;
        }
    };
    match json_get(&v, "message") {
        Some(m) => match json_get(m, "content") {
            Some(c) => json_as_str(c),
            None => None,
        },
        None => None,
    }
}

} // verus!
