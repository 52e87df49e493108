//! Export planning: collision-safe names for copies into category folders.
//!
//! The library decides *which* path a photo is copied to; performing the copy
//! is left to the caller.  The caller hands in the names already present in
//! the target directory, and gets back either the file's own name (when it is
//! free) or the first free `stem_N.ext` variant, `N` counting up from 1.  A
//! ceiling of 9999 turns runaway collisions into an explicit error instead of
//! an unbounded search.

use vstd::prelude::*;
use crate::category::str_eq;

verus! {

/// Export planning can fail only one way: every candidate name up to the
/// collision ceiling is already taken.
#[derive(Clone, Copy, Debug, PartialEq, Eq, Structural)]
pub enum ExportError {
    TooManyDuplicates,
}

/// Whether a name is already present among the existing entries.
pub open spec fn taken(existing: Seq<String>, name: Seq<char>) -> bool {
    exists|i: int| 0 <= i < existing.len() && existing[i]@ == name
}

/// The position of the last `.` in `s` at or before position `i`, or -1.
pub open spec fn rfind_dot(s: Seq<char>, i: int) -> int
    decreases i + 1,
{
    if i < 0 {
        -1
    } else if s[i] == '.' {
        i
    } else {
        rfind_dot(s, i - 1)
    }
}

/// The stem a numeric suffix is appended to: everything before the last dot,
/// the whole name when there is no usable dot, or `image` for an empty name.
pub open spec fn spec_stem(s: Seq<char>) -> Seq<char> {
    let p = rfind_dot(s, s.len() - 1);
    if s.len() == 0 {
        "image"@
    } else if p > 0 {
        s.subrange(0, p)
    } else {
        s
    }
}

/// The extension appended after the numeric suffix; `jpg` when the name has
/// no usable dot.
pub open spec fn spec_ext(s: Seq<char>) -> Seq<char> {
    let p = rfind_dot(s, s.len() - 1);
    if s.len() == 0 {
        "jpg"@
    } else if p > 0 {
        s.subrange(p + 1, s.len() as int)
    } else {
        "jpg"@
    }
}

/// The decimal digits of `n`, most significant first.
pub open spec fn spec_digits(n: nat) -> Seq<char>
    decreases n,
{
    if n < 10 {
        seq![digit_char(n)]
    } else {
        spec_digits(n / 10).push(digit_char(n % 10))
    }
}

/// The character for one decimal digit.
pub open spec fn digit_char(d: nat) -> char {
    if d == 0 {
        '0'
    } else if d == 1 {
        '1'
    } else if d == 2 {
        '2'
    } else if d == 3 {
        '3'
    } else if d == 4 {
        '4'
    } else if d == 5 {
        '5'
    } else if d == 6 {
        '6'
    } else if d == 7 {
        '7'
    } else if d == 8 {
        '8'
    } else {
        '9'
    }
}

/// The `c`-th collision candidate: `stem_c.ext`.
pub open spec fn spec_candidate(stem: Seq<char>, ext: Seq<char>, c: nat) -> Seq<char> {
    stem + seq!['_'] + spec_digits(c) + seq!['.'] + ext
}

/// The first free candidate at counter `c` or above, up to the ceiling.
pub open spec fn spec_resolve_from(
    existing: Seq<String>,
    stem: Seq<char>,
    ext: Seq<char>,
    c: int,
) -> Option<Seq<char>>
    decreases 10000 - c,
{
    if c < 1 || c > 9999 {
        None
    } else if !taken(existing, spec_candidate(stem, ext, c as nat)) {
        Some(spec_candidate(stem, ext, c as nat))
    } else {
        spec_resolve_from(existing, stem, ext, c + 1)
    }
}

/// The name the export writer will use: the file's own name when free, else
/// the first free numbered variant, else nothing.
pub open spec fn spec_resolve(existing: Seq<String>, file_name: Seq<char>) -> Option<Seq<char>> {
    if !taken(existing, file_name) {
        Some(file_name)
    } else {
        spec_resolve_from(existing, spec_stem(file_name), spec_ext(file_name), 1)
    }
}

/// Whether `name` is already present among the existing entries.
pub fn contains_name(existing: &Vec<String>, name: &str) -> (r: bool)
    ensures
        r == taken(existing@, name@),
{
    let mut i: usize = 0;
    while i < existing.len()
        invariant
            i <= existing@.len(),
            forall|j: int| 0 <= j < i ==> (#[trigger] existing@[j])@ != name@,
        decreases existing@.len() - i,
    {
        if str_eq(existing[i].as_str(), name) {
            return true;
        }
        i += 1;
    }
    false
}

/// Writes `n` in decimal.
pub fn fmt_u32(n: u32) -> (r: String)
    ensures
        r@ == spec_digits(n as nat),
    decreases n,
{
    proof {
        reveal_strlit("0");
        reveal_strlit("1");
        reveal_strlit("2");
        reveal_strlit("3");
        reveal_strlit("4");
        reveal_strlit("5");
        reveal_strlit("6");
        reveal_strlit("7");
        reveal_strlit("8");
        reveal_strlit("9");
    }
    let digit: &str = match n % 10 {
        0 => "0",
        1 => "1",
        2 => "2",
        3 => "3",
        4 => "4",
        5 => "5",
        6 => "6",
        7 => "7",
        8 => "8",
        _ => "9",
    };
    if n < 10 {
        digit.to_owned()
    } else {
        let mut s = fmt_u32(n / 10);
        s.append(digit);
        s
    }
}

/// Writes `n` in decimal.
pub fn fmt_u64(n: u64) -> (r: String)
    ensures
        r@ == spec_digits(n as nat),
    decreases n,
{
    proof {
        reveal_strlit("0");
        reveal_strlit("1");
        reveal_strlit("2");
        reveal_strlit("3");
        reveal_strlit("4");
        reveal_strlit("5");
        reveal_strlit("6");
        reveal_strlit("7");
        reveal_strlit("8");
        reveal_strlit("9");
    }
    let digit: &str = match n % 10 {
        0 => "0",
        1 => "1",
        2 => "2",
        3 => "3",
        4 => "4",
        5 => "5",
        6 => "6",
        7 => "7",
        8 => "8",
        _ => "9",
    };
    if n < 10 {
        digit.to_owned()
    } else {
        let mut s = fmt_u64(n / 10);
        s.append(digit);
        s
    }
}

/// The spelling of a truth value.
pub open spec fn spec_bool_str(b: bool) -> Seq<char> {
    if b {
        "true"@
    } else {
        "false"@
    }
}

/// Writes a truth value as text.
pub fn fmt_bool(b: bool) -> (r: &'static str)
    ensures
        r@ == spec_bool_str(b),
{
    if b {
        "true"
    } else {
        "false"
    }
}

/// No dot anywhere at or before `i` means the search reports -1.
proof fn lemma_rfind_none(s: Seq<char>, i: int)
    requires
        forall|j: int| 0 <= j <= i ==> s[j] != '.',
    ensures
        rfind_dot(s, i) == -1,
    decreases i + 1,
{
    if i >= 0 {
        lemma_rfind_none(s, i - 1);
    }
}

/// A dot at `p` with none after it (up to `i`) is what the search finds.
proof fn lemma_rfind_at(s: Seq<char>, i: int, p: int)
    requires
        0 <= p <= i,
        s[p] == '.',
        forall|j: int| p < j <= i ==> s[j] != '.',
    ensures
        rfind_dot(s, i) == p,
    decreases i + 1,
{
    if i > p {
        lemma_rfind_at(s, i - 1, p);
    }
}

/// Splits a file name into the stem and extension used for collision
/// candidates, defaulting to `image` / `jpg` where the name offers none.
pub fn split_file_name(file_name: &str) -> (r: (String, String))
    ensures
        r.0@ == spec_stem(file_name@),
        r.1@ == spec_ext(file_name@),
{
    let n = file_name.unicode_len();
    if n == 0 {
        proof {
            lemma_rfind_none(file_name@, -1);
        }
        return ("image".to_owned(), "jpg".to_owned());
    }
    let mut i: usize = n;
    let mut p: usize = 0;
    let mut found = false;
    while i > 0 && !found
        invariant
            n == file_name@.len(),
            i <= n,
            !found ==> forall|j: int| i <= j < n ==> file_name@[j] != '.',
            found ==> p == i && i < n && file_name@[p as int] == '.' && forall|j: int|
                p < j < n ==> file_name@[j] != '.',
        decreases i + (if found { 0int } else { 1int }),
    {
        i -= 1;
        if file_name.get_char(i) == '.' {
            p = i;
            found = true;
        }
    }
    proof {
        if found {
            lemma_rfind_at(file_name@, n - 1, p as int);
        } else {
            lemma_rfind_none(file_name@, n - 1);
        }
    }
    if found && p > 0 {
        let stem = file_name.substring_char(0, p).to_owned();
        let ext = file_name.substring_char(p + 1, n).to_owned();
        (stem, ext)
    } else {
        (file_name.to_owned(), "jpg".to_owned())
    }
}

/// Builds the `c`-th collision candidate `stem_c.ext`.
pub fn make_candidate(stem: &str, ext: &str, c: u32) -> (r: String)
    ensures
        r@ == spec_candidate(stem@, ext@, c as nat),
{
    proof {
        reveal_strlit("_");
        reveal_strlit(".");
    }
    let mut s = stem.to_owned();
    s.append("_");
    let digits = fmt_u32(c);
    s.append(digits.as_str());
    s.append(".");
    s.append(ext);
    proof {
        assert(s@ =~= spec_candidate(stem@, ext@, c as nat));
    }
    s
}

/// Picks the name a new copy of `file_name` gets among `existing`: the name
/// itself when free, else the first free `stem_N.ext` with `N` from 1 up to
/// 9999; when every candidate is taken the ceiling is reported as an error
/// rather than searched past.
pub fn resolve_collision(existing: &Vec<String>, file_name: &str) -> (r: Result<
    String,
    ExportError,
>)
    ensures
        match r {
            Ok(name) => spec_resolve(existing@, file_name@) == Some(name@) && !taken(
                existing@,
                name@,
            ),
            Err(_) => spec_resolve(existing@, file_name@) is None,
        },
{
    if !contains_name(existing, file_name) {
        return Ok(file_name.to_owned());
    }
    let (stem, ext) = split_file_name(file_name);
    let mut c: u32 = 1;
    while c <= 9999
        invariant
            1 <= c <= 10000,
            taken(existing@, file_name@),
            stem@ == spec_stem(file_name@),
            ext@ == spec_ext(file_name@),
            spec_resolve_from(existing@, stem@, ext@, 1) == spec_resolve_from(
                existing@,
                stem@,
                ext@,
                c as int,
            ),
        decreases 10000 - c,
    {
        let cand = make_candidate(stem.as_str(), ext.as_str(), c);
        if !contains_name(existing, cand.as_str()) {
            proof {
                assert(spec_resolve_from(existing@, stem@, ext@, c as int) == Some(
                    spec_candidate(stem@, ext@, c as nat),
                ));
            }
            return Ok(cand);
        }
        c += 1;
    }
    Err(ExportError::TooManyDuplicates)
}

/// Collision law: when the file's name is already present, the resolved name
/// is a numbered variant, distinct from the colliding name and itself free.
pub proof fn lemma_collision_gets_fresh_suffix(
    existing: Seq<String>,
    file_name: Seq<char>,
    name: Seq<char>,
)
    requires
        taken(existing, file_name),
        spec_resolve(existing, file_name) == Some(name),
    ensures
        !taken(existing, name),
        name != file_name,
        exists|c: nat|
            1 <= c <= 9999 && name == spec_candidate(
                spec_stem(file_name),
                spec_ext(file_name),
                c,
            ),
{
    lemma_resolve_from_fresh(existing, spec_stem(file_name), spec_ext(file_name), 1, name);
}

/// Any name `spec_resolve_from` produces is a free candidate in range.
proof fn lemma_resolve_from_fresh(
    existing: Seq<String>,
    stem: Seq<char>,
    ext: Seq<char>,
    c: int,
    name: Seq<char>,
)
    requires
        spec_resolve_from(existing, stem, ext, c) == Some(name),
    ensures
        !taken(existing, name),
        exists|c2: nat| 1 <= c2 <= 9999 && name == spec_candidate(stem, ext, c2),
    decreases 10000 - c,
{
    if 1 <= c <= 9999 {
        if !taken(existing, spec_candidate(stem, ext, c as nat)) {
            assert(1 <= c as nat <= 9999 && name == spec_candidate(stem, ext, c as nat));
        } else {
            lemma_resolve_from_fresh(existing, stem, ext, c + 1, name);
        }
    }
}

/// The destination path for an export into a single category folder:
/// `export_root/category/name`, with the collision-resolved name.
pub fn copy_to_category(
    export_root: &str,
    category: &str,
    file_name: &str,
    existing: &Vec<String>,
) -> (r: Result<String, ExportError>)
    ensures
        match r {
            Ok(p) => spec_resolve(existing@, file_name@) matches Some(name) && p@ == export_root@
                + seq!['/'] + category@ + seq!['/'] + name,
            Err(_) => spec_resolve(existing@, file_name@) is None,
        },
{
    proof {
        reveal_strlit("/");
    }
    let name = resolve_collision(existing, file_name)?;
    let mut p = export_root.to_owned();
    p.append("/");
    p.append(category);
    p.append("/");
    p.append(name.as_str());
    proof {
        assert(p@ =~= export_root@ + seq!['/'] + category@ + seq!['/'] + name@);
    }
    Ok(p)
}

/// The directory part of a nested export path: the root followed by every
/// non-blank folder in order.
pub open spec fn spec_join_dirs(root: Seq<char>, dirs: Seq<String>) -> Seq<char>
    decreases dirs.len(),
{
    if dirs.len() == 0 {
        root
    } else if is_blank(dirs.last()@) {
        spec_join_dirs(root, dirs.drop_last())
    } else {
        spec_join_dirs(root, dirs.drop_last()) + seq!['/'] + dirs.last()@
    }
}

/// A folder name that contributes nothing to the path: only whitespace.
pub open spec fn is_blank(s: Seq<char>) -> bool {
    forall|i: int| 0 <= i < s.len() ==> is_space_char(#[trigger] s[i])
}

/// The whitespace characters ignored in folder names.
pub open spec fn is_space_char(c: char) -> bool {
    c == ' ' || c == '\t' || c == '\n' || c == '\r'
}

/// Whether a folder name is only whitespace.
fn is_blank_exec(s: &str) -> (r: bool)
    ensures
        r == is_blank(s@),
{
    let n = s.unicode_len();
    let mut i: usize = 0;
    while i < n
        invariant
            n == s@.len(),
            i <= n,
            forall|j: int| 0 <= j < i ==> is_space_char(#[trigger] s@[j]),
        decreases n - i,
    {
        let c = s.get_char(i);
        if !(c == ' ' || c == '\t' || c == '\n' || c == '\r') {
            return false;
        }
        i += 1;
    }
    true
}

/// The destination path for an export nested under several folders (value
/// judgment, then category): blank folder names are skipped, and the file
/// name is collision-resolved against the target directory's contents.
pub fn copy_to_category_nested(
    export_root: &str,
    dirs: &Vec<String>,
    file_name: &str,
    existing: &Vec<String>,
) -> (r: Result<String, ExportError>)
    ensures
        match r {
            Ok(p) => spec_resolve(existing@, file_name@) matches Some(name) && p@ ==
                spec_join_dirs(export_root@, dirs@) + seq!['/'] + name,
            Err(_) => spec_resolve(existing@, file_name@) is None,
        },
{
    proof {
        reveal_strlit("/");
        assert(dirs@.take(0).len() == 0);
    }
    let mut dir = export_root.to_owned();
    let mut i: usize = 0;
    while i < dirs.len()
        invariant
            i <= dirs@.len(),
            dir@ == spec_join_dirs(export_root@, dirs@.take(i as int)),
            "/"@ == seq!['/'],
        decreases dirs@.len() - i,
    {
        let d = &dirs[i];
        proof {
            assert(dirs@.take(i + 1).drop_last() =~= dirs@.take(i as int));
            assert(dirs@.take(i + 1).last() == dirs@[i as int]);
        }
        if !is_blank_exec(d.as_str()) {
            dir.append("/");
            dir.append(d.as_str());
        }
        i += 1;
    }
    proof {
        assert(dirs@.take(dirs@.len() as int) =~= dirs@);
    }
    let name = resolve_collision(existing, file_name)?;
    let mut p = dir;
    p.append("/");
    p.append(name.as_str());
    Ok(p)
}

} // verus!
