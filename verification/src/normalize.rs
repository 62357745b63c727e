//! Filename normalization: strip an OS-generated "copy" suffix from the stem
//! of a filename, keeping the extension (the part after the last dot).
//!
//! Six suffix shapes are recognized, tried in a fixed order, and only the
//! first match is removed: `" copy N"`, `" copy"`, `" - Copy (N)"`,
//! `" - Copy"`, `" (N)"`, `"(N)"` (N one or more decimal digits).

use vstd::prelude::*;

verus! {

/// The ten decimal digit characters.
pub open spec fn is_dec_digit(c: char) -> bool {
    48 <= (c as u32) && (c as u32) <= 57
}

/// Number of decimal digits at the end of `s`.
pub open spec fn trailing_digit_count(s: Seq<char>) -> int
    decreases s.len(),
{
    if s.len() == 0 || !is_dec_digit(s[s.len() - 1]) {
        0
    } else {
        1 + trailing_digit_count(s.drop_last())
    }
}

pub proof fn lemma_trailing_digit_count_bounds(s: Seq<char>)
    ensures
        0 <= trailing_digit_count(s) <= s.len(),
    decreases s.len(),
{
    if s.len() != 0 && is_dec_digit(s[s.len() - 1]) {
        lemma_trailing_digit_count_bounds(s.drop_last());
    }
}

/// The characters `" copy "` stand at positions `i .. i + 6` of `s`.
pub open spec fn copy_num_marker_at(s: Seq<char>, i: int) -> bool {
    &&& s[i] == ' '
    &&& s[i + 1] == 'c'
    &&& s[i + 2] == 'o'
    &&& s[i + 3] == 'p'
    &&& s[i + 4] == 'y'
    &&& s[i + 5] == ' '
}

/// The stem ends in `" copy N"`, N one or more digits.
pub open spec fn ends_copy_num(s: Seq<char>) -> bool {
    let d = trailing_digit_count(s);
    d >= 1 && s.len() - d >= 6 && copy_num_marker_at(s, s.len() - d - 6)
}

/// The stem ends in `" copy"`.
pub open spec fn ends_copy(s: Seq<char>) -> bool {
    let n = s.len();
    n >= 5 && s[n - 5] == ' ' && s[n - 4] == 'c' && s[n - 3] == 'o' && s[n - 2] == 'p'
        && s[n - 1] == 'y'
}

/// The characters `" - Copy ("` stand at positions `i .. i + 9` of `s`.
pub open spec fn dash_copy_num_marker_at(s: Seq<char>, i: int) -> bool {
    &&& s[i] == ' '
    &&& s[i + 1] == '-'
    &&& s[i + 2] == ' '
    &&& s[i + 3] == 'C'
    &&& s[i + 4] == 'o'
    &&& s[i + 5] == 'p'
    &&& s[i + 6] == 'y'
    &&& s[i + 7] == ' '
    &&& s[i + 8] == '('
}

/// The stem ends in `" - Copy (N)"`.
pub open spec fn ends_dash_copy_num(s: Seq<char>) -> bool {
    let n = s.len();
    n >= 1 && s[n - 1] == ')' && {
        let d = trailing_digit_count(s.take(n - 1));
        d >= 1 && n - 1 - d >= 9 && dash_copy_num_marker_at(s, n - 1 - d - 9)
    }
}

/// The stem ends in `" - Copy"`.
pub open spec fn ends_dash_copy(s: Seq<char>) -> bool {
    let n = s.len();
    n >= 7 && s[n - 7] == ' ' && s[n - 6] == '-' && s[n - 5] == ' ' && s[n - 4] == 'C'
        && s[n - 3] == 'o' && s[n - 2] == 'p' && s[n - 1] == 'y'
}

/// The stem ends in `" (N)"`.
pub open spec fn ends_space_paren_num(s: Seq<char>) -> bool {
    let n = s.len();
    n >= 1 && s[n - 1] == ')' && {
        let d = trailing_digit_count(s.take(n - 1));
        d >= 1 && n - 1 - d >= 2 && s[n - 1 - d - 2] == ' ' && s[n - 1 - d - 1] == '('
    }
}

/// The stem ends in `"(N)"`.
pub open spec fn ends_paren_num(s: Seq<char>) -> bool {
    let n = s.len();
    n >= 1 && s[n - 1] == ')' && {
        let d = trailing_digit_count(s.take(n - 1));
        d >= 1 && n - 1 - d >= 1 && s[n - 1 - d - 1] == '('
    }
}

/// Some copy-suffix pattern matches the stem.
pub open spec fn stem_matches_any(s: Seq<char>) -> bool {
    ||| ends_copy_num(s)
    ||| ends_copy(s)
    ||| ends_dash_copy_num(s)
    ||| ends_dash_copy(s)
    ||| ends_space_paren_num(s)
    ||| ends_paren_num(s)
}

/// The stem after removing the first matching copy suffix, patterns tried in
/// the fixed order; a stem matching no pattern is returned unchanged.
pub open spec fn strip_stem(s: Seq<char>) -> Seq<char> {
    let n = s.len();
    if ends_copy_num(s) {
        s.take(n - trailing_digit_count(s) - 6)
    } else if ends_copy(s) {
        s.take(n - 5)
    } else if ends_dash_copy_num(s) {
        s.take(n - 1 - trailing_digit_count(s.take(n - 1)) - 9)
    } else if ends_dash_copy(s) {
        s.take(n - 7)
    } else if ends_space_paren_num(s) {
        s.take(n - 1 - trailing_digit_count(s.take(n - 1)) - 2)
    } else if ends_paren_num(s) {
        s.take(n - 1 - trailing_digit_count(s.take(n - 1)) - 1)
    } else {
        s
    }
}

/// Index of the last `'.'` in `s`, or `-1` when none occurs.
pub open spec fn last_dot_index(s: Seq<char>) -> int
    decreases s.len(),
{
    if s.len() == 0 {
        -1
    } else if s[s.len() - 1] == '.' {
        s.len() - 1
    } else {
        last_dot_index(s.drop_last())
    }
}

pub proof fn lemma_last_dot_index_bounds(s: Seq<char>)
    ensures
        -1 <= last_dot_index(s) < s.len(),
    decreases s.len(),
{
    if s.len() != 0 && s[s.len() - 1] != '.' {
        lemma_last_dot_index_bounds(s.drop_last());
    }
}

/// Canonical form of a filename: split at the last dot, strip the stem's
/// copy suffix, keep the extension unchanged.  A name without a dot is all
/// stem.
pub open spec fn normalize_spec(name: Seq<char>) -> Seq<char> {
    let ld = last_dot_index(name);
    if ld < 0 {
        strip_stem(name)
    } else {
        strip_stem(name.take(ld)) + name.subrange(ld, name.len() as int)
    }
}

/// Whether the character at position `i` of `s` is a decimal digit.
fn digit_at(s: &str, i: usize) -> (b: bool)
    requires
        i < s@.len(),
    ensures
        b == is_dec_digit(s@[i as int]),
{
    let c = s.get_char(i);
    let u: u32 = c as u32;
    48 <= u && u <= 57
}

/// Count of decimal digits immediately before position `end` of `s`.
fn count_trailing_digits(s: &str, end: usize) -> (d: usize)
    requires
        end <= s@.len(),
    ensures
        d == trailing_digit_count(s@.take(end as int)),
        d <= end,
{
    let mut i: usize = end;
    while i > 0 && digit_at(s, i - 1)
        invariant
            i <= end <= s@.len(),
            trailing_digit_count(s@.take(end as int)) == trailing_digit_count(s@.take(i as int))
                + (end - i),
        decreases i,
    {
        i = i - 1;
        proof {
            let t = s@.take((i + 1) as int);
            assert(t.len() == i + 1);
            assert(t[i as int] == s@[i as int]);
            assert(is_dec_digit(t[t.len() - 1]));
            assert(t.drop_last() =~= s@.take(i as int));
        }
    }
    proof {
        if i > 0 {
            let t = s@.take(i as int);
            assert(t[t.len() - 1] == s@[i - 1]);
            assert(!is_dec_digit(t[t.len() - 1]));
            assert(trailing_digit_count(t) == 0);
        } else {
            assert(trailing_digit_count(s@.take(0)) == 0);
        }
    }
    end - i
}

/// Remove the first matching copy suffix from a filename stem.
fn strip_stem_exec(stem: &str) -> (r: String)
    ensures
        r@ == strip_stem(stem@),
{
    let n = stem.unicode_len();
    let d = count_trailing_digits(stem, n);
    proof {
        assert(stem@.take(n as int) =~= stem@);
        lemma_trailing_digit_count_bounds(stem@);
    }
    if d >= 1 && n - d >= 6 && stem.get_char(n - d - 6) == ' ' && stem.get_char(n - d - 5) == 'c'
        && stem.get_char(n - d - 4) == 'o' && stem.get_char(n - d - 3) == 'p'
        && stem.get_char(n - d - 2) == 'y' && stem.get_char(n - d - 1) == ' ' {
        stem.substring_char(0, n - d - 6).to_owned()
    } else if n >= 5 && stem.get_char(n - 5) == ' ' && stem.get_char(n - 4) == 'c'
        && stem.get_char(n - 3) == 'o' && stem.get_char(n - 2) == 'p'
        && stem.get_char(n - 1) == 'y' {
        stem.substring_char(0, n - 5).to_owned()
    } else {
        let closing = n >= 1 && stem.get_char(n - 1) == ')';
        let d2 = if closing {
            count_trailing_digits(stem, n - 1)
        } else {
            0
        };
        if closing && d2 >= 1 && (n - 1) - d2 >= 9 && stem.get_char(n - 1 - d2 - 9) == ' '
            && stem.get_char(n - 1 - d2 - 8) == '-' && stem.get_char(n - 1 - d2 - 7) == ' '
            && stem.get_char(n - 1 - d2 - 6) == 'C' && stem.get_char(n - 1 - d2 - 5) == 'o'
            && stem.get_char(n - 1 - d2 - 4) == 'p' && stem.get_char(n - 1 - d2 - 3) == 'y'
            && stem.get_char(n - 1 - d2 - 2) == ' ' && stem.get_char(n - 1 - d2 - 1) == '(' {
            stem.substring_char(0, n - 1 - d2 - 9).to_owned()
        } else if n >= 7 && stem.get_char(n - 7) == ' ' && stem.get_char(n - 6) == '-'
            && stem.get_char(n - 5) == ' ' && stem.get_char(n - 4) == 'C'
            && stem.get_char(n - 3) == 'o' && stem.get_char(n - 2) == 'p'
            && stem.get_char(n - 1) == 'y' {
            stem.substring_char(0, n - 7).to_owned()
        } else if closing && d2 >= 1 && (n - 1) - d2 >= 2 && stem.get_char(n - 1 - d2 - 2) == ' '
            && stem.get_char(n - 1 - d2 - 1) == '(' {
            stem.substring_char(0, n - 1 - d2 - 2).to_owned()
        } else if closing && d2 >= 1 && (n - 1) - d2 >= 1 && stem.get_char(n - 1 - d2 - 1) == '(' {
            stem.substring_char(0, n - 1 - d2 - 1).to_owned()
        } else {
            stem.to_owned()
        }
    }
}

/// Canonical filename: the stem, up to the last dot, with its copy suffix
/// removed, and the extension kept unchanged.
pub fn normalize_filename(name: &str) -> (r: String)
    ensures
        r@ == normalize_spec(name@),
{
    let n = name.unicode_len();
    let mut j: usize = n;
    proof {
        assert(name@.take(n as int) =~= name@);
    }
    while j > 0 && name.get_char(j - 1) != '.'
        invariant
            j <= n,
            n == name@.len(),
            last_dot_index(name@) == last_dot_index(name@.take(j as int)),
        decreases j,
    {
        j = j - 1;
        proof {
            let t = name@.take((j + 1) as int);
            assert(t.len() == j + 1);
            assert(t[t.len() - 1] == name@[j as int]);
            assert(t.drop_last() =~= name@.take(j as int));
        }
    }
    if j == 0 {
        proof {
            assert(last_dot_index(name@.take(0)) == -1);
        }
        strip_stem_exec(name)
    } else {
        proof {
            let t = name@.take(j as int);
            assert(t.len() == j);
            assert(t[t.len() - 1] == name@[j - 1]);
            assert(last_dot_index(t) == j - 1);
        }
        let stem = name.substring_char(0, j - 1);
        let mut out = strip_stem_exec(stem);
        let tail = name.substring_char(j - 1, n);
        out.append(tail);
        proof {
            assert(stem@ =~= name@.take(j - 1));
        }
        out
    }
}

/// Stem part of a name: everything before its last dot, or the whole name
/// when it has no dot.
pub open spec fn stem_of(s: Seq<char>) -> Seq<char> {
    let ld = last_dot_index(s);
    if ld < 0 {
        s
    } else {
        s.take(ld)
    }
}

/// Law: normalization changes nothing when applied a second time, provided
/// the first pass left a stem that matches no copy-suffix pattern.  (A name
/// whose stripped stem still carries a suffix, such as `"a (1) (2).txt"`, is
/// stripped again on the second pass.)
pub proof fn lemma_normalize_idempotent(name: Seq<char>)
    requires
        !stem_matches_any(stem_of(normalize_spec(name))),
    ensures
        normalize_spec(normalize_spec(name)) == normalize_spec(name),
{
    let r = normalize_spec(name);
    lemma_last_dot_index_bounds(r);
    let ld = last_dot_index(r);
    if ld < 0 {
        assert(stem_of(r) == r);
        assert(strip_stem(r) == r);
    } else {
        assert(stem_of(r) == r.take(ld));
        assert(strip_stem(r.take(ld)) == r.take(ld));
        assert(r.take(ld) + r.subrange(ld, r.len() as int) =~= r);
    }
}

} // verus!
