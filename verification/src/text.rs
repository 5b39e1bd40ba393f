//! Character-level helpers for comparing short textual keys: ASCII case
//! folding and trimming of surrounding white space.

use vstd::prelude::*;

verus! {

/// `c` with an ASCII upper-case letter replaced by its lower-case form; every
/// other character, non-ASCII letters included, is left as it is.
pub open spec fn to_ascii_lower(c: char) -> char {
    if 'A' <= c && c <= 'Z' {
        ((c as u8 + 32) as u8) as char
    } else {
        c
    }
}

/// `s` with every character folded by [`to_ascii_lower`].
pub open spec fn fold_ascii(s: Seq<char>) -> Seq<char> {
    Seq::new(s.len(), |i: int| to_ascii_lower(s[i]))
}

/// Whether two texts are equal once ASCII letters are folded to lower case.
pub open spec fn eq_ignoring_ascii_case(a: Seq<char>, b: Seq<char>) -> bool {
    fold_ascii(a) == fold_ascii(b)
}

/// Whether `c` is white space in the sense of Unicode's `White_Space`
/// property.
pub open spec fn is_space(c: char) -> bool {
    let p = c as u32;
    ||| 0x09 <= p <= 0x0D
    ||| p == 0x20
    ||| p == 0x85
    ||| p == 0xA0
    ||| p == 0x1680
    ||| 0x2000 <= p <= 0x200A
    ||| p == 0x2028
    ||| p == 0x2029
    ||| p == 0x202F
    ||| p == 0x205F
    ||| p == 0x3000
}

/// `s` without its leading white space.
pub open spec fn trim_start(s: Seq<char>) -> Seq<char>
    decreases s.len(),
{
    if s.len() > 0 && is_space(s.first()) {
        trim_start(s.drop_first())
    } else {
        s
    }
}

/// `s` without its trailing white space.
pub open spec fn trim_end(s: Seq<char>) -> Seq<char>
    decreases s.len(),
{
    if s.len() > 0 && is_space(s.last()) {
        trim_end(s.drop_last())
    } else {
        s
    }
}

/// `s` without leading and trailing white space.
pub open spec fn trimmed(s: Seq<char>) -> Seq<char> {
    trim_end(trim_start(s))
}

/// The form under which keys are compared: trimmed, then folded to ASCII
/// lower case.
pub open spec fn normalized(s: Seq<char>) -> Seq<char> {
    fold_ascii(trimmed(s))
}

/// Folds one character to ASCII lower case.
pub fn ascii_lower(c: char) -> (r: char)
    ensures
        r == to_ascii_lower(c),
{
    if 'A' <= c && c <= 'Z' {
        let b: u8 = c as u8;
        (b + 32) as char
    } else {
        c
    }
}

/// Tests a character for white space.
pub fn is_white_space(c: char) -> (b: bool)
    ensures
        b == is_space(c),
{
    let p: u32 = c as u32;
    (0x09 <= p && p <= 0x0D) || p == 0x20 || p == 0x85 || p == 0xA0 || p == 0x1680 || (0x2000 <= p
        && p <= 0x200A) || p == 0x2028 || p == 0x2029 || p == 0x202F || p == 0x205F || p == 0x3000
}

/// The characters of `s`, in order.
pub fn chars_of(s: &str) -> (out: Vec<char>)
    ensures
        out@ == s@,
{
    let mut out: Vec<char> = Vec::new();
    for c in it: s.chars()
        invariant
            out@ == it.seq().take(it.index()),
            it.seq() == s@,
    {
        out.push(c);
    }
    out
}

/// Compares two texts, ignoring the case of ASCII letters.
pub fn eq_ignore_ascii_case(a: &str, b: &str) -> (same: bool)
    ensures
        same == eq_ignoring_ascii_case(a@, b@),
{
    let left = chars_of(a);
    let right = chars_of(b);
    if left.len() != right.len() {
        assert(fold_ascii(a@).len() != fold_ascii(b@).len());
        return false;
    }
    let n: usize = left.len();
    let mut i: usize = 0;
    while i < n
        invariant
            i <= n,
            n == left.len(),
            n == right.len(),
            left@ == a@,
            right@ == b@,
            forall|j: int| 0 <= j < i ==> to_ascii_lower(left[j]) == to_ascii_lower(right[j]),
        decreases n - i,
    {
        if ascii_lower(left[i]) != ascii_lower(right[i]) {
            assert(fold_ascii(a@)[i as int] != fold_ascii(b@)[i as int]);
            return false;
        }
        i += 1;
    }
    assert(fold_ascii(a@) =~= fold_ascii(b@));
    true
}

/// Whether the characters in `v` are exactly those of `text`.
pub fn chars_equal(v: &Vec<char>, text: &str) -> (same: bool)
    ensures
        same == (v@ == text@),
{
    let other = chars_of(text);
    if v.len() != other.len() {
        return false;
    }
    let n: usize = v.len();
    let mut i: usize = 0;
    while i < n
        invariant
            i <= n,
            n == v.len(),
            n == other.len(),
            other@ == text@,
            forall|j: int| 0 <= j < i ==> v[j] == other[j],
        decreases n - i,
    {
        if v[i] != other[i] {
            return false;
        }
        i += 1;
    }
    assert(v@ =~= text@);
    true
}

/// A text folded to ASCII lower case.
pub fn fold_key(text: &str) -> (out: Vec<char>)
    ensures
        out@ == fold_ascii(text@),
{
    let v = chars_of(text);
    let mut out: Vec<char> = Vec::new();
    let mut i: usize = 0;
    while i < v.len()
        invariant
            i <= v.len(),
            out.len() == i,
            forall|j: int| 0 <= j < i ==> out[j] == to_ascii_lower(v[j]),
        decreases v.len() - i,
    {
        out.push(ascii_lower(v[i]));
        i += 1;
    }
    assert(out@ =~= fold_ascii(v@));
    out
}

/// The normalized form of `s`: surrounding white space removed and ASCII
/// letters in lower case.
pub fn normalize_key(s: &str) -> (out: Vec<char>)
    ensures
        out@ == normalized(s@),
{
    let v = chars_of(s);
    let n: usize = v.len();
    let mut start: usize = 0;
    assert(v@.subrange(0, n as int) =~= v@);
    while start < n && is_white_space(v[start])
        invariant
            start <= n,
            n == v.len(),
            trim_start(v@) == trim_start(v@.subrange(start as int, n as int)),
        decreases n - start,
    {
        assert(v@.subrange(start as int, n as int).drop_first() =~= v@.subrange(
            start as int + 1,
            n as int,
        ));
        start += 1;
    }
    let mut end: usize = n;
    while end > start && is_white_space(v[end - 1])
        invariant
            start <= end <= n,
            n == v.len(),
            trimmed(v@) == trim_end(v@.subrange(start as int, end as int)),
        decreases end,
    {
        assert(v@.subrange(start as int, end as int).drop_last() =~= v@.subrange(
            start as int,
            end as int - 1,
        ));
        end -= 1;
    }
    let mut out: Vec<char> = Vec::new();
    let mut i: usize = start;
    while i < end
        invariant
            start <= i <= end <= n,
            n == v.len(),
            out.len() == i - start,
            forall|j: int| 0 <= j < out.len() ==> out[j] == to_ascii_lower(v[start + j]),
        decreases end - i,
    {
        out.push(ascii_lower(v[i]));
        i += 1;
    }
    assert(out@ =~= fold_ascii(v@.subrange(start as int, end as int)));
    out
}

} // verus!
