//! Character-level primitives shared by every transformation stage:
//! character classes, literal matching, and substring search.

use vstd::prelude::*;
use vstd::string::StrSliceExecFns;

verus! {

/// Whitespace, as tag patterns tolerate it between tokens.
pub open spec fn is_space(c: char) -> bool {
    c == ' ' || c == '\t' || c == '\n' || c == '\r' || c == '\u{000B}' || c == '\u{000C}'
}

/// Word characters bound a mention handle: a handle match may not be
/// followed by one of these.
pub open spec fn is_word_char(c: char) -> bool {
    ('a' as u32 <= c as u32 && c as u32 <= 'z' as u32)
        || ('A' as u32 <= c as u32 && c as u32 <= 'Z' as u32)
        || ('0' as u32 <= c as u32 && c as u32 <= '9' as u32)
        || c == '_'
}

/// Decimal digits, as template back-references use them.
pub open spec fn is_digit(c: char) -> bool {
    '0' as u32 <= c as u32 && c as u32 <= '9' as u32
}

/// Numeric value of a decimal digit.
pub open spec fn digit_val(c: char) -> int {
    c as u32 - '0' as u32
}

pub fn exec_is_space(c: char) -> (b: bool)
    ensures
        b == is_space(c),
{
    c == ' ' || c == '\t' || c == '\n' || c == '\r' || c == '\u{000B}' || c == '\u{000C}'
}

pub fn exec_is_word_char(c: char) -> (b: bool)
    ensures
        b == is_word_char(c),
{
    let u = c as u32;
    ('a' as u32 <= u && u <= 'z' as u32) || ('A' as u32 <= u && u <= 'Z' as u32) || ('0' as u32
        <= u && u <= '9' as u32) || c == '_'
}

pub fn exec_is_digit(c: char) -> (b: bool)
    ensures
        b == is_digit(c),
{
    let u = c as u32;
    '0' as u32 <= u && u <= '9' as u32
}

/// The literal `lit` occurs in `s` starting at position `i`.
pub open spec fn has_lit_at(s: Seq<char>, i: int, lit: Seq<char>) -> bool {
    0 <= i && i + lit.len() <= s.len() && s.subrange(i, i + lit.len()) == lit
}

/// First position `j >= i` whose character is not whitespace (`s.len()`
/// if the tail is all whitespace).
pub open spec fn skip_spaces(s: Seq<char>, i: int) -> int
    decreases s.len() - i,
{
    if 0 <= i && i < s.len() && is_space(s[i]) {
        skip_spaces(s, i + 1)
    } else {
        i
    }
}

/// First position `j >= i` holding character `c`.
pub open spec fn find_char(s: Seq<char>, i: int, c: char) -> Option<int>
    decreases s.len() - i,
{
    if i < 0 || i >= s.len() {
        None
    } else if s[i] == c {
        Some(i)
    } else {
        find_char(s, i + 1, c)
    }
}

/// Leftmost occurrence of `pat` in `s` at or after position `i`.
pub open spec fn find_sub(s: Seq<char>, pat: Seq<char>, i: int) -> Option<int>
    decreases s.len() - i,
{
    if i < 0 || i > s.len() {
        None
    } else if has_lit_at(s, i, pat) {
        Some(i)
    } else if i == s.len() {
        None
    } else {
        find_sub(s, pat, i + 1)
    }
}

/// The characters of `s`, as a vector.
pub fn chars_of(s: &str) -> (r: Vec<char>)
    ensures
        r@ == s@,
{
    let n = s.unicode_len();
    let mut r: Vec<char> = Vec::new();
    let mut i: usize = 0;
    while i < n
        invariant
            n == s@.len(),
            i <= n,
            r@ == s@.subrange(0, i as int),
        decreases n - i,
    {
        r.push(s.get_char(i));
        proof {
            assert(r@ =~= s@.subrange(0, i + 1));
        }
        i = i + 1;
    }
    proof {
        assert(r@ =~= s@);
    }
    r
}

/// Append every character of `src` to `out`.
pub fn push_all(out: &mut Vec<char>, src: &Vec<char>)
    ensures
        final(out)@ == old(out)@ + src@,
{
    let mut k: usize = 0;
    while k < src.len()
        invariant
            k <= src@.len(),
            out@ == old(out)@ + src@.subrange(0, k as int),
        decreases src@.len() - k,
    {
        out.push(src[k]);
        proof {
            assert(old(out)@ + src@.subrange(0, k as int) + seq![src@[k as int]] =~= old(out)@
                + src@.subrange(0, k + 1));
        }
        k = k + 1;
    }
    proof {
        assert(old(out)@ + src@.subrange(0, src@.len() as int) =~= old(out)@ + src@);
    }
}

/// Append the characters `src[from..to]` to `out`.
pub fn push_range(out: &mut Vec<char>, src: &Vec<char>, from: usize, to: usize)
    requires
        from <= to <= src@.len(),
    ensures
        final(out)@ == old(out)@ + src@.subrange(from as int, to as int),
{
    let mut k: usize = from;
    while k < to
        invariant
            from <= k <= to <= src@.len(),
            out@ == old(out)@ + src@.subrange(from as int, k as int),
        decreases to - k,
    {
        out.push(src[k]);
        proof {
            assert(old(out)@ + src@.subrange(from as int, k as int) + seq![src@[k as int]]
                =~= old(out)@ + src@.subrange(from as int, k + 1));
        }
        k = k + 1;
    }
}

pub fn exec_has_lit_at(s: &Vec<char>, i: usize, lit: &Vec<char>) -> (b: bool)
    ensures
        b == has_lit_at(s@, i as int, lit@),
{
    if lit.len() > s.len() || i > s.len() - lit.len() {
        return false;
    }
    let mut k: usize = 0;
    while k < lit.len()
        invariant
            i + lit@.len() <= s@.len(),
            s@.len() <= usize::MAX,
            k <= lit@.len(),
            forall|j: int| 0 <= j < k ==> s@[i + j] == lit@[j],
        decreases lit@.len() - k,
    {
        if s[i + k] != lit[k] {
            proof {
                assert(s@.subrange(i as int, i + lit@.len())[k as int] != lit@[k as int]);
            }
            return false;
        }
        k = k + 1;
    }
    proof {
        assert(s@.subrange(i as int, i + lit@.len()) =~= lit@);
    }
    true
}

pub fn exec_skip_spaces(s: &Vec<char>, i: usize) -> (j: usize)
    requires
        i <= s@.len(),
    ensures
        j == skip_spaces(s@, i as int),
        i <= j <= s@.len(),
{
    let mut j: usize = i;
    while j < s.len() && exec_is_space(s[j])
        invariant
            i <= j <= s@.len(),
            skip_spaces(s@, i as int) == skip_spaces(s@, j as int),
        decreases s@.len() - j,
    {
        j = j + 1;
    }
    j
}

pub fn exec_find_char(s: &Vec<char>, i: usize, c: char) -> (r: Option<usize>)
    requires
        i <= s@.len(),
    ensures
        match r {
            Some(j) => find_char(s@, i as int, c) == Some(j as int) && i <= j < s@.len(),
            None => find_char(s@, i as int, c) is None,
        },
{
    let mut j: usize = i;
    while j < s.len()
        invariant
            i <= j <= s@.len(),
            find_char(s@, i as int, c) == find_char(s@, j as int, c),
        decreases s@.len() - j,
    {
        if s[j] == c {
            return Some(j);
        }
        j = j + 1;
    }
    None
}

pub fn exec_find_sub(s: &Vec<char>, pat: &Vec<char>) -> (r: Option<usize>)
    ensures
        match r {
            Some(j) => find_sub(s@, pat@, 0) == Some(j as int) && j + pat@.len() <= s@.len(),
            None => find_sub(s@, pat@, 0) is None,
        },
{
    let mut i: usize = 0;
    loop
        invariant
            i <= s@.len(),
            find_sub(s@, pat@, 0) == find_sub(s@, pat@, i as int),
        decreases s@.len() - i + 1,
    {
        if exec_has_lit_at(s, i, pat) {
            return Some(i);
        }
        if i == s.len() {
            return None;
        }
        i = i + 1;
    }
}

/// `find_sub` returns the leftmost occurrence: a hit is an occurrence and
/// nothing earlier matches; a miss means no position matches at all.
pub proof fn lemma_find_sub_leftmost(s: Seq<char>, pat: Seq<char>, i: int)
    requires
        0 <= i <= s.len(),
    ensures
        match find_sub(s, pat, i) {
            Some(j) => i <= j && has_lit_at(s, j, pat) && forall|k: int|
                i <= k < j ==> !has_lit_at(s, k, pat),
            None => forall|k: int| i <= k ==> !has_lit_at(s, k, pat),
        },
    decreases s.len() - i,
{
    if has_lit_at(s, i, pat) {
    } else if i == s.len() {
        assert forall|k: int| i <= k implies !has_lit_at(s, k, pat) by {
            if has_lit_at(s, k, pat) {
                assert(k == i && pat.len() == 0);
                assert(s.subrange(i, i) =~= pat);
            }
        }
    } else {
        lemma_find_sub_leftmost(s, pat, i + 1);
    }
}

} // verus!
