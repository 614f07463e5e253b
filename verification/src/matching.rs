//! Matching of one compiled tag pattern against a document position, and
//! expansion of a replacement template from the captured values.
//!
//! A pattern for a tag named `name` with required attributes `a1 .. ak`
//! matches, in order: `<name`; then for each attribute one-or-more
//! whitespace characters, the attribute name, `="`, and a captured run of
//! characters up to the next `"`; then, for a self-closing tag, optional
//! whitespace, an optional `/`, and `>`; for a paired tag, optional
//! whitespace, `>`, the captured inner content (any characters, line
//! breaks included), and the nearest closing `</name>` (whitespace
//! tolerated before its `>`). Inner content ends at the first closing
//! sequence, so the capture is as short as possible.

use vstd::prelude::*;
use crate::text::{
    is_space, is_digit, digit_val, has_lit_at, skip_spaces, find_char,
    exec_is_digit, exec_has_lit_at, exec_skip_spaces, exec_find_char, push_all, push_range,
};

verus! {

/// A compiled matcher: tag name, required attribute names in order, and
/// whether the tag is paired (captures inner content and requires a
/// closing tag) or self-closing.
pub struct Pattern {
    pub name: Vec<char>,
    pub attrs: Vec<Vec<char>>,
    pub paired: bool,
}

impl Pattern {
    /// Number of capture groups the pattern declares: one per attribute,
    /// plus one for the inner content of a paired tag.
    pub open spec fn group_count(self) -> int {
        self.attrs@.len() + if self.paired {
            1int
        } else {
            0int
        }
    }
}

/// Match one attribute `name="value"`, preceded by at least one
/// whitespace character, at position `i`. Returns the position after the
/// closing quote and the captured value.
pub open spec fn match_attr_at(s: Seq<char>, i: int, attr: Seq<char>) -> Option<(int, Seq<char>)> {
    let j = skip_spaces(s, i);
    if j > i && has_lit_at(s, j, attr + seq!['=', '"']) {
        let vstart = j + attr.len() + 2;
        match find_char(s, vstart, '"') {
            Some(q) => Some((q + 1, s.subrange(vstart, q))),
            None => None,
        }
    } else {
        None
    }
}

/// Match a whole attribute list in order, returning the position after
/// the last closing quote and the captured values in declaration order.
pub open spec fn match_attrs_at(s: Seq<char>, i: int, attrs: Seq<Seq<char>>) -> Option<
    (int, Seq<Seq<char>>),
>
    decreases attrs.len(),
{
    if attrs.len() == 0 {
        Some((i, Seq::empty()))
    } else {
        match match_attr_at(s, i, attrs[0]) {
            Some(jv) => match match_attrs_at(s, jv.0, attrs.drop_first()) {
                Some(kvs) => Some((kvs.0, seq![jv.1] + kvs.1)),
                None => None,
            },
            None => None,
        }
    }
}

/// Match the end of a self-closing tag: optional whitespace, an optional
/// `/`, then `>`. Returns the position after `>`.
pub open spec fn match_empty_tail(s: Seq<char>, i: int) -> Option<int> {
    let j = skip_spaces(s, i);
    if j < s.len() && s[j] == '/' {
        if j + 1 < s.len() && s[j + 1] == '>' {
            Some(j + 2)
        } else {
            None
        }
    } else if j < s.len() && s[j] == '>' {
        Some(j + 1)
    } else {
        None
    }
}

/// A closing tag `</name>` stands at position `k`, with optional
/// whitespace before its `>`.
pub open spec fn is_close_at(s: Seq<char>, k: int, name: Seq<char>) -> bool {
    has_lit_at(s, k, seq!['<', '/'] + name) && {
        let m = skip_spaces(s, k + 2 + name.len());
        m < s.len() && s[m] == '>'
    }
}

/// Position just after the `>` of the closing tag at `k`.
pub open spec fn close_end(s: Seq<char>, k: int, name: Seq<char>) -> int {
    skip_spaces(s, k + 2 + name.len()) + 1
}

/// First position `k >= i` where a closing tag `</name>` stands.
pub open spec fn find_close(s: Seq<char>, i: int, name: Seq<char>) -> Option<int>
    decreases s.len() - i,
{
    if i < 0 || i > s.len() {
        None
    } else if is_close_at(s, i, name) {
        Some(i)
    } else if i == s.len() {
        None
    } else {
        find_close(s, i + 1, name)
    }
}

/// Match the end of a paired tag: optional whitespace, `>`, then the
/// shortest inner content up to a closing `</name>`. Returns the position
/// after the closing tag and the captured inner content.
pub open spec fn match_paired_tail(s: Seq<char>, i: int, name: Seq<char>) -> Option<
    (int, Seq<char>),
> {
    let j = skip_spaces(s, i);
    if j < s.len() && s[j] == '>' {
        match find_close(s, j + 1, name) {
            Some(k) => Some((close_end(s, k, name), s.subrange(j + 1, k))),
            None => None,
        }
    } else {
        None
    }
}

/// Match a whole pattern at position `i` of `s`. Returns the position
/// after the match and the captured values: one per attribute, plus the
/// inner content last for a paired tag.
pub open spec fn pattern_match_at(s: Seq<char>, i: int, p: Pattern) -> Option<
    (int, Seq<Seq<char>>),
> {
    if has_lit_at(s, i, seq!['<'] + p.name@) {
        match match_attrs_at(s, i + 1 + p.name@.len(), p.attrs.deep_view()) {
            Some(jcaps) => if p.paired {
                match match_paired_tail(s, jcaps.0, p.name@) {
                    Some(endinner) => Some((endinner.0, jcaps.1 + seq![endinner.1])),
                    None => None,
                }
            } else {
                match match_empty_tail(s, jcaps.0) {
                    Some(end) => Some((end, jcaps.1)),
                    None => None,
                }
            },
            None => None,
        }
    } else {
        None
    }
}

pub proof fn lemma_skip_spaces_bounds(s: Seq<char>, i: int)
    requires
        0 <= i <= s.len(),
    ensures
        i <= skip_spaces(s, i) <= s.len(),
    decreases s.len() - i,
{
    if i < s.len() && is_space(s[i]) {
        lemma_skip_spaces_bounds(s, i + 1);
    }
}

pub proof fn lemma_find_char_bounds(s: Seq<char>, i: int, c: char)
    requires
        0 <= i,
    ensures
        find_char(s, i, c) matches Some(q) ==> i <= q < s.len() && s[q] == c,
    decreases s.len() - i,
{
    if i < s.len() && s[i] != c {
        lemma_find_char_bounds(s, i + 1, c);
    }
}

pub proof fn lemma_match_attr_bounds(s: Seq<char>, i: int, attr: Seq<char>)
    requires
        0 <= i <= s.len(),
    ensures
        match_attr_at(s, i, attr) matches Some(jv) ==> i < jv.0 <= s.len(),
{
    lemma_skip_spaces_bounds(s, i);
    let j = skip_spaces(s, i);
    if j > i && has_lit_at(s, j, attr + seq!['=', '"']) {
        lemma_find_char_bounds(s, j + attr.len() + 2, '"');
    }
}

pub proof fn lemma_match_attrs_bounds(s: Seq<char>, i: int, attrs: Seq<Seq<char>>)
    requires
        0 <= i <= s.len(),
    ensures
        match_attrs_at(s, i, attrs) matches Some(kvs) ==> i <= kvs.0 <= s.len() && kvs.1.len()
            == attrs.len(),
    decreases attrs.len(),
{
    if attrs.len() > 0 {
        lemma_match_attr_bounds(s, i, attrs[0]);
        match match_attr_at(s, i, attrs[0]) {
            Some(jv) => lemma_match_attrs_bounds(s, jv.0, attrs.drop_first()),
            None => {},
        }
    }
}

pub proof fn lemma_find_close_bounds(s: Seq<char>, i: int, name: Seq<char>)
    requires
        0 <= i,
    ensures
        find_close(s, i, name) matches Some(k) ==> i <= k <= s.len() && is_close_at(s, k, name),
    decreases s.len() - i,
{
    if 0 <= i <= s.len() && !is_close_at(s, i, name) && i < s.len() {
        lemma_find_close_bounds(s, i + 1, name);
    }
}

pub proof fn lemma_close_end_bounds(s: Seq<char>, k: int, name: Seq<char>)
    requires
        0 <= k,
        is_close_at(s, k, name),
    ensures
        k < close_end(s, k, name) <= s.len(),
{
    lemma_skip_spaces_bounds(s, k + 2 + name.len());
}

pub proof fn lemma_match_paired_tail_bounds(s: Seq<char>, i: int, name: Seq<char>)
    requires
        0 <= i <= s.len(),
    ensures
        match_paired_tail(s, i, name) matches Some(ei) ==> i < ei.0 <= s.len(),
{
    lemma_skip_spaces_bounds(s, i);
    let j = skip_spaces(s, i);
    if j < s.len() && s[j] == '>' {
        lemma_find_close_bounds(s, j + 1, name);
        match find_close(s, j + 1, name) {
            Some(k) => lemma_close_end_bounds(s, k, name),
            None => {},
        }
    }
}

pub proof fn lemma_match_empty_tail_bounds(s: Seq<char>, i: int)
    requires
        0 <= i <= s.len(),
    ensures
        match_empty_tail(s, i) matches Some(end) ==> i < end <= s.len(),
{
    lemma_skip_spaces_bounds(s, i);
}

/// A pattern match always ends strictly after where it began, inside the
/// document, and yields exactly the declared number of captures.
pub proof fn lemma_pattern_match_bounds(s: Seq<char>, i: int, p: Pattern)
    ensures
        pattern_match_at(s, i, p) matches Some(m) ==> i < m.0 <= s.len() && m.1.len()
            == p.group_count(),
{
    if has_lit_at(s, i, seq!['<'] + p.name@) {
        let after_name = i + 1 + p.name@.len();
        assert(0 <= after_name <= s.len());
        lemma_match_attrs_bounds(s, after_name, p.attrs.deep_view());
        match match_attrs_at(s, after_name, p.attrs.deep_view()) {
            Some(jcaps) => {
                if p.paired {
                    lemma_match_paired_tail_bounds(s, jcaps.0, p.name@);
                } else {
                    lemma_match_empty_tail_bounds(s, jcaps.0);
                }
            },
            None => {},
        }
    }
}

/// Capture `n` of `caps`, counting from one; out-of-range references
/// expand to nothing.
pub open spec fn cap_text(caps: Seq<Seq<char>>, n: int) -> Seq<char> {
    if 1 <= n <= caps.len() {
        caps[n - 1]
    } else {
        Seq::empty()
    }
}

/// Expansion of the template suffix `tpl[i..]` with captured values
/// `caps`: `$` followed by a single decimal digit `n` becomes capture
/// `n`; every other character stands for itself.
pub open spec fn expand_from(tpl: Seq<char>, caps: Seq<Seq<char>>, i: int) -> Seq<char>
    decreases tpl.len() - i,
{
    if !(0 <= i < tpl.len()) {
        Seq::empty()
    } else if tpl[i] == '$' && i + 1 < tpl.len() && is_digit(tpl[i + 1]) {
        cap_text(caps, digit_val(tpl[i + 1])) + expand_from(tpl, caps, i + 2)
    } else {
        seq![tpl[i]] + expand_from(tpl, caps, i + 1)
    }
}

/// Full expansion of a replacement template.
pub open spec fn expand(tpl: Seq<char>, caps: Seq<Seq<char>>) -> Seq<char> {
    expand_from(tpl, caps, 0)
}

fn exec_match_attr(s: &Vec<char>, i: usize, attr: &Vec<char>) -> (r: Option<(usize, Vec<char>)>)
    requires
        i <= s@.len(),
    ensures
        match r {
            Some(jv) => match_attr_at(s@, i as int, attr@) matches Some(m) && m.0 == jv.0 as int
                && m.1 == jv.1@ && i < jv.0 <= s@.len(),
            None => match_attr_at(s@, i as int, attr@) is None,
        },
{
    proof {
        lemma_match_attr_bounds(s@, i as int, attr@);
    }
    let j = exec_skip_spaces(s, i);
    if j == i {
        return None;
    }
    let mut open: Vec<char> = Vec::new();
    push_all(&mut open, attr);
    open.push('=');
    open.push('"');
    proof {
        assert(open@ =~= attr@ + seq!['=', '"']);
    }
    if !exec_has_lit_at(s, j, &open) {
        return None;
    }
    let slen = s.len();
    proof {
        assert(j + attr@.len() + 2 <= slen as int);
    }
    let vstart = j + attr.len() + 2;
    match exec_find_char(s, vstart, '"') {
        Some(q) => {
            let mut value: Vec<char> = Vec::new();
            push_range(&mut value, s, vstart, q);
            Some((q + 1, value))
        },
        None => None,
    }
}

fn exec_match_attrs(s: &Vec<char>, i: usize, attrs: &Vec<Vec<char>>) -> (r: Option<
    (usize, Vec<Vec<char>>),
>)
    requires
        i <= s@.len(),
    ensures
        match r {
            Some(kvs) => match_attrs_at(s@, i as int, attrs.deep_view()) matches Some(m) && m.0
                == kvs.0 as int && m.1 == kvs.1.deep_view() && i <= kvs.0 <= s@.len(),
            None => match_attrs_at(s@, i as int, attrs.deep_view()) is None,
        },
{
    let mut j: usize = i;
    let mut caps: Vec<Vec<char>> = Vec::new();
    let mut a: usize = 0;
    proof {
        assert(attrs.deep_view().skip(0) =~= attrs.deep_view());
        assert(caps.deep_view() =~= Seq::<Seq<char>>::empty());
        match match_attrs_at(s@, i as int, attrs.deep_view()) {
            Some(m) => {
                assert(caps.deep_view() + m.1 =~= m.1);
            },
            None => {},
        }
    }
    while a < attrs.len()
        invariant
            i <= j <= s@.len(),
            a <= attrs@.len(),
            (match_attrs_at(s@, i as int, attrs.deep_view()) is Some) <==> (match_attrs_at(
                s@,
                j as int,
                attrs.deep_view().skip(a as int),
            ) is Some),
            match_attrs_at(s@, i as int, attrs.deep_view()) is Some ==> {
                let m = match_attrs_at(s@, i as int, attrs.deep_view())->Some_0;
                let m2 = match_attrs_at(s@, j as int, attrs.deep_view().skip(a as int))->Some_0;
                m.0 == m2.0 && m.1 == caps.deep_view() + m2.1
            },
        decreases attrs@.len() - a,
    {
        proof {
            assert(attrs.deep_view().skip(a as int)[0] == attrs@[a as int]@);
        }
        match exec_match_attr(s, j, &attrs[a]) {
            Some(jv) => {
                proof {
                    lemma_match_attrs_unfold(s@, j as int, attrs.deep_view().skip(a as int));
                    assert(attrs.deep_view().skip(a as int).drop_first() =~= attrs.deep_view().skip(
                        a + 1,
                    ));
                }
                let ghost old_caps = caps.deep_view();
                let ghost v = jv.1@;
                j = jv.0;
                caps.push(jv.1);
                a = a + 1;
                proof {
                    assert(caps.deep_view() =~~= old_caps + seq![v]);
                    lemma_match_attrs_unfold(s@, j as int, attrs.deep_view().skip(a - 1));
                }
            },
            None => {
                proof {
                    lemma_match_attrs_unfold(s@, j as int, attrs.deep_view().skip(a as int));
                }
                return None;
            },
        }
    }
    proof {
        assert(attrs.deep_view().skip(attrs@.len() as int) =~= Seq::<Seq<char>>::empty());
        match match_attrs_at(s@, i as int, attrs.deep_view()) {
            Some(m) => {
                assert(m.1 =~= caps.deep_view() + Seq::<Seq<char>>::empty());
                assert(caps.deep_view() + Seq::<Seq<char>>::empty() =~= caps.deep_view());
            },
            None => {},
        }
    }
    Some((j, caps))
}

/// One unfolding step of `match_attrs_at` on a non-empty attribute list.
proof fn lemma_match_attrs_unfold(s: Seq<char>, i: int, attrs: Seq<Seq<char>>)
    requires
        attrs.len() > 0,
    ensures
        match_attrs_at(s, i, attrs) == (match match_attr_at(s, i, attrs[0]) {
            Some(jv) => match match_attrs_at(s, jv.0, attrs.drop_first()) {
                Some(kvs) => Some((kvs.0, seq![jv.1] + kvs.1)),
                None => None,
            },
            None => None,
        }),
{
}

fn exec_match_empty_tail(s: &Vec<char>, i: usize) -> (r: Option<usize>)
    requires
        i <= s@.len(),
    ensures
        match r {
            Some(end) => match_empty_tail(s@, i as int) == Some(end as int) && i < end <= s@.len(),
            None => match_empty_tail(s@, i as int) is None,
        },
{
    proof {
        lemma_match_empty_tail_bounds(s@, i as int);
    }
    let j = exec_skip_spaces(s, i);
    if j < s.len() && s[j] == '/' {
        if j + 1 < s.len() && s[j + 1] == '>' {
            Some(j + 2)
        } else {
            None
        }
    } else if j < s.len() && s[j] == '>' {
        Some(j + 1)
    } else {
        None
    }
}

fn exec_is_close_at(s: &Vec<char>, k: usize, name: &Vec<char>) -> (b: bool)
    requires
        k <= s@.len(),
    ensures
        b == is_close_at(s@, k as int, name@),
{
    let mut close: Vec<char> = Vec::new();
    close.push('<');
    close.push('/');
    push_all(&mut close, name);
    proof {
        assert(close@ =~= seq!['<', '/'] + name@);
    }
    if !exec_has_lit_at(s, k, &close) {
        return false;
    }
    let slen = s.len();
    proof {
        assert(k + 2 + name@.len() <= slen as int);
    }
    let m = exec_skip_spaces(s, k + 2 + name.len());
    m < s.len() && s[m] == '>'
}

fn exec_find_close(s: &Vec<char>, i: usize, name: &Vec<char>) -> (r: Option<usize>)
    requires
        i <= s@.len(),
    ensures
        match r {
            Some(k) => find_close(s@, i as int, name@) == Some(k as int) && i <= k <= s@.len(),
            None => find_close(s@, i as int, name@) is None,
        },
{
    let mut k: usize = i;
    loop
        invariant
            i <= k <= s@.len(),
            find_close(s@, i as int, name@) == find_close(s@, k as int, name@),
        decreases s@.len() - k + 1,
    {
        if exec_is_close_at(s, k, name) {
            return Some(k);
        }
        if k == s.len() {
            return None;
        }
        k = k + 1;
    }
}

fn exec_match_paired_tail(s: &Vec<char>, i: usize, name: &Vec<char>) -> (r: Option<
    (usize, Vec<char>),
>)
    requires
        i <= s@.len(),
    ensures
        match r {
            Some(ei) => match_paired_tail(s@, i as int, name@) matches Some(m) && m.0 == ei.0 as int
                && m.1 == ei.1@ && i < ei.0 <= s@.len(),
            None => match_paired_tail(s@, i as int, name@) is None,
        },
{
    proof {
        lemma_match_paired_tail_bounds(s@, i as int, name@);
    }
    let j = exec_skip_spaces(s, i);
    if j < s.len() && s[j] == '>' {
        match exec_find_close(s, j + 1, name) {
            Some(k) => {
                let slen = s.len();
                proof {
                    lemma_find_close_bounds(s@, j + 1, name@);
                    lemma_close_end_bounds(s@, k as int, name@);
                    assert(k + 2 + name@.len() <= slen as int);
                }
                let m = exec_skip_spaces(s, k + 2 + name.len());
                let mut inner: Vec<char> = Vec::new();
                push_range(&mut inner, s, j + 1, k);
                Some((m + 1, inner))
            },
            None => None,
        }
    } else {
        None
    }
}

/// Try to match `p` at position `i` of `s`; on success return the
/// position after the match and the captured values.
pub fn exec_pattern_match(s: &Vec<char>, i: usize, p: &Pattern) -> (r: Option<
    (usize, Vec<Vec<char>>),
>)
    requires
        i <= s@.len(),
    ensures
        match r {
            Some(m) => pattern_match_at(s@, i as int, *p) matches Some(sm) && sm.0 == m.0 as int
                && sm.1 == m.1.deep_view() && i < m.0 <= s@.len(),
            None => pattern_match_at(s@, i as int, *p) is None,
        },
{
    proof {
        lemma_pattern_match_bounds(s@, i as int, *p);
    }
    let mut open: Vec<char> = Vec::new();
    open.push('<');
    push_all(&mut open, &p.name);
    proof {
        assert(open@ =~= seq!['<'] + p.name@);
    }
    if !exec_has_lit_at(s, i, &open) {
        return None;
    }
    let slen = s.len();
    proof {
        assert(i + 1 + p.name@.len() <= slen as int);
    }
    let after_name = i + 1 + p.name.len();
    match exec_match_attrs(s, after_name, &p.attrs) {
        Some(jcaps) => {
            let (j, mut caps) = jcaps;
            if p.paired {
                match exec_match_paired_tail(s, j, &p.name) {
                    Some(ei) => {
                        let ghost old_caps = caps.deep_view();
                        let ghost inner = ei.1@;
                        caps.push(ei.1);
                        proof {
                            assert(caps.deep_view() =~~= old_caps + seq![inner]);
                        }
                        Some((ei.0, caps))
                    },
                    None => None,
                }
            } else {
                match exec_match_empty_tail(s, j) {
                    Some(end) => Some((end, caps)),
                    None => None,
                }
            }
        },
        None => None,
    }
}

/// Expand a replacement template with the given captured values.
pub fn exec_expand(tpl: &Vec<char>, caps: &Vec<Vec<char>>) -> (r: Vec<char>)
    ensures
        r@ == expand(tpl@, caps.deep_view()),
{
    let mut out: Vec<char> = Vec::new();
    let mut i: usize = 0;
    while i < tpl.len()
        invariant
            i <= tpl@.len(),
            out@ + expand_from(tpl@, caps.deep_view(), i as int) == expand(tpl@, caps.deep_view()),
        decreases tpl@.len() - i,
    {
        let ghost pre = out@;
        if tpl[i] == '$' && i + 1 < tpl.len() && exec_is_digit(tpl[i + 1]) {
            let c = tpl[i + 1];
            let n = (c as u32 - '0' as u32) as usize;
            proof {
                assert(n as int == digit_val(tpl@[i + 1]));
            }
            if 1 <= n && n <= caps.len() {
                push_all(&mut out, &caps[n - 1]);
                proof {
                    assert(out@ =~= pre + cap_text(caps.deep_view(), n as int));
                }
            } else {
                proof {
                    assert(out@ =~= pre + cap_text(caps.deep_view(), n as int));
                }
            }
            proof {
                assert(pre + (cap_text(caps.deep_view(), n as int) + expand_from(
                    tpl@,
                    caps.deep_view(),
                    i + 2,
                )) =~= out@ + expand_from(tpl@, caps.deep_view(), i + 2));
            }
            i = i + 2;
        } else {
            out.push(tpl[i]);
            proof {
                assert(pre + (seq![tpl@[i as int]] + expand_from(tpl@, caps.deep_view(), i + 1))
                    =~= out@ + expand_from(tpl@, caps.deep_view(), i + 1));
            }
            i = i + 1;
        }
    }
    proof {
        assert(out@ + expand_from(tpl@, caps.deep_view(), tpl@.len() as int) =~= out@);
    }
    out
}

} // verus!
