//! The transform engine: a fixed three-stage pipeline over one document.
//!
//! First the fixed header block is injected immediately after the first
//! `<head>` token, if any. Then every configured mention entry is
//! applied, in table order. Last, every registered tag rule is applied,
//! in registration order, each pass replacing all non-overlapping
//! matches over the previous pass's output. A rule's replacement is not
//! rescanned by that same rule, but a later rule may match inside it:
//! that ordering behaviour is intended and observable.

use vstd::prelude::*;
use crate::matching::{pattern_match_at, expand, exec_pattern_match, exec_expand};
use crate::mentions::{
    MentionEntry, apply_mentions, replace_mentions, no_mention_matches, lemma_mentions_no_match,
};
use crate::rules::{Rule, LowC};
use crate::text::{
    has_lit_at, find_sub, chars_of, push_all, push_range, exec_find_sub, lemma_find_sub_leftmost,
};

verus! {

/// The literal `<head>` token that anchors header injection.
pub open spec fn head_open() -> Seq<char> {
    "<head>"@
}

/// The fixed block of meta tags injected after the first `<head>`.
pub open spec fn header_block() -> Seq<char> {
    r#"
            <meta charset="UTF-8" />
            <meta name="viewport" content="width=device-width, initial-scale=1.0" />
            <meta http-equiv="X-UA-Compatible" content="IE=edge" />

            <!-- Google, please don't mess with my lovingly handcrafted HTML -->
            <meta name="googlebot" content="notranslate">
        "#@
}

/// Header injection: the block goes immediately after the first
/// occurrence of `<head>`; a document without the token is unchanged.
pub open spec fn inject_header(s: Seq<char>) -> Seq<char> {
    match find_sub(s, head_open(), 0) {
        None => s,
        Some(i) => s.subrange(0, i + head_open().len()) + header_block() + s.subrange(
            i + head_open().len(),
            s.len() as int,
        ),
    }
}

/// One rule applied to the suffix `s[i..]`: scan left to right, replace
/// each match by its expanded template, and continue after the match, so
/// that matches do not overlap and a replacement is not rescanned by
/// this same rule.
pub open spec fn apply_rule_from(s: Seq<char>, i: int, r: Rule) -> Seq<char>
    decreases s.len() - i,
{
    if !(0 <= i < s.len()) {
        Seq::empty()
    } else {
        match pattern_match_at(s, i, r.pat) {
            Some(m) => if i < m.0 <= s.len() {
                expand(r.template@, m.1) + apply_rule_from(s, m.0, r)
            } else {
                seq![s[i]] + apply_rule_from(s, i + 1, r)
            },
            None => seq![s[i]] + apply_rule_from(s, i + 1, r),
        }
    }
}

/// One rule applied to the whole document.
pub open spec fn apply_rule(s: Seq<char>, r: Rule) -> Seq<char> {
    apply_rule_from(s, 0, r)
}

/// Every rule applied in registration order; each pass runs over the
/// previous pass's output.
pub open spec fn apply_rules(s: Seq<char>, rules: Seq<Rule>) -> Seq<char>
    decreases rules.len(),
{
    if rules.len() == 0 {
        s
    } else {
        apply_rules(apply_rule(s, rules[0]), rules.drop_first())
    }
}

/// The whole pipeline: header injection, then mentions, then tag rules.
pub open spec fn transform_spec(
    s: Seq<char>,
    rules: Seq<Rule>,
    entries: Seq<MentionEntry>,
) -> Seq<char> {
    apply_rules(apply_mentions(inject_header(s), entries), rules)
}

fn apply_rule_all(s: &Vec<char>, rule: &Rule) -> (out: Vec<char>)
    ensures
        out@ == apply_rule(s@, *rule),
{
    let mut out: Vec<char> = Vec::new();
    let mut i: usize = 0;
    proof {
        assert(out@ + apply_rule_from(s@, 0, *rule) =~= apply_rule_from(s@, 0, *rule));
    }
    while i < s.len()
        invariant
            i <= s@.len(),
            out@ + apply_rule_from(s@, i as int, *rule) == apply_rule_from(s@, 0, *rule),
        decreases s@.len() - i,
    {
        let ghost pre = out@;
        match exec_pattern_match(s, i, &rule.pat) {
            Some(m) => {
                let (end, caps) = m;
                let rep = exec_expand(&rule.template, &caps);
                push_all(&mut out, &rep);
                proof {
                    assert(pre + (rep@ + apply_rule_from(s@, end as int, *rule)) =~= out@
                        + apply_rule_from(s@, end as int, *rule));
                }
                i = end;
            },
            None => {
                out.push(s[i]);
                proof {
                    assert(pre + (seq![s@[i as int]] + apply_rule_from(s@, i + 1, *rule)) =~= out@
                        + apply_rule_from(s@, i + 1, *rule));
                }
                i = i + 1;
            },
        }
    }
    proof {
        assert(out@ + apply_rule_from(s@, i as int, *rule) =~= out@);
    }
    out
}

impl LowC {
    /// Inject the fixed header block immediately after the first
    /// `<head>` token; without the token the document passes through
    /// unchanged.
    pub fn append_header(&self, input: Vec<char>) -> (out: Vec<char>)
        ensures
            out@ == inject_header(input@),
    {
        let pat = chars_of("<head>");
        match exec_find_sub(&input, &pat) {
            None => input,
            Some(i) => {
                let ilen = input.len();
                proof {
                    assert(i + pat@.len() <= ilen as int);
                }
                let cut = i + pat.len();
                let header = chars_of(
                    r#"
            <meta charset="UTF-8" />
            <meta name="viewport" content="width=device-width, initial-scale=1.0" />
            <meta http-equiv="X-UA-Compatible" content="IE=edge" />

            <!-- Google, please don't mess with my lovingly handcrafted HTML -->
            <meta name="googlebot" content="notranslate">
        "#,
                );
                let mut out: Vec<char> = Vec::new();
                push_range(&mut out, &input, 0, cut);
                push_all(&mut out, &header);
                push_range(&mut out, &input, cut, ilen);
                out
            },
        }
    }

    /// Apply every registered rule, in registration order, each rule
    /// replacing all its non-overlapping matches over the current
    /// document state.
    pub fn replace_custom_tags(&self, input: Vec<char>) -> (out: Vec<char>)
        ensures
            out@ == apply_rules(input@, self.tags@),
    {
        let ghost orig = input@;
        let mut cur = input;
        let mut k: usize = 0;
        proof {
            assert(self.tags@.skip(0) =~= self.tags@);
        }
        while k < self.tags.len()
            invariant
                k <= self.tags@.len(),
                apply_rules(cur@, self.tags@.skip(k as int)) == apply_rules(orig, self.tags@),
            decreases self.tags@.len() - k,
        {
            proof {
                assert(self.tags@.skip(k as int)[0] == self.tags@[k as int]);
                assert(self.tags@.skip(k as int).drop_first() =~= self.tags@.skip(k + 1));
            }
            cur = apply_rule_all(&cur, &self.tags[k]);
            k = k + 1;
        }
        proof {
            assert(self.tags@.skip(self.tags@.len() as int) =~= Seq::<Rule>::empty());
        }
        cur
    }

    /// Run the whole pipeline on one document: header injection, then
    /// mention substitution with the given entries, then tag
    /// substitution with the registered rules.
    pub fn transform(&self, input: Vec<char>, mentions: &Vec<MentionEntry>) -> (out: Vec<char>)
        ensures
            out@ == transform_spec(input@, self.tags@, mentions@),
    {
        let headered = self.append_header(input);
        let mentioned = replace_mentions(headered, mentions);
        self.replace_custom_tags(mentioned)
    }
}

/// A document without the `<head>` token passes through header
/// injection unchanged.
pub proof fn lemma_header_absent(s: Seq<char>)
    requires
        forall|j: int| !#[trigger] has_lit_at(s, j, head_open()),
    ensures
        inject_header(s) == s,
{
    lemma_find_sub_leftmost(s, head_open(), 0);
    match find_sub(s, head_open(), 0) {
        Some(j) => {
            assert(has_lit_at(s, j, head_open()));
            assert(false);
        },
        None => {},
    }
}

/// In a document whose first `<head>` token stands at `i`, the block is
/// inserted immediately after that occurrence and the rest of the
/// document, later occurrences included, is kept as it was.
pub proof fn lemma_header_after_first(s: Seq<char>, i: int)
    requires
        has_lit_at(s, i, head_open()),
        forall|j: int| 0 <= j < i ==> !#[trigger] has_lit_at(s, j, head_open()),
    ensures
        inject_header(s) == s.subrange(0, i + head_open().len()) + header_block() + s.subrange(
            i + head_open().len(),
            s.len() as int,
        ),
{
    lemma_find_sub_leftmost(s, head_open(), 0);
    match find_sub(s, head_open(), 0) {
        Some(j) => {
            if j < i {
                assert(!has_lit_at(s, j, head_open()));
                assert(false);
            }
            if j > i {
                assert(!has_lit_at(s, i, head_open()));
                assert(false);
            }
        },
        None => {
            assert(!has_lit_at(s, i, head_open()));
            assert(false);
        },
    }
}

/// No rule of the set matches anywhere in the document.
pub open spec fn no_tag_matches(s: Seq<char>, rules: Seq<Rule>) -> bool {
    forall|k: int, i: int|
        0 <= k < rules.len() ==> #[trigger] pattern_match_at(s, i, rules[k].pat) is None
}

proof fn lemma_rule_no_match(s: Seq<char>, i: int, r: Rule)
    requires
        0 <= i <= s.len(),
        forall|j: int| #[trigger] pattern_match_at(s, j, r.pat) is None,
    ensures
        apply_rule_from(s, i, r) == s.subrange(i, s.len() as int),
    decreases s.len() - i,
{
    if i < s.len() {
        lemma_rule_no_match(s, i + 1, r);
        assert(seq![s[i]] + s.subrange(i + 1, s.len() as int) =~= s.subrange(i, s.len() as int));
    } else {
        assert(s.subrange(i, s.len() as int) =~= Seq::<char>::empty());
    }
}

/// A document in which no registered rule matches passes through tag
/// substitution unchanged.
pub proof fn lemma_rules_no_match(s: Seq<char>, rules: Seq<Rule>)
    requires
        no_tag_matches(s, rules),
    ensures
        apply_rules(s, rules) == s,
    decreases rules.len(),
{
    if rules.len() > 0 {
        assert forall|j: int| #[trigger] pattern_match_at(s, j, rules[0].pat) is None by {
            assert(pattern_match_at(s, j, rules[0].pat) is None);
        }
        lemma_rule_no_match(s, 0, rules[0]);
        assert(s.subrange(0, s.len() as int) =~= s);
        assert forall|k: int, i: int|
            0 <= k < rules.drop_first().len() implies #[trigger] pattern_match_at(
            s,
            i,
            rules.drop_first()[k].pat,
        ) is None by {
            assert(rules.drop_first()[k] == rules[k + 1]);
            assert(pattern_match_at(s, i, rules[k + 1].pat) is None);
        }
        lemma_rules_no_match(s, rules.drop_first());
    }
}

/// Nothing in the document triggers any stage: no `<head>` token, no
/// configured mention token, and no rule match.
pub open spec fn untouched(s: Seq<char>, rules: Seq<Rule>, entries: Seq<MentionEntry>) -> bool {
    &&& (forall|j: int| !#[trigger] has_lit_at(s, j, head_open()))
    &&& no_mention_matches(s, entries)
    &&& no_tag_matches(s, rules)
}

/// A document that triggers nothing passes through the whole pipeline
/// unchanged.
pub proof fn lemma_transform_untouched(s: Seq<char>, rules: Seq<Rule>, entries: Seq<MentionEntry>)
    requires
        untouched(s, rules, entries),
    ensures
        transform_spec(s, rules, entries) == s,
{
    lemma_header_absent(s);
    lemma_mentions_no_match(s, entries);
    lemma_rules_no_match(s, rules);
}

/// Applying the pipeline twice to a document that triggers nothing is a
/// no-op. (For other documents idempotence is not guaranteed: one
/// rule's replacement text may match a later rule's pattern, and an
/// injected header is injected again behind the `<head>` token that is
/// still present.)
pub proof fn lemma_transform_twice_untouched(
    s: Seq<char>,
    rules: Seq<Rule>,
    entries: Seq<MentionEntry>,
)
    requires
        untouched(s, rules, entries),
    ensures
        transform_spec(transform_spec(s, rules, entries), rules, entries) == s,
{
    lemma_transform_untouched(s, rules, entries);
}

} // verus!
