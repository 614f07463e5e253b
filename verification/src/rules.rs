//! The rule set builder: tag shapes are compiled into matching patterns
//! and registered together with replacement templates, in order.
//!
//! Shape and template faults (an empty shape, a template back-reference
//! beyond the declared captures) are configuration errors surfaced at
//! registration, before any document is processed.

use vstd::prelude::*;
use crate::matching::Pattern;
use crate::text::{is_digit, digit_val, chars_of, exec_is_digit};

verus! {

/// A startup configuration fault in the built-in tag specification.
#[derive(Debug, Clone, Copy, PartialEq, Eq, Structural)]
pub enum ConfigError {
    /// A tag shape without even a tag name.
    EmptyShape,
    /// A replacement template references this capture index, which the
    /// pattern does not declare.
    CaptureOutOfRange(usize),
}

/// A compiled rule: a pattern together with its replacement template.
pub struct Rule {
    pub pat: Pattern,
    pub template: Vec<char>,
}

/// Every `$n` back-reference of the template names a declared capture:
/// `1 <= n <= groups`.
pub open spec fn template_ok(tpl: Seq<char>, groups: int) -> bool {
    forall|j: int|
        0 <= j && j + 1 < tpl.len() && #[trigger] tpl[j] == '$' && is_digit(#[trigger] tpl[j + 1])
            ==> 1 <= digit_val(tpl[j + 1]) <= groups
}

/// `template_ok` depends only on the value of its group bound.
proof fn lemma_template_ok_groups(tpl: Seq<char>, g1: int, g2: int)
    requires
        g1 == g2,
        template_ok(tpl, g1),
    ensures
        template_ok(tpl, g2),
{
    assert forall|j: int|
        0 <= j && j + 1 < tpl.len() && #[trigger] tpl[j] == '$' && is_digit(
            #[trigger] tpl[j + 1],
        ) implies 1 <= digit_val(tpl[j + 1]) <= g2 by {
        assert(1 <= digit_val(tpl[j + 1]) <= g1);
    }
}

/// Compile a tag shape (tag name followed by required attribute names,
/// in order) into a pattern. A self-closing shape captures one value per
/// attribute; a paired shape captures the inner content as one further,
/// final capture.
pub fn compile_pattern(shape: &[&str], self_closing: bool) -> (r: Result<Pattern, ConfigError>)
    ensures
        shape@.len() == 0 <==> r matches Err(ConfigError::EmptyShape),
        r is Ok <==> shape@.len() > 0,
        r matches Ok(p) ==> {
            &&& shape@.len() > 0
            &&& p.name@ == shape@[0]@
            &&& p.paired == !self_closing
            &&& p.attrs.deep_view().len() == shape@.len() - 1
            &&& (forall|k: int|
                0 <= k < shape@.len() - 1 ==> p.attrs.deep_view()[k] == shape@[k + 1]@)
            &&& p.group_count() == shape@.len() - 1 + if self_closing {
                0int
            } else {
                1int
            }
        },
{
    if shape.len() == 0 {
        return Err(ConfigError::EmptyShape);
    }
    let name = chars_of(shape[0]);
    let mut attrs: Vec<Vec<char>> = Vec::new();
    let mut k: usize = 1;
    while k < shape.len()
        invariant
            1 <= k <= shape@.len(),
            attrs.deep_view().len() == k - 1,
            forall|j: int| 0 <= j < k - 1 ==> attrs.deep_view()[j] == shape@[j + 1]@,
        decreases shape@.len() - k,
    {
        let attr = chars_of(shape[k]);
        let ghost av = attr@;
        let ghost prev = attrs@;
        let ghost prev_dv = attrs.deep_view();
        attrs.push(attr);
        proof {
            assert(attrs.deep_view()[k - 1] =~= av);
            assert forall|j: int| 0 <= j < k - 1 implies attrs.deep_view()[j] == shape@[j + 1]@ by {
                assert(attrs@[j] == prev[j]);
                assert(attrs.deep_view()[j] == prev_dv[j]);
            }
        }
        k = k + 1;
    }
    Ok(Pattern { name, attrs, paired: !self_closing })
}

/// First back-reference of `tpl` whose index lies outside `1..=groups`,
/// reported as its index value; `None` when the template is valid.
fn check_template(tpl: &Vec<char>, groups: usize) -> (r: Option<usize>)
    ensures
        r is None <==> template_ok(tpl@, groups as int),
{
    let mut i: usize = 0;
    while i < tpl.len()
        invariant
            i <= tpl@.len(),
            forall|j: int|
                0 <= j < i && j + 1 < tpl@.len() && #[trigger] tpl@[j] == '$' && is_digit(
                    #[trigger] tpl@[j + 1],
                ) ==> 1 <= digit_val(tpl@[j + 1]) <= groups,
        decreases tpl@.len() - i,
    {
        if tpl[i] == '$' && i + 1 < tpl.len() && exec_is_digit(tpl[i + 1]) {
            let c = tpl[i + 1];
            let n = (c as u32 - '0' as u32) as usize;
            if n < 1 || n > groups {
                proof {
                    assert(!(1 <= digit_val(tpl@[i + 1]) <= groups));
                }
                return Some(n);
            }
        }
        i = i + 1;
    }
    None
}

/// The process-wide rule set: compiled rules in registration order.
pub struct LowC {
    pub tags: Vec<Rule>,
}

impl LowC {
    /// Every registered rule's template references only declared captures.
    pub open spec fn wf(self) -> bool {
        forall|k: int|
            0 <= k < self.tags@.len() ==> #[trigger] template_ok(
                self.tags@[k].template@,
                self.tags@[k].pat.group_count(),
            )
    }

    /// An empty rule set.
    pub fn new() -> (r: LowC)
        ensures
            r.tags@.len() == 0,
            r.wf(),
    {
        LowC { tags: Vec::new() }
    }

    /// Register a compiled pattern with its replacement template,
    /// appending the rule to the set. Fails, leaving the set unchanged,
    /// when the template references a capture the pattern does not
    /// declare.
    pub fn register(&mut self, pat: Pattern, replacement: &str) -> (r: Result<(), ConfigError>)
        requires
            pat.attrs@.len() + 1 <= usize::MAX,
        ensures
            r is Ok <==> template_ok(replacement@, pat.group_count()),
            r matches Err(e) ==> e matches ConfigError::CaptureOutOfRange(_),
            r is Err ==> *final(self) == *old(self),
            r is Ok ==> {
                &&& final(self).tags@.len() == old(self).tags@.len() + 1
                &&& (forall|k: int|
                    0 <= k < old(self).tags@.len() ==> final(self).tags@[k] == old(self).tags@[k])
                &&& final(self).tags@.last().pat == pat
                &&& final(self).tags@.last().template@ == replacement@
            },
            old(self).wf() ==> final(self).wf(),
    {
        let template = chars_of(replacement);
        let groups = pat.attrs.len() + if pat.paired {
            1
        } else {
            0
        };
        match check_template(&template, groups) {
            Some(n) => Err(ConfigError::CaptureOutOfRange(n)),
            None => {
                self.tags.push(Rule { pat, template });
                proof {
                    assert(final(self).tags@.last().template@ == replacement@);
                    assert forall|k: int| 0 <= k < final(self).tags@.len() implies
                        #[trigger] template_ok(
                        final(self).tags@[k].template@,
                        final(self).tags@[k].pat.group_count(),
                    ) || !old(self).wf() by {
                        if k < old(self).tags@.len() {
                            assert(final(self).tags@[k] == old(self).tags@[k]);
                        }
                    }
                }
                Ok(())
            },
        }
    }

    /// Compile a paired tag shape and register it with its template.
    pub fn add_simple_tag(&mut self, args: &[&str], replacement: &str) -> (r: Result<
        (),
        ConfigError,
    >)
        ensures
            args@.len() == 0 <==> r matches Err(ConfigError::EmptyShape),
            args@.len() > 0 ==> (r is Ok <==> template_ok(replacement@, args@.len() as int)),
            r is Err ==> *final(self) == *old(self),
            r is Ok ==> {
                &&& final(self).tags@.len() == old(self).tags@.len() + 1
                &&& (forall|k: int|
                    0 <= k < old(self).tags@.len() ==> final(self).tags@[k] == old(self).tags@[k])
                &&& rule_decl(final(self).tags@.last(), args@, false, replacement@)
            },
            old(self).wf() ==> final(self).wf(),
    {
        if args.len() == 0 {
            return Err(ConfigError::EmptyShape);
        }
        match compile_pattern(args, false) {
            Ok(pat) => {
                let ghost gc = pat.group_count();
                let r = self.register(pat, replacement);
                proof {
                    if template_ok(replacement@, gc) {
                        lemma_template_ok_groups(replacement@, gc, args@.len() as int);
                    }
                    if template_ok(replacement@, args@.len() as int) {
                        lemma_template_ok_groups(replacement@, args@.len() as int, gc);
                    }
                }
                match r {
                    Ok(()) => Ok(()),
                    Err(e) => Err(e),
                }
            },
            Err(e) => Err(e),
        }
    }

    /// Compile a self-closing tag shape and register it with its
    /// template.
    pub fn add_empty_tag(&mut self, args: &[&str], replacement: &str) -> (r: Result<
        (),
        ConfigError,
    >)
        ensures
            args@.len() == 0 <==> r matches Err(ConfigError::EmptyShape),
            args@.len() > 0 ==> (r is Ok <==> template_ok(replacement@, args@.len() - 1)),
            r is Err ==> *final(self) == *old(self),
            r is Ok ==> {
                &&& final(self).tags@.len() == old(self).tags@.len() + 1
                &&& (forall|k: int|
                    0 <= k < old(self).tags@.len() ==> final(self).tags@[k] == old(self).tags@[k])
                &&& rule_decl(final(self).tags@.last(), args@, true, replacement@)
            },
            old(self).wf() ==> final(self).wf(),
    {
        if args.len() == 0 {
            return Err(ConfigError::EmptyShape);
        }
        match compile_pattern(args, true) {
            Ok(pat) => {
                let ghost gc = pat.group_count();
                let r = self.register(pat, replacement);
                proof {
                    if template_ok(replacement@, gc) {
                        lemma_template_ok_groups(replacement@, gc, args@.len() - 1);
                    }
                    if template_ok(replacement@, args@.len() - 1) {
                        lemma_template_ok_groups(replacement@, args@.len() - 1, gc);
                    }
                }
                match r {
                    Ok(()) => Ok(()),
                    Err(e) => Err(e),
                }
            },
            Err(e) => Err(e),
        }
    }
}

impl LowC {
    /// `register`, with the pattern's capture count supplied as a ghost
    /// value so that callers state templates against a known bound.
    fn register_known(&mut self, pat: Pattern, replacement: &str, Ghost(g): Ghost<int>) -> (r:
        Result<(), ConfigError>)
        requires
            pat.attrs@.len() + 1 <= usize::MAX,
            g == pat.group_count(),
        ensures
            r is Ok <==> template_ok(replacement@, g),
            r matches Err(e) ==> e matches ConfigError::CaptureOutOfRange(_),
            r is Err ==> *final(self) == *old(self),
            r is Ok ==> {
                &&& final(self).tags@.len() == old(self).tags@.len() + 1
                &&& (forall|k: int|
                    0 <= k < old(self).tags@.len() ==> final(self).tags@[k] == old(self).tags@[k])
                &&& final(self).tags@.last().pat == pat
                &&& final(self).tags@.last().template@ == replacement@
            },
            old(self).wf() ==> final(self).wf(),
    {
        let ghost gc = pat.group_count();
        let r = self.register(pat, replacement);
        proof {
            if template_ok(replacement@, gc) {
                lemma_template_ok_groups(replacement@, gc, g);
            }
            if template_ok(replacement@, g) {
                lemma_template_ok_groups(replacement@, g, gc);
            }
        }
        r
    }
}

/// The templates of the built-in tag vocabulary each reference only the
/// captures their shape declares.
pub open spec fn builtin_ok() -> bool {
    &&& template_ok("<strong><dfn>$1</dfn></strong>"@, 1)
    &&& template_ok("<strong><cite>$1</cite></strong>"@, 1)
    &&& template_ok("<a href=\"$1\">$2</a>"@, 2)
    &&& template_ok("<iframe src=\"https://yewtu.be/embed/$1\"></iframe>"@, 1)
    &&& template_ok("<img src=\"$1\" class=\"button\" width=\"88\" height=\"31\" alt=\"Button\">"@, 1)
    &&& template_ok("<figure><img src=\"$1\"></figure>"@, 1)
    &&& template_ok("<figure><img src=\"$1\" alt=\"$2\"><figcaption>$2</figcaption></figure>"@, 2)
}

/// The rule declares the given shape (name, then attribute names),
/// pairedness, and template.
pub open spec fn rule_decl(
    rule: Rule,
    args: Seq<&str>,
    self_closing: bool,
    replacement: Seq<char>,
) -> bool {
    &&& args.len() > 0
    &&& rule.pat.name@ == args[0]@
    &&& rule.pat.attrs.deep_view().len() == args.len() - 1
    &&& (forall|k: int| 0 <= k < args.len() - 1 ==> rule.pat.attrs.deep_view()[k] == args[k + 1]@)
    &&& rule.pat.paired == !self_closing
    &&& rule.template@ == replacement
}

/// The rule carries exactly this name, these attribute names, this
/// pairedness, and this template.
pub open spec fn rule_shape(
    rule: Rule,
    name: Seq<char>,
    attrs: Seq<Seq<char>>,
    paired: bool,
    tpl: Seq<char>,
) -> bool {
    &&& rule.pat.name@ == name
    &&& rule.pat.attrs.deep_view() == attrs
    &&& rule.pat.paired == paired
    &&& rule.template@ == tpl
}

/// Build the process-wide rule set from the fixed built-in tag
/// vocabulary: definition and citation wrappers, links, video embeds,
/// web badges, and pictures with or without a caption, in that order.
pub fn with_builtin_tags() -> (r: Result<LowC, ConfigError>)
    ensures
        r is Ok <==> builtin_ok(),
        r matches Ok(l) ==> {
            &&& l.wf()
            &&& l.tags@.len() == 7
            &&& rule_shape(
                l.tags@[0],
                "d"@,
                Seq::empty(),
                true,
                "<strong><dfn>$1</dfn></strong>"@,
            )
            &&& rule_shape(
                l.tags@[1],
                "t"@,
                Seq::empty(),
                true,
                "<strong><cite>$1</cite></strong>"@,
            )
            &&& rule_shape(l.tags@[2], "link"@, seq!["href"@], true, "<a href=\"$1\">$2</a>"@)
            &&& rule_shape(
                l.tags@[3],
                "tube"@,
                seq!["watch"@],
                false,
                "<iframe src=\"https://yewtu.be/embed/$1\"></iframe>"@,
            )
            &&& rule_shape(
                l.tags@[4],
                "button"@,
                seq!["src"@],
                false,
                "<img src=\"$1\" class=\"button\" width=\"88\" height=\"31\" alt=\"Button\">"@,
            )
            &&& rule_shape(
                l.tags@[5],
                "picture"@,
                seq!["src"@],
                false,
                "<figure><img src=\"$1\"></figure>"@,
            )
            &&& rule_shape(
                l.tags@[6],
                "picture"@,
                seq!["src"@, "caption"@],
                false,
                "<figure><img src=\"$1\" alt=\"$2\"><figcaption>$2</figcaption></figure>"@,
            )
        },
{
    let mut l = LowC::new();

    let p0 = Pattern { name: chars_of("d"), attrs: Vec::new(), paired: true };
    let ghost g0 = p0;
    proof {
        assert(g0.attrs.deep_view() =~~= Seq::<Seq<char>>::empty());
    }
    match l.register_known(p0, "<strong><dfn>$1</dfn></strong>", Ghost(1)) {
        Err(e) => {
            return Err(e);
        },
        Ok(()) => {},
    }

    let p1 = Pattern { name: chars_of("t"), attrs: Vec::new(), paired: true };
    let ghost g1 = p1;
    proof {
        assert(g1.attrs.deep_view() =~~= Seq::<Seq<char>>::empty());
    }
    match l.register_known(p1, "<strong><cite>$1</cite></strong>", Ghost(1)) {
        Err(e) => {
            return Err(e);
        },
        Ok(()) => {},
    }

    let mut a2: Vec<Vec<char>> = Vec::new();
    a2.push(chars_of("href"));
    let p2 = Pattern { name: chars_of("link"), attrs: a2, paired: true };
    let ghost g2 = p2;
    proof {
        assert(g2.attrs.deep_view() =~~= seq!["href"@]);
    }
    match l.register_known(p2, "<a href=\"$1\">$2</a>", Ghost(2)) {
        Err(e) => {
            return Err(e);
        },
        Ok(()) => {},
    }

    let mut a3: Vec<Vec<char>> = Vec::new();
    a3.push(chars_of("watch"));
    let p3 = Pattern { name: chars_of("tube"), attrs: a3, paired: false };
    let ghost g3 = p3;
    proof {
        assert(g3.attrs.deep_view() =~~= seq!["watch"@]);
    }
    match l.register_known(p3, "<iframe src=\"https://yewtu.be/embed/$1\"></iframe>", Ghost(1)) {
        Err(e) => {
            return Err(e);
        },
        Ok(()) => {},
    }

    let mut a4: Vec<Vec<char>> = Vec::new();
    a4.push(chars_of("src"));
    let p4 = Pattern { name: chars_of("button"), attrs: a4, paired: false };
    let ghost g4 = p4;
    proof {
        assert(g4.attrs.deep_view() =~~= seq!["src"@]);
    }
    match l.register_known(
        p4,
        "<img src=\"$1\" class=\"button\" width=\"88\" height=\"31\" alt=\"Button\">",
        Ghost(1),
    ) {
        Err(e) => {
            return Err(e);
        },
        Ok(()) => {},
    }

    let mut a5: Vec<Vec<char>> = Vec::new();
    a5.push(chars_of("src"));
    let p5 = Pattern { name: chars_of("picture"), attrs: a5, paired: false };
    let ghost g5 = p5;
    proof {
        assert(g5.attrs.deep_view() =~~= seq!["src"@]);
    }
    match l.register_known(p5, "<figure><img src=\"$1\"></figure>", Ghost(1)) {
        Err(e) => {
            return Err(e);
        },
        Ok(()) => {},
    }

    let mut a6: Vec<Vec<char>> = Vec::new();
    a6.push(chars_of("src"));
    a6.push(chars_of("caption"));
    let p6 = Pattern { name: chars_of("picture"), attrs: a6, paired: false };
    let ghost g6 = p6;
    proof {
        assert(g6.attrs.deep_view() =~~= seq!["src"@, "caption"@]);
    }
    match l.register_known(
        p6,
        "<figure><img src=\"$1\" alt=\"$2\"><figcaption>$2</figcaption></figure>",
        Ghost(2),
    ) {
        Err(e) => {
            return Err(e);
        },
        Ok(()) => {},
    }

    Ok(l)
}

} // verus!
