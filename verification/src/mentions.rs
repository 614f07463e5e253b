//! Mention substitution: configured `@handle` tokens become anchors.
//!
//! The handle table comes from an external TOML source. A source that is
//! missing or unparsable as a whole means "no mentions configured" and
//! the stage is skipped; a present entry without its required `site`
//! field is a fatal configuration error naming the handle.
//!
//! A handle matches as a whole token: the character after `@handle`, if
//! any, may not be a word character, so a handle that is a prefix of a
//! longer handle does not match inside it.

use vstd::prelude::*;
use crate::text::{
    is_word_char, has_lit_at, chars_of, exec_is_word_char, exec_has_lit_at, push_all,
};

verus! {

/// One configured mention: a handle, the site it links to, and whether
/// the link is flagged as a mention.
pub struct MentionEntry {
    pub handle: String,
    pub site: String,
    pub mention: bool,
}

/// The anchor text that replaces one `@handle` token.
pub open spec fn mention_replacement(handle: Seq<char>, site: Seq<char>, mention: bool) -> Seq<
    char,
> {
    "<a href=\""@ + site + "\" data-handle=\""@ + handle + "\" data-mention=\""@ + (if mention {
        "true"@
    } else {
        "false"@
    }) + "\" class=\"u-in-reply-to\">@"@ + handle + "</a>"@
}

/// The token `@handle` stands at position `i` as a whole token: it is
/// not followed by a word character.
pub open spec fn mention_at(s: Seq<char>, i: int, handle: Seq<char>) -> bool {
    &&& 0 <= i < s.len()
    &&& s[i] == '@'
    &&& has_lit_at(s, i + 1, handle)
    &&& (i + 1 + handle.len() == s.len() || !is_word_char(s[i + 1 + handle.len()]))
}

/// Replace every `@handle` token in the suffix `s[i..]` by `repl`,
/// scanning left to right without overlap; a replacement is not
/// rescanned for the same handle.
pub open spec fn apply_mention_from(s: Seq<char>, i: int, handle: Seq<char>, repl: Seq<char>) -> Seq<
    char,
>
    decreases s.len() - i,
{
    if !(0 <= i < s.len()) {
        Seq::empty()
    } else if mention_at(s, i, handle) {
        repl + apply_mention_from(s, i + 1 + handle.len(), handle, repl)
    } else {
        seq![s[i]] + apply_mention_from(s, i + 1, handle, repl)
    }
}

/// Apply every configured entry, in table order, each replacing all its
/// tokens over the previous stage's output.
pub open spec fn apply_mentions(s: Seq<char>, entries: Seq<MentionEntry>) -> Seq<char>
    decreases entries.len(),
{
    if entries.len() == 0 {
        s
    } else {
        let e = entries[0];
        apply_mentions(
            apply_mention_from(
                s,
                0,
                e.handle@,
                mention_replacement(e.handle@, e.site@, e.mention),
            ),
            entries.drop_first(),
        )
    }
}

fn build_replacement(handle: &Vec<char>, site: &Vec<char>, mention: bool) -> (r: Vec<char>)
    ensures
        r@ == mention_replacement(handle@, site@, mention),
{
    let mut out = chars_of("<a href=\"");
    push_all(&mut out, site);
    let sep1 = chars_of("\" data-handle=\"");
    push_all(&mut out, &sep1);
    push_all(&mut out, handle);
    let sep2 = chars_of("\" data-mention=\"");
    push_all(&mut out, &sep2);
    if mention {
        let word = chars_of("true");
        push_all(&mut out, &word);
    } else {
        let word = chars_of("false");
        push_all(&mut out, &word);
    }
    let sep3 = chars_of("\" class=\"u-in-reply-to\">@");
    push_all(&mut out, &sep3);
    push_all(&mut out, handle);
    let sep4 = chars_of("</a>");
    push_all(&mut out, &sep4);
    proof {
        assert(out@ =~= mention_replacement(handle@, site@, mention));
    }
    out
}

fn exec_mention_at(s: &Vec<char>, i: usize, handle: &Vec<char>) -> (b: bool)
    ensures
        b == mention_at(s@, i as int, handle@),
{
    if i >= s.len() {
        return false;
    }
    if s[i] != '@' {
        return false;
    }
    if !exec_has_lit_at(s, i + 1, handle) {
        return false;
    }
    let slen = s.len();
    proof {
        assert(i + 1 + handle@.len() <= slen as int);
    }
    let end = i + 1 + handle.len();
    if end == s.len() {
        true
    } else {
        !exec_is_word_char(s[end])
    }
}

fn replace_one_mention(s: &Vec<char>, handle: &Vec<char>, repl: &Vec<char>) -> (out: Vec<char>)
    ensures
        out@ == apply_mention_from(s@, 0, handle@, repl@),
{
    let mut out: Vec<char> = Vec::new();
    let mut i: usize = 0;
    proof {
        assert(out@ + apply_mention_from(s@, 0, handle@, repl@) =~= apply_mention_from(
            s@,
            0,
            handle@,
            repl@,
        ));
    }
    while i < s.len()
        invariant
            i <= s@.len(),
            out@ + apply_mention_from(s@, i as int, handle@, repl@) == apply_mention_from(
                s@,
                0,
                handle@,
                repl@,
            ),
        decreases s@.len() - i,
    {
        let ghost pre = out@;
        if exec_mention_at(s, i, handle) {
            push_all(&mut out, repl);
            proof {
                assert(pre + (repl@ + apply_mention_from(
                    s@,
                    i + 1 + handle@.len(),
                    handle@,
                    repl@,
                )) =~= out@ + apply_mention_from(s@, i + 1 + handle@.len(), handle@, repl@));
            }
            i = i + 1 + handle.len();
        } else {
            out.push(s[i]);
            proof {
                assert(pre + (seq![s@[i as int]] + apply_mention_from(s@, i + 1, handle@, repl@))
                    =~= out@ + apply_mention_from(s@, i + 1, handle@, repl@));
            }
            i = i + 1;
        }
    }
    proof {
        assert(out@ + apply_mention_from(s@, i as int, handle@, repl@) =~= out@);
    }
    out
}

/// Replace every configured `@handle` token of `input`, entry by entry
/// in table order. With an empty table the document is returned
/// unchanged.
pub fn replace_mentions(input: Vec<char>, entries: &Vec<MentionEntry>) -> (out: Vec<char>)
    ensures
        out@ == apply_mentions(input@, entries@),
{
    let ghost orig = input@;
    let mut cur = input;
    let mut k: usize = 0;
    proof {
        assert(entries@.skip(0) =~= entries@);
    }
    while k < entries.len()
        invariant
            k <= entries@.len(),
            apply_mentions(cur@, entries@.skip(k as int)) == apply_mentions(orig, entries@),
        decreases entries@.len() - k,
    {
        let handle = chars_of(entries[k].handle.as_str());
        let site = chars_of(entries[k].site.as_str());
        let flagged = entries[k].mention;
        let repl = build_replacement(&handle, &site, flagged);
        proof {
            assert(entries@.skip(k as int)[0] == entries@[k as int]);
            assert(entries@.skip(k as int).drop_first() =~= entries@.skip(k + 1));
        }
        cur = replace_one_mention(&cur, &handle, &repl);
        k = k + 1;
    }
    proof {
        assert(entries@.skip(entries@.len() as int) =~= Seq::<MentionEntry>::empty());
    }
    cur
}

/// With no mention configuration available there are no entries, and the
/// mention stage leaves every document unchanged.
pub proof fn lemma_mentions_empty(s: Seq<char>)
    ensures
        apply_mentions(s, Seq::<MentionEntry>::empty()) == s,
{
}

/// The handle table that the TOML source denotes: for each top-level
/// key, in the table's (key-sorted) order, the key, the string value of
/// its `site` field if it has one, and the boolean value of its
/// `mention` field if it has one. `None` when the source is not valid
/// TOML.
pub uninterp spec fn toml_mention_table(s: Seq<char>) -> Option<
    Seq<(Seq<char>, Option<Seq<char>>, Option<bool>)>,
>;

/// Relies on the `toml` crate: `str::parse::<toml::Table>` (its
/// `FromStr` impl), `toml::Value::get`, `Value::as_str` and
/// `Value::as_bool`. The table is backed by an ordered map iterated in
/// key-sorted order, so the outcome is a function of the source text
/// alone; `toml_mention_table` names it.
#[verifier::external_body]
fn parse_mention_source(src: &str) -> (r: Option<Vec<(String, Option<String>, Option<bool>)>>)
    ensures
        r.deep_view() == toml_mention_table(src@),
{
    match src.parse::<toml::Table>() {
        Err(_) => None,
        Ok(table) => Some(
            table.into_iter().map(
                |(handle, value)| {
                    let site = value.get("site").and_then(|v| v.as_str()).map(String::from);
                    let mention = value.get("mention").and_then(|v| v.as_bool());
                    (handle, site, mention)
                },
            ).collect(),
        ),
    }
}

/// Outcome of loading the mention configuration: a validated table, no
/// configuration at all, or a fatal fault naming the handle whose entry
/// lacks its required `site` field.
pub enum MentionLoad {
    Loaded(Vec<MentionEntry>),
    Absent,
    EntryError(String),
}

impl MentionLoad {
    /// The load failed naming exactly this handle.
    pub open spec fn names_offender(self, handle: Seq<char>) -> bool {
        match self {
            MentionLoad::EntryError(h) => h@ == handle,
            _ => false,
        }
    }

    /// The load succeeded with one entry per table row, in order: the
    /// row's key as the handle, its `site` value, and its `mention`
    /// value with `false` for an absent field.
    pub open spec fn loads_table(self, t: Seq<(Seq<char>, Option<Seq<char>>, Option<bool>)>) -> bool {
        match self {
            MentionLoad::Loaded(es) => es@.len() == t.len() && forall|k: int|
                0 <= k < t.len() ==> {
                    &&& (#[trigger] es@[k]).handle@ == t[k].0
                    &&& Some(es@[k].site@) == t[k].1
                    &&& es@[k].mention == if t[k].2 is Some {
                        t[k].2->Some_0
                    } else {
                        false
                    }
                },
            _ => false,
        }
    }
}

/// First entry of the table that lacks its `site` field, at or after
/// position `i`.
pub open spec fn first_missing_site(
    t: Seq<(Seq<char>, Option<Seq<char>>, Option<bool>)>,
    i: int,
) -> Option<int>
    decreases t.len() - i,
{
    if i < 0 || i >= t.len() {
        None
    } else if t[i].1 is None {
        Some(i)
    } else {
        first_missing_site(t, i + 1)
    }
}

/// Load the mention table from the configuration source text, or from
/// no source at all. A missing or unparsable source is `Absent` (the
/// transform then runs without the mention stage); a parsed entry
/// without its `site` field is a fatal `EntryError` naming the first
/// such handle; otherwise every entry is returned in table order, the
/// `mention` flag defaulting to `false`.
pub fn load_mentions(source: Option<&str>) -> (r: MentionLoad)
    ensures
        source is None ==> r is Absent,
        source matches Some(src) ==> (match toml_mention_table(src@) {
            None => r is Absent,
            Some(t) => match first_missing_site(t, 0) {
                Some(bad) => r.names_offender(t[bad].0),
                None => r.loads_table(t),
            },
        }),
{
    let src = match source {
        None => {
            return MentionLoad::Absent;
        },
        Some(src) => src,
    };
    let raw = match parse_mention_source(src) {
        None => {
            return MentionLoad::Absent;
        },
        Some(v) => v,
    };
    let ghost t = raw.deep_view();
    let mut entries: Vec<MentionEntry> = Vec::new();
    let mut k: usize = 0;
    while k < raw.len()
        invariant
            k <= raw@.len(),
            t == raw.deep_view(),
            source == Some(src),
            toml_mention_table(src@) == Some(t),
            first_missing_site(t, 0) == first_missing_site(t, k as int),
            entries@.len() == k,
            forall|j: int|
                0 <= j < k ==> {
                    &&& (#[trigger] entries@[j]).handle@ == t[j].0
                    &&& Some(entries@[j].site@) == t[j].1
                    &&& entries@[j].mention == if t[j].2 is Some {
                        t[j].2->Some_0
                    } else {
                        false
                    }
                },
        decreases raw@.len() - k,
    {
        proof {
            assert(t[k as int] == raw@[k as int].deep_view());
        }
        match &raw[k].1 {
            None => {
                proof {
                    assert(first_missing_site(t, k as int) == Some(k as int));
                }
                return MentionLoad::EntryError(raw[k].0.clone());
            },
            Some(site) => {
                let flagged = match raw[k].2 {
                    Some(b) => b,
                    None => false,
                };
                entries.push(
                    MentionEntry { handle: raw[k].0.clone(), site: site.clone(), mention: flagged },
                );
            },
        }
        k = k + 1;
    }
    MentionLoad::Loaded(entries)
}

/// No entry's token occurs anywhere in the document.
pub open spec fn no_mention_matches(s: Seq<char>, entries: Seq<MentionEntry>) -> bool {
    forall|k: int, i: int|
        0 <= k < entries.len() ==> !#[trigger] mention_at(s, i, entries[k].handle@)
}

proof fn lemma_mention_no_match(s: Seq<char>, i: int, handle: Seq<char>, repl: Seq<char>)
    requires
        0 <= i <= s.len(),
        forall|j: int| !#[trigger] mention_at(s, j, handle),
    ensures
        apply_mention_from(s, i, handle, repl) == s.subrange(i, s.len() as int),
    decreases s.len() - i,
{
    if i < s.len() {
        lemma_mention_no_match(s, i + 1, handle, repl);
        assert(seq![s[i]] + s.subrange(i + 1, s.len() as int) =~= s.subrange(i, s.len() as int));
    } else {
        assert(s.subrange(i, s.len() as int) =~= Seq::<char>::empty());
    }
}

/// A document in which no configured token occurs passes through the
/// mention stage unchanged.
pub proof fn lemma_mentions_no_match(s: Seq<char>, entries: Seq<MentionEntry>)
    requires
        no_mention_matches(s, entries),
    ensures
        apply_mentions(s, entries) == s,
    decreases entries.len(),
{
    if entries.len() > 0 {
        let e = entries[0];
        let repl = mention_replacement(e.handle@, e.site@, e.mention);
        lemma_mention_no_match(s, 0, e.handle@, repl);
        assert(s.subrange(0, s.len() as int) =~= s);
        assert forall|k: int, i: int|
            0 <= k < entries.drop_first().len() implies !#[trigger] mention_at(
            s,
            i,
            entries.drop_first()[k].handle@,
        ) by {
            assert(entries.drop_first()[k] == entries[k + 1]);
            assert(!mention_at(s, i, entries[k + 1].handle@));
        }
        lemma_mentions_no_match(s, entries.drop_first());
    }
}

} // verus!
