//! Regular expressions, as the `regex` crate compiles and applies them.
//!
//! What a pattern matches is not stated here. It has a name, as a function
//! of the pattern's text and the text searched, and the contracts of the
//! library speak of these names.

use crate::text::lemma_filter_member;
use vstd::prelude::*;

verus! {

/// `regex::Regex`, a compiled regular expression. Nothing is known of
/// what is inside.
#[verifier::external_type_specification]
#[verifier::external_body]
pub struct ExRegex(regex::Regex);

/// Whether `pattern` compiles to a regular expression.
pub uninterp spec fn regex_valid(pattern: Seq<char>) -> bool;

/// Whether the regular expression `pattern` matches somewhere in `text`.
pub uninterp spec fn regex_is_match(pattern: Seq<char>, text: Seq<char>) -> bool;

/// The capture groups of the first match of `pattern` in `text`, group 0
/// being the whole match; a group that took no part in the match is `None`.
/// `None` if nothing matches.
pub uninterp spec fn regex_captures(pattern: Seq<char>, text: Seq<char>) -> Option<
    Seq<Option<Seq<char>>>,
>;

/// `text` with every match of `pattern` replaced by `replacement`, in which
/// `$` refers to capture groups.
pub uninterp spec fn regex_replace_all(
    pattern: Seq<char>,
    text: Seq<char>,
    replacement: Seq<char>,
) -> Seq<char>;

/// The number of characters of `text` up to the end of the first match of
/// `pattern`. `None` if nothing matches.
pub uninterp spec fn regex_match_end(pattern: Seq<char>, text: Seq<char>) -> Option<nat>;

/// The views of a list of capture groups.
pub open spec fn group_views(groups: Seq<Option<String>>) -> Seq<Option<Seq<char>>> {
    groups.map_values(
        |g: Option<String>|
            match g {
                Some(s) => Some(s@),
                None => None,
            },
    )
}

/// A compiled regular expression together with the text it was compiled
/// from. Only `compile` makes one, so the two always belong together; the
/// contracts of the methods rest on that.
pub struct Pattern {
    source: String,
    compiled: regex::Regex,
}

impl Pattern {
    /// The text of the pattern.
    pub closed spec fn source(&self) -> Seq<char> {
        self.source@
    }

    /// `regex::Regex::new`: compiles `pattern`. The contract claims that
    /// whether this succeeds depends on the text of the pattern alone, and
    /// that the result remembers that text.
    #[verifier::external_body]
    pub(crate) fn compile(pattern: &str) -> (out: Option<Pattern>)
        ensures
            out is Some <==> regex_valid(pattern@),
            out is Some ==> out->0.source() == pattern@,
    {
        match regex::Regex::new(pattern) {
            Ok(compiled) => Some(Pattern { source: pattern.to_string(), compiled }),
            Err(_) => None,
        }
    }

    /// `regex::Regex::is_match`: whether the pattern matches somewhere in
    /// `text`. The contract claims that the answer depends on the two texts
    /// alone.
    #[verifier::external_body]
    pub(crate) fn is_match(&self, text: &str) -> (out: bool)
        ensures
            out == regex_is_match(self.source(), text@),
    {
        self.compiled.is_match(text)
    }

    /// `regex::Regex::captures`: the capture groups of the first match in
    /// `text`, each as the text it matched. The contract claims that they
    /// depend on the two texts alone.
    #[verifier::external_body]
    pub(crate) fn captures(&self, text: &str) -> (out: Option<Vec<Option<String>>>)
        ensures
            match out {
                Some(groups) => regex_captures(self.source(), text@) == Some(group_views(groups@)),
                None => regex_captures(self.source(), text@) is None,
            },
    {
        self.compiled.captures(text).map(
            |caps| caps.iter().map(|g| g.map(|m| m.as_str().to_string())).collect(),
        )
    }

    /// `regex::Regex::find`: where the first match in `text` ends, counted
    /// in characters. The contract claims that this depends on the two
    /// texts alone, and that the match ends inside `text`.
    #[verifier::external_body]
    pub(crate) fn match_end(&self, text: &str) -> (out: Option<usize>)
        ensures
            match out {
                Some(end) => regex_match_end(self.source(), text@) == Some(end as nat) && end
                    <= text@.len(),
                None => regex_match_end(self.source(), text@) is None,
            },
    {
        self.compiled.find(text).map(|m| text[..m.end()].chars().count())
    }

    /// `regex::Regex::replace_all` with a string as replacement. The
    /// contract claims that the result depends on the three texts alone.
    #[verifier::external_body]
    pub(crate) fn replace_all(&self, text: &str, replacement: &str) -> (out: String)
        ensures
            out@ == regex_replace_all(self.source(), text@, replacement@),
    {
        self.compiled.replace_all(text, replacement).into_owned()
    }
}

/// Whether `c` has a meaning of its own in a regular expression.
pub open spec fn is_meta_character(c: char) -> bool {
    c == '\\' || c == '.' || c == '+' || c == '*' || c == '?' || c == '(' || c == ')' || c == '|'
        || c == '[' || c == ']' || c == '{' || c == '}' || c == '^' || c == '$' || c == '#' || c
        == '&' || c == '-' || c == '~'
}

/// `text` with a backslash in front of each meta character.
pub open spec fn escaped(text: Seq<char>) -> Seq<char>
    decreases text.len(),
{
    if text.len() == 0 {
        text
    } else if is_meta_character(text.last()) {
        escaped(text.drop_last()).push('\\').push(text.last())
    } else {
        escaped(text.drop_last()).push(text.last())
    }
}

/// `regex::escape`: `text` as a pattern that matches it literally. The
/// contract claims that exactly the meta characters get a backslash.
#[verifier::external_body]
pub(crate) fn escape(text: &str) -> (out: String)
    ensures
        out@ == escaped(text@),
{
    regex::escape(text)
}

/// Whether some pattern of `patterns` compiles.
pub open spec fn any_valid(patterns: Seq<Seq<char>>) -> bool {
    exists|i: int| 0 <= i < patterns.len() && regex_valid(#[trigger] patterns[i])
}

/// Whether some pattern of `patterns` compiles and matches in `text`.
pub open spec fn any_matches(patterns: Seq<Seq<char>>, text: Seq<char>) -> bool {
    exists|i: int|
        0 <= i < patterns.len() && regex_valid(#[trigger] patterns[i]) && regex_is_match(
            patterns[i],
            text,
        )
}

/// The texts of a list of compiled patterns.
pub open spec fn sources(compiled: Seq<Pattern>) -> Seq<Seq<char>> {
    compiled.map_values(|p: Pattern| p.source())
}

/// Compiles the patterns that compile, in order; the others are left out.
pub fn compile_all(patterns: &[String]) -> (out: Vec<Pattern>)
    ensures
        sources(out@) == crate::text::views(patterns@).filter(|p: Seq<char>| regex_valid(p)),
{
    let ghost pred = |p: Seq<char>| regex_valid(p);
    let ghost all = crate::text::views(patterns@);
    let mut out: Vec<Pattern> = Vec::new();
    let mut i: usize = 0;
    proof {
        reveal(Seq::filter);
        assert(all.take(0) =~= Seq::<Seq<char>>::empty());
        assert(sources(out@) =~= all.take(0).filter(pred));
    }
    while i < patterns.len()
        invariant
            i <= patterns.len(),
            all == crate::text::views(patterns@),
            pred == |p: Seq<char>| regex_valid(p),
            sources(out@) == all.take(i as int).filter(pred),
        decreases patterns.len() - i,
    {
        let ghost before = sources(out@);
        proof {
            reveal(Seq::filter);
            assert(all.take(i as int + 1).drop_last() =~= all.take(i as int));
        }
        match Pattern::compile(patterns[i].as_str()) {
            Some(p) => {
                out.push(p);
                assert(sources(out@) =~= before.push(p.source()));
            },
            None => {},
        }
        i += 1;
    }
    assert(all.take(patterns.len() as int) =~= all);
    out
}

/// Tells whether some compiled pattern matches in `text`.
pub fn matches_any(compiled: &Vec<Pattern>, text: &str) -> (out: bool)
    ensures
        out == exists|k: int|
            0 <= k < compiled.len() && regex_is_match(#[trigger] compiled@[k].source(), text@),
{
    let mut k: usize = 0;
    while k < compiled.len()
        invariant
            k <= compiled.len(),
            forall|j: int| 0 <= j < k ==> !regex_is_match(#[trigger] compiled@[j].source(), text@),
        decreases compiled.len() - k,
    {
        if compiled[k].is_match(text) {
            return true;
        }
        k += 1;
    }
    false
}

/// The first match of `pattern` in `text`, as its capture groups; `None`
/// when the pattern does not compile or does not match.
pub open spec fn first_captures(pattern: Seq<char>, text: Seq<char>) -> Option<
    Seq<Option<Seq<char>>>,
> {
    if regex_valid(pattern) {
        regex_captures(pattern, text)
    } else {
        None
    }
}

/// Compiles `pattern` and returns the capture groups of its first match in
/// `text`.
pub fn capture_groups(pattern: &str, text: &str) -> (out: Option<Vec<Option<String>>>)
    ensures
        match out {
            Some(groups) => first_captures(pattern@, text@) == Some(group_views(groups@)),
            None => first_captures(pattern@, text@) is None,
        },
{
    match Pattern::compile(pattern) {
        Some(p) => p.captures(text),
        None => None,
    }
}

/// What `compile_all` keeps matches in `text` exactly when a pattern of the
/// list compiles and matches there.
pub proof fn lemma_compiled_matches(
    patterns: Seq<Seq<char>>,
    compiled: Seq<Pattern>,
    text: Seq<char>,
)
    requires
        sources(compiled) == patterns.filter(|p: Seq<char>| regex_valid(p)),
    ensures
        any_matches(patterns, text) <==> exists|k: int|
            0 <= k < compiled.len() && regex_is_match(#[trigger] compiled[k].source(), text),
        any_valid(patterns) <==> compiled.len() > 0,
{
    let pred = |p: Seq<char>| regex_valid(p);
    let kept = patterns.filter(pred);
    broadcast use vstd::seq_lib::group_filter_ensures;
    assert(sources(compiled).len() == compiled.len());
    if any_matches(patterns, text) {
        let i = choose|i: int|
            0 <= i < patterns.len() && regex_valid(#[trigger] patterns[i]) && regex_is_match(
                patterns[i],
                text,
            );
        assert(pred(patterns[i]));
        assert(kept.contains(patterns[i]));
        let k = choose|k: int| 0 <= k < kept.len() && kept[k] == patterns[i];
        assert(sources(compiled)[k] == compiled[k].source());
        assert(regex_is_match(compiled[k].source(), text));
    }
    if exists|k: int|
        0 <= k < compiled.len() && regex_is_match(#[trigger] compiled[k].source(), text) {
        let k = choose|k: int|
            0 <= k < compiled.len() && regex_is_match(#[trigger] compiled[k].source(), text);
        assert(sources(compiled)[k] == compiled[k].source());
        assert(pred(kept[k]));
        lemma_filter_member(patterns, pred, k);
    }
    if any_valid(patterns) {
        let i = choose|i: int| 0 <= i < patterns.len() && regex_valid(#[trigger] patterns[i]);
        assert(pred(patterns[i]));
        assert(kept.contains(patterns[i]));
    }
    if compiled.len() > 0 {
        assert(pred(kept[0]));
        lemma_filter_member(patterns, pred, 0);
    }
}

} // verus!
