//! Filter rule sets and how a command line is matched against them.

pub mod cache;
pub mod types;

use crate::config::types::{CommandPattern, FilterConfig};
use crate::pattern::{escape, escaped};
use crate::text::{join, join_strings, same_text, split_whitespace, str_views, views, words};
use std::path::PathBuf;
use vstd::prelude::*;
use vstd::string::*;

verus! {

/// `std::path::PathBuf` of the standard library, carried through as it
/// is: nothing is read from a path here.
#[verifier::external_type_specification]
#[verifier::external_body]
pub struct ExPathBuf(PathBuf);

/// The pattern word that stands for any one word.
pub open spec fn wildcard() -> Seq<char> {
    seq!['*']
}

/// The test for a pattern word that is no wildcard.
pub open spec fn is_literal_word() -> spec_fn(Seq<char>) -> bool {
    |w: Seq<char>| w != wildcard()
}

/// The number of words of `pattern` that are no wildcard.
pub open spec fn specificity_of(pattern: Seq<char>) -> nat {
    split_whitespace(pattern).filter(is_literal_word()).len()
}

/// Tells whether `word` is the wildcard.
fn is_wildcard(word: &str) -> (out: bool)
    ensures
        out == (word@ == wildcard()),
{
    proof {
        reveal_strlit("*");
        assert("*"@ =~= wildcard());
    }
    same_text(word, "*")
}

/// Count non-`*` words: higher means more specific.
pub fn pattern_specificity(pattern: &str) -> (out: usize)
    ensures
        out == specificity_of(pattern@),
{
    let pattern_words = words(pattern);
    let ghost all = views(pattern_words@);
    let mut count: usize = 0;
    let mut i: usize = 0;
    proof {
        reveal(Seq::filter);
        assert(all.take(0) =~= Seq::<Seq<char>>::empty());
    }
    while i < pattern_words.len()
        invariant
            i <= pattern_words.len(),
            all == views(pattern_words@),
            count <= i,
            count == all.take(i as int).filter(is_literal_word()).len(),
        decreases pattern_words.len() - i,
    {
        proof {
            reveal(Seq::filter);
            assert(all.take(i as int + 1).drop_last() =~= all.take(i as int));
            assert(all.take(i as int + 1).last() == pattern_words@[i as int]@);
        }
        if !is_wildcard(pattern_words[i].as_str()) {
            count += 1;
        }
        i += 1;
    }
    assert(all.take(pattern_words.len() as int) =~= all);
    count
}

/// Whether a pattern word matches a word: the wildcard matches any word
/// that is not empty, any other pattern word only itself.
pub open spec fn word_matches(pattern_word: Seq<char>, word: Seq<char>) -> bool {
    if pattern_word == wildcard() {
        word.len() > 0
    } else {
        word == pattern_word
    }
}

/// The number of words that `pattern` consumes at the start of `words`:
/// the number of its own words, where it has some, `words` has as many, and
/// each pattern word matches the word at its place. Words behind the
/// pattern are allowed.
pub open spec fn prefix_match(pattern: Seq<char>, words: Seq<Seq<char>>) -> Option<nat> {
    let pattern_words = split_whitespace(pattern);
    if pattern_words.len() > 0 && pattern_words.len() <= words.len() && forall|i: int|
        0 <= i < pattern_words.len() ==> word_matches(#[trigger] pattern_words[i], words[i]) {
        Some(pattern_words.len())
    } else {
        None
    }
}

/// Returns the number of words consumed if `pattern` matches a prefix of
/// `words`, else `None`.
pub fn pattern_matches_prefix(pattern: &str, words: &[&str]) -> (out: Option<usize>)
    ensures
        match out {
            Some(n) => prefix_match(pattern@, str_views(words@)) == Some(n as nat),
            None => prefix_match(pattern@, str_views(words@)) is None,
        },
{
    let pattern_words = crate::text::words(pattern);
    let ghost pw = views(pattern_words@);
    let ghost all = str_views(words@);
    if pattern_words.len() == 0 || words.len() < pattern_words.len() {
        return None;
    }
    let mut i: usize = 0;
    while i < pattern_words.len()
        invariant
            i <= pattern_words.len() <= words.len(),
            pw == views(pattern_words@),
            pw == split_whitespace(pattern@),
            all == str_views(words@),
            forall|j: int| 0 <= j < i ==> word_matches(#[trigger] pw[j], all[j]),
        decreases pattern_words.len() - i,
    {
        let matches = if is_wildcard(pattern_words[i].as_str()) {
            !words[i].is_empty()
        } else {
            same_text(words[i], pattern_words[i].as_str())
        };
        assert(matches == word_matches(pw[i as int], all[i as int]));
        if !matches {
            return None;
        }
        i += 1;
    }
    Some(pattern_words.len())
}

/// A discovered filter with its config, source path, and priority level.
pub struct ResolvedFilter {
    pub config: FilterConfig,
    /// Absolute path to the filter file.
    pub source_path: PathBuf,
    /// Path relative to its source search dir (for display).
    pub relative_path: PathBuf,
    /// 0 = repo-local, 1 = user-level, `u8::MAX` = built-in.
    pub priority: u8,
}

/// The match of the first of `patterns` that matches a prefix of `words`.
pub open spec fn first_prefix_match(patterns: Seq<Seq<char>>, words: Seq<Seq<char>>) -> Option<
    nat,
>
    decreases patterns.len(),
{
    if patterns.len() == 0 {
        None
    } else {
        match prefix_match(patterns[0], words) {
            Some(n) => Some(n),
            None => first_prefix_match(patterns.drop_first(), words),
        }
    }
}

/// The highest specificity among `patterns`; 0 where there are none.
pub open spec fn max_specificity(patterns: Seq<Seq<char>>) -> nat
    decreases patterns.len(),
{
    if patterns.len() == 0 {
        0
    } else {
        let rest = max_specificity(patterns.drop_last());
        let last = specificity_of(patterns.last());
        if last > rest {
            last
        } else {
            rest
        }
    }
}

impl ResolvedFilter {
    /// Returns the number of words consumed if any of this filter's
    /// patterns match `words`; the first pattern that matches counts.
    pub fn matches(&self, words: &[&str]) -> (out: Option<usize>)
        ensures
            match out {
                Some(n) => first_prefix_match(
                    self.config.command.pattern_texts(),
                    str_views(words@),
                ) == Some(n as nat),
                None => first_prefix_match(
                    self.config.command.pattern_texts(),
                    str_views(words@),
                ) is None,
            },
    {
        let patterns = self.config.command.patterns();
        let ghost all = views(patterns@);
        let mut i: usize = 0;
        assert(all.subrange(0, all.len() as int) =~= all);
        while i < patterns.len()
            invariant
                i <= patterns.len(),
                all == views(patterns@),
                all == self.config.command.pattern_texts(),
                first_prefix_match(all, str_views(words@)) == first_prefix_match(
                    all.subrange(i as int, all.len() as int),
                    str_views(words@),
                ),
            decreases patterns.len() - i,
        {
            assert(all.subrange(i as int, all.len() as int)[0] == patterns@[i as int]@);
            match pattern_matches_prefix(patterns[i].as_str(), words) {
                Some(consumed) => {
                    return Some(consumed);
                },
                None => {},
            }
            assert(all.subrange(i as int, all.len() as int).drop_first() =~= all.subrange(
                i as int + 1,
                all.len() as int,
            ));
            i += 1;
        }
        None
    }

    /// Maximum specificity across all patterns (used for sorting).
    pub fn specificity(&self) -> (out: usize)
        ensures
            out == max_specificity(self.config.command.pattern_texts()),
    {
        let patterns = self.config.command.patterns();
        let ghost all = views(patterns@);
        let mut best: usize = 0;
        let mut i: usize = 0;
        assert(all.take(0) =~= Seq::<Seq<char>>::empty());
        while i < patterns.len()
            invariant
                i <= patterns.len(),
                all == views(patterns@),
                all == self.config.command.pattern_texts(),
                best == max_specificity(all.take(i as int)),
            decreases patterns.len() - i,
        {
            assert(all.take(i as int + 1).drop_last() =~= all.take(i as int));
            assert(all.take(i as int + 1).last() == patterns@[i as int]@);
            let s = pattern_specificity(patterns[i].as_str());
            if s > best {
                best = s;
            }
            i += 1;
        }
        assert(all.take(patterns.len() as int) =~= all);
        best
    }

    /// Human-readable priority label.
    pub fn priority_label(&self) -> (out: &'static str)
        ensures
            out@ == (if self.priority == 0 {
                "local"@
            } else if self.priority == 1 {
                "user"@
            } else {
                "built-in"@
            }),
    {
        if self.priority == 0 {
            "local"
        } else if self.priority == 1 {
            "user"
        } else {
            "built-in"
        }
    }
}

/// The regular expression of one pattern word: any run of characters that
/// are not whitespace for the wildcard, else the word itself, escaped.
pub open spec fn word_regex(word: Seq<char>) -> Seq<char> {
    if word == wildcard() {
        r"\S+"@
    } else {
        escaped(word)
    }
}

/// The regular expression that matches the commands of a pattern: its
/// words, each separated from the next by one space, from the start of the
/// command, followed by nothing or by whitespace and anything.
pub open spec fn pattern_regex(pattern: Seq<char>) -> Seq<char> {
    "^"@ + join(
        split_whitespace(pattern).map_values(|w: Seq<char>| word_regex(w)),
        r"\ "@,
    ) + r"(\s.*)?$"@
}

/// Build a rewrite regex pattern for a command pattern string.
/// `*` is replaced with `\S+` to match any single non-whitespace token.
pub fn command_pattern_to_regex(pattern: &str) -> (out: String)
    ensures
        out@ == pattern_regex(pattern@),
{
    let pattern_words = words(pattern);
    let mut parts: Vec<String> = Vec::new();
    let mut i: usize = 0;
    while i < pattern_words.len()
        invariant
            i <= pattern_words.len(),
            parts.len() == i,
            forall|j: int|
                0 <= j < i ==> (#[trigger] parts@[j])@ == word_regex(pattern_words@[j]@),
        decreases pattern_words.len() - i,
    {
        let part = if is_wildcard(pattern_words[i].as_str()) {
            r"\S+".to_owned()
        } else {
            escape(pattern_words[i].as_str())
        };
        parts.push(part);
        i += 1;
    }
    assert(views(parts@) =~= views(pattern_words@).map_values(|w: Seq<char>| word_regex(w)));
    let mut out = "^".to_owned();
    let joined = join_strings(parts.as_slice(), r"\ ");
    out.append(joined.as_str());
    out.append(r"(\s.*)?$");
    out
}

/// The patterns of a command, each with its regular expression.
pub open spec fn pattern_regexes(patterns: Seq<Seq<char>>) -> Seq<(Seq<char>, Seq<char>)> {
    patterns.map_values(|p: Seq<char>| (p, pattern_regex(p)))
}

/// The views of a list of pairs of strings.
pub open spec fn pair_views(pairs: Seq<(String, String)>) -> Seq<(Seq<char>, Seq<char>)> {
    pairs.map_values(|p: (String, String)| (p.0@, p.1@))
}

/// Extract command patterns as rewrite regex strings for a
/// `CommandPattern`.
pub fn command_pattern_regexes(command: &CommandPattern) -> (out: Vec<(String, String)>)
    ensures
        pair_views(out@) == pattern_regexes(command.pattern_texts()),
{
    let patterns = command.patterns();
    let mut out: Vec<(String, String)> = Vec::new();
    let mut i: usize = 0;
    while i < patterns.len()
        invariant
            i <= patterns.len(),
            out.len() == i,
            forall|j: int|
                0 <= j < i ==> (#[trigger] out@[j]).0@ == patterns@[j]@ && out@[j].1@
                    == pattern_regex(patterns@[j]@),
        decreases patterns.len() - i,
    {
        out.push((patterns[i].clone(), command_pattern_to_regex(patterns[i].as_str())));
        i += 1;
    }
    assert(pair_views(out@) =~= pattern_regexes(views(patterns@)));
    out
}

/// Whether `a` ranks strictly before `b`: it has the lower priority
/// number, or the same and the higher specificity.
pub open spec fn ranks_before(a: ResolvedFilter, b: ResolvedFilter) -> bool {
    a.priority < b.priority || (a.priority == b.priority && max_specificity(
        a.config.command.pattern_texts(),
    ) > max_specificity(b.config.command.pattern_texts()))
}

/// `sorted` with `f` put in front of the first filter that `f` ranks
/// strictly before, or at the end where there is none.
pub open spec fn insert_ranked(sorted: Seq<ResolvedFilter>, f: ResolvedFilter) -> Seq<
    ResolvedFilter,
>
    decreases sorted.len(),
{
    if sorted.len() == 0 {
        seq![f]
    } else if ranks_before(f, sorted[0]) {
        seq![f] + sorted
    } else {
        seq![sorted[0]] + insert_ranked(sorted.drop_first(), f)
    }
}

/// The filters by rank: lower priority numbers first, among equal
/// priorities higher specificity first, and among equals in the order
/// given.
pub open spec fn ranked(filters: Seq<ResolvedFilter>) -> Seq<ResolvedFilter>
    decreases filters.len(),
{
    if filters.len() == 0 {
        filters
    } else {
        insert_ranked(ranked(filters.drop_last()), filters.last())
    }
}

/// Whether `kept` holds a filter with the first command pattern `first`.
pub open spec fn holds_command(kept: Seq<ResolvedFilter>, first: Seq<char>) -> bool {
    exists|j: int| 0 <= j < kept.len() && (#[trigger] kept[j]).config.command.first_text() == first
}

/// The filters without those whose first command pattern an earlier filter
/// has.
pub open spec fn first_per_command(filters: Seq<ResolvedFilter>) -> Seq<ResolvedFilter>
    decreases filters.len(),
{
    if filters.len() == 0 {
        filters
    } else {
        let kept = first_per_command(filters.drop_last());
        if holds_command(kept, filters.last().config.command.first_text()) {
            kept
        } else {
            kept.push(filters.last())
        }
    }
}

/// Tells whether `a` ranks strictly before `b`.
fn is_ranked_before(a: &ResolvedFilter, b: &ResolvedFilter) -> (out: bool)
    ensures
        out == ranks_before(*a, *b),
{
    a.priority < b.priority || (a.priority == b.priority && a.specificity() > b.specificity())
}

/// Puts the discovered filters in the order in which they are tried:
/// sorted by priority and specificity, and of the filters with one first
/// command pattern only the first.
pub fn rank_filters(filters: Vec<ResolvedFilter>) -> (out: Vec<ResolvedFilter>)
    ensures
        out@ == first_per_command(ranked(filters@)),
{
    let ghost all = filters@;
    let mut input = filters;
    let mut sorted: Vec<ResolvedFilter> = Vec::new();
    assert(all.take(0) =~= Seq::<ResolvedFilter>::empty());
    assert(all.skip(0) =~= all);
    while input.len() > 0
        invariant
            input.len() <= all.len(),
            input@ == all.skip(all.len() - input.len()),
            sorted@ == ranked(all.take(all.len() - input.len())),
        decreases input.len(),
    {
        let ghost i = all.len() - input.len();
        let f = input.remove(0);
        assert(f == all[i]);
        assert(input@ =~= all.skip(i + 1));
        assert(all.take(i + 1).drop_last() =~= all.take(i));
        let mut j: usize = 0;
        assert(sorted@.skip(0) =~= sorted@);
        assert(sorted@.take(0) + insert_ranked(sorted@.skip(0), f) =~= insert_ranked(sorted@, f));
        while j < sorted.len() && !is_ranked_before(&f, &sorted[j])
            invariant
                j <= sorted.len(),
                insert_ranked(sorted@, f) == sorted@.take(j as int) + insert_ranked(
                    sorted@.skip(j as int),
                    f,
                ),
            decreases sorted.len() - j,
        {
            assert(sorted@.skip(j as int)[0] == sorted@[j as int]);
            assert(sorted@.skip(j as int).drop_first() =~= sorted@.skip(j as int + 1));
            assert(sorted@.take(j as int + 1) + insert_ranked(sorted@.skip(j as int + 1), f)
                =~= sorted@.take(j as int) + (seq![sorted@[j as int]] + insert_ranked(
                sorted@.skip(j as int + 1),
                f,
            )));
            j += 1;
        }
        proof {
            let rest = sorted@.skip(j as int);
            if j < sorted.len() {
                assert(rest[0] == sorted@[j as int]);
            }
            assert(insert_ranked(rest, f) =~= seq![f] + rest);
            assert(sorted@.insert(j as int, f) =~= sorted@.take(j as int) + (seq![f] + rest));
        }
        sorted.insert(j, f);
    }
    assert(all.take(all.len() as int) =~= all);
    let ghost order = sorted@;
    let mut out: Vec<ResolvedFilter> = Vec::new();
    assert(order.take(0) =~= Seq::<ResolvedFilter>::empty());
    assert(order.skip(0) =~= order);
    while sorted.len() > 0
        invariant
            sorted.len() <= order.len(),
            sorted@ == order.skip(order.len() - sorted.len()),
            out@ == first_per_command(order.take(order.len() - sorted.len())),
        decreases sorted.len(),
    {
        let ghost i = order.len() - sorted.len();
        let f = sorted.remove(0);
        assert(f == order[i]);
        assert(sorted@ =~= order.skip(i + 1));
        assert(order.take(i + 1).drop_last() =~= order.take(i));
        let mut seen = false;
        let mut j: usize = 0;
        while j < out.len()
            invariant
                j <= out.len(),
                seen == exists|k: int|
                    0 <= k < j && (#[trigger] out@[k]).config.command.first_text()
                        == f.config.command.first_text(),
            decreases out.len() - j,
        {
            if same_text(out[j].config.command.first(), f.config.command.first()) {
                seen = true;
            }
            j += 1;
        }
        assert(seen == holds_command(out@, f.config.command.first_text()));
        if !seen {
            out.push(f);
        }
    }
    assert(order.take(order.len() as int) =~= order);
    out
}

/// The first filter from `i` on of which a pattern matches a prefix of
/// `words`, with the number of words it consumes.
pub open spec fn first_filter_match(filters: Seq<ResolvedFilter>, words: Seq<Seq<char>>, i: int) -> Option<
    (int, nat),
>
    decreases filters.len() - i,
{
    if i < 0 || i >= filters.len() {
        None
    } else {
        match first_prefix_match(filters[i].config.command.pattern_texts(), words) {
            Some(n) => Some((i, n)),
            None => first_filter_match(filters, words, i + 1),
        }
    }
}

/// Finds the first filter that matches the words of a command line: its
/// index, and the number of words that its pattern consumes.
pub fn find_filter(filters: &[ResolvedFilter], words: &[&str]) -> (out: Option<(usize, usize)>)
    ensures
        match out {
            Some((i, n)) => i < filters.len() && first_filter_match(
                filters@,
                str_views(words@),
                0,
            ) == Some((i as int, n as nat)),
            None => first_filter_match(filters@, str_views(words@), 0) is None,
        },
{
    let mut i: usize = 0;
    while i < filters.len()
        invariant
            i <= filters.len(),
            first_filter_match(filters@, str_views(words@), 0) == first_filter_match(
                filters@,
                str_views(words@),
                i as int,
            ),
        decreases filters.len() - i,
    {
        match filters[i].matches(words) {
            Some(n) => {
                return Some((i, n));
            },
            None => {},
        }
        i += 1;
    }
    None
}

/// The arguments that are handed on to the command: the words behind
/// those that the filter's pattern consumed, or behind the first word
/// where no pattern consumed any.
pub open spec fn args_behind(command_args: Seq<Seq<char>>, consumed: nat) -> Seq<Seq<char>> {
    let start = if consumed > 0 {
        consumed
    } else {
        1
    };
    if start <= command_args.len() {
        command_args.skip(start as int)
    } else {
        Seq::empty()
    }
}

/// Returns the arguments that are handed on to the command.
pub fn remaining_args(command_args: &[String], consumed: usize) -> (out: Vec<String>)
    ensures
        views(out@) == args_behind(views(command_args@), consumed as nat),
{
    let start: usize = if consumed > 0 {
        consumed
    } else {
        1
    };
    let mut out: Vec<String> = Vec::new();
    if start > command_args.len() {
        assert(views(out@) =~= Seq::<Seq<char>>::empty());
        return out;
    }
    let mut i: usize = start;
    while i < command_args.len()
        invariant
            start <= i <= command_args.len(),
            out.len() == i - start,
            forall|j: int| 0 <= j < i - start ==> (#[trigger] out@[j])@ == command_args@[start + j]@,
        decreases command_args.len() - i,
    {
        out.push(command_args[i].clone());
        i += 1;
    }
    assert(views(out@) =~= views(command_args@).skip(start as int));
    out
}

} // verus!
