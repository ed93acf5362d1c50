//! Pulling one value out of the output with a pattern and a template.

use crate::config::types::ExtractRule;
use crate::pattern::{group_views, regex_captures, regex_valid, Pattern};
use crate::text::{
    chars_of, contains, decimal, decimal_string, digit_value, join, join_lines,
    lemma_decimal_value, lemma_replace_absent, lemma_replace_whole, newline, occurs_at,
    replace_all, replace_chars, str_views, string_of,
};
use vstd::prelude::*;

verus! {

/// The placeholder of capture group `i`: its number in braces.
pub open spec fn placeholder(i: nat) -> Seq<char> {
    seq!['{'] + decimal(i) + seq!['}']
}

/// What group `i` matched; empty where the group is missing or took no part
/// in the match.
pub open spec fn group_text(groups: Seq<Option<Seq<char>>>, i: int) -> Seq<char> {
    if 0 <= i < groups.len() {
        match groups[i] {
            Some(t) => t,
            None => Seq::empty(),
        }
    } else {
        Seq::empty()
    }
}

/// `template` after the placeholders of the groups below `n` have been
/// replaced, one group after the other, from group `n - 1` down to group 0.
pub open spec fn interpolated_below(
    template: Seq<char>,
    groups: Seq<Option<Seq<char>>>,
    n: nat,
) -> Seq<char>
    decreases n,
{
    if n == 0 {
        template
    } else {
        interpolated_below(
            replace_all(template, placeholder((n - 1) as nat), group_text(groups, n - 1)),
            groups,
            (n - 1) as nat,
        )
    }
}

/// `template` with each placeholder `{0}`, `{1}`, ... replaced by what the
/// group matched. The highest group is replaced first, so that `{10}` is
/// gone before `{1}` is looked for. Group 0 is replaced even where the list
/// of groups is empty.
pub open spec fn interpolated(template: Seq<char>, groups: Seq<Option<Seq<char>>>) -> Seq<char> {
    interpolated_below(
        template,
        groups,
        if groups.len() == 0 {
            1
        } else {
            groups.len()
        },
    )
}

/// The characters of the placeholder of group `i`.
fn placeholder_chars(i: usize) -> (out: Vec<char>)
    ensures
        out@ == placeholder(i as nat),
{
    let digits = decimal_string(i);
    let digit_chars = chars_of(digits.as_str());
    let mut out: Vec<char> = Vec::new();
    out.push('{');
    let mut k: usize = 0;
    while k < digit_chars.len()
        invariant
            k <= digit_chars.len(),
            out@ == seq!['{'] + digit_chars@.take(k as int),
        decreases digit_chars.len() - k,
    {
        out.push(digit_chars[k]);
        k += 1;
        assert(out@ =~= seq!['{'] + digit_chars@.take(k as int));
    }
    assert(digit_chars@.take(digit_chars.len() as int) =~= digit_chars@);
    out.push('}');
    assert(out@ =~= placeholder(i as nat));
    out
}

/// Replaces `{0}`, `{1}`, `{2}`, ... in `template` by the capture groups,
/// the highest group first. Missing groups become empty strings.
pub fn interpolate(template: &str, groups: &[Option<String>]) -> (out: String)
    ensures
        out@ == interpolated(template@, group_views(groups@)),
{
    let ghost gv = group_views(groups@);
    let mut current = chars_of(template);
    let mut n: usize = if groups.len() == 0 {
        1
    } else {
        groups.len()
    };
    while n > 0
        invariant
            gv == group_views(groups@),
            n <= groups.len() || n <= 1,
            interpolated_below(current@, gv, n as nat) == interpolated(template@, gv),
        decreases n,
    {
        n -= 1;
        let from = placeholder_chars(n);
        let to: Vec<char> = if n < groups.len() {
            match &groups[n] {
                Some(s) => chars_of(s.as_str()),
                None => Vec::new(),
            }
        } else {
            Vec::new()
        };
        assert(to@ == group_text(gv, n as int));
        current = replace_chars(&current, &from, &to);
    }
    string_of(&current)
}

/// The capture groups of the first line that `pattern` matches.
pub open spec fn first_capturing(pattern: Seq<char>, lines: Seq<Seq<char>>) -> Option<
    Seq<Option<Seq<char>>>,
>
    decreases lines.len(),
{
    if lines.len() == 0 {
        None
    } else {
        match regex_captures(pattern, lines[0]) {
            Some(groups) => Some(groups),
            None => first_capturing(pattern, lines.drop_first()),
        }
    }
}

/// The result of an extract rule: the template filled in from the first
/// line that the pattern matches. Where the pattern does not compile or no
/// line matches, the lines joined by newlines.
pub open spec fn extracted(pattern: Seq<char>, output: Seq<char>, lines: Seq<Seq<char>>) -> Seq<
    char,
> {
    if regex_valid(pattern) {
        match first_capturing(pattern, lines) {
            Some(groups) => interpolated(output, groups),
            None => join(lines, newline()),
        }
    } else {
        join(lines, newline())
    }
}

/// Applies an extract rule across lines: the first match wins.
pub fn apply_extract(rule: &ExtractRule, lines: &[&str]) -> (out: String)
    ensures
        out@ == extracted(rule.pattern@, rule.output@, str_views(lines@)),
{
    let ghost all = str_views(lines@);
    let compiled = match Pattern::compile(rule.pattern.as_str()) {
        Some(p) => p,
        None => {
            return join_lines(lines);
        },
    };
    let mut i: usize = 0;
    assert(all.subrange(0, all.len() as int) =~= all);
    while i < lines.len()
        invariant
            i <= lines.len(),
            all == str_views(lines@),
            compiled.source() == rule.pattern@,
            regex_valid(rule.pattern@),
            first_capturing(rule.pattern@, all) == first_capturing(
                rule.pattern@,
                all.subrange(i as int, all.len() as int),
            ),
        decreases lines.len() - i,
    {
        assert(all.subrange(i as int, all.len() as int).drop_first() =~= all.subrange(
            i as int + 1,
            all.len() as int,
        ));
        assert(all.subrange(i as int, all.len() as int)[0] == lines@[i as int]@);
        match compiled.captures(lines[i]) {
            Some(groups) => {
                return interpolate(rule.output.as_str(), groups.as_slice());
            },
            None => {},
        }
        i += 1;
    }
    join_lines(lines)
}

/// Whether `text` holds no opening brace.
pub open spec fn brace_free(text: Seq<char>) -> bool {
    forall|i: int| 0 <= i < text.len() ==> #[trigger] text[i] != '{'
}

/// The shape of a placeholder: braces at both ends and only there.
proof fn lemma_placeholder_shape(k: nat)
    ensures
        placeholder(k).len() >= 3,
        placeholder(k)[0] == '{',
        placeholder(k).last() == '}',
        forall|j: int| 0 < j < placeholder(k).len() ==> #[trigger] placeholder(k)[j] != '{',
        forall|j: int| 0 <= j < placeholder(k).len() - 1 ==> #[trigger] placeholder(k)[j] != '}',
        placeholder(k).subrange(1, placeholder(k).len() - 1) == decimal(k),
{
    lemma_decimal_value(k);
    let p = placeholder(k);
    let d = decimal(k);
    assert(p.len() == d.len() + 2);
    assert forall|j: int| 0 < j < p.len() implies #[trigger] p[j] != '{' by {
        if j < p.len() - 1 {
            assert(p[j] == d[j - 1]);
            assert(digit_value(d[j - 1]) is Some);
        }
    }
    assert forall|j: int| 0 <= j < p.len() - 1 implies #[trigger] p[j] != '}' by {
        if j > 0 {
            assert(p[j] == d[j - 1]);
            assert(digit_value(d[j - 1]) is Some);
        }
    }
    assert(p.subrange(1, p.len() - 1) =~= d);
}

/// Two numbers with the same decimal digits are one number.
proof fn lemma_decimal_injective(i: nat, k: nat)
    requires
        decimal(i) == decimal(k),
    ensures
        i == k,
{
    lemma_decimal_value(i);
    lemma_decimal_value(k);
}

/// A placeholder occurs in another placeholder only if the two are one:
/// `{1}` does not occur in `{10}`.
pub proof fn lemma_placeholders_apart(i: nat, k: nat)
    requires
        i != k,
    ensures
        !contains(placeholder(k), placeholder(i)),
{
    lemma_placeholder_shape(i);
    lemma_placeholder_shape(k);
    let pi = placeholder(i);
    let pk = placeholder(k);
    if contains(pk, pi) {
        let j = choose|j: int| occurs_at(pk, pi, j);
        let sub = pk.subrange(j, j + pi.len());
        assert(sub == pi);
        assert(sub[0] == pk[j]);
        assert(pk[j] == '{');
        assert(j == 0);
        assert(sub[pi.len() - 1] == pk[pi.len() - 1]);
        assert(pi[pi.len() - 1] == '}');
        assert(pi.len() == pk.len());
        assert(sub =~= pk);
        lemma_decimal_injective(i, k);
    }
}

/// Text without an opening brace holds no placeholder, so interpolation
/// leaves it as it is.
pub proof fn lemma_brace_free_unchanged(text: Seq<char>, groups: Seq<Option<Seq<char>>>, n: nat)
    requires
        brace_free(text),
    ensures
        interpolated_below(text, groups, n) == text,
    decreases n,
{
    if n > 0 {
        let p = placeholder((n - 1) as nat);
        assert(!contains(text, p)) by {
            if contains(text, p) {
                let j = choose|j: int| occurs_at(text, p, j);
                assert(text.subrange(j, j + p.len())[0] == p[0]);
                assert(text[j] == '{');
            }
        }
        lemma_replace_absent(text, p, group_text(groups, n - 1));
        lemma_brace_free_unchanged(text, groups, (n - 1) as nat);
    }
}

/// A template that is the placeholder of group `k` and nothing else
/// becomes what group `k` matched, where that text holds no opening brace:
/// the placeholders of the other groups do not touch it, so `{10}` is
/// never read as `{1}` followed by `0`.
pub proof fn lemma_placeholder_alone_below(k: nat, groups: Seq<Option<Seq<char>>>, n: nat)
    requires
        k < n,
        brace_free(group_text(groups, k as int)),
    ensures
        interpolated_below(placeholder(k), groups, n) == group_text(groups, k as int),
    decreases n,
{
    let p = placeholder((n - 1) as nat);
    if n - 1 == k {
        lemma_replace_whole(p, group_text(groups, k as int));
        lemma_brace_free_unchanged(group_text(groups, k as int), groups, k);
    } else {
        lemma_placeholders_apart((n - 1) as nat, k);
        lemma_replace_absent(placeholder(k), p, group_text(groups, n - 1));
        lemma_placeholder_alone_below(k, groups, (n - 1) as nat);
    }
}

/// The placeholder of a group that exists, alone in a template, is
/// replaced by exactly what the group matched, where that text holds no
/// opening brace.
pub proof fn lemma_placeholder_alone(k: nat, groups: Seq<Option<Seq<char>>>)
    requires
        k < groups.len(),
        brace_free(group_text(groups, k as int)),
    ensures
        interpolated(placeholder(k), groups) == group_text(groups, k as int),
{
    lemma_placeholder_alone_below(k, groups, groups.len());
}

} // verus!
