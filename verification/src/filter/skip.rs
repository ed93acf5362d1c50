//! Dropping and keeping lines by pattern.

use crate::pattern::{
    any_matches, any_valid, compile_all, lemma_compiled_matches, matches_any, regex_is_match,
    regex_valid, Pattern,
};
use crate::text::{copy_lines, lemma_filter_keeps_all, str_views, views};
use vstd::prelude::*;

verus! {

/// The flag of line `k`; a line without a flag counts as not flagged.
pub open spec fn flag_at(flags: Seq<bool>, k: int) -> bool {
    0 <= k < flags.len() && flags[k]
}

/// The lines whose flag is `wanted`, in order.
pub open spec fn retain(lines: Seq<Seq<char>>, flags: Seq<bool>, wanted: bool) -> Seq<Seq<char>>
    decreases lines.len(),
{
    if lines.len() == 0 {
        lines
    } else {
        let rest = retain(lines.drop_last(), flags, wanted);
        if flag_at(flags, lines.len() - 1) == wanted {
            rest.push(lines.last())
        } else {
            rest
        }
    }
}

/// The test that `skip_lines` applies: no pattern matches the line.
pub open spec fn unmatched_by(patterns: Seq<Seq<char>>) -> spec_fn(Seq<char>) -> bool {
    |line: Seq<char>| !any_matches(patterns, line)
}

/// The test that `keep_lines` applies: some pattern matches the line.
pub open spec fn matched_by(patterns: Seq<Seq<char>>) -> spec_fn(Seq<char>) -> bool {
    |line: Seq<char>| any_matches(patterns, line)
}

/// The lines that no pattern matches. Patterns that do not compile count for
/// nothing, so without a pattern that compiles every line stays.
pub open spec fn skip_lines(patterns: Seq<Seq<char>>, lines: Seq<Seq<char>>) -> Seq<Seq<char>> {
    lines.filter(unmatched_by(patterns))
}

/// The lines that some pattern matches. Patterns that do not compile count
/// for nothing; without a pattern that compiles every line stays.
pub open spec fn keep_lines(patterns: Seq<Seq<char>>, lines: Seq<Seq<char>>) -> Seq<Seq<char>> {
    if any_valid(patterns) {
        lines.filter(matched_by(patterns))
    } else {
        lines
    }
}

/// Returns the lines whose flag is `wanted`, in order. A line beyond the end
/// of `flags` counts as not flagged.
pub fn retain_lines<'a>(lines: &[&'a str], flags: &[bool], wanted: bool) -> (out: Vec<&'a str>)
    ensures
        str_views(out@) == retain(str_views(lines@), flags@, wanted),
{
    let ghost all = str_views(lines@);
    let mut out: Vec<&'a str> = Vec::new();
    let mut i: usize = 0;
    assert(all.take(0) =~= Seq::<Seq<char>>::empty());
    assert(str_views(out@) =~= Seq::<Seq<char>>::empty());
    while i < lines.len()
        invariant
            i <= lines.len(),
            all == str_views(lines@),
            str_views(out@) == retain(all.take(i as int), flags@, wanted),
        decreases lines.len() - i,
    {
        let flagged = i < flags.len() && flags[i];
        assert(all.take(i as int + 1).drop_last() =~= all.take(i as int));
        if flagged == wanted {
            let ghost before = str_views(out@);
            out.push(lines[i]);
            assert(str_views(out@) =~= before.push(lines@[i as int]@));
        }
        i += 1;
    }
    assert(all.take(lines.len() as int) =~= all);
    out
}

/// Flags each line that some compiled pattern matches.
pub fn match_flags(compiled: &Vec<Pattern>, lines: &[&str]) -> (flags: Vec<bool>)
    ensures
        flags.len() == lines.len(),
        forall|i: int|
            0 <= i < lines.len() ==> #[trigger] flags@[i] == exists|k: int|
                0 <= k < compiled.len() && regex_is_match(
                    #[trigger] compiled@[k].source(),
                    lines@[i]@,
                ),
{
    let mut flags: Vec<bool> = Vec::new();
    let mut i: usize = 0;
    while i < lines.len()
        invariant
            i <= lines.len(),
            flags.len() == i,
            forall|j: int|
                0 <= j < i ==> #[trigger] flags@[j] == exists|k: int|
                    0 <= k < compiled.len() && regex_is_match(
                        #[trigger] compiled@[k].source(),
                        lines@[j]@,
                    ),
        decreases lines.len() - i,
    {
        flags.push(matches_any(compiled, lines[i]));
        i += 1;
    }
    flags
}

/// Where each line's flag says whether it passes `pred`, the flagged lines
/// are the lines that pass, and the others those that fail.
pub proof fn lemma_retain_filters(
    lines: Seq<Seq<char>>,
    flags: Seq<bool>,
    wanted: bool,
    pred: spec_fn(Seq<char>) -> bool,
)
    requires
        forall|i: int| 0 <= i < lines.len() ==> (flag_at(flags, i) == wanted) == pred(#[trigger] lines[i]),
    ensures
        retain(lines, flags, wanted) == lines.filter(pred),
    decreases lines.len(),
{
    reveal(Seq::filter);
    if lines.len() > 0 {
        assert forall|i: int| 0 <= i < lines.drop_last().len() implies (flag_at(flags, i)
            == wanted) == pred(#[trigger] lines.drop_last()[i]) by {
            assert(lines.drop_last()[i] == lines[i]);
        }
        lemma_retain_filters(lines.drop_last(), flags, wanted, pred);
        assert(lines.last() == lines[lines.len() - 1]);
    }
}

/// Removes the lines that match any of the patterns.
pub fn apply_skip<'a>(patterns: &[String], lines: &[&'a str]) -> (out: Vec<&'a str>)
    ensures
        str_views(out@) == skip_lines(views(patterns@), str_views(lines@)),
{
    let compiled = compile_all(patterns);
    let flags = match_flags(&compiled, lines);
    let out = retain_lines(lines, flags.as_slice(), false);
    proof {
        let all = str_views(lines@);
        assert forall|i: int| 0 <= i < all.len() implies (flag_at(flags@, i) == false)
            == unmatched_by(views(patterns@))(#[trigger] all[i]) by {
            lemma_compiled_matches(views(patterns@), compiled@, all[i]);
        }
        lemma_retain_filters(all, flags@, false, unmatched_by(views(patterns@)));
    }
    out
}

/// Retains the lines that match at least one of the patterns.
pub fn apply_keep<'a>(patterns: &[String], lines: &[&'a str]) -> (out: Vec<&'a str>)
    ensures
        str_views(out@) == keep_lines(views(patterns@), str_views(lines@)),
{
    let compiled = compile_all(patterns);
    proof {
        lemma_compiled_matches(views(patterns@), compiled@, Seq::empty());
    }
    if compiled.len() == 0 {
        return copy_lines(lines);
    }
    let flags = match_flags(&compiled, lines);
    let out = retain_lines(lines, flags.as_slice(), true);
    proof {
        let all = str_views(lines@);
        assert forall|i: int| 0 <= i < all.len() implies (flag_at(flags@, i) == true)
            == matched_by(views(patterns@))(#[trigger] all[i]) by {
            lemma_compiled_matches(views(patterns@), compiled@, all[i]);
        }
        lemma_retain_filters(all, flags@, true, matched_by(views(patterns@)));
    }
    out
}

/// Without a pattern that compiles, skipping and keeping both leave the
/// lines as they are. This holds for an empty list of patterns, and for a
/// list of patterns that all fail to compile.
pub proof fn lemma_no_valid_pattern_is_no_op(patterns: Seq<Seq<char>>, lines: Seq<Seq<char>>)
    requires
        !any_valid(patterns),
    ensures
        skip_lines(patterns, lines) == lines,
        keep_lines(patterns, lines) == lines,
{
    assert forall|i: int| 0 <= i < lines.len() implies unmatched_by(patterns)(
        #[trigger] lines[i],
    ) by {
        if any_matches(patterns, lines[i]) {
            let k = choose|k: int|
                0 <= k < patterns.len() && regex_valid(#[trigger] patterns[k]) && regex_is_match(
                    patterns[k],
                    lines[i],
                );
            assert(regex_valid(patterns[k]));
        }
    }
    lemma_filter_keeps_all(lines, unmatched_by(patterns));
}

} // verus!
