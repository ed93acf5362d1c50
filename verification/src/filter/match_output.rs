//! Rules that answer for the whole output as soon as it holds a given
//! text.

use crate::config::types::MatchOutputRule;
use crate::filter::section::SectionView;
use crate::filter::template::{render_template, rendered, TemplateContext};
use crate::table::Table;
use crate::text::{chars_of, contains, find_from, lines, split_lines, views};
use vstd::prelude::*;

verus! {

/// The index of the first rule from `i` on whose text stands in `combined`.
pub open spec fn first_matching_from(rules: Seq<MatchOutputRule>, combined: Seq<char>, i: int) -> Option<
    int,
>
    decreases rules.len() - i,
{
    if i < 0 || i >= rules.len() {
        None
    } else if contains(combined, rules[i].contains@) {
        Some(i)
    } else {
        first_matching_from(rules, combined, i + 1)
    }
}

/// The index of the first rule whose text stands in `combined`.
pub open spec fn first_matching(rules: Seq<MatchOutputRule>, combined: Seq<char>) -> Option<int> {
    first_matching_from(rules, combined, 0)
}

/// Finds the first rule whose `contains` text appears in the combined
/// output. The search is case sensitive.
pub fn find_matching_rule<'a>(rules: &'a [MatchOutputRule], combined: &str) -> (out: Option<
    &'a MatchOutputRule,
>)
    ensures
        match out {
            Some(rule) => match first_matching(rules@, combined@) {
                Some(i) => 0 <= i < rules.len() && *rule == rules@[i],
                None => false,
            },
            None => first_matching(rules@, combined@) is None,
        },
{
    let hay = chars_of(combined);
    let mut i: usize = 0;
    while i < rules.len()
        invariant
            i <= rules.len(),
            hay@ == combined@,
            first_matching(rules@, combined@) == first_matching_from(
                rules@,
                combined@,
                i as int,
            ),
        decreases rules.len() - i,
    {
        let needle = chars_of(rules[i].contains.as_str());
        if find_from(&hay, &needle, 0).is_some() {
            return Some(&rules[i]);
        }
        i += 1;
    }
    None
}

/// The first of `lines` in which `needle` stands.
pub open spec fn first_containing(lines: Seq<Seq<char>>, needle: Seq<char>) -> Option<Seq<char>>
    decreases lines.len(),
{
    if lines.len() == 0 {
        None
    } else if contains(lines[0], needle) {
        Some(lines[0])
    } else {
        first_containing(lines.drop_first(), needle)
    }
}

/// Finds the first line in which `needle` stands.
pub fn find_line_containing(all: &Vec<String>, needle: &str) -> (out: Option<usize>)
    ensures
        match out {
            Some(i) => i < all.len() && first_containing(views(all@), needle@) == Some(
                all@[i as int]@,
            ),
            None => first_containing(views(all@), needle@) is None,
        },
{
    let needle_chars = chars_of(needle);
    let ghost texts = views(all@);
    let mut i: usize = 0;
    assert(texts.subrange(0, texts.len() as int) =~= texts);
    while i < all.len()
        invariant
            i <= all.len(),
            texts == views(all@),
            needle_chars@ == needle@,
            first_containing(texts, needle@) == first_containing(
                texts.subrange(i as int, texts.len() as int),
                needle@,
            ),
        decreases all.len() - i,
    {
        let line = chars_of(all[i].as_str());
        assert(texts.subrange(i as int, texts.len() as int)[0] == all@[i as int]@);
        if find_from(&line, &needle_chars, 0).is_some() {
            return Some(i);
        }
        assert(texts.subrange(i as int, texts.len() as int).drop_first() =~= texts.subrange(
            i as int + 1,
            texts.len() as int,
        ));
        i += 1;
    }
    None
}

/// The variables of a match-output template: `output` is the combined
/// output, and `line_containing` its first line that holds the text
/// searched, where there is one.
pub open spec fn match_vars(needle: Seq<char>, combined: Seq<char>) -> Map<Seq<char>, Seq<char>> {
    let base = match first_containing(split_lines(combined), needle) {
        Some(line) => Map::<Seq<char>, Seq<char>>::empty().insert("line_containing"@, line),
        None => Map::<Seq<char>, Seq<char>>::empty(),
    };
    base.insert("output"@, combined)
}

/// The output of a match-output rule.
pub open spec fn match_rendered(template: Seq<char>, needle: Seq<char>, combined: Seq<char>) -> Seq<
    char,
> {
    rendered(template, match_vars(needle, combined), Map::<Seq<char>, SectionView>::empty())
}

/// Renders the output template of a match-output rule, resolving
/// `{line_containing}` to the first line that contains the matched text,
/// and `{output}` to the full combined output.
pub fn render_output(output_tmpl: &str, contains: &str, combined: &str) -> (out: String)
    ensures
        out@ == match_rendered(output_tmpl@, contains@, combined@),
{
    let mut vars: TemplateContext = Table::new();
    let all = lines(combined);
    match find_line_containing(&all, contains) {
        Some(i) => {
            vars.insert("line_containing".to_owned(), all[i].clone());
        },
        None => {},
    }
    vars.insert("output".to_owned(), combined.to_owned());
    let no_sections = Table::new();
    render_template(output_tmpl, &vars, &no_sections)
}

} // verus!
