//! The structured path for outputs that look like a status table: a value
//! taken from one line, and the other lines counted by a key.

use crate::config::types::{ExtractRule, OutputConfig, ParseConfig};
use crate::filter::extract::{interpolate, interpolated};
use crate::filter::section::SectionView;
use crate::filter::template::{render_template, rendered, TemplateContext};
use crate::pattern::{capture_groups, first_captures};
use crate::table::Table;
use crate::text::{
    decimal, decimal_string, join, join_strings, newline, same_text, str_views, views,
};
use vstd::prelude::*;

verus! {

/// What the structured path found.
#[derive(Debug, Clone, PartialEq, Eq)]
pub struct ParseResult {
    /// The value taken from the chosen line, if its pattern matched.
    pub branch: Option<String>,
    /// Each group's label and the number of its lines, in the order in
    /// which the groups first occurred.
    pub groups: Vec<(String, usize)>,
}

/// What the structured path found, as plain text and numbers.
pub ghost struct ParseView {
    pub branch: Option<Seq<char>>,
    pub groups: Seq<(Seq<char>, nat)>,
}

/// The views of a list of groups.
pub open spec fn groups_view(groups: Seq<(String, usize)>) -> Seq<(Seq<char>, nat)> {
    groups.map_values(|g: (String, usize)| (g.0@, g.1 as nat))
}

impl View for ParseResult {
    type V = ParseView;

    open spec fn view(&self) -> ParseView {
        ParseView {
            branch: match self.branch {
                Some(b) => Some(b@),
                None => None,
            },
            groups: groups_view(self.groups@),
        }
    }
}

/// The template of the whole output where the rule set gives none.
pub const DEFAULT_FORMAT: &'static str = "{branch}\n{group_counts}";

/// The template of one group's line where the rule set gives none.
pub const DEFAULT_GROUP_FORMAT: &'static str = "{label}: {count}";

/// Whether the rule for the chosen line names a line that exists.
pub open spec fn chosen_line(config: ParseConfig, lines: Seq<Seq<char>>) -> Option<int> {
    match config.branch {
        Some(b) => if 1 <= b.line <= lines.len() {
            Some(b.line - 1)
        } else {
            None
        },
        None => None,
    }
}

/// The template of a rule filled in from the first match of its pattern in
/// `line`.
pub open spec fn extracted_from(pattern: Seq<char>, output: Seq<char>, line: Seq<char>) -> Option<
    Seq<char>,
> {
    match first_captures(pattern, line) {
        Some(groups) => Some(interpolated(output, groups)),
        None => None,
    }
}

/// The value taken from the chosen line.
pub open spec fn branch_of(config: ParseConfig, lines: Seq<Seq<char>>) -> Option<Seq<char>> {
    match chosen_line(config, lines) {
        Some(i) => extracted_from(config.branch->0.pattern@, config.branch->0.output@, lines[i]),
        None => None,
    }
}

/// One more line for `key`: its count grows by one, or it enters at the end
/// with a count of one.
pub open spec fn counted(counts: Seq<(Seq<char>, nat)>, key: Seq<char>) -> Seq<(Seq<char>, nat)>
    decreases counts.len(),
{
    if counts.len() == 0 {
        seq![(key, 1nat)]
    } else if counts[0].0 == key {
        counts.update(0, (key, counts[0].1 + 1))
    } else {
        seq![counts[0]] + counted(counts.drop_first(), key)
    }
}

/// The keys of the lines from which the rule extracts one, each with the
/// number of its lines; the chosen line is left out. The keys stand in the
/// order in which they first occur.
pub open spec fn key_counts(
    rule: ExtractRule,
    lines: Seq<Seq<char>>,
    chosen: Option<int>,
    n: int,
) -> Seq<(Seq<char>, nat)>
    decreases n,
{
    if n <= 0 || n > lines.len() {
        Seq::empty()
    } else {
        let before = key_counts(rule, lines, chosen, n - 1);
        if chosen == Some(n - 1) {
            before
        } else {
            match extracted_from(rule.pattern@, rule.output@, lines[n - 1]) {
                Some(key) => counted(before, key),
                None => before,
            }
        }
    }
}

/// The label of a key: that of the first pair that holds the key, or the
/// key itself.
pub open spec fn label_of(labels: Seq<(String, String)>, key: Seq<char>) -> Seq<char>
    decreases labels.len(),
{
    if labels.len() == 0 {
        key
    } else if labels[0].0@ == key {
        labels[0].1@
    } else {
        label_of(labels.drop_first(), key)
    }
}

/// The groups with their labels in place of their keys.
pub open spec fn labelled(labels: Seq<(String, String)>, counts: Seq<(Seq<char>, nat)>) -> Seq<
    (Seq<char>, nat),
> {
    counts.map_values(|c: (Seq<char>, nat)| (label_of(labels, c.0), c.1))
}

/// What the structured path finds in `lines`.
pub open spec fn parsed(config: ParseConfig, lines: Seq<Seq<char>>) -> ParseView {
    ParseView {
        branch: branch_of(config, lines),
        groups: match config.group {
            Some(g) => labelled(
                g.labels@,
                key_counts(g.key, lines, chosen_line(config, lines), lines.len() as int),
            ),
            None => Seq::empty(),
        },
    }
}

/// Fills in the template of a rule from the first match of its pattern in
/// `line`.
pub fn extract_from(pattern: &str, output: &str, line: &str) -> (out: Option<String>)
    ensures
        match out {
            Some(text) => extracted_from(pattern@, output@, line@) == Some(text@),
            None => extracted_from(pattern@, output@, line@) is None,
        },
{
    match capture_groups(pattern, line) {
        Some(groups) => Some(interpolate(output, groups.as_slice())),
        None => None,
    }
}

/// Counts one more line for `key`.
fn count_key(counts: &mut Vec<(String, usize)>, key: String)
    requires
        forall|k: int| 0 <= k < old(counts).len() ==> (#[trigger] old(counts)@[k]).1 < usize::MAX,
    ensures
        groups_view(final(counts)@) == counted(groups_view(old(counts)@), key@),
{
    let ghost start = groups_view(counts@);
    let mut i: usize = 0;
    assert(start.subrange(0, start.len() as int) =~= start);
    assert(start.take(0) + counted(start.subrange(0, start.len() as int), key@) =~= counted(
        start,
        key@,
    ));
    while i < counts.len()
        invariant
            i <= counts.len(),
            counts@ == old(counts)@,
            forall|k: int| 0 <= k < counts.len() ==> (#[trigger] counts@[k]).1 < usize::MAX,
            start == groups_view(counts@),
            start.take(i as int) + counted(start.subrange(i as int, start.len() as int), key@)
                == counted(start, key@),
        decreases counts.len() - i,
    {
        let ghost rest = start.subrange(i as int, start.len() as int);
        assert(rest[0] == start[i as int]);
        if same_text(counts[i].0.as_str(), key.as_str()) {
            let n = counts[i].1;
            counts.set(i, (key, n + 1));
            assert(groups_view(counts@) =~= start.take(i as int) + rest.update(
                0,
                (key@, (n + 1) as nat),
            ));
            return ;
        }
        assert(rest.drop_first() =~= start.subrange(i as int + 1, start.len() as int));
        assert(start.take(i as int + 1) + counted(rest.drop_first(), key@) =~= start.take(
            i as int,
        ) + (seq![rest[0]] + counted(rest.drop_first(), key@)));
        i += 1;
    }
    assert(start.subrange(start.len() as int, start.len() as int) =~= Seq::<
        (Seq<char>, nat),
    >::empty());
    counts.push((key, 1));
    assert(groups_view(counts@) =~= start.take(start.len() as int) + seq![(key@, 1nat)]);
}

/// Counting one more line lets no count grow by more than one.
proof fn lemma_counted_bound(counts: Seq<(Seq<char>, nat)>, key: Seq<char>, bound: nat)
    requires
        bound >= 1,
        forall|k: int| 0 <= k < counts.len() ==> (#[trigger] counts[k]).1 < bound,
    ensures
        forall|k: int|
            0 <= k < counted(counts, key).len() ==> (#[trigger] counted(counts, key)[k]).1
                <= bound,
    decreases counts.len(),
{
    if counts.len() > 0 && counts[0].0 != key {
        let rest = counts.drop_first();
        assert forall|k: int| 0 <= k < rest.len() implies (#[trigger] rest[k]).1 < bound by {
            assert(rest[k] == counts[k + 1]);
        }
        lemma_counted_bound(rest, key, bound);
        assert forall|k: int| 0 <= k < counted(counts, key).len() implies (#[trigger] counted(
            counts,
            key,
        )[k]).1 <= bound by {
            if k > 0 {
                assert(counted(counts, key)[k] == counted(rest, key)[k - 1]);
            }
        }
    }
}

/// Looks up the label of a key.
pub fn find_label(labels: &Vec<(String, String)>, key: &str) -> (out: String)
    ensures
        out@ == label_of(labels@, key@),
{
    let mut i: usize = 0;
    assert(labels@.subrange(0, labels.len() as int) =~= labels@);
    while i < labels.len()
        invariant
            i <= labels.len(),
            label_of(labels@, key@) == label_of(
                labels@.subrange(i as int, labels.len() as int),
                key@,
            ),
        decreases labels.len() - i,
    {
        if same_text(labels[i].0.as_str(), key) {
            return labels[i].1.clone();
        }
        assert(labels@.subrange(i as int, labels.len() as int).drop_first() =~= labels@.subrange(
            i as int + 1,
            labels.len() as int,
        ));
        i += 1;
    }
    key.to_owned()
}

/// Runs the structured path over the lines.
pub fn run_parse(config: &ParseConfig, lines: &[&str]) -> (out: ParseResult)
    ensures
        out@ == parsed(*config, str_views(lines@)),
{
    let ghost all = str_views(lines@);
    let chosen: Option<usize> = match &config.branch {
        Some(b) => if 1 <= b.line && b.line <= lines.len() {
            Some(b.line - 1)
        } else {
            None
        },
        None => None,
    };
    let ghost chosen_view: Option<int> = match chosen {
        Some(c) => Some(c as int),
        None => None,
    };
    assert(chosen_view == chosen_line(*config, all));
    let branch: Option<String> = match (&config.branch, chosen) {
        (Some(b), Some(i)) => extract_from(b.pattern.as_str(), b.output.as_str(), lines[i]),
        _ => None,
    };
    let mut groups: Vec<(String, usize)> = Vec::new();
    match &config.group {
        Some(g) => {
            let mut counts: Vec<(String, usize)> = Vec::new();
            let mut n: usize = 0;
            assert(groups_view(counts@) =~= Seq::<(Seq<char>, nat)>::empty());
            while n < lines.len()
                invariant
                    n <= lines.len(),
                    all == str_views(lines@),
                    chosen_view == (match chosen {
                        Some(c) => Some(c as int),
                        None => None,
                    }),
                    groups_view(counts@) == key_counts(g.key, all, chosen_view, n as int),
                    forall|k: int| 0 <= k < counts.len() ==> (#[trigger] counts@[k]).1 <= n,
                decreases lines.len() - n,
            {
                let is_chosen = match chosen {
                    Some(c) => c == n,
                    None => false,
                };
                if !is_chosen {
                    match extract_from(g.key.pattern.as_str(), g.key.output.as_str(), lines[n]) {
                        Some(key) => {
                            let ghost before = groups_view(counts@);
                            assert forall|k: int| 0 <= k < before.len() implies (
                            #[trigger] before[k]).1 < n + 1 by {
                                assert(before[k].1 == counts@[k].1);
                            }
                            count_key(&mut counts, key);
                            proof {
                                lemma_counted_bound(before, key@, (n + 1) as nat);
                                assert forall|k: int| 0 <= k < counts.len() implies (
                                #[trigger] counts@[k]).1 <= n + 1 by {
                                    assert(groups_view(counts@)[k].1 == counts@[k].1);
                                }
                            }
                        },
                        None => {},
                    }
                }
                n += 1;
            }
            let mut k: usize = 0;
            while k < counts.len()
                invariant
                    k <= counts.len(),
                    groups.len() == k,
                    forall|j: int|
                        0 <= j < k ==> (#[trigger] groups@[j]).0@ == label_of(
                            g.labels@,
                            counts@[j].0@,
                        ) && groups@[j].1 == counts@[j].1,
                decreases counts.len() - k,
            {
                groups.push((find_label(&g.labels, counts[k].0.as_str()), counts[k].1));
                k += 1;
            }
            assert(groups_view(groups@) =~= labelled(g.labels@, groups_view(counts@)));
        },
        None => {
            assert(groups_view(groups@) =~= Seq::<(Seq<char>, nat)>::empty());
        },
    }
    ParseResult { branch, groups }
}

/// The variables of one group's line.
pub open spec fn group_vars(label: Seq<char>, count: nat) -> Map<Seq<char>, Seq<char>> {
    Map::<Seq<char>, Seq<char>>::empty().insert("label"@, label).insert("count"@, decimal(count))
}

/// The lines of the groups, each rendered from the group template with
/// `label` and `count` bound.
pub open spec fn group_lines(format: Seq<char>, groups: Seq<(Seq<char>, nat)>) -> Seq<Seq<char>> {
    groups.map_values(
        |g: (Seq<char>, nat)|
            rendered(format, group_vars(g.0, g.1), Map::<Seq<char>, SectionView>::empty()),
    )
}

/// What stands for the groups in the output: their lines joined by
/// newlines, or the message for no groups.
pub open spec fn group_counts_text(output: OutputConfig, groups: Seq<(Seq<char>, nat)>) -> Seq<
    char,
> {
    if groups.len() == 0 {
        match output.empty {
            Some(e) => e@,
            None => Seq::empty(),
        }
    } else {
        join(
            group_lines(
                match output.group_counts_format {
                    Some(f) => f@,
                    None => DEFAULT_GROUP_FORMAT@,
                },
                groups,
            ),
            newline(),
        )
    }
}

/// The output of the structured path: the output template rendered with
/// `branch` and `group_counts` bound.
pub open spec fn parse_rendered(output: OutputConfig, result: ParseView) -> Seq<char> {
    rendered(
        match output.format {
            Some(f) => f@,
            None => DEFAULT_FORMAT@,
        },
        Map::<Seq<char>, Seq<char>>::empty().insert(
            "branch"@,
            match result.branch {
                Some(b) => b,
                None => Seq::empty(),
            },
        ).insert("group_counts"@, group_counts_text(output, result.groups)),
        Map::<Seq<char>, SectionView>::empty(),
    )
}

/// Renders what the structured path found.
pub fn render_output(output: &OutputConfig, result: &ParseResult) -> (out: String)
    ensures
        out@ == parse_rendered(*output, result@),
{
    let no_sections = Table::new();
    let group_counts: String = if result.groups.len() == 0 {
        assert(result@.groups.len() == 0);
        match &output.empty {
            Some(e) => e.clone(),
            None => String::new(),
        }
    } else {
        let format: &str = match &output.group_counts_format {
            Some(f) => f.as_str(),
            None => DEFAULT_GROUP_FORMAT,
        };
        let mut rendered_lines: Vec<String> = Vec::new();
        let mut k: usize = 0;
        while k < result.groups.len()
            invariant
                k <= result.groups.len(),
                rendered_lines.len() == k,
                no_sections@ == Map::<Seq<char>, SectionView>::empty(),
                forall|j: int|
                    0 <= j < k ==> (#[trigger] rendered_lines@[j])@ == rendered(
                        format@,
                        group_vars(result.groups@[j].0@, result.groups@[j].1 as nat),
                        Map::<Seq<char>, SectionView>::empty(),
                    ),
            decreases result.groups.len() - k,
        {
            let mut vars: TemplateContext = Table::new();
            vars.insert("label".to_owned(), result.groups[k].0.clone());
            vars.insert("count".to_owned(), decimal_string(result.groups[k].1));
            rendered_lines.push(render_template(format, &vars, &no_sections));
            k += 1;
        }
        assert(views(rendered_lines@) =~= group_lines(format@, result@.groups));
        proof {
            reveal_strlit("\n");
            assert("\n"@ =~= newline());
        }
        join_strings(rendered_lines.as_slice(), "\n")
    };
    let format: &str = match &output.format {
        Some(f) => f.as_str(),
        None => DEFAULT_FORMAT,
    };
    let mut vars: TemplateContext = Table::new();
    vars.insert(
        "branch".to_owned(),
        match &result.branch {
            Some(b) => b.clone(),
            None => String::new(),
        },
    );
    vars.insert("group_counts".to_owned(), group_counts);
    render_template(format, &vars, &no_sections)
}

} // verus!
