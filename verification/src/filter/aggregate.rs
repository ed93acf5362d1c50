//! Adding up numbers found in a collected section.

use crate::config::types::AggregateRule;
use crate::filter::extract::group_text;
use crate::filter::section::{SectionMap, SectionView};
use crate::filter::template::TemplateContext;
use crate::pattern::{group_views, regex_captures, regex_valid, Pattern};
use crate::table::Table;
use crate::text::{
    decimal, decimal_string, parse_i64, parse_i64_str, signed_decimal, signed_decimal_string,
    views,
};
use vstd::prelude::*;

verus! {

/// The number that a match contributes: capture group 1 read as a decimal
/// integer of 64 bits, or nothing where it is no such number.
pub open spec fn captured_number(groups: Seq<Option<Seq<char>>>) -> int {
    match parse_i64(group_text(groups, 1)) {
        Some(n) => n as int,
        None => 0,
    }
}

/// The sum of the numbers found in the lines that `pattern` matches, and
/// the number of those lines.
pub open spec fn tally(pattern: Seq<char>, lines: Seq<Seq<char>>) -> (int, nat)
    decreases lines.len(),
{
    if lines.len() == 0 {
        (0, 0)
    } else {
        let (sum, count) = tally(pattern, lines.drop_last());
        match regex_captures(pattern, lines.last()) {
            Some(groups) => (sum + captured_number(groups), count + 1),
            None => (sum, count),
        }
    }
}

/// The variables that an aggregate rule binds: the sum and the count, in
/// decimal, under the names that the rule gives them. Nothing is bound
/// where the section does not exist or the pattern does not compile.
pub open spec fn aggregated(rule: AggregateRule, sections: Map<Seq<char>, SectionView>) -> Map<
    Seq<char>,
    Seq<char>,
> {
    if sections.dom().contains(rule.from@) && regex_valid(rule.pattern@) {
        let (sum, count) = tally(rule.pattern@, sections[rule.from@].lines);
        let with_sum = match rule.sum {
            Some(name) => Map::<Seq<char>, Seq<char>>::empty().insert(name@, signed_decimal(sum)),
            None => Map::<Seq<char>, Seq<char>>::empty(),
        };
        match rule.count_as {
            Some(name) => with_sum.insert(name@, decimal(count)),
            None => with_sum,
        }
    } else {
        Map::empty()
    }
}

/// The number that the capture groups of one match contribute.
pub fn number_of(groups: &[Option<String>]) -> (out: i64)
    ensures
        out == captured_number(group_views(groups@)),
{
    if groups.len() > 1 {
        match &groups[1] {
            Some(text) => match parse_i64_str(text.as_str()) {
                Some(n) => n,
                None => 0,
            },
            None => {
                proof {
                    lemma_empty_is_no_number();
                }
                0
            },
        }
    } else {
        proof {
            lemma_empty_is_no_number();
        }
        0
    }
}

/// The empty text writes no number.
proof fn lemma_empty_is_no_number()
    ensures
        parse_i64(Seq::<char>::empty()) is None,
{
}

/// Runs an aggregate rule over the sections collected.
pub fn run_aggregate(rule: &AggregateRule, sections: &SectionMap) -> (out: TemplateContext)
    ensures
        out@ == aggregated(*rule, sections@),
{
    let mut out: TemplateContext = Table::new();
    let section = match sections.get(rule.from.as_str()) {
        Some(s) => s,
        None => {
            return out;
        },
    };
    let compiled = match Pattern::compile(rule.pattern.as_str()) {
        Some(p) => p,
        None => {
            return out;
        },
    };
    let ghost all = views(section.lines@);
    let mut sum: i128 = 0;
    let mut count: usize = 0;
    let mut i: usize = 0;
    assert(all.take(0) =~= Seq::<Seq<char>>::empty());
    while i < section.lines.len()
        invariant
            i <= section.lines.len(),
            all == views(section.lines@),
            compiled.source() == rule.pattern@,
            tally(rule.pattern@, all.take(i as int)) == (sum as int, count as nat),
            count <= i,
            -(i * 0x8000_0000_0000_0000) <= sum <= i * 0x8000_0000_0000_0000,
        decreases section.lines.len() - i,
    {
        assert(all.take(i as int + 1).drop_last() =~= all.take(i as int));
        assert(all.take(i as int + 1).last() == section.lines@[i as int]@);
        assert((i + 1) * 0x8000_0000_0000_0000 == i * 0x8000_0000_0000_0000
            + 0x8000_0000_0000_0000) by (nonlinear_arith);
        assert((i + 1) * 0x8000_0000_0000_0000 <= 0xffff_ffff_ffff_ffff * 0x8000_0000_0000_0000)
            by (nonlinear_arith)
            requires
                i + 1 <= 0xffff_ffff_ffff_ffff,
        ;
        match compiled.captures(section.lines[i].as_str()) {
            Some(groups) => {
                let n = number_of(groups.as_slice());
                sum = sum + n as i128;
                count = count + 1;
            },
            None => {},
        }
        i += 1;
    }
    assert(all.take(section.lines.len() as int) =~= all);
    match &rule.sum {
        Some(name) => {
            out.insert(name.clone(), signed_decimal_string(sum));
        },
        None => {},
    }
    match &rule.count_as {
        Some(name) => {
            out.insert(name.clone(), decimal_string(count));
        },
        None => {},
    }
    out
}

} // verus!
