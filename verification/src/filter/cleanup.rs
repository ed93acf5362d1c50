//! Cleaning lines before they are filtered, and the whole output after.

use crate::config::types::FilterConfig;
use crate::filter::skip::{flag_at, lemma_retain_filters, retain, retain_lines};
use crate::pattern::{regex_replace_all, regex_valid, Pattern};
use crate::text::{
    borrow_all, contains, crlf, ends_with, ends_with_char, is_blank, is_blank_str, join,
    join_lines, lemma_contains_extended, lemma_filter_keeps_all, lemma_filter_member, lemma_join_end,
    lemma_crlf_in_join, lemma_join_holds_crlf, lemma_join_len, lemma_lines_hold_no_newline,
    lemma_scan_joined, lemma_total_len_shorter, lines, newline,
    no_newline, occurs_at, scan_lines, split_lines, str_views, strip_cr, trim, trim_str, views,
};
use vstd::prelude::*;

verus! {

/// The pattern of an ANSI escape sequence: a CSI sequence (`ESC [`,
/// parameters, a letter), an OSC sequence (`ESC ]`, text, then BEL or
/// `ESC \`), or a bare Fe escape (`ESC` and one character from `@` to `_`).
/// The OSC alternative stands before the Fe one, whose range holds `]`.
pub const ANSI_PATTERN: &'static str =
    r"\x1b(?:\[[0-9;]*[a-zA-Z]|\][^\x07\x1b]*(?:\x07|\x1b\\)|[@-_])";

/// `line` without its ANSI escape sequences.
pub open spec fn ansi_stripped(line: Seq<char>) -> Seq<char> {
    if regex_valid(ANSI_PATTERN@) {
        regex_replace_all(ANSI_PATTERN@, line, Seq::empty())
    } else {
        line
    }
}

/// One line after cleanup: escape sequences are removed first, if asked
/// for, then leading and trailing whitespace, if asked for.
pub open spec fn cleaned_line(strip_ansi: bool, trim_lines: bool, line: Seq<char>) -> Seq<char> {
    let stripped = if strip_ansi {
        ansi_stripped(line)
    } else {
        line
    };
    if trim_lines {
        trim(stripped)
    } else {
        stripped
    }
}

/// Every line after cleanup.
pub open spec fn cleaned_lines(strip_ansi: bool, trim_lines: bool, lines: Seq<Seq<char>>) -> Seq<
    Seq<char>,
> {
    lines.map_values(|line: Seq<char>| cleaned_line(strip_ansi, trim_lines, line))
}

/// Per-line cleanup applied before skip/keep filtering: `strip_ansi`
/// removes ANSI escape sequences from each line, `trim_lines` then trims
/// leading and trailing whitespace.
pub fn apply_line_cleanup(config: &FilterConfig, lines: &[&str]) -> (out: Vec<String>)
    ensures
        views(out@) == cleaned_lines(config.strip_ansi, config.trim_lines, str_views(lines@)),
{
    let ansi: Option<Pattern> = if config.strip_ansi {
        Pattern::compile(ANSI_PATTERN)
    } else {
        None
    };
    let mut out: Vec<String> = Vec::new();
    let mut i: usize = 0;
    while i < lines.len()
        invariant
            i <= lines.len(),
            out.len() == i,
            match ansi {
                Some(p) => config.strip_ansi && regex_valid(ANSI_PATTERN@) && p.source()
                    == ANSI_PATTERN@,
                None => !config.strip_ansi || !regex_valid(ANSI_PATTERN@),
            },
            forall|j: int|
                0 <= j < i ==> (#[trigger] out@[j])@ == cleaned_line(
                    config.strip_ansi,
                    config.trim_lines,
                    lines@[j]@,
                ),
        decreases lines.len() - i,
    {
        let stripped: String = match &ansi {
            Some(p) => p.replace_all(lines[i], ""),
            None => lines[i].to_owned(),
        };
        proof {
            reveal_strlit("");
            assert(""@ =~= Seq::<char>::empty());
        }
        let cleaned = if config.trim_lines {
            trim_str(stripped.as_str())
        } else {
            stripped
        };
        out.push(cleaned);
        i += 1;
    }
    assert(views(out@) =~= cleaned_lines(
        config.strip_ansi,
        config.trim_lines,
        str_views(lines@),
    ));
    out
}

/// The test for a line that is not blank.
pub open spec fn not_blank() -> spec_fn(Seq<char>) -> bool {
    |line: Seq<char>| !is_blank(line)
}

/// `text` without its blank lines. The result ends with a newline if it is
/// not empty and `text` ended with one.
pub open spec fn strip_empty_lines(text: Seq<char>) -> Seq<char> {
    let joined = join(split_lines(text).filter(not_blank()), newline());
    if joined.len() > 0 && ends_with_char(text, '\n') {
        joined + newline()
    } else {
        joined
    }
}

/// Flags each blank line that directly follows a blank line.
pub open spec fn repeated_blank(lines: Seq<Seq<char>>) -> Seq<bool> {
    Seq::new(lines.len(), |i: int| i > 0 && is_blank(lines[i]) && is_blank(lines[i - 1]))
}

/// `text` with each run of blank lines cut down to its first line. The
/// result ends with a newline if `text` ended with one.
pub open spec fn collapse_empty_lines(text: Seq<char>) -> Seq<char> {
    let all = split_lines(text);
    let joined = join(retain(all, repeated_blank(all), false), newline());
    if ends_with_char(text, '\n') {
        joined + newline()
    } else {
        joined
    }
}

/// The output after the last stage: stripped of blank lines where
/// `strip_empty` is set; else with runs of blank lines collapsed where
/// `collapse_empty` is set; else unchanged.
pub open spec fn post_processed(strip_empty: bool, collapse_empty: bool, text: Seq<char>) -> Seq<
    char,
> {
    if strip_empty {
        strip_empty_lines(text)
    } else if collapse_empty {
        collapse_empty_lines(text)
    } else {
        text
    }
}

/// Flags the blank lines.
fn blank_flags(lines: &[&str]) -> (flags: Vec<bool>)
    ensures
        flags.len() == lines.len(),
        forall|i: int| 0 <= i < lines.len() ==> #[trigger] flags@[i] == is_blank(lines@[i]@),
{
    let mut flags: Vec<bool> = Vec::new();
    let mut i: usize = 0;
    while i < lines.len()
        invariant
            i <= lines.len(),
            flags.len() == i,
            forall|j: int| 0 <= j < i ==> #[trigger] flags@[j] == is_blank(lines@[j]@),
        decreases lines.len() - i,
    {
        flags.push(is_blank_str(lines[i]));
        i += 1;
    }
    flags
}

/// Post-processes the final output string. `strip_empty_lines` removes
/// blank and whitespace-only lines; `collapse_empty_lines` collapses
/// consecutive blank lines into one; the first wins if both are set.
pub fn post_process_output(config: &FilterConfig, output: String) -> (out: String)
    ensures
        out@ == post_processed(config.strip_empty_lines, config.collapse_empty_lines, output@),
{
    if !config.strip_empty_lines && !config.collapse_empty_lines {
        return output;
    }
    let trailing_newline = ends_with(output.as_str(), '\n');
    let owned = lines(output.as_str());
    let all = borrow_all(owned.as_slice());
    let blank = blank_flags(all.as_slice());
    if config.strip_empty_lines {
        let kept = retain_lines(all.as_slice(), blank.as_slice(), false);
        proof {
            let texts = str_views(all@);
            assert forall|i: int| 0 <= i < texts.len() implies (flag_at(blank@, i) == false)
                == not_blank()(#[trigger] texts[i]) by {}
            lemma_retain_filters(texts, blank@, false, not_blank());
        }
        let mut result = join_lines(kept.as_slice());
        if !result.as_str().is_empty() && trailing_newline {
            result.push('\n');
        }
        return result;
    }
    let mut repeated: Vec<bool> = Vec::new();
    let mut i: usize = 0;
    while i < blank.len()
        invariant
            i <= blank.len() == all.len(),
            repeated.len() == i,
            forall|j: int| 0 <= j < all.len() ==> #[trigger] blank@[j] == is_blank(all@[j]@),
            forall|j: int|
                0 <= j < i ==> #[trigger] repeated@[j] == (j > 0 && is_blank(all@[j]@) && is_blank(
                    all@[j - 1]@,
                )),
        decreases blank.len() - i,
    {
        repeated.push(i > 0 && blank[i] && blank[i - 1]);
        i += 1;
    }
    assert(repeated@ =~= repeated_blank(str_views(all@)));
    let kept = retain_lines(all.as_slice(), repeated.as_slice(), false);
    let mut result = join_lines(kept.as_slice());
    if trailing_newline {
        result.push('\n');
    }
    result
}

/// Stripping blank lines twice gives what stripping them once gives,
/// unless the first pass leaves a carriage return directly before a
/// newline: the second pass would read the two as one line ending.
pub proof fn lemma_strip_empty_lines_idempotent(text: Seq<char>)
    requires
        !contains(strip_empty_lines(text), crlf()),
    ensures
        strip_empty_lines(strip_empty_lines(text)) == strip_empty_lines(text),
{
    let all = split_lines(text);
    let kept = all.filter(not_blank());
    let joined = join(kept, newline());
    let once = strip_empty_lines(text);
    let strip = |l: Seq<char>| strip_cr(l);
    if kept.len() == 0 {
        assert(once =~= Seq::<char>::empty());
        assert(split_lines(once) =~= Seq::<Seq<char>>::empty());
        lemma_filter_keeps_all(split_lines(once), not_blank());
    } else {
        broadcast use vstd::seq_lib::group_filter_ensures;
        lemma_lines_hold_no_newline(text);
        assert forall|i: int| 0 <= i < kept.len() implies no_newline(#[trigger] kept[i])
            && not_blank()(kept[i]) && kept[i].len() > 0 by {
            lemma_filter_member(all, not_blank(), i);
            assert(not_blank()(kept[i]));
            if kept[i].len() == 0 {
                assert(is_blank(kept[i]));
            }
        }
        lemma_scan_joined(kept);
        lemma_join_end(kept, newline());
        let trailing = ends_with_char(text, '\n');
        assert(once == if trailing {
            joined + newline()
        } else {
            joined
        });
        assert forall|i: int| 0 <= i < kept.len() - 1 implies strip_cr(#[trigger] kept[i])
            == kept[i] by {
            if ends_with_char(kept[i], '\r') {
                lemma_join_holds_crlf(kept, i);
                if trailing {
                    lemma_contains_extended(joined, newline(), crlf());
                }
            }
        }
        assert(kept.drop_last().map_values(strip) =~= kept.drop_last());
        if trailing {
            if ends_with_char(kept.last(), '\r') {
                let at = joined.len() - 1;
                assert(once.subrange(at, at + 2) =~= crlf());
                assert(occurs_at(once, crlf(), at));
            }
            assert(once.drop_last() =~= joined);
            assert(scan_lines(once) == (
                kept.drop_last().map_values(strip).push(strip_cr(kept.last())),
                Seq::<char>::empty(),
            ));
            assert(kept.drop_last().push(kept.last()) =~= kept);
            assert(split_lines(once) == kept);
        } else {
            assert(kept.drop_last().push(kept.last()) =~= kept);
            assert(split_lines(once) == kept);
            assert(kept.last().last() != '\n');
        }
        lemma_filter_keeps_all(kept, not_blank());
    }
}

/// Post-processing with blank lines stripped, run twice, gives what one
/// run gives, unless the first run leaves a carriage return directly
/// before a newline.
pub proof fn lemma_post_process_idempotent(collapse_empty: bool, text: Seq<char>)
    requires
        !contains(post_processed(true, collapse_empty, text), crlf()),
    ensures
        post_processed(true, collapse_empty, post_processed(true, collapse_empty, text))
            == post_processed(true, collapse_empty, text),
{
    lemma_strip_empty_lines_idempotent(text);
}

/// Where stripping blank lines leaves a carriage return directly before
/// a newline, a second pass takes that carriage return away, so that the
/// second result is shorter than the first: the condition of
/// `lemma_strip_empty_lines_idempotent` leaves out no more than it must.
pub proof fn lemma_strip_twice_differs_after_crlf(text: Seq<char>)
    requires
        contains(strip_empty_lines(text), crlf()),
    ensures
        strip_empty_lines(strip_empty_lines(text)).len() < strip_empty_lines(text).len(),
{
    broadcast use vstd::seq_lib::group_filter_ensures;
    let all = split_lines(text);
    let kept = all.filter(not_blank());
    let joined = join(kept, newline());
    let once = strip_empty_lines(text);
    let strip = |l: Seq<char>| strip_cr(l);
    let trailing = ends_with_char(text, '\n');
    if kept.len() == 0 {
        assert(once =~= Seq::<char>::empty());
        let p = choose|p: int| occurs_at(once, crlf(), p);
        assert(false);
    }
    lemma_lines_hold_no_newline(text);
    assert forall|i: int| 0 <= i < kept.len() implies no_newline(#[trigger] kept[i]) && not_blank()(
        kept[i],
    ) && kept[i].len() > 0 by {
        lemma_filter_member(all, not_blank(), i);
        assert(not_blank()(kept[i]));
        if kept[i].len() == 0 {
            assert(is_blank(kept[i]));
        }
    }
    lemma_scan_joined(kept);
    lemma_join_end(kept, newline());
    assert(once == if trailing {
        joined + newline()
    } else {
        joined
    });
    // The line that loses its carriage return in the second pass.
    let k: int = if contains(joined, crlf()) {
        lemma_crlf_in_join(kept)
    } else {
        let p = choose|p: int| occurs_at(once, crlf(), p);
        assert(once.subrange(p, p + 2)[0] == once[p]);
        assert(once.subrange(p, p + 2)[1] == once[p + 1]);
        if p + 2 <= joined.len() {
            assert(joined.subrange(p, p + 2) =~= once.subrange(p, p + 2));
            assert(occurs_at(joined, crlf(), p));
        }
        assert(trailing);
        assert(p == joined.len() - 1);
        assert(once[p] == joined[p]);
        kept.len() - 1
    };
    assert(ends_with_char(kept[k], '\r'));
    assert(k < kept.len() - 1 || trailing);
    // What the second pass reads.
    let again = split_lines(once);
    if trailing {
        assert(once.drop_last() =~= joined);
        assert(scan_lines(once) == (
            kept.drop_last().map_values(strip).push(strip_cr(kept.last())),
            Seq::<char>::empty(),
        ));
        assert(again =~= kept.map_values(strip));
    } else {
        assert(again =~= kept.drop_last().map_values(strip).push(kept.last()));
    }
    assert(again.len() == kept.len());
    assert forall|i: int| 0 <= i < again.len() implies (#[trigger] again[i]).len() <= kept[i].len()
        && not_blank()(again[i]) && again[i].len() > 0 by {
        let line = kept[i];
        assert(not_blank()(line));
        let j = choose|j: int| 0 <= j < line.len() && !crate::text::is_whitespace(line[j]);
        if again[i] != line {
            assert(again[i] == strip_cr(line));
            assert(crate::text::is_whitespace('\r'));
            assert(j < line.len() - 1);
            assert(strip_cr(line)[j] == line[j]);
        }
        assert(!crate::text::is_whitespace(again[i][j]));
    }
    assert(again[k] == strip_cr(kept[k]));
    assert(again[k].len() < kept[k].len());
    lemma_filter_keeps_all(again, not_blank());
    lemma_total_len_shorter(again, kept, k);
    lemma_join_len(again, newline());
    lemma_join_len(kept, newline());
    lemma_join_end(again, newline());
    assert(ends_with_char(once, '\n') == trailing) by {
        if !trailing {
            assert(kept.last().last() != '\n');
        }
    }
}

} // verus!
