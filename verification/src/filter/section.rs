//! Collecting named regions of the output.
//!
//! Each section is a small state machine that reads every line of the raw
//! output. A section without enter and exit markers is always active. A
//! section with markers is inactive until a line matches its enter
//! pattern, and active until a line matches its exit pattern. The two
//! marker lines themselves are never collected.

use crate::config::types::Section;
use crate::pattern::{regex_is_match, regex_valid, Pattern};
use crate::table::Table;
use crate::text::{join, join_strings, newline, str_views, views};
use vstd::prelude::*;

verus! {

/// What one section collected.
#[derive(Debug, Clone, PartialEq, Eq)]
pub struct SectionData {
    /// The collected lines, in order.
    pub lines: Vec<String>,
    /// The collected lines cut into blocks, where the section splits.
    pub blocks: Vec<String>,
}

/// What one section collected, as plain text.
pub ghost struct SectionView {
    pub lines: Seq<Seq<char>>,
    pub blocks: Seq<Seq<char>>,
}

impl View for SectionData {
    type V = SectionView;

    open spec fn view(&self) -> SectionView {
        SectionView { lines: views(self.lines@), blocks: views(self.blocks@) }
    }
}

/// The sections of one invocation, by the name they are collected as.
pub type SectionMap = Table<SectionData>;

/// The state of a section's machine.
#[derive(Debug, Clone, Copy, PartialEq, Eq, Structural)]
pub enum SectionState {
    AlwaysActive,
    Inactive,
    Active,
}

/// Whether an optional pattern is absent or compiles.
pub open spec fn absent_or_valid(pattern: Option<String>) -> bool {
    match pattern {
        Some(p) => regex_valid(p@),
        None => true,
    }
}

/// Whether a section takes part: it names what it is collected as, and each
/// pattern it has compiles.
pub open spec fn section_usable(section: Section) -> bool {
    &&& section.collect_as is Some
    &&& absent_or_valid(section.enter)
    &&& absent_or_valid(section.exit)
    &&& absent_or_valid(section.match_pattern)
    &&& absent_or_valid(section.split_on)
}

/// Whether a pattern is present and matches in `line`.
pub open spec fn present_and_matches(pattern: Option<String>, line: Seq<char>) -> bool {
    match pattern {
        Some(p) => regex_is_match(p@, line),
        None => false,
    }
}

/// Whether a line that the section sees while active is collected.
pub open spec fn line_wanted(section: Section, line: Seq<char>) -> bool {
    match section.match_pattern {
        Some(p) => regex_is_match(p@, line),
        None => true,
    }
}

/// The state in which a section starts.
pub open spec fn initial_state(section: Section) -> SectionState {
    if section.enter is None && section.exit is None {
        SectionState::AlwaysActive
    } else {
        SectionState::Inactive
    }
}

/// One step of the machine: the next state, and whether the line is
/// collected.
pub open spec fn section_step(section: Section, state: SectionState, line: Seq<char>) -> (
    SectionState,
    bool,
) {
    match state {
        SectionState::AlwaysActive => (SectionState::AlwaysActive, line_wanted(section, line)),
        SectionState::Inactive => if present_and_matches(section.enter, line) {
            (SectionState::Active, false)
        } else {
            (SectionState::Inactive, false)
        },
        SectionState::Active => if present_and_matches(section.exit, line) {
            (SectionState::Inactive, false)
        } else {
            (SectionState::Active, line_wanted(section, line))
        },
    }
}

/// The machine run over `lines`: the state it ends in, and the lines it
/// collected.
pub open spec fn section_run(section: Section, lines: Seq<Seq<char>>) -> (
    SectionState,
    Seq<Seq<char>>,
)
    decreases lines.len(),
{
    if lines.len() == 0 {
        (initial_state(section), Seq::empty())
    } else {
        let (state, collected) = section_run(section, lines.drop_last());
        let (next, take) = section_step(section, state, lines.last());
        (
            next,
            if take {
                collected.push(lines.last())
            } else {
                collected
            },
        )
    }
}

/// Reads the collected lines with a split pattern: the blocks closed so
/// far, and the lines of the block that is open. A line that the pattern
/// matches closes the open block and belongs to none.
pub open spec fn scan_blocks(split_on: Seq<char>, lines: Seq<Seq<char>>) -> (
    Seq<Seq<char>>,
    Seq<Seq<char>>,
)
    decreases lines.len(),
{
    if lines.len() == 0 {
        (Seq::empty(), Seq::empty())
    } else {
        let (done, open) = scan_blocks(split_on, lines.drop_last());
        if !regex_is_match(split_on, lines.last()) {
            (done, open.push(lines.last()))
        } else if open.len() > 0 {
            (done.push(join(open, newline())), Seq::empty())
        } else {
            (done, open)
        }
    }
}

/// The blocks of the collected lines: the runs of lines between the lines
/// that the split pattern matches, each run joined by newlines. Without a
/// split pattern there are no blocks.
pub open spec fn blocks_of(split_on: Option<String>, lines: Seq<Seq<char>>) -> Seq<Seq<char>> {
    match split_on {
        Some(p) => {
            let (done, open) = scan_blocks(p@, lines);
            if open.len() > 0 {
                done.push(join(open, newline()))
            } else {
                done
            }
        },
        None => Seq::empty(),
    }
}

/// What a usable section collects from `lines`.
pub open spec fn collected(section: Section, lines: Seq<Seq<char>>) -> SectionView {
    let taken = section_run(section, lines).1;
    SectionView { lines: taken, blocks: blocks_of(section.split_on, taken) }
}

/// What the sections collect from `lines`, by name. Sections that are not
/// usable collect nothing and leave no entry; of two sections with one
/// name the later one counts.
pub open spec fn collected_sections(sections: Seq<Section>, lines: Seq<Seq<char>>) -> Map<
    Seq<char>,
    SectionView,
>
    decreases sections.len(),
{
    if sections.len() == 0 {
        Map::empty()
    } else {
        let before = collected_sections(sections.drop_last(), lines);
        let section = sections.last();
        if section_usable(section) {
            before.insert(section.collect_as->0@, collected(section, lines))
        } else {
            before
        }
    }
}

/// Whether some section holds a line or a block.
pub open spec fn any_collected(sections: Map<Seq<char>, SectionView>) -> bool {
    exists|name: Seq<char>| #[trigger]
        sections.dom().contains(name) && (sections[name].lines.len() > 0
            || sections[name].blocks.len() > 0)
}

/// Whether `compiled` is `pattern` compiled.
pub open spec fn compiled_from(compiled: Option<Pattern>, pattern: Option<String>) -> bool {
    match (compiled, pattern) {
        (Some(c), Some(p)) => c.source() == p@,
        (None, None) => true,
        _ => false,
    }
}

/// Compiles an optional pattern: `Err` where it is present and does not
/// compile.
fn compile_optional(pattern: &Option<String>) -> (out: Result<Option<Pattern>, ()>)
    ensures
        match out {
            Ok(compiled) => absent_or_valid(*pattern) && compiled_from(compiled, *pattern),
            Err(_) => !absent_or_valid(*pattern),
        },
{
    match pattern {
        Some(p) => match Pattern::compile(p.as_str()) {
            Some(c) => Ok(Some(c)),
            None => Err(()),
        },
        None => Ok(None),
    }
}

/// Tells whether an optional compiled pattern is present and matches.
fn optional_matches(compiled: &Option<Pattern>, line: &str) -> (out: bool)
    ensures
        forall|pattern: Option<String>|
            compiled_from(*compiled, pattern) ==> out == present_and_matches(pattern, line@),
{
    match compiled {
        Some(c) => c.is_match(line),
        None => false,
    }
}

/// Cuts collected lines into blocks at the lines that `split_on` matches.
fn split_blocks(split_on: &Pattern, lines: &Vec<String>) -> (out: Vec<String>)
    ensures
        forall|pattern: Option<String>|
            compiled_from(Some(*split_on), pattern) ==> views(out@) == blocks_of(
                pattern,
                views(lines@),
            ),
{
    let ghost all = views(lines@);
    let ghost p = split_on.source();
    let mut done: Vec<String> = Vec::new();
    let mut open: Vec<String> = Vec::new();
    let mut i: usize = 0;
    assert(all.take(0) =~= Seq::<Seq<char>>::empty());
    assert(views(done@) =~= Seq::<Seq<char>>::empty());
    assert(views(open@) =~= Seq::<Seq<char>>::empty());
    while i < lines.len()
        invariant
            i <= lines.len(),
            all == views(lines@),
            p == split_on.source(),
            scan_blocks(p, all.take(i as int)) == (views(done@), views(open@)),
        decreases lines.len() - i,
    {
        assert(all.take(i as int + 1).drop_last() =~= all.take(i as int));
        assert(all.take(i as int + 1).last() == lines@[i as int]@);
        if !split_on.is_match(lines[i].as_str()) {
            let ghost before = views(open@);
            open.push(lines[i].clone());
            assert(views(open@) =~= before.push(lines@[i as int]@));
        } else if open.len() > 0 {
            let ghost before = views(done@);
            let block = join_strings(open.as_slice(), "\n");
            proof {
                reveal_strlit("\n");
                assert("\n"@ =~= newline());
            }
            done.push(block);
            assert(views(done@) =~= before.push(block@));
            open = Vec::new();
            assert(views(open@) =~= Seq::<Seq<char>>::empty());
        }
        i += 1;
    }
    assert(all.take(lines.len() as int) =~= all);
    if open.len() > 0 {
        let ghost before = views(done@);
        let block = join_strings(open.as_slice(), "\n");
        proof {
            reveal_strlit("\n");
            assert("\n"@ =~= newline());
        }
        done.push(block);
        assert(views(done@) =~= before.push(block@));
    }
    done
}

/// Runs one section over the lines; `None` where the section is not
/// usable.
pub fn collect_section(section: &Section, lines: &[&str]) -> (out: Option<SectionData>)
    ensures
        match out {
            Some(data) => section_usable(*section) && data@ == collected(
                *section,
                str_views(lines@),
            ),
            None => !section_usable(*section),
        },
{
    if section.collect_as.is_none() {
        return None;
    }
    let enter = match compile_optional(&section.enter) {
        Ok(c) => c,
        Err(_) => {
            return None;
        },
    };
    let exit = match compile_optional(&section.exit) {
        Ok(c) => c,
        Err(_) => {
            return None;
        },
    };
    let wanted = match compile_optional(&section.match_pattern) {
        Ok(c) => c,
        Err(_) => {
            return None;
        },
    };
    let split_on = match compile_optional(&section.split_on) {
        Ok(c) => c,
        Err(_) => {
            return None;
        },
    };
    let ghost all = str_views(lines@);
    let mut state = if section.enter.is_none() && section.exit.is_none() {
        SectionState::AlwaysActive
    } else {
        SectionState::Inactive
    };
    let mut taken: Vec<String> = Vec::new();
    let mut i: usize = 0;
    assert(all.take(0) =~= Seq::<Seq<char>>::empty());
    assert(views(taken@) =~= Seq::<Seq<char>>::empty());
    while i < lines.len()
        invariant
            i <= lines.len(),
            all == str_views(lines@),
            compiled_from(enter, section.enter),
            compiled_from(exit, section.exit),
            compiled_from(wanted, section.match_pattern),
            section_run(*section, all.take(i as int)) == (state, views(taken@)),
        decreases lines.len() - i,
    {
        assert(all.take(i as int + 1).drop_last() =~= all.take(i as int));
        assert(all.take(i as int + 1).last() == lines@[i as int]@);
        let line = lines[i];
        let mut take = false;
        match state {
            SectionState::AlwaysActive => {
                take = wanted.is_none() || optional_matches(&wanted, line);
            },
            SectionState::Inactive => {
                if optional_matches(&enter, line) {
                    state = SectionState::Active;
                }
            },
            SectionState::Active => {
                if optional_matches(&exit, line) {
                    state = SectionState::Inactive;
                } else {
                    take = wanted.is_none() || optional_matches(&wanted, line);
                }
            },
        }
        if take {
            let ghost before = views(taken@);
            taken.push(line.to_owned());
            assert(views(taken@) =~= before.push(line@));
        }
        i += 1;
    }
    assert(all.take(lines.len() as int) =~= all);
    let blocks = match &split_on {
        Some(p) => split_blocks(p, &taken),
        None => Vec::new(),
    };
    assert(split_on is None ==> views(blocks@) =~= Seq::<Seq<char>>::empty());
    Some(SectionData { lines: taken, blocks })
}

/// Collects every section from the raw lines of the output.
pub fn collect_sections(sections: &[Section], lines: &[&str]) -> (out: SectionMap)
    ensures
        out@ == collected_sections(sections@, str_views(lines@)),
{
    let mut out: SectionMap = Table::new();
    let mut k: usize = 0;
    assert(sections@.take(0) =~= Seq::<Section>::empty());
    while k < sections.len()
        invariant
            k <= sections.len(),
            out@ == collected_sections(sections@.take(k as int), str_views(lines@)),
        decreases sections.len() - k,
    {
        assert(sections@.take(k as int + 1).drop_last() =~= sections@.take(k as int));
        match collect_section(&sections[k], lines) {
            Some(data) => {
                match &sections[k].collect_as {
                    Some(name) => {
                        out.insert(name.clone(), data);
                    },
                    None => {},
                }
            },
            None => {},
        }
        k += 1;
    }
    assert(sections@.take(sections.len() as int) =~= sections@);
    out
}

/// Tells whether some section holds a line or a block.
pub fn any_section_collected(sections: &SectionMap) -> (out: bool)
    ensures
        out == any_collected(sections@),
{
    let values = sections.values();
    let mut i: usize = 0;
    while i < values.len()
        invariant
            i <= values.len(),
            forall|j: int|
                0 <= j < values.len() ==> sections@.contains_value((#[trigger] values@[j])@),
            forall|j: int|
                0 <= j < i ==> (#[trigger] values@[j])@.lines.len() == 0
                    && values@[j]@.blocks.len() == 0,
        decreases values.len() - i,
    {
        if values[i].lines.len() > 0 || values[i].blocks.len() > 0 {
            proof {
                assert(sections@.contains_value(values@[i as int]@));
                let name = choose|name: Seq<char>| #[trigger]
                    sections@.dom().contains(name) && sections@[name] == values@[i as int]@;
                assert(sections@.dom().contains(name));
            }
            return true;
        }
        i += 1;
    }
    proof {
        if any_collected(sections@) {
            let name = choose|name: Seq<char>| #[trigger]
                sections@.dom().contains(name) && (sections@[name].lines.len() > 0
                    || sections@[name].blocks.len() > 0);
            assert(crate::table::lists_value(values@, sections@[name]));
        }
    }
    false
}

} // verus!
