//! Rendering templates.
//!
//! A template is text with expressions in braces. An expression names a
//! variable (`{name}`) or a part of a section (`{name.count}`,
//! `{name.lines}`, `{name.blocks}`), and may send the value through pipes:
//! `{output | lines | keep: "^error" | join: "\n"}`. A value is a string or
//! a list of strings. A pipe that does not fit the value it gets, or that
//! is not known, hands the value on unchanged.

use crate::filter::section::{SectionData, SectionMap, SectionView};
use crate::pattern::{regex_is_match, regex_valid, Pattern};
use crate::table::Table;
use crate::text::{
    chars_of, chars_spell, copy_range, decimal, decimal_string, join, join_strings, lines, newline, split_lines, string_of, trim, trim_chars, views,
};
use vstd::prelude::*;

verus! {

/// The variables of one rendering, by name.
pub type TemplateContext = Table<String>;

/// A value on its way through the pipes of an expression.
#[derive(Debug, Clone, PartialEq, Eq)]
pub enum Value {
    Str(String),
    List(Vec<String>),
}

/// A value as plain text.
pub ghost enum ValueView {
    Str(Seq<char>),
    List(Seq<Seq<char>>),
}

impl View for Value {
    type V = ValueView;

    open spec fn view(&self) -> ValueView {
        match self {
            Value::Str(s) => ValueView::Str(s@),
            Value::List(l) => ValueView::List(views(l@)),
        }
    }
}

/// Where a reader stands with respect to double quotes.
#[derive(Debug, Clone, Copy, PartialEq, Eq, Structural)]
pub enum QuoteState {
    /// Outside a quoted string.
    Plain,
    /// Inside a quoted string.
    Quoted,
    /// Inside a quoted string, directly behind a backslash.
    Escaped,
}

/// The state after one more character.
pub open spec fn quote_step(state: QuoteState, c: char) -> QuoteState {
    match state {
        QuoteState::Plain => if c == '"' {
            QuoteState::Quoted
        } else {
            QuoteState::Plain
        },
        QuoteState::Quoted => if c == '"' {
            QuoteState::Plain
        } else if c == '\\' {
            QuoteState::Escaped
        } else {
            QuoteState::Quoted
        },
        QuoteState::Escaped => QuoteState::Quoted,
    }
}

/// The state after all of `s` has been read, starting outside quotes.
pub open spec fn quote_state(s: Seq<char>) -> QuoteState
    decreases s.len(),
{
    if s.len() == 0 {
        QuoteState::Plain
    } else {
        quote_step(quote_state(s.drop_last()), s.last())
    }
}

fn step_quote(state: QuoteState, c: char) -> (out: QuoteState)
    ensures
        out == quote_step(state, c),
{
    match state {
        QuoteState::Plain => if c == '"' {
            QuoteState::Quoted
        } else {
            QuoteState::Plain
        },
        QuoteState::Quoted => if c == '"' {
            QuoteState::Plain
        } else if c == '\\' {
            QuoteState::Escaped
        } else {
            QuoteState::Quoted
        },
        QuoteState::Escaped => QuoteState::Quoted,
    }
}

/// Whether the expression that starts at `from` can end at `j`: a closing
/// brace stands there, outside quotes.
pub open spec fn closes_at(t: Seq<char>, from: int, j: int) -> bool {
    &&& 0 <= from <= j < t.len()
    &&& t[j] == '}'
    &&& quote_state(t.subrange(from, j)) == QuoteState::Plain
}

/// The first index from `j` on at which the expression that starts at
/// `from` can end.
pub open spec fn first_close(t: Seq<char>, from: int, j: int) -> Option<int>
    decreases t.len() - j,
{
    if j < from || j >= t.len() {
        None
    } else if closes_at(t, from, j) {
        Some(j)
    } else {
        first_close(t, from, j + 1)
    }
}

/// The index of the brace that closes the expression that starts at `from`.
pub open spec fn closing_brace(t: Seq<char>, from: int) -> Option<int> {
    first_close(t, from, from)
}

/// Finds the brace that closes the expression that starts at `from`.
pub fn find_closing_brace(t: &Vec<char>, from: usize) -> (out: Option<usize>)
    ensures
        match out {
            Some(j) => from <= j < t.len() && closing_brace(t@, from as int) == Some(j as int),
            None => closing_brace(t@, from as int) is None,
        },
{
    if from >= t.len() {
        return None;
    }
    let mut state = QuoteState::Plain;
    let mut j: usize = from;
    assert(t@.subrange(from as int, from as int) =~= Seq::<char>::empty());
    while j < t.len()
        invariant
            from <= j <= t.len(),
            state == quote_state(t@.subrange(from as int, j as int)),
            closing_brace(t@, from as int) == first_close(t@, from as int, j as int),
        decreases t.len() - j,
    {
        let c = t[j];
        let at_close = match state {
            QuoteState::Plain => c == '}',
            _ => false,
        };
        if at_close {
            return Some(j);
        }
        assert(t@.subrange(from as int, j as int + 1).drop_last() =~= t@.subrange(
            from as int,
            j as int,
        ));
        state = step_quote(state, c);
        j += 1;
    }
    None
}

/// Reads an expression from left to right: the segments that a pipe sign
/// outside quotes has ended so far, and the segment that is open.
pub open spec fn scan_pipes(e: Seq<char>) -> (Seq<Seq<char>>, Seq<char>)
    decreases e.len(),
{
    if e.len() == 0 {
        (Seq::empty(), Seq::empty())
    } else {
        let (done, open) = scan_pipes(e.drop_last());
        if e.last() == '|' && quote_state(e.drop_last()) == QuoteState::Plain {
            (done.push(open), Seq::empty())
        } else {
            (done, open.push(e.last()))
        }
    }
}

/// The segments of an expression, cut at the pipe signs outside quotes.
/// There is always at least one.
pub open spec fn split_pipes(e: Seq<char>) -> Seq<Seq<char>> {
    let (done, open) = scan_pipes(e);
    done.push(open)
}

/// The views of a list of character lists.
pub open spec fn char_views(v: Seq<Vec<char>>) -> Seq<Seq<char>> {
    v.map_values(|chars: Vec<char>| chars@)
}

/// Cuts an expression into its segments.
pub fn cut_at_pipes(e: &Vec<char>) -> (out: Vec<Vec<char>>)
    ensures
        char_views(out@) == split_pipes(e@),
        out.len() > 0,
{
    let mut done: Vec<Vec<char>> = Vec::new();
    let mut open: Vec<char> = Vec::new();
    let mut state = QuoteState::Plain;
    let mut j: usize = 0;
    assert(e@.take(0) =~= Seq::<char>::empty());
    assert(char_views(done@) =~= Seq::<Seq<char>>::empty());
    while j < e.len()
        invariant
            j <= e.len(),
            state == quote_state(e@.take(j as int)),
            scan_pipes(e@.take(j as int)) == (char_views(done@), open@),
        decreases e.len() - j,
    {
        let c = e[j];
        assert(e@.take(j as int + 1).drop_last() =~= e@.take(j as int));
        let outside = match state {
            QuoteState::Plain => true,
            _ => false,
        };
        if c == '|' && outside {
            let ghost before = char_views(done@);
            done.push(open);
            assert(char_views(done@) =~= before.push(open@));
            open = Vec::new();
        } else {
            open.push(c);
        }
        state = step_quote(state, c);
        j += 1;
    }
    assert(e@.take(e.len() as int) =~= e@);
    let ghost before = char_views(done@);
    done.push(open);
    assert(char_views(done@) =~= before.push(open@));
    done
}

/// The index of the first `c` in `s`, or the length of `s` where there is
/// none.
pub open spec fn first_index_of(s: Seq<char>, c: char) -> int
    decreases s.len(),
{
    if s.len() == 0 || s[0] == c {
        0
    } else {
        1 + first_index_of(s.drop_first(), c)
    }
}

/// Finds the first `c` in `s`.
pub fn index_of_char(s: &Vec<char>, c: char) -> (out: usize)
    ensures
        out == first_index_of(s@, c),
        out <= s.len(),
        out < s.len() ==> s@[out as int] == c,
{
    let mut i: usize = 0;
    assert(s@.subrange(0, s.len() as int) =~= s@);
    while i < s.len() && s[i] != c
        invariant
            i <= s.len(),
            first_index_of(s@, c) == i + first_index_of(s@.subrange(i as int, s.len() as int), c),
        decreases s.len() - i,
    {
        assert(s@.subrange(i as int, s.len() as int).drop_first() =~= s@.subrange(
            i as int + 1,
            s.len() as int,
        ));
        i += 1;
    }
    i
}

/// What an escaped character stands for: `n` for a newline, `t` for a tab,
/// any other character for itself.
pub open spec fn unescape_char(c: char) -> char {
    if c == 'n' {
        '\n'
    } else if c == 't' {
        '\t'
    } else {
        c
    }
}

/// `s` with each backslash and the character behind it replaced by what
/// that character stands for.
pub open spec fn unescaped(s: Seq<char>) -> Seq<char>
    decreases s.len(),
{
    if s.len() == 0 {
        s
    } else if s[0] == '\\' && s.len() >= 2 {
        seq![unescape_char(s[1])] + unescaped(s.subrange(2, s.len() as int))
    } else {
        seq![s[0]] + unescaped(s.drop_first())
    }
}

/// The text of a quoted string: what stands between the double quotes at
/// both ends of `s`, unescaped. `None` where `s` is no quoted string.
pub open spec fn quoted_text(s: Seq<char>) -> Option<Seq<char>> {
    if s.len() >= 2 && s[0] == '"' && s.last() == '"' {
        Some(unescaped(s.subrange(1, s.len() - 1)))
    } else {
        None
    }
}

/// The name of a pipe: what stands before the first colon of the segment,
/// trimmed.
pub open spec fn pipe_name(segment: Seq<char>) -> Seq<char> {
    trim(segment.take(first_index_of(segment, ':')))
}

/// The argument of a pipe: the quoted string behind the first colon of the
/// segment, if one stands there.
pub open spec fn pipe_arg(segment: Seq<char>) -> Option<Seq<char>> {
    let colon = first_index_of(segment, ':');
    if colon < segment.len() {
        quoted_text(trim(segment.skip(colon + 1)))
    } else {
        None
    }
}

/// Reads a quoted string.
pub fn read_quoted(s: &Vec<char>) -> (out: Option<Vec<char>>)
    ensures
        match out {
            Some(text) => quoted_text(s@) == Some(text@),
            None => quoted_text(s@) is None,
        },
{
    let n = s.len();
    if n < 2 || s[0] != '"' || s[n - 1] != '"' {
        return None;
    }
    let end = n - 1;
    let ghost inner = s@.subrange(1, end as int);
    let mut out: Vec<char> = Vec::new();
    let mut i: usize = 1;
    assert(inner.subrange(0, inner.len() as int) =~= inner);
    while i < end
        invariant
            1 <= i <= end == n - 1,
            n == s.len(),
            inner == s@.subrange(1, end as int),
            out@ + unescaped(inner.subrange(i - 1, inner.len() as int)) == unescaped(inner),
        decreases end - i,
    {
        let ghost rest = inner.subrange(i - 1, inner.len() as int);
        let ghost before = out@;
        assert(rest[0] == s@[i as int]);
        if s[i] == '\\' && i + 1 < end {
            assert(rest[1] == s@[i as int + 1]);
            let c = s[i + 1];
            out.push(if c == 'n' {
                '\n'
            } else if c == 't' {
                '\t'
            } else {
                c
            });
            assert(rest.subrange(2, rest.len() as int) =~= inner.subrange(
                i + 1,
                inner.len() as int,
            ));
            assert(out@ + unescaped(rest.subrange(2, rest.len() as int)) =~= before + (seq![
                unescape_char(rest[1]),
            ] + unescaped(rest.subrange(2, rest.len() as int))));
            i += 2;
        } else {
            out.push(s[i]);
            assert(rest.drop_first() =~= inner.subrange(i as int, inner.len() as int));
            assert(out@ + unescaped(rest.drop_first()) =~= before + (seq![rest[0]] + unescaped(
                rest.drop_first(),
            )));
            i += 1;
        }
    }
    assert(inner.subrange(inner.len() as int, inner.len() as int) =~= Seq::<char>::empty());
    assert(out@ + Seq::<char>::empty() =~= out@);
    Some(out)
}

/// The test that the `keep` pipe applies.
pub open spec fn matching(pattern: Seq<char>) -> spec_fn(Seq<char>) -> bool {
    |item: Seq<char>| regex_is_match(pattern, item)
}

/// The `lines` pipe: a string becomes the list of its lines.
pub open spec fn lines_applied(value: ValueView) -> ValueView {
    match value {
        ValueView::Str(s) => ValueView::List(split_lines(s)),
        ValueView::List(_) => value,
    }
}

/// The `keep` pipe, also called `where`: a list keeps the items that the
/// pattern matches. With a pattern that does not compile, and for a
/// string, the value stays.
pub open spec fn keep_applied(value: ValueView, pattern: Seq<char>) -> ValueView {
    match value {
        ValueView::List(items) => if regex_valid(pattern) {
            ValueView::List(items.filter(matching(pattern)))
        } else {
            value
        },
        ValueView::Str(_) => value,
    }
}

/// The `join` pipe: a list becomes a string, with the separator between
/// the items. A string stays.
pub open spec fn join_applied(value: ValueView, sep: Seq<char>) -> ValueView {
    match value {
        ValueView::List(items) => ValueView::Str(join(items, sep)),
        ValueView::Str(_) => value,
    }
}

/// One pipe of an expression, as its segment spells it.
#[derive(Debug, Clone, PartialEq, Eq)]
pub enum Pipe {
    /// `lines`: split a string into its lines.
    Lines,
    /// `keep` or `where`, with a pattern: keep the items that it matches.
    Keep(String),
    /// `join`, with a separator: join the items.
    Join(String),
    /// Anything else: hand the value on.
    Pass,
}

/// A pipe as plain text.
pub ghost enum PipeView {
    Lines,
    Keep(Seq<char>),
    Join(Seq<char>),
    Pass,
}

impl View for Pipe {
    type V = PipeView;

    open spec fn view(&self) -> PipeView {
        match self {
            Pipe::Lines => PipeView::Lines,
            Pipe::Keep(p) => PipeView::Keep(p@),
            Pipe::Join(sep) => PipeView::Join(sep@),
            Pipe::Pass => PipeView::Pass,
        }
    }
}

/// The pipe that a segment spells. A `keep`, `where` or `join` without an
/// argument, and any name that is not known, is a pipe that hands the
/// value on.
pub open spec fn parsed_pipe(segment: Seq<char>) -> PipeView {
    let name = pipe_name(segment);
    let arg = pipe_arg(segment);
    if name == "lines"@ {
        PipeView::Lines
    } else if name == "keep"@ || name == "where"@ {
        match arg {
            Some(p) => PipeView::Keep(p),
            None => PipeView::Pass,
        }
    } else if name == "join"@ {
        match arg {
            Some(sep) => PipeView::Join(sep),
            None => PipeView::Pass,
        }
    } else {
        PipeView::Pass
    }
}

/// One pipe applied to a value.
pub open spec fn pipe_applied(value: ValueView, pipe: PipeView) -> ValueView {
    match pipe {
        PipeView::Lines => lines_applied(value),
        PipeView::Keep(p) => keep_applied(value, p),
        PipeView::Join(sep) => join_applied(value, sep),
        PipeView::Pass => value,
    }
}

/// The pipes that the segments spell, applied to a value from left to
/// right.
pub open spec fn pipes_applied(value: ValueView, segments: Seq<Seq<char>>) -> ValueView
    decreases segments.len(),
{
    if segments.len() == 0 {
        value
    } else {
        pipe_applied(pipes_applied(value, segments.drop_last()), parsed_pipe(segments.last()))
    }
}

/// A part of a section: `count` is the number of its blocks, or of its
/// lines where it has no blocks; `lines` and `blocks` are lists; anything
/// else is empty.
pub open spec fn accessed(section: SectionView, accessor: Seq<char>) -> ValueView {
    if accessor == "count"@ {
        ValueView::Str(
            decimal(
                if section.blocks.len() > 0 {
                    section.blocks.len()
                } else {
                    section.lines.len()
                },
            ),
        )
    } else if accessor == "lines"@ {
        ValueView::List(section.lines)
    } else if accessor == "blocks"@ {
        ValueView::List(section.blocks)
    } else {
        ValueView::Str(Seq::empty())
    }
}

/// What a name stands for. A name with a dot whose first part names a
/// section is a part of that section. Any other name is a variable, which
/// is empty where it is not bound.
pub open spec fn resolved(
    name: Seq<char>,
    vars: Map<Seq<char>, Seq<char>>,
    sections: Map<Seq<char>, SectionView>,
) -> ValueView {
    let dot = first_index_of(name, '.');
    if dot < name.len() && sections.dom().contains(name.take(dot)) {
        accessed(sections[name.take(dot)], name.skip(dot + 1))
    } else if vars.dom().contains(name) {
        ValueView::Str(vars[name])
    } else {
        ValueView::Str(Seq::empty())
    }
}

/// A value as the text that replaces the expression: a list is joined by
/// newlines.
pub open spec fn value_text(value: ValueView) -> Seq<char> {
    match value {
        ValueView::Str(s) => s,
        ValueView::List(items) => join(items, newline()),
    }
}

/// The text that an expression stands for.
pub open spec fn evaluated(
    expr: Seq<char>,
    vars: Map<Seq<char>, Seq<char>>,
    sections: Map<Seq<char>, SectionView>,
) -> Seq<char> {
    let segments = split_pipes(expr);
    value_text(
        pipes_applied(resolved(trim(segments[0]), vars, sections), segments.drop_first()),
    )
}

/// The rendering of `t` from index `i` on. An opening brace starts an
/// expression that ends at the first closing brace outside quotes; an
/// opening brace without such a closing brace stands for itself.
pub open spec fn rendered_from(
    t: Seq<char>,
    i: int,
    vars: Map<Seq<char>, Seq<char>>,
    sections: Map<Seq<char>, SectionView>,
) -> Seq<char>
    decreases t.len() - i,
{
    if i < 0 || i >= t.len() {
        Seq::empty()
    } else if t[i] != '{' {
        seq![t[i]] + rendered_from(t, i + 1, vars, sections)
    } else {
        match closing_brace(t, i + 1) {
            Some(j) => if i < j < t.len() {
                evaluated(t.subrange(i + 1, j), vars, sections) + rendered_from(
                    t,
                    j + 1,
                    vars,
                    sections,
                )
            } else {
                Seq::empty()
            },
            None => seq!['{'] + rendered_from(t, i + 1, vars, sections),
        }
    }
}

/// The rendering of a template.
pub open spec fn rendered(
    template: Seq<char>,
    vars: Map<Seq<char>, Seq<char>>,
    sections: Map<Seq<char>, SectionView>,
) -> Seq<char> {
    rendered_from(template, 0, vars, sections)
}

/// Copies a list of strings.
pub fn clone_strings(v: &Vec<String>) -> (out: Vec<String>)
    ensures
        views(out@) == views(v@),
{
    let mut out: Vec<String> = Vec::new();
    let mut i: usize = 0;
    while i < v.len()
        invariant
            i <= v.len(),
            out.len() == i,
            forall|j: int| 0 <= j < i ==> (#[trigger] out@[j])@ == v@[j]@,
        decreases v.len() - i,
    {
        out.push(v[i].clone());
        i += 1;
    }
    assert(views(out@) =~= views(v@));
    out
}

/// Keeps the items that `pattern` matches.
fn keep_matching(items: &Vec<String>, pattern: &Pattern) -> (out: Vec<String>)
    ensures
        views(out@) == views(items@).filter(matching(pattern.source())),
{
    let ghost all = views(items@);
    let ghost pred = matching(pattern.source());
    let mut out: Vec<String> = Vec::new();
    let mut i: usize = 0;
    proof {
        reveal(Seq::filter);
        assert(all.take(0) =~= Seq::<Seq<char>>::empty());
        assert(views(out@) =~= Seq::<Seq<char>>::empty());
    }
    while i < items.len()
        invariant
            i <= items.len(),
            all == views(items@),
            pred == matching(pattern.source()),
            views(out@) == all.take(i as int).filter(pred),
        decreases items.len() - i,
    {
        proof {
            reveal(Seq::filter);
            assert(all.take(i as int + 1).drop_last() =~= all.take(i as int));
            assert(all.take(i as int + 1).last() == items@[i as int]@);
        }
        if pattern.is_match(items[i].as_str()) {
            let ghost before = views(out@);
            out.push(items[i].clone());
            assert(views(out@) =~= before.push(items@[i as int]@));
        }
        i += 1;
    }
    assert(all.take(items.len() as int) =~= all);
    out
}

/// Reads the pipe that a segment spells.
pub fn parse_pipe(segment: &Vec<char>) -> (out: Pipe)
    ensures
        out@ == parsed_pipe(segment@),
{
    let colon = index_of_char(segment, ':');
    let name = trim_chars(&copy_range(segment, 0, colon));
    assert(segment@.subrange(0, colon as int) =~= segment@.take(colon as int));
    let arg: Option<Vec<char>> = if colon < segment.len() {
        let rest = trim_chars(&copy_range(segment, colon + 1, segment.len()));
        assert(segment@.subrange(colon as int + 1, segment.len() as int) =~= segment@.skip(
            colon as int + 1,
        ));
        read_quoted(&rest)
    } else {
        None
    };
    if chars_spell(&name, "lines") {
        Pipe::Lines
    } else if chars_spell(&name, "keep") || chars_spell(&name, "where") {
        match arg {
            Some(p) => Pipe::Keep(string_of(&p)),
            None => Pipe::Pass,
        }
    } else if chars_spell(&name, "join") {
        match arg {
            Some(sep) => Pipe::Join(string_of(&sep)),
            None => Pipe::Pass,
        }
    } else {
        Pipe::Pass
    }
}

/// Applies one pipe to a value.
pub fn apply_pipe(value: Value, pipe: &Pipe) -> (out: Value)
    ensures
        out@ == pipe_applied(value@, pipe@),
{
    match pipe {
        Pipe::Lines => match value {
            Value::Str(s) => Value::List(lines(s.as_str())),
            Value::List(items) => Value::List(items),
        },
        Pipe::Keep(pattern) => match value {
            Value::List(items) => match Pattern::compile(pattern.as_str()) {
                Some(compiled) => Value::List(keep_matching(&items, &compiled)),
                None => Value::List(items),
            },
            Value::Str(s) => Value::Str(s),
        },
        Pipe::Join(sep) => match value {
            Value::List(items) => Value::Str(join_strings(items.as_slice(), sep.as_str())),
            Value::Str(s) => Value::Str(s),
        },
        Pipe::Pass => value,
    }
}

/// Reads a part of a section.
pub fn access(section: &SectionData, accessor: &Vec<char>) -> (out: Value)
    ensures
        out@ == accessed(section@, accessor@),
{
    if chars_spell(accessor, "count") {
        let n = if section.blocks.len() > 0 {
            section.blocks.len()
        } else {
            section.lines.len()
        };
        Value::Str(decimal_string(n))
    } else if chars_spell(accessor, "lines") {
        Value::List(clone_strings(&section.lines))
    } else if chars_spell(accessor, "blocks") {
        Value::List(clone_strings(&section.blocks))
    } else {
        Value::Str(String::new())
    }
}

/// Looks a name up.
pub fn resolve(name: &Vec<char>, vars: &TemplateContext, sections: &SectionMap) -> (out: Value)
    ensures
        out@ == resolved(name@, vars@, sections@),
{
    let dot = index_of_char(name, '.');
    if dot < name.len() {
        let section_name = string_of(&copy_range(name, 0, dot));
        assert(name@.subrange(0, dot as int) =~= name@.take(dot as int));
        match sections.get(section_name.as_str()) {
            Some(section) => {
                let accessor = copy_range(name, dot + 1, name.len());
                assert(name@.subrange(dot as int + 1, name.len() as int) =~= name@.skip(
                    dot as int + 1,
                ));
                return access(section, &accessor);
            },
            None => {},
        }
    }
    let var_name = string_of(name);
    match vars.get(var_name.as_str()) {
        Some(v) => Value::Str(v.clone()),
        None => Value::Str(String::new()),
    }
}

/// Evaluates one expression.
pub fn evaluate(expr: &Vec<char>, vars: &TemplateContext, sections: &SectionMap) -> (out: String)
    ensures
        out@ == evaluated(expr@, vars@, sections@),
{
    let segments = cut_at_pipes(expr);
    let ghost segs = split_pipes(expr@);
    let name = trim_chars(&segments[0]);
    assert(char_views(segments@)[0] == segments@[0]@);
    let mut value = resolve(&name, vars, sections);
    let ghost seed = value@;
    let mut k: usize = 1;
    assert(segs.drop_first().take(0) =~= Seq::<Seq<char>>::empty());
    while k < segments.len()
        invariant
            1 <= k <= segments.len(),
            segs == char_views(segments@),
            value@ == pipes_applied(seed, segs.drop_first().take(k - 1)),
        decreases segments.len() - k,
    {
        assert(segs.drop_first().take(k as int).drop_last() =~= segs.drop_first().take(k - 1));
        assert(segs.drop_first().take(k as int).last() == segments@[k as int]@);
        let pipe = parse_pipe(&segments[k]);
        value = apply_pipe(value, &pipe);
        k += 1;
    }
    assert(segs.drop_first().take(segments.len() - 1) =~= segs.drop_first());
    match value {
        Value::Str(s) => s,
        Value::List(items) => {
            proof {
                reveal_strlit("\n");
                assert("\n"@ =~= newline());
            }
            join_strings(items.as_slice(), "\n")
        },
    }
}

/// Renders a template: each expression in braces is replaced by what it
/// stands for in `vars` and `sections`.
pub fn render_template(template: &str, vars: &TemplateContext, sections: &SectionMap) -> (out:
    String)
    ensures
        out@ == rendered(template@, vars@, sections@),
{
    let t = chars_of(template);
    let mut out: Vec<char> = Vec::new();
    let mut i: usize = 0;
    while i < t.len()
        invariant
            i <= t.len(),
            t@ == template@,
            out@ + rendered_from(t@, i as int, vars@, sections@) == rendered(
                template@,
                vars@,
                sections@,
            ),
        decreases t.len() - i,
    {
        let ghost before = out@;
        let ghost rest = rendered_from(t@, i as int, vars@, sections@);
        if t[i] != '{' {
            out.push(t[i]);
            assert(out@ + rendered_from(t@, i as int + 1, vars@, sections@) =~= before + rest);
            i += 1;
        } else {
            match find_closing_brace(&t, i + 1) {
                Some(j) => {
                    let expr = copy_range(&t, i + 1, j);
                    let text = evaluate(&expr, vars, sections);
                    let text_chars = chars_of(text.as_str());
                    let mut k: usize = 0;
                    while k < text_chars.len()
                        invariant
                            k <= text_chars.len(),
                            out@ == before + text_chars@.take(k as int),
                        decreases text_chars.len() - k,
                    {
                        out.push(text_chars[k]);
                        k += 1;
                        assert(out@ =~= before + text_chars@.take(k as int));
                    }
                    assert(text_chars@.take(text_chars.len() as int) =~= text_chars@);
                    assert(out@ + rendered_from(t@, j as int + 1, vars@, sections@) =~= before
                        + rest);
                    i = j + 1;
                },
                None => {
                    out.push('{');
                    assert(out@ + rendered_from(t@, i as int + 1, vars@, sections@) =~= before
                        + rest);
                    i += 1;
                },
            }
        }
    }
    assert(out@ + Seq::<char>::empty() =~= out@);
    string_of(&out)
}

} // verus!
