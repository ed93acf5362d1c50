//! Text primitives over `Seq<char>`: lines, joining, trimming, searching,
//! replacing and decimal numbers.

use vstd::prelude::*;
use vstd::string::*;

verus! {

/// `String::push` of the standard library: appends one character to the
/// end of the string.
pub assume_specification[ String::push ](s: &mut String, ch: char)
    ensures
        final(s)@ == old(s)@.push(ch),
;

/// The characters of `s`, in order.
pub fn chars_of(s: &str) -> (out: Vec<char>)
    ensures
        out@ == s@,
{
    let mut out: Vec<char> = Vec::new();
    for c in it: s.chars()
        invariant
            out@ == it.seq().take(it.index() as int),
            it.seq() == s@,
    {
        out.push(c);
    }
    out
}

/// The string made of `chars[from..to]`.
pub(crate) fn string_of_range(chars: &Vec<char>, from: usize, to: usize) -> (out: String)
    requires
        from <= to <= chars.len(),
    ensures
        out@ == chars@.subrange(from as int, to as int),
{
    let mut out = String::new();
    let mut i: usize = from;
    while i < to
        invariant
            from <= i <= to <= chars.len(),
            out@ == chars@.subrange(from as int, i as int),
        decreases to - i,
    {
        out.push(chars[i]);
        i += 1;
        assert(chars@.subrange(from as int, i as int) =~= chars@.subrange(
            from as int,
            i as int - 1,
        ).push(chars@[i as int - 1]));
    }
    out
}

/// The string made of all of `chars`.
pub fn string_of(chars: &Vec<char>) -> (out: String)
    ensures
        out@ == chars@,
{
    let out = string_of_range(chars, 0, chars.len());
    assert(chars@.subrange(0, chars.len() as int) =~= chars@);
    out
}

/// The views of the elements of a list of strings.
pub open spec fn views(v: Seq<String>) -> Seq<Seq<char>> {
    v.map_values(|s: String| s@)
}

/// The views of the elements of a list of string slices.
pub open spec fn str_views(v: Seq<&str>) -> Seq<Seq<char>> {
    v.map_values(|s: &str| s@)
}

/// Borrows every string of `v`.
pub fn borrow_all<'a>(v: &'a [String]) -> (out: Vec<&'a str>)
    ensures
        str_views(out@) == views(v@),
{
    let mut out: Vec<&'a str> = Vec::new();
    let mut i: usize = 0;
    while i < v.len()
        invariant
            i <= v.len(),
            out.len() == i,
            forall|j: int| 0 <= j < i ==> (#[trigger] out@[j])@ == v@[j]@,
        decreases v.len() - i,
    {
        out.push(v[i].as_str());
        i += 1;
    }
    assert(str_views(out@) =~= views(v@));
    out
}

/// Copies a list of string slices.
pub fn copy_lines<'a>(v: &[&'a str]) -> (out: Vec<&'a str>)
    ensures
        str_views(out@) == str_views(v@),
{
    let mut out: Vec<&'a str> = Vec::new();
    let mut i: usize = 0;
    while i < v.len()
        invariant
            i <= v.len(),
            out.len() == i,
            forall|j: int| 0 <= j < i ==> (#[trigger] out@[j])@ == v@[j]@,
        decreases v.len() - i,
    {
        out.push(v[i]);
        i += 1;
    }
    assert(str_views(out@) =~= str_views(v@));
    out
}

/// Whether `c` has the Unicode property White_Space.
pub open spec fn is_whitespace(c: char) -> bool {
    let n = c as u32;
    ||| 0x09 <= n <= 0x0D
    ||| n == 0x20
    ||| n == 0x85
    ||| n == 0xA0
    ||| n == 0x1680
    ||| 0x2000 <= n <= 0x200A
    ||| n == 0x2028
    ||| n == 0x2029
    ||| n == 0x202F
    ||| n == 0x205F
    ||| n == 0x3000
}

pub fn char_is_whitespace(c: char) -> (out: bool)
    ensures
        out == is_whitespace(c),
{
    let n: u32 = c as u32;
    (0x09 <= n && n <= 0x0D) || n == 0x20 || n == 0x85 || n == 0xA0 || n == 0x1680 || (0x2000 <= n
        && n <= 0x200A) || n == 0x2028 || n == 0x2029 || n == 0x202F || n == 0x205F || n == 0x3000
}

/// `s` without its leading whitespace.
pub open spec fn trim_start(s: Seq<char>) -> Seq<char>
    decreases s.len(),
{
    if s.len() > 0 && is_whitespace(s[0]) {
        trim_start(s.drop_first())
    } else {
        s
    }
}

/// `s` without its trailing whitespace.
pub open spec fn trim_end(s: Seq<char>) -> Seq<char>
    decreases s.len(),
{
    if s.len() > 0 && is_whitespace(s.last()) {
        trim_end(s.drop_last())
    } else {
        s
    }
}

/// `s` without leading and trailing whitespace; whitespace inside stays.
pub open spec fn trim(s: Seq<char>) -> Seq<char> {
    trim_end(trim_start(s))
}

/// Whether `s` is empty or holds whitespace only.
pub open spec fn is_blank(s: Seq<char>) -> bool {
    forall|i: int| 0 <= i < s.len() ==> is_whitespace(#[trigger] s[i])
}

/// The index of the first character of `chars` that is not whitespace.
fn skip_leading_whitespace(chars: &Vec<char>) -> (i: usize)
    ensures
        i <= chars.len(),
        trim_start(chars@) == chars@.subrange(i as int, chars.len() as int),
        forall|j: int| 0 <= j < i ==> is_whitespace(#[trigger] chars@[j]),
        i < chars.len() ==> !is_whitespace(chars@[i as int]),
{
    let n = chars.len();
    let mut i: usize = 0;
    assert(chars@.subrange(0, n as int) =~= chars@);
    while i < n && char_is_whitespace(chars[i])
        invariant
            i <= n == chars.len(),
            trim_start(chars@) == trim_start(chars@.subrange(i as int, n as int)),
            forall|j: int| 0 <= j < i ==> is_whitespace(#[trigger] chars@[j]),
        decreases n - i,
    {
        assert(chars@.subrange(i as int, n as int).drop_first() =~= chars@.subrange(
            i as int + 1,
            n as int,
        ));
        i += 1;
    }
    i
}

/// The end of the part of `chars[from..]` that is left when trailing
/// whitespace is cut.
fn skip_trailing_whitespace(chars: &Vec<char>, from: usize) -> (j: usize)
    requires
        from <= chars.len(),
    ensures
        from <= j <= chars.len(),
        trim_end(chars@.subrange(from as int, chars.len() as int)) == chars@.subrange(
            from as int,
            j as int,
        ),
{
    let mut j: usize = chars.len();
    while j > from && char_is_whitespace(chars[j - 1])
        invariant
            from <= j <= chars.len(),
            trim_end(chars@.subrange(from as int, chars.len() as int)) == trim_end(
                chars@.subrange(from as int, j as int),
            ),
        decreases j,
    {
        assert(chars@.subrange(from as int, j as int).drop_last() =~= chars@.subrange(
            from as int,
            j as int - 1,
        ));
        j -= 1;
    }
    j
}

/// `chars` without leading and trailing whitespace.
pub fn trim_chars(chars: &Vec<char>) -> (out: Vec<char>)
    ensures
        out@ == trim(chars@),
{
    let i = skip_leading_whitespace(chars);
    let j = skip_trailing_whitespace(chars, i);
    copy_range(chars, i, j)
}

/// The characters `chars[from..to]`.
pub(crate) fn copy_range(chars: &Vec<char>, from: usize, to: usize) -> (out: Vec<char>)
    requires
        from <= to <= chars.len(),
    ensures
        out@ == chars@.subrange(from as int, to as int),
{
    let mut out: Vec<char> = Vec::new();
    let mut i: usize = from;
    while i < to
        invariant
            from <= i <= to <= chars.len(),
            out@ == chars@.subrange(from as int, i as int),
        decreases to - i,
    {
        out.push(chars[i]);
        i += 1;
        assert(chars@.subrange(from as int, i as int) =~= chars@.subrange(
            from as int,
            i as int - 1,
        ).push(chars@[i as int - 1]));
    }
    out
}

/// Tells whether `chars` spells `word`.
pub fn chars_spell(chars: &Vec<char>, word: &str) -> (out: bool)
    ensures
        out == (chars@ == word@),
{
    let other = chars_of(word);
    if chars.len() != other.len() {
        return false;
    }
    let mut i: usize = 0;
    while i < chars.len()
        invariant
            i <= chars.len() == other.len(),
            other@ == word@,
            forall|j: int| 0 <= j < i ==> chars@[j] == other@[j],
        decreases chars.len() - i,
    {
        if chars[i] != other[i] {
            assert(chars@[i as int] != other@[i as int]);
            return false;
        }
        i += 1;
    }
    assert(chars@ =~= other@);
    true
}

/// Cuts leading and trailing whitespace off `s`.
pub fn trim_str(s: &str) -> (out: String)
    ensures
        out@ == trim(s@),
{
    let chars = chars_of(s);
    let i = skip_leading_whitespace(&chars);
    let j = skip_trailing_whitespace(&chars, i);
    string_of_range(&chars, i, j)
}

/// Cuts leading whitespace off `s`.
pub fn trim_start_str(s: &str) -> (out: String)
    ensures
        out@ == trim_start(s@),
{
    let chars = chars_of(s);
    let i = skip_leading_whitespace(&chars);
    string_of_range(&chars, i, chars.len())
}

/// Cuts trailing whitespace off `s`.
pub fn trim_end_str(s: &str) -> (out: String)
    ensures
        out@ == trim_end(s@),
{
    let chars = chars_of(s);
    let j = skip_trailing_whitespace(&chars, 0);
    assert(chars@.subrange(0, chars.len() as int) =~= chars@);
    string_of_range(&chars, 0, j)
}

/// Tells whether `s` holds nothing but whitespace.
pub fn is_blank_str(s: &str) -> (out: bool)
    ensures
        out == is_blank(s@),
{
    let chars = chars_of(s);
    let i = skip_leading_whitespace(&chars);
    i == chars.len()
}

/// `line` without one trailing carriage return, if it has one.
pub open spec fn strip_cr(line: Seq<char>) -> Seq<char> {
    if line.len() > 0 && line.last() == '\r' {
        line.drop_last()
    } else {
        line
    }
}

/// Reads `s` from left to right: the lines that a newline has ended so far,
/// and the text after the last newline.
pub open spec fn scan_lines(s: Seq<char>) -> (Seq<Seq<char>>, Seq<char>)
    decreases s.len(),
{
    if s.len() == 0 {
        (Seq::empty(), Seq::empty())
    } else {
        let (done, cur) = scan_lines(s.drop_last());
        if s.last() == '\n' {
            (done.push(strip_cr(cur)), Seq::empty())
        } else {
            (done, cur.push(s.last()))
        }
    }
}

/// The lines of `s`. A line ends at a newline, or at a carriage return
/// directly followed by a newline; the line ending is not part of the line.
/// Text after the last newline is a line of its own unless it is empty.
pub open spec fn split_lines(s: Seq<char>) -> Seq<Seq<char>> {
    let (done, cur) = scan_lines(s);
    if cur.len() > 0 {
        done.push(cur)
    } else {
        done
    }
}

/// The parts of `parts` in order, with `sep` between each two neighbours.
pub open spec fn join(parts: Seq<Seq<char>>, sep: Seq<char>) -> Seq<char>
    decreases parts.len(),
{
    if parts.len() == 0 {
        Seq::empty()
    } else if parts.len() == 1 {
        parts[0]
    } else {
        join(parts.drop_last(), sep) + sep + parts.last()
    }
}

/// A single newline.
pub open spec fn newline() -> Seq<char> {
    seq!['\n']
}

/// Splits `s` into its lines.
pub fn lines(s: &str) -> (out: Vec<String>)
    ensures
        views(out@) == split_lines(s@),
{
    let chars = chars_of(s);
    let n = chars.len();
    let mut out: Vec<String> = Vec::new();
    let mut start: usize = 0;
    let mut i: usize = 0;
    assert(chars@.take(0) =~= Seq::<char>::empty());
    assert(chars@.subrange(0, 0) =~= Seq::<char>::empty());
    assert(views(out@) =~= Seq::<Seq<char>>::empty());
    while i < n
        invariant
            start <= i <= n == chars.len(),
            scan_lines(chars@.take(i as int)) == (
                views(out@),
                chars@.subrange(start as int, i as int),
            ),
        decreases n - i,
    {
        assert(chars@.take(i as int + 1).drop_last() =~= chars@.take(i as int));
        if chars[i] == '\n' {
            let end = if i > start && chars[i - 1] == '\r' {
                i - 1
            } else {
                i
            };
            let ghost before = views(out@);
            let line = string_of_range(&chars, start, end);
            assert(line@ =~= strip_cr(chars@.subrange(start as int, i as int)));
            out.push(line);
            assert(views(out@) =~= before.push(line@));
            start = i + 1;
            assert(chars@.subrange(start as int, i as int + 1) =~= Seq::<char>::empty());
        } else {
            assert(chars@.subrange(start as int, i as int + 1) =~= chars@.subrange(
                start as int,
                i as int,
            ).push(chars@[i as int]));
        }
        i += 1;
    }
    assert(chars@.take(n as int) =~= chars@);
    if start < n {
        let ghost before = views(out@);
        let line = string_of_range(&chars, start, n);
        out.push(line);
        assert(views(out@) =~= before.push(line@));
    }
    out
}

/// Joins `parts` with `sep` between them.
pub fn join_strs(parts: &[&str], sep: &str) -> (out: String)
    ensures
        out@ == join(str_views(parts@), sep@),
{
    let mut out = String::new();
    let mut i: usize = 0;
    assert(str_views(parts@).take(0) =~= Seq::<Seq<char>>::empty());
    while i < parts.len()
        invariant
            i <= parts.len(),
            out@ == join(str_views(parts@).take(i as int), sep@),
        decreases parts.len() - i,
    {
        if i > 0 {
            out.append(sep);
        }
        out.append(parts[i]);
        assert(str_views(parts@).take(i as int + 1).drop_last() =~= str_views(parts@).take(
            i as int,
        ));
        i += 1;
    }
    assert(str_views(parts@).take(parts.len() as int) =~= str_views(parts@));
    out
}

/// Joins `parts` with a newline between them.
pub fn join_lines(parts: &[&str]) -> (out: String)
    ensures
        out@ == join(str_views(parts@), newline()),
{
    proof {
        reveal_strlit("\n");
        assert("\n"@ =~= newline());
    }
    join_strs(parts, "\n")
}

/// Joins `parts` with `sep` between them.
pub fn join_strings(parts: &[String], sep: &str) -> (out: String)
    ensures
        out@ == join(views(parts@), sep@),
{
    let borrowed = borrow_all(parts);
    join_strs(borrowed.as_slice(), sep)
}

/// Whether `needle` stands in `hay` at index `i`.
pub open spec fn occurs_at(hay: Seq<char>, needle: Seq<char>, i: int) -> bool {
    &&& 0 <= i
    &&& i + needle.len() <= hay.len()
    &&& hay.subrange(i, i + needle.len()) == needle
}

/// Whether `needle` stands somewhere in `hay`.
pub open spec fn contains(hay: Seq<char>, needle: Seq<char>) -> bool {
    exists|i: int| occurs_at(hay, needle, i)
}

/// Whether `s` ends with `c`.
pub open spec fn ends_with_char(s: Seq<char>, c: char) -> bool {
    s.len() > 0 && s.last() == c
}

/// Tells whether `needle` stands in `hay` at index `i`.
pub fn occurs_at_index(hay: &Vec<char>, needle: &Vec<char>, i: usize) -> (out: bool)
    ensures
        out == occurs_at(hay@, needle@, i as int),
{
    let m = needle.len();
    if i > hay.len() || m > hay.len() - i {
        return false;
    }
    let mut k: usize = 0;
    while k < m
        invariant
            k <= m == needle.len(),
            i + m <= hay.len(),
            forall|j: int| 0 <= j < k ==> hay@[i + j] == needle@[j],
        decreases m - k,
    {
        if hay[i + k] != needle[k] {
            assert(hay@.subrange(i as int, i + m)[k as int] != needle@[k as int]);
            return false;
        }
        k += 1;
    }
    assert(hay@.subrange(i as int, i + m) =~= needle@);
    true
}

/// The first index at or after `from` at which `needle` stands in `hay`.
pub fn find_from(hay: &Vec<char>, needle: &Vec<char>, from: usize) -> (out: Option<usize>)
    ensures
        match out {
            Some(i) => from <= i && occurs_at(hay@, needle@, i as int) && forall|j: int|
                from <= j < i ==> !occurs_at(hay@, needle@, j),
            None => forall|j: int| from <= j ==> !occurs_at(hay@, needle@, j),
        },
{
    let n = hay.len();
    let m = needle.len();
    if from > n || m > n - from {
        return None;
    }
    let last = n - m;
    let mut i: usize = from;
    loop
        invariant
            from <= i <= last,
            last == n - m,
            n == hay.len(),
            m == needle.len(),
            forall|j: int| from <= j < i ==> !occurs_at(hay@, needle@, j),
        decreases last - i,
    {
        if occurs_at_index(hay, needle, i) {
            return Some(i);
        }
        if i == last {
            return None;
        }
        i += 1;
    }
}

/// Tells whether `needle` stands somewhere in `hay`.
pub fn contains_str(hay: &str, needle: &str) -> (out: bool)
    ensures
        out == contains(hay@, needle@),
{
    let h = chars_of(hay);
    let n = chars_of(needle);
    find_from(&h, &n, 0).is_some()
}

/// Tells whether `s` ends with `c`.
pub fn ends_with(s: &str, c: char) -> (out: bool)
    ensures
        out == ends_with_char(s@, c),
{
    let chars = chars_of(s);
    chars.len() > 0 && chars[chars.len() - 1] == c
}

/// `s` with every occurrence of `from` replaced by `to`, found from left to
/// right without overlap. An empty `from` occurs before every character and
/// at the end.
pub open spec fn replace_all(s: Seq<char>, from: Seq<char>, to: Seq<char>) -> Seq<char>
    decreases s.len(),
{
    if from.len() == 0 {
        if s.len() == 0 {
            to
        } else {
            to + seq![s[0]] + replace_all(s.drop_first(), from, to)
        }
    } else if occurs_at(s, from, 0) {
        to + replace_all(s.subrange(from.len() as int, s.len() as int), from, to)
    } else if s.len() == 0 {
        s
    } else {
        seq![s[0]] + replace_all(s.drop_first(), from, to)
    }
}

/// Appends `chars` to `out`.
fn push_all(out: &mut Vec<char>, chars: &Vec<char>)
    ensures
        final(out)@ == old(out)@ + chars@,
{
    let mut k: usize = 0;
    while k < chars.len()
        invariant
            k <= chars.len(),
            out@ == old(out)@ + chars@.take(k as int),
        decreases chars.len() - k,
    {
        out.push(chars[k]);
        k += 1;
        assert(chars@.take(k as int) =~= chars@.take(k as int - 1).push(chars@[k as int - 1]));
        assert(out@ =~= old(out)@ + chars@.take(k as int));
    }
    assert(chars@.take(chars.len() as int) =~= chars@);
}

/// Replaces every occurrence of `from` in `s` by `to`.
pub fn replace_chars(s: &Vec<char>, from: &Vec<char>, to: &Vec<char>) -> (out: Vec<char>)
    ensures
        out@ == replace_all(s@, from@, to@),
{
    let n = s.len();
    let m = from.len();
    let mut out: Vec<char> = Vec::new();
    let mut i: usize = 0;
    assert(s@.subrange(0, n as int) =~= s@);
    while i < n
        invariant
            i <= n == s.len(),
            m == from.len(),
            out@ + replace_all(s@.subrange(i as int, n as int), from@, to@) == replace_all(
                s@,
                from@,
                to@,
            ),
        decreases n - i,
    {
        let ghost rest = s@.subrange(i as int, n as int);
        let ghost before = out@;
        if m == 0 {
            push_all(&mut out, to);
            out.push(s[i]);
            assert(rest.drop_first() =~= s@.subrange(i as int + 1, n as int));
            assert(out@ + replace_all(rest.drop_first(), from@, to@) =~= before + (to@ + seq![
                rest[0],
            ] + replace_all(rest.drop_first(), from@, to@)));
            i += 1;
        } else if occurs_at_index(s, from, i) {
            assert(rest.subrange(0, m as int) =~= s@.subrange(i as int, i + m));
            assert(occurs_at(rest, from@, 0));
            push_all(&mut out, to);
            assert(rest.subrange(m as int, rest.len() as int) =~= s@.subrange(i + m, n as int));
            assert(out@ + replace_all(s@.subrange(i + m, n as int), from@, to@) =~= before + (to@
                + replace_all(s@.subrange(i + m, n as int), from@, to@)));
            i += m;
        } else {
            assert(!occurs_at(rest, from@, 0)) by {
                if occurs_at(rest, from@, 0) {
                    assert(rest.subrange(0, m as int) =~= s@.subrange(i as int, i + m));
                }
            }
            out.push(s[i]);
            assert(rest.drop_first() =~= s@.subrange(i as int + 1, n as int));
            assert(out@ + replace_all(rest.drop_first(), from@, to@) =~= before + (seq![rest[0]]
                + replace_all(rest.drop_first(), from@, to@)));
            i += 1;
        }
    }
    assert(s@.subrange(n as int, n as int) =~= Seq::<char>::empty());
    if m == 0 {
        let ghost before = out@;
        push_all(&mut out, to);
        assert(out@ =~= before + to@);
    } else {
        assert(!occurs_at(Seq::<char>::empty(), from@, 0));
        assert(out@ + Seq::<char>::empty() =~= out@);
    }
    out
}

/// Replaces every occurrence of `from` in `s` by `to`.
pub fn replace_str(s: &str, from: &str, to: &str) -> (out: String)
    ensures
        out@ == replace_all(s@, from@, to@),
{
    let replaced = replace_chars(&chars_of(s), &chars_of(from), &chars_of(to));
    string_of(&replaced)
}

/// Reads `s` from left to right: the words that whitespace has ended so
/// far, and the word that is still open.
pub open spec fn scan_words(s: Seq<char>) -> (Seq<Seq<char>>, Seq<char>)
    decreases s.len(),
{
    if s.len() == 0 {
        (Seq::empty(), Seq::empty())
    } else {
        let (done, cur) = scan_words(s.drop_last());
        if !is_whitespace(s.last()) {
            (done, cur.push(s.last()))
        } else if cur.len() > 0 {
            (done.push(cur), Seq::empty())
        } else {
            (done, cur)
        }
    }
}

/// The words of `s`: its longest runs of characters that are not whitespace.
pub open spec fn split_whitespace(s: Seq<char>) -> Seq<Seq<char>> {
    let (done, cur) = scan_words(s);
    if cur.len() > 0 {
        done.push(cur)
    } else {
        done
    }
}

/// Splits `s` into its words.
pub fn words(s: &str) -> (out: Vec<String>)
    ensures
        views(out@) == split_whitespace(s@),
        forall|k: int| 0 <= k < out.len() ==> (#[trigger] out@[k])@.len() > 0,
{
    let chars = chars_of(s);
    let n = chars.len();
    let mut out: Vec<String> = Vec::new();
    let mut start: usize = 0;
    let mut i: usize = 0;
    assert(chars@.take(0) =~= Seq::<char>::empty());
    assert(chars@.subrange(0, 0) =~= Seq::<char>::empty());
    assert(views(out@) =~= Seq::<Seq<char>>::empty());
    while i < n
        invariant
            start <= i <= n == chars.len(),
            scan_words(chars@.take(i as int)) == (
                views(out@),
                chars@.subrange(start as int, i as int),
            ),
            forall|k: int| 0 <= k < out.len() ==> (#[trigger] out@[k])@.len() > 0,
        decreases n - i,
    {
        assert(chars@.take(i as int + 1).drop_last() =~= chars@.take(i as int));
        if !char_is_whitespace(chars[i]) {
            assert(chars@.subrange(start as int, i as int + 1) =~= chars@.subrange(
                start as int,
                i as int,
            ).push(chars@[i as int]));
        } else {
            if start < i {
                let ghost before = views(out@);
                let word = string_of_range(&chars, start, i);
                out.push(word);
                assert(views(out@) =~= before.push(word@));
            }
            start = i + 1;
            assert(chars@.subrange(start as int, i as int + 1) =~= Seq::<char>::empty());
            assert(chars@.subrange(i as int, i as int) =~= Seq::<char>::empty());
        }
        i += 1;
    }
    assert(chars@.take(n as int) =~= chars@);
    if start < n {
        let ghost before = views(out@);
        let word = string_of_range(&chars, start, n);
        out.push(word);
        assert(views(out@) =~= before.push(word@));
    }
    out
}

/// Tells whether two strings hold the same text.
pub fn same_text(a: &str, b: &str) -> (out: bool)
    ensures
        out == (a@ == b@),
{
    let x = chars_of(a);
    let y = chars_of(b);
    if x.len() != y.len() {
        return false;
    }
    let mut i: usize = 0;
    while i < x.len()
        invariant
            i <= x.len() == y.len(),
            x@ == a@,
            y@ == b@,
            forall|j: int| 0 <= j < i ==> x@[j] == y@[j],
        decreases x.len() - i,
    {
        if x[i] != y[i] {
            assert(x@[i as int] != y@[i as int]);
            return false;
        }
        i += 1;
    }
    assert(x@ =~= y@);
    true
}

/// The decimal digit for `d`, which is below ten.
pub open spec fn digit_char(d: int) -> char {
    if d == 0 {
        '0'
    } else if d == 1 {
        '1'
    } else if d == 2 {
        '2'
    } else if d == 3 {
        '3'
    } else if d == 4 {
        '4'
    } else if d == 5 {
        '5'
    } else if d == 6 {
        '6'
    } else if d == 7 {
        '7'
    } else if d == 8 {
        '8'
    } else {
        '9'
    }
}

/// `n` in decimal, without leading zeros.
pub open spec fn decimal(n: nat) -> Seq<char>
    decreases n,
{
    if n < 10 {
        seq![digit_char(n as int)]
    } else {
        decimal(n / 10).push(digit_char((n % 10) as int))
    }
}

/// `n` in decimal, with a minus sign in front when it is negative.
pub open spec fn signed_decimal(n: int) -> Seq<char> {
    if n < 0 {
        seq!['-'] + decimal((-n) as nat)
    } else {
        decimal(n as nat)
    }
}

fn digit_of(d: u8) -> (c: char)
    requires
        d < 10,
    ensures
        c == digit_char(d as int),
{
    if d == 0 {
        '0'
    } else if d == 1 {
        '1'
    } else if d == 2 {
        '2'
    } else if d == 3 {
        '3'
    } else if d == 4 {
        '4'
    } else if d == 5 {
        '5'
    } else if d == 6 {
        '6'
    } else if d == 7 {
        '7'
    } else if d == 8 {
        '8'
    } else {
        '9'
    }
}

/// The digits of `n`, appended to `out`.
fn push_decimal(out: &mut Vec<char>, n: u128)
    ensures
        final(out)@ == old(out)@ + decimal(n as nat),
{
    let mut rev: Vec<char> = Vec::new();
    let mut m: u128 = n;
    rev.push(digit_of((m % 10) as u8));
    m = m / 10;
    while m > 0
        invariant
            decimal(n as nat) == (if m > 0 {
                decimal(m as nat)
            } else {
                Seq::<char>::empty()
            }) + rev@.reverse(),
            rev.len() > 0,
        decreases m,
    {
        let ghost before = rev@;
        rev.push(digit_of((m % 10) as u8));
        assert(rev@.reverse() =~= seq![digit_char((m % 10) as int)] + before.reverse());
        m = m / 10;
    }
    let mut k: usize = rev.len();
    while k > 0
        invariant
            k <= rev.len(),
            out@ == old(out)@ + rev@.reverse().take(rev.len() - k),
        decreases k,
    {
        k -= 1;
        let ghost before = out@;
        out.push(rev[k]);
        assert(rev@.reverse().take(rev.len() - k) =~= rev@.reverse().take(rev.len() - k - 1).push(
            rev@[k as int],
        ));
        assert(out@ =~= old(out)@ + rev@.reverse().take(rev.len() - k));
    }
    assert(rev@.reverse().take(rev.len() as int) =~= rev@.reverse());
}

/// Writes `n` in decimal.
pub fn decimal_string(n: usize) -> (out: String)
    ensures
        out@ == decimal(n as nat),
{
    let mut chars: Vec<char> = Vec::new();
    push_decimal(&mut chars, n as u128);
    string_of(&chars)
}

/// Writes `n` in decimal, with its sign when negative.
pub fn signed_decimal_string(n: i128) -> (out: String)
    ensures
        out@ == signed_decimal(n as int),
{
    let mut chars: Vec<char> = Vec::new();
    if n < 0 {
        chars.push('-');
        let magnitude: u128 = (-(n + 1)) as u128 + 1;
        push_decimal(&mut chars, magnitude);
    } else {
        push_decimal(&mut chars, n as u128);
    }
    string_of(&chars)
}

/// The value of the decimal digit `c`.
pub open spec fn digit_value(c: char) -> Option<int> {
    if '0' <= c <= '9' {
        Some(c as u32 - '0' as u32)
    } else {
        None
    }
}

/// The number that the decimal digits `s` write; `None` if a character of
/// `s` is no digit.
pub open spec fn digits_value(s: Seq<char>) -> Option<nat>
    decreases s.len(),
{
    if s.len() == 0 {
        Some(0)
    } else {
        match (digits_value(s.drop_last()), digit_value(s.last())) {
            (Some(v), Some(d)) => Some((v * 10 + d) as nat),
            _ => None,
        }
    }
}

/// The integer that `s` writes: decimal digits, at least one, behind at most
/// one sign.
pub open spec fn parse_int(s: Seq<char>) -> Option<int> {
    if s.len() == 0 {
        None
    } else if s[0] == '-' || s[0] == '+' {
        let digits = s.drop_first();
        match digits_value(digits) {
            Some(v) if digits.len() > 0 => Some(
                if s[0] == '-' {
                    -(v as int)
                } else {
                    v as int
                },
            ),
            _ => None,
        }
    } else {
        match digits_value(s) {
            Some(v) => Some(v as int),
            None => None,
        }
    }
}

/// The integer that `s` writes, if it fits in 64 bits with a sign.
pub open spec fn parse_i64(s: Seq<char>) -> Option<i64> {
    match parse_int(s) {
        Some(v) if i64::MIN <= v <= i64::MAX => Some(v as i64),
        _ => None,
    }
}

/// Reads `s` as a signed decimal integer of 64 bits.
pub fn parse_i64_str(s: &str) -> (out: Option<i64>)
    ensures
        out == parse_i64(s@),
{
    let chars = chars_of(s);
    let n = chars.len();
    if n == 0 {
        return None;
    }
    let negative = chars[0] == '-';
    let start: usize = if chars[0] == '-' || chars[0] == '+' {
        1
    } else {
        0
    };
    if start == n {
        assert(chars@.drop_first().len() == 0);
        return None;
    }
    let limit: u128 = 0x8000_0000_0000_0000;
    let mut acc: u128 = 0;
    let mut too_big = false;
    let mut i: usize = start;
    let ghost digits = chars@.subrange(start as int, n as int);
    assert(digits.take(0) =~= Seq::<char>::empty());
    while i < n
        invariant
            start <= i <= n == chars.len(),
            chars@ == s@,
            start == (if chars@[0] == '-' || chars@[0] == '+' {
                1usize
            } else {
                0usize
            }),
            digits == chars@.subrange(start as int, n as int),
            limit == 0x8000_0000_0000_0000,
            acc <= limit,
            match digits_value(digits.take(i - start)) {
                Some(v) => if too_big {
                    v > limit
                } else {
                    v == acc
                },
                None => false,
            },
        decreases n - i,
    {
        let c = chars[i];
        assert(digits.take(i - start + 1).drop_last() =~= digits.take(i - start));
        assert(digits.take(i - start + 1).last() == c);
        if !('0' <= c && c <= '9') {
            proof {
                assert(digit_value(c) is None);
                assert(digits_value(digits.take(i - start + 1)) is None);
                lemma_digits_value_prefix(digits, i - start + 1);
                if start == 1 {
                    assert(chars@.drop_first() =~= digits);
                } else {
                    assert(chars@ =~= digits);
                }
            }
            return None;
        }
        let d: u128 = (c as u32 - '0' as u32) as u128;
        if !too_big {
            acc = acc * 10 + d;
            if acc > limit {
                too_big = true;
                acc = limit;
            }
        }
        i += 1;
    }
    assert(digits.take(n - start) =~= digits);
    proof {
        if start == 1 {
            assert(chars@.drop_first() =~= digits);
        } else {
            assert(chars@ =~= digits);
        }
    }
    if too_big {
        None
    } else if negative {
        if acc == limit {
            Some(i64::MIN)
        } else {
            Some(-(acc as i64))
        }
    } else if acc == limit {
        None
    } else {
        Some(acc as i64)
    }
}

/// Digits that do not write a number up to some point do not write one as a
/// whole.
proof fn lemma_digits_value_prefix(s: Seq<char>, k: int)
    requires
        0 <= k <= s.len(),
        digits_value(s.take(k)) is None,
    ensures
        digits_value(s) is None,
    decreases s.len() - k,
{
    if k < s.len() {
        assert(s.take(k + 1).drop_last() =~= s.take(k));
        lemma_digits_value_prefix(s, k + 1);
    } else {
        assert(s.take(k) =~= s);
    }
}

/// The last `n` of `lines`, or all of them where there are no more.
pub open spec fn last_lines(lines: Seq<Seq<char>>, n: nat) -> Seq<Seq<char>> {
    if lines.len() > n {
        lines.subrange(lines.len() - n, lines.len() as int)
    } else {
        lines
    }
}

/// The first `n` of `lines`, or all of them where there are no more.
pub open spec fn first_lines(lines: Seq<Seq<char>>, n: nat) -> Seq<Seq<char>> {
    if lines.len() > n {
        lines.take(n as int)
    } else {
        lines
    }
}

/// The lines `lines[from..to]`.
pub(crate) fn slice_lines<'a>(lines: &[&'a str], from: usize, to: usize) -> (out: Vec<&'a str>)
    requires
        from <= to <= lines.len(),
    ensures
        str_views(out@) == str_views(lines@).subrange(from as int, to as int),
{
    let mut out: Vec<&'a str> = Vec::new();
    let mut i: usize = from;
    while i < to
        invariant
            from <= i <= to <= lines.len(),
            out.len() == i - from,
            forall|j: int| 0 <= j < i - from ==> (#[trigger] out@[j])@ == lines@[from + j]@,
        decreases to - i,
    {
        out.push(lines[i]);
        i += 1;
    }
    assert(str_views(out@) =~= str_views(lines@).subrange(from as int, to as int));
    out
}

/// Keeps the last `n` lines.
pub fn tail<'a>(lines: &[&'a str], n: usize) -> (out: Vec<&'a str>)
    ensures
        str_views(out@) == last_lines(str_views(lines@), n as nat),
{
    if lines.len() > n {
        slice_lines(lines, lines.len() - n, lines.len())
    } else {
        copy_lines(lines)
    }
}

/// Keeps the first `n` lines.
pub fn head<'a>(lines: &[&'a str], n: usize) -> (out: Vec<&'a str>)
    ensures
        str_views(out@) == first_lines(str_views(lines@), n as nat),
{
    if lines.len() > n {
        let out = slice_lines(lines, 0, n);
        assert(str_views(lines@).subrange(0, n as int) =~= str_views(lines@).take(n as int));
        out
    } else {
        copy_lines(lines)
    }
}

/// Replacing what does not occur changes nothing.
pub proof fn lemma_replace_absent(s: Seq<char>, from: Seq<char>, to: Seq<char>)
    requires
        from.len() > 0,
        !contains(s, from),
    ensures
        replace_all(s, from, to) == s,
    decreases s.len(),
{
    assert(!occurs_at(s, from, 0));
    if s.len() > 0 {
        let rest = s.drop_first();
        assert(!contains(rest, from)) by {
            if contains(rest, from) {
                let i = choose|i: int| occurs_at(rest, from, i);
                assert(s.subrange(i + 1, i + 1 + from.len()) =~= rest.subrange(
                    i,
                    i + from.len(),
                ));
                assert(occurs_at(s, from, i + 1));
            }
        }
        lemma_replace_absent(rest, from, to);
        assert(seq![s[0]] + rest =~= s);
    }
}

/// Replacing a text in itself leaves the replacement.
pub proof fn lemma_replace_whole(from: Seq<char>, to: Seq<char>)
    requires
        from.len() > 0,
    ensures
        replace_all(from, from, to) == to,
{
    assert(from.subrange(0, from.len() as int) =~= from);
    assert(occurs_at(from, from, 0));
    let rest = from.subrange(from.len() as int, from.len() as int);
    assert(rest =~= Seq::<char>::empty());
    assert(!occurs_at(rest, from, 0));
    assert(replace_all(rest, from, to) == rest);
    assert(to + rest =~= to);
}

/// The decimal digits of a number write that number, and each of them is a
/// digit.
pub proof fn lemma_decimal_value(n: nat)
    ensures
        digits_value(decimal(n)) == Some(n),
        decimal(n).len() > 0,
        forall|i: int| 0 <= i < decimal(n).len() ==> digit_value(#[trigger] decimal(n)[i]) is Some,
    decreases n,
{
    if n < 10 {
        assert(decimal(n).drop_last() =~= Seq::<char>::empty());
        assert(digits_value(Seq::<char>::empty()) == Some(0nat));
        assert(digit_value(digit_char(n as int)) == Some(n as int));
    } else {
        lemma_decimal_value(n / 10);
        assert(decimal(n).drop_last() =~= decimal(n / 10));
        assert(digit_value(digit_char((n % 10) as int)) == Some((n % 10) as int));
    }
}

/// Whether `line` holds no newline.
pub open spec fn no_newline(line: Seq<char>) -> bool {
    forall|i: int| 0 <= i < line.len() ==> #[trigger] line[i] != '\n'
}

/// A carriage return directly followed by a newline.
pub open spec fn crlf() -> Seq<char> {
    seq!['\r', '\n']
}

/// No line holds a newline.
pub proof fn lemma_lines_hold_no_newline(s: Seq<char>)
    ensures
        forall|i: int| 0 <= i < scan_lines(s).0.len() ==> no_newline(#[trigger] scan_lines(s).0[i]),
        no_newline(scan_lines(s).1),
        forall|i: int| 0 <= i < split_lines(s).len() ==> no_newline(#[trigger] split_lines(s)[i]),
    decreases s.len(),
{
    if s.len() > 0 {
        lemma_lines_hold_no_newline(s.drop_last());
        let (done, cur) = scan_lines(s.drop_last());
        if s.last() == '\n' {
            assert(no_newline(strip_cr(cur)));
            assert forall|i: int| 0 <= i < scan_lines(s).0.len() implies no_newline(
                #[trigger] scan_lines(s).0[i],
            ) by {
                if i < done.len() {
                    assert(scan_lines(s).0[i] == done[i]);
                }
            }
        }
    }
    let (done, cur) = scan_lines(s);
    assert forall|i: int| 0 <= i < split_lines(s).len() implies no_newline(
        #[trigger] split_lines(s)[i],
    ) by {
        if i < done.len() {
            assert(split_lines(s)[i] == done[i]);
        }
    }
}

/// Text without a newline, read after `a`, only makes the open line
/// longer.
pub proof fn lemma_scan_append(a: Seq<char>, b: Seq<char>)
    requires
        no_newline(b),
    ensures
        scan_lines(a + b) == (scan_lines(a).0, scan_lines(a).1 + b),
    decreases b.len(),
{
    if b.len() == 0 {
        assert(a + b =~= a);
        assert(scan_lines(a).1 + b =~= scan_lines(a).1);
    } else {
        let init = b.drop_last();
        assert(no_newline(init)) by {
            assert forall|i: int| 0 <= i < init.len() implies #[trigger] init[i] != '\n' by {
                assert(init[i] == b[i]);
            }
        }
        lemma_scan_append(a, init);
        assert((a + b).drop_last() =~= a + init);
        assert((a + b).last() == b.last());
        assert(b.last() == b[b.len() - 1]);
        assert((scan_lines(a).1 + init).push(b.last()) =~= scan_lines(a).1 + b);
    }
}

/// Lines joined by newlines and read again: every line but the last has
/// been ended, and lost a carriage return at its end; the last is open.
pub proof fn lemma_scan_joined(parts: Seq<Seq<char>>)
    requires
        parts.len() > 0,
        forall|i: int| 0 <= i < parts.len() ==> no_newline(#[trigger] parts[i]),
    ensures
        scan_lines(join(parts, newline())) == (
            parts.drop_last().map_values(|l: Seq<char>| strip_cr(l)),
            parts.last(),
        ),
    decreases parts.len(),
{
    let strip = |l: Seq<char>| strip_cr(l);
    if parts.len() == 1 {
        lemma_scan_append(Seq::empty(), parts[0]);
        assert(Seq::<char>::empty() + parts[0] =~= parts[0]);
        assert(parts.drop_last().map_values(strip) =~= Seq::<Seq<char>>::empty());
    } else {
        let init = parts.drop_last();
        assert forall|i: int| 0 <= i < init.len() implies no_newline(#[trigger] init[i]) by {
            assert(init[i] == parts[i]);
        }
        lemma_scan_joined(init);
        let joined = join(init, newline());
        let ended = joined + newline();
        assert(ended.drop_last() =~= joined);
        assert(ended.last() == '\n');
        assert(scan_lines(ended) == (
            init.drop_last().map_values(strip).push(strip_cr(init.last())),
            Seq::<char>::empty(),
        ));
        assert(init.drop_last().map_values(strip).push(strip_cr(init.last())) =~= init.map_values(
            strip,
        ));
        lemma_scan_append(ended, parts.last());
        assert(Seq::<char>::empty() + parts.last() =~= parts.last());
    }
}

/// What joined lines end with: the end of the last line, where it is not
/// empty.
pub proof fn lemma_join_end(parts: Seq<Seq<char>>, sep: Seq<char>)
    requires
        parts.len() > 0,
        parts.last().len() > 0,
    ensures
        join(parts, sep).len() > 0,
        join(parts, sep).last() == parts.last().last(),
{
}

/// What occurs in a text occurs in the text with more behind it.
pub proof fn lemma_contains_extended(a: Seq<char>, b: Seq<char>, needle: Seq<char>)
    requires
        contains(a, needle),
    ensures
        contains(a + b, needle),
{
    let i = choose|i: int| occurs_at(a, needle, i);
    assert((a + b).subrange(i, i + needle.len()) =~= a.subrange(i, i + needle.len()));
    assert(occurs_at(a + b, needle, i));
}

/// Where a line that is not the last ends with a carriage return, the
/// joined lines hold a carriage return directly before a newline.
pub proof fn lemma_join_holds_crlf(parts: Seq<Seq<char>>, i: int)
    requires
        0 <= i < parts.len() - 1,
        ends_with_char(parts[i], '\r'),
    ensures
        contains(join(parts, newline()), crlf()),
    decreases parts.len(),
{
    let init = parts.drop_last();
    let joined = join(init, newline());
    if i == parts.len() - 2 {
        assert(init.last() == parts[i]);
        lemma_join_end(init, newline());
        let whole = joined + newline() + parts.last();
        let at = joined.len() - 1;
        assert(whole.subrange(at, at + 2) =~= crlf());
        assert(occurs_at(whole, crlf(), at));
    } else {
        assert(init[i] == parts[i]);
        lemma_join_holds_crlf(init, i);
        lemma_contains_extended(joined, newline() + parts.last(), crlf());
        assert(joined + (newline() + parts.last()) =~= joined + newline() + parts.last());
    }
}

/// A filter keeps a sequence whose elements all pass.
pub proof fn lemma_filter_keeps_all<A>(s: Seq<A>, pred: spec_fn(A) -> bool)
    requires
        forall|i: int| 0 <= i < s.len() ==> pred(#[trigger] s[i]),
    ensures
        s.filter(pred) == s,
    decreases s.len(),
{
    reveal(Seq::filter);
    if s.len() > 0 {
        assert forall|i: int| 0 <= i < s.drop_last().len() implies pred(
            #[trigger] s.drop_last()[i],
        ) by {
            assert(s.drop_last()[i] == s[i]);
        }
        lemma_filter_keeps_all(s.drop_last(), pred);
        assert(pred(s[s.len() - 1]));
        assert(s.drop_last().push(s.last()) =~= s);
    }
}

/// Every element that a filter keeps is an element of what was filtered.
pub proof fn lemma_filter_member<A>(s: Seq<A>, pred: spec_fn(A) -> bool, k: int)
    requires
        0 <= k < s.filter(pred).len(),
    ensures
        exists|i: int| 0 <= i < s.len() && #[trigger] s[i] == s.filter(pred)[k],
    decreases s.len(),
{
    reveal(Seq::filter);
    if s.len() > 0 {
        let sub = s.drop_last().filter(pred);
        if k < sub.len() {
            lemma_filter_member(s.drop_last(), pred, k);
            let i = choose|i: int| 0 <= i < s.drop_last().len() && #[trigger] s.drop_last()[i] == sub[k];
            assert(s[i] == s.filter(pred)[k]);
        } else {
            assert(s[s.len() - 1] == s.filter(pred)[k]);
        }
    }
}

/// The number of characters of all parts together.
pub open spec fn total_len(parts: Seq<Seq<char>>) -> nat
    decreases parts.len(),
{
    if parts.len() == 0 {
        0
    } else {
        total_len(parts.drop_last()) + parts.last().len()
    }
}

/// Joined parts are as long as the parts together and one separator
/// between each two neighbours.
pub proof fn lemma_join_len(parts: Seq<Seq<char>>, sep: Seq<char>)
    requires
        parts.len() > 0,
    ensures
        join(parts, sep).len() == total_len(parts) + (parts.len() - 1) * sep.len(),
    decreases parts.len(),
{
    if parts.len() == 1 {
        assert(parts.drop_last().len() == 0);
        assert(total_len(parts.drop_last()) == 0);
        assert(parts.last() == parts[0]);
    } else {
        lemma_join_len(parts.drop_last(), sep);
        assert((parts.len() - 1) * sep.len() == (parts.len() - 2) * sep.len() + sep.len())
            by (nonlinear_arith);
    }
}

/// Parts that are one by one no longer than other parts, and one of them
/// shorter, are shorter together.
pub proof fn lemma_total_len_shorter(a: Seq<Seq<char>>, b: Seq<Seq<char>>, k: int)
    requires
        a.len() == b.len(),
        forall|i: int| 0 <= i < a.len() ==> (#[trigger] a[i]).len() <= b[i].len(),
        0 <= k < a.len(),
        a[k].len() < b[k].len(),
    ensures
        total_len(a) < total_len(b),
    decreases a.len(),
{
    let a0 = a.drop_last();
    let b0 = b.drop_last();
    assert forall|i: int| 0 <= i < a0.len() implies (#[trigger] a0[i]).len() <= b0[i].len() by {
        assert(a0[i] == a[i]);
        assert(b0[i] == b[i]);
    }
    assert(a.last() == a[a.len() - 1]);
    assert(b.last() == b[b.len() - 1]);
    if k < a.len() - 1 {
        assert(a0[k] == a[k]);
        assert(b0[k] == b[k]);
        lemma_total_len_shorter(a0, b0, k);
    } else {
        lemma_total_len_no_longer(a0, b0);
    }
}

/// Parts that are one by one no longer than other parts are no longer
/// together.
pub proof fn lemma_total_len_no_longer(a: Seq<Seq<char>>, b: Seq<Seq<char>>)
    requires
        a.len() == b.len(),
        forall|i: int| 0 <= i < a.len() ==> (#[trigger] a[i]).len() <= b[i].len(),
    ensures
        total_len(a) <= total_len(b),
    decreases a.len(),
{
    if a.len() > 0 {
        let a0 = a.drop_last();
        let b0 = b.drop_last();
        assert forall|i: int| 0 <= i < a0.len() implies (#[trigger] a0[i]).len() <= b0[i].len() by {
            assert(a0[i] == a[i]);
            assert(b0[i] == b[i]);
        }
        lemma_total_len_no_longer(a0, b0);
        assert(a.last() == a[a.len() - 1]);
        assert(b.last() == b[b.len() - 1]);
    }
}

/// Where joined lines hold a carriage return directly before a newline,
/// a line that is not the last ends with a carriage return.
pub proof fn lemma_crlf_in_join(parts: Seq<Seq<char>>) -> (i: int)
    requires
        parts.len() > 0,
        forall|j: int| 0 <= j < parts.len() ==> no_newline(#[trigger] parts[j]) && parts[j].len() > 0,
        contains(join(parts, newline()), crlf()),
    ensures
        0 <= i < parts.len() - 1,
        ends_with_char(parts[i], '\r'),
    decreases parts.len(),
{
    let whole = join(parts, newline());
    let p = choose|p: int| occurs_at(whole, crlf(), p);
    assert(whole.subrange(p, p + 2)[0] == '\r');
    assert(whole.subrange(p, p + 2)[1] == '\n');
    assert(whole[p + 1] == '\n');
    if parts.len() == 1 {
        assert(whole == parts[0]);
        assert(false);
        0
    } else {
        let init = parts.drop_last();
        let joined = join(init, newline());
        assert forall|j: int| 0 <= j < init.len() implies no_newline(#[trigger] init[j])
            && init[j].len() > 0 by {
            assert(init[j] == parts[j]);
        }
        lemma_join_end(init, newline());
        assert(whole =~= joined + newline() + parts.last());
        if p + 1 < joined.len() {
            assert(joined.subrange(p, p + 2) =~= whole.subrange(p, p + 2));
            assert(occurs_at(joined, crlf(), p));
            let i = lemma_crlf_in_join(init);
            assert(init[i] == parts[i]);
            i
        } else if p + 1 == joined.len() {
            assert(whole[p] == joined[p]);
            assert(joined.last() == '\r');
            assert(init.last() == parts[parts.len() - 2]);
            parts.len() - 2
        } else {
            assert(whole[p + 1] == parts.last()[p + 1 - joined.len() - 1]);
            assert(false);
            0
        }
    }
}

} // verus!
