//! Dropping repeated lines.

use crate::text::{chars_of, str_views};
use vstd::prelude::*;

verus! {

/// `lines` without each line that equals the line kept just before it.
pub open spec fn deduped_consecutive(lines: Seq<Seq<char>>) -> Seq<Seq<char>>
    decreases lines.len(),
{
    if lines.len() == 0 {
        lines
    } else {
        let kept = deduped_consecutive(lines.drop_last());
        if kept.len() > 0 && kept.last() == lines.last() {
            kept
        } else {
            kept.push(lines.last())
        }
    }
}

/// Reads `lines` in order with a window of the last `window` lines kept:
/// the lines kept so far, and the window. A line that equals a line of the
/// window is dropped; a line that is kept enters the window, and the oldest
/// line leaves once the window holds more than `window` lines.
pub open spec fn windowed_state(lines: Seq<Seq<char>>, window: nat) -> (
    Seq<Seq<char>>,
    Seq<Seq<char>>,
)
    decreases lines.len(),
{
    if lines.len() == 0 {
        (Seq::empty(), Seq::empty())
    } else {
        let (kept, recent) = windowed_state(lines.drop_last(), window);
        let line = lines.last();
        if recent.contains(line) {
            (kept, recent)
        } else {
            let entered = recent.push(line);
            (
                kept.push(line),
                if entered.len() > window {
                    entered.drop_first()
                } else {
                    entered
                },
            )
        }
    }
}

/// `lines` without each line that equals one of the last `window` lines
/// kept before it.
pub open spec fn deduped_windowed(lines: Seq<Seq<char>>, window: nat) -> Seq<Seq<char>> {
    windowed_state(lines, window).0
}

/// What `apply_dedup` returns.
pub open spec fn deduped(lines: Seq<Seq<char>>, window: Option<usize>) -> Seq<Seq<char>> {
    match window {
        Some(n) => deduped_windowed(lines, n as nat),
        None => deduped_consecutive(lines),
    }
}

/// After the consecutive mode no two neighbours are equal.
pub proof fn lemma_no_adjacent_duplicates(lines: Seq<Seq<char>>)
    ensures
        forall|i: int|
            0 <= i && i + 1 < deduped_consecutive(lines).len() ==> #[trigger] deduped_consecutive(
                lines,
            )[i] != deduped_consecutive(lines)[i + 1],
    decreases lines.len(),
{
    if lines.len() > 0 {
        lemma_no_adjacent_duplicates(lines.drop_last());
        let kept = deduped_consecutive(lines.drop_last());
        let out = deduped_consecutive(lines);
        assert forall|i: int| 0 <= i && i + 1 < out.len() implies #[trigger] out[i] != out[i
            + 1] by {
            if i + 1 < kept.len() {
                assert(out[i] == kept[i]);
                assert(out[i + 1] == kept[i + 1]);
            } else {
                assert(out[i] == kept.last());
                assert(out[i + 1] == lines.last());
            }
        }
    }
}

/// Tells whether two lists of characters are equal.
fn same_chars(a: &Vec<char>, b: &Vec<char>) -> (out: bool)
    ensures
        out == (a@ == b@),
{
    if a.len() != b.len() {
        return false;
    }
    let mut i: usize = 0;
    while i < a.len()
        invariant
            i <= a.len() == b.len(),
            forall|j: int| 0 <= j < i ==> a@[j] == b@[j],
        decreases a.len() - i,
    {
        if a[i] != b[i] {
            return false;
        }
        i += 1;
    }
    assert(a@ =~= b@);
    true
}

/// The characters of each line.
fn chars_of_all(lines: &[&str]) -> (out: Vec<Vec<char>>)
    ensures
        out.len() == lines.len(),
        forall|i: int| 0 <= i < lines.len() ==> (#[trigger] out@[i])@ == lines@[i]@,
{
    let mut out: Vec<Vec<char>> = Vec::new();
    let mut i: usize = 0;
    while i < lines.len()
        invariant
            i <= lines.len(),
            out.len() == i,
            forall|j: int| 0 <= j < i ==> (#[trigger] out@[j])@ == lines@[j]@,
        decreases lines.len() - i,
    {
        out.push(chars_of(lines[i]));
        i += 1;
    }
    out
}

/// Drops each line that is identical to the line kept just before it.
pub fn dedup_consecutive<'a>(lines: &[&'a str]) -> (out: Vec<&'a str>)
    ensures
        str_views(out@) == deduped_consecutive(str_views(lines@)),
        forall|i: int|
            0 <= i && i + 1 < out.len() ==> (#[trigger] out@[i])@ != out@[i + 1]@,
{
    let ghost all = str_views(lines@);
    let chars = chars_of_all(lines);
    let mut out: Vec<&'a str> = Vec::new();
    let mut last: usize = 0;
    let mut i: usize = 0;
    assert(all.take(0) =~= Seq::<Seq<char>>::empty());
    assert(str_views(out@) =~= Seq::<Seq<char>>::empty());
    while i < lines.len()
        invariant
            i <= lines.len() == chars.len(),
            all == str_views(lines@),
            forall|j: int| 0 <= j < lines.len() ==> (#[trigger] chars@[j])@ == lines@[j]@,
            str_views(out@) == deduped_consecutive(all.take(i as int)),
            out.len() > 0 ==> last < i && out@[out.len() - 1]@ == lines@[last as int]@,
        decreases lines.len() - i,
    {
        assert(all.take(i as int + 1).drop_last() =~= all.take(i as int));
        let repeated = out.len() > 0 && same_chars(&chars[last], &chars[i]);
        assert(out.len() > 0 ==> str_views(out@).last() == out@[out.len() - 1]@);
        if !repeated {
            let ghost before = str_views(out@);
            out.push(lines[i]);
            last = i;
            assert(str_views(out@) =~= before.push(lines@[i as int]@));
        }
        i += 1;
    }
    assert(all.take(lines.len() as int) =~= all);
    proof {
        lemma_no_adjacent_duplicates(all);
        assert forall|i: int| 0 <= i && i + 1 < out.len() implies (#[trigger] out@[i])@ != out@[i
            + 1]@ by {
            assert(str_views(out@)[i] == out@[i]@);
            assert(str_views(out@)[i + 1] == out@[i + 1]@);
        }
    }
    out
}

/// Drops each line that is identical to one of the last `window` lines
/// kept.
pub fn dedup_windowed<'a>(lines: &[&'a str], window: usize) -> (out: Vec<&'a str>)
    ensures
        str_views(out@) == deduped_windowed(str_views(lines@), window as nat),
{
    let ghost all = str_views(lines@);
    let chars = chars_of_all(lines);
    let mut out: Vec<&'a str> = Vec::new();
    let mut recent: Vec<usize> = Vec::new();
    let mut i: usize = 0;
    assert(all.take(0) =~= Seq::<Seq<char>>::empty());
    assert(str_views(out@) =~= Seq::<Seq<char>>::empty());
    assert(recent@.map_values(|k: usize| all[k as int]) =~= Seq::<Seq<char>>::empty());
    while i < lines.len()
        invariant
            i <= lines.len() == chars.len(),
            all == str_views(lines@),
            forall|j: int| 0 <= j < lines.len() ==> (#[trigger] chars@[j])@ == lines@[j]@,
            forall|k: int| 0 <= k < recent.len() ==> #[trigger] recent@[k] < i,
            windowed_state(all.take(i as int), window as nat) == (
                str_views(out@),
                recent@.map_values(|k: usize| all[k as int]),
            ),
        decreases lines.len() - i,
    {
        let ghost window_lines = recent@.map_values(|k: usize| all[k as int]);
        assert(all.take(i as int + 1).drop_last() =~= all.take(i as int));
        let mut seen = false;
        let mut k: usize = 0;
        while k < recent.len()
            invariant
                k <= recent.len(),
                i < lines.len() == chars.len(),
                all == str_views(lines@),
                forall|j: int| 0 <= j < lines.len() ==> (#[trigger] chars@[j])@ == lines@[j]@,
                forall|k: int| 0 <= k < recent.len() ==> #[trigger] recent@[k] < i,
                window_lines == recent@.map_values(|k: usize| all[k as int]),
                seen == exists|j: int| 0 <= j < k && window_lines[j] == all[i as int],
            decreases recent.len() - k,
        {
            if same_chars(&chars[recent[k]], &chars[i]) {
                assert(window_lines[k as int] == all[i as int]);
                seen = true;
            }
            k += 1;
        }
        assert(seen == window_lines.contains(all[i as int]));
        if !seen {
            let ghost before = str_views(out@);
            out.push(lines[i]);
            assert(str_views(out@) =~= before.push(all[i as int]));
            recent.push(i);
            assert(recent@.map_values(|k: usize| all[k as int]) =~= window_lines.push(
                all[i as int],
            ));
            if recent.len() > window {
                let ghost entered = recent@;
                recent.remove(0);
                assert(recent@ =~= entered.drop_first());
                assert(recent@.map_values(|k: usize| all[k as int]) =~= entered.map_values(
                    |k: usize| all[k as int],
                ).drop_first());
            }
        }
        i += 1;
    }
    assert(all.take(lines.len() as int) =~= all);
    out
}

/// Collapses duplicate lines. Without a window, a line identical to the
/// line kept just before it is dropped; with a window of `n`, a line
/// identical to any of the last `n` lines kept is dropped.
pub fn apply_dedup<'a>(lines: &[&'a str], window: Option<usize>) -> (out: Vec<&'a str>)
    ensures
        str_views(out@) == deduped(str_views(lines@), window),
        window is None ==> forall|i: int|
            0 <= i && i + 1 < out.len() ==> (#[trigger] out@[i])@ != out@[i + 1]@,
{
    match window {
        Some(n) => dedup_windowed(lines, n),
        None => dedup_consecutive(lines),
    }
}

} // verus!
