//! Axis vocabulary and the parts of tick generation that are exact.

use vstd::prelude::*;

verus! {

/// Which screen dimension an axis runs along.
#[derive(Clone, Copy, Debug, PartialEq, Eq, Structural)]
pub enum Orientation {
    /// Horizontal, drawn along the bottom of the plot.
    X,
    /// Vertical, drawn up the left of the plot.
    Y,
}

/// What the tick sequence is measured from.
#[derive(Clone, Copy, Debug, PartialEq, Eq, Structural)]
pub enum Anchor {
    /// Ticks start at the edge of the plot and keep a fixed pixel spacing,
    /// so they do not move when the plot is panned.
    Screen,
    /// Ticks start at cartesian zero and scale with the data, so a tick always
    /// marks the same value.
    Value,
}

impl Default for Anchor {
    /// Axes follow the data unless told otherwise.
    fn default() -> (anchor: Self)
        ensures
            anchor == Anchor::Value,
    {
        Anchor::Value
    }
}

/// Upper bound on ticks per axis, so a tiny step cannot stall the frame.
pub const MAX_TICKS: usize = 4096;


/// How many more ticks an axis may place once `emitted` are placed.
pub open spec fn budget_after(emitted: int) -> int {
    if emitted < MAX_TICKS {
        MAX_TICKS - emitted
    } else {
        0
    }
}

/// How many more ticks a sweep may emit once `emitted` are already placed.
///
/// Every sweep of an axis draws from this one shared budget, so a
/// pathological step cannot run an axis past [`MAX_TICKS`].
pub fn tick_budget(emitted: usize) -> (budget: usize)
    ensures
        budget == budget_after(emitted as int),
{
    if emitted < MAX_TICKS {
        MAX_TICKS - emitted
    } else {
        0
    }
}

/// The number of ticks a run of sweeps places altogether.
pub open spec fn total_ticks(sweeps: Seq<int>) -> int
    decreases sweeps.len(),
{
    if sweeps.len() == 0 {
        0
    } else {
        total_ticks(sweeps.drop_last()) + sweeps.last()
    }
}

/// However the sweeps of an axis split the work, if each one emits no more
/// than the budget left by those before it, the axis places at most
/// [`MAX_TICKS`] ticks.
pub proof fn lemma_budget_caps_an_axis(sweeps: Seq<int>)
    requires
        forall|k: int|
            0 <= k < sweeps.len() ==> 0 <= #[trigger] sweeps[k] <= budget_after(
                total_ticks(sweeps.take(k)),
            ),
    ensures
        0 <= total_ticks(sweeps) <= MAX_TICKS,
    decreases sweeps.len(),
{
    if sweeps.len() > 0 {
        let front = sweeps.drop_last();
        assert forall|k: int| 0 <= k < front.len() implies 0 <= #[trigger] front[k] <= budget_after(
            total_ticks(front.take(k)),
        ) by {
            assert(front.take(k) =~= sweeps.take(k));
            assert(front[k] == sweeps[k]);
        }
        lemma_budget_caps_an_axis(front);
        let last = sweeps.len() - 1;
        assert(sweeps.take(last) =~= front);
        assert(sweeps[last] <= budget_after(total_ticks(front)));
    }
}

/// `s` with every trailing `c` removed.
pub open spec fn trim_end(s: Seq<char>, c: char) -> Seq<char>
    decreases s.len(),
{
    if s.len() > 0 && s.last() == c {
        trim_end(s.drop_last(), c)
    } else {
        s
    }
}

/// Whether `s` is one of the texts that a rounded-away value leaves behind:
/// nothing at all, a lone minus sign, or a negative zero.
pub open spec fn is_vanished(s: Seq<char>) -> bool {
    s =~= seq![] || s =~= seq!['-'] || s =~= seq!['-', '0']
}

/// The tidy form of a fixed-point decimal text: trailing zeros after the
/// point go, then a bare trailing point, and what is left of a rounded-away
/// value reads `0`.
pub open spec fn tidy_text(text: Seq<char>) -> Seq<char> {
    let trimmed = if text.contains('.') {
        trim_end(trim_end(text, '0'), '.')
    } else {
        text
    };
    if is_vanished(trimmed) {
        seq!['0']
    } else {
        trimmed
    }
}

/// Trimming keeps a prefix: the characters after it are all `c`, and the
/// prefix does not itself end in `c`.
pub proof fn lemma_trim_end(s: Seq<char>, c: char) -> (keep: int)
    ensures
        0 <= keep <= s.len(),
        trim_end(s, c) == s.subrange(0, keep),
        forall|i: int| keep <= i < s.len() ==> s[i] == c,
        keep > 0 ==> s[keep - 1] != c,
    decreases s.len(),
{
    if s.len() > 0 && s.last() == c {
        let k = lemma_trim_end(s.drop_last(), c);
        assert(s.drop_last().subrange(0, k) =~= s.subrange(0, k));
        assert forall|i: int| k <= i < s.len() implies s[i] == c by {
            if i < s.len() - 1 {
                assert(s.drop_last()[i] == s[i]);
            }
        }
        k
    } else {
        assert(s.subrange(0, s.len() as int) =~= s);
        s.len() as int
    }
}

/// Trimming a prefix that ends in `c` lands where trimming the prefix one
/// character shorter does.
proof fn lemma_trim_end_step(s: Seq<char>, c: char, end: int)
    requires
        0 < end <= s.len(),
        s[end - 1] == c,
    ensures
        trim_end(s.subrange(0, end), c) == trim_end(s.subrange(0, end - 1), c),
{
    assert(s.subrange(0, end).drop_last() =~= s.subrange(0, end - 1));
}

/// Tidies a decimal rendered with a fixed number of places, as the decimal
/// pattern `#.###` shows it: no trailing zeros, no bare point, and no lone
/// minus sign on a value that rounded away to nothing.
pub fn tidy_decimal(text: &str) -> (tidy: String)
    ensures
        tidy@ == tidy_text(text@),
{
    let n = text.unicode_len();
    let mut has_point = false;
    let mut i: usize = 0;
    while i < n
        invariant
            n == text@.len(),
            i <= n,
            has_point <==> text@.subrange(0, i as int).contains('.'),
        decreases n - i,
    {
        if text.get_char(i) == '.' {
            has_point = true;
        }
        proof {
            let before = text@.subrange(0, i as int);
            let after = text@.subrange(0, i + 1);
            assert(after =~= before.push(text@[i as int]));
            if before.contains('.') {
                let j = choose|j: int| 0 <= j < before.len() && before[j] == '.';
                assert(after[j] == '.');
            }
            if after.contains('.') && !before.contains('.') {
                let j = choose|j: int| 0 <= j < after.len() && after[j] == '.';
                if j < i {
                    assert(before[j] == '.');
                }
            }
            if text@[i as int] == '.' {
                assert(after[i as int] == '.');
            }
        }
        i = i + 1;
    }
    proof {
        assert(text@.subrange(0, n as int) =~= text@);
    }

    let mut end: usize = n;
    if has_point {
        while end > 0 && text.get_char(end - 1) == '0'
            invariant
                n == text@.len(),
                end <= n,
                trim_end(text@, '0') == trim_end(text@.subrange(0, end as int), '0'),
            decreases end,
        {
            proof {
                lemma_trim_end_step(text@, '0', end as int);
            }
            end = end - 1;
        }
        let ghost zeros_trimmed = text@.subrange(0, end as int);
        proof {
            assert(trim_end(zeros_trimmed, '0') == zeros_trimmed);
        }
        while end > 0 && text.get_char(end - 1) == '.'
            invariant
                n == text@.len(),
                end <= zeros_trimmed.len(),
                zeros_trimmed.len() <= n,
                zeros_trimmed == text@.subrange(0, zeros_trimmed.len() as int),
                trim_end(zeros_trimmed, '.') == trim_end(text@.subrange(0, end as int), '.'),
            decreases end,
        {
            proof {
                lemma_trim_end_step(text@, '.', end as int);
            }
            end = end - 1;
        }
    }
    let vanished = end == 0 || (end == 1 && text.get_char(0) == '-') || (end == 2
        && text.get_char(0) == '-' && text.get_char(1) == '0');
    if vanished {
        proof {
            reveal_strlit("0");
        }
        String::from_str("0")
    } else {
        String::from_str(text.substring_char(0, end))
    }
}


/// Whether `s` holds at most one decimal point.
pub open spec fn at_most_one_point(s: Seq<char>) -> bool {
    forall|i: int, j: int|
        0 <= i < s.len() && 0 <= j < s.len() && s[i] == '.' && s[j] == '.' ==> i == j
}

/// A tidied label is never empty, never a lone minus sign and never a
/// negative zero.
pub proof fn lemma_tidy_never_vanished(text: Seq<char>)
    ensures
        !is_vanished(tidy_text(text)),
        tidy_text(text).len() > 0,
{
    let trimmed = if text.contains('.') {
        trim_end(trim_end(text, '0'), '.')
    } else {
        text
    };
    if !is_vanished(trimmed) {
        assert(!(trimmed =~= seq![]));
    } else {
        let zero = seq!['0'];
        assert(zero[0] != seq!['-'][0]);
        assert(zero.len() != seq!['-', '0'].len());
    }
}

/// For a text with a single decimal point, the tidied label ends in neither
/// a zero nor a point whenever it still has a fractional part, and tidying
/// it again leaves it as it is.
pub proof fn lemma_tidy_single_point(text: Seq<char>)
    requires
        at_most_one_point(text),
    ensures
        tidy_text(text).contains('.') ==> tidy_text(text).last() != '0' && tidy_text(text).last()
            != '.',
        tidy_text(tidy_text(text)) == tidy_text(text),
{
    let out = tidy_text(text);
    if text.contains('.') {
        let k1 = lemma_trim_end(text, '0');
        let t1 = trim_end(text, '0');
        let k2 = lemma_trim_end(t1, '.');
        let t2 = trim_end(t1, '.');
        assert(t2 =~= text.subrange(0, k2));
        if t2.contains('.') {
            let j = choose|j: int| 0 <= j < t2.len() && t2[j] == '.';
            assert(text[j] == '.');
            if k2 < k1 {
                assert(t1[k1 - 1] == '.');
                assert(text[k1 - 1] == '.');
            }
            assert(k2 == k1);
            assert(t2 =~= t1);
        }
        if is_vanished(t2) {
            assert(out =~= seq!['0']);
        } else {
            assert(out == t2);
        }
    }
    // Tidying the output again.
    if out.contains('.') {
        let j = choose|j: int| 0 <= j < out.len() && out[j] == '.';
        if !text.contains('.') {
            if is_vanished(text) {
                assert(out =~= seq!['0']);
                assert(out[j] == '0');
            }
            assert(out == text);
        }
        assert(out.len() > 0);
        assert(trim_end(out, '0') == out);
        assert(trim_end(out, '.') == out);
    }
    lemma_tidy_never_vanished(text);
}

/// Whether `s` has no decimal point.
pub open spec fn no_point(s: Seq<char>) -> bool {
    forall|i: int| 0 <= i < s.len() ==> #[trigger] s[i] != '.'
}

/// Whether every character of `s` is a zero.
pub open spec fn all_zeros(s: Seq<char>) -> bool {
    forall|i: int| 0 <= i < s.len() ==> #[trigger] s[i] == '0'
}

/// A text that does not end in `c` is left alone by trimming `c`.
proof fn lemma_trim_end_keeps(s: Seq<char>, c: char)
    requires
        s.len() == 0 || s.last() != c,
    ensures
        trim_end(s, c) == s,
{
}

/// Trimming `c` looks through any run of `c` at the end.
proof fn lemma_trim_end_through(s: Seq<char>, run: Seq<char>, c: char)
    requires
        forall|i: int| 0 <= i < run.len() ==> #[trigger] run[i] == c,
    ensures
        trim_end(s + run, c) == trim_end(s, c),
    decreases run.len(),
{
    if run.len() > 0 {
        let shorter = run.drop_last();
        assert((s + run).drop_last() =~= s + shorter);
        assert((s + run).last() == run.last());
        assert forall|i: int| 0 <= i < shorter.len() implies #[trigger] shorter[i] == c by {
            assert(shorter[i] == run[i]);
        }
        lemma_trim_end_through(s, shorter, c);
    } else {
        assert(s + run =~= s);
    }
}

/// What a tidied label is, over every text of the form
/// `whole` `.` `fraction` `zeros`, where neither `whole` nor `fraction` holds a
/// point, `zeros` is a run of zeros and `fraction` does not end in zero:
/// with a fraction left, the label is `whole.fraction`; with none, it is
/// `whole`, unless `whole` is nothing, a lone minus or a negative zero, in
/// which case the label is `0`. So `-5.000` reads `-5`, `10.000` reads `10`,
/// `1.500` reads `1.5` and `-0.000` reads `0`.
pub proof fn lemma_tidy_pointed(
    whole: Seq<char>,
    fraction: Seq<char>,
    zeros: Seq<char>,
)
    requires
        no_point(whole),
        no_point(fraction),
        all_zeros(zeros),
        fraction.len() == 0 || fraction.last() != '0',
    ensures
        fraction.len() > 0 ==> tidy_text(whole + seq!['.'] + fraction + zeros) == whole + seq![
            '.',
        ] + fraction,
        fraction.len() == 0 && !(whole =~= seq![]) && !(whole =~= seq!['-']) && !(whole
            =~= seq!['-', '0']) ==> tidy_text(whole + seq!['.'] + fraction + zeros) == whole,
        fraction.len() == 0 && (whole =~= seq![] || whole =~= seq!['-'] || whole =~= seq![
            '-',
            '0',
        ]) ==> tidy_text(whole + seq!['.'] + fraction + zeros) == seq!['0'],
{
    let pointed = whole + seq!['.'] + fraction;
    let text = pointed + zeros;
    assert(text[whole.len() as int] == '.');
    assert(text.contains('.'));
    lemma_trim_end_through(pointed, zeros, '0');
    assert(pointed.len() > 0);
    if fraction.len() > 0 {
        assert(pointed.last() == fraction.last());
        lemma_trim_end_keeps(pointed, '0');
        assert(fraction.last() != '.');
        lemma_trim_end_keeps(pointed, '.');
        assert(pointed[whole.len() as int] == '.');
        assert(!(pointed =~= seq![]));
        assert(pointed.len() != 1 || pointed[0] != '-');
        if pointed.len() == 2 {
            assert(whole.len() <= 1);
            if whole.len() == 0 {
                assert(pointed[0] == '.');
            } else {
                assert(pointed[1] == '.');
            }
        }
        assert(!is_vanished(pointed));
    } else {
        assert(pointed =~= whole + seq!['.']);
        assert(pointed.last() == '.');
        lemma_trim_end_keeps(pointed, '0');
        assert(pointed.drop_last() =~= whole);
        assert(trim_end(pointed, '.') == trim_end(whole, '.'));
        if whole.len() > 0 {
            assert(whole.last() != '.');
        }
        lemma_trim_end_keeps(whole, '.');
    }
}

/// A label with no point is left as it is, unless it is nothing, a lone
/// minus or a negative zero, which read `0`.
pub proof fn lemma_tidy_whole(whole: Seq<char>)
    requires
        no_point(whole),
    ensures
        !(whole =~= seq![]) && !(whole =~= seq!['-']) && !(whole =~= seq!['-', '0'])
            ==> tidy_text(whole) == whole,
        (whole =~= seq![] || whole =~= seq!['-'] || whole =~= seq!['-', '0']) ==> tidy_text(whole)
            == seq!['0'],
{
    if whole.contains('.') {
        let j = choose|j: int| 0 <= j < whole.len() && whole[j] == '.';
        assert(whole[j] != '.');
    }
}

/// Until the cap is reached, what has been placed and what remains of the
/// budget add up to exactly [`MAX_TICKS`]; from the cap on nothing remains.
pub proof fn lemma_budget_is_what_remains(emitted: int)
    requires
        emitted >= 0,
    ensures
        emitted < MAX_TICKS ==> emitted + budget_after(emitted) == 4096,
        emitted >= MAX_TICKS ==> budget_after(emitted) == 0,
{
}

} // verus!
