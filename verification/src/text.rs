//! Small text helpers shared by the chrome and the command line.

use vstd::prelude::*;

verus! {

/// Whether two strings hold the same characters.
pub fn same_text(a: &str, b: &str) -> (same: bool)
    ensures
        same == (a@ == b@),
{
    let n = a.unicode_len();
    if n != b.unicode_len() {
        return false;
    }
    let mut i: usize = 0;
    while i < n
        invariant
            n == a@.len(),
            n == b@.len(),
            i <= n,
            forall|j: int| 0 <= j < i ==> a@[j] == b@[j],
        decreases n - i,
    {
        if a.get_char(i) != b.get_char(i) {
            return false;
        }
        i = i + 1;
    }
    assert(a@ =~= b@);
    true
}

/// `s` with a line break between every two characters, so that it reads
/// down a narrow strip.
pub open spec fn stacked(s: Seq<char>) -> Seq<char>
    decreases s.len(),
{
    if s.len() <= 1 {
        s
    } else {
        stacked(s.drop_last()) + seq!['\n', s.last()]
    }
}

/// A stacked text keeps its characters at the even places and puts line
/// breaks at the odd ones.
pub proof fn lemma_stacked(s: Seq<char>)
    ensures
        s.len() > 0 ==> stacked(s).len() == 2 * s.len() - 1,
        s.len() == 0 ==> stacked(s).len() == 0,
        forall|k: int| 0 <= k < s.len() ==> #[trigger] stacked(s)[2 * k] == s[k],
        forall|k: int| 0 <= k < s.len() - 1 ==> #[trigger] stacked(s)[2 * k + 1] == '\n',
    decreases s.len(),
{
    if s.len() > 1 {
        let front = s.drop_last();
        lemma_stacked(front);
        let whole = stacked(s);
        assert forall|k: int| 0 <= k < s.len() implies #[trigger] whole[2 * k] == s[k] by {
            if k < s.len() - 1 {
                assert(whole[2 * k] == stacked(front)[2 * k]);
            }
        }
        assert forall|k: int| 0 <= k < s.len() - 1 implies #[trigger] whole[2 * k + 1]
            == '\n' by {
            if k < s.len() - 2 {
                assert(whole[2 * k + 1] == stacked(front)[2 * k + 1]);
            }
        }
    }
}

/// Stacks a label's characters one per line, standing in for a rotated
/// sidebar handle.
pub fn vertical(text: &str) -> (stack: String)
    ensures
        stack@ == stacked(text@),
{
    let n = text.unicode_len();
    let mut stack = String::new();
    let mut i: usize = 0;
    proof {
        reveal_strlit("\n");
        assert(text@.subrange(0, 0) =~= seq![]);
    }
    while i < n
        invariant
            n == text@.len(),
            i <= n,
            stack@ == stacked(text@.subrange(0, i as int)),
            "\n"@ == seq!['\n'],
        decreases n - i,
    {
        let ghost front = text@.subrange(0, i as int);
        let ghost upto = text@.subrange(0, i + 1);
        if i > 0 {
            stack.append("\n");
        }
        let one = text.substring_char(i, i + 1);
        stack.append(one);
        proof {
            assert(upto.drop_last() =~= front);
            assert(one@ =~= seq![text@[i as int]]);
            if i == 0 {
                assert(stack@ =~= upto);
            } else {
                assert(stack@ =~= stacked(front) + seq!['\n', upto.last()]);
            }
        }
        i = i + 1;
    }
    proof {
        assert(text@.subrange(0, n as int) =~= text@);
    }
    stack
}

} // verus!
