//! Reading the characters of a string.

use vstd::prelude::*;

verus! {

/// Position of the last `c` in `text`, or -1 where there is none.
pub open spec fn last_index_of(text: Seq<char>, c: char) -> int
    decreases text.len(),
{
    if text.len() == 0 {
        -1
    } else if text.last() == c {
        text.len() - 1
    } else {
        last_index_of(text.drop_last(), c)
    }
}

/// The characters of `text`, in order.
pub fn characters(text: &str) -> (chars: Vec<char>)
    ensures
        chars@ == text@,
{
    let mut chars: Vec<char> = Vec::new();
    for c in it: text.chars()
        invariant
            it.seq() == text@,
            chars@ == text@.take(it.index()),
    {
        assert(text@.take(it.index() + 1) == text@.take(it.index()).push(c));
        chars.push(c);
    }
    assert(text@.take(text@.len() as int) == text@);
    chars
}

/// Position of the last `c` among the characters of `text` from `start` up to
/// `end`, if there is one.
pub fn last_position(text: &Vec<char>, start: usize, end: usize, c: char) -> (found: Option<usize>)
    requires
        start <= end <= text.len(),
    ensures
        match found {
            Some(at) => start <= at < end && at - start == last_index_of(
                text@.subrange(start as int, end as int),
                c,
            ),
            None => last_index_of(text@.subrange(start as int, end as int), c) == -1,
        },
{
    let ghost part = text@.subrange(start as int, end as int);
    let mut at = end;
    while at > start
        invariant
            start <= at <= end <= text.len(),
            part == text@.subrange(start as int, end as int),
            forall|j: int| at - start <= j < part.len() ==> part[j] != c,
        decreases at,
    {
        at -= 1;
        if text[at] == c {
            proof {
                lemma_last_index_of(part, c, at - start);
            }
            return Some(at);
        }
    }
    proof {
        lemma_last_index_of(part, c, -1);
    }
    None
}

/// [`last_index_of`] is the one position that holds `c` and has no `c` after
/// it, or -1 where `text` holds no `c`.
pub proof fn lemma_last_index_of(text: Seq<char>, c: char, at: int)
    requires
        -1 <= at < text.len(),
        at >= 0 ==> text[at] == c,
        forall|j: int| at < j < text.len() ==> text[j] != c,
    ensures
        last_index_of(text, c) == at,
    decreases text.len(),
{
    if text.len() > 0 && text.last() != c {
        lemma_last_index_of(text.drop_last(), c, at);
    }
}

/// [`last_index_of`] lies within `text` or is -1, holds `c` where it lies
/// within, and has no `c` after it.
pub proof fn lemma_last_index_of_is_last(text: Seq<char>, c: char)
    ensures
        -1 <= last_index_of(text, c) < text.len(),
        last_index_of(text, c) >= 0 ==> text[last_index_of(text, c)] == c,
        forall|j: int| last_index_of(text, c) < j < text.len() ==> text[j] != c,
    decreases text.len(),
{
    if text.len() > 0 && text.last() != c {
        let head = text.drop_last();
        lemma_last_index_of_is_last(head, c);
        assert forall|j: int| last_index_of(text, c) < j < text.len() implies text[j] != c by {
            if j < head.len() {
                assert(head[j] == text[j]);
            }
        }
    }
}

/// Appends `c` to `text`. This is `String::push` of the standard library,
/// which is taken at its word: the text afterwards is the text before with
/// `c` at its end.
#[verifier::external_body]
pub(crate) fn push_char(text: &mut String, c: char)
    ensures
        final(text)@ == old(text)@.push(c),
{
    text.push(c);
}

} // verus!
