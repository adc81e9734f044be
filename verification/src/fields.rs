//! How a line of text falls into whitespace-separated fields.

use crate::alphabet::is_space;
use vstd::prelude::*;

verus! {

/// Whether `text` ends inside a field: its last character is no separator.
pub open spec fn ends_in_field(text: Seq<char>) -> bool {
    text.len() > 0 && !is_space(text.last())
}

/// Whether every character of `text` is a separator.
pub open spec fn is_blank(text: Seq<char>) -> bool {
    forall|i: int| 0 <= i < text.len() ==> is_space(#[trigger] text[i])
}

/// Whether `text` is a field: not empty, and free of separators.
pub open spec fn is_word(text: Seq<char>) -> bool {
    &&& text.len() > 0
    &&& forall|i: int| 0 <= i < text.len() ==> !is_space(#[trigger] text[i])
}

/// The fields of `text`, from left to right: its maximal runs of characters
/// that are no separators.
///
/// Read from the left, a separator leaves the fields as they are, a character
/// that follows a field's character extends the last field, and any other
/// character opens a new one.
pub open spec fn fields(text: Seq<char>) -> Seq<Seq<char>>
    decreases text.len(),
{
    if text.len() == 0 {
        Seq::empty()
    } else {
        let before = fields(text.drop_last());
        let c = text.last();
        if is_space(c) {
            before
        } else if ends_in_field(text.drop_last()) {
            before.drop_last().push(before.last().push(c))
        } else {
            before.push(seq![c])
        }
    }
}

/// What one more character does to the fields of `text`.
pub proof fn lemma_fields_of_pushed(text: Seq<char>, c: char)
    ensures
        is_space(c) ==> fields(text.push(c)) == fields(text),
        !is_space(c) && ends_in_field(text) ==> {
            &&& fields(text).len() > 0
            &&& fields(text.push(c)) == fields(text).drop_last().push(fields(text).last().push(c))
        },
        !is_space(c) && !ends_in_field(text) ==> fields(text.push(c)) == fields(text).push(
            seq![c],
        ),
{
    assert(text.push(c).drop_last() == text);
    lemma_fields_are_words(text);
}

/// Every field is a word, and a text that ends inside a field has one.
pub proof fn lemma_fields_are_words(text: Seq<char>)
    ensures
        forall|k: int| 0 <= k < fields(text).len() ==> is_word(#[trigger] fields(text)[k]),
        ends_in_field(text) ==> fields(text).len() > 0,
    decreases text.len(),
{
    if text.len() > 0 {
        let head = text.drop_last();
        let c = text.last();
        lemma_fields_are_words(head);
        if is_space(c) {
        } else if ends_in_field(head) {
            let grown = fields(head).last().push(c);
            assert(is_word(fields(head).last()));
            assert forall|i: int| 0 <= i < grown.len() implies !is_space(#[trigger] grown[i]) by {
                if i < grown.len() - 1 {
                    assert(grown[i] == fields(head).last()[i]);
                }
            }
            assert forall|k: int| 0 <= k < fields(text).len() implies is_word(
                #[trigger] fields(text)[k],
            ) by {
                if k < fields(text).len() - 1 {
                    assert(fields(text)[k] == fields(head)[k]);
                }
            }
        } else {
            assert(is_word(seq![c]));
            assert forall|k: int| 0 <= k < fields(text).len() implies is_word(
                #[trigger] fields(text)[k],
            ) by {
                if k < fields(text).len() - 1 {
                    assert(fields(text)[k] == fields(head)[k]);
                }
            }
        }
    }
}

/// A blank text has no fields.
pub proof fn lemma_fields_of_blank(text: Seq<char>)
    requires
        is_blank(text),
    ensures
        fields(text) == Seq::<Seq<char>>::empty(),
    decreases text.len(),
{
    if text.len() > 0 {
        lemma_fields_of_blank(text.drop_last());
    }
}

/// A word is its own single field.
pub proof fn lemma_fields_of_word(text: Seq<char>)
    requires
        is_word(text),
    ensures
        fields(text) == seq![text],
    decreases text.len(),
{
    let head = text.drop_last();
    let c = text.last();
    assert(!is_space(c));
    if head.len() > 0 {
        assert forall|i: int| 0 <= i < head.len() implies !is_space(#[trigger] head[i]) by {
            assert(head[i] == text[i]);
        }
        lemma_fields_of_word(head);
        assert(!is_space(head.last()));
        assert(head.push(c) =~= text);
        assert(seq![head].drop_last().push(seq![head].last().push(c)) =~= seq![text]);
    } else {
        assert(fields(head) =~= Seq::<Seq<char>>::empty());
        assert(seq![c] =~= text);
        assert(fields(head).push(seq![c]) =~= seq![text]);
    }
}

/// Where no field runs across the seam between `left` and `right`, the fields
/// of the two texts joined are those of `left` followed by those of `right`.
pub proof fn lemma_fields_of_joined(left: Seq<char>, right: Seq<char>)
    requires
        !ends_in_field(left) || right.len() == 0 || is_space(right[0]),
    ensures
        fields(left + right) == fields(left) + fields(right),
    decreases right.len(),
{
    if right.len() == 0 {
        assert(left + right == left);
        assert(fields(left) + fields(right) == fields(left));
    } else {
        let head = right.drop_last();
        let c = right.last();
        lemma_fields_of_joined(left, head);
        lemma_fields_are_words(head);
        assert((left + right).drop_last() == left + head);
        assert((left + right).last() == c);
        if is_space(c) {
        } else if head.len() == 0 {
            assert(left + head == left);
            assert(fields(left).push(seq![c]) == fields(left) + fields(right));
        } else if ends_in_field(head) {
            assert(ends_in_field(left + head));
            let grown = fields(head).last().push(c);
            assert((fields(left) + fields(head)).drop_last().push(grown) == fields(left)
                + fields(head).drop_last().push(grown));
        } else {
            assert(!ends_in_field(left + head));
            assert((fields(left) + fields(head)).push(seq![c]) == fields(left) + fields(
                head,
            ).push(seq![c]));
        }
    }
}

/// The text that reads `gaps[0]`, `words[0]`, `gaps[1]`, `words[1]` and so on,
/// and ends with the last gap.
pub open spec fn interleave(words: Seq<Seq<char>>, gaps: Seq<Seq<char>>) -> Seq<char>
    recommends
        gaps.len() == words.len() + 1,
    decreases words.len(),
{
    if words.len() == 0 {
        gaps.last()
    } else {
        interleave(words.drop_last(), gaps.drop_last()) + words.last() + gaps.last()
    }
}

/// Whether `gaps` can separate `words`: there is a gap before each word and
/// one after the last, the words are words, the gaps are blank, and only the
/// first and the last gap may be empty.
pub open spec fn is_layout(words: Seq<Seq<char>>, gaps: Seq<Seq<char>>) -> bool {
    &&& gaps.len() == words.len() + 1
    &&& forall|k: int| 0 <= k < words.len() ==> is_word(#[trigger] words[k])
    &&& forall|k: int| 0 <= k < gaps.len() ==> is_blank(#[trigger] gaps[k])
    &&& forall|k: int| 0 < k < words.len() ==> (#[trigger] gaps[k]).len() > 0
}

/// The fields of words laid out between gaps are those words, whatever the
/// gaps are made of.
pub proof fn lemma_fields_of_interleaved(words: Seq<Seq<char>>, gaps: Seq<Seq<char>>)
    requires
        is_layout(words, gaps),
    ensures
        fields(interleave(words, gaps)) == words,
    decreases words.len(),
{
    if words.len() == 0 {
        lemma_fields_of_blank(gaps.last());
        assert(words =~= Seq::empty());
    } else {
        let fewer = words.drop_last();
        let before = gaps.drop_last();
        let read = interleave(fewer, before);
        let word = words.last();
        let gap = gaps.last();
        lemma_fields_of_interleaved(fewer, before);
        assert(is_blank(before.last()));
        assert(!ends_in_field(read)) by {
            if fewer.len() > 0 {
                assert(before.last() == gaps[fewer.len() as int]);
                assert(before.last().len() > 0);
                assert(read.last() == before.last().last());
            }
        }
        lemma_fields_of_word(word);
        lemma_fields_of_blank(gap);
        lemma_fields_of_joined(word, gap);
        lemma_fields_of_joined(read, word + gap);
        assert(read + word + gap =~= read + (word + gap));
        assert(fewer + (seq![word] + Seq::empty()) =~= words);
    }
}

} // verus!
