//! Which lines are well-formed dataset records.

use crate::alphabet::{amino_acid, amino_acids, lemma_within_pushed, separates};
use crate::alphabet::{structure_code, structure_codes, within};
use crate::fields::{ends_in_field, fields, interleave, is_layout};
use crate::fields::{lemma_fields_of_interleaved, lemma_fields_of_pushed};
use vstd::prelude::*;

verus! {

/// Position, counted from zero, of the field that holds the amino-acid
/// sequence.
pub const AMINO_ACID_FIELD: usize = 4;

/// Position, counted from zero, of the field that holds the secondary
/// structure.
pub const STRUCTURE_FIELD: usize = 5;

/// Whether those of the two checked fields that `record` has stay within
/// their alphabets.
pub open spec fn checked_fields_pass(record: Seq<Seq<char>>) -> bool {
    &&& record.len() > AMINO_ACID_FIELD ==> within(
        record[AMINO_ACID_FIELD as int],
        amino_acids(),
    )
    &&& record.len() > STRUCTURE_FIELD ==> within(record[STRUCTURE_FIELD as int], structure_codes())
}

/// Whether `line` is a well-formed record: it has the amino-acid field and
/// the structure field, the first holds amino-acid codes only and the second
/// structure codes only.
pub open spec fn is_valid_record(line: Seq<char>) -> bool {
    &&& fields(line).len() > STRUCTURE_FIELD
    &&& within(fields(line)[AMINO_ACID_FIELD as int], amino_acids())
    &&& within(fields(line)[STRUCTURE_FIELD as int], structure_codes())
}

/// Decides whether `line` is a well-formed record. A line with too few fields
/// is none.
pub fn check_if_correct(line: &str) -> (ok: bool)
    ensures
        ok == is_valid_record(line@),
{
    // Fields begun so far, counted no further than two past the structure field.
    let mut begun: usize = 0;
    let mut inside = false;
    let mut ok = true;
    for c in it: line.chars()
        invariant
            it.seq() == line@,
            begun <= STRUCTURE_FIELD + 2,
            begun <= STRUCTURE_FIELD + 1 ==> begun == fields(line@.take(it.index())).len(),
            begun == STRUCTURE_FIELD + 2 ==> fields(line@.take(it.index())).len() >= begun,
            inside == ends_in_field(line@.take(it.index())),
            ok == checked_fields_pass(fields(line@.take(it.index()))),
    {
        let ghost read = line@.take(it.index());
        let ghost record = fields(read);
        proof {
            assert(line@.take(it.index() + 1) == read.push(c));
            lemma_fields_of_pushed(read, c);
            assert(read.push(c).last() == c);
        }
        if separates(c) {
            inside = false;
        } else {
            if !inside {
                if begun <= STRUCTURE_FIELD + 1 {
                    begun += 1;
                }
                proof {
                    lemma_within_pushed(Seq::empty(), c, amino_acids());
                    lemma_within_pushed(Seq::empty(), c, structure_codes());
                    assert(Seq::<char>::empty().push(c) == seq![c]);
                }
            } else {
                proof {
                    lemma_within_pushed(record.last(), c, amino_acids());
                    lemma_within_pushed(record.last(), c, structure_codes());
                }
            }
            inside = true;
            if begun == AMINO_ACID_FIELD + 1 {
                ok = ok && amino_acid(c);
            } else if begun == STRUCTURE_FIELD + 1 {
                ok = ok && structure_code(c);
            }
        }
    }
    assert(line@.take(line@.len() as int) == line@);
    begun > STRUCTURE_FIELD && ok
}

/// A line that lays words out between gaps is a well-formed record exactly
/// when there are enough words, the word in the amino-acid position holds
/// amino-acid codes only, and the word in the structure position holds
/// structure codes only.
pub proof fn lemma_record_of_words(words: Seq<Seq<char>>, gaps: Seq<Seq<char>>)
    requires
        is_layout(words, gaps),
    ensures
        is_valid_record(interleave(words, gaps)) <==> {
            &&& words.len() > STRUCTURE_FIELD
            &&& within(words[AMINO_ACID_FIELD as int], amino_acids())
            &&& within(words[STRUCTURE_FIELD as int], structure_codes())
        },
{
    lemma_fields_of_interleaved(words, gaps);
}

/// Spacing is immaterial: two lines that lay the same words out between
/// different gaps, at the ends or between the words, are both well-formed
/// records or both not.
pub proof fn lemma_spacing_is_immaterial(
    words: Seq<Seq<char>>,
    gaps: Seq<Seq<char>>,
    other_gaps: Seq<Seq<char>>,
)
    requires
        is_layout(words, gaps),
        is_layout(words, other_gaps),
    ensures
        is_valid_record(interleave(words, gaps)) == is_valid_record(
            interleave(words, other_gaps),
        ),
{
    lemma_fields_of_interleaved(words, gaps);
    lemma_fields_of_interleaved(words, other_gaps);
}

} // verus!
