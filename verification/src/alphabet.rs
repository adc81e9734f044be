//! The character classes that a dataset record is made of.

use vstd::prelude::*;

verus! {

/// Whether `c` separates fields: the code points that Unicode gives the
/// property `White_Space`.
pub open spec fn is_space(c: char) -> bool {
    ||| '\u{9}' <= c <= '\u{d}'
    ||| c == ' '
    ||| c == '\u{85}'
    ||| c == '\u{a0}'
    ||| c == '\u{1680}'
    ||| '\u{2000}' <= c <= '\u{200a}'
    ||| c == '\u{2028}'
    ||| c == '\u{2029}'
    ||| c == '\u{202f}'
    ||| c == '\u{205f}'
    ||| c == '\u{3000}'
}

/// The twenty one-letter amino-acid codes.
pub open spec fn amino_acids() -> Set<char> {
    set![
        'A', 'R', 'N', 'D', 'C', 'Q', 'E', 'G', 'H', 'I',
        'L', 'K', 'M', 'F', 'P', 'S', 'T', 'W', 'Y', 'V',
    ]
}

/// The three secondary-structure codes: helix, strand and coil.
pub open spec fn structure_codes() -> Set<char> {
    set!['H', 'E', 'C']
}

/// Whether every character of `field` belongs to `alphabet`.
pub open spec fn within(field: Seq<char>, alphabet: Set<char>) -> bool {
    forall|i: int| 0 <= i < field.len() ==> alphabet.contains(#[trigger] field[i])
}

/// A field that grows by one character stays within an alphabet exactly when
/// it was within it and the new character belongs to it.
pub proof fn lemma_within_pushed(field: Seq<char>, c: char, alphabet: Set<char>)
    ensures
        within(field.push(c), alphabet) == (within(field, alphabet) && alphabet.contains(c)),
{
    let grown = field.push(c);
    if within(grown, alphabet) {
        assert(grown[field.len() as int] == c);
        assert forall|i: int| 0 <= i < field.len() implies alphabet.contains(
            #[trigger] field[i],
        ) by {
            assert(grown[i] == field[i]);
        }
    }
}

/// Decides [`is_space`].
pub fn separates(c: char) -> (r: bool)
    ensures
        r == is_space(c),
{
    ('\u{9}' <= c && c <= '\u{d}') || c == ' ' || c == '\u{85}' || c == '\u{a0}' || c
        == '\u{1680}' || ('\u{2000}' <= c && c <= '\u{200a}') || c == '\u{2028}' || c
        == '\u{2029}' || c == '\u{202f}' || c == '\u{205f}' || c == '\u{3000}'
}

/// Decides membership in [`amino_acids`].
pub fn amino_acid(c: char) -> (r: bool)
    ensures
        r == amino_acids().contains(c),
{
    match c {
        'A' | 'R' | 'N' | 'D' | 'C' | 'Q' | 'E' | 'G' | 'H' | 'I' => true,
        'L' | 'K' | 'M' | 'F' | 'P' | 'S' | 'T' | 'W' | 'Y' | 'V' => true,
        _ => false,
    }
}

/// Decides membership in [`structure_codes`].
pub fn structure_code(c: char) -> (r: bool)
    ensures
        r == structure_codes().contains(c),
{
    c == 'H' || c == 'E' || c == 'C'
}

} // verus!
