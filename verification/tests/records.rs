use scraper::alphabet::{amino_acid, separates, structure_code};
use scraper::check_if_correct;

#[test]
fn accepts_a_record_within_both_alphabets() {
    assert!(check_if_correct("1 2 3 4 ARNDCQEGHI HHHEEECCCC"));
}

#[test]
fn accepts_every_amino_acid_code() {
    assert!(check_if_correct("a b c d ARNDCQEGHILKMFPSTWYV HEC"));
}

#[test]
fn rejects_a_foreign_amino_acid_code() {
    assert!(!check_if_correct("1 2 3 4 ARNDX HHHEE"));
}

#[test]
fn rejects_a_foreign_structure_code() {
    assert!(!check_if_correct("1 2 3 4 ARND HHXE"));
}

#[test]
fn rejects_a_foreign_code_wherever_it_stands() {
    assert!(!check_if_correct("1 2 3 4 XARND HHHEE"));
    assert!(!check_if_correct("1 2 3 4 ARXND HHHEE"));
    assert!(!check_if_correct("1 2 3 4 ARND HHHEB"));
    assert!(!check_if_correct("1 2 3 4 ARND BHHHE"));
}

#[test]
fn rejects_lower_case_codes() {
    assert!(!check_if_correct("1 2 3 4 arnd HHHE"));
    assert!(!check_if_correct("1 2 3 4 ARND hhhe"));
}

#[test]
fn structure_codes_are_no_amino_acid_alphabet() {
    // B, J, O, U, X and Z are letters but no amino-acid codes.
    for c in ['B', 'J', 'O', 'U', 'X', 'Z'] {
        let line = format!("1 2 3 4 A{} H", c);
        assert!(!check_if_correct(&line));
    }
    // Amino-acid codes other than H, E and C are no structure codes.
    assert!(!check_if_correct("1 2 3 4 A A"));
    assert!(!check_if_correct("1 2 3 4 A HEG"));
}

#[test]
fn rejects_a_line_with_too_few_fields() {
    assert!(!check_if_correct(""));
    assert!(!check_if_correct("   \t "));
    assert!(!check_if_correct("ARND"));
    assert!(!check_if_correct("1 2 3 4 ARND"));
    assert!(!check_if_correct("1 2 3 ARND HHHE"));
}

#[test]
fn ignores_fields_other_than_the_two_checked() {
    assert!(check_if_correct("?? xx 1.5 -- ARND HHHE"));
    assert!(check_if_correct("1 2 3 4 ARND HHHE trailing XXXX 99"));
    assert!(!check_if_correct("ARND HHHE 3 4 5 6"));
}

#[test]
fn spacing_is_immaterial() {
    let plain = "1 2 3 4 ARND HHHE";
    let spaced = "  1\t2   3 \t 4\u{a0}ARND\u{2003}\u{3000}HHHE \r";
    assert!(check_if_correct(plain));
    assert!(check_if_correct(spaced));
    let bad_plain = "1 2 3 4 ARNX HHHE";
    let bad_spaced = "\t1  2 3   4    ARNX     HHHE  ";
    assert!(!check_if_correct(bad_plain));
    assert!(!check_if_correct(bad_spaced));
}

#[test]
fn a_character_that_is_no_separator_joins_fields() {
    // A zero-width space separates nothing: the line has five fields.
    assert!(!check_if_correct("1 2 3 4 ARND\u{200b}HHHE"));
    // With a sixth field the fifth holds a foreign character.
    assert!(!check_if_correct("1 2 3 4 ARND\u{200b}HHHE HHHE"));
}

#[test]
fn agrees_with_splitting_on_whitespace() {
    let lines = [
        "1 2 3 4 ARNDCQEGHI HHHEEECCCC",
        "1 2 3 4 ARNDX HHHEE",
        " 1  2\t3\n4 LKMFPSTWYV CCCCCCCCCC 7",
        "1 2 3 4 5",
        "1 2 3 4 5 6",
        "x x x x H H",
        "x x x x HEC HEC x",
        "x x x x V V",
        "",
    ];
    for line in lines {
        let fields: Vec<&str> = line.split_whitespace().collect();
        let expected = fields.len() >= 6
            && fields[4].chars().all(|c| "ARNDCQEGHILKMFPSTWYV".contains(c))
            && fields[5].chars().all(|c| "HEC".contains(c));
        assert_eq!(check_if_correct(line), expected);
    }
}

#[test]
fn separators_are_the_whitespace_characters() {
    let mut c = '\0';
    loop {
        assert_eq!(separates(c), c.is_whitespace());
        if c == char::MAX {
            break;
        }
        c = match char::from_u32(c as u32 + 1) {
            Some(next) => next,
            None => '\u{e000}',
        };
    }
}

#[test]
fn amino_acid_codes_are_twenty() {
    let codes = "ARNDCQEGHILKMFPSTWYV";
    let mut count = 0;
    for c in '\0'..='\u{ff}' {
        assert_eq!(amino_acid(c), codes.contains(c));
        if amino_acid(c) {
            count += 1;
        }
    }
    assert_eq!(count, 20);
    assert!(!amino_acid('\u{391}'));
}

#[test]
fn structure_codes_are_three() {
    for c in '\0'..='\u{ff}' {
        assert_eq!(structure_code(c), c == 'H' || c == 'E' || c == 'C');
    }
}
