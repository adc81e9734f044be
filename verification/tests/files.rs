use scraper::{check_if_correct, read_lines};
use std::io::{BufRead, Cursor};

#[test]
fn keeps_the_record_and_drops_the_foreign_code() {
    let content = "1 2 3 4 ARNDCQEGHI HHHEEECCCC\n1 2 3 4 ARNDX HHHEE\n";
    assert_eq!(read_lines(content), vec!["1 2 3 4 ARNDCQEGHI HHHEEECCCC".to_string()]);
}

#[test]
fn keeps_records_in_the_order_of_the_file() {
    let content = "9 9 9 9 VVV CCC\nshort line\n1 1 1 1 AAA HHH\n\n5 5 5 5 RRR EEE\n";
    assert_eq!(
        read_lines(content),
        vec![
            "9 9 9 9 VVV CCC".to_string(),
            "1 1 1 1 AAA HHH".to_string(),
            "5 5 5 5 RRR EEE".to_string(),
        ]
    );
}

#[test]
fn keeps_a_record_twice_that_stands_twice() {
    let content = "1 2 3 4 A H\n1 2 3 4 A H\n";
    assert_eq!(read_lines(content), vec!["1 2 3 4 A H".to_string(), "1 2 3 4 A H".to_string()]);
}

#[test]
fn keeps_a_last_line_without_a_line_feed() {
    assert_eq!(read_lines("1 2 3 4 A H"), vec!["1 2 3 4 A H".to_string()]);
    assert_eq!(
        read_lines("x\n1 2 3 4 AR HE\n1 2 3 4 ND EC"),
        vec!["1 2 3 4 AR HE".to_string(), "1 2 3 4 ND EC".to_string()]
    );
}

#[test]
fn drops_the_carriage_return_before_a_line_feed() {
    assert_eq!(
        read_lines("1 2 3 4 A H\r\n1 2 3 4 C E\r\n"),
        vec!["1 2 3 4 A H".to_string(), "1 2 3 4 C E".to_string()]
    );
}

#[test]
fn keeps_other_carriage_returns() {
    assert_eq!(read_lines("1 2 3 4 A H\r"), vec!["1 2 3 4 A H\r".to_string()]);
    assert_eq!(read_lines("1 2 3 4 A H\r\r\n"), vec!["1 2 3 4 A H\r".to_string()]);
    assert_eq!(read_lines("1 2 3\r4 A H\n"), vec!["1 2 3\r4 A H".to_string()]);
    assert_eq!(read_lines("1 2 3 4\r\rA H x\n"), vec!["1 2 3 4\r\rA H x".to_string()]);
}

#[test]
fn keeps_the_spacing_of_a_record() {
    assert_eq!(read_lines("  1\t2  3 4   ARND  HHHE \n"), vec!["  1\t2  3 4   ARND  HHHE ".to_string()]);
}

#[test]
fn keeps_nothing_of_a_text_without_records() {
    assert_eq!(read_lines(""), Vec::<String>::new());
    assert_eq!(read_lines("\n"), Vec::<String>::new());
    assert_eq!(read_lines("\n\r\n\n"), Vec::<String>::new());
    assert_eq!(read_lines("1 2 3 4 5\n1 2 3 4 ARNDX HHHEE\n"), Vec::<String>::new());
}

#[test]
fn a_record_does_not_run_across_lines() {
    assert_eq!(read_lines("1 2 3\n4 A H\n"), Vec::<String>::new());
    assert_eq!(read_lines("1 2 3 4 A\nH\n"), Vec::<String>::new());
}

#[test]
fn keeps_exactly_the_lines_that_pass() {
    let contents = [
        "1 2 3 4 ARNDCQEGHI HHHEEECCCC\n1 2 3 4 ARNDX HHHEE\n",
        "a b c d E E\r\n\r\nq\r\na b c d E Q\r\na b c d LK CC",
        "\n\n1 2 3 4 5 6\n1 2 3 4 H H \r",
        "no line feed at all",
        "é è ê ë A H\nπ π π π π π\n",
        "",
    ];
    for content in contents {
        let expected: Vec<String> = Cursor::new(content)
            .lines()
            .map(|line| line.unwrap())
            .filter(|line| check_if_correct(line))
            .collect();
        assert_eq!(read_lines(content), expected, "{:?}", content);
    }
}
