//! Which lines of a dataset file's text are kept.

use crate::text::{last_index_of, lemma_last_index_of_is_last, push_char};
use crate::validate::{check_if_correct, is_valid_record};
use vstd::prelude::*;

verus! {

/// What follows the last line feed of `content`: all of it where it has none.
pub open spec fn open_line(content: Seq<char>) -> Seq<char> {
    content.skip(last_index_of(content, '\n') + 1)
}

/// `line` without the carriage return at its end, if it has one.
pub open spec fn without_return(line: Seq<char>) -> Seq<char> {
    if line.len() > 0 && line.last() == '\r' {
        line.drop_last()
    } else {
        line
    }
}

/// The lines of `content` that a line feed ends, in order: for each line feed
/// what stands between it and the line feed before it, without the carriage
/// return that may precede it.
pub open spec fn closed_lines(content: Seq<char>) -> Seq<Seq<char>>
    decreases content.len(),
{
    if content.len() == 0 {
        Seq::empty()
    } else if content.last() == '\n' {
        closed_lines(content.drop_last()).push(without_return(open_line(content.drop_last())))
    } else {
        closed_lines(content.drop_last())
    }
}

/// The lines of `content`: those that a line feed ends and, where the text
/// goes on after the last line feed, the rest of it as it stands.
pub open spec fn lines(content: Seq<char>) -> Seq<Seq<char>> {
    if open_line(content).len() > 0 {
        closed_lines(content).push(open_line(content))
    } else {
        closed_lines(content)
    }
}

/// Those of `lines` that are well-formed records, in order.
pub open spec fn valid_records(lines: Seq<Seq<char>>) -> Seq<Seq<char>> {
    lines.filter(|line: Seq<char>| is_valid_record(line))
}

/// The lines of `content` that are well-formed records, in order.
pub open spec fn valid_lines(content: Seq<char>) -> Seq<Seq<char>> {
    valid_records(lines(content))
}

/// What one more character does to the open line.
pub proof fn lemma_open_line_pushed(content: Seq<char>, c: char)
    ensures
        open_line(content.push(c)) == if c == '\n' {
            Seq::empty()
        } else {
            open_line(content).push(c)
        },
{
    lemma_last_index_of_is_last(content, '\n');
    assert(content.push(c).drop_last() == content);
}

/// Every one of the valid records is a well-formed record and one of the
/// lines they were taken from.
pub proof fn lemma_valid_records_are_valid(lines: Seq<Seq<char>>)
    ensures
        forall|i: int|
            0 <= i < valid_records(lines).len() ==> {
                &&& is_valid_record(#[trigger] valid_records(lines)[i])
                &&& lines.contains(valid_records(lines)[i])
            },
    decreases lines.len(),
{
    reveal(Seq::filter);
    if lines.len() > 0 {
        let head = lines.drop_last();
        lemma_valid_records_are_valid(head);
        assert forall|i: int| 0 <= i < valid_records(lines).len() implies lines.contains(
            #[trigger] valid_records(lines)[i],
        ) by {
            if i < valid_records(head).len() {
                let k = choose|k: int| 0 <= k < head.len() && head[k] == valid_records(head)[i];
                assert(lines[k] == valid_records(head)[i]);
            } else {
                assert(lines[lines.len() - 1] == valid_records(lines)[i]);
            }
        }
    }
}

/// The text that reads each of `rows` with a line feed after it.
pub open spec fn terminated(rows: Seq<Seq<char>>) -> Seq<char>
    decreases rows.len(),
{
    if rows.len() == 0 {
        Seq::empty()
    } else {
        terminated(rows.drop_last()) + rows.last().push('\n')
    }
}

/// Whether `row` fits on one line: it holds no line feed.
pub open spec fn is_row(row: Seq<char>) -> bool {
    forall|i: int| 0 <= i < row.len() ==> #[trigger] row[i] != '\n'
}

/// Each of `rows` without the carriage return at its end.
pub open spec fn without_returns(rows: Seq<Seq<char>>) -> Seq<Seq<char>> {
    rows.map_values(|row: Seq<char>| without_return(row))
}

/// A row written after a text with no open line closes no line and is the
/// open line.
pub proof fn lemma_row_stays_open(content: Seq<char>, row: Seq<char>)
    requires
        is_row(row),
        open_line(content).len() == 0,
    ensures
        closed_lines(content + row) == closed_lines(content),
        open_line(content + row) == row,
    decreases row.len(),
{
    if row.len() == 0 {
        assert(content + row == content);
        assert(open_line(content) == row);
    } else {
        let head = row.drop_last();
        let c = row.last();
        assert(is_row(head)) by {
            assert forall|i: int| 0 <= i < head.len() implies #[trigger] head[i] != '\n' by {
                assert(head[i] == row[i]);
            }
        }
        lemma_row_stays_open(content, head);
        lemma_open_line_pushed(content + head, c);
        assert(content + row == (content + head).push(c));
        assert((content + head).push(c).drop_last() == content + head);
        assert(head.push(c) == row);
    }
}

/// The lines of rows written one after another, each with a line feed after
/// it, and of a last row without one: the rows, each without the carriage
/// return at its end, and the last row as it stands unless it is empty.
pub proof fn lemma_lines_of_rows(rows: Seq<Seq<char>>, rest: Seq<char>)
    requires
        forall|k: int| 0 <= k < rows.len() ==> is_row(#[trigger] rows[k]),
        is_row(rest),
    ensures
        closed_lines(terminated(rows)) == without_returns(rows),
        open_line(terminated(rows)).len() == 0,
        lines(terminated(rows) + rest) == if rest.len() > 0 {
            without_returns(rows).push(rest)
        } else {
            without_returns(rows)
        },
    decreases rows.len(),
{
    if rows.len() == 0 {
        assert(without_returns(rows) == Seq::<Seq<char>>::empty());
    } else {
        let fewer = rows.drop_last();
        let row = rows.last();
        lemma_lines_of_rows(fewer, row);
        let written = terminated(fewer) + row;
        lemma_row_stays_open(terminated(fewer), row);
        lemma_open_line_pushed(written, '\n');
        assert(terminated(rows) == written.push('\n'));
        assert(written.push('\n').drop_last() == written);
        assert(without_returns(fewer).push(without_return(row)) == without_returns(rows));
    }
    lemma_row_stays_open(terminated(rows), rest);
}

/// The lines of `content`, the text of a dataset file, that are well-formed
/// records, in the order of the file. A line ends at a line feed, and a
/// carriage return before the line feed is no part of it.
pub fn read_lines(content: &str) -> (kept: Vec<String>)
    ensures
        kept.deep_view() == valid_lines(content@),
        forall|i: int| 0 <= i < kept.len() ==> is_valid_record(#[trigger] kept[i]@),
{
    let mut kept: Vec<String> = Vec::new();
    let mut line = String::new();
    // Whether a carriage return was read that `line` does not hold yet.
    let mut held = false;
    for c in it: content.chars()
        invariant
            it.seq() == content@,
            kept.deep_view() == valid_records(closed_lines(content@.take(it.index()))),
            open_line(content@.take(it.index())) == if held {
                line@.push('\r')
            } else {
                line@
            },
            without_return(open_line(content@.take(it.index()))) == line@,
    {
        let ghost read = content@.take(it.index());
        proof {
            reveal(Seq::filter);
            assert(content@.take(it.index() + 1) == read.push(c));
            assert(read.push(c).drop_last() == read);
            lemma_open_line_pushed(read, c);
        }
        if c == '\n' {
            let ghost done = line@;
            let ghost closed = closed_lines(read);
            proof {
                assert(closed_lines(read.push(c)) == closed.push(done));
                assert(closed.push(done).drop_last() == closed);
                assert(valid_records(closed.push(done)) == if is_valid_record(done) {
                    valid_records(closed).push(done)
                } else {
                    valid_records(closed)
                });
            }
            if check_if_correct(line.as_str()) {
                let ghost before = kept.deep_view();
                kept.push(line);
                assert(kept.deep_view() == before.push(done));
            }
            line = String::new();
            held = false;
        } else {
            assert(closed_lines(read.push(c)) == closed_lines(read));
            if held {
                push_char(&mut line, '\r');
            }
            if c == '\r' {
                held = true;
            } else {
                push_char(&mut line, c);
                held = false;
            }
        }
    }
    assert(content@.take(content@.len() as int) == content@);
    if held {
        push_char(&mut line, '\r');
    }
    proof {
        reveal(Seq::filter);
        if open_line(content@).len() > 0 {
            assert(lines(content@).drop_last() == closed_lines(content@));
        }
    }
    if !line.as_str().is_empty() && check_if_correct(line.as_str()) {
        let ghost before = kept.deep_view();
        kept.push(line);
        assert(kept.deep_view() == before.push(open_line(content@)));
    }
    proof {
        lemma_valid_records_are_valid(lines(content@));
        assert forall|i: int| 0 <= i < kept.len() implies is_valid_record(#[trigger] kept[i]@) by {
            assert(kept.deep_view()[i] == kept[i]@);
        }
    }
    kept
}

} // verus!
