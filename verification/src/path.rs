//! The extension of the file that a path names.
//!
//! Paths are read as on Unix: `/` separates components, empty components and
//! `.` components name nothing, and `..` names the parent directory.

use crate::text::{characters, last_index_of, last_position};
use vstd::prelude::*;
use vstd::string::StrSliceExecFns;

verus! {

/// What follows the last `/` of `path`: all of it where it has none.
pub open spec fn final_component(path: Seq<char>) -> Seq<char> {
    path.skip(last_index_of(path, '/') + 1)
}

/// The name of the file or directory that `path` leads to: its last component
/// that is neither empty nor `.`, unless there is none or it is `..`.
pub open spec fn file_name(path: Seq<char>) -> Option<Seq<char>>
    decreases path.len(),
{
    if path.len() == 0 {
        None
    } else {
        let name = final_component(path);
        if name.len() == 0 || name == seq!['.'] {
            file_name(path.drop_last())
        } else if name == seq!['.', '.'] {
            None
        } else {
            Some(name)
        }
    }
}

/// The extension of the file that `path` names: what follows the last `.` of
/// the file name. A path without a file name has none, nor has a name without
/// a `.`, nor one whose only `.` is its first character.
pub open spec fn extension(path: Seq<char>) -> Option<Seq<char>> {
    match file_name(path) {
        None => None,
        Some(name) => {
            let dot = last_index_of(name, '.');
            if dot <= 0 {
                None
            } else {
                Some(name.skip(dot + 1))
            }
        },
    }
}

/// Where the file name of `path` begins and ends, if it has one.
fn name_bounds(path: &Vec<char>) -> (found: Option<(usize, usize)>)
    ensures
        match found {
            Some((start, end)) => start < end <= path.len() && file_name(path@) == Some(
                path@.subrange(start as int, end as int),
            ),
            None => file_name(path@) is None,
        },
{
    let mut end = path.len();
    assert(path@.take(end as int) == path@);
    while end > 0
        invariant
            end <= path.len(),
            file_name(path@) == file_name(path@.take(end as int)),
        decreases end,
    {
        let ghost read = path@.take(end as int);
        let start = match last_position(path, 0, end, '/') {
            Some(at) => at + 1,
            None => 0,
        };
        proof {
            assert(path@.subrange(0, end as int) == read);
            assert(final_component(read) == path@.subrange(start as int, end as int));
            assert(read.drop_last() == path@.take(end - 1));
        }
        let len = end - start;
        if len == 0 || (len == 1 && path[start] == '.') {
            proof {
                if len == 1 {
                    assert(final_component(read) == seq!['.']);
                }
            }
            end -= 1;
        } else if len == 2 && path[start] == '.' && path[start + 1] == '.' {
            proof {
                assert(final_component(read) == seq!['.', '.']);
                assert(seq!['.', '.'] != seq!['.']);
            }
            return None;
        } else {
            proof {
                let name = final_component(read);
                if name == seq!['.'] {
                    assert(name.len() == 1 && name[0] == '.');
                }
                if name == seq!['.', '.'] {
                    assert(name.len() == 2 && name[0] == '.' && name[1] == '.');
                }
            }
            return Some((start, end));
        }
    }
    None
}

/// The extension of the file that `file` names, without its leading `.`.
pub fn get_extension(file: &str) -> (found: Option<&str>)
    ensures
        match found {
            Some(ext) => extension(file@) == Some(ext@),
            None => extension(file@) is None,
        },
{
    let path = characters(file);
    match name_bounds(&path) {
        None => None,
        Some((start, end)) => match last_position(&path, start, end, '.') {
            None => None,
            Some(dot) => {
                if dot == start {
                    None
                } else {
                    proof {
                        let name = path@.subrange(start as int, end as int);
                        assert(name.skip(dot - start + 1) == file@.subrange(
                            dot + 1,
                            end as int,
                        ));
                    }
                    Some(file.substring_char(dot + 1, end))
                }
            },
        },
    }
}

} // verus!
